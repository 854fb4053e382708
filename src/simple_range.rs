//! A range check by a polynomial gate: a value cell with a selector that enforces
//! `v * (1 - v) * ... * (range - 1 - v) = 0` on its row.
use crate::assembly::{Assembly, CellState};
use crate::checker::has_selector;
use crate::circuit::{Column, ColumnKind, ConstraintSystem, Expression, Gate, Selector};
use crate::error::Error;
use crate::field::{fmul, Fe};
use crate::permutation::CellAddr;
use crate::range_check::{range_check_expr, range_poly};
use vstd::prelude::*;

verus! {

/// The selector of a gate as a field value at a row.
pub open spec fn sel(g: &Assembly, q: Selector, row: int) -> nat {
    if g.enabled(q, row) {
        1
    } else {
        0
    }
}

/// The given gate holds one expression, `q * range_poly(value)`, and applies exactly where `q` is on.
pub open spec fn is_range_gate(gate: Gate, q: Selector, value: Column, range: nat) -> bool {
    &&& gate.polys@.len() == 1
    &&& has_selector(gate.polys@[0])
    &&& forall|g: Assembly, row: int| #[trigger] g.selector_on(gate.polys@[0], row) == g.enabled(q, row)
    &&& forall|g: Assembly, row: int| #[trigger]
        g.eval(gate.polys@[0], row) == match g.eval(Expression::Query(value, 0), row) {
            Some(x) => Some(fmul(sel(&g, q, row), range_poly(x, range))),
            None => None,
        }
}

/// The cell state an assignment of `value` leaves.
pub open spec fn assigned(value: Option<Fe>) -> CellState {
    match value {
        Some(v) => CellState::Known(v),
        None => CellState::Unknown,
    }
}

/// Registers a gate `q * v * (1 - v) * ... * (range - 1 - v)` over the cell of `value` at the
/// evaluated row.
pub fn range_gate(cs: &mut ConstraintSystem, name: String, value: Column, range: usize) -> (r: Result<
    Selector,
    Error,
>)
    requires
        old(cs).wf(),
    ensures
        final(cs).wf(),
        final(cs).frozen == old(cs).frozen,
        range == 0 ==> r == Err::<Selector, Error>(Error::InvalidParameter),
        range > 0 && old(cs).frozen ==> r == Err::<Selector, Error>(Error::ShapeFrozen),
        range > 0 && !old(cs).frozen && old(cs).num_selectors == usize::MAX ==> r == Err::<Selector, Error>(
            Error::Capacity,
        ),
        range > 0 && !old(cs).frozen && old(cs).num_selectors < usize::MAX && !old(cs).queryable(value)
            ==> r == Err::<Selector, Error>(Error::UnknownHandle),
        range > 0 && !old(cs).frozen && old(cs).num_selectors < usize::MAX && old(cs).queryable(value)
            ==> (r matches Ok(q) && {
            &&& q.index == old(cs).num_selectors
            &&& final(cs).num_selectors == old(cs).num_selectors + 1
            &&& forall|k: ColumnKind| final(cs).num_of(k) == old(cs).num_of(k)
            &&& final(cs).equality@ == old(cs).equality@
            &&& final(cs).lookups@ == old(cs).lookups@
            &&& final(cs).gates@.len() == old(cs).gates@.len() + 1
            &&& final(cs).gates@.drop_last() == old(cs).gates@
            &&& final(cs).gates@.last().name == name
            &&& is_range_gate(final(cs).gates@.last(), q, value, range as nat)
        }),
{
    if range == 0 {
        return Err(Error::InvalidParameter);
    }
    let q = match cs.allocate_selector() {
        Ok(q) => q,
        Err(e) => {
            return Err(e);
        },
    };
    let v = Expression::query(value, 0);
    let poly = match range_check_expr(&v, range) {
        Ok(p) => p,
        Err(e) => {
            return Err(e);
        },
    };
    let gate_poly = Expression::selector(q).product(poly);
    let ghost pe = poly;
    let ghost gp = gate_poly;
    proof {
        assert(!has_selector(v));
        assert(gp == Expression::Product(Box::new(Expression::Select(q)), Box::new(pe)));
        assert forall|g: Assembly, row: int| #[trigger] g.selector_on(gp, row) == g.enabled(q, row) by {
            g.lemma_no_selector(pe, row);
            assert(g.selector_on(Expression::Select(q), row) == g.enabled(q, row));
        }
        assert forall|g: Assembly, row: int| #[trigger]
            g.eval(gp, row) == match g.eval(Expression::Query(value, 0), row) {
                Some(x) => Some(fmul(sel(&g, q, row), range_poly(x, range as nat))),
                None => None,
            } by {
            assert(g.eval(pe, row) == match g.eval(v, row) {
                Some(x) => Some(range_poly(x, range as nat)),
                None => None,
            });
            assert(g.eval(Expression::Select(q), row) == Some(sel(&g, q, row)));
        }
    }
    let mut polys: Vec<Expression> = Vec::new();
    polys.push(gate_poly);
    let ghost before = *cs;
    let res = cs.create_gate(name, polys);
    proof {
        if before.queryable(value) {
            assert(before.expr_wf(v));
            assert(before.expr_wf(pe));
            assert(before.expr_wf(Expression::Select(q)));
            assert(before.expr_wf(gp));
            assert(before.polys_wf(polys@));
        } else {
            assert(!before.polys_wf(polys@)) by {
                assert(!before.expr_wf(gp)) by {
                    if before.expr_wf(gp) {
                        assert(before.expr_wf(pe));
                    }
                }
                assert(polys@[0] == gp);
            }
        }
    }
    match res {
        Ok(()) => {
            proof {
                assert(cs.gates@.drop_last() =~= before.gates@);
                assert(cs.gates@.last().polys@ == polys@);
                assert(polys@[0] == gp);
                assert(gp == Expression::Product(Box::new(Expression::Select(q)), Box::new(pe)));
                assert(has_selector(Expression::Select(q)));
                assert(has_selector(gp));
                assert(is_range_gate(cs.gates@.last(), q, value, range as nat));
                assert(forall|k: ColumnKind| cs.num_of(k) == before.num_of(k));
            }
            Ok(q)
        },
        Err(e) => Err(e),
    }
}

/// A value column whose cells are range-checked where a selector is enabled.
#[derive(Clone, Copy, Debug)]
pub struct RangeCheckConfig {
    pub value: Column,
    pub q_range_check: Selector,
    pub range: usize,
}

impl RangeCheckConfig {
    /// Allocates the selector and registers the range gate over `value`.
    pub fn configure(cs: &mut ConstraintSystem, value: Column, range: usize) -> (r: Result<
        RangeCheckConfig,
        Error,
    >)
        requires
            old(cs).wf(),
        ensures
            final(cs).wf(),
            range == 0 ==> r == Err::<RangeCheckConfig, Error>(Error::InvalidParameter),
            range > 0 && old(cs).frozen ==> r == Err::<RangeCheckConfig, Error>(Error::ShapeFrozen),
            range > 0 && !old(cs).frozen && old(cs).num_selectors < usize::MAX && old(cs).queryable(value)
                ==> (r matches Ok(c) && {
                &&& c.value == value && c.range == range
                &&& c.q_range_check.index == old(cs).num_selectors
                &&& final(cs).gates@.last().name@ == "range check"@
                &&& final(cs).num_selectors == old(cs).num_selectors + 1
                &&& forall|k: ColumnKind| final(cs).num_of(k) == old(cs).num_of(k)
                &&& final(cs).lookups@ == old(cs).lookups@
                &&& final(cs).gates@.len() == old(cs).gates@.len() + 1
                &&& final(cs).gates@.drop_last() == old(cs).gates@
                &&& is_range_gate(final(cs).gates@.last(), c.q_range_check, value, range as nat)
            }),
            r is Err ==> r == Err::<RangeCheckConfig, Error>(Error::InvalidParameter) || r == Err::<
                RangeCheckConfig,
                Error,
            >(Error::ShapeFrozen) || r == Err::<RangeCheckConfig, Error>(Error::Capacity) || r == Err::<
                RangeCheckConfig,
                Error,
            >(Error::UnknownHandle),
    {
        let q = match range_gate(cs, String::from_str("range check"), value, range) {
            Ok(q) => q,
            Err(e) => {
                return Err(e);
            },
        };
        Ok(RangeCheckConfig { value, q_range_check: q, range })
    }

    /// Places a one-row region that holds the value and enables the range gate on it.
    pub fn assign(&self, grid: &mut Assembly, value: Option<Fe>) -> (r: Result<CellAddr, Error>)
        requires
            old(grid).wf(),
        ensures
            final(grid).wf(),
            old(grid).region is Some ==> r == Err::<CellAddr, Error>(Error::RegionAlreadyOpen),
            old(grid).region is None && self.q_range_check.index >= old(grid).cs.num_selectors ==> r
                == Err::<CellAddr, Error>(Error::UnknownHandle),
            old(grid).region is None && old(grid).next_row >= old(grid).n ==> r == Err::<CellAddr, Error>(
                Error::RowOutOfRange,
            ) || r == Err::<CellAddr, Error>(Error::UnknownHandle),
            r is Ok ==> {
                let a = CellAddr { column: self.value, row: old(grid).next_row };
                &&& r == Ok::<CellAddr, Error>(a)
                &&& old(grid).region is None
                &&& final(grid).enabled(self.q_range_check, a.row as int)
                &&& one_row_placed(old(grid), final(grid), self.q_range_check, a, value)
            },
            old(grid).region is None && self.q_range_check.index < old(grid).cs.num_selectors
                && old(grid).next_row < old(grid).n && self.value.kind == ColumnKind::Advice
                && old(grid).cs.has_column(self.value) ==> r is Ok,
    {
        assign_selected(grid, self.q_range_check, self.value, value)
    }
}

/// What a one-row region leaves: cell `a` holds `value`, selector `q` is on at its row, and
/// nothing else of the grid changed.
pub open spec fn one_row_placed(old: &Assembly, new: &Assembly, q: Selector, a: CellAddr, value: Option<Fe>) -> bool {
    &&& new.state(a) == assigned(value)
    &&& new.selectors@ == old.selectors@.update(q.index * old.n + a.row, true)
    &&& old.keeps_except(new, a)
    &&& new.next_row == old.next_row + 1
    &&& new.region is None
    &&& new.classes_view() == old.classes_view()
    &&& new.declared@ == old.declared@
    &&& new.instance@ == old.instance@
    &&& new.table@ == old.table@
    &&& new.tables_loaded == old.tables_loaded
    &&& new.cs == old.cs
    &&& new.n == old.n
}

/// Places a one-row region that assigns `column` and enables `q` on that row.
pub fn assign_selected(grid: &mut Assembly, q: Selector, column: Column, value: Option<Fe>) -> (r:
    Result<CellAddr, Error>)
    requires
        old(grid).wf(),
    ensures
        final(grid).wf(),
        old(grid).region is Some ==> r == Err::<CellAddr, Error>(Error::RegionAlreadyOpen),
        old(grid).region is None && q.index >= old(grid).cs.num_selectors ==> r == Err::<CellAddr, Error>(
            Error::UnknownHandle,
        ),
        old(grid).region is None && old(grid).next_row >= old(grid).n ==> r == Err::<CellAddr, Error>(
            Error::RowOutOfRange,
        ) || r == Err::<CellAddr, Error>(Error::UnknownHandle),
        r is Ok ==> {
            let a = CellAddr { column, row: old(grid).next_row };
            &&& r == Ok::<CellAddr, Error>(a)
            &&& old(grid).region is None
            &&& final(grid).enabled(q, a.row as int)
            &&& one_row_placed(old(grid), final(grid), q, a, value)
        },
        old(grid).region is None && q.index < old(grid).cs.num_selectors && old(grid).next_row
            < old(grid).n && column.kind == ColumnKind::Advice && old(grid).cs.has_column(column)
            ==> r is Ok,
{
    let ghost g0 = *grid;
    proof {
        if g0.region is None && g0.next_row < g0.n && column.kind == ColumnKind::Advice && g0.cs.has_column(column) {
            g0.lemma_next_row_empty(column);
        }
    }
    if let Err(e) = grid.begin_region() {
        return Err(e);
    }
    if let Err(e) = grid.enable_selector(q, 0) {
        return Err(e);
    }
    let ghost g1 = *grid;
    let a = match grid.assign_advice(column, 0, value) {
        Ok(a) => a,
        Err(e) => {
            return Err(e);
        },
    };
    let ghost g2 = *grid;
    if let Err(e) = grid.end_region() {
        return Err(e);
    }
    proof {
        let row = g0.next_row as int;
        crate::assembly::lemma_slot(q.index as int, row, g0.cs.num_selectors as int, g0.n as int);
        assert(g1.selectors@[q.index * g0.n + row]);
        if column.kind == ColumnKind::Advice {
            crate::assembly::lemma_slot(column.index as int, row, g0.cs.num_advice as int, g0.n as int);
            assert(grid.advice@[g1.slot(a)] == assigned(value));
            g1.lemma_single_change(&g2, a);
        }
        assert(g0.keeps_except(grid, a)) by {
            assert forall|x: CellAddr| g0.addr_ok(x) && x != a implies #[trigger] grid.value(x) == g0.value(x)
                && grid.is_known(x) == g0.is_known(x) && (x.column.kind != ColumnKind::Instance ==> grid.state(x)
                == g0.state(x)) by {
                assert(g2.value(x) == g1.value(x) && g2.is_known(x) == g1.is_known(x));
                if x.column.kind != ColumnKind::Instance {
                    assert(g2.state(x) == g1.state(x));
                }
            }
        }
    }
    Ok(a)
}

} // verus!
