//! A range check that offers both the polynomial gate and a lookup into a table of `0..range`.
use crate::assembly::{count_col, Assembly, TableEntry};
use crate::circuit::{Column, ColumnKind, ConstraintSystem, Expression, Lookup, Selector};
use crate::error::Error;
use crate::field::{fe_from_u64, fmul, Fe};
use crate::permutation::CellAddr;
use crate::simple_range::{assign_selected, is_range_gate, one_row_placed, range_gate, sel};
use vstd::prelude::*;

verus! {

/// A lookup table column meant to hold the values `0..range`, one per row.
#[derive(Clone, Copy, Debug)]
pub struct RangeTableConfig {
    pub value: Column,
    pub range: usize,
}

/// Count of writes to column `c` in a list whose writes all go to `c`.
pub proof fn lemma_count_all(w: Seq<TableEntry>, m: int, c: nat)
    requires
        0 <= m <= w.len(),
        forall|i: int| 0 <= i < w.len() ==> (#[trigger] w[i]).column == c,
    ensures
        count_col(w, m, c) == m,
    decreases m,
{
    if m > 0 {
        lemma_count_all(w, m - 1, c);
    }
}

impl RangeTableConfig {
    /// Allocates the table column.
    pub fn configure(cs: &mut ConstraintSystem, range: usize) -> (r: Result<RangeTableConfig, Error>)
        requires
            old(cs).wf(),
        ensures
            final(cs).wf(),
            final(cs).num_selectors == old(cs).num_selectors,
            final(cs).gates@ == old(cs).gates@,
            final(cs).lookups@ == old(cs).lookups@,
            final(cs).equality@ == old(cs).equality@,
            final(cs).frozen == old(cs).frozen,
            range == 0 ==> r == Err::<RangeTableConfig, Error>(Error::InvalidParameter),
            range > 0 && old(cs).frozen ==> r == Err::<RangeTableConfig, Error>(Error::ShapeFrozen),
            range > 0 && !old(cs).frozen && old(cs).num_table == usize::MAX ==> r == Err::<
                RangeTableConfig,
                Error,
            >(Error::Capacity),
            range > 0 && !old(cs).frozen && old(cs).num_table < usize::MAX ==> (r matches Ok(t) && {
                &&& t.range == range
                &&& t.value == Column { kind: ColumnKind::Table, index: old(cs).num_table }
                &&& final(cs).num_table == old(cs).num_table + 1
                &&& final(cs).num_advice == old(cs).num_advice
                &&& final(cs).num_fixed == old(cs).num_fixed
                &&& final(cs).num_instance == old(cs).num_instance
            }),
    {
        if range == 0 {
            return Err(Error::InvalidParameter);
        }
        let ghost before = *cs;
        let c = cs.allocate_column(ColumnKind::Table);
        proof {
            assert(cs.num_of(ColumnKind::Advice) == before.num_of(ColumnKind::Advice));
            assert(cs.num_of(ColumnKind::Fixed) == before.num_of(ColumnKind::Fixed));
            assert(cs.num_of(ColumnKind::Instance) == before.num_of(ColumnKind::Instance));
            assert(cs.num_of(ColumnKind::Table) == before.num_of(ColumnKind::Table) + 1 || cs.num_of(
                ColumnKind::Table,
            ) == before.num_of(ColumnKind::Table));
        }
        match c {
            Ok(value) => Ok(RangeTableConfig { value, range }),
            Err(e) => Err(e),
        }
    }

    /// Loads the table: row `i` of the column holds `i`, for every `i` below the range.
    pub fn load(&self, grid: &mut Assembly) -> (r: Result<(), Error>)
        requires
            old(grid).wf(),
        ensures
            final(grid).wf(),
            old(grid).tables_loaded ==> r == Err::<(), Error>(Error::TableAlreadyLoaded),
            r is Err ==> *final(grid) == *old(grid),
            r is Ok ==> {
                &&& final(grid).tables_loaded
                &&& final(grid).table@.len() == self.range
                &&& forall|i: int|
                    0 <= i < self.range ==> (#[trigger] final(grid).table@[i]).column == self.value.index
                        && final(grid).table@[i].row == i && final(grid).table@[i].value@ == i
                &&& final(grid).same_cells(old(grid))
                &&& final(grid).classes_view() == old(grid).classes_view()
                &&& final(grid).declared@ == old(grid).declared@
                &&& final(grid).cs == old(grid).cs
                &&& final(grid).n == old(grid).n
                &&& final(grid).instance@ == old(grid).instance@
                &&& final(grid).next_row == old(grid).next_row
                &&& final(grid).tables_loaded
            },
            !old(grid).tables_loaded && 0 < self.range <= old(grid).n && old(grid).cs.num_table == 1
                && self.value.index == 0 ==> r is Ok,
            !old(grid).tables_loaded && 0 < self.range <= old(grid).n && self.value.index
                < old(grid).cs.num_table && old(grid).cs.num_table > 1 ==> r == Err::<(), Error>(
                Error::TableShapeMismatch,
            ),
            !old(grid).tables_loaded && old(grid).n < self.range && self.value.index < old(grid).cs.num_table
                ==> r == Err::<(), Error>(Error::RowOutOfRange),
            !old(grid).tables_loaded && 0 < self.range && self.value.index >= old(grid).cs.num_table ==> r
                == Err::<(), Error>(Error::TableShapeMismatch),
    {
        let mut writes: Vec<TableEntry> = Vec::new();
        let mut i: usize = 0;
        while i < self.range
            invariant
                0 <= i <= self.range,
                writes@.len() == i,
                forall|j: int|
                    0 <= j < i ==> (#[trigger] writes@[j]).column == self.value.index && writes@[j].row
                        == j && writes@[j].value@ == j,
            decreases self.range - i,
        {
            writes.push(TableEntry { column: self.value.index, row: i, value: fe_from_u64(i as u64) });
            i = i + 1;
        }
        proof {
            let g = *old(grid);
            let w = writes@;
            let col = self.value.index as nat;
            if !g.tables_loaded && 0 < self.range && col < g.cs.num_table {
                if self.range <= g.n {
                    lemma_first_none(&g, w, w.len() as int, col);
                    lemma_count_all(w, w.len() as int, col);
                    if g.cs.num_table == 1 {
                        assert(!exists|c: nat| c < g.cs.num_table && count_col(w, w.len() as int, c) == 0);
                    } else {
                        let other: nat = if col == 0 {
                            1
                        } else {
                            0
                        };
                        lemma_count_none(w, w.len() as int, other);
                        assert(other < g.cs.num_table && count_col(w, w.len() as int, other) == 0);
                    }
                } else {
                    lemma_first_none(&g, w, g.n as int, col);
                    lemma_count_all(w, g.n as int, col);
                    assert(g.entry_error(w, g.n as int) == Some(Error::RowOutOfRange));
                    g.lemma_first_entry_error(w, g.n as int, w.len() as int);
                }
            }
            if !g.tables_loaded && 0 < self.range && col >= g.cs.num_table {
                assert(g.entry_error(w, 0) == Some(Error::TableShapeMismatch));
                g.lemma_first_entry_error(w, 0, w.len() as int);
            }
        }
        grid.load_table(writes)
    }
}

/// No write of a table that fills column 0 of a one-column table, row after row, fails.
proof fn lemma_first_none(g: &Assembly, w: Seq<TableEntry>, m: int, c: nat)
    requires
        0 <= m <= w.len(),
        m <= g.n,
        c < g.cs.num_table,
        forall|j: int| 0 <= j < w.len() ==> (#[trigger] w[j]).column == c && w[j].row == j,
    ensures
        g.first_entry_error(w, m) is None,
    decreases m,
{
    if m > 0 {
        lemma_first_none(g, w, m - 1, c);
        lemma_count_all(w, m - 1, c);
        assert(w[m - 1].column == c);
    }
}

/// A column that no write goes to has no writes.
proof fn lemma_count_none(w: Seq<TableEntry>, m: int, c: nat)
    requires
        0 <= m <= w.len(),
        forall|j: int| 0 <= j < w.len() ==> (#[trigger] w[j]).column != c,
    ensures
        count_col(w, m, c) == 0,
    decreases m,
{
    if m > 0 {
        lemma_count_none(w, m - 1, c);
    }
}

/// The lookup requires `q * value` to lie in the table column.
pub open spec fn is_range_lookup(l: Lookup, q: Selector, value: Column, table: Column) -> bool {
    &&& l.table == table
    &&& forall|g: Assembly, row: int| #[trigger]
        g.eval(l.input, row) == match g.eval(Expression::Query(value, 0), row) {
            Some(x) => Some(fmul(sel(&g, q, row), x)),
            None => None,
        }
}

/// A value column checked either by the range gate or by a lookup into a table of
/// `0..lookup_range`.
#[derive(Clone, Copy, Debug)]
pub struct RangeCheckConfig {
    pub q_range_check: Selector,
    pub q_lookup: Selector,
    pub value: Column,
    pub table: RangeTableConfig,
}

impl RangeCheckConfig {
    /// Registers the range gate over `value` for `range`, and a lookup of `value` into a new table
    /// column for `lookup_range`.
    pub fn configure(cs: &mut ConstraintSystem, value: Column, range: usize, lookup_range: usize) -> (r:
        Result<RangeCheckConfig, Error>)
        requires
            old(cs).wf(),
        ensures
            final(cs).wf(),
            (range == 0 || lookup_range == 0) ==> r == Err::<RangeCheckConfig, Error>(
                Error::InvalidParameter,
            ),
            range > 0 && lookup_range > 0 && old(cs).frozen ==> r == Err::<RangeCheckConfig, Error>(
                Error::ShapeFrozen,
            ),
            r matches Ok(c) ==> {
                &&& c.value == value
                &&& c.table.range == lookup_range
                &&& final(cs).gates@.len() == old(cs).gates@.len() + 1
                &&& is_range_gate(final(cs).gates@.last(), c.q_range_check, value, range as nat)
                &&& final(cs).lookups@.len() == old(cs).lookups@.len() + 1
                &&& is_range_lookup(final(cs).lookups@.last(), c.q_lookup, value, c.table.value)
                &&& c.table.value.kind == ColumnKind::Table
                &&& c.table.value.index == old(cs).num_table
                &&& final(cs).num_table == old(cs).num_table + 1
                &&& c.q_range_check.index == old(cs).num_selectors
                &&& c.q_lookup.index == old(cs).num_selectors + 1
                &&& final(cs).num_selectors == old(cs).num_selectors + 2
                &&& final(cs).gates@.last().name@ == "rangecheck"@
                &&& final(cs).gates@.drop_last() == old(cs).gates@
                &&& final(cs).lookups@.last().name@ == "range check lookup"@
                &&& final(cs).lookups@.drop_last() == old(cs).lookups@
                &&& final(cs).num_advice == old(cs).num_advice
                &&& final(cs).num_fixed == old(cs).num_fixed
                &&& final(cs).num_instance == old(cs).num_instance
            },
            range > 0 && lookup_range > 0 && !old(cs).frozen && old(cs).num_selectors < usize::MAX - 1
                && old(cs).num_table < usize::MAX && old(cs).queryable(value) ==> r is Ok,
    {
        if range == 0 || lookup_range == 0 {
            return Err(Error::InvalidParameter);
        }
        let ghost c0 = *cs;
        let gate_name = String::from_str("rangecheck");
        let q_range_check = match range_gate(cs, gate_name, value, range) {
            Ok(q) => q,
            Err(e) => {
                return Err(e);
            },
        };
        let ghost c1 = *cs;
        let q_lookup = match cs.allocate_selector() {
            Ok(q) => q,
            Err(e) => {
                return Err(e);
            },
        };
        let ghost c2 = *cs;
        proof {
            assert(c1.num_of(ColumnKind::Table) == c0.num_of(ColumnKind::Table));
            assert(c2.num_of(ColumnKind::Table) == c1.num_of(ColumnKind::Table));
        }
        let table = match RangeTableConfig::configure(cs, lookup_range) {
            Ok(t) => t,
            Err(e) => {
                return Err(e);
            },
        };
        let ghost c3 = *cs;
        proof {
            assert(c3.num_selectors == c2.num_selectors);
            assert(!c3.frozen);
        }
        let input = Expression::selector(q_lookup).product(Expression::query(value, 0));
        let ghost inp = input;
        proof {
            assert(c0.queryable(value) ==> c3.queryable(value)) by {
                assert(c1.num_of(value.kind) == c0.num_of(value.kind));
                assert(c2.num_of(value.kind) == c1.num_of(value.kind));
                if value.kind != ColumnKind::Table {
                    assert(c3.num_of(value.kind) >= c2.num_of(value.kind));
                }
            }
            assert(c3.expr_wf(Expression::Select(q_lookup)));
            assert(inp == Expression::Product(
                Box::new(Expression::Select(q_lookup)),
                Box::new(Expression::Query(value, 0)),
            ));
            if c0.queryable(value) {
                assert(c3.queryable(value));
                assert(c3.expr_wf(Expression::Query(value, 0)));
                assert(c3.expr_wf(inp));
            }
            assert(c3.has_column(table.value));
            assert forall|g: Assembly, row: int| #[trigger]
                g.eval(inp, row) == match g.eval(Expression::Query(value, 0), row) {
                    Some(x) => Some(fmul(sel(&g, q_lookup, row), x)),
                    None => None,
                } by {
                assert(g.eval(Expression::Select(q_lookup), row) == Some(sel(&g, q_lookup, row)));
            }
        }
        let lookup_name = String::from_str("range check lookup");
        match cs.add_lookup(lookup_name, input, table.value) {
            Ok(()) => {},
            Err(e) => {
                return Err(e);
            },
        }
        proof {
            assert(c1.gates@.last().name@ == "rangecheck"@);
            assert(c1.gates@.drop_last() == c0.gates@);
            assert(cs.gates@ == c1.gates@);
            assert(cs.lookups@.last().name@ == "range check lookup"@);
            assert(cs.lookups@.drop_last() =~= c0.lookups@);
            assert(c1.num_of(ColumnKind::Advice) == c0.num_of(ColumnKind::Advice));
            assert(c1.num_of(ColumnKind::Fixed) == c0.num_of(ColumnKind::Fixed));
            assert(c1.num_of(ColumnKind::Instance) == c0.num_of(ColumnKind::Instance));
        }
        Ok(RangeCheckConfig { q_range_check, q_lookup, value, table })
    }

    /// Places a one-row region that holds the value and enables the range gate on it.
    pub fn assign_simple(&self, grid: &mut Assembly, value: Option<Fe>) -> (r: Result<CellAddr, Error>)
        requires
            old(grid).wf(),
        ensures
            final(grid).wf(),
            old(grid).region is Some ==> r == Err::<CellAddr, Error>(Error::RegionAlreadyOpen),
            r is Ok ==> {
                let a = CellAddr { column: self.value, row: old(grid).next_row };
                &&& r == Ok::<CellAddr, Error>(a)
                &&& final(grid).enabled(self.q_range_check, a.row as int)
                &&& one_row_placed(old(grid), final(grid), self.q_range_check, a, value)
                &&& self.q_lookup.index != self.q_range_check.index && self.q_lookup.index < old(grid).cs.num_selectors
                    ==> !final(grid).enabled(self.q_lookup, a.row as int)
            },
            old(grid).region is None && self.q_range_check.index < old(grid).cs.num_selectors
                && old(grid).next_row < old(grid).n && self.value.kind == ColumnKind::Advice
                && old(grid).cs.has_column(self.value) ==> r is Ok,
    {
        let ghost g0 = *grid;
        let r = assign_selected(grid, self.q_range_check, self.value, value);
        proof {
            if r is Ok && self.q_lookup.index != self.q_range_check.index && self.q_lookup.index < g0.cs.num_selectors {
                let row = g0.next_row;
                g0.lemma_selector_off(self.q_lookup, row);
                crate::assembly::lemma_slot(self.q_lookup.index as int, row as int, g0.cs.num_selectors as int, g0.n as int);
                crate::assembly::lemma_slot(self.q_range_check.index as int, row as int, g0.cs.num_selectors as int, g0.n as int);
                crate::assembly::lemma_slot_distinct(
                    self.q_lookup.index as int,
                    row as int,
                    self.q_range_check.index as int,
                    row as int,
                    g0.n as int,
                );
            }
        }
        r
    }

    /// Places a one-row region that holds the value and enables the lookup on it.
    pub fn assign_lookup(&self, grid: &mut Assembly, value: Option<Fe>) -> (r: Result<CellAddr, Error>)
        requires
            old(grid).wf(),
        ensures
            final(grid).wf(),
            old(grid).region is Some ==> r == Err::<CellAddr, Error>(Error::RegionAlreadyOpen),
            r is Ok ==> {
                let a = CellAddr { column: self.value, row: old(grid).next_row };
                &&& r == Ok::<CellAddr, Error>(a)
                &&& final(grid).enabled(self.q_lookup, a.row as int)
                &&& one_row_placed(old(grid), final(grid), self.q_lookup, a, value)
                &&& self.q_range_check.index != self.q_lookup.index && self.q_range_check.index < old(grid).cs.num_selectors
                    ==> !final(grid).enabled(self.q_range_check, a.row as int)
            },
            old(grid).region is None && self.q_lookup.index < old(grid).cs.num_selectors
                && old(grid).next_row < old(grid).n && self.value.kind == ColumnKind::Advice
                && old(grid).cs.has_column(self.value) ==> r is Ok,
    {
        let ghost g0 = *grid;
        let r = assign_selected(grid, self.q_lookup, self.value, value);
        proof {
            if r is Ok && self.q_range_check.index != self.q_lookup.index && self.q_range_check.index < g0.cs.num_selectors {
                let row = g0.next_row;
                g0.lemma_selector_off(self.q_range_check, row);
                crate::assembly::lemma_slot(self.q_range_check.index as int, row as int, g0.cs.num_selectors as int, g0.n as int);
                crate::assembly::lemma_slot(self.q_lookup.index as int, row as int, g0.cs.num_selectors as int, g0.n as int);
                crate::assembly::lemma_slot_distinct(
                    self.q_range_check.index as int,
                    row as int,
                    self.q_lookup.index as int,
                    row as int,
                    g0.n as int,
                );
            }
        }
        r
    }
}

} // verus!
