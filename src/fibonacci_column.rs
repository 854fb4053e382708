//! A Fibonacci circuit in one advice column: a gate `a + b = c` reads three consecutive rows
//! through rotations 0, 1 and 2.
use crate::assembly::{lemma_slot, Assembly, RegionFrame};
use crate::checker::has_selector;
use crate::circuit::{Column, ColumnKind, ConstraintSystem, Expression, Gate, Selector};
use crate::error::Error;
use crate::fibonacci_rows::fib;
use crate::fibonacci_rows::FibonacciChip as RowChip;
use crate::field::{fadd, fe_add, fmul, fneg};
use crate::permutation::{noted, union_classes, CellAddr};
use crate::simple_range::sel;
use vstd::prelude::*;

verus! {

/// The column, selector and public-input column of the circuit.
#[derive(Clone, Copy, Debug)]
pub struct FibonacciConfig {
    pub advice: Column,
    pub selector: Selector,
    pub instance: Column,
}

/// The given gate holds `s * (a + b - c)` over rows `r`, `r + 1`, `r + 2` of one column, and applies
/// where `s` is on.
pub open spec fn is_rotated_add_gate(gate: Gate, s: Selector, col: Column) -> bool {
    &&& gate.polys@.len() == 1
    &&& has_selector(gate.polys@[0])
    &&& forall|g: Assembly, row: int| #[trigger] g.selector_on(gate.polys@[0], row) == g.enabled(s, row)
    &&& forall|g: Assembly, row: int| #[trigger]
        g.eval(gate.polys@[0], row) == match (
            g.eval(Expression::Query(col, 0), row),
            g.eval(Expression::Query(col, 1), row),
            g.eval(Expression::Query(col, 2), row),
        ) {
            (Some(x), Some(y), Some(z)) => Some(fmul(sel(&g, s, row), fadd(fadd(x, y), fneg(z)))),
            _ => None,
        }
}

impl FibonacciConfig {
    /// The configuration's handles are allocated in `cs`, with equality on both columns.
    pub open spec fn usable(&self, cs: &ConstraintSystem) -> bool {
        &&& self.advice.kind == ColumnKind::Advice && cs.has_column(self.advice)
        &&& cs.equality@.contains(self.advice)
        &&& self.instance.kind == ColumnKind::Instance && cs.has_column(self.instance)
        &&& cs.equality@.contains(self.instance)
        &&& self.selector.index < cs.num_selectors
    }
}

/// The cell of column `c` at row `row`.
pub open spec fn cell_at(c: Column, row: int) -> CellAddr {
    CellAddr { column: c, row: row as usize }
}

/// Rows `row0 .. row0 + rows` of the column hold terms `0 .. rows` of the sequence seeded by `x`, `y`.
pub open spec fn column_holds(g: &Assembly, col: Column, row0: int, x: nat, y: nat, rows: int) -> bool {
    forall|j: int|
        0 <= j < rows ==> #[trigger] g.is_known(cell_at(col, row0 + j)) && g.value(cell_at(col, row0 + j))
            == fib(x, y, j as nat)
}

/// How many rows from the start have their selector enabled once row `row` is reached: rows 0 and 1,
/// and every row with two rows after it.
pub open spec fn enabled_count(row: int, nrows: int) -> nat {
    let k = if row < nrows - 2 {
        row
    } else {
        nrows - 2
    };
    if k < 2 {
        2
    } else {
        k as nat
    }
}

/// A chip that lays out the whole sequence in one region.
#[derive(Clone, Copy, Debug)]
pub struct FibonacciChip {
    pub config: FibonacciConfig,
}

impl FibonacciChip {
    pub fn constract(config: FibonacciConfig) -> (r: FibonacciChip)
        ensures
            r.config == config,
    {
        FibonacciChip { config }
    }

    /// Allocates the selector, enables equality on both columns and registers a gate
    /// `s * (a + b - c)` with `a`, `b`, `c` at rotations 0, 1, 2.
    pub fn configure(cs: &mut ConstraintSystem, advice: Column, instance: Column) -> (r: Result<
        FibonacciConfig,
        Error,
    >)
        requires
            old(cs).wf(),
        ensures
            final(cs).wf(),
            old(cs).frozen ==> r == Err::<FibonacciConfig, Error>(Error::ShapeFrozen),
            r matches Ok(c) ==> {
                &&& c.advice == advice && c.instance == instance
                &&& final(cs).equality@.contains(advice) && final(cs).equality@.contains(instance)
                &&& c.selector.index < final(cs).num_selectors
                &&& final(cs).gates@.len() == old(cs).gates@.len() + 1
                &&& is_rotated_add_gate(final(cs).gates@.last(), c.selector, advice)
                &&& final(cs).gates@.drop_last() == old(cs).gates@
                &&& final(cs).gates@.last().name@ == "add"@
                &&& final(cs).lookups@ == old(cs).lookups@
                &&& final(cs).num_advice == old(cs).num_advice
                &&& final(cs).num_fixed == old(cs).num_fixed
                &&& final(cs).num_instance == old(cs).num_instance
                &&& final(cs).num_table == old(cs).num_table
                &&& final(cs).num_selectors == old(cs).num_selectors + 1
                &&& advice.kind == ColumnKind::Advice && instance.kind == ColumnKind::Instance ==> c.usable(
                    final(cs),
                )
            },
            !old(cs).frozen && old(cs).num_selectors < usize::MAX && advice.kind == ColumnKind::Advice
                && old(cs).has_column(advice) && instance.kind == ColumnKind::Instance && old(cs).has_column(
                instance,
            ) ==> r is Ok,
    {
        let ghost c0 = *cs;
        let selector = cs.allocate_selector()?;
        let ghost c1 = *cs;
        proof {
            assert(c1.num_of(advice.kind) == c0.num_of(advice.kind));
            assert(c1.num_of(instance.kind) == c0.num_of(instance.kind));
        }
        cs.enable_equality(advice)?;
        let ghost e1 = cs.equality@;
        cs.enable_equality(instance)?;
        let ghost c2 = *cs;
        proof {
            assert(e1.contains(advice));
        }
        let s = Expression::selector(selector);
        let a = Expression::query(advice, 0);
        let b = Expression::query(advice, 1);
        let c = Expression::query(advice, 2);
        let poly = s.product(a.sum(b).difference(c));
        let ghost gp = poly;
        proof {
            let sum = Expression::Sum(Box::new(a), Box::new(b));
            let neg = Expression::Negated(Box::new(c));
            let inner = Expression::Sum(Box::new(sum), Box::new(neg));
            assert(gp == Expression::Product(Box::new(Expression::Select(selector)), Box::new(inner)));
            if c0.has_column(advice) && advice.kind == ColumnKind::Advice {
                assert(c2.expr_wf(a) && c2.expr_wf(b) && c2.expr_wf(c));
                assert(c2.expr_wf(sum));
                assert(c2.expr_wf(neg));
                assert(c2.expr_wf(inner));
                assert(c2.expr_wf(Expression::Select(selector)));
                assert(c2.expr_wf(gp));
            }
            assert(!has_selector(a) && !has_selector(b) && !has_selector(c));
            assert(!has_selector(sum));
            assert(!has_selector(neg));
            assert(!has_selector(inner));
            assert forall|g: Assembly, row: int| #[trigger] g.selector_on(gp, row) == g.enabled(selector, row) by {
                g.lemma_no_selector(inner, row);
                assert(g.selector_on(Expression::Select(selector), row) == g.enabled(selector, row));
            }
            assert forall|g: Assembly, row: int| #[trigger]
                g.eval(gp, row) == match (
                    g.eval(Expression::Query(advice, 0), row),
                    g.eval(Expression::Query(advice, 1), row),
                    g.eval(Expression::Query(advice, 2), row),
                ) {
                    (Some(x), Some(y), Some(z)) => Some(fmul(sel(&g, selector, row), fadd(fadd(x, y), fneg(z)))),
                    _ => None,
                } by {
                assert(g.eval(Expression::Select(selector), row) == Some(sel(&g, selector, row)));
                assert(g.eval(sum, row) == match (g.eval(a, row), g.eval(b, row)) {
                    (Some(x), Some(y)) => Some(fadd(x, y)),
                    _ => None,
                });
                assert(g.eval(neg, row) == match g.eval(c, row) {
                    Some(z) => Some(fneg(z)),
                    None => None,
                });
                assert(g.eval(inner, row) == match (g.eval(sum, row), g.eval(neg, row)) {
                    (Some(x), Some(y)) => Some(fadd(x, y)),
                    _ => None,
                });
                assert(g.eval(gp, row) == match (g.eval(Expression::Select(selector), row), g.eval(inner, row)) {
                    (Some(x), Some(y)) => Some(fmul(x, y)),
                    _ => None,
                });
            }
        }
        let mut polys: Vec<Expression> = Vec::new();
        polys.push(poly);
        proof {
            assert(polys@[0] == gp);
            if c0.has_column(advice) && advice.kind == ColumnKind::Advice {
                assert(c2.polys_wf(polys@));
            }
        }
        let ghost before_gate = *cs;
        let name = String::from_str("add");
        cs.create_gate(name, polys)?;
        proof {
            assert(cs.gates@.last().name@ == "add"@);
            assert(cs.gates@.drop_last() =~= before_gate.gates@);
            assert(cs.num_selectors == before_gate.num_selectors);
        }
        proof {
            assert(cs.gates@.last().polys@ == polys@);
            assert(polys@[0] == gp);
            assert(has_selector(Expression::Select(selector)));
            assert(has_selector(gp));
            assert(cs.equality@ == c2.equality@);
        }
        Ok(FibonacciConfig { advice, selector, instance })
    }

    /// Places one region of `nrows` rows (at least two): rows 0 and 1 copied from public inputs
    /// 0 and 1, each later row the sum of the two before it, its gate enabled on every row with
    /// two rows after it. Returns the last cell.
    pub fn assign(&self, grid: &mut Assembly, nrows: usize) -> (r: Result<CellAddr, Error>)
        requires
            old(grid).wf(),
        ensures
            final(grid).wf(),
            old(grid).region is Some ==> r == Err::<CellAddr, Error>(Error::RegionAlreadyOpen),
            r matches Ok(last) ==> {
                let m: int = if nrows < 2 {
                    2
                } else {
                    nrows as int
                };
                let x = old(grid).value(CellAddr { column: self.config.instance, row: 0 });
                let y = old(grid).value(CellAddr { column: self.config.instance, row: 1 });
                &&& last == CellAddr { column: self.config.advice, row: (old(grid).next_row + m - 1) as usize }
                &&& final(grid).addr_ok(last)
                &&& final(grid).is_known(last)
                &&& final(grid).value(last) == fib(x, y, (m - 1) as nat)
                &&& final(grid).region is None
                &&& final(grid).next_row == old(grid).next_row + m
                &&& final(grid).cs == old(grid).cs
                &&& final(grid).n == old(grid).n
            },
            r is Ok ==> {
                &&& ({
                    let i0 = CellAddr { column: self.config.instance, row: 0 };
                    let i1 = CellAddr { column: self.config.instance, row: 1 };
                    let c0 = CellAddr { column: self.config.advice, row: old(grid).next_row };
                    let c1 = CellAddr { column: self.config.advice, row: (old(grid).next_row + 1) as usize };
                    &&& final(grid).classes_view() == union_classes(
                        union_classes(old(grid).classes_view(), i0, c0),
                        i1,
                        c1,
                    )
                    &&& final(grid).declared@ == noted(noted(noted(noted(old(grid).declared@, i0), c0), i1), c1)
                })
                &&& final(grid).instance@ == old(grid).instance@
                &&& final(grid).table@ == old(grid).table@
                &&& final(grid).tables_loaded == old(grid).tables_loaded
            },
            r is Ok ==> column_holds(
                final(grid),
                self.config.advice,
                old(grid).next_row as int,
                old(grid).value(CellAddr { column: self.config.instance, row: 0 }),
                old(grid).value(CellAddr { column: self.config.instance, row: 1 }),
                if nrows < 2 {
                    2
                } else {
                    nrows as int
                },
            ),
            r is Ok ==> final(grid).selectors@ == RowChip::rows_selectors(
                old(grid).selectors@,
                self.config.selector.index * old(grid).n + old(grid).next_row,
                enabled_count(nrows as int, nrows as int),
            ),
            old(grid).region is None && self.config.usable(&old(grid).cs) && 2 <= old(grid).n
                && old(grid).next_row + (if nrows < 2 {
                2
            } else {
                nrows as int
            }) <= old(grid).n ==> r is Ok,
    {
        let cfg = self.config;
        let ghost g0 = *grid;
        let ghost fine = g0.region is None && cfg.usable(&g0.cs) && 2 <= g0.n && g0.next_row + (if nrows
            < 2 {
            2
        } else {
            nrows as int
        }) <= g0.n;
        grid.begin_region()?;
        proof {
            if fine {
                grid.lemma_row_empty(cfg.advice, g0.next_row);
                grid.lemma_row_empty(cfg.advice, (g0.next_row + 1) as usize);
            }
        }
        grid.enable_selector(cfg.selector, 0)?;
        grid.enable_selector(cfg.selector, 1)?;
        let ghost g1 = *grid;
        let mut a = grid.assign_advice_from_instance(cfg.instance, 0, cfg.advice, 0)?;
        let ghost g2 = *grid;
        proof {
            lemma_slot(a.column.index as int, a.row as int, g0.cs.num_advice as int, g0.n as int);
            g1.lemma_single_change(&g2, a);
        }
        proof {
            if fine {
                let second = CellAddr { column: cfg.advice, row: (g0.next_row + 1) as usize };
                assert(grid.state(second) is Empty);
            }
        }
        let mut b = grid.assign_advice_from_instance(cfg.instance, 1, cfg.advice, 1)?;
        let ghost g3 = *grid;
        let ghost x = g0.value(CellAddr { column: cfg.instance, row: 0 });
        let ghost y = g0.value(CellAddr { column: cfg.instance, row: 1 });
        proof {
            lemma_slot(b.column.index as int, b.row as int, g0.cs.num_advice as int, g0.n as int);
            g2.lemma_single_change(&g3, b);
            assert(a != b);
            assert(g3.value(a) == x);
            assert(fib(x, y, 0) == x);
            assert(fib(x, y, 1) == y);
        }
        proof {
            let base = cfg.selector.index * g0.n + g0.next_row;
            assert(RowChip::rows_selectors(g0.selectors@, base, 0) == g0.selectors@);
            assert(RowChip::rows_selectors(g0.selectors@, base, 1) == g0.selectors@.update(base, true));
            assert(grid.selectors@ == g1.selectors@);
            assert(g1.selectors@ == g0.selectors@.update(base, true).update(base + 1, true));
            assert(RowChip::rows_selectors(g0.selectors@, base, 2) == grid.selectors@);
            assert(enabled_count(2, nrows as int) == 2);
        }
        let ghost k3 = grid.classes_view();
        let ghost d3 = grid.declared@;
        proof {
            assert forall|j: int| 0 <= j < 2 implies {
                &&& grid.addr_ok(cell_at(cfg.advice, g0.next_row + j))
                &&& #[trigger] grid.is_known(cell_at(cfg.advice, g0.next_row + j))
                &&& grid.value(cell_at(cfg.advice, g0.next_row + j)) == fib(x, y, j as nat)
            } by {
                if j == 0 {
                    assert(CellAddr { column: cfg.advice, row: (g0.next_row + j) as usize } == a);
                } else {
                    assert(CellAddr { column: cfg.advice, row: (g0.next_row + j) as usize } == b);
                }
            }
        }
        let mut row: usize = 2;
        while row < nrows
            invariant
                g0 == *old(grid),
                g0.region is None,
                grid.wf(),
                grid.cs == g0.cs,
                grid.n == g0.n,
                2 <= row,
                row == 2 || row <= nrows,
                cfg == self.config,
                fine == (g0.region is None && cfg.usable(&g0.cs) && 2 <= g0.n && g0.next_row + (if nrows
                    < 2 {
                    2
                } else {
                    nrows as int
                }) <= g0.n),
                fine ==> g0.next_row + (if nrows < 2 {
                    2
                } else {
                    nrows as int
                }) <= g0.n && cfg.usable(&g0.cs),
                grid.region == Some((RegionFrame { start: g0.next_row, span: row })),
                grid.next_row == g0.next_row,
                a == (CellAddr { column: cfg.advice, row: (g0.next_row + row - 2) as usize }),
                b == (CellAddr { column: cfg.advice, row: (g0.next_row + row - 1) as usize }),
                grid.addr_ok(a) && grid.addr_ok(b),
                cfg.advice.kind == ColumnKind::Advice,
                grid.is_known(a) && grid.is_known(b),
                grid.value(a) == fib(x, y, (row - 2) as nat),
                grid.value(b) == fib(x, y, (row - 1) as nat),
                grid.classes_view() == k3,
                grid.selectors@ == RowChip::rows_selectors(
                    g0.selectors@,
                    cfg.selector.index * g0.n + g0.next_row,
                    enabled_count(row as int, nrows as int),
                ),
                grid.declared@ == d3,
                grid.instance@ == g0.instance@,
                grid.table@ == g0.table@,
                grid.tables_loaded == g0.tables_loaded,
                forall|j: int|
                    0 <= j < row ==> {
                        &&& grid.addr_ok(cell_at(cfg.advice, g0.next_row + j))
                        &&& #[trigger] grid.is_known(cell_at(cfg.advice, g0.next_row + j))
                        &&& grid.value(cell_at(cfg.advice, g0.next_row + j)) == fib(x, y, j as nat)
                    },
            decreases nrows - row,
        {
            let ghost hs = *grid;
            proof {
                if fine {
                    grid.lemma_row_empty(cfg.advice, (g0.next_row + row) as usize);
                }
            }
            if row < nrows - 2 {
                grid.enable_selector(cfg.selector, row)?;
            }
            let va = grid.read_cell(a);
            let vb = grid.read_cell(b);
            let ghost h0 = *grid;
            let c = grid.assign_advice(cfg.advice, row, Some(fe_add(va, vb)))?;
            let ghost h1 = *grid;
            proof {
                lemma_slot(c.column.index as int, c.row as int, g0.cs.num_advice as int, g0.n as int);
                h0.lemma_single_change(&h1, c);
                assert(b != c && a != c);
                assert(fib(x, y, row as nat) == fadd(fib(x, y, (row - 2) as nat), fib(x, y, (row - 1) as nat)));
                assert(h1.value(c) == fib(x, y, row as nat));
                let base = cfg.selector.index * g0.n + g0.next_row;
                if row + 2 < nrows {
                    assert(enabled_count(row + 1, nrows as int) == row + 1);
                    assert(enabled_count(row as int, nrows as int) == row);
                } else {
                    assert(enabled_count(row + 1, nrows as int) == enabled_count(row as int, nrows as int));
                }
                assert forall|j: int| 0 <= j < row + 1 implies {
                    &&& h1.addr_ok(cell_at(cfg.advice, g0.next_row + j))
                    &&& #[trigger] h1.is_known(cell_at(cfg.advice, g0.next_row + j))
                    &&& h1.value(cell_at(cfg.advice, g0.next_row + j)) == fib(x, y, j as nat)
                } by {
                    if j < row {
                        assert(hs.is_known(cell_at(cfg.advice, g0.next_row + j)));
                        assert(h0.advice@ == hs.advice@ && h0.fixed@ == hs.fixed@ && h0.instance@ == hs.instance@);
                        assert(h0.is_known(cell_at(cfg.advice, g0.next_row + j)));
                        assert(cell_at(cfg.advice, g0.next_row + j) != c);
                        assert(h1.is_known(cell_at(cfg.advice, g0.next_row + j)) == h0.is_known(cell_at(cfg.advice, g0.next_row + j)));
                    }
                }
            }
            a = b;
            b = c;
            row = row + 1;
        }
        let ghost gl = *grid;
        grid.end_region()?;
        proof {
            let i0 = CellAddr { column: cfg.instance, row: 0 };
            let i1 = CellAddr { column: cfg.instance, row: 1 };
            let c0 = CellAddr { column: cfg.advice, row: g0.next_row };
            let c1 = CellAddr { column: cfg.advice, row: (g0.next_row + 1) as usize };
            assert(g1.classes_view() == g0.classes_view());
            assert(g1.declared@ == g0.declared@);
            assert(k3 == union_classes(union_classes(g0.classes_view(), i0, c0), i1, c1));
            assert(d3 == noted(noted(noted(noted(g0.declared@, i0), c0), i1), c1));
            assert(row == (if nrows < 2 { 2 } else { nrows as int }));
            assert(grid.classes_view() == k3);
            assert(grid.declared@ == d3);
            assert(grid.instance@ == g0.instance@ && grid.table@ == g0.table@);
            assert(grid.tables_loaded == g0.tables_loaded);
            assert(column_holds(grid, cfg.advice, g0.next_row as int, x, y, row as int)) by {
                assert forall|j: int| 0 <= j < row as int implies #[trigger] grid.is_known(
                    cell_at(cfg.advice, g0.next_row as int + j),
                ) && grid.value(cell_at(cfg.advice, g0.next_row as int + j)) == fib(x, y, j as nat) by {
                    assert(gl.is_known(cell_at(cfg.advice, g0.next_row as int + j)));
                    assert(gl.value(cell_at(cfg.advice, g0.next_row as int + j)) == fib(x, y, j as nat));
                }
            }
            let i0 = CellAddr { column: self.config.instance, row: 0 };
            let i1 = CellAddr { column: self.config.instance, row: 1 };
            let c0 = CellAddr { column: self.config.advice, row: old(grid).next_row };
            let c1 = CellAddr { column: self.config.advice, row: (old(grid).next_row + 1) as usize };
            assert(grid.classes_view() == union_classes(union_classes(old(grid).classes_view(), i0, c0), i1, c1));
            assert(grid.declared@ == noted(noted(noted(noted(old(grid).declared@, i0), c0), i1), c1));
        }
        Ok(b)
    }

    /// Records that `cell` must equal row `row` of the public inputs.
    pub fn expose_public(&self, grid: &mut Assembly, cell: CellAddr, row: usize) -> (r: Result<(), Error>)
        requires
            old(grid).wf(),
        ensures
            final(grid).wf(),
            r is Err ==> *final(grid) == *old(grid),
            self.config.instance.kind != ColumnKind::Instance ==> r == Err::<(), Error>(Error::UnknownHandle),
            self.config.instance.kind == ColumnKind::Instance ==> {
                let b = CellAddr { column: self.config.instance, row };
                &&& old(grid).copy_error(cell, b) matches Some(e) ==> r == Err::<(), Error>(e)
                &&& old(grid).copy_error(cell, b) is None ==> {
                    &&& r is Ok
                    &&& final(grid).classes_view() == union_classes(old(grid).classes_view(), cell, b)
                    &&& final(grid).declared@ == noted(noted(old(grid).declared@, cell), b)
                    &&& final(grid).same_cells(old(grid))
                    &&& final(grid).instance@ == old(grid).instance@
                    &&& final(grid).table@ == old(grid).table@
                    &&& final(grid).tables_loaded == old(grid).tables_loaded
                    &&& final(grid).cs == old(grid).cs
                    &&& final(grid).n == old(grid).n
                    &&& final(grid).next_row == old(grid).next_row
                }
            },
    {
        grid.constrain_instance(cell, self.config.instance, row)
    }

    /// Lays out the whole circuit: ten rows, the last tied to public input 2. Returns the last
    /// cell, which holds term 9 of the sequence seeded by public inputs 0 and 1.
    pub fn synthesize(&self, grid: &mut Assembly) -> (r: Result<CellAddr, Error>)
        requires
            old(grid).wf(),
        ensures
            final(grid).wf(),
            old(grid).region is Some ==> r == Err::<CellAddr, Error>(Error::RegionAlreadyOpen),
            r matches Ok(last) ==> {
                let x = old(grid).value(CellAddr { column: self.config.instance, row: 0 });
                let y = old(grid).value(CellAddr { column: self.config.instance, row: 1 });
                &&& final(grid).is_known(last)
                &&& final(grid).value(last) == fib(x, y, 9)
                &&& last == CellAddr { column: self.config.advice, row: (old(grid).next_row + 9) as usize }
                &&& ({
                    let i0 = CellAddr { column: self.config.instance, row: 0 };
                    let i1 = CellAddr { column: self.config.instance, row: 1 };
                    let i2 = CellAddr { column: self.config.instance, row: 2 };
                    let c0 = CellAddr { column: self.config.advice, row: old(grid).next_row };
                    let c1 = CellAddr { column: self.config.advice, row: (old(grid).next_row + 1) as usize };
                    final(grid).classes_view() == union_classes(
                        union_classes(union_classes(old(grid).classes_view(), i0, c0), i1, c1),
                        last,
                        i2,
                    )
                })
                &&& final(grid).instance@ == old(grid).instance@
            },
            r is Ok ==> final(grid).selectors@ == RowChip::rows_selectors(
                old(grid).selectors@,
                self.config.selector.index * old(grid).n + old(grid).next_row,
                8,
            ),
            r is Ok ==> final(grid).declared@ == noted(noted(
                noted(
                    noted(
                        noted(
                            noted(old(grid).declared@, CellAddr { column: self.config.instance, row: 0 }),
                            cell_at(self.config.advice, old(grid).next_row as int),
                        ),
                        CellAddr { column: self.config.instance, row: 1 },
                    ),
                    cell_at(self.config.advice, old(grid).next_row + 1),
                ),
                cell_at(self.config.advice, old(grid).next_row + 9),
            ), CellAddr { column: self.config.instance, row: 2 }),
            old(grid).region is None && self.config.usable(&old(grid).cs) && old(grid).next_row + 10
                <= old(grid).n ==> r is Ok,
    {
        let ghost g0 = *grid;
        let out = self.assign(grid, 10)?;
        let ghost ga = *grid;
        self.expose_public(grid, out, 2)?;
        proof {
            assert(enabled_count(10, 10) == 8);
        }
        Ok(out)
    }
}

} // verus!
