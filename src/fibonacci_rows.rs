//! A Fibonacci circuit with one row per step: columns `a`, `b`, `c` with a gate `a + b = c`,
//! each row copying `b` and `c` of the row before into its `a` and `b`.
use crate::assembly::{lemma_slot, lemma_slot_distinct, Assembly};
use crate::checker::has_selector;
use crate::circuit::{Column, ColumnKind, ConstraintSystem, Expression, Gate, Selector};
use crate::error::Error;
use crate::field::{fadd, fe_add, fmul, fneg, Fe};
use crate::permutation::{noted, union_classes, CellAddr};
use crate::simple_range::sel;
use vstd::prelude::*;

verus! {

/// The columns and selector of the circuit.
#[derive(Clone, Copy, Debug)]
pub struct FibonacciConfig {
    pub col_a: Column,
    pub col_b: Column,
    pub col_c: Column,
    pub selector: Selector,
    pub instance: Column,
}

/// The column is an allocated advice column that copy constraints may name.
pub open spec fn copyable_advice(cs: &ConstraintSystem, c: Column) -> bool {
    c.kind == ColumnKind::Advice && cs.has_column(c) && cs.equality@.contains(c)
}

/// The given gate holds `s * (a + b - c)` over the cells of one row, and applies where `s` is on.
pub open spec fn is_add_gate(gate: Gate, s: Selector, a: Column, b: Column, c: Column) -> bool {
    &&& gate.polys@.len() == 1
    &&& forall|g: Assembly, row: int| #[trigger] g.selector_on(gate.polys@[0], row) == g.enabled(s, row)
    &&& forall|g: Assembly, row: int| #[trigger]
        g.eval(gate.polys@[0], row) == match (
            g.eval(Expression::Query(a, 0), row),
            g.eval(Expression::Query(b, 0), row),
            g.eval(Expression::Query(c, 0), row),
        ) {
            (Some(x), Some(y), Some(z)) => Some(fmul(sel(&g, s, row), fadd(fadd(x, y), fneg(z)))),
            _ => None,
        }
}

impl FibonacciConfig {
    /// The configuration's handles are allocated in `cs`, with equality where the copies need it.
    pub open spec fn usable(&self, cs: &ConstraintSystem) -> bool {
        &&& copyable_advice(cs, self.col_a)
        &&& copyable_advice(cs, self.col_b)
        &&& copyable_advice(cs, self.col_c)
        &&& self.col_a != self.col_b && self.col_b != self.col_c && self.col_a != self.col_c
        &&& self.instance.kind == ColumnKind::Instance
        &&& cs.has_column(self.instance)
        &&& cs.equality@.contains(self.instance)
        &&& self.selector.index < cs.num_selectors
    }
}

/// Term `k` of the sequence in the field that starts with `x`, `y`.
pub open spec fn fib(x: nat, y: nat, k: nat) -> nat
    decreases k,
{
    if k == 0 {
        x
    } else if k == 1 {
        y
    } else {
        fadd(fib(x, y, (k - 2) as nat), fib(x, y, (k - 1) as nat))
    }
}

/// A chip that lays out the Fibonacci rows of a configuration.
#[derive(Clone, Copy, Debug)]
pub struct FibonacciChip {
    pub config: FibonacciConfig,
}

/// The sum of two cell values, unknown when either is.
fn add_values(x: Option<Fe>, y: Option<Fe>) -> (r: Option<Fe>)
    ensures
        r matches Some(v) ==> x is Some && y is Some && v@ == fadd(x->Some_0@, y->Some_0@),
        r is None ==> x is None || y is None,
{
    match x {
        Some(a) => match y {
            Some(b) => Some(fe_add(a, b)),
            None => None,
        },
        None => None,
    }
}

impl FibonacciChip {
    pub fn construct(config: FibonacciConfig) -> (r: FibonacciChip)
        ensures
            r.config == config,
    {
        FibonacciChip { config }
    }

    /// Allocates three advice columns, a selector and an instance column, enables equality on
    /// the four columns and registers a gate `s * (a + b - c)`.
    pub fn configure(cs: &mut ConstraintSystem) -> (r: Result<FibonacciConfig, Error>)
        requires
            old(cs).wf(),
        ensures
            final(cs).wf(),
            old(cs).frozen ==> r == Err::<FibonacciConfig, Error>(Error::ShapeFrozen),
            r matches Ok(c) ==> {
                &&& c.usable(final(cs))
                &&& final(cs).gates@.len() == old(cs).gates@.len() + 1
                &&& is_add_gate(final(cs).gates@.last(), c.selector, c.col_a, c.col_b, c.col_c)
                &&& final(cs).gates@.drop_last() == old(cs).gates@
                &&& final(cs).gates@.last().name@ == "add"@
                &&& final(cs).lookups@ == old(cs).lookups@
                &&& final(cs).num_advice == old(cs).num_advice + 3
                &&& final(cs).num_fixed == old(cs).num_fixed
                &&& final(cs).num_instance == old(cs).num_instance + 1
                &&& final(cs).num_table == old(cs).num_table
                &&& final(cs).num_selectors == old(cs).num_selectors + 1
            },
            !old(cs).frozen && old(cs).num_advice < usize::MAX - 3 && old(cs).num_instance < usize::MAX
                && old(cs).num_selectors < usize::MAX ==> r is Ok,
    {
        if cs.frozen {
            return Err(Error::ShapeFrozen);
        }
        let ghost c0 = *cs;
        let col_a = cs.allocate_column(ColumnKind::Advice)?;
        let col_b = cs.allocate_column(ColumnKind::Advice)?;
        let col_c = cs.allocate_column(ColumnKind::Advice)?;
        let selector = cs.allocate_selector()?;
        let instance = cs.allocate_column(ColumnKind::Instance)?;
        let ghost c1 = *cs;
        proof {
            assert(c1.num_of(ColumnKind::Advice) == c0.num_of(ColumnKind::Advice) + 3);
            assert(c1.num_of(ColumnKind::Instance) == c0.num_of(ColumnKind::Instance) + 1);
        }
        cs.enable_equality(col_a)?;
        let ghost e1 = cs.equality@;
        cs.enable_equality(col_b)?;
        let ghost e2 = cs.equality@;
        cs.enable_equality(col_c)?;
        let ghost e3 = cs.equality@;
        cs.enable_equality(instance)?;
        let ghost c2 = *cs;
        proof {
            assert(e3.contains(col_a) && e3.contains(col_b) && e3.contains(col_c));
            assert(c2.equality@.contains(col_a) && c2.equality@.contains(col_b));
            assert(c2.equality@.contains(col_c) && c2.equality@.contains(instance));
        }
        let s = Expression::selector(selector);
        let a = Expression::query(col_a, 0);
        let b = Expression::query(col_b, 0);
        let c = Expression::query(col_c, 0);
        let poly = s.product(a.sum(b).difference(c));
        let ghost gp = poly;
        proof {
            let sum = Expression::Sum(Box::new(a), Box::new(b));
            let neg = Expression::Negated(Box::new(c));
            let inner = Expression::Sum(Box::new(sum), Box::new(neg));
            assert(gp == Expression::Product(Box::new(Expression::Select(selector)), Box::new(inner)));
            assert(c2.expr_wf(a) && c2.expr_wf(b) && c2.expr_wf(c));
            assert(c2.expr_wf(sum));
            assert(c2.expr_wf(neg));
            assert(c2.expr_wf(inner));
            assert(!has_selector(a) && !has_selector(b) && !has_selector(c));
            assert(!has_selector(sum));
            assert(!has_selector(neg));
            assert(!has_selector(inner));
            assert(c2.expr_wf(Expression::Select(selector)));
            assert(c2.expr_wf(gp));
            assert forall|g: Assembly, row: int| #[trigger] g.selector_on(gp, row) == g.enabled(selector, row) by {
                g.lemma_no_selector(inner, row);
                assert(g.selector_on(Expression::Select(selector), row) == g.enabled(selector, row));
            }
            assert forall|g: Assembly, row: int| #[trigger]
                g.eval(gp, row) == match (
                    g.eval(Expression::Query(col_a, 0), row),
                    g.eval(Expression::Query(col_b, 0), row),
                    g.eval(Expression::Query(col_c, 0), row),
                ) {
                    (Some(x), Some(y), Some(z)) => Some(fmul(sel(&g, selector, row), fadd(fadd(x, y), fneg(z)))),
                    _ => None,
                } by {
                assert(g.eval(Expression::Select(selector), row) == Some(sel(&g, selector, row)));
                assert(g.eval(sum, row) == match (g.eval(a, row), g.eval(b, row)) {
                    (Some(x), Some(y)) => Some(fadd(x, y)),
                    _ => None,
                });
                assert(g.eval(neg, row) == match g.eval(c, row) {
                    Some(z) => Some(fneg(z)),
                    None => None,
                });
                assert(g.eval(inner, row) == match (g.eval(sum, row), g.eval(neg, row)) {
                    (Some(x), Some(y)) => Some(fadd(x, y)),
                    _ => None,
                });
                assert(g.eval(gp, row) == match (g.eval(Expression::Select(selector), row), g.eval(inner, row)) {
                    (Some(x), Some(y)) => Some(fmul(x, y)),
                    _ => None,
                });
            }
        }
        let mut polys: Vec<Expression> = Vec::new();
        polys.push(poly);
        proof {
            assert(polys@[0] == gp);
            assert(c2.polys_wf(polys@));
        }
        let ghost before_gate = *cs;
        let name = String::from_str("add");
        cs.create_gate(name, polys)?;
        proof {
            assert(cs.gates@.last().name@ == "add"@);
            assert(cs.gates@.drop_last() =~= before_gate.gates@);
            assert(cs.num_selectors == before_gate.num_selectors);
        }
        proof {
            assert(cs.gates@.last().polys@ == polys@);
            assert(cs.equality@ == c2.equality@);
        }
        Ok(FibonacciConfig { col_a, col_b, col_c, selector, instance })
    }

    /// The cell of column `c` at a row.
    pub open spec fn cell(c: Column, row: int) -> CellAddr {
        CellAddr { column: c, row: row as usize }
    }

    /// The `c` cells of the first `rows` rows from `row0` hold terms 2, 3, ... of the sequence
    /// seeded by `x`, `y`.
    pub open spec fn c_column_holds(&self, g: &Assembly, row0: int, x: nat, y: nat, rows: int) -> bool {
        forall|j: int|
            0 <= j < rows ==> #[trigger] g.is_known(Self::cell(self.config.col_c, row0 + j)) && g.value(
                Self::cell(self.config.col_c, row0 + j),
            ) == fib(x, y, (j + 2) as nat)
    }

    /// The `b` cell of the row before step `j` (`j >= 1`) of a layout starting at `row0`.
    pub open spec fn prev_b_of(&self, row0: int, j: int) -> CellAddr {
        if j == 1 {
            Self::cell(self.config.col_b, row0)
        } else {
            Self::cell(self.config.col_c, row0 + j - 2)
        }
    }

    /// The copy classes after the first `rows` rows of a layout starting at `row0`.
    pub open spec fn rows_classes(&self, k: Seq<Seq<CellAddr>>, row0: int, rows: nat) -> Seq<Seq<CellAddr>>
        decreases rows,
    {
        let c = self.config;
        if rows <= 1 {
            union_classes(
                union_classes(k, CellAddr { column: c.instance, row: 0 }, Self::cell(c.col_a, row0)),
                CellAddr { column: c.instance, row: 1 },
                Self::cell(c.col_b, row0),
            )
        } else {
            let j = rows - 1;
            union_classes(
                union_classes(self.rows_classes(k, row0, (rows - 1) as nat), self.prev_b_of(row0, j), Self::cell(c.col_a, row0 + j)),
                Self::cell(c.col_c, row0 + j - 1),
                Self::cell(c.col_b, row0 + j),
            )
        }
    }

    /// The declared cells after the first `rows` rows of a layout starting at `row0`.
    pub open spec fn rows_declared(&self, d: Seq<CellAddr>, row0: int, rows: nat) -> Seq<CellAddr>
        decreases rows,
    {
        let c = self.config;
        if rows <= 1 {
            noted(
                noted(noted(noted(d, CellAddr { column: c.instance, row: 0 }), Self::cell(c.col_a, row0)),
                CellAddr { column: c.instance, row: 1 }),
                Self::cell(c.col_b, row0),
            )
        } else {
            let j = rows - 1;
            noted(
                noted(noted(noted(self.rows_declared(d, row0, (rows - 1) as nat), self.prev_b_of(row0, j)),
                Self::cell(c.col_a, row0 + j)), Self::cell(c.col_c, row0 + j - 1)),
                Self::cell(c.col_b, row0 + j),
            )
        }
    }

    /// The selector bits after enabling a selector on `rows` rows from position `base`.
    pub open spec fn rows_selectors(s: Seq<bool>, base: int, rows: nat) -> Seq<bool>
        decreases rows,
    {
        if rows == 0 {
            s
        } else {
            Self::rows_selectors(s, base, (rows - 1) as nat).update(base + rows - 1, true)
        }
    }

    /// Places the first row: `a` and `b` copied from public inputs 0 and 1, `c = a + b`, with the
    /// gate enabled.
    pub fn assign_first_row(&self, grid: &mut Assembly) -> (r: Result<(CellAddr, CellAddr, CellAddr), Error>)
        requires
            old(grid).wf(),
        ensures
            final(grid).wf(),
            old(grid).region is Some ==> r == Err::<(CellAddr, CellAddr, CellAddr), Error>(
                Error::RegionAlreadyOpen,
            ),
            r matches Ok((a, b, c)) ==> {
                let row = old(grid).next_row;
                let i0 = CellAddr { column: self.config.instance, row: 0 };
                let i1 = CellAddr { column: self.config.instance, row: 1 };
                &&& a == CellAddr { column: self.config.col_a, row }
                &&& b == CellAddr { column: self.config.col_b, row }
                &&& c == CellAddr { column: self.config.col_c, row }
                &&& final(grid).is_known(a) && final(grid).is_known(b) && final(grid).is_known(c)
                &&& final(grid).value(a) == old(grid).value(i0)
                &&& final(grid).value(b) == old(grid).value(i1)
                &&& final(grid).value(c) == fadd(old(grid).value(i0), old(grid).value(i1))
                &&& final(grid).enabled(self.config.selector, row as int)
                &&& final(grid).next_row == row + 1
                &&& final(grid).region is None
                &&& final(grid).cs == old(grid).cs
                &&& final(grid).n == old(grid).n
                &&& final(grid).addr_ok(a) && final(grid).addr_ok(b) && final(grid).addr_ok(c)
                &&& final(grid).classes_view() == union_classes(
                    union_classes(old(grid).classes_view(), i0, a),
                    i1,
                    b,
                )
                &&& final(grid).declared@ == noted(noted(noted(noted(old(grid).declared@, i0), a), i1), b)
                &&& final(grid).selectors@ == old(grid).selectors@.update(
                    self.config.selector.index * old(grid).n + row,
                    true,
                )
                &&& final(grid).instance@ == old(grid).instance@
                &&& final(grid).table@ == old(grid).table@
                &&& final(grid).tables_loaded == old(grid).tables_loaded
                &&& old(grid).keeps_rows_before(final(grid), row as int)
            },
            old(grid).region is None && self.config.usable(&old(grid).cs) && old(grid).next_row
                < old(grid).n && 2 <= old(grid).n ==> r is Ok,
    {
        let cfg = self.config;
        let ghost g0 = *grid;
        proof {
            if g0.region is None && cfg.usable(&g0.cs) && g0.next_row < g0.n {
                g0.lemma_next_row_empty(cfg.col_a);
                g0.lemma_next_row_empty(cfg.col_b);
                g0.lemma_next_row_empty(cfg.col_c);
            }
        }
        grid.begin_region()?;
        grid.enable_selector(cfg.selector, 0)?;
        let ghost g2 = *grid;
        let a = grid.assign_advice_from_instance(cfg.instance, 0, cfg.col_a, 0)?;
        let ghost g3 = *grid;
        proof {
            lemma_slot(a.column.index as int, a.row as int, g0.cs.num_advice as int, g0.n as int);
            g2.lemma_single_change(&g3, a);
            assert(g3.state(a) is Known);
            if g0.cs.has_column(cfg.col_b) && cfg.col_b.kind == ColumnKind::Advice && cfg.col_b != cfg.col_a {
                assert(g3.state(CellAddr { column: cfg.col_b, row: g0.next_row }) == g2.state(
                    CellAddr { column: cfg.col_b, row: g0.next_row },
                )) by {
                    lemma_slot(a.column.index as int, a.row as int, g0.cs.num_advice as int, g0.n as int);
                    lemma_slot(cfg.col_b.index as int, a.row as int, g0.cs.num_advice as int, g0.n as int);
                    if cfg.col_b != cfg.col_a {
                        lemma_slot_distinct(cfg.col_b.index as int, a.row as int, a.column.index as int, a.row as int, g0.n as int);
                    }
                }
            }
        }
        let b = grid.assign_advice_from_instance(cfg.instance, 1, cfg.col_b, 0)?;
        let ghost g4 = *grid;
        proof {
            lemma_slot(b.column.index as int, b.row as int, g0.cs.num_advice as int, g0.n as int);
            g3.lemma_single_change(&g4, b);
            assert(a != b);
            assert(g4.state(b) is Known);
            assert(g4.state(a) is Known);
            if g0.cs.has_column(cfg.col_c) && cfg.col_c.kind == ColumnKind::Advice {
                lemma_slot(cfg.col_c.index as int, a.row as int, g0.cs.num_advice as int, g0.n as int);
                lemma_slot(a.column.index as int, a.row as int, g0.cs.num_advice as int, g0.n as int);
                lemma_slot(b.column.index as int, a.row as int, g0.cs.num_advice as int, g0.n as int);
                if cfg.col_c != cfg.col_a {
                    lemma_slot_distinct(cfg.col_c.index as int, a.row as int, a.column.index as int, a.row as int, g0.n as int);
                }
                if cfg.col_c != cfg.col_b {
                    lemma_slot_distinct(cfg.col_c.index as int, a.row as int, b.column.index as int, a.row as int, g0.n as int);
                }
            }
        }
        let va = grid.read_cell(a);
        let vb = grid.read_cell(b);
        let c = grid.assign_advice(cfg.col_c, 0, Some(fe_add(va, vb)))?;
        let ghost g5 = *grid;
        proof {
            lemma_slot(c.column.index as int, c.row as int, g0.cs.num_advice as int, g0.n as int);
            g4.lemma_single_change(&g5, c);
        }
        grid.end_region()?;
        proof {
            assert(c != a && c != b);
            let i0 = CellAddr { column: cfg.instance, row: 0 };
            let i1 = CellAddr { column: cfg.instance, row: 1 };
            assert(g0.instance@ == g4.instance@);
            assert(g3.value(a) == g0.value(i0));
            assert(g4.value(b) == g0.value(i1));
            assert(g4.value(a) == g0.value(i0));
            assert(g5.value(c) == fadd(va@, vb@));
            assert(grid.value(a) == g0.value(i0));
            assert(grid.value(b) == g0.value(i1));
            assert(grid.is_known(a) && grid.is_known(b) && grid.is_known(c));
            assert forall|x: CellAddr|
                g0.addr_ok(x) && x.row < g0.next_row implies #[trigger] grid.value(x) == g0.value(x)
                && grid.is_known(x) == g0.is_known(x) by {
                assert(g2.value(x) == g0.value(x) && g2.is_known(x) == g0.is_known(x));
                assert(g3.value(x) == g2.value(x) && g3.is_known(x) == g2.is_known(x));
                assert(g4.value(x) == g3.value(x) && g4.is_known(x) == g3.is_known(x));
                assert(g5.value(x) == g4.value(x) && g5.is_known(x) == g4.is_known(x));
            }
            assert(g0.keeps_rows_before(grid, g0.next_row as int));
            lemma_slot(cfg.selector.index as int, g0.next_row as int, g0.cs.num_selectors as int, g0.n as int);
        }
        Ok((a, b, c))
    }

    /// Places one more row: `a` and `b` copied from `prev_b` and `prev_c`, `c = a + b`, with the
    /// gate enabled.
    pub fn assign_row(&self, grid: &mut Assembly, prev_b: CellAddr, prev_c: CellAddr) -> (r: Result<
        CellAddr,
        Error,
    >)
        requires
            old(grid).wf(),
        ensures
            final(grid).wf(),
            old(grid).region is Some ==> r == Err::<CellAddr, Error>(Error::RegionAlreadyOpen),
            r matches Ok(c) ==> {
                let row = old(grid).next_row;
                let a = CellAddr { column: self.config.col_a, row };
                let b = CellAddr { column: self.config.col_b, row };
                &&& c == CellAddr { column: self.config.col_c, row }
                &&& final(grid).enabled(self.config.selector, row as int)
                &&& final(grid).next_row == row + 1
                &&& final(grid).region is None
                &&& final(grid).cs == old(grid).cs
                &&& final(grid).n == old(grid).n
                &&& final(grid).addr_ok(c)
                &&& final(grid).classes_view() == union_classes(
                    union_classes(old(grid).classes_view(), prev_b, a),
                    prev_c,
                    b,
                )
                &&& final(grid).declared@ == noted(noted(noted(noted(old(grid).declared@, prev_b), a), prev_c), b)
                &&& final(grid).selectors@ == old(grid).selectors@.update(
                    self.config.selector.index * old(grid).n + row,
                    true,
                )
                &&& final(grid).instance@ == old(grid).instance@
                &&& final(grid).table@ == old(grid).table@
                &&& final(grid).tables_loaded == old(grid).tables_loaded
                &&& old(grid).keeps_rows_before(final(grid), row as int)
                &&& prev_b.row < row && prev_c.row < row ==> {
                    &&& final(grid).value(a) == old(grid).value(prev_b)
                    &&& final(grid).value(b) == old(grid).value(prev_c)
                    &&& final(grid).is_known(c) == (old(grid).is_known(prev_b) && old(grid).is_known(prev_c))
                    &&& final(grid).is_known(c) ==> final(grid).value(c) == fadd(
                        old(grid).value(prev_b),
                        old(grid).value(prev_c),
                    )
                }
            },
            old(grid).region is None && self.config.usable(&old(grid).cs) && old(grid).next_row
                < old(grid).n && old(grid).addr_ok(prev_b) && old(grid).addr_ok(prev_c)
                && old(grid).cs.equality@.contains(prev_b.column) && old(grid).cs.equality@.contains(
                prev_c.column,
            ) && prev_b.row < old(grid).next_row && prev_c.row < old(grid).next_row ==> r is Ok,
    {
        let cfg = self.config;
        let ghost g0 = *grid;
        proof {
            if g0.region is None && cfg.usable(&g0.cs) && g0.next_row < g0.n {
                g0.lemma_next_row_empty(cfg.col_a);
                g0.lemma_next_row_empty(cfg.col_b);
                g0.lemma_next_row_empty(cfg.col_c);
            }
        }
        if grid.region.is_some() {
            return Err(Error::RegionAlreadyOpen);
        }
        let mut vb: Option<Fe> = None;
        let mut vc: Option<Fe> = None;
        if grid.cs.is_queryable(prev_b.column) && prev_b.row < grid.n && grid.cs.is_queryable(prev_c.column)
            && prev_c.row < grid.n {
            if grid.cell_known(prev_b) {
                vb = Some(grid.read_cell(prev_b));
            }
            if grid.cell_known(prev_c) {
                vc = Some(grid.read_cell(prev_c));
            }
        }
        grid.begin_region()?;
        grid.enable_selector(cfg.selector, 0)?;
        let ghost g2 = *grid;
        let a = grid.copy_advice(prev_b, cfg.col_a, 0)?;
        let ghost g3 = *grid;
        proof {
            lemma_slot(a.column.index as int, a.row as int, g0.cs.num_advice as int, g0.n as int);
            g2.lemma_single_change(&g3, a);
            if g0.cs.has_column(cfg.col_b) && cfg.col_b.kind == ColumnKind::Advice && cfg.col_b != cfg.col_a {
                lemma_slot(cfg.col_b.index as int, a.row as int, g0.cs.num_advice as int, g0.n as int);
                lemma_slot_distinct(cfg.col_b.index as int, a.row as int, a.column.index as int, a.row as int, g0.n as int);
            }
        }
        let b = grid.copy_advice(prev_c, cfg.col_b, 0)?;
        let ghost g4 = *grid;
        proof {
            lemma_slot(b.column.index as int, b.row as int, g0.cs.num_advice as int, g0.n as int);
            g3.lemma_single_change(&g4, b);
            if g0.cs.has_column(cfg.col_c) && cfg.col_c.kind == ColumnKind::Advice {
                lemma_slot(cfg.col_c.index as int, a.row as int, g0.cs.num_advice as int, g0.n as int);
                if cfg.col_c != cfg.col_a {
                    lemma_slot_distinct(cfg.col_c.index as int, a.row as int, a.column.index as int, a.row as int, g0.n as int);
                }
                if cfg.col_c != cfg.col_b {
                    lemma_slot_distinct(cfg.col_c.index as int, a.row as int, b.column.index as int, a.row as int, g0.n as int);
                }
            }
        }
        let c = grid.assign_advice(cfg.col_c, 0, add_values(vb, vc))?;
        let ghost g5 = *grid;
        proof {
            lemma_slot(c.column.index as int, c.row as int, g0.cs.num_advice as int, g0.n as int);
            g4.lemma_single_change(&g5, c);
        }
        grid.end_region()?;
        proof {
            lemma_slot(cfg.selector.index as int, g0.next_row as int, g0.cs.num_selectors as int, g0.n as int);
            assert forall|x: CellAddr|
                g0.addr_ok(x) && x.row < g0.next_row implies #[trigger] grid.value(x) == g0.value(x)
                && grid.is_known(x) == g0.is_known(x) by {
                assert(g2.value(x) == g0.value(x) && g2.is_known(x) == g0.is_known(x));
                assert(g3.value(x) == g2.value(x) && g3.is_known(x) == g2.is_known(x));
                assert(g4.value(x) == g3.value(x) && g4.is_known(x) == g3.is_known(x));
                assert(g5.value(x) == g4.value(x) && g5.is_known(x) == g4.is_known(x));
            }
            if prev_b.row < g0.next_row && prev_c.row < g0.next_row {
                assert(g2.value(prev_c) == g0.value(prev_c) && g2.is_known(prev_c) == g0.is_known(prev_c));
                assert(g3.value(prev_c) == g2.value(prev_c) && g3.is_known(prev_c) == g2.is_known(prev_c));
                assert(a != b);
                assert(c != a && c != b);
                assert(grid.value(a) == g0.value(prev_b));
                assert(grid.value(b) == g0.value(prev_c));
            }
        }
        Ok(c)
    }

    /// Records that `cell` must equal row `row` of the public inputs.
    pub fn expose_public(&self, grid: &mut Assembly, cell: CellAddr, row: usize) -> (r: Result<(), Error>)
        requires
            old(grid).wf(),
        ensures
            final(grid).wf(),
            r is Err ==> *final(grid) == *old(grid),
            self.config.instance.kind != ColumnKind::Instance ==> r == Err::<(), Error>(Error::UnknownHandle),
            self.config.instance.kind == ColumnKind::Instance ==> {
                let b = CellAddr { column: self.config.instance, row };
                &&& old(grid).copy_error(cell, b) matches Some(e) ==> r == Err::<(), Error>(e)
                &&& old(grid).copy_error(cell, b) is None ==> {
                    &&& r is Ok
                    &&& final(grid).classes_view() == union_classes(old(grid).classes_view(), cell, b)
                    &&& final(grid).declared@ == noted(noted(old(grid).declared@, cell), b)
                    &&& final(grid).same_cells(old(grid))
                    &&& final(grid).instance@ == old(grid).instance@
                    &&& final(grid).table@ == old(grid).table@
                    &&& final(grid).tables_loaded == old(grid).tables_loaded
                    &&& final(grid).cs == old(grid).cs
                    &&& final(grid).n == old(grid).n
                    &&& final(grid).next_row == old(grid).next_row
                }
            },
    {
        grid.constrain_instance(cell, self.config.instance, row)
    }

    /// Lays out the whole circuit: the first row, seven more rows, and the last `c` tied to
    /// public input 2. Returns that last cell, which holds term 9 of the sequence seeded by
    /// public inputs 0 and 1.
    pub fn synthesize(&self, grid: &mut Assembly) -> (r: Result<CellAddr, Error>)
        requires
            old(grid).wf(),
        ensures
            final(grid).wf(),
            old(grid).region is Some ==> r == Err::<CellAddr, Error>(Error::RegionAlreadyOpen),
            r matches Ok(last) ==> {
                let x = old(grid).value(CellAddr { column: self.config.instance, row: 0 });
                let y = old(grid).value(CellAddr { column: self.config.instance, row: 1 });
                &&& final(grid).is_known(last)
                &&& final(grid).value(last) == fib(x, y, 9)
                &&& final(grid).instance@ == old(grid).instance@
            },
            r matches Ok(last) ==> (last == Self::cell(self.config.col_c, old(grid).next_row + 7)),
            r matches Ok(last) ==> (final(grid).next_row == old(grid).next_row + 8),
            r matches Ok(last) ==> (final(grid).classes_view() == union_classes(
                    self.rows_classes(old(grid).classes_view(), old(grid).next_row as int, 8),
                    last,
                    CellAddr { column: self.config.instance, row: 2 },
                )),
            r matches Ok(last) ==> (final(grid).declared@ == noted(
                    noted(self.rows_declared(old(grid).declared@, old(grid).next_row as int, 8), last),
                    CellAddr { column: self.config.instance, row: 2 },
                )),
            r matches Ok(last) ==> (final(grid).selectors@ == Self::rows_selectors(
                    old(grid).selectors@,
                    self.config.selector.index * old(grid).n + old(grid).next_row,
                    8,
                )),
            r matches Ok(last) ==> self.c_column_holds(
                final(grid),
                old(grid).next_row as int,
                old(grid).value(CellAddr { column: self.config.instance, row: 0 }),
                old(grid).value(CellAddr { column: self.config.instance, row: 1 }),
                8,
            ),
            old(grid).region is None && self.config.usable(&old(grid).cs) && old(grid).next_row + 8
                <= old(grid).n && 3 <= old(grid).n ==> r is Ok,
    {
        let ghost g0 = *grid;
        let (_a, b0, c0) = self.assign_first_row(grid)?;
        let ghost x = g0.value(CellAddr { column: self.config.instance, row: 0 });
        let ghost y = g0.value(CellAddr { column: self.config.instance, row: 1 });
        let mut prev_b = b0;
        let mut prev_c = c0;
        proof {
            assert(fib(x, y, 0) == x);
            assert(fib(x, y, 1) == y);
            assert(fib(x, y, 2) == fadd(x, y));
            assert(Self::rows_selectors(g0.selectors@, self.config.selector.index * g0.n + g0.next_row, 0)
                == g0.selectors@);
            assert(Self::rows_selectors(g0.selectors@, self.config.selector.index * g0.n + g0.next_row, 1)
                == grid.selectors@);
            assert(c0 == Self::cell(self.config.col_c, g0.next_row + 0));
        }
        let mut i: usize = 3;
        while i < 10
            invariant
                3 <= i <= 10,
                g0 == *old(grid),
                g0.region is None && self.config.usable(&g0.cs) && g0.next_row + 8 <= g0.n && 3 <= g0.n
                    ==> grid.region is None && grid.next_row + (10 - i) <= grid.n,
                prev_b.column == self.config.col_b || prev_b.column == self.config.col_c,
                g0.region is None,
                grid.wf(),
                grid.cs == g0.cs,
                grid.n == g0.n,
                grid.addr_ok(prev_b) && grid.addr_ok(prev_c),
                prev_b.row < grid.next_row && prev_c.row < grid.next_row,
                prev_c.column == self.config.col_c,
                grid.is_known(prev_b) && grid.is_known(prev_c),
                grid.value(prev_b) == fib(x, y, (i - 2) as nat),
                grid.value(prev_c) == fib(x, y, (i - 1) as nat),
                grid.next_row == g0.next_row + (i - 2),
                prev_b == self.prev_b_of(g0.next_row as int, i - 2),
                prev_c == Self::cell(self.config.col_c, g0.next_row + i - 3),
                grid.classes_view() == self.rows_classes(g0.classes_view(), g0.next_row as int, (i - 2) as nat),
                grid.declared@ == self.rows_declared(g0.declared@, g0.next_row as int, (i - 2) as nat),
                grid.selectors@ == Self::rows_selectors(
                    g0.selectors@,
                    self.config.selector.index * g0.n + g0.next_row,
                    (i - 2) as nat,
                ),
                grid.instance@ == g0.instance@,
                forall|j: int|
                    0 <= j < i - 2 ==> #[trigger] grid.is_known(Self::cell(self.config.col_c, g0.next_row + j))
                        && grid.value(Self::cell(self.config.col_c, g0.next_row + j)) == fib(x, y, (j + 2) as nat)
                        && grid.addr_ok(Self::cell(self.config.col_c, g0.next_row + j)),
            decreases 10 - i,
        {
            let ghost gi = *grid;
            let c = self.assign_row(grid, prev_b, prev_c)?;
            proof {
                assert(gi.value(prev_c) == grid.value(prev_c));
                assert(gi.is_known(prev_c) == grid.is_known(prev_c));
                let j = (i - 2) as int;
                assert(self.rows_classes(g0.classes_view(), g0.next_row as int, (j + 1) as nat) == grid.classes_view());
                assert(self.rows_declared(g0.declared@, g0.next_row as int, (j + 1) as nat) == grid.declared@);
                assert(Self::rows_selectors(g0.selectors@, self.config.selector.index * g0.n + g0.next_row, (j + 1) as nat)
                    == grid.selectors@);
                assert forall|t: int| 0 <= t < j + 1 implies #[trigger] grid.is_known(Self::cell(self.config.col_c, g0.next_row + t))
                    && grid.value(Self::cell(self.config.col_c, g0.next_row + t)) == fib(x, y, (t + 2) as nat)
                    && grid.addr_ok(Self::cell(self.config.col_c, g0.next_row + t)) by {
                    if t < j {
                        assert(gi.is_known(Self::cell(self.config.col_c, g0.next_row + t)));
                    }
                }
            }
            prev_b = prev_c;
            prev_c = c;
            i = i + 1;
        }
        let ghost gl = *grid;
        self.expose_public(grid, prev_c, 2)?;
        proof {
            assert(gl.classes_view() == self.rows_classes(g0.classes_view(), g0.next_row as int, 8));
            assert(gl.declared@ == self.rows_declared(g0.declared@, g0.next_row as int, 8));
            assert(prev_c == Self::cell(self.config.col_c, g0.next_row + 7));
            assert forall|j: int| 0 <= j < 8 implies #[trigger] grid.is_known(Self::cell(self.config.col_c, g0.next_row + j))
                && grid.value(Self::cell(self.config.col_c, g0.next_row + j)) == fib(x, y, (j + 2) as nat) by {
                assert(gl.is_known(Self::cell(self.config.col_c, g0.next_row + j)));
            }
            assert(self.c_column_holds(grid, g0.next_row as int, x, y, 8));
        }
        Ok(prev_c)
    }
}

} // verus!
