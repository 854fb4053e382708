//! A small standard-PLONK chip: one gate `l*sl + r*sr + l*r*sm - o*so + sc = 0` whose fixed
//! columns choose between multiplication and addition on each row.
use crate::assembly::{lemma_slot, Assembly};
use crate::checker::has_selector;
use crate::circuit::{Column, ColumnKind, ConstraintSystem, Expression, Gate};
use crate::error::Error;
use crate::field::{fadd, fe_from_u64, fe_neg, fmul, fneg, Fe};
use crate::permutation::{noted, union_classes, CellAddr};
use crate::simple_range::assigned;
use vstd::prelude::*;

verus! {

/// The columns of the chip.
#[derive(Clone, Copy, Debug)]
pub struct TutorialConfig {
    pub l: Column,
    pub r: Column,
    pub o: Column,
    pub sl: Column,
    pub sr: Column,
    pub so: Column,
    pub sm: Column,
    pub sc: Column,
    pub pi: Column,
}

/// `l*sl + r*sr + l*r*sm - o*so + sc` in the field.
pub open spec fn mini_plonk(l: nat, r: nat, o: nat, sl: nat, sr: nat, so: nat, sm: nat, sc: nat) -> nat {
    fadd(fadd(fadd(fadd(fmul(l, sl), fmul(r, sr)), fmul(fmul(l, r), sm)), fmul(fmul(o, so), fneg(1))), sc)
}

/// The cell of column `c` at a row.
pub open spec fn cell_of(c: Column, row: int) -> CellAddr {
    CellAddr { column: c, row: row as usize }
}

/// Value of column `c` at a row.
pub open spec fn at(g: &Assembly, c: Column, row: int) -> nat {
    g.value(CellAddr { column: c, row: row as usize })
}

/// The given gate is the single expression of `mini_plonk` over the chip's columns at the evaluated
/// row; it mentions no selector, so it is in force on every row.
pub open spec fn is_plonk_gate(gate: Gate, c: TutorialConfig) -> bool {
    &&& gate.polys@.len() == 1
    &&& !has_selector(gate.polys@[0])
    &&& forall|g: Assembly, row: int|
        0 <= row < g.n ==> #[trigger] g.eval(gate.polys@[0], row) == Some(
            mini_plonk(
                at(&g, c.l, row),
                at(&g, c.r, row),
                at(&g, c.o, row),
                at(&g, c.sl, row),
                at(&g, c.sr, row),
                at(&g, c.so, row),
                at(&g, c.sm, row),
                at(&g, c.sc, row),
            ),
        )
}

impl TutorialConfig {
    /// Allocates the three advice columns, the five fixed columns and the public-input column,
    /// enables equality on `l`, `r`, `o` and the public inputs, and registers a gate.
    pub fn configure(cs: &mut ConstraintSystem) -> (r: Result<TutorialConfig, Error>)
        requires
            old(cs).wf(),
        ensures
            final(cs).wf(),
            old(cs).frozen ==> r == Err::<TutorialConfig, Error>(Error::ShapeFrozen),
            r matches Ok(c) ==> {
                &&& final(cs).gates@.len() == old(cs).gates@.len() + 1
                &&& is_plonk_gate(final(cs).gates@.last(), c)
                &&& c.usable(final(cs))
                &&& c.copyable(final(cs))
                &&& c.sc.kind == ColumnKind::Fixed && final(cs).has_column(c.sc)
                &&& c.sm != c.sl && c.sm != c.sr && c.sm != c.sc && c.sl != c.sc && c.sr != c.sc
                    && c.so != c.sc
                &&& forall|x: Column| #[trigger] final(cs).equality@.contains(x) <==> (old(cs).equality@.contains(x)
                    || x == c.l || x == c.r || x == c.o || x == c.pi)
                &&& final(cs).lookups@ == old(cs).lookups@
                &&& final(cs).num_selectors == old(cs).num_selectors
                &&& final(cs).gates@.drop_last() == old(cs).gates@
                &&& final(cs).gates@.last().name@ == "mini plonk"@
                &&& final(cs).num_advice == old(cs).num_advice + 3
                &&& final(cs).num_fixed == old(cs).num_fixed + 5
                &&& final(cs).num_instance == old(cs).num_instance + 1
                &&& final(cs).num_table == old(cs).num_table
                &&& c.l.kind == ColumnKind::Advice && c.r.kind == ColumnKind::Advice && c.o.kind
                    == ColumnKind::Advice
                &&& c.sl.kind == ColumnKind::Fixed && c.sr.kind == ColumnKind::Fixed && c.so.kind
                    == ColumnKind::Fixed && c.sm.kind == ColumnKind::Fixed && c.sc.kind == ColumnKind::Fixed
                &&& c.pi.kind == ColumnKind::Instance
                &&& final(cs).equality@.contains(c.l) && final(cs).equality@.contains(c.r)
                &&& final(cs).equality@.contains(c.o) && final(cs).equality@.contains(c.pi)
            },
            !old(cs).frozen && old(cs).num_advice < usize::MAX - 3 && old(cs).num_fixed < usize::MAX - 5
                && old(cs).num_instance < usize::MAX ==> r is Ok,
    {
        let ghost c0 = *cs;
        let l = cs.allocate_column(ColumnKind::Advice)?;
        proof {
            assert(cs.num_of(ColumnKind::Fixed) == c0.num_of(ColumnKind::Fixed));
            assert(cs.num_of(ColumnKind::Instance) == c0.num_of(ColumnKind::Instance));
        }
        let ghost c1 = *cs;
        let r = cs.allocate_column(ColumnKind::Advice)?;
        proof {
            assert(cs.num_of(ColumnKind::Fixed) == c1.num_of(ColumnKind::Fixed));
            assert(cs.num_of(ColumnKind::Instance) == c1.num_of(ColumnKind::Instance));
        }
        let ghost c3 = *cs;
        let o = cs.allocate_column(ColumnKind::Advice)?;
        proof {
            assert(cs.num_of(ColumnKind::Fixed) == c3.num_of(ColumnKind::Fixed));
            assert(cs.num_of(ColumnKind::Instance) == c3.num_of(ColumnKind::Instance));
        }
        cs.enable_equality(l)?;
        let ghost e1 = cs.equality@;
        cs.enable_equality(r)?;
        let ghost e2 = cs.equality@;
        cs.enable_equality(o)?;
        let ghost e3 = cs.equality@;
        let ghost c4 = *cs;
        let sm = cs.allocate_column(ColumnKind::Fixed)?;
        proof {
            assert(cs.num_of(ColumnKind::Fixed) == c4.num_of(ColumnKind::Fixed) + 1);
            assert(cs.num_of(ColumnKind::Instance) == c4.num_of(ColumnKind::Instance));
        }
        let ghost c5 = *cs;
        let sl = cs.allocate_column(ColumnKind::Fixed)?;
        proof {
            assert(cs.num_of(ColumnKind::Fixed) == c5.num_of(ColumnKind::Fixed) + 1);
            assert(cs.num_of(ColumnKind::Instance) == c5.num_of(ColumnKind::Instance));
            assert(cs.num_of(ColumnKind::Advice) == c5.num_of(ColumnKind::Advice));
        }
        let ghost c6 = *cs;
        let sr = cs.allocate_column(ColumnKind::Fixed)?;
        proof {
            assert(cs.num_of(ColumnKind::Fixed) == c6.num_of(ColumnKind::Fixed) + 1);
            assert(cs.num_of(ColumnKind::Instance) == c6.num_of(ColumnKind::Instance));
            assert(cs.num_of(ColumnKind::Advice) == c6.num_of(ColumnKind::Advice));
        }
        let ghost c7 = *cs;
        let so = cs.allocate_column(ColumnKind::Fixed)?;
        proof {
            assert(cs.num_of(ColumnKind::Fixed) == c7.num_of(ColumnKind::Fixed) + 1);
            assert(cs.num_of(ColumnKind::Instance) == c7.num_of(ColumnKind::Instance));
            assert(cs.num_of(ColumnKind::Advice) == c7.num_of(ColumnKind::Advice));
        }
        let ghost c8 = *cs;
        let sc = cs.allocate_column(ColumnKind::Fixed)?;
        proof {
            assert(cs.num_of(ColumnKind::Fixed) == c8.num_of(ColumnKind::Fixed) + 1);
            assert(cs.num_of(ColumnKind::Instance) == c8.num_of(ColumnKind::Instance));
            assert(cs.num_of(ColumnKind::Advice) == c8.num_of(ColumnKind::Advice));
        }
        let ghost c9 = *cs;
        let pi = cs.allocate_column(ColumnKind::Instance)?;
        proof {
            assert(cs.num_of(ColumnKind::Fixed) == c9.num_of(ColumnKind::Fixed));
            assert(cs.num_of(ColumnKind::Advice) == c9.num_of(ColumnKind::Advice));
        }
        let ghost e4 = cs.equality@;
        cs.enable_equality(pi)?;
        let ghost c2 = *cs;
        proof {
            assert(e1.contains(l));
            assert(e2.contains(l) && e2.contains(r));
            assert(e4 == e3);
            assert(e3.contains(l) && e3.contains(r) && e3.contains(o));
        }
        let ql = Expression::query(l, 0);
        let qr = Expression::query(r, 0);
        let qo = Expression::query(o, 0);
        let qsl = Expression::query(sl, 0);
        let qsr = Expression::query(sr, 0);
        let qso = Expression::query(so, 0);
        let qsm = Expression::query(sm, 0);
        let qsc = Expression::query(sc, 0);
        let minus_one = Expression::constant(fe_neg(fe_from_u64(1)));
        let e_l = ql.duplicate().product(qsl);
        let e_r = qr.duplicate().product(qsr);
        let e_m = ql.product(qr).product(qsm);
        let e_o = qo.product(qso).product(minus_one);
        let s1 = e_l.sum(e_r);
        let s2 = s1.sum(e_m);
        let s3 = s2.sum(e_o);
        let poly = s3.sum(qsc);
        proof {
            assert(!has_selector(ql) && !has_selector(qr) && !has_selector(qo));
            assert(!has_selector(qsl) && !has_selector(qsr) && !has_selector(qso));
            assert(!has_selector(qsm) && !has_selector(qsc) && !has_selector(minus_one));
            assert(!has_selector(e_l) && !has_selector(e_r));
            assert(!has_selector(Expression::Product(Box::new(ql), Box::new(qr))));
            assert(!has_selector(e_m));
            assert(!has_selector(Expression::Product(Box::new(qo), Box::new(qso))));
            assert(!has_selector(e_o));
            assert(!has_selector(s1));
            assert(!has_selector(s2));
            assert(!has_selector(s3));
            assert(!has_selector(poly));
            assert(c2.expr_wf(ql) && c2.expr_wf(qr) && c2.expr_wf(qo));
            assert(c2.expr_wf(qsl));
            assert(c2.expr_wf(qsr));
            assert(c2.expr_wf(qso));
            assert(c2.expr_wf(qsm));
            assert(c2.expr_wf(qsc));
            assert(c2.expr_wf(minus_one));
            assert(c2.expr_wf(e_l) && c2.expr_wf(e_r));
            assert(c2.expr_wf(Expression::Product(Box::new(ql), Box::new(qr))));
            assert(c2.expr_wf(e_m));
            assert(c2.expr_wf(Expression::Product(Box::new(qo), Box::new(qso))));
            assert(c2.expr_wf(e_o));
            assert(c2.expr_wf(s1));
            assert(c2.expr_wf(s2));
            assert(c2.expr_wf(s3));
            assert(c2.expr_wf(poly));
            assert forall|g: Assembly, row: int| 0 <= row < g.n implies #[trigger] g.eval(poly, row) == Some(
                mini_plonk(
                    at(&g, l, row),
                    at(&g, r, row),
                    at(&g, o, row),
                    at(&g, sl, row),
                    at(&g, sr, row),
                    at(&g, so, row),
                    at(&g, sm, row),
                    at(&g, sc, row),
                ),
            ) by {
                let lr = Expression::Product(Box::new(ql), Box::new(qr));
                let os = Expression::Product(Box::new(qo), Box::new(qso));
                assert(g.eval(ql, row) == Some(at(&g, l, row)));
                assert(g.eval(qr, row) == Some(at(&g, r, row)));
                assert(g.eval(qo, row) == Some(at(&g, o, row)));
                assert(g.eval(qsl, row) == Some(at(&g, sl, row)));
                assert(g.eval(qsr, row) == Some(at(&g, sr, row)));
                assert(g.eval(qso, row) == Some(at(&g, so, row)));
                assert(g.eval(qsm, row) == Some(at(&g, sm, row)));
                assert(g.eval(qsc, row) == Some(at(&g, sc, row)));
                assert(g.eval(minus_one, row) == Some(fneg(1)));
                assert(g.eval(e_l, row) == Some(fmul(at(&g, l, row), at(&g, sl, row))));
                assert(g.eval(e_r, row) == Some(fmul(at(&g, r, row), at(&g, sr, row))));
                assert(g.eval(lr, row) == Some(fmul(at(&g, l, row), at(&g, r, row))));
                assert(g.eval(e_m, row) == Some(fmul(fmul(at(&g, l, row), at(&g, r, row)), at(&g, sm, row))));
                assert(g.eval(os, row) == Some(fmul(at(&g, o, row), at(&g, so, row))));
                assert(g.eval(e_o, row) == Some(fmul(fmul(at(&g, o, row), at(&g, so, row)), fneg(1))));
                assert(g.eval(s1, row) is Some);
                assert(g.eval(s2, row) is Some);
                assert(g.eval(s3, row) is Some);
            }
        }
        let mut polys: Vec<Expression> = Vec::new();
        polys.push(poly);
        proof {
            assert(c2.polys_wf(polys@));
        }
        let ghost before_gate = *cs;
        let name = String::from_str("mini plonk");
        cs.create_gate(name, polys)?;
        proof {
            assert(cs.gates@.last().name@ == "mini plonk"@);
            assert(cs.gates@.drop_last() =~= before_gate.gates@);
            assert(cs.num_selectors == before_gate.num_selectors);
        }
        proof {
            assert(cs.gates@.last().polys@ == polys@);
            assert(cs.equality@ == c2.equality@);
        }
        Ok(TutorialConfig { l, r, o, sl, sr, so, sm, sc, pi })
    }
}

/// The cell holds the known value `v`, or the unknown placeholder when `v` is `None`.
pub open spec fn holds(g: &Assembly, a: CellAddr, v: Option<nat>) -> bool {
    match v {
        Some(n) => g.state(a) is Known && g.value(a) == n,
        None => g.state(a) is Unknown,
    }
}

/// The value of a witness, as an integer.
pub open spec fn val(v: Option<Fe>) -> Option<nat> {
    match v {
        Some(f) => Some(f@),
        None => None,
    }
}

/// The square of a witness.
pub open spec fn square(v: Option<Fe>) -> Option<nat> {
    match v {
        Some(f) => Some(fmul(f@, f@)),
        None => None,
    }
}

/// `x^2 * y^2`, known when both witnesses are.
pub open spec fn squares_product(x: Option<Fe>, y: Option<Fe>) -> Option<nat> {
    match (x, y) {
        (Some(a), Some(b)) => Some(fmul(fmul(a@, a@), fmul(b@, b@))),
        _ => None,
    }
}

/// Component `i` of a triple of values, unknown when the triple is.
pub open spec fn part(values: Option<(Fe, Fe, Fe)>, i: int) -> Option<Fe> {
    match values {
        Some((x, y, z)) => Some(
            if i == 0 {
                x
            } else if i == 1 {
                y
            } else {
                z
            },
        ),
        None => None,
    }
}

/// The chip, over its configuration.
#[derive(Clone, Copy, Debug)]
pub struct TutorialChip {
    pub config: TutorialConfig,
}

impl TutorialConfig {
    /// The columns are allocated in `cs` with the kinds the chip needs, each a different one.
    pub open spec fn usable(&self, cs: &ConstraintSystem) -> bool {
        &&& self.l.kind == ColumnKind::Advice && self.r.kind == ColumnKind::Advice && self.o.kind
            == ColumnKind::Advice
        &&& self.sl.kind == ColumnKind::Fixed && self.sr.kind == ColumnKind::Fixed && self.so.kind
            == ColumnKind::Fixed && self.sm.kind == ColumnKind::Fixed
        &&& cs.has_column(self.l) && cs.has_column(self.r) && cs.has_column(self.o)
        &&& cs.has_column(self.sl) && cs.has_column(self.sr) && cs.has_column(self.so) && cs.has_column(
            self.sm,
        )
        &&& self.l != self.r && self.r != self.o && self.l != self.o
        &&& self.sl != self.sr && self.sl != self.so && self.sr != self.so
        &&& self.sm != self.so
    }

    /// The copies and public inputs of the chip can be recorded in `cs`.
    pub open spec fn copyable(&self, cs: &ConstraintSystem) -> bool {
        &&& self.pi.kind == ColumnKind::Instance && cs.has_column(self.pi)
        &&& cs.equality@.contains(self.l) && cs.equality@.contains(self.r)
        &&& cs.equality@.contains(self.o) && cs.equality@.contains(self.pi)
    }
}

impl TutorialChip {
    pub fn new(config: TutorialConfig) -> (r: TutorialChip)
        ensures
            r.config == config,
    {
        TutorialChip { config }
    }

    /// The cells of the next free row that an operation writes are empty.
    pub open spec fn row_free(&self, grid: &Assembly, mul: bool) -> bool {
        let row = grid.next_row;
        let c = self.config;
        &&& grid.state(CellAddr { column: c.l, row }) is Empty
        &&& grid.state(CellAddr { column: c.r, row }) is Empty
        &&& grid.state(CellAddr { column: c.o, row }) is Empty
        &&& grid.state(CellAddr { column: c.so, row }) is Empty
        &&& mul ==> grid.state(CellAddr { column: c.sm, row }) is Empty
        &&& !mul ==> grid.state(CellAddr { column: c.sl, row }) is Empty && grid.state(
            CellAddr { column: c.sr, row },
        ) is Empty
    }

    /// The cell is one that an operation on `row` writes.
    pub open spec fn written(&self, x: CellAddr, row: usize, mul: bool) -> bool {
        let c = self.config;
        &&& x.row == row
        &&& x.column == c.l || x.column == c.r || x.column == c.o || x.column == c.so || (mul
            && x.column == c.sm) || (!mul && (x.column == c.sl || x.column == c.sr))
    }

    /// What an operation leaves on success: the three operand cells of a new row with the given
    /// values, and the fixed columns that choose the operation set to one.
    pub open spec fn placed(
        &self,
        old: &Assembly,
        new: &Assembly,
        values: Option<(Fe, Fe, Fe)>,
        mul: bool,
        cells: (CellAddr, CellAddr, CellAddr),
    ) -> bool {
        let row = old.next_row;
        let c = self.config;
        &&& cells.0 == CellAddr { column: c.l, row }
        &&& cells.1 == CellAddr { column: c.r, row }
        &&& cells.2 == CellAddr { column: c.o, row }
        &&& new.state(cells.0) == assigned(part(values, 0))
        &&& new.state(cells.1) == assigned(part(values, 1))
        &&& new.state(cells.2) == assigned(part(values, 2))
        &&& new.addr_ok(cells.0) && new.addr_ok(cells.1) && new.addr_ok(cells.2)
        &&& c.l.kind == ColumnKind::Advice && c.r.kind == ColumnKind::Advice && c.o.kind == ColumnKind::Advice
        &&& at(new, c.so, row as int) == 1
        &&& c.so.kind == ColumnKind::Fixed && new.cs.has_column(c.so)
        &&& mul ==> c.sm.kind == ColumnKind::Fixed && new.cs.has_column(c.sm)
        &&& !mul ==> c.sl.kind == ColumnKind::Fixed && new.cs.has_column(c.sl) && c.sr.kind == ColumnKind::Fixed
            && new.cs.has_column(c.sr)
        &&& mul ==> at(new, c.sm, row as int) == 1
        &&& !mul ==> at(new, c.sl, row as int) == 1 && at(new, c.sr, row as int) == 1
        &&& new.next_row == row + 1
        &&& new.region is None
        &&& new.cs == old.cs
        &&& new.n == old.n
        &&& new.classes_view() == old.classes_view()
        &&& new.declared@ == old.declared@
        &&& new.instance@ == old.instance@
        &&& new.table@ == old.table@
        &&& new.tables_loaded == old.tables_loaded
        &&& new.selectors@ == old.selectors@
        &&& forall|x: CellAddr|
            #![trigger new.value(x)]
            #![trigger new.is_known(x)]
            #![trigger new.state(x)]
            old.addr_ok(x) && !self.written(x, row, mul) ==> new.value(x) == old.value(x)
                && new.is_known(x) == old.is_known(x) && (x.column.kind != ColumnKind::Instance
                ==> new.state(x) == old.state(x))
    }

    /// The declared cells after `synthesize` starting at `row`: both cells of every copy and of
    /// every public-input tie, in the order they are recorded.
    pub open spec fn synthesized_declared(&self, d: Seq<CellAddr>, row: int) -> Seq<CellAddr> {
        let c = self.config;
        let cell = |col: Column, i: int| CellAddr { column: col, row: (row + i) as usize };
        let d1 = noted(noted(d, cell(c.l, 0)), cell(c.r, 0));
        let d2 = noted(noted(d1, cell(c.l, 1)), cell(c.r, 1));
        let d3 = noted(noted(d2, cell(c.o, 0)), cell(c.l, 2));
        let d4 = noted(noted(d3, cell(c.o, 1)), cell(c.r, 2));
        let d5 = noted(noted(d4, cell(c.o, 2)), cell(c.l, 3));
        let d6 = noted(noted(d5, cell(c.r, 3)), CellAddr { column: c.pi, row: 0 });
        noted(noted(d6, cell(c.o, 3)), CellAddr { column: c.pi, row: 1 })
    }

    /// The copy classes after `synthesize` starting at `row`: each squaring row's `l` and `r`
    /// joined, the products chained into the third row and its result into the addition, and the
    /// addition's `r` and `o` tied to public inputs 0 and 1.
    pub open spec fn synthesized_classes(&self, k: Seq<Seq<CellAddr>>, row: int) -> Seq<Seq<CellAddr>> {
        let c = self.config;
        let cell = |col: Column, i: int| CellAddr { column: col, row: (row + i) as usize };
        let k1 = union_classes(k, cell(c.l, 0), cell(c.r, 0));
        let k2 = union_classes(k1, cell(c.l, 1), cell(c.r, 1));
        let k3 = union_classes(k2, cell(c.o, 0), cell(c.l, 2));
        let k4 = union_classes(k3, cell(c.o, 1), cell(c.r, 2));
        let k5 = union_classes(k4, cell(c.o, 2), cell(c.l, 3));
        let k6 = union_classes(k5, cell(c.r, 3), CellAddr { column: c.pi, row: 0 });
        union_classes(k6, cell(c.o, 3), CellAddr { column: c.pi, row: 1 })
    }

    #[verifier::rlimit(100)]
    fn place(&self, grid: &mut Assembly, values: Option<(Fe, Fe, Fe)>, mul: bool) -> (r: Result<
        (CellAddr, CellAddr, CellAddr),
        Error,
    >)
        requires
            old(grid).wf(),
        ensures
            final(grid).wf(),
            old(grid).region is Some ==> r == Err::<(CellAddr, CellAddr, CellAddr), Error>(
                Error::RegionAlreadyOpen,
            ),
            r matches Ok(cells) ==> self.placed(old(grid), final(grid), values, mul, cells),
            old(grid).region is None && old(grid).next_row < old(grid).n && self.config.usable(&old(grid).cs)
                ==> r is Ok,
    {
        let c = self.config;
        let ghost g0 = *grid;
        proof {
            if g0.region is None && g0.next_row < g0.n && c.usable(&g0.cs) {
                g0.lemma_next_row_empty(c.l);
                g0.lemma_next_row_empty(c.r);
                g0.lemma_next_row_empty(c.o);
                g0.lemma_next_row_empty(c.so);
                g0.lemma_next_row_empty(c.sm);
                g0.lemma_next_row_empty(c.sl);
                g0.lemma_next_row_empty(c.sr);
                assert(self.row_free(&g0, mul));
            }
        }
        let (vl, vr, vo) = match values {
            Some((x, y, z)) => (Some(x), Some(y), Some(z)),
            None => (None, None, None),
        };
        grid.begin_region()?;
        let ghost g1 = *grid;
        let ghost row = g0.next_row;
        let a = grid.assign_advice(c.l, 0, vl)?;
        let ghost g2 = *grid;
        proof {
            lemma_slot(a.column.index as int, row as int, g0.cs.num_advice as int, g0.n as int);
            g1.lemma_single_change(&g2, a);
        }
        let b = grid.assign_advice(c.r, 0, vr)?;
        let ghost g3 = *grid;
        proof {
            lemma_slot(b.column.index as int, row as int, g0.cs.num_advice as int, g0.n as int);
            g2.lemma_single_change(&g3, b);
        }
        let o = grid.assign_advice(c.o, 0, vo)?;
        let ghost g4 = *grid;
        proof {
            lemma_slot(o.column.index as int, row as int, g0.cs.num_advice as int, g0.n as int);
            g3.lemma_single_change(&g4, o);
        }
        let one = fe_from_u64(1);
        let ghost g5;
        let ghost g6;
        let ghost g7;
        if mul {
            let m = grid.assign_fixed(c.sm, 0, one)?;
            proof {
                g5 = *grid;
                lemma_slot(m.column.index as int, row as int, g0.cs.num_fixed as int, g0.n as int);
                g4.lemma_single_change(&g5, m);
            }
            let s = grid.assign_fixed(c.so, 0, one)?;
            proof {
                g7 = *grid;
                lemma_slot(s.column.index as int, row as int, g0.cs.num_fixed as int, g0.n as int);
                g5.lemma_single_change(&g7, s);
                g6 = g5;
            }
        } else {
            let x = grid.assign_fixed(c.sl, 0, one)?;
            proof {
                g5 = *grid;
                lemma_slot(x.column.index as int, row as int, g0.cs.num_fixed as int, g0.n as int);
                g4.lemma_single_change(&g5, x);
            }
            let y = grid.assign_fixed(c.sr, 0, one)?;
            proof {
                g6 = *grid;
                lemma_slot(y.column.index as int, row as int, g0.cs.num_fixed as int, g0.n as int);
                g5.lemma_single_change(&g6, y);
            }
            let s = grid.assign_fixed(c.so, 0, one)?;
            proof {
                g7 = *grid;
                lemma_slot(s.column.index as int, row as int, g0.cs.num_fixed as int, g0.n as int);
                g6.lemma_single_change(&g7, s);
            }
        }
        grid.end_region()?;
        proof {
            assert(a != b && a != o && b != o);
            assert(g7.state(a) == g2.state(a));
            assert(g7.state(b) == g3.state(b));
            assert(g7.state(o) == g4.state(o));
            assert(grid.state(a) == assigned(part(values, 0)));
            assert(grid.state(b) == assigned(part(values, 1)));
            assert(grid.state(o) == assigned(part(values, 2)));
            assert(grid.addr_ok(a) && grid.addr_ok(b) && grid.addr_ok(o));
            assert(at(grid, c.so, row as int) == 1);
            assert(mul ==> at(grid, c.sm, row as int) == 1);
            assert(!mul ==> at(grid, c.sl, row as int) == 1);
            assert(!mul ==> at(grid, c.sr, row as int) == 1);
            assert(grid.classes_view() == g0.classes_view());
            assert(grid.next_row == row + 1);
            assert(grid.cs == g0.cs && grid.n == g0.n);
            assert(grid.declared@ == g0.declared@);
            assert(grid.instance@ == g0.instance@);
            assert(grid.table@ == g0.table@);
            assert(grid.selectors@ == g0.selectors@);
            assert forall|x: CellAddr|
                g0.addr_ok(x) && !self.written(x, row, mul) implies #[trigger] grid.value(x) == g0.value(x)
                && grid.is_known(x) == g0.is_known(x) && (x.column.kind != ColumnKind::Instance
                ==> grid.state(x) == g0.state(x)) by {
                assert(g2.value(x) == g0.value(x) && g2.is_known(x) == g0.is_known(x) && g2.state(x) == g0.state(x));
                assert(g3.value(x) == g2.value(x) && g3.is_known(x) == g2.is_known(x));
                assert(g4.value(x) == g3.value(x) && g4.is_known(x) == g3.is_known(x));
                assert(g5.value(x) == g4.value(x) && g5.is_known(x) == g4.is_known(x));
                assert(g6.value(x) == g5.value(x) && g6.is_known(x) == g5.is_known(x));
                assert(g7.value(x) == g6.value(x) && g7.is_known(x) == g6.is_known(x));
                if x.column.kind != ColumnKind::Instance {
                    assert(g3.state(x) == g2.state(x));
                    assert(g4.state(x) == g3.state(x));
                    assert(g5.state(x) == g4.state(x));
                    assert(g6.state(x) == g5.state(x));
                    assert(g7.state(x) == g6.state(x));
                }
            }
            assert(self.placed(&g0, grid, values, mul, (a, b, o)));
        }
        Ok((a, b, o))
    }

    /// Places a row that multiplies: `l * r = o`, with `sm` and `so` set.
    pub fn raw_multiply(&self, grid: &mut Assembly, values: Option<(Fe, Fe, Fe)>) -> (r: Result<
        (CellAddr, CellAddr, CellAddr),
        Error,
    >)
        requires
            old(grid).wf(),
        ensures
            final(grid).wf(),
            old(grid).region is Some ==> r == Err::<(CellAddr, CellAddr, CellAddr), Error>(
                Error::RegionAlreadyOpen,
            ),
            r matches Ok(cells) ==> self.placed(old(grid), final(grid), values, true, cells),
            old(grid).region is None && old(grid).next_row < old(grid).n && self.config.usable(&old(grid).cs)
                ==> r is Ok,
    {
        self.place(grid, values, true)
    }

    /// Places a row that adds: `l + r = o`, with `sl`, `sr` and `so` set.
    pub fn raw_add(&self, grid: &mut Assembly, values: Option<(Fe, Fe, Fe)>) -> (r: Result<
        (CellAddr, CellAddr, CellAddr),
        Error,
    >)
        requires
            old(grid).wf(),
        ensures
            final(grid).wf(),
            old(grid).region is Some ==> r == Err::<(CellAddr, CellAddr, CellAddr), Error>(
                Error::RegionAlreadyOpen,
            ),
            r matches Ok(cells) ==> self.placed(old(grid), final(grid), values, false, cells),
            old(grid).region is None && old(grid).next_row < old(grid).n && self.config.usable(&old(grid).cs)
                ==> r is Ok,
    {
        self.place(grid, values, false)
    }

    /// Records that cells `a` and `b` must be equal.
    pub fn copy(&self, grid: &mut Assembly, a: CellAddr, b: CellAddr) -> (r: Result<(), Error>)
        requires
            old(grid).wf(),
        ensures
            final(grid).wf(),
            r is Err ==> *final(grid) == *old(grid),
            old(grid).region is Some ==> r == Err::<(), Error>(Error::RegionAlreadyOpen),
            old(grid).region is None ==> (old(grid).copy_error(a, b) matches Some(e) ==> r == Err::<(), Error>(e)),
            old(grid).region is None && old(grid).copy_error(a, b) is None ==> {
                &&& r is Ok
                &&& final(grid).classes_view() == union_classes(old(grid).classes_view(), a, b)
                &&& final(grid).declared@ == noted(noted(old(grid).declared@, a), b)
                &&& final(grid).same_cells(old(grid))
                &&& final(grid).instance@ == old(grid).instance@
                &&& final(grid).table@ == old(grid).table@
                &&& final(grid).tables_loaded == old(grid).tables_loaded
                &&& final(grid).cs == old(grid).cs
                &&& final(grid).n == old(grid).n
                &&& final(grid).next_row == old(grid).next_row
            },
    {
        if grid.region.is_some() {
            return Err(Error::RegionAlreadyOpen);
        }
        grid.constrain_equal(a, b)
    }

    /// Records that `cell` must equal row `row` of the public inputs.
    pub fn expose_public(&self, grid: &mut Assembly, cell: CellAddr, row: usize) -> (r: Result<(), Error>)
        requires
            old(grid).wf(),
        ensures
            final(grid).wf(),
            r is Err ==> *final(grid) == *old(grid),
            self.config.pi.kind != ColumnKind::Instance ==> r == Err::<(), Error>(Error::UnknownHandle),
            self.config.pi.kind == ColumnKind::Instance ==> {
                let b = CellAddr { column: self.config.pi, row };
                &&& old(grid).copy_error(cell, b) matches Some(e) ==> r == Err::<(), Error>(e)
                &&& old(grid).copy_error(cell, b) is None ==> {
                    &&& r is Ok
                    &&& final(grid).classes_view() == union_classes(old(grid).classes_view(), cell, b)
                    &&& final(grid).declared@ == noted(noted(old(grid).declared@, cell), b)
                    &&& final(grid).same_cells(old(grid))
                    &&& final(grid).instance@ == old(grid).instance@
                    &&& final(grid).table@ == old(grid).table@
                    &&& final(grid).tables_loaded == old(grid).tables_loaded
                    &&& final(grid).cs == old(grid).cs
                    &&& final(grid).n == old(grid).n
                    &&& final(grid).next_row == old(grid).next_row
                }
            },
    {
        grid.constrain_instance(cell, self.config.pi, row)
    }

    /// Lays out `x^2 * y^2 + constant`: three multiplications and one addition, copies that
    /// chain them, the constant tied to public input 0 and the result to public input 1. The
    /// result is the `o` cell of the fourth row placed.
    #[verifier::rlimit(100)]
    #[verifier::spinoff_prover]
    pub fn synthesize(&self, grid: &mut Assembly, x: Option<Fe>, y: Option<Fe>, constant: Fe) -> (r:
        Result<(), Error>)
        requires
            old(grid).wf(),
        ensures
            final(grid).wf(),
            old(grid).region is Some ==> r == Err::<(), Error>(Error::RegionAlreadyOpen),
            r is Ok ==> {
                let out = CellAddr { column: self.config.o, row: (old(grid).next_row + 3) as usize };
                &&& final(grid).region is None
                &&& final(grid).cs == old(grid).cs
                &&& final(grid).next_row == old(grid).next_row + 4
                &&& final(grid).instance@ == old(grid).instance@
                &&& final(grid).classes_view() == self.synthesized_classes(old(grid).classes_view(), old(grid).next_row as int)
                &&& x is Some && y is Some ==> final(grid).is_known(out) && final(grid).value(out) == fadd(
                    fmul(fmul(x->Some_0@, x->Some_0@), fmul(y->Some_0@, y->Some_0@)),
                    constant@,
                )
                &&& final(grid).declared@ == self.synthesized_declared(old(grid).declared@, old(grid).next_row as int)
                &&& final(grid).table@ == old(grid).table@
                &&& final(grid).tables_loaded == old(grid).tables_loaded
            },
            r is Ok ==> {
                let row = old(grid).next_row as int;
                let c = self.config;
                let both = x is Some && y is Some;
                &&& holds(final(grid), cell_of(c.l, row), val(x))
                &&& holds(final(grid), cell_of(c.r, row), val(x))
                &&& holds(final(grid), cell_of(c.o, row), square(x))
                &&& holds(final(grid), cell_of(c.l, row + 1), val(y))
                &&& holds(final(grid), cell_of(c.r, row + 1), val(y))
                &&& holds(final(grid), cell_of(c.o, row + 1), square(y))
                &&& holds(final(grid), cell_of(c.l, row + 2), if both { square(x) } else { None })
                &&& holds(final(grid), cell_of(c.r, row + 2), if both { square(y) } else { None })
                &&& holds(final(grid), cell_of(c.o, row + 2), squares_product(x, y))
                &&& holds(final(grid), cell_of(c.l, row + 3), squares_product(x, y))
                &&& holds(final(grid), cell_of(c.r, row + 3), if both { Some(constant@) } else { None })
                &&& holds(final(grid), cell_of(c.o, row + 3), match squares_product(x, y) {
                    Some(m) => Some(fadd(m, constant@)),
                    None => None,
                })
                &&& at(final(grid), c.so, row) == 1 && at(final(grid), c.so, row + 1) == 1
                &&& at(final(grid), c.so, row + 2) == 1 && at(final(grid), c.so, row + 3) == 1
                &&& at(final(grid), c.sm, row) == 1 && at(final(grid), c.sm, row + 1) == 1
                &&& at(final(grid), c.sm, row + 2) == 1
                &&& at(final(grid), c.sl, row + 3) == 1 && at(final(grid), c.sr, row + 3) == 1
                &&& forall|a: CellAddr|
                    #![trigger final(grid).value(a)]
                    #![trigger final(grid).state(a)]
                    old(grid).addr_ok(a) && !self.written(a, row as usize, true) && !self.written(
                        a,
                        (row + 1) as usize,
                        true,
                    ) && !self.written(a, (row + 2) as usize, true) && !self.written(a, (row + 3) as usize, false)
                        ==> final(grid).value(a) == old(grid).value(a) && (a.column.kind != ColumnKind::Instance
                        ==> final(grid).state(a) == old(grid).state(a))
            },
            old(grid).region is None && self.config.usable(&old(grid).cs) && self.config.copyable(
                &old(grid).cs,
            ) && old(grid).next_row + 4 <= old(grid).n && 2 <= old(grid).n ==> r is Ok,
    {
        let ghost g0 = *grid;
        let x2 = match x {
            Some(v) => Some(crate::field::fe_mul(v, v)),
            None => None,
        };
        let y2 = match y {
            Some(v) => Some(crate::field::fe_mul(v, v)),
            None => None,
        };
        let x2y2 = match (x2, y2) {
            (Some(p), Some(q)) => Some(crate::field::fe_mul(p, q)),
            _ => None,
        };
        let (a0, b0, c0) = self.raw_multiply(grid, match (x, x2) {
            (Some(v), Some(s)) => Some((v, v, s)),
            _ => None,
        })?;
        let ghost p1 = *grid;
        self.copy(grid, a0, b0)?;
        let ghost q1 = *grid;
        let (a1, b1, c1) = self.raw_multiply(grid, match (y, y2) {
            (Some(v), Some(s)) => Some((v, v, s)),
            _ => None,
        })?;
        let ghost p2 = *grid;
        self.copy(grid, a1, b1)?;
        let ghost q2 = *grid;
        let (a2, b2, c2) = self.raw_multiply(grid, match (x2, y2, x2y2) {
            (Some(p), Some(q), Some(m)) => Some((p, q, m)),
            _ => None,
        })?;
        let ghost p3 = *grid;
        self.copy(grid, c0, a2)?;
        let ghost q3 = *grid;
        self.copy(grid, c1, b2)?;
        let ghost before_add = *grid;
        let (a3, b3, c3) = self.raw_add(grid, match x2y2 {
            Some(m) => Some((m, constant, crate::field::fe_add(m, constant))),
            None => None,
        })?;
        let ghost after_add = *grid;
        self.copy(grid, c2, a3)?;
        let ghost q4 = *grid;
        self.expose_public(grid, b3, 0)?;
        let ghost e1 = *grid;
        grid.constrain_instance(c3, self.config.pi, 1)?;
        proof {
            let row = g0.next_row as int;
            let c = self.config;
            assert forall|a: CellAddr|
                g0.addr_ok(a) && !self.written(a, row as usize, true) && !self.written(a, (row + 1) as usize, true)
                    && !self.written(a, (row + 2) as usize, true) && !self.written(a, (row + 3) as usize, false)
                    implies #[trigger] grid.value(a) == g0.value(a) && (a.column.kind != ColumnKind::Instance
                    ==> grid.state(a) == g0.state(a)) by {
                assert(p1.value(a) == g0.value(a));
                assert(p2.value(a) == q1.value(a));
                assert(p3.value(a) == q2.value(a));
                assert(after_add.value(a) == before_add.value(a));
                if a.column.kind != ColumnKind::Instance {
                    assert(p1.state(a) == g0.state(a));
                    assert(p2.state(a) == q1.state(a));
                    assert(p3.state(a) == q2.state(a));
                    assert(after_add.state(a) == before_add.state(a));
                }
            }
            assert forall|a: CellAddr| p1.addr_ok(a) && a.row < row + 4 implies #[trigger] grid.state(a)
                == after_add.state(a) && grid.value(a) == after_add.value(a) by {
                assert(q4.state(a) == after_add.state(a));
                assert(e1.state(a) == q4.state(a));
            }
            assert forall|a: CellAddr| p1.addr_ok(a) && a.row < row + 3 && a.column.kind != ColumnKind::Instance
                implies #[trigger] after_add.state(a) == p3.state(a) && after_add.value(a) == p3.value(a) by {
                assert(!self.written(a, (row + 3) as usize, false));
                assert(q3.state(a) == p3.state(a));
                assert(before_add.state(a) == q3.state(a));
            }
            assert forall|a: CellAddr| p1.addr_ok(a) && a.row < row + 2 && a.column.kind != ColumnKind::Instance
                implies #[trigger] p3.state(a) == p2.state(a) && p3.value(a) == p2.value(a) by {
                assert(!self.written(a, (row + 2) as usize, true));
                assert(q2.state(a) == p2.state(a));
            }
            assert forall|a: CellAddr| p1.addr_ok(a) && a.row < row + 1 && a.column.kind != ColumnKind::Instance
                implies #[trigger] p2.state(a) == p1.state(a) && p2.value(a) == p1.value(a) by {
                assert(!self.written(a, (row + 1) as usize, true));
                assert(q1.state(a) == p1.state(a));
            }
            assert(grid.state(a0) == p1.state(a0) && grid.value(a0) == p1.value(a0));
            assert(grid.state(b0) == p1.state(b0) && grid.value(b0) == p1.value(b0));
            assert(grid.state(c0) == p1.state(c0) && grid.value(c0) == p1.value(c0));
            assert(grid.state(a1) == p2.state(a1) && grid.value(a1) == p2.value(a1));
            assert(grid.state(b1) == p2.state(b1) && grid.value(b1) == p2.value(b1));
            assert(grid.state(c1) == p2.state(c1) && grid.value(c1) == p2.value(c1));
            assert(grid.state(a2) == p3.state(a2) && grid.value(a2) == p3.value(a2));
            assert(grid.state(b2) == p3.state(b2) && grid.value(b2) == p3.value(b2));
            assert(grid.state(c2) == p3.state(c2) && grid.value(c2) == p3.value(c2));
            assert(grid.state(a3) == after_add.state(a3));
            assert(grid.state(b3) == after_add.state(b3));
            assert(at(grid, c.so, row) == at(&p1, c.so, row));
            assert(at(grid, c.sm, row) == at(&p1, c.sm, row));
            assert(at(grid, c.so, row + 1) == at(&p2, c.so, row + 1));
            assert(at(grid, c.sm, row + 1) == at(&p2, c.sm, row + 1));
            assert(at(grid, c.so, row + 2) == at(&p3, c.so, row + 2));
            assert(at(grid, c.sm, row + 2) == at(&p3, c.sm, row + 2));
            assert(at(grid, c.so, row + 3) == at(&after_add, c.so, row + 3));
            assert(at(grid, c.sl, row + 3) == at(&after_add, c.sl, row + 3));
            assert(at(grid, c.sr, row + 3) == at(&after_add, c.sr, row + 3));
            assert(before_add.next_row == g0.next_row + 3);
            assert(grid.is_known(c3) == after_add.is_known(c3));
            assert(grid.value(c3) == after_add.value(c3));
        }
        Ok(())
    }
}


} // verus!
