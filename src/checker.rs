//! The satisfaction check: every gate, copy constraint and lookup against a finished grid.
use crate::assembly::{Assembly, CellState};
use crate::circuit::{ColumnKind, Expression, Gate};
use crate::field::{fadd, fe_add, fe_from_u64, fe_is_zero, fe_eq, fe_mul, fe_neg, fmul, fneg, Fe};
use crate::permutation::CellAddr;
use vstd::prelude::*;

verus! {

/// A way in which a grid fails to satisfy its circuit.
#[derive(Clone, Copy, Debug)]
pub enum Violation {
    /// A cell that must hold a known value does not.
    MissingAssignment { cell: CellAddr },
    /// A gate expression is not zero at a row where its gate is in force.
    GateViolation { gate: usize, row: usize, poly: usize, value: Fe },
    /// A gate expression reads a row outside the grid.
    OutOfRangeRotation { gate: usize, row: usize, poly: usize },
    /// A member of a copy class differs from the first member of the class.
    PermutationViolation { class: usize, cell_a: CellAddr, value_a: Fe, cell_b: CellAddr, value_b: Fe },
    /// A lookup input is not among the values of its table column.
    LookupViolation { lookup: usize, row: usize, value: Fe },
    /// A lookup input reads a row outside the grid.
    LookupOutOfRange { lookup: usize, row: usize },
}

/// A violation with its field values as integers.
pub enum Fault {
    MissingAssignment { cell: CellAddr },
    GateViolation { gate: usize, row: usize, poly: usize, value: nat },
    OutOfRangeRotation { gate: usize, row: usize, poly: usize },
    PermutationViolation { class: usize, cell_a: CellAddr, value_a: nat, cell_b: CellAddr, value_b: nat },
    LookupViolation { lookup: usize, row: usize, value: nat },
    LookupOutOfRange { lookup: usize, row: usize },
}

impl View for Violation {
    type V = Fault;

    open spec fn view(&self) -> Fault {
        match *self {
            Violation::MissingAssignment { cell } => Fault::MissingAssignment { cell },
            Violation::GateViolation { gate, row, poly, value } => Fault::GateViolation {
                gate,
                row,
                poly,
                value: value@,
            },
            Violation::OutOfRangeRotation { gate, row, poly } => Fault::OutOfRangeRotation {
                gate,
                row,
                poly,
            },
            Violation::PermutationViolation { class, cell_a, value_a, cell_b, value_b } =>
                Fault::PermutationViolation {
                class,
                cell_a,
                value_a: value_a@,
                cell_b,
                value_b: value_b@,
            },
            Violation::LookupViolation { lookup, row, value } => Fault::LookupViolation {
                lookup,
                row,
                value: value@,
            },
            Violation::LookupOutOfRange { lookup, row } => Fault::LookupOutOfRange { lookup, row },
        }
    }
}

/// The violations of a list, as integers.
pub open spec fn faults(v: Seq<Violation>) -> Seq<Fault> {
    v.map_values(|x: Violation| x@)
}

pub proof fn lemma_faults_push(v: Seq<Violation>, x: Violation)
    ensures
        faults(v.push(x)) == faults(v).push(x@),
{
    assert(faults(v.push(x)) =~= faults(v).push(x@));
}

/// The expression mentions a selector.
pub open spec fn has_selector(e: Expression) -> bool
    decreases e,
{
    match e {
        Expression::Select(_) => true,
        Expression::Negated(a) => has_selector(*a),
        Expression::Sum(a, b) => has_selector(*a) || has_selector(*b),
        Expression::Product(a, b) => has_selector(*a) || has_selector(*b),
        _ => false,
    }
}

impl Assembly {
    /// The value of an expression at a row; `None` when it reads a row outside the grid.
    pub open spec fn eval(&self, e: Expression, row: int) -> Option<nat>
        decreases e,
    {
        match e {
            Expression::Constant(f) => Some(f@),
            Expression::Query(c, rot) => {
                let r = row + rot;
                if 0 <= r < self.n {
                    Some(self.value(CellAddr { column: c, row: r as usize }))
                } else {
                    None
                }
            },
            Expression::Select(s) => Some(
                if self.enabled(s, row) {
                    1nat
                } else {
                    0nat
                },
            ),
            Expression::Negated(a) => match self.eval(*a, row) {
                Some(x) => Some(fneg(x)),
                None => None,
            },
            Expression::Sum(a, b) => match (self.eval(*a, row), self.eval(*b, row)) {
                (Some(x), Some(y)) => Some(fadd(x, y)),
                _ => None,
            },
            Expression::Product(a, b) => match (self.eval(*a, row), self.eval(*b, row)) {
                (Some(x), Some(y)) => Some(fmul(x, y)),
                _ => None,
            },
        }
    }

    /// A selector that the expression mentions is enabled at the row.
    pub open spec fn selector_on(&self, e: Expression, row: int) -> bool
        decreases e,
    {
        match e {
            Expression::Select(s) => self.enabled(s, row),
            Expression::Negated(a) => self.selector_on(*a, row),
            Expression::Sum(a, b) => self.selector_on(*a, row) || self.selector_on(*b, row),
            Expression::Product(a, b) => self.selector_on(*a, row) || self.selector_on(*b, row),
            _ => false,
        }
    }

    /// A gate imposes its expressions at the row: it mentions no selector, or one of its
    /// selectors is enabled there.
    pub open spec fn gate_applies(&self, g: Gate, row: int) -> bool {
        (forall|p: int| 0 <= p < g.polys@.len() ==> !has_selector(#[trigger] g.polys@[p]))
            || (exists|p: int| 0 <= p < g.polys@.len() && self.selector_on(#[trigger] g.polys@[p], row))
    }

    /// Reads one cell as an expression query does.
    pub(crate) fn read_cell(&self, a: CellAddr) -> (r: Fe)
        requires
            self.wf(),
            self.addr_ok(a),
        ensures
            r@ == self.value(a),
    {
        if a.column.kind == ColumnKind::Instance {
            return self.instance[a.column.index][a.row];
        }
        let st = if a.column.kind == ColumnKind::Advice {
            let total = self.advice.len();
            proof {
                crate::assembly::lemma_slot(
                    a.column.index as int,
                    a.row as int,
                    self.cs.num_advice as int,
                    self.n as int,
                );
            }
            self.advice[a.column.index * self.n + a.row]
        } else {
            let total = self.fixed.len();
            proof {
                crate::assembly::lemma_slot(
                    a.column.index as int,
                    a.row as int,
                    self.cs.num_fixed as int,
                    self.n as int,
                );
            }
            self.fixed[a.column.index * self.n + a.row]
        };
        match st {
            CellState::Known(v) => v,
            _ => fe_from_u64(0),
        }
    }

    /// Whether a selector is enabled at a row.
    fn selector_enabled(&self, s: crate::circuit::Selector, row: usize) -> (r: bool)
        requires
            self.wf(),
            s.index < self.cs.num_selectors,
            row < self.n,
        ensures
            r == self.enabled(s, row as int),
    {
        let total = self.selectors.len();
        proof {
            crate::assembly::lemma_slot(s.index as int, row as int, self.cs.num_selectors as int, self.n as int);
        }
        self.selectors[s.index * self.n + row]
    }

    /// Evaluates an expression at a row.
    pub fn evaluate(&self, e: &Expression, row: usize) -> (r: Option<Fe>)
        requires
            self.wf(),
            self.cs.expr_wf(*e),
            row < self.n,
        ensures
            r matches Some(v) ==> self.eval(*e, row as int) == Some(v@),
            r is None ==> self.eval(*e, row as int) is None,
        decreases e,
    {
        match e {
            Expression::Constant(f) => Some(*f),
            Expression::Query(c, rot) => {
                let at: i128 = row as i128 + *rot as i128;
                if at < 0 || at >= self.n as i128 {
                    None
                } else {
                    Some(self.read_cell(CellAddr { column: *c, row: at as usize }))
                }
            },
            Expression::Select(s) => {
                if self.selector_enabled(*s, row) {
                    Some(fe_from_u64(1))
                } else {
                    Some(fe_from_u64(0))
                }
            },
            Expression::Negated(a) => match self.evaluate(a, row) {
                Some(x) => Some(fe_neg(x)),
                None => None,
            },
            Expression::Sum(a, b) => match self.evaluate(a, row) {
                Some(x) => match self.evaluate(b, row) {
                    Some(y) => Some(fe_add(x, y)),
                    None => None,
                },
                None => None,
            },
            Expression::Product(a, b) => match self.evaluate(a, row) {
                Some(x) => match self.evaluate(b, row) {
                    Some(y) => Some(fe_mul(x, y)),
                    None => None,
                },
                None => None,
            },
        }
    }

    /// Faults for the declared cells among the first `m` that hold no known value.
    pub open spec fn missing_faults(&self, m: int) -> Seq<Fault>
        decreases m,
    {
        if m <= 0 {
            seq![]
        } else {
            self.missing_faults(m - 1) + if self.is_known(self.declared@[m - 1]) {
                seq![]
            } else {
                seq![Fault::MissingAssignment { cell: self.declared@[m - 1] }]
            }
        }
    }

    /// The fault, if any, of expression `p` of gate `gi` at a row.
    pub open spec fn poly_faults(&self, gi: int, row: int, p: int) -> Seq<Fault> {
        match self.eval(self.cs.gates@[gi].polys@[p], row) {
            None => seq![
                Fault::OutOfRangeRotation { gate: gi as usize, row: row as usize, poly: p as usize },
            ],
            Some(v) => if v == 0 {
                seq![]
            } else {
                seq![
                    Fault::GateViolation {
                        gate: gi as usize,
                        row: row as usize,
                        poly: p as usize,
                        value: v,
                    },
                ]
            },
        }
    }

    /// Faults of the first `m` expressions of gate `gi` at a row.
    pub open spec fn polys_faults(&self, gi: int, row: int, m: int) -> Seq<Fault>
        decreases m,
    {
        if m <= 0 {
            seq![]
        } else {
            self.polys_faults(gi, row, m - 1) + self.poly_faults(gi, row, m - 1)
        }
    }

    /// Faults of gate `gi` at a row: none where it does not apply.
    pub open spec fn gate_row_faults(&self, gi: int, row: int) -> Seq<Fault> {
        if self.gate_applies(self.cs.gates@[gi], row) {
            self.polys_faults(gi, row, self.cs.gates@[gi].polys@.len() as int)
        } else {
            seq![]
        }
    }

    /// Faults of gate `gi` over the first `m` rows.
    pub open spec fn gate_rows_faults(&self, gi: int, m: int) -> Seq<Fault>
        decreases m,
    {
        if m <= 0 {
            seq![]
        } else {
            self.gate_rows_faults(gi, m - 1) + self.gate_row_faults(gi, m - 1)
        }
    }

    /// Faults of the first `m` gates over every row.
    pub open spec fn gates_faults(&self, m: int) -> Seq<Fault>
        decreases m,
    {
        if m <= 0 {
            seq![]
        } else {
            self.gates_faults(m - 1) + self.gate_rows_faults(m - 1, self.n as int)
        }
    }

    /// The fault, if any, of member `j` of copy class `ci`, held against the class's first member.
    pub open spec fn member_faults(&self, ci: int, j: int) -> Seq<Fault> {
        let a = self.classes_view()[ci][0];
        let b = self.classes_view()[ci][j];
        if self.is_known(a) && self.is_known(b) && self.value(a) != self.value(b) {
            seq![
                Fault::PermutationViolation {
                    class: ci as usize,
                    cell_a: a,
                    value_a: self.value(a),
                    cell_b: b,
                    value_b: self.value(b),
                },
            ]
        } else {
            seq![]
        }
    }

    /// Faults of the members of class `ci` after the first, among its first `m`.
    pub open spec fn class_faults(&self, ci: int, m: int) -> Seq<Fault>
        decreases m,
    {
        if m <= 1 {
            seq![]
        } else {
            self.class_faults(ci, m - 1) + self.member_faults(ci, m - 1)
        }
    }

    /// Faults of the first `m` copy classes.
    pub open spec fn classes_faults(&self, m: int) -> Seq<Fault>
        decreases m,
    {
        if m <= 0 {
            seq![]
        } else {
            self.classes_faults(m - 1) + self.class_faults(m - 1, self.classes_view()[m - 1].len() as int)
        }
    }

    /// The value is loaded in table column `col`.
    pub open spec fn in_table(&self, col: usize, v: nat) -> bool {
        exists|i: int|
            0 <= i < self.table@.len() && (#[trigger] self.table@[i]).column == col
                && self.table@[i].value@ == v
    }

    /// The fault, if any, of lookup `li` at a row.
    pub open spec fn lookup_row_faults(&self, li: int, row: int) -> Seq<Fault> {
        let l = self.cs.lookups@[li];
        match self.eval(l.input, row) {
            None => seq![Fault::LookupOutOfRange { lookup: li as usize, row: row as usize }],
            Some(v) => if self.in_table(l.table.index, v) {
                seq![]
            } else {
                seq![Fault::LookupViolation { lookup: li as usize, row: row as usize, value: v }]
            },
        }
    }

    /// Faults of lookup `li` over the first `m` rows.
    pub open spec fn lookup_rows_faults(&self, li: int, m: int) -> Seq<Fault>
        decreases m,
    {
        if m <= 0 {
            seq![]
        } else {
            self.lookup_rows_faults(li, m - 1) + self.lookup_row_faults(li, m - 1)
        }
    }

    /// Faults of the first `m` lookups over every row.
    pub open spec fn lookups_faults(&self, m: int) -> Seq<Fault>
        decreases m,
    {
        if m <= 0 {
            seq![]
        } else {
            self.lookups_faults(m - 1) + self.lookup_rows_faults(m - 1, self.n as int)
        }
    }

    /// Every violation of the grid: missing values, then gates, copy constraints and lookups.
    pub open spec fn violations(&self) -> Seq<Fault> {
        self.missing_faults(self.declared@.len() as int) + self.gates_faults(self.cs.gates@.len() as int)
            + self.classes_faults(self.classes@.len() as int) + self.lookups_faults(
            self.cs.lookups@.len() as int,
        )
    }

    /// Whether a cell holds a known value.
    pub(crate) fn cell_known(&self, a: CellAddr) -> (r: bool)
        requires
            self.wf(),
            self.addr_ok(a),
        ensures
            r == self.is_known(a),
    {
        if a.column.kind == ColumnKind::Instance {
            return true;
        }
        let st = if a.column.kind == ColumnKind::Advice {
            let total = self.advice.len();
            proof {
                crate::assembly::lemma_slot(
                    a.column.index as int,
                    a.row as int,
                    self.cs.num_advice as int,
                    self.n as int,
                );
            }
            self.advice[a.column.index * self.n + a.row]
        } else {
            let total = self.fixed.len();
            proof {
                crate::assembly::lemma_slot(
                    a.column.index as int,
                    a.row as int,
                    self.cs.num_fixed as int,
                    self.n as int,
                );
            }
            self.fixed[a.column.index * self.n + a.row]
        };
        match st {
            CellState::Known(_) => true,
            _ => false,
        }
    }

    fn check_missing(&self, out: &mut Vec<Violation>)
        requires
            self.wf(),
        ensures
            faults(final(out)@) == faults(old(out)@) + self.missing_faults(self.declared@.len() as int),
    {
        let mut i: usize = 0;
        while i < self.declared.len()
            invariant
                self.wf(),
                0 <= i <= self.declared@.len(),
                faults(out@) == faults(old(out)@) + self.missing_faults(i as int),
            decreases self.declared@.len() - i,
        {
            let a = self.declared[i];
            let ghost before = out@;
            if !self.cell_known(a) {
                let v = Violation::MissingAssignment { cell: a };
                out.push(v);
                proof {
                    lemma_faults_push(before, v);
                }
            }
            i = i + 1;
            proof {
                assert(faults(out@) =~= faults(old(out)@) + self.missing_faults(i as int));
            }
        }
    }

    /// Whether the expression mentions a selector.
    fn mentions_selector(e: &Expression) -> (r: bool)
        ensures
            r == has_selector(*e),
        decreases e,
    {
        match e {
            Expression::Select(_) => true,
            Expression::Negated(a) => Self::mentions_selector(a),
            Expression::Sum(a, b) => Self::mentions_selector(a) || Self::mentions_selector(b),
            Expression::Product(a, b) => Self::mentions_selector(a) || Self::mentions_selector(b),
            _ => false,
        }
    }

    /// Whether a selector the expression mentions is enabled at the row.
    fn selects(&self, e: &Expression, row: usize) -> (r: bool)
        requires
            self.wf(),
            self.cs.expr_wf(*e),
            row < self.n,
        ensures
            r == self.selector_on(*e, row as int),
        decreases e,
    {
        match e {
            Expression::Select(s) => self.selector_enabled(*s, row),
            Expression::Negated(a) => self.selects(a, row),
            Expression::Sum(a, b) => self.selects(a, row) || self.selects(b, row),
            Expression::Product(a, b) => self.selects(a, row) || self.selects(b, row),
            _ => false,
        }
    }

    /// Whether a gate imposes its expressions at the row.
    fn applies(&self, g: &Gate, row: usize) -> (r: bool)
        requires
            self.wf(),
            self.cs.polys_wf(g.polys@),
            row < self.n,
        ensures
            r == self.gate_applies(*g, row as int),
    {
        let mut any = false;
        let mut on = false;
        let mut p: usize = 0;
        while p < g.polys.len()
            invariant
                self.wf(),
                self.cs.polys_wf(g.polys@),
                row < self.n,
                0 <= p <= g.polys@.len(),
                any == exists|q: int| 0 <= q < p && has_selector(#[trigger] g.polys@[q]),
                on == exists|q: int| 0 <= q < p && self.selector_on(#[trigger] g.polys@[q], row as int),
            decreases g.polys@.len() - p,
        {
            let h = Self::mentions_selector(&g.polys[p]);
            let o = self.selects(&g.polys[p], row);
            proof {
                if h {
                    assert(has_selector(g.polys@[p as int]));
                }
                if o {
                    assert(self.selector_on(g.polys@[p as int], row as int));
                }
                if any {
                    let q = choose|q: int| 0 <= q < p && has_selector(#[trigger] g.polys@[q]);
                    assert(0 <= q < p + 1 && has_selector(g.polys@[q]));
                }
                if on {
                    let q = choose|q: int| 0 <= q < p && self.selector_on(#[trigger] g.polys@[q], row as int);
                    assert(0 <= q < p + 1 && self.selector_on(g.polys@[q], row as int));
                }
            }
            any = any || h;
            on = on || o;
            p = p + 1;
        }
        !any || on
    }

    fn check_gate_row(&self, gi: usize, row: usize, out: &mut Vec<Violation>)
        requires
            self.wf(),
            gi < self.cs.gates@.len(),
            row < self.n,
        ensures
            faults(final(out)@) == faults(old(out)@) + self.gate_row_faults(gi as int, row as int),
    {
        let g = &self.cs.gates[gi];
        assert(self.cs.polys_wf(g.polys@));
        if !self.applies(g, row) {
            assert(faults(old(out)@) + seq![] =~= faults(old(out)@));
            return;
        }
        let mut p: usize = 0;
        while p < g.polys.len()
            invariant
                self.wf(),
                gi < self.cs.gates@.len(),
                *g == self.cs.gates@[gi as int],
                self.cs.polys_wf(g.polys@),
                row < self.n,
                0 <= p <= g.polys@.len(),
                faults(out@) == faults(old(out)@) + self.polys_faults(gi as int, row as int, p as int),
            decreases g.polys@.len() - p,
        {
            let ghost before = out@;
            assert(self.cs.expr_wf(g.polys@[p as int]));
            match self.evaluate(&g.polys[p], row) {
                None => {
                    let v = Violation::OutOfRangeRotation { gate: gi, row, poly: p };
                    out.push(v);
                    proof {
                        lemma_faults_push(before, v);
                    }
                },
                Some(x) => {
                    if !fe_is_zero(x) {
                        let v = Violation::GateViolation { gate: gi, row, poly: p, value: x };
                        out.push(v);
                        proof {
                            lemma_faults_push(before, v);
                        }
                    }
                },
            }
            p = p + 1;
            proof {
                assert(faults(out@) =~= faults(old(out)@) + self.polys_faults(gi as int, row as int, p as int));
            }
        }
    }

    fn check_gates(&self, out: &mut Vec<Violation>)
        requires
            self.wf(),
        ensures
            faults(final(out)@) == faults(old(out)@) + self.gates_faults(self.cs.gates@.len() as int),
    {
        let mut gi: usize = 0;
        while gi < self.cs.gates.len()
            invariant
                self.wf(),
                0 <= gi <= self.cs.gates@.len(),
                faults(out@) == faults(old(out)@) + self.gates_faults(gi as int),
            decreases self.cs.gates@.len() - gi,
        {
            let ghost start = out@;
            let mut row: usize = 0;
            while row < self.n
                invariant
                    self.wf(),
                    gi < self.cs.gates@.len(),
                    0 <= row <= self.n,
                    faults(out@) == faults(start) + self.gate_rows_faults(gi as int, row as int),
                decreases self.n - row,
            {
                self.check_gate_row(gi, row, out);
                row = row + 1;
                proof {
                    assert(faults(out@) =~= faults(start) + self.gate_rows_faults(gi as int, row as int));
                }
            }
            gi = gi + 1;
            proof {
                assert(faults(out@) =~= faults(old(out)@) + self.gates_faults(gi as int));
            }
        }
    }

    fn check_class(&self, ci: usize, out: &mut Vec<Violation>)
        requires
            self.wf(),
            ci < self.classes@.len(),
        ensures
            faults(final(out)@) == faults(old(out)@) + self.class_faults(
                ci as int,
                self.classes_view()[ci as int].len() as int,
            ),
    {
        let members = &self.classes[ci];
        assert(members@ == self.classes_view()[ci as int]);
        if members.len() == 0 {
            assert(faults(old(out)@) + seq![] =~= faults(old(out)@));
            return;
        }
        let a = members[0];
        assert(self.addr_ok(self.classes@[ci as int]@[0]));
        let ka = self.cell_known(a);
        let va = self.read_cell(a);
        let mut j: usize = 1;
        assert(faults(old(out)@) + seq![] =~= faults(old(out)@));
        while j < members.len()
            invariant
                self.wf(),
                ci < self.classes@.len(),
                members@ == self.classes_view()[ci as int],
                *members == self.classes@[ci as int],
                members@.len() > 0,
                a == members@[0],
                ka == self.is_known(a),
                va@ == self.value(a),
                1 <= j <= members@.len(),
                faults(out@) == faults(old(out)@) + self.class_faults(ci as int, j as int),
            decreases members@.len() - j,
        {
            let b = members[j];
            assert(self.addr_ok(self.classes@[ci as int]@[j as int]));
            let ghost before = out@;
            if ka && self.cell_known(b) {
                let vb = self.read_cell(b);
                if !fe_eq(va, vb) {
                    let v = Violation::PermutationViolation { class: ci, cell_a: a, value_a: va, cell_b: b, value_b: vb };
                    out.push(v);
                    proof {
                        lemma_faults_push(before, v);
                    }
                }
            }
            j = j + 1;
            proof {
                assert(faults(out@) =~= faults(old(out)@) + self.class_faults(ci as int, j as int));
            }
        }
    }

    fn check_classes(&self, out: &mut Vec<Violation>)
        requires
            self.wf(),
        ensures
            faults(final(out)@) == faults(old(out)@) + self.classes_faults(self.classes@.len() as int),
    {
        let mut ci: usize = 0;
        while ci < self.classes.len()
            invariant
                self.wf(),
                0 <= ci <= self.classes@.len(),
                faults(out@) == faults(old(out)@) + self.classes_faults(ci as int),
            decreases self.classes@.len() - ci,
        {
            self.check_class(ci, out);
            ci = ci + 1;
            proof {
                assert(faults(out@) =~= faults(old(out)@) + self.classes_faults(ci as int));
            }
        }
    }

    /// Whether the value is loaded in table column `col`.
    pub fn table_holds(&self, col: usize, x: Fe) -> (r: bool)
        ensures
            r == self.in_table(col, x@),
    {
        let mut i: usize = 0;
        while i < self.table.len()
            invariant
                0 <= i <= self.table@.len(),
                forall|k: int|
                    0 <= k < i ==> !((#[trigger] self.table@[k]).column == col && self.table@[k].value@
                        == x@),
            decreases self.table@.len() - i,
        {
            let e = self.table[i];
            if e.column == col && fe_eq(e.value, x) {
                assert(self.table@[i as int].column == col && self.table@[i as int].value@ == x@);
                return true;
            }
            i = i + 1;
        }
        false
    }

    fn check_lookups(&self, out: &mut Vec<Violation>)
        requires
            self.wf(),
        ensures
            faults(final(out)@) == faults(old(out)@) + self.lookups_faults(self.cs.lookups@.len() as int),
    {
        let mut li: usize = 0;
        while li < self.cs.lookups.len()
            invariant
                self.wf(),
                0 <= li <= self.cs.lookups@.len(),
                faults(out@) == faults(old(out)@) + self.lookups_faults(li as int),
            decreases self.cs.lookups@.len() - li,
        {
            let ghost start = out@;
            let l = &self.cs.lookups[li];
            assert(self.cs.expr_wf(l.input));
            let mut row: usize = 0;
            while row < self.n
                invariant
                    self.wf(),
                    li < self.cs.lookups@.len(),
                    *l == self.cs.lookups@[li as int],
                    self.cs.expr_wf(l.input),
                    0 <= row <= self.n,
                    faults(out@) == faults(start) + self.lookup_rows_faults(li as int, row as int),
                decreases self.n - row,
            {
                let ghost before = out@;
                match self.evaluate(&l.input, row) {
                    None => {
                        let v = Violation::LookupOutOfRange { lookup: li, row };
                        out.push(v);
                        proof {
                            lemma_faults_push(before, v);
                        }
                    },
                    Some(x) => {
                        if !self.table_holds(l.table.index, x) {
                            let v = Violation::LookupViolation { lookup: li, row, value: x };
                            out.push(v);
                            proof {
                                lemma_faults_push(before, v);
                            }
                        }
                    },
                }
                row = row + 1;
                proof {
                    assert(faults(out@) =~= faults(start) + self.lookup_rows_faults(li as int, row as int));
                }
            }
            li = li + 1;
            proof {
                assert(faults(out@) =~= faults(old(out)@) + self.lookups_faults(li as int));
            }
        }
    }

    /// Every violation of the grid against its circuit, in this order: declared cells without a
    /// known value, gates over all rows, copy classes, lookups over all rows. Empty exactly when
    /// the grid satisfies the circuit.
    pub fn check(&self) -> (r: Vec<Violation>)
        requires
            self.wf(),
        ensures
            faults(r@) == self.violations(),
    {
        let mut out: Vec<Violation> = Vec::new();
        assert(faults(out@) =~= seq![]);
        self.check_missing(&mut out);
        self.check_gates(&mut out);
        self.check_classes(&mut out);
        self.check_lookups(&mut out);
        assert(faults(out@) =~= self.violations());
        out
    }

    /// An expression that mentions no selector has none enabled.
    pub proof fn lemma_no_selector(&self, e: Expression, row: int)
        requires
            !has_selector(e),
        ensures
            !self.selector_on(e, row),
        decreases e,
    {
        match e {
            Expression::Negated(a) => self.lemma_no_selector(*a, row),
            Expression::Sum(a, b) => {
                self.lemma_no_selector(*a, row);
                self.lemma_no_selector(*b, row);
            },
            Expression::Product(a, b) => {
                self.lemma_no_selector(*a, row);
                self.lemma_no_selector(*b, row);
            },
            _ => {},
        }
    }
}

} // verus!
