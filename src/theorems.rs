//! What the satisfaction check guarantees, proved over its specification.
use crate::assembly::Assembly;
use crate::checker::Fault;
use crate::circuit::ColumnKind;
use crate::permutation::{class_in, class_of, union_classes, CellAddr};
use vstd::prelude::*;

verus! {

impl Assembly {
    /// Gate `gi` holds at a row: where it applies, each of its expressions is zero.
    pub open spec fn gate_ok(&self, gi: int, row: int) -> bool {
        self.gate_applies(self.cs.gates@[gi], row) ==> forall|p: int|
            0 <= p < self.cs.gates@[gi].polys@.len() ==> self.eval(
                #[trigger] self.cs.gates@[gi].polys@[p],
                row,
            ) == Some(0nat)
    }

    /// Member `j` of copy class `ci` agrees with the first member, where both are known.
    pub open spec fn member_ok(&self, ci: int, j: int) -> bool {
        let a = self.classes_view()[ci][0];
        let b = self.classes_view()[ci][j];
        self.is_known(a) && self.is_known(b) ==> self.value(a) == self.value(b)
    }

    /// Lookup `li` holds at a row: its input reads inside the grid and lies in its table column.
    pub open spec fn lookup_ok(&self, li: int, row: int) -> bool {
        match self.eval(self.cs.lookups@[li].input, row) {
            Some(v) => self.in_table(self.cs.lookups@[li].table.index, v),
            None => false,
        }
    }

    /// The grid satisfies its circuit.
    pub open spec fn satisfied(&self) -> bool {
        &&& forall|i: int| 0 <= i < self.declared@.len() ==> self.is_known(#[trigger] self.declared@[i])
        &&& forall|gi: int, row: int|
            0 <= gi < self.cs.gates@.len() && 0 <= row < self.n ==> #[trigger] self.gate_ok(gi, row)
        &&& forall|ci: int, j: int|
            0 <= ci < self.classes@.len() && 0 <= j < self.classes_view()[ci].len()
                ==> #[trigger] self.member_ok(ci, j)
        &&& forall|li: int, row: int|
            0 <= li < self.cs.lookups@.len() && 0 <= row < self.n ==> #[trigger] self.lookup_ok(li, row)
    }

    pub proof fn lemma_missing_empty(&self, m: int)
        requires
            0 <= m <= self.declared@.len(),
        ensures
            self.missing_faults(m).len() == 0 <==> forall|i: int|
                0 <= i < m ==> self.is_known(#[trigger] self.declared@[i]),
        decreases m,
    {
        if m > 0 {
            self.lemma_missing_empty(m - 1);
        }
    }

    pub proof fn lemma_polys_empty(&self, gi: int, row: int, m: int)
        requires
            0 <= gi < self.cs.gates@.len(),
            0 <= m <= self.cs.gates@[gi].polys@.len(),
        ensures
            self.polys_faults(gi, row, m).len() == 0 <==> forall|p: int|
                0 <= p < m ==> self.eval(#[trigger] self.cs.gates@[gi].polys@[p], row) == Some(0nat),
        decreases m,
    {
        if m > 0 {
            self.lemma_polys_empty(gi, row, m - 1);
        }
    }

    pub proof fn lemma_gate_rows_empty(&self, gi: int, m: int)
        requires
            0 <= gi < self.cs.gates@.len(),
            0 <= m,
        ensures
            self.gate_rows_faults(gi, m).len() == 0 <==> forall|row: int|
                0 <= row < m ==> #[trigger] self.gate_ok(gi, row),
        decreases m,
    {
        if m > 0 {
            self.lemma_gate_rows_empty(gi, m - 1);
            self.lemma_polys_empty(gi, m - 1, self.cs.gates@[gi].polys@.len() as int);
            assert(self.gate_row_faults(gi, m - 1).len() == 0 <==> self.gate_ok(gi, m - 1));
            if forall|row: int| 0 <= row < m ==> #[trigger] self.gate_ok(gi, row) {
                assert(self.gate_ok(gi, m - 1));
                assert forall|row: int| 0 <= row < m - 1 implies #[trigger] self.gate_ok(gi, row) by {
                    assert(self.gate_ok(gi, row));
                }
            }
        }
    }

    pub proof fn lemma_gates_empty(&self, m: int)
        requires
            0 <= m <= self.cs.gates@.len(),
        ensures
            self.gates_faults(m).len() == 0 <==> forall|gi: int, row: int|
                0 <= gi < m && 0 <= row < self.n ==> #[trigger] self.gate_ok(gi, row),
        decreases m,
    {
        if m > 0 {
            self.lemma_gates_empty(m - 1);
            self.lemma_gate_rows_empty(m - 1, self.n as int);
            if self.gates_faults(m).len() == 0 {
                assert forall|gi: int, row: int|
                    0 <= gi < m && 0 <= row < self.n implies #[trigger] self.gate_ok(gi, row) by {
                    if gi == m - 1 {
                        assert(self.gate_ok(m - 1, row));
                    }
                }
            }
            if forall|gi: int, row: int|
                0 <= gi < m && 0 <= row < self.n ==> #[trigger] self.gate_ok(gi, row) {
                assert forall|row: int| 0 <= row < self.n implies #[trigger] self.gate_ok(m - 1, row) by {
                    assert(self.gate_ok(m - 1, row));
                }
            }
        }
    }

    pub proof fn lemma_class_empty(&self, ci: int, m: int)
        requires
            0 <= ci < self.classes@.len(),
            0 <= m <= self.classes_view()[ci].len(),
        ensures
            self.class_faults(ci, m).len() == 0 <==> forall|j: int|
                0 <= j < m ==> #[trigger] self.member_ok(ci, j),
        decreases m,
    {
        assert(self.member_ok(ci, 0));
        if m > 1 {
            self.lemma_class_empty(ci, m - 1);
            assert(self.member_faults(ci, m - 1).len() == 0 <==> self.member_ok(ci, m - 1));
            if forall|j: int| 0 <= j < m ==> #[trigger] self.member_ok(ci, j) {
                assert(self.member_ok(ci, m - 1));
                assert forall|j: int| 0 <= j < m - 1 implies #[trigger] self.member_ok(ci, j) by {
                    assert(self.member_ok(ci, j));
                }
            }
        } else {
            assert forall|j: int| 0 <= j < m implies #[trigger] self.member_ok(ci, j) by {
                assert(j == 0);
            }
        }
    }

    pub proof fn lemma_classes_empty(&self, m: int)
        requires
            0 <= m <= self.classes@.len(),
        ensures
            self.classes_faults(m).len() == 0 <==> forall|ci: int, j: int|
                0 <= ci < m && 0 <= j < self.classes_view()[ci].len() ==> #[trigger] self.member_ok(ci, j),
        decreases m,
    {
        if m > 0 {
            self.lemma_classes_empty(m - 1);
            self.lemma_class_empty(m - 1, self.classes_view()[m - 1].len() as int);
            if self.classes_faults(m).len() == 0 {
                assert forall|ci: int, j: int|
                    0 <= ci < m && 0 <= j < self.classes_view()[ci].len() implies #[trigger] self.member_ok(
                    ci,
                    j,
                ) by {
                    if ci == m - 1 {
                        assert(self.member_ok(m - 1, j));
                    }
                }
            }
            if forall|ci: int, j: int|
                0 <= ci < m && 0 <= j < self.classes_view()[ci].len() ==> #[trigger] self.member_ok(ci, j) {
                assert forall|j: int|
                    0 <= j < self.classes_view()[m - 1].len() implies #[trigger] self.member_ok(m - 1, j) by {
                    assert(self.member_ok(m - 1, j));
                }
            }
        }
    }

    pub proof fn lemma_lookup_rows_empty(&self, li: int, m: int)
        requires
            0 <= li < self.cs.lookups@.len(),
            0 <= m,
        ensures
            self.lookup_rows_faults(li, m).len() == 0 <==> forall|row: int|
                0 <= row < m ==> #[trigger] self.lookup_ok(li, row),
        decreases m,
    {
        if m > 0 {
            self.lemma_lookup_rows_empty(li, m - 1);
            assert(self.lookup_row_faults(li, m - 1).len() == 0 <==> self.lookup_ok(li, m - 1));
            if forall|row: int| 0 <= row < m ==> #[trigger] self.lookup_ok(li, row) {
                assert(self.lookup_ok(li, m - 1));
                assert forall|row: int| 0 <= row < m - 1 implies #[trigger] self.lookup_ok(li, row) by {
                    assert(self.lookup_ok(li, row));
                }
            }
        }
    }

    pub proof fn lemma_lookups_empty(&self, m: int)
        requires
            0 <= m <= self.cs.lookups@.len(),
        ensures
            self.lookups_faults(m).len() == 0 <==> forall|li: int, row: int|
                0 <= li < m && 0 <= row < self.n ==> #[trigger] self.lookup_ok(li, row),
        decreases m,
    {
        if m > 0 {
            self.lemma_lookups_empty(m - 1);
            self.lemma_lookup_rows_empty(m - 1, self.n as int);
            if self.lookups_faults(m).len() == 0 {
                assert forall|li: int, row: int|
                    0 <= li < m && 0 <= row < self.n implies #[trigger] self.lookup_ok(li, row) by {
                    if li == m - 1 {
                        assert(self.lookup_ok(m - 1, row));
                    }
                }
            }
            if forall|li: int, row: int|
                0 <= li < m && 0 <= row < self.n ==> #[trigger] self.lookup_ok(li, row) {
                assert forall|row: int| 0 <= row < self.n implies #[trigger] self.lookup_ok(m - 1, row) by {
                    assert(self.lookup_ok(m - 1, row));
                }
            }
        }
    }
}

/// The check reports no violation exactly when the grid satisfies its circuit: every declared cell
/// holds a known value, every gate's expressions vanish wherever their gate is in force, every copy
/// class agrees, and every lookup input lies in its table.
pub proof fn lemma_check_empty_iff_satisfied(grid: &Assembly)
    requires
        grid.wf(),
    ensures
        grid.violations().len() == 0 <==> grid.satisfied(),
{
    grid.lemma_missing_empty(grid.declared@.len() as int);
    grid.lemma_gates_empty(grid.cs.gates@.len() as int);
    grid.lemma_classes_empty(grid.classes@.len() as int);
    grid.lemma_lookups_empty(grid.cs.lookups@.len() as int);
}

impl Assembly {
    pub proof fn lemma_missing_has(&self, m: int, i: int)
        requires
            0 <= i < m <= self.declared@.len(),
            !self.is_known(self.declared@[i]),
        ensures
            self.missing_faults(m).contains(Fault::MissingAssignment { cell: self.declared@[i] }),
        decreases m,
    {
        let x = Fault::MissingAssignment { cell: self.declared@[i] };
        if m - 1 == i {
            assert(self.missing_faults(m)[self.missing_faults(m - 1).len() as int] == x);
        } else {
            self.lemma_missing_has(m - 1, i);
            let k = choose|k: int| 0 <= k < self.missing_faults(m - 1).len() && (#[trigger] self.missing_faults(m - 1)[k]) == x;
            assert(self.missing_faults(m)[k] == x);
        }
    }

    pub proof fn lemma_class_all_copy(&self, ci: int, m: int)
        ensures
            forall|k: int|
                0 <= k < self.class_faults(ci, m).len() ==> (#[trigger] self.class_faults(ci, m)[k]) is PermutationViolation,
        decreases m,
    {
        if m > 1 {
            self.lemma_class_all_copy(ci, m - 1);
        }
    }

    pub proof fn lemma_classes_all_copy(&self, m: int)
        ensures
            forall|k: int|
                0 <= k < self.classes_faults(m).len() ==> (#[trigger] self.classes_faults(m)[k]) is PermutationViolation,
        decreases m,
    {
        if m > 0 {
            self.lemma_classes_all_copy(m - 1);
            self.lemma_class_all_copy(m - 1, self.classes_view()[m - 1].len() as int);
            assert forall|k: int|
                0 <= k < self.classes_faults(m).len() implies (#[trigger] self.classes_faults(m)[k]) is PermutationViolation by {
                let a = self.classes_faults(m - 1);
                if k >= a.len() {
                    let b = self.class_faults(m - 1, self.classes_view()[m - 1].len() as int);
                    assert(self.classes_faults(m)[k] == b[k - a.len()]);
                }
            }
        }
    }

    pub proof fn lemma_lookup_rows_has(&self, li: int, m: int, row: int, x: Fault)
        requires
            0 <= row < m,
            self.lookup_row_faults(li, row).contains(x),
        ensures
            self.lookup_rows_faults(li, m).contains(x),
        decreases m,
    {
        let step = self.lookup_row_faults(li, m - 1);
        let prev = self.lookup_rows_faults(li, m - 1);
        if m - 1 == row {
            let k = choose|k: int| 0 <= k < step.len() && (#[trigger] step[k]) == x;
            assert(self.lookup_rows_faults(li, m)[prev.len() + k] == x);
        } else {
            self.lemma_lookup_rows_has(li, m - 1, row, x);
            let k = choose|k: int| 0 <= k < prev.len() && (#[trigger] prev[k]) == x;
            assert(self.lookup_rows_faults(li, m)[k] == x);
        }
    }

    pub proof fn lemma_lookups_has(&self, m: int, li: int, row: int, x: Fault)
        requires
            0 <= li < m,
            0 <= row < self.n,
            self.lookup_row_faults(li, row).contains(x),
        ensures
            self.lookups_faults(m).contains(x),
        decreases m,
    {
        let prev = self.lookups_faults(m - 1);
        if m - 1 == li {
            self.lemma_lookup_rows_has(li, self.n as int, row, x);
            let step = self.lookup_rows_faults(li, self.n as int);
            let k = choose|k: int| 0 <= k < step.len() && (#[trigger] step[k]) == x;
            assert(self.lookups_faults(m)[prev.len() + k] == x);
        } else {
            self.lemma_lookups_has(m - 1, li, row, x);
            let k = choose|k: int| 0 <= k < prev.len() && (#[trigger] prev[k]) == x;
            assert(self.lookups_faults(m)[k] == x);
        }
    }
}

/// A declared cell that holds no known value when the grid is checked, such as a cell named by a
/// copy constraint but never assigned, is reported as missing.
pub proof fn lemma_unassigned_reported(grid: &Assembly, i: int)
    requires
        grid.wf(),
        0 <= i < grid.declared@.len(),
        !grid.is_known(grid.declared@[i]),
    ensures
        grid.violations().contains(Fault::MissingAssignment { cell: grid.declared@[i] }),
{
    let x = Fault::MissingAssignment { cell: grid.declared@[i] };
    let m = grid.declared@.len() as int;
    grid.lemma_missing_has(m, i);
    let k = choose|k: int| 0 <= k < grid.missing_faults(m).len() && (#[trigger] grid.missing_faults(m)[k]) == x;
    assert(grid.violations()[k] == x);
}

/// Copy constraints are transitive: after joining `a` with `b` and then `b` with `c`, starting
/// from no classes, the three cells form one class. With `a` and `b` equal, the copy check passes
/// when `c` agrees with them, and otherwise reports exactly one violation, naming `c`.
pub proof fn lemma_copy_transitive(grid: &Assembly, a: CellAddr, b: CellAddr, c: CellAddr)
    requires
        grid.wf(),
        a != b && b != c && a != c,
        grid.classes_view() == union_classes(union_classes(seq![], a, b), b, c),
        grid.is_known(a) && grid.is_known(b) && grid.is_known(c),
        grid.value(a) == grid.value(b),
    ensures
        grid.classes_view() == seq![seq![a, b, c]],
        grid.value(c) == grid.value(a) ==> grid.classes_faults(grid.classes@.len() as int) == Seq::<
            Fault,
        >::empty(),
        grid.value(c) != grid.value(a) ==> grid.classes_faults(grid.classes@.len() as int) == seq![
            Fault::PermutationViolation {
                class: 0,
                cell_a: a,
                value_a: grid.value(a),
                cell_b: c,
                value_b: grid.value(c),
            },
        ],
{
    let e: Seq<Seq<CellAddr>> = seq![];
    assert(class_of(e, a) == -1);
    assert(class_of(e, b) == -1);
    let one = union_classes(e, a, b);
    assert(one =~= seq![seq![a, b]]);
    assert(seq![a, b][1] == b);
    assert(seq![a, b].contains(b));
    assert(class_of(one, b) == 0);
    assert(!seq![a, b].contains(c)) by {
        assert forall|i: int| 0 <= i < 2 implies seq![a, b][i] != c by {}
    }
    assert(one[0] =~= seq![a, b]);
    assert(!one[0].contains(c));
    assert(class_in(one, c, 0) == -1);
    assert(class_of(one, c) == -1);
    assert(seq![a, b].push(c) =~= seq![a, b, c]);
    assert(union_classes(one, b, c) =~= seq![seq![a, b, c]]);
    assert(grid.classes@.len() == 1);
    let cls = grid.classes_view();
    assert(cls[0] =~= seq![a, b, c]);
    assert(cls[0][0] == a && cls[0][1] == b && cls[0][2] == c);
    assert(grid.member_faults(0, 1) =~= seq![]);
    assert(grid.class_faults(0, 1) =~= seq![]);
    assert(grid.class_faults(0, 2) =~= seq![]);
    assert(grid.classes_faults(0) =~= seq![]);
    assert(cls[0].len() == 3);
    assert(grid.classes_faults(1) =~= grid.class_faults(0, 3));
    assert(grid.class_faults(0, 3) =~= grid.member_faults(0, 2));
}

/// Changing one public input that a copy constraint ties to another cell, in a grid that
/// satisfies its circuit and where every member of that copy class holds a known value, is never
/// passed silently: the changed grid has a copy violation.
pub proof fn lemma_changed_input_detected(
    before: &Assembly,
    after: &Assembly,
    x: CellAddr,
    ci: int,
    jy: int,
)
    requires
        before.wf(),
        after.wf(),
        before.satisfied(),
        x.column.kind == ColumnKind::Instance,
        after.classes_view() == before.classes_view(),
        forall|y: CellAddr| #[trigger] after.is_known(y) == before.is_known(y),
        forall|y: CellAddr| y != x ==> #[trigger] after.value(y) == before.value(y),
        after.value(x) != before.value(x),
        0 <= ci < before.classes@.len(),
        before.classes_view()[ci].contains(x),
        0 <= jy < before.classes_view()[ci].len(),
        before.classes_view()[ci][jy] != x,
        forall|j: int|
            0 <= j < before.classes_view()[ci].len() ==> before.is_known(
                #[trigger] before.classes_view()[ci][j],
            ),
    ensures
        exists|k: int|
            0 <= k < after.violations().len() && (#[trigger] after.violations()[k]) is PermutationViolation,
{
    let cls = before.classes_view()[ci];
    let jx = choose|j: int| 0 <= j < cls.len() && (#[trigger] cls[j]) == x;
    assert(before.member_ok(ci, jx));
    assert(before.member_ok(ci, jy));
    let bad = if cls[0] == x {
        jy
    } else {
        jx
    };
    assert(!after.member_ok(ci, bad));
    assert(after.classes_view().len() == after.classes@.len());
    assert(before.classes_view().len() == before.classes@.len());
    let m = after.classes@.len() as int;
    after.lemma_classes_empty(m);
    after.lemma_classes_all_copy(m);
    let cf = after.classes_faults(m);
    assert(cf.len() > 0);
    assert(cf[0] is PermutationViolation);
    let pre = after.missing_faults(after.declared@.len() as int) + after.gates_faults(
        after.cs.gates@.len() as int,
    );
    assert(after.violations()[pre.len() as int] == cf[0]);
}

/// A lookup whose table column holds exactly the values `0..bound` passes at a row when its
/// input there is below `bound`, and otherwise is reported as a lookup violation.
pub proof fn lemma_lookup_membership(grid: &Assembly, li: int, row: int, bound: nat)
    requires
        grid.wf(),
        0 <= li < grid.cs.lookups@.len(),
        0 <= row < grid.n,
        grid.table@.len() == bound,
        forall|i: int|
            0 <= i < bound ==> (#[trigger] grid.table@[i]).column == grid.cs.lookups@[li].table.index
                && grid.table@[i].value@ == i,
        grid.eval(grid.cs.lookups@[li].input, row) is Some,
    ensures
        ({
            let v = grid.eval(grid.cs.lookups@[li].input, row)->Some_0;
            &&& v < bound ==> grid.lookup_row_faults(li, row) == Seq::<Fault>::empty()
            &&& v >= bound ==> grid.violations().contains(
                Fault::LookupViolation { lookup: li as usize, row: row as usize, value: v },
            )
        }),
{
    let l = grid.cs.lookups@[li];
    let v = grid.eval(l.input, row)->Some_0;
    if v < bound {
        assert(grid.table@[v as int].column == l.table.index && grid.table@[v as int].value@ == v);
        assert(grid.in_table(l.table.index, v));
    } else {
        assert(!grid.in_table(l.table.index, v));
        let x = Fault::LookupViolation { lookup: li as usize, row: row as usize, value: v };
        assert(grid.lookup_row_faults(li, row)[0] == x);
        let m = grid.cs.lookups@.len() as int;
        grid.lemma_lookups_has(m, li, row, x);
        let lf = grid.lookups_faults(m);
        let k = choose|k: int| 0 <= k < lf.len() && (#[trigger] lf[k]) == x;
        let pre = grid.missing_faults(grid.declared@.len() as int) + grid.gates_faults(
            grid.cs.gates@.len() as int,
        ) + grid.classes_faults(grid.classes@.len() as int);
        assert(grid.violations()[pre.len() + k] == x);
    }
}

} // verus!
