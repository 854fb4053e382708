//! Copy constraints: classes of cells that must hold equal values.
use crate::circuit::Column;
use vstd::prelude::*;

verus! {

/// A cell of the grid, by column and absolute row.
#[derive(Clone, Copy, Debug, PartialEq, Eq, Structural)]
pub struct CellAddr {
    pub column: Column,
    pub row: usize,
}

/// Index of the last class, among the first `m`, that holds `x`; -1 when none does.
pub open spec fn class_in(classes: Seq<Seq<CellAddr>>, x: CellAddr, m: int) -> int
    decreases m,
{
    if m <= 0 {
        -1
    } else if classes[m - 1].contains(x) {
        m - 1
    } else {
        class_in(classes, x, m - 1)
    }
}

/// Index of the class that holds `x`; -1 when none does.
pub open spec fn class_of(classes: Seq<Seq<CellAddr>>, x: CellAddr) -> int {
    class_in(classes, x, classes.len() as int)
}

/// The classes after joining the classes of `a` and `b`.
///
/// A cell in no class joins the class of the other cell at its end; two classes are merged into
/// the one of `a`, the class of `b` being left empty, so that class indices stay stable.
pub open spec fn union_classes(classes: Seq<Seq<CellAddr>>, a: CellAddr, b: CellAddr) -> Seq<
    Seq<CellAddr>,
> {
    let i = class_of(classes, a);
    let j = class_of(classes, b);
    if i < 0 && j < 0 {
        if a == b {
            classes.push(seq![a])
        } else {
            classes.push(seq![a, b])
        }
    } else if j < 0 {
        classes.update(i, classes[i].push(b))
    } else if i < 0 {
        classes.update(j, classes[j].push(a))
    } else if i == j {
        classes
    } else {
        classes.update(i, classes[i] + classes[j]).update(j, seq![])
    }
}

/// A list with `x` added unless it is there already.
pub open spec fn noted(cells: Seq<CellAddr>, x: CellAddr) -> Seq<CellAddr> {
    if cells.contains(x) {
        cells
    } else {
        cells.push(x)
    }
}

pub proof fn lemma_class_in_bounds(classes: Seq<Seq<CellAddr>>, x: CellAddr, m: int)
    requires
        0 <= m <= classes.len(),
    ensures
        -1 <= class_in(classes, x, m) < m,
        class_in(classes, x, m) >= 0 ==> classes[class_in(classes, x, m)].contains(x),
        class_in(classes, x, m) < 0 ==> forall|i: int| 0 <= i < m ==> !classes[i].contains(x),
    decreases m,
{
    if m > 0 {
        lemma_class_in_bounds(classes, x, m - 1);
    }
}

/// Whether the cell list holds `x`.
pub fn contains_cell(cells: &Vec<CellAddr>, x: CellAddr) -> (r: bool)
    ensures
        r == cells@.contains(x),
{
    let mut i: usize = 0;
    while i < cells.len()
        invariant
            0 <= i <= cells@.len(),
            forall|j: int| 0 <= j < i ==> cells@[j] != x,
        decreases cells@.len() - i,
    {
        if cells[i] == x {
            assert(cells@[i as int] == x);
            return true;
        }
        i = i + 1;
    }
    false
}

/// The index of the class holding `x`, as `class_of` gives it.
pub fn find_class(classes: &Vec<Vec<CellAddr>>, x: CellAddr) -> (r: Option<usize>)
    ensures
        r matches Some(i) ==> class_of(classes@.map_values(|c: Vec<CellAddr>| c@), x) == i,
        r is None ==> class_of(classes@.map_values(|c: Vec<CellAddr>| c@), x) == -1,
{
    let ghost cls = classes@.map_values(|c: Vec<CellAddr>| c@);
    let mut i: usize = classes.len();
    while i > 0
        invariant
            0 <= i <= classes@.len(),
            cls == classes@.map_values(|c: Vec<CellAddr>| c@),
            class_of(cls, x) == class_in(cls, x, i as int),
        decreases i,
    {
        i = i - 1;
        if contains_cell(&classes[i], x) {
            return Some(i);
        }
    }
    None
}

/// The cells of `a` followed by those of `b`.
pub fn concat_cells(a: &Vec<CellAddr>, b: &Vec<CellAddr>) -> (r: Vec<CellAddr>)
    ensures
        r@ == a@ + b@,
{
    let mut r: Vec<CellAddr> = Vec::new();
    let mut i: usize = 0;
    while i < a.len()
        invariant
            0 <= i <= a@.len(),
            r@ == a@.subrange(0, i as int),
        decreases a@.len() - i,
    {
        r.push(a[i]);
        i = i + 1;
    }
    let mut j: usize = 0;
    while j < b.len()
        invariant
            0 <= j <= b@.len(),
            r@ == a@ + b@.subrange(0, j as int),
        decreases b@.len() - j,
    {
        r.push(b[j]);
        j = j + 1;
    }
    assert(a@.subrange(0, a@.len() as int) == a@);
    assert(b@.subrange(0, b@.len() as int) == b@);
    r
}

} // verus!
