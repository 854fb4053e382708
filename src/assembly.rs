//! The grid under assignment: regions placed in turn, copy constraints, loaded tables.
use crate::circuit::{Column, ColumnKind, ConstraintSystem, Selector};
use crate::error::Error;
use crate::field::{fe_from_u64, Fe};
use crate::permutation::{
    concat_cells, contains_cell, find_class, lemma_class_in_bounds, noted,
    union_classes, CellAddr,
};
use vstd::prelude::*;

verus! {

/// What an assignable cell holds.
#[derive(Clone, Copy, Debug)]
pub enum CellState {
    Empty,
    /// Assigned, with a value not known (shape-only synthesis).
    Unknown,
    Known(Fe),
}

/// One value written to a lookup table column.
#[derive(Clone, Copy, Debug)]
pub struct TableEntry {
    /// Index of the table column.
    pub column: usize,
    pub row: usize,
    pub value: Fe,
}

/// The placement of the open region: its first row and how many rows it has used.
#[derive(Clone, Copy, Debug, PartialEq, Eq, Structural)]
pub struct RegionFrame {
    pub start: usize,
    pub span: usize,
}

/// Number of rows of a grid with exponent `k`.
pub open spec fn rows_for(k: nat) -> nat
    decreases k,
{
    if k == 0 {
        1
    } else {
        2 * rows_for((k - 1) as nat)
    }
}

pub proof fn lemma_rows_for_grows(i: nat, k: nat)
    requires
        i <= k,
    ensures
        1 <= rows_for(i) <= rows_for(k),
    decreases k,
{
    if k > i {
        lemma_rows_for_grows(i, (k - 1) as nat);
    } else if k > 0 {
        lemma_rows_for_grows(0, (k - 1) as nat);
    }
}

pub proof fn lemma_slot(c: int, r: int, num: int, n: int)
    requires
        0 <= c < num,
        0 <= r < n,
    ensures
        0 <= c * n + r < num * n,
        c * n + n <= num * n,
        (c * n + r) % n == r,
{
    vstd::arithmetic::div_mod::lemma_mod_multiples_vanish(c, r, n);
    vstd::arithmetic::div_mod::lemma_small_mod(r as nat, n as nat);
    assert(n * c == c * n) by (nonlinear_arith);
    assert(c * n + n <= num * n) by (nonlinear_arith)
        requires
            0 <= c < num,
            0 <= r < n,
    ;
    assert(0 <= c * n) by (nonlinear_arith)
        requires
            0 <= c,
            0 <= n,
    ;
}

/// How many of the first `m` table writes go to table column `c`.
pub open spec fn count_col(w: Seq<TableEntry>, m: int, c: nat) -> nat
    decreases m,
{
    if m <= 0 {
        0
    } else {
        count_col(w, m - 1, c) + if w[m - 1].column == c {
            1nat
        } else {
            0nat
        }
    }
}

/// A grid of `rows_for(k)` rows fits in memory for every kind of column of the shape.
pub open spec fn grid_fits(cs: &ConstraintSystem, k: nat) -> bool {
    &&& rows_for(k) <= usize::MAX
    &&& cs.num_advice * rows_for(k) <= usize::MAX
    &&& cs.num_fixed * rows_for(k) <= usize::MAX
    &&& cs.num_selectors * rows_for(k) <= usize::MAX
}

/// `len` empty cells.
fn empty_cells(len: usize) -> (r: Vec<CellState>)
    ensures
        r@.len() == len,
        forall|i: int| 0 <= i < len ==> r@[i] is Empty,
{
    let mut r: Vec<CellState> = Vec::new();
    let mut i: usize = 0;
    while i < len
        invariant
            0 <= i <= len,
            r@.len() == i,
            forall|j: int| 0 <= j < i ==> r@[j] is Empty,
        decreases len - i,
    {
        r.push(CellState::Empty);
        i = i + 1;
    }
    r
}

/// `len` disabled selector cells.
fn disabled(len: usize) -> (r: Vec<bool>)
    ensures
        r@.len() == len,
        forall|i: int| 0 <= i < len ==> !r@[i],
{
    let mut r: Vec<bool> = Vec::new();
    let mut i: usize = 0;
    while i < len
        invariant
            0 <= i <= len,
            r@.len() == i,
            forall|j: int| 0 <= j < i ==> !r@[j],
        decreases len - i,
    {
        r.push(false);
        i = i + 1;
    }
    r
}

/// The public inputs of a column, padded with zeros to `n` rows.
fn padded(values: &Vec<Fe>, n: usize) -> (r: Vec<Fe>)
    requires
        values@.len() <= n,
    ensures
        r@.len() == n,
        forall|i: int| 0 <= i < n ==> (#[trigger] r@[i])@ == if i < values@.len() {
            values@[i]@
        } else {
            0
        },
{
    let zero = fe_from_u64(0);
    let mut r: Vec<Fe> = Vec::new();
    let mut i: usize = 0;
    while i < n
        invariant
            0 <= i <= n,
            values@.len() <= n,
            zero@ == 0,
            r@.len() == i,
            forall|j: int| 0 <= j < i ==> (#[trigger] r@[j])@ == if j < values@.len() {
                values@[j]@
            } else {
                0
            },
        decreases n - i,
    {
        if i < values.len() {
            r.push(values[i]);
        } else {
            r.push(zero);
        }
        i = i + 1;
    }
    r
}

/// Two cells of different addresses have different positions.
pub proof fn lemma_slot_distinct(c1: int, r1: int, c2: int, r2: int, n: int)
    requires
        0 <= r1 < n,
        0 <= r2 < n,
        0 <= c1,
        0 <= c2,
        c1 != c2 || r1 != r2,
    ensures
        c1 * n + r1 != c2 * n + r2,
{
    if c1 == c2 {
    } else if c1 < c2 {
        assert(c1 * n + n <= c2 * n) by (nonlinear_arith)
            requires
                c1 < c2,
                0 <= n,
        ;
    } else {
        assert(c2 * n + n <= c1 * n) by (nonlinear_arith)
            requires
                c2 < c1,
                0 <= n,
        ;
    }
}

/// The state of a circuit's assignment: its frozen shape, the grid of `n` rows, the copy
/// constraint classes and the loaded tables.
///
/// Advice, fixed and selector cells are held column after column: the cell of column `c` at row
/// `r` is at `c * n + r`.
#[derive(Debug)]
pub struct Assembly {
    pub cs: ConstraintSystem,
    pub n: usize,
    pub advice: Vec<CellState>,
    pub fixed: Vec<CellState>,
    pub selectors: Vec<bool>,
    /// Public inputs, one vector of `n` values per instance column.
    pub instance: Vec<Vec<Fe>>,
    pub table: Vec<TableEntry>,
    pub tables_loaded: bool,
    pub classes: Vec<Vec<CellAddr>>,
    /// Cells that must hold a known value when the grid is checked.
    pub declared: Vec<CellAddr>,
    /// First row of the next region.
    pub next_row: usize,
    pub region: Option<RegionFrame>,
}

impl Assembly {
    /// The classes of copy-constrained cells.
    pub open spec fn classes_view(&self) -> Seq<Seq<CellAddr>> {
        self.classes@.map_values(|c: Vec<CellAddr>| c@)
    }

    /// Position of a cell within the vector of its column kind.
    pub open spec fn slot(&self, a: CellAddr) -> int {
        a.column.index * self.n + a.row
    }

    /// The address names a queryable column and a row of the grid.
    pub open spec fn addr_ok(&self, a: CellAddr) -> bool {
        self.cs.queryable(a.column) && a.row < self.n
    }

    pub open spec fn wf(&self) -> bool {
        &&& self.cs.wf()
        &&& self.cs.frozen
        &&& self.n > 0
        &&& self.advice@.len() == self.cs.num_advice * self.n
        &&& self.fixed@.len() == self.cs.num_fixed * self.n
        &&& self.selectors@.len() == self.cs.num_selectors * self.n
        &&& self.instance@.len() == self.cs.num_instance
        &&& forall|c: int| 0 <= c < self.instance@.len() ==> (#[trigger] self.instance@[c])@.len() == self.n
        &&& forall|i: int| 0 <= i < self.declared@.len() ==> self.addr_ok(#[trigger] self.declared@[i])
        &&& forall|i: int, j: int|
            0 <= i < self.classes@.len() && 0 <= j < self.classes@[i]@.len() ==> self.addr_ok(
                #[trigger] self.classes@[i]@[j],
            )
        &&& forall|i: int| 0 <= i < self.table@.len() ==> (#[trigger] self.table@[i]).column < self.cs.num_table
        &&& self.next_row <= self.n
        &&& self.region matches Some(f) ==> f.start == self.next_row && f.start + f.span <= self.n
        &&& forall|i: int|
            0 <= i < self.advice@.len() && i % (self.n as int) >= self.frontier() ==> (
            #[trigger] self.advice@[i]) is Empty
        &&& forall|i: int|
            0 <= i < self.fixed@.len() && i % (self.n as int) >= self.frontier() ==> (
            #[trigger] self.fixed@[i]) is Empty
        &&& forall|i: int|
            0 <= i < self.selectors@.len() && i % (self.n as int) >= self.frontier() ==> !(
            #[trigger] self.selectors@[i])
    }

    /// First row that no region has used.
    pub open spec fn frontier(&self) -> int {
        match self.region {
            Some(f) => f.start + f.span,
            None => self.next_row as int,
        }
    }

    /// What a cell holds, for the cells of advice and fixed columns.
    pub open spec fn state(&self, a: CellAddr) -> CellState {
        if a.column.kind == ColumnKind::Advice {
            self.advice@[self.slot(a)]
        } else {
            self.fixed@[self.slot(a)]
        }
    }

    /// The cell holds a known value; public inputs always do.
    pub open spec fn is_known(&self, a: CellAddr) -> bool {
        if a.column.kind == ColumnKind::Instance {
            true
        } else {
            self.state(a) is Known
        }
    }

    /// The value a cell contributes: its known value, and zero for an empty or unknown cell.
    pub open spec fn value(&self, a: CellAddr) -> nat {
        if a.column.kind == ColumnKind::Instance {
            self.instance@[a.column.index as int]@[a.row as int]@
        } else {
            match self.state(a) {
                CellState::Known(v) => v@,
                _ => 0,
            }
        }
    }

    /// Whether a selector is enabled at a row.
    pub open spec fn enabled(&self, s: Selector, row: int) -> bool {
        self.selectors@[s.index * self.n + row]
    }

    /// Everything but the cells, the selectors and the open region is as in `other`.
    pub open spec fn same_links(&self, other: &Assembly) -> bool {
        &&& self.cs == other.cs
        &&& self.n == other.n
        &&& self.instance@ == other.instance@
        &&& self.table@ == other.table@
        &&& self.tables_loaded == other.tables_loaded
        &&& self.classes_view() == other.classes_view()
        &&& self.next_row == other.next_row
    }

    /// The error, if any, that assigning `column` at `offset` of the open region meets.
    pub open spec fn assign_error(&self, column: Column, kind: ColumnKind, offset: usize) -> Option<
        Error,
    > {
        if self.region is None {
            Some(Error::NoOpenRegion)
        } else if column.kind != kind || !self.cs.has_column(column) {
            Some(Error::UnknownHandle)
        } else if self.region->Some_0.start + offset >= self.n {
            Some(Error::RowOutOfRange)
        } else if !(self.state(
            CellAddr { column, row: (self.region->Some_0.start + offset) as usize },
        ) is Empty) {
            Some(Error::CellCollision)
        } else {
            None
        }
    }

    /// The open region after it used the row at `offset`.
    pub open spec fn region_after(&self, offset: usize) -> Option<RegionFrame> {
        let f = self.region->Some_0;
        Some(
            RegionFrame { start: f.start, span: if offset + 1 > f.span { (offset + 1) as usize } else { f.span } },
        )
    }

    /// The error, if any, that a copy constraint between `a` and `b` meets.
    pub open spec fn copy_error(&self, a: CellAddr, b: CellAddr) -> Option<Error> {
        if !self.cs.queryable(a.column) || !self.cs.queryable(b.column) {
            Some(Error::UnknownHandle)
        } else if a.row >= self.n || b.row >= self.n {
            Some(Error::RowOutOfRange)
        } else if !self.cs.equality@.contains(a.column) || !self.cs.equality@.contains(b.column) {
            Some(Error::NotEqualityEnabled)
        } else {
            None
        }
    }

    /// Opens a region at the first free row.
    pub fn begin_region(&mut self) -> (r: Result<(), Error>)
        requires
            old(self).wf(),
        ensures
            final(self).wf(),
            final(self).same_links(old(self)),
            final(self).advice@ == old(self).advice@,
            final(self).fixed@ == old(self).fixed@,
            final(self).selectors@ == old(self).selectors@,
            final(self).declared@ == old(self).declared@,
            old(self).region is Some ==> r == Err::<(), Error>(Error::RegionAlreadyOpen)
                && final(self).region == old(self).region,
            old(self).region is None ==> r.is_ok() && final(self).region == Some(
                RegionFrame { start: old(self).next_row, span: 0 },
            ),
    {
        if self.region.is_some() {
            return Err(Error::RegionAlreadyOpen);
        }
        self.region = Some(RegionFrame { start: self.next_row, span: 0 });
        Ok(())
    }

    /// Closes the open region; the next one starts after its last used row.
    pub fn end_region(&mut self) -> (r: Result<(), Error>)
        requires
            old(self).wf(),
        ensures
            final(self).wf(),
            final(self).cs == old(self).cs,
            final(self).n == old(self).n,
            final(self).instance@ == old(self).instance@,
            final(self).table@ == old(self).table@,
            final(self).tables_loaded == old(self).tables_loaded,
            final(self).classes_view() == old(self).classes_view(),
            final(self).advice@ == old(self).advice@,
            final(self).fixed@ == old(self).fixed@,
            final(self).selectors@ == old(self).selectors@,
            final(self).declared@ == old(self).declared@,
            old(self).region is None ==> r == Err::<(), Error>(Error::NoOpenRegion)
                && final(self).next_row == old(self).next_row && final(self).region is None,
            old(self).region matches Some(f) ==> r.is_ok() && final(self).region is None
                && final(self).next_row == f.start + f.span,
    {
        match self.region {
            None => Err(Error::NoOpenRegion),
            Some(f) => {
                self.next_row = f.start + f.span;
                self.region = None;
                Ok(())
            },
        }
    }

    /// The cells, selectors and open region are as in `other`.
    pub open spec fn same_cells(&self, other: &Assembly) -> bool {
        &&& self.advice@ == other.advice@
        &&& self.fixed@ == other.fixed@
        &&& self.selectors@ == other.selectors@
        &&& self.region == other.region
    }

    fn assign_cell(&mut self, column: Column, kind: ColumnKind, offset: usize, st: CellState) -> (r:
        Result<CellAddr, Error>)
        requires
            old(self).wf(),
            kind == ColumnKind::Advice || kind == ColumnKind::Fixed,
            !(st is Empty),
        ensures
            final(self).wf(),
            old(self).assign_error(column, kind, offset) matches Some(e) ==> r == Err::<CellAddr, Error>(
                e,
            ) && *final(self) == *old(self),
            old(self).assign_error(column, kind, offset) is None ==> {
                let a = CellAddr { column, row: (old(self).region->Some_0.start + offset) as usize };
                &&& r == Ok::<CellAddr, Error>(a)
                &&& final(self).same_links(old(self))
                &&& final(self).selectors@ == old(self).selectors@
                &&& final(self).declared@ == old(self).declared@
                &&& final(self).region == old(self).region_after(offset)
                &&& kind == ColumnKind::Advice ==> final(self).advice@ == old(self).advice@.update(
                    old(self).slot(a),
                    st,
                ) && final(self).fixed@ == old(self).fixed@
                &&& kind == ColumnKind::Fixed ==> final(self).fixed@ == old(self).fixed@.update(
                    old(self).slot(a),
                    st,
                ) && final(self).advice@ == old(self).advice@
            },
    {
        let f = match self.region {
            None => {
                return Err(Error::NoOpenRegion);
            },
            Some(f) => f,
        };
        let known = match kind {
            ColumnKind::Advice => column.kind == ColumnKind::Advice && column.index < self.cs.num_advice,
            _ => column.kind == ColumnKind::Fixed && column.index < self.cs.num_fixed,
        };
        if !known {
            return Err(Error::UnknownHandle);
        }
        if offset >= self.n - f.start {
            return Err(Error::RowOutOfRange);
        }
        let row = f.start + offset;
        let a = CellAddr { column, row };
        let ghost before = *self;
        if kind == ColumnKind::Advice {
            let total = self.advice.len();
            proof {
                lemma_slot(column.index as int, row as int, self.cs.num_advice as int, self.n as int);
            }
            let slot = column.index * self.n + row;
            match self.advice[slot] {
                CellState::Empty => {},
                _ => {
                    return Err(Error::CellCollision);
                },
            }
            self.advice.set(slot, st);
        } else {
            let total = self.fixed.len();
            proof {
                lemma_slot(column.index as int, row as int, self.cs.num_fixed as int, self.n as int);
            }
            let slot = column.index * self.n + row;
            match self.fixed[slot] {
                CellState::Empty => {},
                _ => {
                    return Err(Error::CellCollision);
                },
            }
            self.fixed.set(slot, st);
        }
        let span = if offset + 1 > f.span {
            offset + 1
        } else {
            f.span
        };
        self.region = Some(RegionFrame { start: f.start, span });
        proof {
            assert(self.classes_view() =~= before.classes_view());
        }
        Ok(a)
    }

    /// Assigns an advice cell of the open region, at a row relative to its start; `None` stands
    /// for a value not known yet.
    pub fn assign_advice(&mut self, column: Column, offset: usize, value: Option<Fe>) -> (r: Result<
        CellAddr,
        Error,
    >)
        requires
            old(self).wf(),
        ensures
            final(self).wf(),
            old(self).assign_error(column, ColumnKind::Advice, offset) matches Some(e) ==> r == Err::<
                CellAddr,
                Error,
            >(e) && *final(self) == *old(self),
            old(self).assign_error(column, ColumnKind::Advice, offset) is None ==> {
                let a = CellAddr { column, row: (old(self).region->Some_0.start + offset) as usize };
                &&& r == Ok::<CellAddr, Error>(a)
                &&& final(self).same_links(old(self))
                &&& final(self).selectors@ == old(self).selectors@
                &&& final(self).declared@ == old(self).declared@
                &&& final(self).region == old(self).region_after(offset)
                &&& final(self).fixed@ == old(self).fixed@
                &&& final(self).advice@ == old(self).advice@.update(
                    old(self).slot(a),
                    match value {
                        Some(v) => CellState::Known(v),
                        None => CellState::Unknown,
                    },
                )
            },
    {
        let st = match value {
            Some(v) => CellState::Known(v),
            None => CellState::Unknown,
        };
        self.assign_cell(column, ColumnKind::Advice, offset, st)
    }

    /// Assigns a fixed cell of the open region, at a row relative to its start.
    pub fn assign_fixed(&mut self, column: Column, offset: usize, value: Fe) -> (r: Result<
        CellAddr,
        Error,
    >)
        requires
            old(self).wf(),
        ensures
            final(self).wf(),
            old(self).assign_error(column, ColumnKind::Fixed, offset) matches Some(e) ==> r == Err::<
                CellAddr,
                Error,
            >(e) && *final(self) == *old(self),
            old(self).assign_error(column, ColumnKind::Fixed, offset) is None ==> {
                let a = CellAddr { column, row: (old(self).region->Some_0.start + offset) as usize };
                &&& r == Ok::<CellAddr, Error>(a)
                &&& final(self).same_links(old(self))
                &&& final(self).selectors@ == old(self).selectors@
                &&& final(self).declared@ == old(self).declared@
                &&& final(self).region == old(self).region_after(offset)
                &&& final(self).advice@ == old(self).advice@
                &&& final(self).fixed@ == old(self).fixed@.update(old(self).slot(a), CellState::Known(value))
            },
    {
        self.assign_cell(column, ColumnKind::Fixed, offset, CellState::Known(value))
    }

    /// Enables a selector at a row of the open region.
    pub fn enable_selector(&mut self, s: Selector, offset: usize) -> (r: Result<(), Error>)
        requires
            old(self).wf(),
        ensures
            final(self).wf(),
            old(self).region is None ==> r == Err::<(), Error>(Error::NoOpenRegion) && *final(self)
                == *old(self),
            old(self).region is Some && s.index >= old(self).cs.num_selectors ==> r == Err::<(), Error>(
                Error::UnknownHandle,
            ) && *final(self) == *old(self),
            old(self).region is Some && s.index < old(self).cs.num_selectors
                && old(self).region->Some_0.start + offset >= old(self).n ==> r == Err::<(), Error>(
                Error::RowOutOfRange,
            ) && *final(self) == *old(self),
            old(self).region is Some && s.index < old(self).cs.num_selectors
                && old(self).region->Some_0.start + offset < old(self).n ==> {
                &&& r.is_ok()
                &&& final(self).same_links(old(self))
                &&& final(self).advice@ == old(self).advice@
                &&& final(self).fixed@ == old(self).fixed@
                &&& final(self).declared@ == old(self).declared@
                &&& final(self).region == old(self).region_after(offset)
                &&& final(self).selectors@ == old(self).selectors@.update(
                    s.index * old(self).n + old(self).region->Some_0.start + offset,
                    true,
                )
            },
    {
        let f = match self.region {
            None => {
                return Err(Error::NoOpenRegion);
            },
            Some(f) => f,
        };
        if s.index >= self.cs.num_selectors {
            return Err(Error::UnknownHandle);
        }
        if offset >= self.n - f.start {
            return Err(Error::RowOutOfRange);
        }
        let row = f.start + offset;
        let total = self.selectors.len();
        proof {
            lemma_slot(s.index as int, row as int, self.cs.num_selectors as int, self.n as int);
        }
        let ghost before = *self;
        self.selectors.set(s.index * self.n + row, true);
        let span = if offset + 1 > f.span {
            offset + 1
        } else {
            f.span
        };
        self.region = Some(RegionFrame { start: f.start, span });
        proof {
            assert(self.classes_view() =~= before.classes_view());
        }
        Ok(())
    }

    /// Joins the classes of `a` and `b`.
    fn union(&mut self, a: CellAddr, b: CellAddr)
        requires
            old(self).wf(),
            old(self).addr_ok(a),
            old(self).addr_ok(b),
        ensures
            final(self).wf(),
            final(self).classes_view() == union_classes(old(self).classes_view(), a, b),
            final(self).cs == old(self).cs,
            final(self).n == old(self).n,
            final(self).instance@ == old(self).instance@,
            final(self).table@ == old(self).table@,
            final(self).tables_loaded == old(self).tables_loaded,
            final(self).next_row == old(self).next_row,
            final(self).same_cells(old(self)),
            final(self).declared@ == old(self).declared@,
    {
        let ghost cls = self.classes_view();
        let ia = find_class(&self.classes, a);
        let ib = find_class(&self.classes, b);
        proof {
            lemma_class_in_bounds(cls, a, cls.len() as int);
            lemma_class_in_bounds(cls, b, cls.len() as int);
        }
        match ia {
            None => match ib {
                None => {
                    let mut v: Vec<CellAddr> = Vec::new();
                    v.push(a);
                    if a != b {
                        v.push(b);
                    }
                    self.classes.push(v);
                    proof {
                        if a == b {
                            assert(v@ =~= seq![a]);
                        } else {
                            assert(v@ =~= seq![a, b]);
                        }
                        assert(self.classes_view() =~= union_classes(cls, a, b));
                    }
                },
                Some(j) => {
                    let one = vec![a];
                    let merged = concat_cells(&self.classes[j], &one);
                    self.classes.set(j, merged);
                    proof {
                        assert(one@ =~= seq![a]);
                        assert(cls[j as int] + seq![a] =~= cls[j as int].push(a));
                        assert(self.classes_view() =~= union_classes(cls, a, b));
                    }
                },
            },
            Some(i) => match ib {
                None => {
                    let one = vec![b];
                    let merged = concat_cells(&self.classes[i], &one);
                    self.classes.set(i, merged);
                    proof {
                        assert(one@ =~= seq![b]);
                        assert(cls[i as int] + seq![b] =~= cls[i as int].push(b));
                        assert(self.classes_view() =~= union_classes(cls, a, b));
                    }
                },
                Some(j) => {
                    if i != j {
                        let merged = concat_cells(&self.classes[i], &self.classes[j]);
                        self.classes.set(i, merged);
                        self.classes.set(j, Vec::new());
                        proof {
                            assert(self.classes@[j as int]@ =~= seq![]);
                            assert(self.classes_view() =~= union_classes(cls, a, b));
                        }
                    }
                },
            },
        }
        proof {
            let nc = self.classes_view();
            assert forall|i: int, j: int|
                0 <= i < self.classes@.len() && 0 <= j < self.classes@[i]@.len() implies self.addr_ok(
                #[trigger] self.classes@[i]@[j],
            ) by {
                assert(nc[i] == self.classes@[i]@);
                let x = nc[i][j];
                if !(x == a || x == b) {
                    assert(exists|p: int, q: int|
                        0 <= p < cls.len() && 0 <= q < cls[p].len() && cls[p][q] == x);
                }
            }
        }
    }

    /// Records that cells `a` and `b` must hold equal values.
    pub fn constrain_equal(&mut self, a: CellAddr, b: CellAddr) -> (r: Result<(), Error>)
        requires
            old(self).wf(),
        ensures
            final(self).wf(),
            old(self).copy_error(a, b) matches Some(e) ==> r == Err::<(), Error>(e) && *final(self)
                == *old(self),
            old(self).copy_error(a, b) is None ==> {
                &&& r.is_ok()
                &&& final(self).classes_view() == union_classes(old(self).classes_view(), a, b)
                &&& final(self).declared@ == noted(noted(old(self).declared@, a), b)
                &&& final(self).cs == old(self).cs
                &&& final(self).n == old(self).n
                &&& final(self).instance@ == old(self).instance@
                &&& final(self).table@ == old(self).table@
                &&& final(self).tables_loaded == old(self).tables_loaded
                &&& final(self).next_row == old(self).next_row
                &&& final(self).same_cells(old(self))
            },
    {
        if !self.cs.is_queryable(a.column) || !self.cs.is_queryable(b.column) {
            return Err(Error::UnknownHandle);
        }
        if a.row >= self.n || b.row >= self.n {
            return Err(Error::RowOutOfRange);
        }
        if !self.cs.is_equality_enabled(a.column) || !self.cs.is_equality_enabled(b.column) {
            return Err(Error::NotEqualityEnabled);
        }
        self.union(a, b);
        if !contains_cell(&self.declared, a) {
            self.declared.push(a);
        }
        if !contains_cell(&self.declared, b) {
            self.declared.push(b);
        }
        Ok(())
    }

    /// A handle on an advice cell of the open region, which must hold a known value by the time
    /// the grid is checked; the cell itself is left as it is.
    pub fn declare_cell(&mut self, column: Column, offset: usize) -> (r: Result<CellAddr, Error>)
        requires
            old(self).wf(),
        ensures
            final(self).wf(),
            old(self).region is None ==> r == Err::<CellAddr, Error>(Error::NoOpenRegion)
                && *final(self) == *old(self),
            old(self).region is Some && (column.kind != ColumnKind::Advice || !old(self).cs.has_column(
                column,
            )) ==> r == Err::<CellAddr, Error>(Error::UnknownHandle) && *final(self) == *old(self),
            old(self).region is Some && column.kind == ColumnKind::Advice && old(self).cs.has_column(
                column,
            ) && old(self).region->Some_0.start + offset >= old(self).n ==> r == Err::<CellAddr, Error>(
                Error::RowOutOfRange,
            ) && *final(self) == *old(self),
            old(self).region is Some && column.kind == ColumnKind::Advice && old(self).cs.has_column(
                column,
            ) && old(self).region->Some_0.start + offset < old(self).n ==> {
                let a = CellAddr { column, row: (old(self).region->Some_0.start + offset) as usize };
                &&& r == Ok::<CellAddr, Error>(a)
                &&& final(self).same_links(old(self))
                &&& final(self).advice@ == old(self).advice@
                &&& final(self).fixed@ == old(self).fixed@
                &&& final(self).selectors@ == old(self).selectors@
                &&& final(self).region == old(self).region_after(offset)
                &&& final(self).declared@ == noted(old(self).declared@, a)
            },
    {
        let f = match self.region {
            None => {
                return Err(Error::NoOpenRegion);
            },
            Some(f) => f,
        };
        if column.kind != ColumnKind::Advice || column.index >= self.cs.num_advice {
            return Err(Error::UnknownHandle);
        }
        if offset >= self.n - f.start {
            return Err(Error::RowOutOfRange);
        }
        let a = CellAddr { column, row: f.start + offset };
        let ghost before = *self;
        if !contains_cell(&self.declared, a) {
            self.declared.push(a);
        }
        let span = if offset + 1 > f.span {
            offset + 1
        } else {
            f.span
        };
        self.region = Some(RegionFrame { start: f.start, span });
        proof {
            assert(self.classes_view() =~= before.classes_view());
        }
        Ok(a)
    }

    /// Records that `cell` must equal row `row` of the public-input column `instance`.
    pub fn constrain_instance(&mut self, cell: CellAddr, instance: Column, row: usize) -> (r: Result<
        (),
        Error,
    >)
        requires
            old(self).wf(),
        ensures
            final(self).wf(),
            instance.kind != ColumnKind::Instance ==> r == Err::<(), Error>(Error::UnknownHandle)
                && *final(self) == *old(self),
            instance.kind == ColumnKind::Instance ==> {
                let b = CellAddr { column: instance, row };
                &&& old(self).copy_error(cell, b) matches Some(e) ==> r == Err::<(), Error>(e)
                    && *final(self) == *old(self)
                &&& old(self).copy_error(cell, b) is None ==> {
                    &&& r.is_ok()
                    &&& final(self).classes_view() == union_classes(old(self).classes_view(), cell, b)
                    &&& final(self).declared@ == noted(noted(old(self).declared@, cell), b)
                    &&& final(self).cs == old(self).cs
                    &&& final(self).n == old(self).n
                    &&& final(self).instance@ == old(self).instance@
                    &&& final(self).table@ == old(self).table@
                    &&& final(self).tables_loaded == old(self).tables_loaded
                    &&& final(self).next_row == old(self).next_row
                    &&& final(self).same_cells(old(self))
                }
            },
    {
        if instance.kind != ColumnKind::Instance {
            return Err(Error::UnknownHandle);
        }
        self.constrain_equal(cell, CellAddr { column: instance, row })
    }

    /// Copies row `row` of the public-input column `instance` into an advice cell of the open
    /// region, and records that the two cells must be equal.
    pub fn assign_advice_from_instance(
        &mut self,
        instance: Column,
        row: usize,
        column: Column,
        offset: usize,
    ) -> (r: Result<CellAddr, Error>)
        requires
            old(self).wf(),
        ensures
            final(self).wf(),
            r.is_err() ==> *final(self) == *old(self),
            (instance.kind != ColumnKind::Instance || !old(self).cs.has_column(instance)) ==> r
                == Err::<CellAddr, Error>(Error::UnknownHandle),
            instance.kind == ColumnKind::Instance && old(self).cs.has_column(instance) && row
                >= old(self).n ==> r == Err::<CellAddr, Error>(Error::RowOutOfRange),
            instance.kind == ColumnKind::Instance && old(self).cs.has_column(instance) && row
                < old(self).n ==> {
                let b = CellAddr { column: instance, row };
                let v = old(self).instance@[instance.index as int]@[row as int];
                &&& old(self).assign_error(column, ColumnKind::Advice, offset) matches Some(e) ==> r
                    == Err::<CellAddr, Error>(e)
                &&& old(self).assign_error(column, ColumnKind::Advice, offset) is None ==> {
                    let a = CellAddr { column, row: (old(self).region->Some_0.start + offset) as usize };
                    &&& !old(self).cs.equality@.contains(instance) || !old(self).cs.equality@.contains(
                        column,
                    ) ==> r == Err::<CellAddr, Error>(Error::NotEqualityEnabled)
                    &&& old(self).cs.equality@.contains(instance) && old(self).cs.equality@.contains(
                        column,
                    ) ==> {
                        &&& r == Ok::<CellAddr, Error>(a)
                        &&& final(self).advice@ == old(self).advice@.update(
                            old(self).slot(a),
                            CellState::Known(v),
                        )
                        &&& final(self).fixed@ == old(self).fixed@
                        &&& final(self).selectors@ == old(self).selectors@
                        &&& final(self).region == old(self).region_after(offset)
                        &&& final(self).classes_view() == union_classes(old(self).classes_view(), b, a)
                        &&& final(self).declared@ == noted(noted(old(self).declared@, b), a)
                        &&& final(self).cs == old(self).cs
                        &&& final(self).n == old(self).n
                        &&& final(self).instance@ == old(self).instance@
                        &&& final(self).table@ == old(self).table@
                        &&& final(self).tables_loaded == old(self).tables_loaded
                        &&& final(self).next_row == old(self).next_row
                    }
                }
            },
    {
        if instance.kind != ColumnKind::Instance || instance.index >= self.cs.num_instance {
            return Err(Error::UnknownHandle);
        }
        if row >= self.n {
            return Err(Error::RowOutOfRange);
        }
        let v = self.instance[instance.index][row];
        let ghost before = *self;
        let probe = self.assign_error_of(column, offset);
        if let Some(e) = probe {
            return Err(e);
        }
        if !self.cs.is_equality_enabled(instance) || !self.cs.is_equality_enabled(column) {
            return Err(Error::NotEqualityEnabled);
        }
        let a = match self.assign_advice(column, offset, Some(v)) {
            Ok(a) => a,
            Err(e) => {
                return Err(e);
            },
        };
        let b = CellAddr { column: instance, row };
        let joined = self.constrain_equal(b, a);
        proof {
            assert(before.copy_error(b, a) is None);
        }
        Ok(a)
    }

    /// The error, if any, that assigning an advice cell at `offset` of the open region meets.
    pub fn assign_error_of(&self, column: Column, offset: usize) -> (r: Option<Error>)
        requires
            self.wf(),
        ensures
            r == self.assign_error(column, ColumnKind::Advice, offset),
    {
        let f = match self.region {
            None => {
                return Some(Error::NoOpenRegion);
            },
            Some(f) => f,
        };
        if column.kind != ColumnKind::Advice || column.index >= self.cs.num_advice {
            return Some(Error::UnknownHandle);
        }
        if offset >= self.n - f.start {
            return Some(Error::RowOutOfRange);
        }
        let row = f.start + offset;
        let total = self.advice.len();
        proof {
            lemma_slot(column.index as int, row as int, self.cs.num_advice as int, self.n as int);
        }
        match self.advice[column.index * self.n + row] {
            CellState::Empty => None,
            _ => Some(Error::CellCollision),
        }
    }

    /// The error, if any, that table write `i` meets.
    pub open spec fn entry_error(&self, w: Seq<TableEntry>, i: int) -> Option<Error> {
        if w[i].column >= self.cs.num_table {
            Some(Error::TableShapeMismatch)
        } else if w[i].row >= self.n {
            Some(Error::RowOutOfRange)
        } else if w[i].row != count_col(w, i, w[i].column as nat) {
            Some(Error::TableGap)
        } else {
            None
        }
    }

    /// The error of the first failing write among the first `m`.
    pub open spec fn first_entry_error(&self, w: Seq<TableEntry>, m: int) -> Option<Error>
        decreases m,
    {
        if m <= 0 {
            None
        } else {
            match self.first_entry_error(w, m - 1) {
                Some(e) => Some(e),
                None => self.entry_error(w, m - 1),
            }
        }
    }

    pub proof fn lemma_first_entry_error(&self, w: Seq<TableEntry>, i: int, m: int)
        requires
            0 <= i < m,
            self.first_entry_error(w, i) is None,
            self.entry_error(w, i) is Some,
        ensures
            self.first_entry_error(w, m) == self.entry_error(w, i),
        decreases m,
    {
        if m > i + 1 {
            self.lemma_first_entry_error(w, i, m - 1);
        }
    }

    pub proof fn lemma_no_entry_error(&self, w: Seq<TableEntry>, m: int)
        requires
            self.first_entry_error(w, m) is None,
        ensures
            forall|i: int| 0 <= i < m ==> self.entry_error(w, i) is None,
        decreases m,
    {
        if m > 0 {
            self.lemma_no_entry_error(w, m - 1);
        }
    }

    /// The error, if any, that loading the tables with writes `w` meets.
    pub open spec fn load_error(&self, w: Seq<TableEntry>) -> Option<Error> {
        if self.tables_loaded {
            Some(Error::TableAlreadyLoaded)
        } else if self.first_entry_error(w, w.len() as int) is Some {
            self.first_entry_error(w, w.len() as int)
        } else if exists|c: nat| c < self.cs.num_table && count_col(w, w.len() as int, c) == 0 {
            Some(Error::TableShapeMismatch)
        } else {
            None
        }
    }

    /// Loads every table column at once: each column's writes come in row order from row 0, and
    /// every table column gets at least one.
    pub fn load_table(&mut self, writes: Vec<TableEntry>) -> (r: Result<(), Error>)
        requires
            old(self).wf(),
        ensures
            final(self).wf(),
            old(self).load_error(writes@) matches Some(e) ==> r == Err::<(), Error>(e) && *final(self)
                == *old(self),
            old(self).load_error(writes@) is None ==> {
                &&& r.is_ok()
                &&& final(self).table@ == writes@
                &&& final(self).tables_loaded
                &&& final(self).cs == old(self).cs
                &&& final(self).n == old(self).n
                &&& final(self).instance@ == old(self).instance@
                &&& final(self).classes_view() == old(self).classes_view()
                &&& final(self).declared@ == old(self).declared@
                &&& final(self).next_row == old(self).next_row
                &&& final(self).same_cells(old(self))
            },
    {
        if self.tables_loaded {
            return Err(Error::TableAlreadyLoaded);
        }
        let mut lens: Vec<usize> = Vec::new();
        let mut c: usize = 0;
        while c < self.cs.num_table
            invariant
                0 <= c <= self.cs.num_table,
                *self == *old(self),
                self.wf(),
                !self.tables_loaded,
                lens@.len() == c,
                forall|d: int| 0 <= d < c ==> lens@[d] == 0,
            decreases self.cs.num_table - c,
        {
            lens.push(0);
            c = c + 1;
        }
        let mut i: usize = 0;
        while i < writes.len()
            invariant
                0 <= i <= writes@.len(),
                *self == *old(self),
                self.wf(),
                !self.tables_loaded,
                lens@.len() == self.cs.num_table,
                forall|d: int| 0 <= d < lens@.len() ==> lens@[d] == count_col(writes@, i as int, d as nat),
                self.first_entry_error(writes@, i as int) is None,
                forall|d: int| 0 <= d < lens@.len() ==> lens@[d] <= self.n,
            decreases writes@.len() - i,
        {
            let e = writes[i];
            if e.column >= self.cs.num_table {
                proof {
                    self.lemma_first_entry_error(writes@, i as int, writes@.len() as int);
                }
                return Err(Error::TableShapeMismatch);
            }
            if e.row >= self.n {
                proof {
                    self.lemma_first_entry_error(writes@, i as int, writes@.len() as int);
                }
                return Err(Error::RowOutOfRange);
            }
            if e.row != lens[e.column] {
                proof {
                    self.lemma_first_entry_error(writes@, i as int, writes@.len() as int);
                }
                return Err(Error::TableGap);
            }
            lens.set(e.column, e.row + 1);
            i = i + 1;
        }
        let mut d: usize = 0;
        while d < lens.len()
            invariant
                0 <= d <= lens@.len(),
                *self == *old(self),
                self.wf(),
                !self.tables_loaded,
                lens@.len() == self.cs.num_table,
                forall|x: int| 0 <= x < lens@.len() ==> lens@[x] == count_col(writes@, writes@.len() as int, x as nat),
                forall|x: int| 0 <= x < d ==> lens@[x] > 0,
                self.first_entry_error(writes@, writes@.len() as int) is None,
            decreases lens@.len() - d,
        {
            if lens[d] == 0 {
                proof {
                    assert(count_col(writes@, writes@.len() as int, d as nat) == 0);
                }
                return Err(Error::TableShapeMismatch);
            }
            d = d + 1;
        }
        proof {
            assert(!exists|c: nat| c < self.cs.num_table && count_col(writes@, writes@.len() as int, c) == 0) by {
                assert forall|c: nat| c < self.cs.num_table implies count_col(writes@, writes@.len() as int, c) != 0 by {
                    assert(lens@[c as int] > 0);
                }
            }
        }
        let ghost before = *self;
        proof {
            self.lemma_no_entry_error(writes@, writes@.len() as int);
            assert forall|i: int| 0 <= i < writes@.len() implies (#[trigger] writes@[i]).column
                < self.cs.num_table by {
                assert(self.entry_error(writes@, i) is None);
            }
        }
        self.table = writes;
        self.tables_loaded = true;
        proof {
            assert(self.classes_view() =~= before.classes_view());
        }
        Ok(())
    }

    /// A fresh assignment of the shape, which it freezes, over `2^k` rows, with the public inputs
    /// of each instance column (rows past the given values hold zero).
    pub fn new(cs: ConstraintSystem, k: u32, instance: Vec<Vec<Fe>>) -> (r: Result<Assembly, Error>)
        requires
            cs.wf(),
        ensures
            !grid_fits(&cs, k as nat) ==> r == Err::<Assembly, Error>(Error::Capacity),
            grid_fits(&cs, k as nat) && instance@.len() != cs.num_instance ==> r == Err::<Assembly, Error>(
                Error::InvalidParameter,
            ),
            grid_fits(&cs, k as nat) && instance@.len() == cs.num_instance && (exists|c: int|
                0 <= c < instance@.len() && (#[trigger] instance@[c])@.len() > rows_for(k as nat))
                ==> r == Err::<Assembly, Error>(Error::RowOutOfRange),
            grid_fits(&cs, k as nat) && instance@.len() == cs.num_instance && (forall|c: int|
                0 <= c < instance@.len() ==> (#[trigger] instance@[c])@.len() <= rows_for(k as nat))
                ==> (r matches Ok(a) && {
                &&& a.wf()
                &&& a.n == rows_for(k as nat)
                &&& a.cs.frozen
                &&& forall|kind: ColumnKind| a.cs.num_of(kind) == cs.num_of(kind)
                &&& a.cs.num_selectors == cs.num_selectors
                &&& a.cs.equality@ == cs.equality@
                &&& a.cs.gates@ == cs.gates@
                &&& a.cs.lookups@ == cs.lookups@
                &&& forall|i: int| 0 <= i < a.advice@.len() ==> a.advice@[i] is Empty
                &&& forall|i: int| 0 <= i < a.fixed@.len() ==> a.fixed@[i] is Empty
                &&& forall|i: int| 0 <= i < a.selectors@.len() ==> !a.selectors@[i]
                &&& forall|c: int, row: int|
                    0 <= c < a.instance@.len() && 0 <= row < a.n ==> (#[trigger] a.instance@[c]@[row])@
                        == if row < instance@[c]@.len() {
                        instance@[c]@[row]@
                    } else {
                        0
                    }
                &&& a.table@.len() == 0 && !a.tables_loaded
                &&& a.classes@.len() == 0 && a.declared@.len() == 0
                &&& a.next_row == 0 && a.region is None
            }),
    {
        let mut n: usize = 1;
        let mut i: u32 = 0;
        while i < k
            invariant
                0 <= i <= k,
                n == rows_for(i as nat),
            decreases k - i,
        {
            if n > usize::MAX / 2 {
                proof {
                    lemma_rows_for_grows((i + 1) as nat, k as nat);
                }
                return Err(Error::Capacity);
            }
            n = n * 2;
            i = i + 1;
        }
        let na = match cs.num_advice.checked_mul(n) {
            Some(x) => x,
            None => {
                return Err(Error::Capacity);
            },
        };
        let nf = match cs.num_fixed.checked_mul(n) {
            Some(x) => x,
            None => {
                return Err(Error::Capacity);
            },
        };
        let ns = match cs.num_selectors.checked_mul(n) {
            Some(x) => x,
            None => {
                return Err(Error::Capacity);
            },
        };
        if instance.len() != cs.num_instance {
            return Err(Error::InvalidParameter);
        }
        proof {
            lemma_rows_for_grows(0, k as nat);
        }
        let mut inst: Vec<Vec<Fe>> = Vec::new();
        let mut c: usize = 0;
        while c < instance.len()
            invariant
                0 <= c <= instance@.len(),
                cs.wf(),
                n == rows_for(k as nat),
                grid_fits(&cs, k as nat),
                instance@.len() == cs.num_instance,
                na == cs.num_advice * n,
                nf == cs.num_fixed * n,
                ns == cs.num_selectors * n,
                inst@.len() == c,
                n > 0,
                forall|d: int| 0 <= d < c ==> (#[trigger] inst@[d])@.len() == n,
                forall|d: int| 0 <= d < c ==> (#[trigger] instance@[d])@.len() <= n,
                forall|d: int, row: int|
                    0 <= d < c && 0 <= row < n ==> (#[trigger] inst@[d]@[row])@ == if row
                        < instance@[d]@.len() {
                        instance@[d]@[row]@
                    } else {
                        0
                    },
            decreases instance@.len() - c,
        {
            if instance[c].len() > n {
                return Err(Error::RowOutOfRange);
            }
            let col = padded(&instance[c], n);
            inst.push(col);
            c = c + 1;
        }
        let mut cs = cs;
        cs.freeze();
        let a = Assembly {
            cs,
            n,
            advice: empty_cells(na),
            fixed: empty_cells(nf),
            selectors: disabled(ns),
            instance: inst,
            table: Vec::new(),
            tables_loaded: false,
            classes: Vec::new(),
            declared: Vec::new(),
            next_row: 0,
            region: None,
        };
        Ok(a)
    }

    /// Assigns an advice cell of the open region the value that cell `from` holds, and records
    /// that the two cells must be equal.
    pub fn copy_advice(&mut self, from: CellAddr, column: Column, offset: usize) -> (r: Result<
        CellAddr,
        Error,
    >)
        requires
            old(self).wf(),
        ensures
            final(self).wf(),
            r.is_err() ==> *final(self) == *old(self),
            !old(self).cs.queryable(from.column) ==> r == Err::<CellAddr, Error>(Error::UnknownHandle),
            old(self).cs.queryable(from.column) && from.row >= old(self).n ==> r == Err::<CellAddr, Error>(
                Error::RowOutOfRange,
            ),
            old(self).addr_ok(from) ==> {
                &&& old(self).assign_error(column, ColumnKind::Advice, offset) matches Some(e) ==> r
                    == Err::<CellAddr, Error>(e)
                &&& old(self).assign_error(column, ColumnKind::Advice, offset) is None ==> {
                    let a = CellAddr { column, row: (old(self).region->Some_0.start + offset) as usize };
                    &&& !old(self).cs.equality@.contains(from.column) || !old(self).cs.equality@.contains(
                        column,
                    ) ==> r == Err::<CellAddr, Error>(Error::NotEqualityEnabled)
                    &&& old(self).cs.equality@.contains(from.column) && old(self).cs.equality@.contains(
                        column,
                    ) ==> {
                        &&& r == Ok::<CellAddr, Error>(a)
                        &&& final(self).is_known(a) == old(self).is_known(from)
                        &&& final(self).value(a) == old(self).value(from)
                        &&& !(final(self).state(a) is Empty)
                        &&& final(self).advice@ == old(self).advice@.update(
                            old(self).slot(a),
                            final(self).advice@[old(self).slot(a)],
                        )
                        &&& final(self).fixed@ == old(self).fixed@
                        &&& final(self).selectors@ == old(self).selectors@
                        &&& final(self).region == old(self).region_after(offset)
                        &&& final(self).classes_view() == union_classes(old(self).classes_view(), from, a)
                        &&& final(self).declared@ == noted(noted(old(self).declared@, from), a)
                        &&& final(self).cs == old(self).cs
                        &&& final(self).n == old(self).n
                        &&& final(self).instance@ == old(self).instance@
                        &&& final(self).table@ == old(self).table@
                        &&& final(self).tables_loaded == old(self).tables_loaded
                        &&& final(self).next_row == old(self).next_row
                    }
                }
            },
    {
        if !self.cs.is_queryable(from.column) {
            return Err(Error::UnknownHandle);
        }
        if from.row >= self.n {
            return Err(Error::RowOutOfRange);
        }
        let known = self.cell_known(from);
        let v = self.read_cell(from);
        let ghost before = *self;
        let probe = self.assign_error_of(column, offset);
        if let Some(e) = probe {
            return Err(e);
        }
        if !self.cs.is_equality_enabled(from.column) || !self.cs.is_equality_enabled(column) {
            return Err(Error::NotEqualityEnabled);
        }
        let value = if known {
            Some(v)
        } else {
            None
        };
        let a = match self.assign_advice(column, offset, value) {
            Ok(a) => a,
            Err(e) => {
                return Err(e);
            },
        };
        let ghost mid = *self;
        let joined = self.constrain_equal(from, a);
        proof {
            assert(before.copy_error(from, a) is None);
            assert(self.advice@ == mid.advice@);
            lemma_slot(column.index as int, a.row as int, before.cs.num_advice as int, before.n as int);
            if from.column.kind == ColumnKind::Advice && from != a {
                lemma_slot(from.column.index as int, from.row as int, before.cs.num_advice as int, before.n as int);
                lemma_slot_distinct(from.column.index as int, from.row as int, column.index as int, a.row as int, before.n as int);
            }
        }
        Ok(a)
    }

    /// Every cell of the grid but `a` holds in `new` what it holds here.
    pub open spec fn keeps_except(&self, new: &Assembly, a: CellAddr) -> bool {
        forall|x: CellAddr|
            #![trigger new.value(x)]
            #![trigger new.is_known(x)]
            #![trigger new.state(x)]
            self.addr_ok(x) && x != a ==> new.value(x) == self.value(x) && new.is_known(x) == self.is_known(x)
                && (x.column.kind != ColumnKind::Instance ==> new.state(x) == self.state(x))
    }

    /// Every cell of a row before `row` holds in `new` what it holds here.
    pub open spec fn keeps_rows_before(&self, new: &Assembly, row: int) -> bool {
        forall|x: CellAddr|
            #![trigger new.value(x)]
            #![trigger new.is_known(x)]
            self.addr_ok(x) && x.row < row ==> new.value(x) == self.value(x) && new.is_known(x) == self.is_known(x)
    }

    /// Changing the advice cell `a` alone leaves every other cell as it was.
    pub proof fn lemma_single_change(&self, new: &Assembly, a: CellAddr)
        requires
            self.wf(),
            new.cs == self.cs,
            new.n == self.n,
            new.instance@ == self.instance@,
            a.column.kind == ColumnKind::Advice ==> new.fixed@ == self.fixed@,
            self.addr_ok(a),
            a.column.kind == ColumnKind::Advice || a.column.kind == ColumnKind::Fixed,
            a.column.kind == ColumnKind::Advice ==> new.advice@ == self.advice@.update(
                self.slot(a),
                new.advice@[self.slot(a)],
            ),
            a.column.kind == ColumnKind::Fixed ==> new.advice@ == self.advice@,
            a.column.kind == ColumnKind::Fixed ==> new.fixed@ == self.fixed@.update(
                self.slot(a),
                new.fixed@[self.slot(a)],
            ),
        ensures
            self.keeps_except(new, a),
    {
        assert forall|x: CellAddr| self.addr_ok(x) && x != a implies #[trigger] new.value(x) == self.value(x)
            && new.is_known(x) == self.is_known(x) && (x.column.kind != ColumnKind::Instance ==> new.state(x)
            == self.state(x)) by {
            if x.column.kind == ColumnKind::Fixed && a.column.kind == ColumnKind::Fixed {
                lemma_slot(x.column.index as int, x.row as int, self.cs.num_fixed as int, self.n as int);
                lemma_slot(a.column.index as int, a.row as int, self.cs.num_fixed as int, self.n as int);
                lemma_slot_distinct(
                    x.column.index as int,
                    x.row as int,
                    a.column.index as int,
                    a.row as int,
                    self.n as int,
                );
            }
            if x.column.kind == ColumnKind::Advice && a.column.kind == ColumnKind::Advice {
                lemma_slot(x.column.index as int, x.row as int, self.cs.num_advice as int, self.n as int);
                lemma_slot(a.column.index as int, a.row as int, self.cs.num_advice as int, self.n as int);
                lemma_slot_distinct(
                    x.column.index as int,
                    x.row as int,
                    a.column.index as int,
                    a.row as int,
                    self.n as int,
                );
            }
        }
        assert forall|x: CellAddr| self.addr_ok(x) && x != a implies #[trigger] new.is_known(x)
            == self.is_known(x) && new.value(x) == self.value(x) && (x.column.kind != ColumnKind::Instance
            ==> new.state(x) == self.state(x)) by {
            assert(new.value(x) == self.value(x));
        }
    }

    /// With no region open, every advice or fixed cell of the next free row is empty.
    pub proof fn lemma_next_row_empty(&self, c: Column)
        requires
            self.wf(),
            self.region is None,
            self.next_row < self.n,
            c.kind == ColumnKind::Advice || c.kind == ColumnKind::Fixed,
            self.cs.has_column(c),
        ensures
            self.state(CellAddr { column: c, row: self.next_row }) is Empty,
    {
        self.lemma_row_empty(c, self.next_row);
    }

    /// No selector is enabled from the first row no region has used on.
    pub proof fn lemma_selector_off(&self, s: Selector, row: usize)
        requires
            self.wf(),
            self.frontier() <= row < self.n,
            s.index < self.cs.num_selectors,
        ensures
            !self.enabled(s, row as int),
    {
        lemma_slot(s.index as int, row as int, self.cs.num_selectors as int, self.n as int);
    }

    /// Every advice or fixed cell from the first row no region has used on is empty.
    pub proof fn lemma_row_empty(&self, c: Column, row: usize)
        requires
            self.wf(),
            self.frontier() <= row < self.n,
            c.kind == ColumnKind::Advice || c.kind == ColumnKind::Fixed,
            self.cs.has_column(c),
        ensures
            self.state(CellAddr { column: c, row }) is Empty,
    {
        if c.kind == ColumnKind::Advice {
            lemma_slot(c.index as int, row as int, self.cs.num_advice as int, self.n as int);
        } else {
            lemma_slot(c.index as int, row as int, self.cs.num_fixed as int, self.n as int);
        }
    }
}

} // verus!
