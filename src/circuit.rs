//! The shape of a circuit: columns, selectors, expressions, gates and lookups.
use crate::error::Error;
use crate::field::Fe;
use vstd::prelude::*;

verus! {

/// The role a column plays in the grid.
#[derive(Clone, Copy, Debug, PartialEq, Eq, Structural)]
pub enum ColumnKind {
    /// Witness values, chosen per run.
    Advice,
    /// Constants shared by every run.
    Fixed,
    /// Public inputs.
    Instance,
    /// Lookup-table contents, loaded once.
    Table,
}

/// A handle on an allocated column.
#[derive(Clone, Copy, Debug, PartialEq, Eq, Structural)]
pub struct Column {
    pub kind: ColumnKind,
    pub index: usize,
}

/// A handle on an allocated selector.
#[derive(Clone, Copy, Debug, PartialEq, Eq, Structural)]
pub struct Selector {
    pub index: usize,
}

/// A polynomial over cells of the grid, relative to the row it is evaluated at.
#[derive(Debug)]
pub enum Expression {
    Constant(Fe),
    /// The cell of a column at the evaluated row plus a rotation.
    Query(Column, i32),
    /// One where the selector is enabled, zero elsewhere.
    Select(Selector),
    Negated(Box<Expression>),
    Sum(Box<Expression>, Box<Expression>),
    Product(Box<Expression>, Box<Expression>),
}

impl Expression {
    pub fn constant(f: Fe) -> (r: Expression)
        ensures
            r == Expression::Constant(f),
    {
        Expression::Constant(f)
    }

    pub fn query(column: Column, rotation: i32) -> (r: Expression)
        ensures
            r == Expression::Query(column, rotation),
    {
        Expression::Query(column, rotation)
    }

    pub fn selector(s: Selector) -> (r: Expression)
        ensures
            r == Expression::Select(s),
    {
        Expression::Select(s)
    }

    pub fn negated(self) -> (r: Expression)
        ensures
            r == Expression::Negated(Box::new(self)),
    {
        Expression::Negated(Box::new(self))
    }

    pub fn sum(self, other: Expression) -> (r: Expression)
        ensures
            r == Expression::Sum(Box::new(self), Box::new(other)),
    {
        Expression::Sum(Box::new(self), Box::new(other))
    }

    /// `self - other`, written as `self + (-other)`.
    pub fn difference(self, other: Expression) -> (r: Expression)
        ensures
            r == Expression::Sum(Box::new(self), Box::new(Expression::Negated(Box::new(other)))),
    {
        Expression::Sum(Box::new(self), Box::new(Expression::Negated(Box::new(other))))
    }

    pub fn product(self, other: Expression) -> (r: Expression)
        ensures
            r == Expression::Product(Box::new(self), Box::new(other)),
    {
        Expression::Product(Box::new(self), Box::new(other))
    }

    /// A second expression equal to this one.
    pub fn duplicate(&self) -> (r: Expression)
        ensures
            r == *self,
        decreases self,
    {
        match self {
            Expression::Constant(f) => Expression::Constant(*f),
            Expression::Query(c, rot) => Expression::Query(*c, *rot),
            Expression::Select(s) => Expression::Select(*s),
            Expression::Negated(a) => Expression::Negated(Box::new(a.duplicate())),
            Expression::Sum(a, b) => Expression::Sum(Box::new(a.duplicate()), Box::new(b.duplicate())),
            Expression::Product(a, b) => Expression::Product(
                Box::new(a.duplicate()),
                Box::new(b.duplicate()),
            ),
        }
    }
}

/// A named list of expressions that must vanish at every row where they are in force.
#[derive(Debug)]
pub struct Gate {
    pub name: String,
    pub polys: Vec<Expression>,
}

/// A requirement that an expression's value, at every row, lies in a table column.
#[derive(Debug)]
pub struct Lookup {
    pub name: String,
    pub input: Expression,
    pub table: Column,
}

/// The registry of a circuit's shape: its columns, selectors, gates and lookups.
#[derive(Debug)]
pub struct ConstraintSystem {
    pub num_advice: usize,
    pub num_fixed: usize,
    pub num_instance: usize,
    pub num_table: usize,
    pub num_selectors: usize,
    /// Columns that copy constraints may name.
    pub equality: Vec<Column>,
    pub gates: Vec<Gate>,
    pub lookups: Vec<Lookup>,
    pub frozen: bool,
}

impl ConstraintSystem {
    /// How many columns of a kind are allocated.
    pub open spec fn num_of(&self, kind: ColumnKind) -> nat {
        match kind {
            ColumnKind::Advice => self.num_advice as nat,
            ColumnKind::Fixed => self.num_fixed as nat,
            ColumnKind::Instance => self.num_instance as nat,
            ColumnKind::Table => self.num_table as nat,
        }
    }

    /// The handle names an allocated column.
    pub open spec fn has_column(&self, c: Column) -> bool {
        c.index < self.num_of(c.kind)
    }

    /// The handle names an allocated column that gates can query.
    pub open spec fn queryable(&self, c: Column) -> bool {
        self.has_column(c) && c.kind != ColumnKind::Table
    }

    /// Every handle in the expression is allocated and queryable.
    pub open spec fn expr_wf(&self, e: Expression) -> bool
        decreases e,
    {
        match e {
            Expression::Constant(_) => true,
            Expression::Query(c, _) => self.queryable(c),
            Expression::Select(s) => s.index < self.num_selectors,
            Expression::Negated(a) => self.expr_wf(*a),
            Expression::Sum(a, b) => self.expr_wf(*a) && self.expr_wf(*b),
            Expression::Product(a, b) => self.expr_wf(*a) && self.expr_wf(*b),
        }
    }

    pub open spec fn polys_wf(&self, polys: Seq<Expression>) -> bool {
        forall|i: int| 0 <= i < polys.len() ==> self.expr_wf(#[trigger] polys[i])
    }

    /// Every registered gate, lookup and equality column refers to allocated handles.
    pub open spec fn wf(&self) -> bool {
        &&& forall|g: int| 0 <= g < self.gates.len() ==> self.polys_wf(#[trigger] self.gates@[g].polys@)
        &&& forall|l: int|
            0 <= l < self.lookups.len() ==> {
                &&& self.expr_wf(#[trigger] self.lookups@[l].input)
                &&& self.lookups@[l].table.kind == ColumnKind::Table
                &&& self.has_column(self.lookups@[l].table)
            }
        &&& forall|i: int| 0 <= i < self.equality.len() ==> self.queryable(#[trigger] self.equality@[i])
    }

    /// Nothing but the column and selector counters differ.
    pub open spec fn same_registry(&self, other: &ConstraintSystem) -> bool {
        &&& self.equality@ == other.equality@
        &&& self.gates@ == other.gates@
        &&& self.lookups@ == other.lookups@
        &&& self.frozen == other.frozen
    }

    /// Only the gates, lookups or equality columns differ.
    pub open spec fn same_counts(&self, other: &ConstraintSystem) -> bool {
        &&& self.num_advice == other.num_advice
        &&& self.num_fixed == other.num_fixed
        &&& self.num_instance == other.num_instance
        &&& self.num_table == other.num_table
        &&& self.num_selectors == other.num_selectors
        &&& self.frozen == other.frozen
    }

    /// The counters of `self` are at most those of `other`.
    pub open spec fn counts_le(&self, other: &ConstraintSystem) -> bool {
        &&& self.num_advice <= other.num_advice
        &&& self.num_fixed <= other.num_fixed
        &&& self.num_instance <= other.num_instance
        &&& self.num_table <= other.num_table
        &&& self.num_selectors <= other.num_selectors
    }

    /// An expression that fits a shape fits any shape with at least as many handles.
    pub proof fn lemma_expr_wf_grows(&self, other: &ConstraintSystem, e: Expression)
        requires
            self.counts_le(other),
            self.expr_wf(e),
        ensures
            other.expr_wf(e),
        decreases e,
    {
        match e {
            Expression::Negated(a) => self.lemma_expr_wf_grows(other, *a),
            Expression::Sum(a, b) => {
                self.lemma_expr_wf_grows(other, *a);
                self.lemma_expr_wf_grows(other, *b);
            },
            Expression::Product(a, b) => {
                self.lemma_expr_wf_grows(other, *a);
                self.lemma_expr_wf_grows(other, *b);
            },
            _ => {},
        }
    }

    /// Well-formedness survives a change that only adds handles.
    pub proof fn lemma_wf_grows(&self, other: &ConstraintSystem)
        requires
            self.wf(),
            self.counts_le(other),
            self.equality@ == other.equality@,
            self.gates@ == other.gates@,
            self.lookups@ == other.lookups@,
        ensures
            other.wf(),
    {
        assert forall|g: int| 0 <= g < other.gates.len() implies other.polys_wf(
            #[trigger] other.gates@[g].polys@,
        ) by {
            assert(self.polys_wf(self.gates@[g].polys@));
            assert forall|i: int| 0 <= i < other.gates@[g].polys@.len() implies other.expr_wf(
                #[trigger] other.gates@[g].polys@[i],
            ) by {
                self.lemma_expr_wf_grows(other, self.gates@[g].polys@[i]);
            }
        }
        assert forall|l: int| 0 <= l < other.lookups.len() implies other.expr_wf(
            #[trigger] other.lookups@[l].input,
        ) by {
            self.lemma_expr_wf_grows(other, self.lookups@[l].input);
        }
    }

    /// An empty, unfrozen shape.
    pub fn new() -> (r: ConstraintSystem)
        ensures
            r.wf(),
            !r.frozen,
            r.num_advice == 0 && r.num_fixed == 0 && r.num_instance == 0,
            r.num_table == 0 && r.num_selectors == 0,
            r.equality@.len() == 0 && r.gates@.len() == 0 && r.lookups@.len() == 0,
    {
        ConstraintSystem {
            num_advice: 0,
            num_fixed: 0,
            num_instance: 0,
            num_table: 0,
            num_selectors: 0,
            equality: Vec::new(),
            gates: Vec::new(),
            lookups: Vec::new(),
            frozen: false,
        }
    }

    /// Allocates the next column of a kind.
    pub fn allocate_column(&mut self, kind: ColumnKind) -> (r: Result<Column, Error>)
        requires
            old(self).wf(),
        ensures
            final(self).wf(),
            final(self).same_registry(old(self)),
            final(self).num_selectors == old(self).num_selectors,
            final(self).num_advice == old(self).num_advice + if r is Ok && kind == ColumnKind::Advice {
                1int
            } else {
                0int
            },
            final(self).num_fixed == old(self).num_fixed + if r is Ok && kind == ColumnKind::Fixed {
                1int
            } else {
                0int
            },
            final(self).num_instance == old(self).num_instance + if r is Ok && kind == ColumnKind::Instance {
                1int
            } else {
                0int
            },
            final(self).num_table == old(self).num_table + if r is Ok && kind == ColumnKind::Table {
                1int
            } else {
                0int
            },
            old(self).frozen ==> r == Err::<Column, Error>(Error::ShapeFrozen) && *final(self) == *old(self),
            !old(self).frozen && old(self).num_of(kind) == usize::MAX ==> r == Err::<Column, Error>(
                Error::Capacity,
            ) && *final(self) == *old(self),
            !old(self).frozen && old(self).num_of(kind) < usize::MAX ==> {
                &&& r == Ok::<Column, Error>(Column { kind, index: old(self).num_of(kind) as usize })
                &&& forall|k: ColumnKind|
                    final(self).num_of(k) == if k == kind {
                        old(self).num_of(k) + 1
                    } else {
                        old(self).num_of(k)
                    }
            },
    {
        if self.frozen {
            return Err(Error::ShapeFrozen);
        }
        let count: usize = match kind {
            ColumnKind::Advice => self.num_advice,
            ColumnKind::Fixed => self.num_fixed,
            ColumnKind::Instance => self.num_instance,
            ColumnKind::Table => self.num_table,
        };
        if count == usize::MAX {
            return Err(Error::Capacity);
        }
        let ghost before = *self;
        match kind {
            ColumnKind::Advice => self.num_advice = count + 1,
            ColumnKind::Fixed => self.num_fixed = count + 1,
            ColumnKind::Instance => self.num_instance = count + 1,
            ColumnKind::Table => self.num_table = count + 1,
        }
        proof {
            before.lemma_wf_grows(self);
        }
        Ok(Column { kind, index: count })
    }

    /// Allocates the next selector.
    pub fn allocate_selector(&mut self) -> (r: Result<Selector, Error>)
        requires
            old(self).wf(),
        ensures
            final(self).wf(),
            final(self).same_registry(old(self)),
            forall|k: ColumnKind| final(self).num_of(k) == old(self).num_of(k),
            final(self).num_advice == old(self).num_advice && final(self).num_fixed == old(self).num_fixed,
            final(self).num_instance == old(self).num_instance && final(self).num_table == old(self).num_table,
            final(self).num_selectors == old(self).num_selectors + if r is Ok {
                1int
            } else {
                0int
            },
            old(self).frozen ==> r == Err::<Selector, Error>(Error::ShapeFrozen) && *final(self) == *old(self),
            !old(self).frozen && old(self).num_selectors == usize::MAX ==> r == Err::<Selector, Error>(
                Error::Capacity,
            ) && *final(self) == *old(self),
            !old(self).frozen && old(self).num_selectors < usize::MAX ==> {
                &&& r == Ok::<Selector, Error>(Selector { index: old(self).num_selectors })
                &&& final(self).num_selectors == old(self).num_selectors + 1
            },
    {
        if self.frozen {
            return Err(Error::ShapeFrozen);
        }
        if self.num_selectors == usize::MAX {
            return Err(Error::Capacity);
        }
        let s = Selector { index: self.num_selectors };
        let ghost before = *self;
        self.num_selectors = self.num_selectors + 1;
        proof {
            before.lemma_wf_grows(self);
        }
        Ok(s)
    }

    /// Whether copy constraints may name the column.
    pub fn is_equality_enabled(&self, c: Column) -> (r: bool)
        ensures
            r == self.equality@.contains(c),
    {
        let mut i: usize = 0;
        while i < self.equality.len()
            invariant
                0 <= i <= self.equality@.len(),
                forall|j: int| 0 <= j < i ==> self.equality@[j] != c,
            decreases self.equality@.len() - i,
        {
            if self.equality[i] == c {
                return true;
            }
            i = i + 1;
        }
        false
    }

    /// Whether the handle names an allocated column that gates can query.
    pub fn is_queryable(&self, c: Column) -> (r: bool)
        ensures
            r == self.queryable(c),
    {
        match c.kind {
            ColumnKind::Advice => c.index < self.num_advice,
            ColumnKind::Fixed => c.index < self.num_fixed,
            ColumnKind::Instance => c.index < self.num_instance,
            ColumnKind::Table => false,
        }
    }

    /// Lets copy constraints name the column.
    pub fn enable_equality(&mut self, c: Column) -> (r: Result<(), Error>)
        requires
            old(self).wf(),
        ensures
            final(self).wf(),
            final(self).same_counts(old(self)),
            final(self).gates@ == old(self).gates@,
            final(self).lookups@ == old(self).lookups@,
            old(self).frozen ==> r == Err::<(), Error>(Error::ShapeFrozen),
            !old(self).frozen && !old(self).queryable(c) ==> r == Err::<(), Error>(Error::UnknownHandle),
            r.is_err() ==> final(self).equality@ == old(self).equality@,
            r.is_ok() ==> final(self).equality@.contains(c),
            forall|x: Column| old(self).equality@.contains(x) ==> #[trigger] final(self).equality@.contains(x),
            !old(self).frozen && old(self).queryable(c) ==> {
                &&& r.is_ok()
                &&& final(self).equality@ == if old(self).equality@.contains(c) {
                    old(self).equality@
                } else {
                    old(self).equality@.push(c)
                }
            },
    {
        if self.frozen {
            return Err(Error::ShapeFrozen);
        }
        if !self.is_queryable(c) {
            return Err(Error::UnknownHandle);
        }
        let ghost before = *self;
        if !self.is_equality_enabled(c) {
            self.equality.push(c);
            proof {
                assert(self.equality@[self.equality@.len() - 1] == c);
                assert forall|x: Column| before.equality@.contains(x) implies #[trigger] self.equality@.contains(x) by {
                    let i = choose|i: int| 0 <= i < before.equality@.len() && before.equality@[i] == x;
                    assert(self.equality@[i] == x);
                }
            }
        }
        proof {
            assert forall|g: int| 0 <= g < self.gates.len() implies self.polys_wf(
                #[trigger] self.gates@[g].polys@,
            ) by {
                assert(before.polys_wf(before.gates@[g].polys@));
                assert forall|i: int| 0 <= i < self.gates@[g].polys@.len() implies self.expr_wf(
                    #[trigger] self.gates@[g].polys@[i],
                ) by {
                    before.lemma_expr_wf_grows(self, before.gates@[g].polys@[i]);
                }
            }
            assert forall|l: int| 0 <= l < self.lookups.len() implies self.expr_wf(
                #[trigger] self.lookups@[l].input,
            ) by {
                before.lemma_expr_wf_grows(self, before.lookups@[l].input);
            }
        }
        Ok(())
    }

    /// Whether every handle in the expression is allocated and queryable.
    pub fn check_expr(&self, e: &Expression) -> (r: bool)
        ensures
            r == self.expr_wf(*e),
        decreases e,
    {
        match e {
            Expression::Constant(_) => true,
            Expression::Query(c, _) => self.is_queryable(*c),
            Expression::Select(s) => s.index < self.num_selectors,
            Expression::Negated(a) => self.check_expr(a),
            Expression::Sum(a, b) => self.check_expr(a) && self.check_expr(b),
            Expression::Product(a, b) => self.check_expr(a) && self.check_expr(b),
        }
    }

    /// Registers a gate whose expressions must vanish wherever it applies.
    pub fn create_gate(&mut self, name: String, polys: Vec<Expression>) -> (r: Result<(), Error>)
        requires
            old(self).wf(),
        ensures
            final(self).wf(),
            final(self).same_counts(old(self)),
            final(self).equality@ == old(self).equality@,
            final(self).lookups@ == old(self).lookups@,
            old(self).frozen ==> r == Err::<(), Error>(Error::ShapeFrozen),
            !old(self).frozen && !old(self).polys_wf(polys@) ==> r == Err::<(), Error>(
                Error::UnknownHandle,
            ),
            r.is_err() ==> final(self).gates@ == old(self).gates@,
            !old(self).frozen && old(self).polys_wf(polys@) ==> r.is_ok() && final(self).gates@
                == old(self).gates@.push(Gate { name, polys }),
    {
        if self.frozen {
            return Err(Error::ShapeFrozen);
        }
        let mut i: usize = 0;
        while i < polys.len()
            invariant
                0 <= i <= polys@.len(),
                *self == *old(self),
                self.wf(),
                !self.frozen,
                forall|j: int| 0 <= j < i ==> self.expr_wf(#[trigger] polys@[j]),
            decreases polys@.len() - i,
        {
            if !self.check_expr(&polys[i]) {
                return Err(Error::UnknownHandle);
            }
            i = i + 1;
        }
        let ghost before = *self;
        self.gates.push(Gate { name, polys });
        proof {
            assert forall|g: int| 0 <= g < self.gates.len() implies self.polys_wf(
                #[trigger] self.gates@[g].polys@,
            ) by {
                if g < before.gates.len() {
                    assert(before.polys_wf(before.gates@[g].polys@));
                    assert forall|i: int| 0 <= i < self.gates@[g].polys@.len() implies self.expr_wf(
                        #[trigger] self.gates@[g].polys@[i],
                    ) by {
                        before.lemma_expr_wf_grows(self, before.gates@[g].polys@[i]);
                    }
                } else {
                    assert forall|i: int| 0 <= i < self.gates@[g].polys@.len() implies self.expr_wf(
                        #[trigger] self.gates@[g].polys@[i],
                    ) by {
                        before.lemma_expr_wf_grows(self, polys@[i]);
                    }
                }
            }
            assert forall|l: int| 0 <= l < self.lookups.len() implies self.expr_wf(
                #[trigger] self.lookups@[l].input,
            ) by {
                before.lemma_expr_wf_grows(self, before.lookups@[l].input);
            }
        }
        Ok(())
    }

    /// Registers a lookup: at every row, `input` must hold a value of the table column.
    pub fn add_lookup(&mut self, name: String, input: Expression, table: Column) -> (r: Result<(), Error>)
        requires
            old(self).wf(),
        ensures
            final(self).wf(),
            final(self).same_counts(old(self)),
            final(self).equality@ == old(self).equality@,
            final(self).gates@ == old(self).gates@,
            old(self).frozen ==> r == Err::<(), Error>(Error::ShapeFrozen),
            !old(self).frozen && table.kind != ColumnKind::Table ==> r == Err::<(), Error>(
                Error::TableShapeMismatch,
            ),
            !old(self).frozen && table.kind == ColumnKind::Table && (!old(self).has_column(table)
                || !old(self).expr_wf(input)) ==> r == Err::<(), Error>(Error::UnknownHandle),
            r.is_err() ==> final(self).lookups@ == old(self).lookups@,
            !old(self).frozen && table.kind == ColumnKind::Table && old(self).has_column(table)
                && old(self).expr_wf(input) ==> r.is_ok() && final(self).lookups@ == old(
                self,
            ).lookups@.push(Lookup { name, input, table }),
    {
        if self.frozen {
            return Err(Error::ShapeFrozen);
        }
        match table.kind {
            ColumnKind::Table => {},
            _ => {
                return Err(Error::TableShapeMismatch);
            },
        }
        if table.index >= self.num_table || !self.check_expr(&input) {
            return Err(Error::UnknownHandle);
        }
        let ghost before = *self;
        self.lookups.push(Lookup { name, input, table });
        proof {
            assert forall|g: int| 0 <= g < self.gates.len() implies self.polys_wf(
                #[trigger] self.gates@[g].polys@,
            ) by {
                assert(before.polys_wf(before.gates@[g].polys@));
                assert forall|i: int| 0 <= i < self.gates@[g].polys@.len() implies self.expr_wf(
                    #[trigger] self.gates@[g].polys@[i],
                ) by {
                    before.lemma_expr_wf_grows(self, before.gates@[g].polys@[i]);
                }
            }
            assert forall|l: int| 0 <= l < self.lookups.len() implies self.expr_wf(
                #[trigger] self.lookups@[l].input,
            ) by {
                if l < before.lookups.len() {
                    before.lemma_expr_wf_grows(self, before.lookups@[l].input);
                } else {
                    before.lemma_expr_wf_grows(self, input);
                }
            }
        }
        Ok(())
    }

    /// Ends the shape phase: later shape changes fail.
    pub fn freeze(&mut self)
        requires
            old(self).wf(),
        ensures
            final(self).wf(),
            final(self).frozen,
            final(self).num_advice == old(self).num_advice,
            final(self).num_fixed == old(self).num_fixed,
            final(self).num_instance == old(self).num_instance,
            final(self).num_table == old(self).num_table,
            final(self).equality@ == old(self).equality@,
            final(self).gates@ == old(self).gates@,
            final(self).lookups@ == old(self).lookups@,
            forall|k: ColumnKind| final(self).num_of(k) == old(self).num_of(k),
            final(self).num_selectors == old(self).num_selectors,
    {
        let ghost before = *self;
        self.frozen = true;
        proof {
            before.lemma_wf_grows(self);
        }
    }
}

} // verus!
