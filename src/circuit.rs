use crate::field::FieldValue;
use vstd::prelude::*;

verus! {

/// What a column holds.
#[derive(Clone, Copy, Debug, PartialEq, Eq, Structural)]
pub enum ColumnKind {
    /// Witness values, filled anew for each proof.
    Advice,
    /// Values fixed by the circuit itself.
    Fixed,
    /// Public inputs.
    Instance,
    /// On/off switches that turn gates on at chosen rows.
    Selector,
}

/// A column: its kind and its place among the columns of that kind.
#[derive(Clone, Copy, Debug, PartialEq, Eq, Structural)]
pub struct Column {
    pub kind: ColumnKind,
    pub index: usize,
}

/// A cell of the grid: a column and an absolute row.
#[derive(Clone, Copy, Debug, PartialEq, Eq, Structural)]
pub struct Cell {
    pub column: Column,
    pub row: usize,
}

/// A polynomial over column queries, evaluated at one row of the grid.
#[derive(Debug)]
pub enum Expression {
    Constant(FieldValue),
    /// One where the selector with this index is on at the row, zero elsewhere.
    SelectorQuery(usize),
    /// The cell of `column` at the evaluation row moved by `rotation`.
    ColumnQuery { column: Column, rotation: i32 },
    Add(Box<Expression>, Box<Expression>),
    Sub(Box<Expression>, Box<Expression>),
    Mul(Box<Expression>, Box<Expression>),
}

/// A named set of identities, checked at the rows where `selector` is on.
#[derive(Debug)]
pub struct Gate {
    pub name: String,
    /// Index of the governing selector.
    pub selector: usize,
    pub polys: Vec<Expression>,
}

/// What configuration and synthesis refuse.
#[derive(Clone, Copy, Debug, PartialEq, Eq, Structural)]
pub enum Error {
    /// The column was never allocated in the constraint system.
    ColumnNotAllocated(Column),
    /// The column is of a kind that the operation does not take.
    WrongColumnKind(Column),
    /// A gate refused when the list held this many gates: it reads an
    /// unallocated column or selector, or holds a non-canonical constant.
    MalformedGate(usize),
    /// The absolute row lies outside the grid.
    RowOutOfBounds(usize),
    /// The cell already holds a value.
    DuplicateAssignment(Cell),
    /// The column may not take part in equality constraints.
    EqualityNotEnabled(Column),
}

impl Error {
    /// A mistake in how the circuit is laid out, as opposed to a bad witness.
    pub open spec fn is_configuration(self) -> bool {
        match self {
            Error::ColumnNotAllocated(_) | Error::WrongColumnKind(_) | Error::MalformedGate(_)
            | Error::RowOutOfBounds(_) => true,
            _ => false,
        }
    }
}

/// `b` has at least the columns of `a`.
pub open spec fn counts_le(a: ConstraintSystem, b: ConstraintSystem) -> bool {
    &&& a.num_advice <= b.num_advice
    &&& a.num_fixed <= b.num_fixed
    &&& a.num_instance <= b.num_instance
    &&& a.num_selectors <= b.num_selectors
}

/// An expression stays well formed as columns are added.
pub proof fn lemma_expr_ok_frame(a: ConstraintSystem, b: ConstraintSystem, e: Expression)
    requires
        counts_le(a, b),
    ensures
        a.expr_ok(e) ==> b.expr_ok(e),
    decreases e,
{
    match e {
        Expression::Add(x, y) => {
            lemma_expr_ok_frame(a, b, *x);
            lemma_expr_ok_frame(a, b, *y);
        },
        Expression::Sub(x, y) => {
            lemma_expr_ok_frame(a, b, *x);
            lemma_expr_ok_frame(a, b, *y);
        },
        Expression::Mul(x, y) => {
            lemma_expr_ok_frame(a, b, *x);
            lemma_expr_ok_frame(a, b, *y);
        },
        _ => {},
    }
}

/// A gate stays well formed as columns are added.
pub proof fn lemma_gate_ok_frame(a: ConstraintSystem, b: ConstraintSystem, g: Gate)
    requires
        counts_le(a, b),
        a.gate_ok(g),
    ensures
        b.gate_ok(g),
{
    assert forall|i: int| 0 <= i < g.polys@.len() implies b.expr_ok(#[trigger] g.polys@[i]) by {
        lemma_expr_ok_frame(a, b, g.polys@[i]);
    }
}

/// What `push` does to membership.
pub proof fn lemma_push_contains<T>(s: Seq<T>, x: T)
    ensures
        s.push(x).contains(x),
        forall|d: T| s.contains(d) ==> s.push(x).contains(d),
        forall|d: T| s.push(x).contains(d) ==> d == x || s.contains(d),
{
    assert(s.push(x)[s.len() as int] == x);
    assert forall|d: T| s.contains(d) implies s.push(x).contains(d) by {
        let i = choose|i: int| 0 <= i < s.len() && s[i] == d;
        assert(s.push(x)[i] == d);
    }
    assert forall|d: T| s.push(x).contains(d) implies d == x || s.contains(d) by {
        let i = choose|i: int| 0 <= i < s.len() + 1 && s.push(x)[i] == d;
        if i < s.len() {
            assert(s[i] == d);
        }
    }
}

/// The registry of columns, the gates and the columns open to equality.
#[derive(Debug)]
pub struct ConstraintSystem {
    pub num_advice: usize,
    pub num_fixed: usize,
    pub num_instance: usize,
    pub num_selectors: usize,
    /// Columns that may appear in equality constraints.
    pub equality: Vec<Column>,
    /// Fixed columns that carry circuit-wide constants.
    pub constants: Vec<Column>,
    pub gates: Vec<Gate>,
}

impl ConstraintSystem {
    /// How many columns of this kind have been allocated.
    pub open spec fn count(&self, kind: ColumnKind) -> usize {
        match kind {
            ColumnKind::Advice => self.num_advice,
            ColumnKind::Fixed => self.num_fixed,
            ColumnKind::Instance => self.num_instance,
            ColumnKind::Selector => self.num_selectors,
        }
    }

    pub open spec fn allocated(&self, c: Column) -> bool {
        c.index < self.count(c.kind)
    }

    pub open spec fn equality_enabled(&self, c: Column) -> bool {
        self.equality@.contains(c)
    }

    /// Every query of the expression names an allocated column, no query
    /// reads a selector as a column, and every constant is canonical.
    pub open spec fn expr_ok(&self, e: Expression) -> bool
        decreases e,
    {
        match e {
            Expression::Constant(v) => v.wf(),
            Expression::SelectorQuery(s) => s < self.num_selectors,
            Expression::ColumnQuery { column, rotation } => column.kind != ColumnKind::Selector
                && self.allocated(column),
            Expression::Add(a, b) => self.expr_ok(*a) && self.expr_ok(*b),
            Expression::Sub(a, b) => self.expr_ok(*a) && self.expr_ok(*b),
            Expression::Mul(a, b) => self.expr_ok(*a) && self.expr_ok(*b),
        }
    }

    pub open spec fn gate_ok(&self, g: Gate) -> bool {
        &&& g.selector < self.num_selectors
        &&& forall|i: int| 0 <= i < g.polys@.len() ==> self.expr_ok(#[trigger] g.polys@[i])
    }

    /// Every gate is well formed.
    pub open spec fn wf(&self) -> bool {
        forall|i: int| 0 <= i < self.gates@.len() ==> self.gate_ok(#[trigger] self.gates@[i])
    }

    /// Everything but the column counts and equality settings is unchanged.
    pub open spec fn same_gates(&self, other: &ConstraintSystem) -> bool {
        self.gates@ == other.gates@ && self.constants@ == other.constants@
    }

    /// A constraint system with no column and no gate.
    pub fn new() -> (r: ConstraintSystem)
        ensures
            r.num_advice == 0,
            r.num_fixed == 0,
            r.num_instance == 0,
            r.num_selectors == 0,
            r.equality@ == Seq::<Column>::empty(),
            r.constants@ == Seq::<Column>::empty(),
            r.gates@ == Seq::<Gate>::empty(),
            r.wf(),
    {
        ConstraintSystem {
            num_advice: 0,
            num_fixed: 0,
            num_instance: 0,
            num_selectors: 0,
            equality: Vec::new(),
            constants: Vec::new(),
            gates: Vec::new(),
        }
    }

    /// A fresh advice column, numbered after those already allocated.
    pub fn advice_column(&mut self) -> (c: Column)
        requires
            old(self).num_advice < usize::MAX,
        ensures
            c == (Column { kind: ColumnKind::Advice, index: old(self).num_advice }),
            *final(self) == (ConstraintSystem { num_advice: (old(self).num_advice + 1) as usize, ..*old(self) }),
    {
        let c = Column { kind: ColumnKind::Advice, index: self.num_advice };
        self.num_advice = self.num_advice + 1;
        c
    }

    /// A fresh fixed column, numbered after those already allocated.
    pub fn fixed_column(&mut self) -> (c: Column)
        requires
            old(self).num_fixed < usize::MAX,
        ensures
            c == (Column { kind: ColumnKind::Fixed, index: old(self).num_fixed }),
            *final(self) == (ConstraintSystem { num_fixed: (old(self).num_fixed + 1) as usize, ..*old(self) }),
    {
        let c = Column { kind: ColumnKind::Fixed, index: self.num_fixed };
        self.num_fixed = self.num_fixed + 1;
        c
    }

    /// A fresh instance column, numbered after those already allocated.
    pub fn instance_column(&mut self) -> (c: Column)
        requires
            old(self).num_instance < usize::MAX,
        ensures
            c == (Column { kind: ColumnKind::Instance, index: old(self).num_instance }),
            *final(self) == (ConstraintSystem { num_instance: (old(self).num_instance + 1) as usize, ..*old(self) }),
    {
        let c = Column { kind: ColumnKind::Instance, index: self.num_instance };
        self.num_instance = self.num_instance + 1;
        c
    }

    /// A fresh selector, numbered after those already allocated.
    pub fn selector(&mut self) -> (c: Column)
        requires
            old(self).num_selectors < usize::MAX,
        ensures
            c == (Column { kind: ColumnKind::Selector, index: old(self).num_selectors }),
            *final(self) == (ConstraintSystem { num_selectors: (old(self).num_selectors + 1) as usize, ..*old(self) }),
    {
        let c = Column { kind: ColumnKind::Selector, index: self.num_selectors };
        self.num_selectors = self.num_selectors + 1;
        c
    }

    pub fn is_equality_enabled(&self, c: Column) -> (r: bool)
        ensures
            r == self.equality_enabled(c),
    {
        let mut i: usize = 0;
        while i < self.equality.len()
            invariant
                i <= self.equality@.len(),
                forall|j: int| 0 <= j < i ==> self.equality@[j] != c,
            decreases self.equality@.len() - i,
        {
            if self.equality[i] == c {
                return true;
            }
            i = i + 1;
        }
        false
    }

    /// Lets an allocated advice, fixed or instance column take part in
    /// equality constraints.
    pub fn enable_equality(&mut self, c: Column) -> (r: Result<(), Error>)
        ensures
            !old(self).allocated(c) ==> r == Err::<(), Error>(Error::ColumnNotAllocated(c)),
            old(self).allocated(c) && c.kind == ColumnKind::Selector ==> r == Err::<(), Error>(
                Error::WrongColumnKind(c),
            ),
            old(self).allocated(c) && c.kind != ColumnKind::Selector ==> r is Ok,
            r is Ok ==> final(self).equality_enabled(c),
            r is Err ==> *final(self) == *old(self),
            final(self).same_gates(old(self)),
            final(self).num_advice == old(self).num_advice,
            final(self).num_fixed == old(self).num_fixed,
            final(self).num_instance == old(self).num_instance,
            final(self).num_selectors == old(self).num_selectors,
            forall|d: Column| old(self).equality_enabled(d) ==> final(self).equality_enabled(d),
            forall|d: Column| final(self).equality_enabled(d) ==> d == c || old(self).equality_enabled(d),
    {
        if !self.column_allocated(c) {
            return Err(Error::ColumnNotAllocated(c));
        }
        if c.kind == ColumnKind::Selector {
            return Err(Error::WrongColumnKind(c));
        }
        if !self.is_equality_enabled(c) {
            proof {
                lemma_push_contains(self.equality@, c);
            }
            self.equality.push(c);
        }
        Ok(())
    }

    /// Marks an allocated fixed column as a carrier of constants; such a
    /// column is open to equality constraints too.
    pub fn enable_constant(&mut self, c: Column) -> (r: Result<(), Error>)
        ensures
            !old(self).allocated(c) ==> r == Err::<(), Error>(Error::ColumnNotAllocated(c)),
            old(self).allocated(c) && c.kind != ColumnKind::Fixed ==> r == Err::<(), Error>(
                Error::WrongColumnKind(c),
            ),
            old(self).allocated(c) && c.kind == ColumnKind::Fixed ==> r is Ok,
            r is Ok ==> final(self).equality_enabled(c) && final(self).constants@.contains(c),
            r is Err ==> *final(self) == *old(self),
            final(self).gates@ == old(self).gates@,
            final(self).num_advice == old(self).num_advice,
            final(self).num_fixed == old(self).num_fixed,
            final(self).num_instance == old(self).num_instance,
            final(self).num_selectors == old(self).num_selectors,
            forall|d: Column| old(self).equality_enabled(d) ==> final(self).equality_enabled(d),
    {
        if !self.column_allocated(c) {
            return Err(Error::ColumnNotAllocated(c));
        }
        if c.kind != ColumnKind::Fixed {
            return Err(Error::WrongColumnKind(c));
        }
        proof {
            lemma_push_contains(self.constants@, c);
        }
        self.constants.push(c);
        if !self.is_equality_enabled(c) {
            proof {
                lemma_push_contains(self.equality@, c);
            }
            self.equality.push(c);
        }
        Ok(())
    }

    pub fn column_allocated(&self, c: Column) -> (r: bool)
        ensures
            r == self.allocated(c),
    {
        match c.kind {
            ColumnKind::Advice => c.index < self.num_advice,
            ColumnKind::Fixed => c.index < self.num_fixed,
            ColumnKind::Instance => c.index < self.num_instance,
            ColumnKind::Selector => c.index < self.num_selectors,
        }
    }

    /// The expression that reads a selector at the evaluation row.
    pub fn query_selector(&self, selector: Column) -> (e: Expression)
        ensures
            e == Expression::SelectorQuery(selector.index),
    {
        Expression::SelectorQuery(selector.index)
    }

    /// The expression that reads an advice column, moved by `rotation` rows.
    pub fn query_advice(&self, column: Column, rotation: i32) -> (e: Expression)
        ensures
            e == (Expression::ColumnQuery { column, rotation }),
    {
        Expression::ColumnQuery { column, rotation }
    }

    /// The expression that reads a fixed column, moved by `rotation` rows.
    pub fn query_fixed(&self, column: Column, rotation: i32) -> (e: Expression)
        ensures
            e == (Expression::ColumnQuery { column, rotation }),
    {
        Expression::ColumnQuery { column, rotation }
    }

    /// The expression that reads an instance column, moved by `rotation` rows.
    pub fn query_instance(&self, column: Column, rotation: i32) -> (e: Expression)
        ensures
            e == (Expression::ColumnQuery { column, rotation }),
    {
        Expression::ColumnQuery { column, rotation }
    }

    pub fn check_expr(&self, e: &Expression) -> (r: bool)
        ensures
            r == self.expr_ok(*e),
        decreases e,
    {
        match e {
            Expression::Constant(v) => v.repr_is_canonical(),
            Expression::SelectorQuery(s) => *s < self.num_selectors,
            Expression::ColumnQuery { column, rotation } => column.kind != ColumnKind::Selector
                && self.column_allocated(*column),
            Expression::Add(a, b) => self.check_expr(a) && self.check_expr(b),
            Expression::Sub(a, b) => self.check_expr(a) && self.check_expr(b),
            Expression::Mul(a, b) => self.check_expr(a) && self.check_expr(b),
        }
    }

    /// Appends a gate whose identities `polys` must vanish at every row
    /// where `selector` is on. A gate that reads an unallocated column or
    /// selector is refused, and nothing changes.
    pub fn create_gate(&mut self, name: String, selector: Column, polys: Vec<Expression>) -> (r:
        Result<(), Error>)
        requires
            old(self).wf(),
        ensures
            final(self).wf(),
            r is Ok <==> (selector.kind == ColumnKind::Selector && old(self).allocated(selector)
                && forall|i: int| 0 <= i < polys@.len() ==> old(self).expr_ok(#[trigger] polys@[i])),
            r is Ok ==> *final(self) == (ConstraintSystem {
                gates: final(self).gates,
                ..*old(self)
            }) && final(self).gates@ == old(self).gates@.push(
                Gate { name, selector: selector.index, polys },
            ),
            r is Err ==> *final(self) == *old(self) && r == Err::<(), Error>(
                Error::MalformedGate(old(self).gates@.len() as usize),
            ),
    {
        let ok_sel = selector.kind == ColumnKind::Selector && self.column_allocated(selector);
        let mut ok = ok_sel;
        let mut i: usize = 0;
        while i < polys.len()
            invariant
                i <= polys@.len(),
                ok == (ok_sel && forall|j: int| 0 <= j < i ==> self.expr_ok(#[trigger] polys@[j])),
            decreases polys@.len() - i,
        {
            if ok && !self.check_expr(&polys[i]) {
                ok = false;
            }
            i = i + 1;
        }
        if !ok {
            return Err(Error::MalformedGate(self.gates.len()));
        }
        let ghost polys_view = polys@;
        let g = Gate { name, selector: selector.index, polys };
        self.gates.push(g);
        proof {
            assert forall|k: int| 0 <= k < self.gates@.len() implies self.gate_ok(
                #[trigger] self.gates@[k],
            ) by {
                if k < self.gates@.len() - 1 {
                    assert(old(self).gates@[k] == self.gates@[k]);
                    lemma_gate_ok_frame(*old(self), *self, self.gates@[k]);
                } else {
                    assert(self.gates@[k].polys@ == polys_view);
                    lemma_gate_ok_frame(*old(self), *self, self.gates@[k]);
                }
            }
        }
        Ok(())
    }
}

} // verus!
