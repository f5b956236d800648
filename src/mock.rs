use crate::assign::{input_at, inputs_wf, lemma_lookup_wf, Assignment, Binding};
use crate::circuit::{Cell, ColumnKind, ConstraintSystem, Expression, Gate};
use crate::field::{modulus, FieldValue};
use vstd::prelude::*;

verus! {

/// One way in which an assignment fails the constraint system.
#[derive(Clone, Copy, Debug, PartialEq, Eq, Structural)]
pub enum Failure {
    /// Identity `constraint` of gate `gate` does not vanish at `row`.
    GateViolation { gate: usize, row: usize, constraint: usize },
    /// Identity `constraint` of gate `gate`, evaluated at `row`, reads a
    /// row outside the grid.
    OutOfGrid { gate: usize, row: usize, constraint: usize },
    /// A gate or an equality constraint reads a cell that holds no value.
    UnassignedCell { cell: Cell },
    /// The cell does not hold the public input at instance row `row`.
    InstanceMismatch { cell: Cell, row: usize },
    /// Two cells declared equal hold different values.
    EqualityViolation { left: Cell, right: Cell },
    /// Instance column `instance` has `found` public inputs, but the
    /// circuit binds `expected` distinct rows of it.
    InputLengthMismatch { instance: usize, expected: usize, found: usize },
}

/// The outcome of evaluating an expression at a row.
#[derive(Clone, Copy, Debug)]
pub enum Eval {
    Value(FieldValue),
    /// The expression reads this cell, which holds no value.
    Missing(Cell),
    /// The expression reads a row outside the grid.
    OutOfGrid,
}

/// `Eval` with the value seen as an integer.
pub enum EvalView {
    Value(int),
    Missing(Cell),
    OutOfGrid,
}

impl View for Eval {
    type V = EvalView;

    open spec fn view(&self) -> EvalView {
        match self {
            Eval::Value(v) => EvalView::Value(v@),
            Eval::Missing(c) => EvalView::Missing(*c),
            Eval::OutOfGrid => EvalView::OutOfGrid,
        }
    }
}

/// The value a cell holds during verification: advice and fixed cells
/// from the assignment, instance cells from the public inputs.
pub open spec fn cell_value(a: &Assignment, pi: Seq<Vec<FieldValue>>, c: Cell) -> Option<FieldValue> {
    match c.column.kind {
        ColumnKind::Instance => input_at(pi, c.column.index, c.row),
        ColumnKind::Selector => None,
        _ => a.value(c),
    }
}

/// The first of two outcomes that is not a value, else `v`.
pub open spec fn combine(l: EvalView, r: EvalView, v: int) -> EvalView {
    match l {
        EvalView::Value(_) => match r {
            EvalView::Value(_) => EvalView::Value(v),
            _ => r,
        },
        _ => l,
    }
}

pub open spec fn value_of_view(e: EvalView) -> int {
    match e {
        EvalView::Value(x) => x,
        _ => 0,
    }
}

/// The value of `e` at `row`, reading the grid without wrapping.
pub open spec fn eval(a: &Assignment, pi: Seq<Vec<FieldValue>>, e: Expression, row: int) -> EvalView
    decreases e,
{
    match e {
        Expression::Constant(v) => EvalView::Value(v@),
        Expression::SelectorQuery(s) => EvalView::Value(
            if a.is_enabled(s, row) {
                1
            } else {
                0
            },
        ),
        Expression::ColumnQuery { column, rotation } => {
            let t = row + rotation;
            if t < 0 || t >= a.num_rows {
                EvalView::OutOfGrid
            } else {
                let c = Cell { column, row: t as usize };
                match cell_value(a, pi, c) {
                    Some(v) => EvalView::Value(v@),
                    None => EvalView::Missing(c),
                }
            }
        },
        Expression::Add(x, y) => {
            let l = eval(a, pi, *x, row);
            let r = eval(a, pi, *y, row);
            combine(l, r, (value_of_view(l) + value_of_view(r)) % modulus())
        },
        Expression::Sub(x, y) => {
            let l = eval(a, pi, *x, row);
            let r = eval(a, pi, *y, row);
            combine(l, r, (value_of_view(l) - value_of_view(r)) % modulus())
        },
        Expression::Mul(x, y) => {
            let l = eval(a, pi, *x, row);
            let r = eval(a, pi, *y, row);
            combine(l, r, (value_of_view(l) * value_of_view(r)) % modulus())
        },
    }
}

/// What identity `i` of gate `gi` reports at `row`.
pub open spec fn poly_failure(
    a: &Assignment,
    pi: Seq<Vec<FieldValue>>,
    e: Expression,
    gi: usize,
    row: usize,
    i: usize,
) -> Seq<Failure> {
    match eval(a, pi, e, row as int) {
        EvalView::Value(x) => if x == 0 {
            Seq::empty()
        } else {
            seq![Failure::GateViolation { gate: gi, row, constraint: i }]
        },
        EvalView::Missing(c) => seq![Failure::UnassignedCell { cell: c }],
        EvalView::OutOfGrid => seq![Failure::OutOfGrid { gate: gi, row, constraint: i }],
    }
}

/// What the first `n` identities of gate `g` report at `row`.
pub open spec fn polys_failures(
    a: &Assignment,
    pi: Seq<Vec<FieldValue>>,
    g: Gate,
    gi: usize,
    row: usize,
    n: nat,
) -> Seq<Failure>
    decreases n,
{
    if n == 0 || n > g.polys@.len() {
        Seq::empty()
    } else {
        polys_failures(a, pi, g, gi, row, (n - 1) as nat) + poly_failure(
            a,
            pi,
            g.polys@[n - 1],
            gi,
            row,
            (n - 1) as usize,
        )
    }
}

/// What gate `g` reports at `row`: nothing where its selector is off.
pub open spec fn row_failures(
    a: &Assignment,
    pi: Seq<Vec<FieldValue>>,
    g: Gate,
    gi: usize,
    row: usize,
) -> Seq<Failure> {
    if a.is_enabled(g.selector, row as int) {
        polys_failures(a, pi, g, gi, row, g.polys@.len())
    } else {
        Seq::empty()
    }
}

/// What gate `g` reports over the first `n` rows.
pub open spec fn rows_failures(a: &Assignment, pi: Seq<Vec<FieldValue>>, g: Gate, gi: usize, n: nat) -> Seq<
    Failure,
>
    decreases n,
{
    if n == 0 {
        Seq::empty()
    } else {
        rows_failures(a, pi, g, gi, (n - 1) as nat) + row_failures(a, pi, g, gi, (n - 1) as usize)
    }
}

/// What the first `n` gates report over the whole grid.
pub open spec fn gates_failures(
    cs: &ConstraintSystem,
    a: &Assignment,
    pi: Seq<Vec<FieldValue>>,
    n: nat,
) -> Seq<Failure>
    decreases n,
{
    if n == 0 || n > cs.gates@.len() {
        Seq::empty()
    } else {
        gates_failures(cs, a, pi, (n - 1) as nat) + rows_failures(
            a,
            pi,
            cs.gates@[n - 1],
            (n - 1) as usize,
            a.num_rows as nat,
        )
    }
}

/// A binding fails unless its cell holds exactly the public input it names;
/// a bound cell that holds no value is reported as unassigned as well.
pub open spec fn binding_failure(a: &Assignment, pi: Seq<Vec<FieldValue>>, b: Binding) -> Seq<Failure> {
    let ok = match cell_value(a, pi, b.cell) {
        Some(v) => match input_at(pi, b.instance, b.row) {
            Some(w) => v@ == w@,
            None => false,
        },
        None => false,
    };
    (if ok {
        Seq::empty()
    } else {
        seq![Failure::InstanceMismatch { cell: b.cell, row: b.row }]
    }) + unassigned(a, pi, b.cell)
}

pub open spec fn bindings_failures(a: &Assignment, pi: Seq<Vec<FieldValue>>, n: nat) -> Seq<Failure>
    decreases n,
{
    if n == 0 || n > a.bindings@.len() {
        Seq::empty()
    } else {
        bindings_failures(a, pi, (n - 1) as nat) + binding_failure(a, pi, a.bindings@[n - 1])
    }
}

pub open spec fn unassigned(a: &Assignment, pi: Seq<Vec<FieldValue>>, c: Cell) -> Seq<Failure> {
    if cell_value(a, pi, c) is None {
        seq![Failure::UnassignedCell { cell: c }]
    } else {
        Seq::empty()
    }
}

/// An equality constraint reports each of its cells that holds no value,
/// and a divergence where both hold values that differ.
pub open spec fn copy_failure(a: &Assignment, pi: Seq<Vec<FieldValue>>, p: (Cell, Cell)) -> Seq<Failure> {
    unassigned(a, pi, p.0) + unassigned(a, pi, p.1) + match cell_value(a, pi, p.0) {
        Some(v) => match cell_value(a, pi, p.1) {
            Some(w) => if v@ != w@ {
                seq![Failure::EqualityViolation { left: p.0, right: p.1 }]
            } else {
                Seq::empty()
            },
            None => Seq::empty(),
        },
        None => Seq::empty(),
    }
}

pub open spec fn copies_failures(a: &Assignment, pi: Seq<Vec<FieldValue>>, n: nat) -> Seq<Failure>
    decreases n,
{
    if n == 0 || n > a.copies@.len() {
        Seq::empty()
    } else {
        copies_failures(a, pi, (n - 1) as nat) + copy_failure(a, pi, a.copies@[n - 1])
    }
}

/// The distinct rows of instance column `col` that the bindings name, in
/// order of first appearance.
pub open spec fn distinct_rows(bs: Seq<Binding>, col: usize) -> Seq<usize>
    decreases bs.len(),
{
    if bs.len() == 0 {
        Seq::empty()
    } else {
        let prev = distinct_rows(bs.drop_last(), col);
        let b = bs.last();
        if b.instance == col && !prev.contains(b.row) {
            prev.push(b.row)
        } else {
            prev
        }
    }
}

/// How many public inputs instance column `col` has.
pub open spec fn input_len(pi: Seq<Vec<FieldValue>>, col: usize) -> nat {
    if col < pi.len() {
        pi[col as int]@.len()
    } else {
        0
    }
}

/// An instance column fails where its number of public inputs differs
/// from the number of distinct rows the circuit binds in it.
pub open spec fn length_failure(a: &Assignment, pi: Seq<Vec<FieldValue>>, col: usize) -> Seq<Failure> {
    let expected = distinct_rows(a.bindings@, col).len();
    let found = input_len(pi, col);
    if expected != found {
        seq![Failure::InputLengthMismatch { instance: col, expected: expected as usize, found: found as usize }]
    } else {
        Seq::empty()
    }
}

/// What the first `n` instance columns report on their lengths.
pub open spec fn lengths_failures(a: &Assignment, pi: Seq<Vec<FieldValue>>, n: nat) -> Seq<Failure>
    decreases n,
{
    if n == 0 {
        Seq::empty()
    } else {
        lengths_failures(a, pi, (n - 1) as nat) + length_failure(a, pi, (n - 1) as usize)
    }
}

/// Every failure of the assignment: gates first, then instance bindings,
/// then equality constraints, then the lengths of the public inputs.
pub open spec fn failures(cs: &ConstraintSystem, a: &Assignment, pi: Seq<Vec<FieldValue>>) -> Seq<
    Failure,
> {
    gates_failures(cs, a, pi, cs.gates@.len()) + bindings_failures(a, pi, a.bindings@.len())
        + copies_failures(a, pi, a.copies@.len()) + lengths_failures(a, pi, cs.num_instance as nat)
}

/// The public input at `row` of instance column `col`, if there is one.
pub fn public_input(pi: &Vec<Vec<FieldValue>>, col: usize, row: usize) -> (r: Option<FieldValue>)
    ensures
        r == input_at(pi@, col, row),
{
    if col < pi.len() && row < pi[col].len() {
        Some(pi[col][row])
    } else {
        None
    }
}

/// The value a cell holds during verification.
pub fn cell_value_of(a: &Assignment, pi: &Vec<Vec<FieldValue>>, c: Cell) -> (r: Option<FieldValue>)
    requires
        a.wf(),
        inputs_wf(pi@),
    ensures
        r == cell_value(a, pi@, c),
        r matches Some(v) ==> v.wf(),
{
    proof {
        lemma_lookup_wf(a.cells@, c);
    }
    match c.column.kind {
        ColumnKind::Instance => public_input(pi, c.column.index, c.row),
        ColumnKind::Selector => None,
        _ => a.value_of(c),
    }
}

/// Whether `selector` is on at `row`.
pub fn selector_on(a: &Assignment, selector: usize, row: usize) -> (r: bool)
    ensures
        r == a.is_enabled(selector, row as int),
{
    let mut i: usize = 0;
    while i < a.enabled.len()
        invariant
            i <= a.enabled@.len(),
            forall|j: int| 0 <= j < i ==> a.enabled@[j] != (selector, row),
        decreases a.enabled@.len() - i,
    {
        if a.enabled[i].0 == selector && a.enabled[i].1 == row {
            return true;
        }
        i = i + 1;
    }
    false
}

/// The value of `e` at `row`.
pub fn eval_expr(
    cs: &ConstraintSystem,
    a: &Assignment,
    pi: &Vec<Vec<FieldValue>>,
    e: &Expression,
    row: usize,
) -> (r: Eval)
    requires
        cs.expr_ok(*e),
        a.wf(),
        inputs_wf(pi@),
        row < a.num_rows,
    ensures
        r@ == eval(a, pi@, *e, row as int),
        r matches Eval::Value(v) ==> v.wf(),
    decreases e,
{
    match e {
        Expression::Constant(v) => Eval::Value(*v),
        Expression::SelectorQuery(s) => {
            if selector_on(a, *s, row) {
                Eval::Value(FieldValue::one())
            } else {
                Eval::Value(FieldValue::zero())
            }
        },
        Expression::ColumnQuery { column, rotation } => {
            let target: usize;
            if *rotation < 0 {
                let back: usize = (-(*rotation as i64)) as usize;
                if back > row {
                    return Eval::OutOfGrid;
                }
                target = row - back;
            } else {
                let fwd: usize = *rotation as usize;
                if fwd >= a.num_rows - row {
                    return Eval::OutOfGrid;
                }
                target = row + fwd;
            }
            let c = Cell { column: *column, row: target };
            match cell_value_of(a, pi, c) {
                Some(v) => Eval::Value(v),
                None => Eval::Missing(c),
            }
        },
        Expression::Add(x, y) => {
            let l = eval_expr(cs, a, pi, x, row);
            let r = eval_expr(cs, a, pi, y, row);
            match (l, r) {
                (Eval::Value(u), Eval::Value(w)) => Eval::Value(u.add(&w)),
                (Eval::Value(_), _) => r,
                _ => l,
            }
        },
        Expression::Sub(x, y) => {
            let l = eval_expr(cs, a, pi, x, row);
            let r = eval_expr(cs, a, pi, y, row);
            match (l, r) {
                (Eval::Value(u), Eval::Value(w)) => Eval::Value(u.sub(&w)),
                (Eval::Value(_), _) => r,
                _ => l,
            }
        },
        Expression::Mul(x, y) => {
            let l = eval_expr(cs, a, pi, x, row);
            let r = eval_expr(cs, a, pi, y, row);
            match (l, r) {
                (Eval::Value(u), Eval::Value(w)) => Eval::Value(u.mul(&w)),
                (Eval::Value(_), _) => r,
                _ => l,
            }
        },
    }
}

/// Appends what gate `g` (at index `gi`) reports at `row`.
fn check_row(
    cs: &ConstraintSystem,
    a: &Assignment,
    pi: &Vec<Vec<FieldValue>>,
    g: &Gate,
    gi: usize,
    row: usize,
    out: &mut Vec<Failure>,
)
    requires
        cs.gate_ok(*g),
        a.wf(),
        inputs_wf(pi@),
        row < a.num_rows,
    ensures
        final(out)@ == old(out)@ + row_failures(a, pi@, *g, gi, row),
{
    if !selector_on(a, g.selector, row) {
        assert(old(out)@ + Seq::<Failure>::empty() =~= old(out)@);
        return;
    }
    let mut i: usize = 0;
    assert(old(out)@ + Seq::<Failure>::empty() =~= old(out)@);
    while i < g.polys.len()
        invariant
            i <= g.polys@.len(),
            cs.gate_ok(*g),
            a.wf(),
            inputs_wf(pi@),
            row < a.num_rows,
            out@ == old(out)@ + polys_failures(a, pi@, *g, gi, row, i as nat),
        decreases g.polys@.len() - i,
    {
        let ghost before = out@;
        let ev = eval_expr(cs, a, pi, &g.polys[i], row);
        match ev {
            Eval::Value(v) => {
                if !v.is_zero() {
                    out.push(Failure::GateViolation { gate: gi, row, constraint: i });
                }
            },
            Eval::Missing(c) => {
                out.push(Failure::UnassignedCell { cell: c });
            },
            Eval::OutOfGrid => {
                out.push(Failure::OutOfGrid { gate: gi, row, constraint: i });
            },
        }
        proof {
            let step = poly_failure(a, pi@, g.polys@[i as int], gi, row, i);
            assert(out@ =~= before + step);
            assert(polys_failures(a, pi@, *g, gi, row, (i + 1) as nat) == polys_failures(
                a,
                pi@,
                *g,
                gi,
                row,
                i as nat,
            ) + step);
            assert(out@ =~= old(out)@ + polys_failures(a, pi@, *g, gi, row, (i + 1) as nat));
        }
        i = i + 1;
    }
}

/// Appends what gate `g` (at index `gi`) reports over the whole grid.
fn check_gate(
    cs: &ConstraintSystem,
    a: &Assignment,
    pi: &Vec<Vec<FieldValue>>,
    g: &Gate,
    gi: usize,
    out: &mut Vec<Failure>,
)
    requires
        cs.gate_ok(*g),
        a.wf(),
        inputs_wf(pi@),
    ensures
        final(out)@ == old(out)@ + rows_failures(a, pi@, *g, gi, a.num_rows as nat),
{
    let mut row: usize = 0;
    assert(old(out)@ + Seq::<Failure>::empty() =~= old(out)@);
    while row < a.num_rows
        invariant
            row <= a.num_rows,
            cs.gate_ok(*g),
            a.wf(),
            inputs_wf(pi@),
            out@ == old(out)@ + rows_failures(a, pi@, *g, gi, row as nat),
        decreases a.num_rows - row,
    {
        let ghost before = out@;
        check_row(cs, a, pi, g, gi, row, out);
        proof {
            assert(out@ =~= old(out)@ + rows_failures(a, pi@, *g, gi, (row + 1) as nat));
        }
        row = row + 1;
    }
}

/// Checks every gate at every row where its selector is on, every instance
/// binding and every equality constraint, and reports all failures; the
/// assignment satisfies the constraint system exactly when the report is
/// empty.
pub fn verify(cs: &ConstraintSystem, a: &Assignment, public_inputs: &Vec<Vec<FieldValue>>) -> (r: Vec<
    Failure,
>)
    requires
        cs.wf(),
        a.wf(),
        inputs_wf(public_inputs@),
    ensures
        r@ == failures(cs, a, public_inputs@),
{
    let pi = public_inputs;
    let mut out: Vec<Failure> = Vec::new();
    let mut gi: usize = 0;
    while gi < cs.gates.len()
        invariant
            gi <= cs.gates@.len(),
            cs.wf(),
            a.wf(),
            inputs_wf(pi@),
            out@ == gates_failures(cs, a, pi@, gi as nat),
        decreases cs.gates@.len() - gi,
    {
        check_gate(cs, a, pi, &cs.gates[gi], gi, &mut out);
        gi = gi + 1;
    }
    let ghost after_gates = out@;
    let mut bi: usize = 0;
    assert(out@ + Seq::<Failure>::empty() =~= out@);
    while bi < a.bindings.len()
        invariant
            bi <= a.bindings@.len(),
            a.wf(),
            inputs_wf(pi@),
            out@ == after_gates + bindings_failures(a, pi@, bi as nat),
        decreases a.bindings@.len() - bi,
    {
        let ghost before = out@;
        let b = a.bindings[bi];
        let ok = match cell_value_of(a, pi, b.cell) {
            Some(v) => match public_input(pi, b.instance, b.row) {
                Some(w) => v.equals(&w),
                None => false,
            },
            None => false,
        };
        if !ok {
            out.push(Failure::InstanceMismatch { cell: b.cell, row: b.row });
        }
        if cell_value_of(a, pi, b.cell).is_none() {
            out.push(Failure::UnassignedCell { cell: b.cell });
        }
        proof {
            assert(out@ =~= before + binding_failure(a, pi@, b));
            assert(out@ =~= after_gates + bindings_failures(a, pi@, (bi + 1) as nat));
        }
        bi = bi + 1;
    }
    let ghost after_bindings = out@;
    let mut ci: usize = 0;
    assert(out@ + Seq::<Failure>::empty() =~= out@);
    while ci < a.copies.len()
        invariant
            ci <= a.copies@.len(),
            a.wf(),
            inputs_wf(pi@),
            out@ == after_bindings + copies_failures(a, pi@, ci as nat),
        decreases a.copies@.len() - ci,
    {
        let ghost before = out@;
        let (x, y) = a.copies[ci];
        let vx = cell_value_of(a, pi, x);
        let vy = cell_value_of(a, pi, y);
        if vx.is_none() {
            out.push(Failure::UnassignedCell { cell: x });
        }
        if vy.is_none() {
            out.push(Failure::UnassignedCell { cell: y });
        }
        match (vx, vy) {
            (Some(v), Some(w)) => {
                if !v.equals(&w) {
                    out.push(Failure::EqualityViolation { left: x, right: y });
                }
            },
            _ => {},
        }
        proof {
            assert(out@ =~= before + copy_failure(a, pi@, (x, y)));
            assert(out@ =~= after_bindings + copies_failures(a, pi@, (ci + 1) as nat));
        }
        ci = ci + 1;
    }
    let ghost after_copies = out@;
    let mut col: usize = 0;
    assert(out@ + Seq::<Failure>::empty() =~= out@);
    while col < cs.num_instance
        invariant
            col <= cs.num_instance,
            out@ == after_copies + lengths_failures(a, pi@, col as nat),
        decreases cs.num_instance - col,
    {
        let ghost before = out@;
        let expected = count_distinct_rows(a, col);
        let found: usize = if col < pi.len() {
            pi[col].len()
        } else {
            0
        };
        if expected != found {
            out.push(Failure::InputLengthMismatch { instance: col, expected, found });
        }
        proof {
            assert(out@ =~= before + length_failure(a, pi@, col));
            assert(out@ =~= after_copies + lengths_failures(a, pi@, (col + 1) as nat));
        }
        col = col + 1;
    }
    proof {
        assert(out@ =~= failures(cs, a, pi@));
    }
    out
}

/// The number of distinct rows of instance column `col` that the
/// bindings name.
pub fn count_distinct_rows(a: &Assignment, col: usize) -> (r: usize)
    ensures
        r == distinct_rows(a.bindings@, col).len(),
{
    let mut rows: Vec<usize> = Vec::new();
    let mut i: usize = 0;
    assert(a.bindings@.take(0) =~= Seq::<Binding>::empty());
    while i < a.bindings.len()
        invariant
            i <= a.bindings@.len(),
            rows@ == distinct_rows(a.bindings@.take(i as int), col),
            rows@.len() <= i,
        decreases a.bindings@.len() - i,
    {
        let b = a.bindings[i];
        assert(a.bindings@.take(i + 1).drop_last() =~= a.bindings@.take(i as int));
        assert(a.bindings@.take(i + 1).last() == b);
        if b.instance == col {
            let mut seen = false;
            let mut j: usize = 0;
            while j < rows.len()
                invariant
                    j <= rows@.len(),
                    seen == (exists|k: int| 0 <= k < j && rows@[k] == b.row),
                decreases rows@.len() - j,
            {
                if rows[j] == b.row {
                    seen = true;
                }
                j = j + 1;
            }
            if !seen {
                rows.push(b.row);
            }
        }
        i = i + 1;
    }
    assert(a.bindings@.take(i as int) =~= a.bindings@);
    rows.len()
}

} // verus!
