use crate::assign::{input_at, lemma_lookup_wf, Assignment};
use crate::chips::{is_select_gate, select_poly, FunctionConfig};
use crate::circuit::{Cell, Column, ColumnKind, ConstraintSystem, Expression, Gate};
use crate::field::{lemma_reduce_canonical, lemma_value_range, modulus, FieldValue};
use crate::mock::{
    binding_failure, bindings_failures, cell_value, copies_failures, copy_failure, distinct_rows, eval,
    failures, gates_failures, input_len, length_failure, lengths_failures, poly_failure, polys_failures,
    row_failures, rows_failures, unassigned, EvalView, Failure,
};
use vstd::arithmetic::div_mod::{lemma_add_mod_noop, lemma_fundamental_div_mod_converse, lemma_mul_mod_noop_left};
use vstd::prelude::*;

verus! {

/// `cond * thenval + (1 - cond) * elseval` in the field.
pub open spec fn select_value(c: int, t: int, e: int) -> int {
    (c * t + (1 - c) * e) % modulus()
}

/// The four cells of a conditional select at `row` hold `c`, `t`, `e`, `o`.
pub open spec fn select_cells(a: &Assignment, cfg: FunctionConfig, row: usize, c: FieldValue, t: FieldValue, e: FieldValue, o: FieldValue) -> bool {
    &&& cfg.cond.kind == ColumnKind::Advice && cfg.thenval.kind == ColumnKind::Advice
    &&& cfg.elseval.kind == ColumnKind::Advice && cfg.output.kind == ColumnKind::Advice
    &&& a.value(Cell { column: cfg.cond, row }) == Some(c)
    &&& a.value(Cell { column: cfg.thenval, row }) == Some(t)
    &&& a.value(Cell { column: cfg.elseval, row }) == Some(e)
    &&& a.value(Cell { column: cfg.output, row }) == Some(o)
    &&& c.wf() && t.wf() && e.wf() && o.wf()
}

proof fn lemma_sub_zero_iff(x: int, y: int)
    requires
        0 <= x < modulus(),
        0 <= y < modulus(),
    ensures
        ((x - y) % modulus() == 0) == (x == y),
        0 <= (x - y) % modulus() < modulus(),
{
    if x > y {
        lemma_reduce_canonical(x - y);
    } else if x < y {
        lemma_fundamental_div_mod_converse(x - y, modulus(), -1, x - y + modulus());
    } else {
        lemma_reduce_canonical(0);
    }
}

/// At a row where its selector is on and its four cells hold values, the
/// conditional-select gate reports nothing exactly when the output is
/// `cond * thenval + (1 - cond) * elseval`, and one violation otherwise.
pub proof fn lemma_select_gate_row(
    a: &Assignment,
    pi: Seq<Vec<FieldValue>>,
    cfg: FunctionConfig,
    g: Gate,
    gi: usize,
    row: usize,
    c: FieldValue,
    t: FieldValue,
    e: FieldValue,
    o: FieldValue,
)
    requires
        is_select_gate(g, cfg),
        row < a.num_rows,
        a.is_enabled(cfg.selector.index, row as int),
        select_cells(a, cfg, row, c, t, e, o),
    ensures
        row_failures(a, pi, g, gi, row) == (if o@ == select_value(c@, t@, e@) {
            Seq::<Failure>::empty()
        } else {
            seq![Failure::GateViolation { gate: gi, row, constraint: 0 }]
        }),
{
    lemma_value_range(o);
    let one = choose|one: FieldValue| one@ == 1 && #[trigger] g.polys@ == seq![select_poly(cfg, one)];
    let p = modulus();
    let poly = select_poly(cfg, one);
    let qc = Expression::ColumnQuery { column: cfg.cond, rotation: 0 };
    let qt = Expression::ColumnQuery { column: cfg.thenval, rotation: 0 };
    let qe = Expression::ColumnQuery { column: cfg.elseval, rotation: 0 };
    let qo = Expression::ColumnQuery { column: cfg.output, rotation: 0 };
    let ct = Expression::Mul(Box::new(qc), Box::new(qt));
    let omc = Expression::Sub(Box::new(Expression::Constant(one)), Box::new(qc));
    let ome = Expression::Mul(Box::new(omc), Box::new(qe));
    let sum = Expression::Add(Box::new(ct), Box::new(ome));
    let diff = Expression::Sub(Box::new(sum), Box::new(qo));
    assert(poly == Expression::Mul(Box::new(Expression::SelectorQuery(cfg.selector.index)), Box::new(diff)));
    assert(eval(a, pi, qc, row as int) == EvalView::Value(c@));
    assert(eval(a, pi, qt, row as int) == EvalView::Value(t@));
    assert(eval(a, pi, qe, row as int) == EvalView::Value(e@));
    assert(eval(a, pi, qo, row as int) == EvalView::Value(o@));
    let v_ct = (c@ * t@) % p;
    let v_omc = (1 - c@) % p;
    let v_ome = (v_omc * e@) % p;
    let v_sum = (v_ct + v_ome) % p;
    let v_diff = (v_sum - o@) % p;
    assert(eval(a, pi, ct, row as int) == EvalView::Value(v_ct));
    assert(eval(a, pi, Expression::Constant(one), row as int) == EvalView::Value(1));
    assert(eval(a, pi, omc, row as int) == EvalView::Value(v_omc));
    assert(eval(a, pi, ome, row as int) == EvalView::Value(v_ome));
    assert(eval(a, pi, sum, row as int) == EvalView::Value(v_sum));
    assert(eval(a, pi, diff, row as int) == EvalView::Value(v_diff));
    assert(eval(a, pi, Expression::SelectorQuery(cfg.selector.index), row as int) == EvalView::Value(1));
    lemma_select_arith(c@, t@, e@, o@);
    assert(eval(a, pi, poly, row as int) == EvalView::Value(v_diff));
    assert(polys_failures(a, pi, g, gi, row, 0) == Seq::<Failure>::empty());
    assert(polys_failures(a, pi, g, gi, row, 1) =~= poly_failure(a, pi, poly, gi, row, 0));
}

proof fn lemma_select_arith(c: int, t: int, e: int, o: int)
    requires
        0 <= o < modulus(),
    ensures
        ({
            let p = modulus();
            let v_sum = ((c * t) % p + (((1 - c) % p) * e) % p) % p;
            let v_diff = (v_sum - o) % p;
            &&& (1 * v_diff) % p == v_diff
            &&& (v_diff == 0) == (o == select_value(c, t, e))
        }),
{
    let p = modulus();
    let v_sum = ((c * t) % p + (((1 - c) % p) * e) % p) % p;
    lemma_mul_mod_noop_left(1 - c, e, p);
    lemma_add_mod_noop(c * t, (1 - c) * e, p);
    assert(v_sum == select_value(c, t, e));
    lemma_sub_zero_iff(v_sum, o);
    lemma_reduce_canonical((v_sum - o) % p);
}

/// For a boolean `cond` the linear formula picks `thenval` or `elseval`.
pub proof fn lemma_select_boolean(c: int, t: int, e: int)
    requires
        c == 0 || c == 1,
        0 <= t < modulus(),
        0 <= e < modulus(),
    ensures
        select_value(c, t, e) == (if c == 1 {
            t
        } else {
            e
        }),
{
    if c == 1 {
        lemma_reduce_canonical(t);
    } else {
        lemma_reduce_canonical(e);
    }
}

/// A gate reports nothing at a row where its selector is off, whatever
/// the cells hold.
pub proof fn lemma_selector_off(a: &Assignment, pi: Seq<Vec<FieldValue>>, g: Gate, gi: usize, row: usize)
    requires
        !a.is_enabled(g.selector, row as int),
    ensures
        row_failures(a, pi, g, gi, row) == Seq::<Failure>::empty(),
{
}

/// A gate whose selector is on only at `row` reports over the whole grid
/// what it reports at that row.
pub proof fn lemma_single_row(a: &Assignment, pi: Seq<Vec<FieldValue>>, g: Gate, gi: usize, row: usize, n: nat)
    requires
        row < n <= a.num_rows,
        forall|r: int| 0 <= r < a.num_rows && #[trigger] a.is_enabled(g.selector, r) ==> r == row,
    ensures
        rows_failures(a, pi, g, gi, n) == row_failures(a, pi, g, gi, row),
    decreases n,
{
    if n - 1 > row {
        lemma_single_row(a, pi, g, gi, row, (n - 1) as nat);
        assert(!a.is_enabled(g.selector, (n - 1) as usize as int));
        assert(rows_failures(a, pi, g, gi, n) =~= rows_failures(a, pi, g, gi, (n - 1) as nat));
    } else {
        lemma_no_rows_before(a, pi, g, gi, row, row as nat);
        assert(rows_failures(a, pi, g, gi, n) =~= row_failures(a, pi, g, gi, row));
    }
}

proof fn lemma_no_rows_before(a: &Assignment, pi: Seq<Vec<FieldValue>>, g: Gate, gi: usize, row: usize, n: nat)
    requires
        row < a.num_rows,
        n <= row,
        forall|r: int| 0 <= r < a.num_rows && #[trigger] a.is_enabled(g.selector, r) ==> r == row,
    ensures
        rows_failures(a, pi, g, gi, n) == Seq::<Failure>::empty(),
    decreases n,
{
    if n > 0 {
        lemma_no_rows_before(a, pi, g, gi, row, (n - 1) as nat);
        assert(!a.is_enabled(g.selector, (n - 1) as usize as int));
        assert(rows_failures(a, pi, g, gi, n) =~= Seq::<Failure>::empty());
    }
}

/// A grid holding one conditional select, at row `row`, with no bindings
/// and no equality constraints, is satisfied exactly when the output is
/// `cond * thenval + (1 - cond) * elseval`; otherwise it fails on that
/// gate at that row alone.
pub proof fn lemma_select_circuit(
    cs: &ConstraintSystem,
    a: &Assignment,
    pi: Seq<Vec<FieldValue>>,
    cfg: FunctionConfig,
    row: usize,
    c: FieldValue,
    t: FieldValue,
    e: FieldValue,
    o: FieldValue,
)
    requires
        cs.gates@.len() == 1,
        is_select_gate(cs.gates@[0], cfg),
        row < a.num_rows,
        forall|r: int| 0 <= r < a.num_rows ==> (#[trigger] a.is_enabled(cfg.selector.index, r) <==> r == row),
        select_cells(a, cfg, row, c, t, e, o),
        a.bindings@.len() == 0,
        a.copies@.len() == 0,
        forall|i: int| 0 <= i < pi.len() ==> (#[trigger] pi[i])@.len() == 0,
    ensures
        failures(cs, a, pi) == (if o@ == select_value(c@, t@, e@) {
            Seq::<Failure>::empty()
        } else {
            seq![Failure::GateViolation { gate: 0, row, constraint: 0 }]
        }),
{
    let g = cs.gates@[0];
    lemma_select_gate_row(a, pi, cfg, g, 0, row, c, t, e, o);
    lemma_single_row(a, pi, g, 0, row, a.num_rows as nat);
    assert(gates_failures(cs, a, pi, 0) == Seq::<Failure>::empty());
    assert(gates_failures(cs, a, pi, 1) =~= rows_failures(a, pi, g, 0, a.num_rows as nat));
    lemma_no_bindings_lengths(a, pi, cs.num_instance as nat);
    assert(failures(cs, a, pi) =~= gates_failures(cs, a, pi, 1));
}

/// With a boolean `cond`, a grid holding one conditional select is
/// satisfied exactly when the output is `thenval` for `cond = 1` and
/// `elseval` for `cond = 0`, and otherwise fails with one gate violation
/// at that row.
pub proof fn lemma_select_circuit_boolean(
    cs: &ConstraintSystem,
    a: &Assignment,
    pi: Seq<Vec<FieldValue>>,
    cfg: FunctionConfig,
    row: usize,
    c: FieldValue,
    t: FieldValue,
    e: FieldValue,
    o: FieldValue,
)
    requires
        cs.gates@.len() == 1,
        is_select_gate(cs.gates@[0], cfg),
        row < a.num_rows,
        forall|r: int| 0 <= r < a.num_rows ==> (#[trigger] a.is_enabled(cfg.selector.index, r) <==> r == row),
        select_cells(a, cfg, row, c, t, e, o),
        a.bindings@.len() == 0,
        a.copies@.len() == 0,
        forall|i: int| 0 <= i < pi.len() ==> (#[trigger] pi[i])@.len() == 0,
        c@ == 0 || c@ == 1,
    ensures
        failures(cs, a, pi) == (if o@ == (if c@ == 1 {
            t@
        } else {
            e@
        }) {
            Seq::<Failure>::empty()
        } else {
            seq![Failure::GateViolation { gate: 0, row, constraint: 0 }]
        }),
{
    lemma_select_circuit(cs, a, pi, cfg, row, c, t, e, o);
    lemma_value_range(t);
    lemma_value_range(e);
    lemma_select_boolean(c@, t@, e@);
}

/// For any `cond`, boolean or not, an output computed with the field
/// operations from the linear formula satisfies a grid holding one
/// conditional select. Booleanity of `cond` needs a gate of its own.
pub proof fn lemma_select_circuit_linear(
    cs: &ConstraintSystem,
    a: &Assignment,
    pi: Seq<Vec<FieldValue>>,
    cfg: FunctionConfig,
    row: usize,
    c: FieldValue,
    t: FieldValue,
    e: FieldValue,
    o: FieldValue,
)
    requires
        cs.gates@.len() == 1,
        is_select_gate(cs.gates@[0], cfg),
        row < a.num_rows,
        forall|r: int| 0 <= r < a.num_rows ==> (#[trigger] a.is_enabled(cfg.selector.index, r) <==> r == row),
        select_cells(a, cfg, row, c, t, e, o),
        a.bindings@.len() == 0,
        a.copies@.len() == 0,
        forall|i: int| 0 <= i < pi.len() ==> (#[trigger] pi[i])@.len() == 0,
        o@ == ((c@ * t@) % modulus() + (((1 - c@) % modulus()) * e@) % modulus()) % modulus(),
    ensures
        failures(cs, a, pi) == Seq::<Failure>::empty(),
{
    lemma_select_circuit(cs, a, pi, cfg, row, c, t, e, o);
    lemma_mul_mod_noop_left(1 - c@, e@, modulus());
    lemma_add_mod_noop(c@ * t@, (1 - c@) * e@, modulus());
}

/// Where no selector is on anywhere, no gate reports anything.
pub proof fn lemma_no_selectors(cs: &ConstraintSystem, a: &Assignment, pi: Seq<Vec<FieldValue>>, n: nat)
    requires
        a.enabled@.len() == 0,
    ensures
        gates_failures(cs, a, pi, n) == Seq::<Failure>::empty(),
    decreases n,
{
    if n > 0 && n <= cs.gates@.len() {
        lemma_no_selectors(cs, a, pi, (n - 1) as nat);
        lemma_rows_quiet(a, pi, cs.gates@[n - 1], (n - 1) as usize, a.num_rows as nat);
        assert(gates_failures(cs, a, pi, n) =~= Seq::<Failure>::empty());
    }
}

proof fn lemma_rows_quiet(a: &Assignment, pi: Seq<Vec<FieldValue>>, g: Gate, gi: usize, n: nat)
    requires
        a.enabled@.len() == 0,
    ensures
        rows_failures(a, pi, g, gi, n) == Seq::<Failure>::empty(),
    decreases n,
{
    if n > 0 {
        lemma_rows_quiet(a, pi, g, gi, (n - 1) as nat);
        assert(rows_failures(a, pi, g, gi, n) =~= Seq::<Failure>::empty());
    }
}

/// A column query never wraps: read from before the first row or past
/// the last, it is out of the grid.
pub proof fn lemma_rotation_no_wrap(a: &Assignment, pi: Seq<Vec<FieldValue>>, column: Column, rotation: i32, row: int)
    requires
        row + rotation < 0 || row + rotation >= a.num_rows,
    ensures
        eval(a, pi, Expression::ColumnQuery { column, rotation }, row) == EvalView::OutOfGrid,
{
}

/// An identity that reads outside the grid at a row where its gate is on
/// is reported as such, at that row.
pub proof fn lemma_out_of_grid_reported(
    cs: &ConstraintSystem,
    a: &Assignment,
    pi: Seq<Vec<FieldValue>>,
    gi: usize,
    row: usize,
    i: usize,
)
    requires
        gi < cs.gates@.len(),
        row < a.num_rows,
        i < cs.gates@[gi as int].polys@.len(),
        a.is_enabled(cs.gates@[gi as int].selector, row as int),
        eval(a, pi, cs.gates@[gi as int].polys@[i as int], row as int) == EvalView::OutOfGrid,
    ensures
        failures(cs, a, pi).contains(Failure::OutOfGrid { gate: gi, row, constraint: i }),
{
    let g = cs.gates@[gi as int];
    let f = Failure::OutOfGrid { gate: gi, row, constraint: i };
    assert(poly_failure(a, pi, g.polys@[i as int], gi, row, i)[0] == f);
    lemma_polys_contains(a, pi, g, gi, row, g.polys@.len(), i as nat, f);
    lemma_rows_contains(a, pi, g, gi, a.num_rows as nat, row as nat, f);
    lemma_gates_contains(cs, a, pi, cs.gates@.len(), gi as nat, f);
    lemma_failures_parts(cs, a, pi, f);
}

/// A cell of an equality constraint that holds no value is reported as
/// unassigned; it is never read as zero.
pub proof fn lemma_unassigned_reported(cs: &ConstraintSystem, a: &Assignment, pi: Seq<Vec<FieldValue>>, k: int, cell: Cell)
    requires
        0 <= k < a.copies@.len(),
        cell == a.copies@[k].0 || cell == a.copies@[k].1,
        cell_value(a, pi, cell) is None,
    ensures
        failures(cs, a, pi).contains(Failure::UnassignedCell { cell }),
{
    let p = a.copies@[k];
    let f = Failure::UnassignedCell { cell };
    let rest = match cell_value(a, pi, p.0) {
        Some(v) => match cell_value(a, pi, p.1) {
            Some(w) => if v@ != w@ {
                seq![Failure::EqualityViolation { left: p.0, right: p.1 }]
            } else {
                Seq::empty()
            },
            None => Seq::empty(),
        },
        None => Seq::empty(),
    };
    let u0 = crate::mock::unassigned(a, pi, p.0);
    let u1 = crate::mock::unassigned(a, pi, p.1);
    if cell == p.0 {
        assert(u0[0] == f);
        lemma_add_contains(u0, u1, f);
    } else {
        assert(u1[0] == f);
        lemma_add_contains(u0, u1, f);
    }
    lemma_add_contains(u0 + u1, rest, f);
    lemma_copies_contains(a, pi, a.copies@.len(), k as nat, f);
    lemma_failures_parts(cs, a, pi, f);
}

/// A binding whose cell does not hold the public input it names, because
/// the cell is absent, the input is absent, or the two differ, is reported
/// as an instance mismatch; one whose cell holds it reports nothing.
pub proof fn lemma_binding_checked(cs: &ConstraintSystem, a: &Assignment, pi: Seq<Vec<FieldValue>>, k: int)
    requires
        0 <= k < a.bindings@.len(),
    ensures
        ({
            let b = a.bindings@[k];
            let holds = match cell_value(a, pi, b.cell) {
                Some(v) => match input_at(pi, b.instance, b.row) {
                    Some(w) => v@ == w@,
                    None => false,
                },
                None => false,
            };
            &&& !holds ==> failures(cs, a, pi).contains(Failure::InstanceMismatch { cell: b.cell, row: b.row })
            &&& holds ==> binding_failure(a, pi, b) == Seq::<Failure>::empty()
        }),
{
    let b = a.bindings@[k];
    let f = Failure::InstanceMismatch { cell: b.cell, row: b.row };
    if binding_failure(a, pi, b).len() > 0 && !(cell_value(a, pi, b.cell) is Some && input_at(pi, b.instance, b.row) is Some && cell_value(a, pi, b.cell).unwrap()@ == input_at(pi, b.instance, b.row).unwrap()@) {
        assert(binding_failure(a, pi, b)[0] == f);
        lemma_bindings_contains(a, pi, a.bindings@.len(), k as nat, f);
        lemma_failures_parts(cs, a, pi, f);
    }
}

proof fn lemma_add_contains(s: Seq<Failure>, t: Seq<Failure>, f: Failure)
    ensures
        s.contains(f) ==> (s + t).contains(f),
        t.contains(f) ==> (s + t).contains(f),
{
    if s.contains(f) {
        let i = choose|i: int| 0 <= i < s.len() && s[i] == f;
        assert((s + t)[i] == f);
    }
    if t.contains(f) {
        let i = choose|i: int| 0 <= i < t.len() && t[i] == f;
        assert((s + t)[s.len() + i] == f);
    }
}

proof fn lemma_polys_contains(a: &Assignment, pi: Seq<Vec<FieldValue>>, g: Gate, gi: usize, row: usize, n: nat, i: nat, f: Failure)
    requires
        i < n <= g.polys@.len(),
        poly_failure(a, pi, g.polys@[i as int], gi, row, i as usize).contains(f),
    ensures
        polys_failures(a, pi, g, gi, row, n).contains(f),
    decreases n,
{
    if i < n - 1 {
        lemma_polys_contains(a, pi, g, gi, row, (n - 1) as nat, i, f);
    }
    lemma_add_contains(
        polys_failures(a, pi, g, gi, row, (n - 1) as nat),
        poly_failure(a, pi, g.polys@[n - 1], gi, row, (n - 1) as usize),
        f,
    );
}

proof fn lemma_rows_contains(a: &Assignment, pi: Seq<Vec<FieldValue>>, g: Gate, gi: usize, n: nat, r: nat, f: Failure)
    requires
        r < n,
        row_failures(a, pi, g, gi, r as usize).contains(f),
    ensures
        rows_failures(a, pi, g, gi, n).contains(f),
    decreases n,
{
    if r < n - 1 {
        lemma_rows_contains(a, pi, g, gi, (n - 1) as nat, r, f);
    }
    lemma_add_contains(
        rows_failures(a, pi, g, gi, (n - 1) as nat),
        row_failures(a, pi, g, gi, (n - 1) as usize),
        f,
    );
}

proof fn lemma_gates_contains(cs: &ConstraintSystem, a: &Assignment, pi: Seq<Vec<FieldValue>>, n: nat, gi: nat, f: Failure)
    requires
        gi < n <= cs.gates@.len(),
        rows_failures(a, pi, cs.gates@[gi as int], gi as usize, a.num_rows as nat).contains(f),
    ensures
        gates_failures(cs, a, pi, n).contains(f),
    decreases n,
{
    if gi < n - 1 {
        lemma_gates_contains(cs, a, pi, (n - 1) as nat, gi, f);
    }
    lemma_add_contains(
        gates_failures(cs, a, pi, (n - 1) as nat),
        rows_failures(a, pi, cs.gates@[n - 1], (n - 1) as usize, a.num_rows as nat),
        f,
    );
}

proof fn lemma_bindings_contains(a: &Assignment, pi: Seq<Vec<FieldValue>>, n: nat, k: nat, f: Failure)
    requires
        k < n <= a.bindings@.len(),
        binding_failure(a, pi, a.bindings@[k as int]).contains(f),
    ensures
        bindings_failures(a, pi, n).contains(f),
    decreases n,
{
    if k < n - 1 {
        lemma_bindings_contains(a, pi, (n - 1) as nat, k, f);
    }
    lemma_add_contains(bindings_failures(a, pi, (n - 1) as nat), binding_failure(a, pi, a.bindings@[n - 1]), f);
}

proof fn lemma_copies_contains(a: &Assignment, pi: Seq<Vec<FieldValue>>, n: nat, k: nat, f: Failure)
    requires
        k < n <= a.copies@.len(),
        copy_failure(a, pi, a.copies@[k as int]).contains(f),
    ensures
        copies_failures(a, pi, n).contains(f),
    decreases n,
{
    if k < n - 1 {
        lemma_copies_contains(a, pi, (n - 1) as nat, k, f);
    }
    lemma_add_contains(copies_failures(a, pi, (n - 1) as nat), copy_failure(a, pi, a.copies@[n - 1]), f);
}

/// The value of a cell as an integer, if it holds one.
pub open spec fn value_view(a: &Assignment, pi: Seq<Vec<FieldValue>>, c: Cell) -> Option<int> {
    match cell_value(a, pi, c) {
        Some(v) => Some(v@),
        None => None,
    }
}

/// `path` is a chain of cells in which each neighbouring pair is joined by
/// the equality constraint whose index `edges` gives, in either direction.
pub open spec fn is_chain(copies: Seq<(Cell, Cell)>, path: Seq<Cell>, edges: Seq<int>) -> bool {
    &&& path.len() >= 1
    &&& edges.len() == path.len() - 1
    &&& forall|i: int|
        0 <= i < edges.len() ==> 0 <= #[trigger] edges[i] < copies.len() && (copies[edges[i]] == (
            path[i],
            path[i + 1],
        ) || copies[edges[i]] == (path[i + 1], path[i]))
}

proof fn lemma_copies_clean_each(a: &Assignment, pi: Seq<Vec<FieldValue>>, n: nat, k: nat)
    requires
        k < n <= a.copies@.len(),
        copies_failures(a, pi, n).len() == 0,
    ensures
        copy_failure(a, pi, a.copies@[k as int]).len() == 0,
    decreases n,
{
    if k < n - 1 {
        lemma_copies_clean_each(a, pi, (n - 1) as nat, k);
    }
}

/// Where no equality constraint reports anything, all cells of a chain of
/// equality constraints hold a value, and the same one: each class of the
/// transitive closure of the constraints is uniform.
pub proof fn lemma_equality_classes(a: &Assignment, pi: Seq<Vec<FieldValue>>, path: Seq<Cell>, edges: Seq<int>)
    requires
        copies_failures(a, pi, a.copies@.len()) == Seq::<Failure>::empty(),
        is_chain(a.copies@, path, edges),
        path.len() >= 2,
    ensures
        forall|i: int|
            0 <= i < path.len() ==> #[trigger] value_view(a, pi, path[i]) == value_view(a, pi, path[0])
                && value_view(a, pi, path[0]) is Some,
{
    lemma_chain_prefix(a, pi, path, edges, (path.len() - 1) as nat);
}

proof fn lemma_chain_prefix(a: &Assignment, pi: Seq<Vec<FieldValue>>, path: Seq<Cell>, edges: Seq<int>, j: nat)
    requires
        copies_failures(a, pi, a.copies@.len()) == Seq::<Failure>::empty(),
        is_chain(a.copies@, path, edges),
        1 <= j < path.len(),
    ensures
        value_view(a, pi, path[0]) is Some,
        forall|i: int| 0 <= i <= j ==> #[trigger] value_view(a, pi, path[i]) == value_view(a, pi, path[0]),
    decreases j,
{
    if j > 1 {
        lemma_chain_prefix(a, pi, path, edges, (j - 1) as nat);
    }
    let k = edges[j - 1];
    lemma_copies_clean_each(a, pi, a.copies@.len(), k as nat);
    lemma_copy_clean(a, pi, a.copies@[k]);
}

proof fn lemma_copy_clean(a: &Assignment, pi: Seq<Vec<FieldValue>>, p: (Cell, Cell))
    requires
        copy_failure(a, pi, p).len() == 0,
    ensures
        value_view(a, pi, p.0) is Some,
        value_view(a, pi, p.0) == value_view(a, pi, p.1),
{
    let u0 = crate::mock::unassigned(a, pi, p.0);
    let u1 = crate::mock::unassigned(a, pi, p.1);
    if cell_value(a, pi, p.0) is None {
        assert(u0.len() == 1);
    }
    if cell_value(a, pi, p.1) is None {
        assert(u1.len() == 1);
    }
}


/// With no bindings and no public inputs, no instance column reports on
/// its length.
proof fn lemma_no_bindings_lengths(a: &Assignment, pi: Seq<Vec<FieldValue>>, n: nat)
    requires
        a.bindings@.len() == 0,
        forall|i: int| 0 <= i < pi.len() ==> (#[trigger] pi[i])@.len() == 0,
    ensures
        lengths_failures(a, pi, n) == Seq::<Failure>::empty(),
    decreases n,
{
    if n > 0 {
        lemma_no_bindings_lengths(a, pi, (n - 1) as nat);
        let col = (n - 1) as usize;
        assert(distinct_rows(a.bindings@, col).len() == 0);
        if col < pi.len() {
            assert(pi[col as int]@.len() == 0);
        }
        assert(input_len(pi, col) == 0);
        assert(length_failure(a, pi, col) =~= Seq::<Failure>::empty());
        assert(lengths_failures(a, pi, n) =~= Seq::<Failure>::empty());
    }
}

/// What any part of the report holds, the whole report holds.
proof fn lemma_failures_parts(cs: &ConstraintSystem, a: &Assignment, pi: Seq<Vec<FieldValue>>, f: Failure)
    ensures
        gates_failures(cs, a, pi, cs.gates@.len()).contains(f) ==> failures(cs, a, pi).contains(f),
        bindings_failures(a, pi, a.bindings@.len()).contains(f) ==> failures(cs, a, pi).contains(f),
        copies_failures(a, pi, a.copies@.len()).contains(f) ==> failures(cs, a, pi).contains(f),
        lengths_failures(a, pi, cs.num_instance as nat).contains(f) ==> failures(cs, a, pi).contains(f),
{
    let g = gates_failures(cs, a, pi, cs.gates@.len());
    let b = bindings_failures(a, pi, a.bindings@.len());
    let c = copies_failures(a, pi, a.copies@.len());
    let l = lengths_failures(a, pi, cs.num_instance as nat);
    lemma_add_contains(g, b, f);
    lemma_add_contains(g + b, c, f);
    lemma_add_contains(g + b + c, l, f);
}

proof fn lemma_lengths_contains(a: &Assignment, pi: Seq<Vec<FieldValue>>, n: nat, col: nat, f: Failure)
    requires
        col < n,
        length_failure(a, pi, col as usize).contains(f),
    ensures
        lengths_failures(a, pi, n).contains(f),
    decreases n,
{
    if col < n - 1 {
        lemma_lengths_contains(a, pi, (n - 1) as nat, col, f);
    }
    lemma_add_contains(lengths_failures(a, pi, (n - 1) as nat), length_failure(a, pi, (n - 1) as usize), f);
}

/// An instance column whose number of public inputs differs from the
/// number of distinct rows bound in it is reported, so such inputs never
/// satisfy the circuit.
pub proof fn lemma_input_length_checked(cs: &ConstraintSystem, a: &Assignment, pi: Seq<Vec<FieldValue>>, col: usize)
    requires
        col < cs.num_instance,
        distinct_rows(a.bindings@, col).len() != input_len(pi, col),
    ensures
        failures(cs, a, pi).contains(
            Failure::InputLengthMismatch {
                instance: col,
                expected: distinct_rows(a.bindings@, col).len() as usize,
                found: input_len(pi, col) as usize,
            },
        ),
        failures(cs, a, pi).len() > 0,
{
    let f = Failure::InputLengthMismatch {
        instance: col,
        expected: distinct_rows(a.bindings@, col).len() as usize,
        found: input_len(pi, col) as usize,
    };
    assert(length_failure(a, pi, col)[0] == f);
    lemma_lengths_contains(a, pi, cs.num_instance as nat, col as nat, f);
    lemma_failures_parts(cs, a, pi, f);
}

/// A cell bound to a public input that holds no value is reported as
/// unassigned, whatever the public input; it is never read as zero.
pub proof fn lemma_unassigned_binding_reported(cs: &ConstraintSystem, a: &Assignment, pi: Seq<Vec<FieldValue>>, k: int)
    requires
        0 <= k < a.bindings@.len(),
        cell_value(a, pi, a.bindings@[k].cell) is None,
    ensures
        failures(cs, a, pi).contains(Failure::UnassignedCell { cell: a.bindings@[k].cell }),
{
    let b = a.bindings@[k];
    let f = Failure::UnassignedCell { cell: b.cell };
    let m = seq![Failure::InstanceMismatch { cell: b.cell, row: b.row }];
    assert(binding_failure(a, pi, b) =~= m + unassigned(a, pi, b.cell));
    assert(binding_failure(a, pi, b)[1] == f);
    lemma_bindings_contains(a, pi, a.bindings@.len(), k as nat, f);
    lemma_failures_parts(cs, a, pi, f);
}

/// What the conditional-select gate reports at `row`, read off the
/// cells: a violation where the selector is on and the output is not
/// `cond * thenval + (1 - cond) * elseval`.
pub open spec fn select_row_report(a: &Assignment, cfg: FunctionConfig, row: usize) -> Seq<Failure> {
    let v = |col: Column| a.value(Cell { column: col, row }).unwrap()@;
    if a.is_enabled(cfg.selector.index, row as int) && v(cfg.output) != select_value(
        v(cfg.cond),
        v(cfg.thenval),
        v(cfg.elseval),
    ) {
        seq![Failure::GateViolation { gate: 0, row, constraint: 0 }]
    } else {
        Seq::empty()
    }
}

/// The reports of the first `n` rows, in row order.
pub open spec fn select_rows_report(a: &Assignment, cfg: FunctionConfig, n: nat) -> Seq<Failure>
    decreases n,
{
    if n == 0 {
        Seq::empty()
    } else {
        select_rows_report(a, cfg, (n - 1) as nat) + select_row_report(a, cfg, (n - 1) as usize)
    }
}

/// Every row where the selector is on holds all four cells.
pub open spec fn select_rows_filled(a: &Assignment, cfg: FunctionConfig) -> bool {
    &&& cfg.cond.kind == ColumnKind::Advice && cfg.thenval.kind == ColumnKind::Advice
    &&& cfg.elseval.kind == ColumnKind::Advice && cfg.output.kind == ColumnKind::Advice
    &&& forall|r: int|
        0 <= r < a.num_rows && #[trigger] a.is_enabled(cfg.selector.index, r) ==> {
            &&& a.value(Cell { column: cfg.cond, row: r as usize }) is Some
            &&& a.value(Cell { column: cfg.thenval, row: r as usize }) is Some
            &&& a.value(Cell { column: cfg.elseval, row: r as usize }) is Some
            &&& a.value(Cell { column: cfg.output, row: r as usize }) is Some
        }
}

proof fn lemma_select_rows(a: &Assignment, pi: Seq<Vec<FieldValue>>, cfg: FunctionConfig, g: Gate, n: nat)
    requires
        is_select_gate(g, cfg),
        a.wf(),
        select_rows_filled(a, cfg),
        n <= a.num_rows,
    ensures
        rows_failures(a, pi, g, 0, n) == select_rows_report(a, cfg, n),
    decreases n,
{
    if n > 0 {
        lemma_select_rows(a, pi, cfg, g, (n - 1) as nat);
        let row = (n - 1) as usize;
        if a.is_enabled(cfg.selector.index, row as int) {
            let c = a.value(Cell { column: cfg.cond, row }).unwrap();
            let t = a.value(Cell { column: cfg.thenval, row }).unwrap();
            let e = a.value(Cell { column: cfg.elseval, row }).unwrap();
            let o = a.value(Cell { column: cfg.output, row }).unwrap();
            lemma_lookup_wf(a.cells@, Cell { column: cfg.cond, row });
            lemma_lookup_wf(a.cells@, Cell { column: cfg.thenval, row });
            lemma_lookup_wf(a.cells@, Cell { column: cfg.elseval, row });
            lemma_lookup_wf(a.cells@, Cell { column: cfg.output, row });
            lemma_select_gate_row(a, pi, cfg, g, 0, row, c, t, e, o);
        }
    }
}

/// A grid whose only gate is the conditional select, with no bindings,
/// equality constraints or public inputs, reports exactly one violation
/// for each row where the selector is on and the output is wrong, in row
/// order, and nothing else.
pub proof fn lemma_select_grid(cs: &ConstraintSystem, a: &Assignment, pi: Seq<Vec<FieldValue>>, cfg: FunctionConfig)
    requires
        cs.gates@.len() == 1,
        is_select_gate(cs.gates@[0], cfg),
        a.wf(),
        select_rows_filled(a, cfg),
        a.bindings@.len() == 0,
        a.copies@.len() == 0,
        forall|i: int| 0 <= i < pi.len() ==> (#[trigger] pi[i])@.len() == 0,
    ensures
        failures(cs, a, pi) == select_rows_report(a, cfg, a.num_rows as nat),
{
    let g = cs.gates@[0];
    lemma_select_rows(a, pi, cfg, g, a.num_rows as nat);
    assert(gates_failures(cs, a, pi, 0) == Seq::<Failure>::empty());
    assert(gates_failures(cs, a, pi, 1) =~= rows_failures(a, pi, g, 0, a.num_rows as nat));
    lemma_no_bindings_lengths(a, pi, cs.num_instance as nat);
    assert(failures(cs, a, pi) =~= gates_failures(cs, a, pi, 1));
}

/// Where every row with the selector on holds a correct output but one,
/// `row`, the report is one violation at that row.
pub proof fn lemma_select_one_wrong_row(a: &Assignment, cfg: FunctionConfig, row: usize, n: nat)
    requires
        row < n,
        n <= a.num_rows,
        select_row_report(a, cfg, row) != Seq::<Failure>::empty(),
        forall|r: int| 0 <= r < a.num_rows && r != row ==> #[trigger] select_row_report(a, cfg, r as usize)
            == Seq::<Failure>::empty(),
    ensures
        select_rows_report(a, cfg, n) == seq![Failure::GateViolation { gate: 0, row, constraint: 0 }],
    decreases n,
{
    if n - 1 > row {
        lemma_select_one_wrong_row(a, cfg, row, (n - 1) as nat);
        assert(select_row_report(a, cfg, (n - 1) as usize) == Seq::<Failure>::empty());
        assert(select_rows_report(a, cfg, n) =~= select_rows_report(a, cfg, (n - 1) as nat));
    } else {
        lemma_select_rows_clean(a, cfg, row, row as nat);
        assert(select_rows_report(a, cfg, n) =~= select_row_report(a, cfg, row));
    }
}

proof fn lemma_select_rows_clean(a: &Assignment, cfg: FunctionConfig, row: usize, n: nat)
    requires
        n <= row < a.num_rows,
        forall|r: int| 0 <= r < a.num_rows && r != row ==> #[trigger] select_row_report(a, cfg, r as usize)
            == Seq::<Failure>::empty(),
    ensures
        select_rows_report(a, cfg, n) == Seq::<Failure>::empty(),
    decreases n,
{
    if n > 0 {
        lemma_select_rows_clean(a, cfg, row, (n - 1) as nat);
        assert(select_row_report(a, cfg, (n - 1) as usize) == Seq::<Failure>::empty());
        assert(select_rows_report(a, cfg, n) =~= Seq::<Failure>::empty());
    }
}

} // verus!
