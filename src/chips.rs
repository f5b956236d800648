use crate::assign::{input_at, lemma_lookup_push, lemma_stored_lookup, Assignment, Binding};
use crate::circuit::{Cell, Column, ColumnKind, ConstraintSystem, Error, Expression, Gate, lemma_gate_ok_frame};
use crate::field::FieldValue;
use vstd::prelude::*;

verus! {

/// Columns of the conditional-select circuit.
#[derive(Clone, Copy, Debug, PartialEq, Eq, Structural)]
pub struct FunctionConfig {
    pub selector: Column,
    pub cond: Column,
    pub thenval: Column,
    pub elseval: Column,
    pub output: Column,
    pub instance: Column,
}

/// `s * (cond * thenval + (one - cond) * elseval - output)`, all read at
/// the evaluation row.
pub open spec fn select_poly(cfg: FunctionConfig, one: FieldValue) -> Expression {
    let cur = |c: Column| Expression::ColumnQuery { column: c, rotation: 0 };
    Expression::Mul(
        Box::new(Expression::SelectorQuery(cfg.selector.index)),
        Box::new(
            Expression::Sub(
                Box::new(
                    Expression::Add(
                        Box::new(Expression::Mul(Box::new(cur(cfg.cond)), Box::new(cur(cfg.thenval)))),
                        Box::new(
                            Expression::Mul(
                                Box::new(
                                    Expression::Sub(
                                        Box::new(Expression::Constant(one)),
                                        Box::new(cur(cfg.cond)),
                                    ),
                                ),
                                Box::new(cur(cfg.elseval)),
                            ),
                        ),
                    ),
                ),
                Box::new(cur(cfg.output)),
            ),
        ),
    )
}

/// The columns are fresh ones of the right kinds, allocated in `cs`.
pub open spec fn function_config_ok(cfg: FunctionConfig, cs: &ConstraintSystem) -> bool {
    &&& cfg.selector.kind == ColumnKind::Selector && cs.allocated(cfg.selector)
    &&& cfg.cond.kind == ColumnKind::Advice && cs.allocated(cfg.cond)
    &&& cfg.thenval.kind == ColumnKind::Advice && cs.allocated(cfg.thenval)
    &&& cfg.elseval.kind == ColumnKind::Advice && cs.allocated(cfg.elseval)
    &&& cfg.output.kind == ColumnKind::Advice && cs.allocated(cfg.output)
    &&& cfg.instance.kind == ColumnKind::Instance && cs.allocated(cfg.instance)
    &&& cfg.cond.index != cfg.thenval.index && cfg.cond.index != cfg.elseval.index
    &&& cfg.cond.index != cfg.output.index && cfg.thenval.index != cfg.elseval.index
    &&& cfg.thenval.index != cfg.output.index && cfg.elseval.index != cfg.output.index
}

/// The first check that laying out a conditional select at the first
/// free row fails: the row is off the grid, or one of its four cells
/// already holds a value.
pub open spec fn select_assign_error(a: Assignment, cfg: FunctionConfig) -> Option<Error> {
    let row = a.next_row;
    if row >= a.num_rows {
        Some(Error::RowOutOfBounds(0))
    } else if a.value(Cell { column: cfg.cond, row }) is Some {
        Some(Error::DuplicateAssignment(Cell { column: cfg.cond, row }))
    } else if a.value(Cell { column: cfg.thenval, row }) is Some {
        Some(Error::DuplicateAssignment(Cell { column: cfg.thenval, row }))
    } else if a.value(Cell { column: cfg.elseval, row }) is Some {
        Some(Error::DuplicateAssignment(Cell { column: cfg.elseval, row }))
    } else if a.value(Cell { column: cfg.output, row }) is Some {
        Some(Error::DuplicateAssignment(Cell { column: cfg.output, row }))
    } else {
        None
    }
}

/// `b` is `a` with one conditional select laid out at its first free row.
pub open spec fn select_assigned(
    a: Assignment,
    b: Assignment,
    cfg: FunctionConfig,
    cond: FieldValue,
    thenval: FieldValue,
    elseval: FieldValue,
) -> bool {
    let row = a.next_row;
    let out = if cond@ == 1 {
        thenval
    } else {
        elseval
    };
    &&& b == (Assignment {
        cells: b.cells,
        enabled: b.enabled,
        next_row: (row + 1) as usize,
        ..a
    })
    &&& b.cells@ == a.cells@ + seq![
        (Cell { column: cfg.cond, row }, cond),
        (Cell { column: cfg.thenval, row }, thenval),
        (Cell { column: cfg.elseval, row }, elseval),
        (Cell { column: cfg.output, row }, out),
    ]
    &&& b.enabled@ == a.enabled@.push((cfg.selector.index, row))
}

/// A chip that lays out one conditional select per region.
#[derive(Clone, Copy, Debug)]
pub struct FunctionChip {
    pub config: FunctionConfig,
}

impl FunctionChip {
    pub fn construct(config: FunctionConfig) -> (r: FunctionChip)
        ensures
            r.config == config,
    {
        FunctionChip { config }
    }

    /// Allocates a selector, four advice columns and an instance column,
    /// and appends the conditional-select gate over them.
    pub fn configure(cs: &mut ConstraintSystem) -> (cfg: FunctionConfig)
        requires
            old(cs).wf(),
            old(cs).num_advice + 4 <= usize::MAX,
            old(cs).num_instance < usize::MAX,
            old(cs).num_selectors < usize::MAX,
        ensures
            final(cs).wf(),
            cfg == (FunctionConfig {
                selector: Column { kind: ColumnKind::Selector, index: old(cs).num_selectors },
                cond: Column { kind: ColumnKind::Advice, index: old(cs).num_advice },
                thenval: Column { kind: ColumnKind::Advice, index: (old(cs).num_advice + 1) as usize },
                elseval: Column { kind: ColumnKind::Advice, index: (old(cs).num_advice + 2) as usize },
                output: Column { kind: ColumnKind::Advice, index: (old(cs).num_advice + 3) as usize },
                instance: Column { kind: ColumnKind::Instance, index: old(cs).num_instance },
            }),
            function_config_ok(cfg, final(cs)),
            final(cs).num_advice == old(cs).num_advice + 4,
            final(cs).num_fixed == old(cs).num_fixed,
            final(cs).num_instance == old(cs).num_instance + 1,
            final(cs).num_selectors == old(cs).num_selectors + 1,
            final(cs).equality@ == old(cs).equality@,
            final(cs).constants@ == old(cs).constants@,
            final(cs).gates@.len() == old(cs).gates@.len() + 1,
            final(cs).gates@.drop_last() == old(cs).gates@,
            final(cs).gates@.last().selector == cfg.selector.index,
            exists|one: FieldValue|
                one@ == 1 && #[trigger] final(cs).gates@.last().polys@ == seq![select_poly(cfg, one)],
    {
        let selector = cs.selector();
        let cond = cs.advice_column();
        let thenval = cs.advice_column();
        let elseval = cs.advice_column();
        let output = cs.advice_column();
        let instance = cs.instance_column();
        let cfg = FunctionConfig { selector, cond, thenval, elseval, output, instance };
        let one = FieldValue::one();
        let s = cs.query_selector(selector);
        let poly = Expression::Mul(
            Box::new(s),
            Box::new(
                Expression::Sub(
                    Box::new(
                        Expression::Add(
                            Box::new(
                                Expression::Mul(
                                    Box::new(cs.query_advice(cond, 0)),
                                    Box::new(cs.query_advice(thenval, 0)),
                                ),
                            ),
                            Box::new(
                                Expression::Mul(
                                    Box::new(
                                        Expression::Sub(
                                            Box::new(Expression::Constant(one)),
                                            Box::new(cs.query_advice(cond, 0)),
                                        ),
                                    ),
                                    Box::new(cs.query_advice(elseval, 0)),
                                ),
                            ),
                        ),
                    ),
                    Box::new(cs.query_advice(output, 0)),
                ),
            ),
        );
        proof {
            assert(poly == select_poly(cfg, one));
            reveal_with_fuel(ConstraintSystem::expr_ok, 6);
            assert(cs.expr_ok(poly));
            assert forall|i: int| 0 <= i < cs.gates@.len() implies cs.gate_ok(#[trigger] cs.gates@[i]) by {
                lemma_gate_ok_frame(*old(cs), *cs, cs.gates@[i]);
            }
        }
        let ghost mid = *cs;
        let polys = vec![poly];
        let r = cs.create_gate(String::from_str("conditional select"), selector, polys);
        proof {
            assert(r is Ok);
            assert(cs.gates@.drop_last() =~= mid.gates@);
            assert(cs.gates@.last().polys@ == seq![select_poly(cfg, one)]);
        }
        cfg
    }

    /// Lays out one conditional select in a region at the first free row:
    /// turns the selector on, stores the three inputs and the output,
    /// which is `thenval` where `cond` is one and `elseval` otherwise.
    /// Returns the output cell. Everything is checked before anything is
    /// written, so on an error the grid is unchanged.
    pub fn assign(
        &self,
        cs: &ConstraintSystem,
        a: &mut Assignment,
        cond: FieldValue,
        thenval: FieldValue,
        elseval: FieldValue,
    ) -> (r: Result<Cell, Error>)
        requires
            function_config_ok(self.config, cs),
            old(a).wf(),
            cond.wf(),
            thenval.wf(),
            elseval.wf(),
        ensures
            final(a).wf(),
            select_assign_error(*old(a), self.config) matches Some(err) ==> r == Err::<Cell, Error>(err)
                && *final(a) == *old(a),
            select_assign_error(*old(a), self.config) is None ==> r == Ok::<Cell, Error>(
                Cell { column: self.config.output, row: old(a).next_row },
            ) && select_assigned(*old(a), *final(a), self.config, cond, thenval, elseval),
    {
        let ghost a0 = *a;
        let cfg = self.config;
        let row = a.next_row;
        if row >= a.num_rows {
            return Err(Error::RowOutOfBounds(0));
        }
        let c = Cell { column: cfg.cond, row };
        let t = Cell { column: cfg.thenval, row };
        let e = Cell { column: cfg.elseval, row };
        let o = Cell { column: cfg.output, row };
        if a.value_of(c).is_some() {
            return Err(Error::DuplicateAssignment(c));
        }
        if a.value_of(t).is_some() {
            return Err(Error::DuplicateAssignment(t));
        }
        if a.value_of(e).is_some() {
            return Err(Error::DuplicateAssignment(e));
        }
        if a.value_of(o).is_some() {
            return Err(Error::DuplicateAssignment(o));
        }
        let mut region = a.open_region();
        a.enable_selector(cs, &mut region, cfg.selector, 0)?;
        let ghost s0 = a.cells@;
        let cc = a.assign_advice(cs, &mut region, cfg.cond, 0, Some(cond))?;
        proof {
            lemma_lookup_push(s0, c, cond, t);
            lemma_lookup_push(s0, c, cond, e);
            lemma_lookup_push(s0, c, cond, o);
        }
        let ghost s1 = a.cells@;
        let tc = a.assign_advice(cs, &mut region, cfg.thenval, 0, Some(thenval))?;
        proof {
            lemma_lookup_push(s1, t, thenval, e);
            lemma_lookup_push(s1, t, thenval, o);
        }
        let ghost s2 = a.cells@;
        let ec = a.assign_advice(cs, &mut region, cfg.elseval, 0, Some(elseval))?;
        proof {
            lemma_lookup_push(s2, e, elseval, o);
        }
        let one = FieldValue::one();
        let output = if cond.equals(&one) {
            thenval
        } else {
            elseval
        };
        let oc = a.assign_advice(cs, &mut region, cfg.output, 0, Some(output))?;
        a.close_region(region);
        proof {
            assert(a.cells@ =~= a0.cells@ + seq![(c, cond), (t, thenval), (e, elseval), (o, output)]);
        }
        Ok(oc)
    }

    /// Binds `cell` to the public input at `row` of the chip's instance column.
    pub fn expose_public(&self, cs: &ConstraintSystem, a: &mut Assignment, cell: Cell, row: usize) -> (r:
        Result<(), Error>)
        ensures
            r == (if !cs.allocated(self.config.instance) {
                Err(Error::ColumnNotAllocated(self.config.instance))
            } else if self.config.instance.kind != ColumnKind::Instance {
                Err(Error::WrongColumnKind(self.config.instance))
            } else if !cs.equality_enabled(self.config.instance) {
                Err(Error::EqualityNotEnabled(self.config.instance))
            } else if !cs.equality_enabled(cell.column) {
                Err(Error::EqualityNotEnabled(cell.column))
            } else {
                Ok(())
            }),
            r is Err ==> *final(a) == *old(a),
            r is Ok ==> *final(a) == (Assignment { bindings: final(a).bindings, ..*old(a) })
                && final(a).bindings@ == old(a).bindings@.push(
                Binding { cell, instance: self.config.instance.index, row },
            ),
    {
        a.constrain_instance(cs, cell, self.config.instance, row)
    }
}

/// Columns of the chip that copies its inputs from the public inputs.
#[derive(Clone, Copy, Debug, PartialEq, Eq, Structural)]
pub struct IteConfig {
    pub oneval: Column,
    pub cond: Column,
    pub thenval: Column,
    pub elseval: Column,
    pub outval: Column,
    pub selector: Column,
    pub instance: Column,
}

/// The columns are allocated, of the right kinds, and the advice columns
/// are distinct.
pub open spec fn ite_config_ok(cfg: IteConfig, cs: &ConstraintSystem) -> bool {
    &&& cfg.oneval.kind == ColumnKind::Fixed && cs.allocated(cfg.oneval)
    &&& cfg.cond.kind == ColumnKind::Advice && cs.allocated(cfg.cond)
    &&& cfg.thenval.kind == ColumnKind::Advice && cs.allocated(cfg.thenval)
    &&& cfg.elseval.kind == ColumnKind::Advice && cs.allocated(cfg.elseval)
    &&& cfg.outval.kind == ColumnKind::Advice && cs.allocated(cfg.outval)
    &&& cfg.selector.kind == ColumnKind::Selector && cs.allocated(cfg.selector)
    &&& cfg.instance.kind == ColumnKind::Instance && cs.allocated(cfg.instance)
    &&& cfg.cond.index != cfg.thenval.index && cfg.cond.index != cfg.elseval.index
    &&& cfg.cond.index != cfg.outval.index && cfg.thenval.index != cfg.elseval.index
    &&& cfg.thenval.index != cfg.outval.index && cfg.elseval.index != cfg.outval.index
}

/// All columns but the fixed one and the selector are open to equality.
pub open spec fn ite_equality_ok(cfg: IteConfig, cs: &ConstraintSystem) -> bool {
    &&& cs.equality_enabled(cfg.cond) && cs.equality_enabled(cfg.thenval)
    &&& cs.equality_enabled(cfg.elseval) && cs.equality_enabled(cfg.outval)
    &&& cs.equality_enabled(cfg.instance)
}

/// The first check that laying out the chip's row at the first free row
/// fails, in the order the row is filled: the row is off the grid, a
/// copied column is not open to equality, or a cell already holds a value.
pub open spec fn ite_assign_error(a: Assignment, cs: &ConstraintSystem, cfg: IteConfig) -> Option<Error> {
    let row = a.next_row;
    if row >= a.num_rows {
        Some(Error::RowOutOfBounds(0))
    } else if !cs.equality_enabled(cfg.instance) {
        Some(Error::EqualityNotEnabled(cfg.instance))
    } else if !cs.equality_enabled(cfg.cond) {
        Some(Error::EqualityNotEnabled(cfg.cond))
    } else if a.value(Cell { column: cfg.cond, row }) is Some {
        Some(Error::DuplicateAssignment(Cell { column: cfg.cond, row }))
    } else if !cs.equality_enabled(cfg.thenval) {
        Some(Error::EqualityNotEnabled(cfg.thenval))
    } else if a.value(Cell { column: cfg.thenval, row }) is Some {
        Some(Error::DuplicateAssignment(Cell { column: cfg.thenval, row }))
    } else if !cs.equality_enabled(cfg.elseval) {
        Some(Error::EqualityNotEnabled(cfg.elseval))
    } else if a.value(Cell { column: cfg.elseval, row }) is Some {
        Some(Error::DuplicateAssignment(Cell { column: cfg.elseval, row }))
    } else if a.value(Cell { column: cfg.oneval, row }) is Some {
        Some(Error::DuplicateAssignment(Cell { column: cfg.oneval, row }))
    } else if a.value(Cell { column: cfg.outval, row }) is Some {
        Some(Error::DuplicateAssignment(Cell { column: cfg.outval, row }))
    } else {
        None
    }
}

/// The bindings the chip's row adds: its three copied cells to public
/// inputs 0, 1 and 2.
pub open spec fn ite_bindings(a: Assignment, cfg: IteConfig) -> Seq<Binding> {
    let row = a.next_row;
    let k = cfg.instance.index;
    seq![
        Binding { cell: Cell { column: cfg.cond, row }, instance: k, row: 0 },
        Binding { cell: Cell { column: cfg.thenval, row }, instance: k, row: 1 },
        Binding { cell: Cell { column: cfg.elseval, row }, instance: k, row: 2 },
    ]
}

/// `b` is `a` with the chip's row laid out at its first free row; the
/// bindings are stated apart.
pub open spec fn ite_assigned(a: Assignment, b: Assignment, cfg: IteConfig) -> bool {
    let row = a.next_row;
    let ins = a.instance@;
    let k = cfg.instance.index;
    let c = Cell { column: cfg.cond, row };
    let t = Cell { column: cfg.thenval, row };
    let e = Cell { column: cfg.elseval, row };
    let o = Cell { column: cfg.outval, row };
    let n = Cell { column: cfg.oneval, row };
    &&& b.wf()
    &&& b.value(c) == input_at(ins, k, 0)
    &&& b.value(t) == input_at(ins, k, 1)
    &&& b.value(e) == input_at(ins, k, 2)
    &&& b.value(o) == input_at(ins, k, 2)
    &&& b.value(n) matches Some(v) && v@ == 1
    &&& forall|d: Cell|
        d != c && d != t && d != e && d != o && d != n ==> #[trigger] b.value(d) == a.value(d)
    &&& b.enabled@ == a.enabled@.push((cfg.selector.index, row))
    &&& b.copies@ == a.copies@
    &&& b.instance@ == ins
    &&& b.num_rows == a.num_rows
    &&& b.next_row == row + 1
}

/// A chip that copies `cond`, `thenval` and `elseval` from the first three
/// public inputs and stores `elseval` as its output; it adds no gate.
#[derive(Clone, Copy, Debug)]
pub struct IteChip {
    pub config: IteConfig,
}

impl IteChip {
    pub fn construct(config: IteConfig) -> (r: IteChip)
        ensures
            r.config == config,
    {
        IteChip { config }
    }

    /// Allocates a fixed column for constants, four advice columns, a
    /// selector and an instance column, and opens all but the selector to
    /// equality.
    pub fn configure(cs: &mut ConstraintSystem) -> (cfg: IteConfig)
        requires
            old(cs).wf(),
            old(cs).num_advice + 4 <= usize::MAX,
            old(cs).num_fixed < usize::MAX,
            old(cs).num_instance < usize::MAX,
            old(cs).num_selectors < usize::MAX,
        ensures
            final(cs).wf(),
            cfg == (IteConfig {
                oneval: Column { kind: ColumnKind::Fixed, index: old(cs).num_fixed },
                cond: Column { kind: ColumnKind::Advice, index: old(cs).num_advice },
                thenval: Column { kind: ColumnKind::Advice, index: (old(cs).num_advice + 1) as usize },
                elseval: Column { kind: ColumnKind::Advice, index: (old(cs).num_advice + 2) as usize },
                outval: Column { kind: ColumnKind::Advice, index: (old(cs).num_advice + 3) as usize },
                selector: Column { kind: ColumnKind::Selector, index: old(cs).num_selectors },
                instance: Column { kind: ColumnKind::Instance, index: old(cs).num_instance },
            }),
            ite_config_ok(cfg, final(cs)),
            ite_equality_ok(cfg, final(cs)),
            final(cs).constants@.contains(cfg.oneval),
            final(cs).num_advice == old(cs).num_advice + 4,
            final(cs).num_fixed == old(cs).num_fixed + 1,
            final(cs).num_instance == old(cs).num_instance + 1,
            final(cs).num_selectors == old(cs).num_selectors + 1,
            final(cs).gates@ == old(cs).gates@,
    {
        let oneval = cs.fixed_column();
        let cond = cs.advice_column();
        let thenval = cs.advice_column();
        let elseval = cs.advice_column();
        let outval = cs.advice_column();
        let selector = cs.selector();
        let instance = cs.instance_column();
        proof {
            assert forall|i: int| 0 <= i < cs.gates@.len() implies cs.gate_ok(#[trigger] cs.gates@[i]) by {
                lemma_gate_ok_frame(*old(cs), *cs, cs.gates@[i]);
            }
        }
        let ghost mid = *cs;
        let r0 = cs.enable_constant(oneval);
        let r1 = cs.enable_equality(cond);
        let r2 = cs.enable_equality(thenval);
        let r3 = cs.enable_equality(elseval);
        let r4 = cs.enable_equality(outval);
        let r5 = cs.enable_equality(instance);
        proof {
            assert(r0 is Ok && r1 is Ok && r2 is Ok && r3 is Ok && r4 is Ok && r5 is Ok);
            assert forall|i: int| 0 <= i < cs.gates@.len() implies cs.gate_ok(#[trigger] cs.gates@[i]) by {
                lemma_gate_ok_frame(mid, *cs, cs.gates@[i]);
            }
        }
        IteConfig { oneval, cond, thenval, elseval, outval, selector, instance }
    }

    /// Lays out one row at the first free row of the grid: turns the
    /// selector on, copies public inputs 0, 1 and 2 into `cond`, `thenval`
    /// and `elseval`, stores one in the fixed column, and stores the value
    /// of the `elseval` cell as the output. Returns the output cell.
    /// Everything is checked before anything is written, so on an error the
    /// grid is unchanged.
    pub fn assign(&self, cs: &ConstraintSystem, a: &mut Assignment) -> (r: Result<Cell, Error>)
        requires
            ite_config_ok(self.config, cs),
            old(a).wf(),
        ensures
            final(a).wf(),
            ite_assign_error(*old(a), cs, self.config) matches Some(err) ==> r == Err::<Cell, Error>(err)
                && *final(a) == *old(a),
            ite_assign_error(*old(a), cs, self.config) is None ==> r == Ok::<Cell, Error>(
                Cell { column: self.config.outval, row: old(a).next_row },
            ) && ite_assigned(*old(a), *final(a), self.config) && final(a).bindings@ == old(a).bindings@
                + ite_bindings(*old(a), self.config),
    {
        let ghost a0 = *a;
        let cfg = self.config;
        let row = a.next_row;
        if row >= a.num_rows {
            return Err(Error::RowOutOfBounds(0));
        }
        if !cs.is_equality_enabled(cfg.instance) {
            return Err(Error::EqualityNotEnabled(cfg.instance));
        }
        if !cs.is_equality_enabled(cfg.cond) {
            return Err(Error::EqualityNotEnabled(cfg.cond));
        }
        if a.value_of(Cell { column: cfg.cond, row }).is_some() {
            return Err(Error::DuplicateAssignment(Cell { column: cfg.cond, row }));
        }
        if !cs.is_equality_enabled(cfg.thenval) {
            return Err(Error::EqualityNotEnabled(cfg.thenval));
        }
        if a.value_of(Cell { column: cfg.thenval, row }).is_some() {
            return Err(Error::DuplicateAssignment(Cell { column: cfg.thenval, row }));
        }
        if !cs.is_equality_enabled(cfg.elseval) {
            return Err(Error::EqualityNotEnabled(cfg.elseval));
        }
        if a.value_of(Cell { column: cfg.elseval, row }).is_some() {
            return Err(Error::DuplicateAssignment(Cell { column: cfg.elseval, row }));
        }
        if a.value_of(Cell { column: cfg.oneval, row }).is_some() {
            return Err(Error::DuplicateAssignment(Cell { column: cfg.oneval, row }));
        }
        if a.value_of(Cell { column: cfg.outval, row }).is_some() {
            return Err(Error::DuplicateAssignment(Cell { column: cfg.outval, row }));
        }
        let mut region = a.open_region();
        a.enable_selector(cs, &mut region, cfg.selector, 0)?;
        let ghost s0 = a.cells@;
        let cc = a.assign_advice_from_instance(cs, &mut region, cfg.instance, 0, cfg.cond, 0)?;
        proof {
            lemma_stored_lookup(s0, cc, input_at(a0.instance@, cfg.instance.index, 0));
        }
        let ghost s1 = a.cells@;
        let tc = a.assign_advice_from_instance(cs, &mut region, cfg.instance, 1, cfg.thenval, 0)?;
        proof {
            lemma_stored_lookup(s1, tc, input_at(a0.instance@, cfg.instance.index, 1));
        }
        let ghost s2 = a.cells@;
        let ec = a.assign_advice_from_instance(cs, &mut region, cfg.instance, 2, cfg.elseval, 0)?;
        proof {
            lemma_stored_lookup(s2, ec, input_at(a0.instance@, cfg.instance.index, 2));
        }
        let ghost s3 = a.cells@;
        let one = FieldValue::one();
        let nc = a.assign_fixed(cs, &mut region, cfg.oneval, 0, one)?;
        proof {
            lemma_stored_lookup(s3, nc, Some(one));
        }
        let ghost s4 = a.cells@;
        let ev = a.value_of(ec);
        let oc = a.assign_advice(cs, &mut region, cfg.outval, 0, ev)?;
        proof {
            lemma_stored_lookup(s4, oc, ev);
        }
        a.close_region(region);
        Ok(oc)
    }

    /// Binds `cell` to the public input at `row` of the chip's instance column.
    pub fn expose_public(&self, cs: &ConstraintSystem, a: &mut Assignment, cell: Cell, row: usize) -> (r:
        Result<(), Error>)
        ensures
            r == (if !cs.allocated(self.config.instance) {
                Err(Error::ColumnNotAllocated(self.config.instance))
            } else if self.config.instance.kind != ColumnKind::Instance {
                Err(Error::WrongColumnKind(self.config.instance))
            } else if !cs.equality_enabled(self.config.instance) {
                Err(Error::EqualityNotEnabled(self.config.instance))
            } else if !cs.equality_enabled(cell.column) {
                Err(Error::EqualityNotEnabled(cell.column))
            } else {
                Ok(())
            }),
            r is Err ==> *final(a) == *old(a),
            r is Ok ==> *final(a) == (Assignment { bindings: final(a).bindings, ..*old(a) })
                && final(a).bindings@ == old(a).bindings@.push(
                Binding { cell, instance: self.config.instance.index, row },
            ),
    {
        a.constrain_instance(cs, cell, self.config.instance, row)
    }
}

/// `g` is the conditional-select gate of `cfg`.
pub open spec fn is_select_gate(g: Gate, cfg: FunctionConfig) -> bool {
    &&& g.selector == cfg.selector.index
    &&& exists|one: FieldValue| one@ == 1 && #[trigger] g.polys@ == seq![select_poly(cfg, one)]
}

/// A conditional select over one witness.
#[derive(Clone, Copy, Debug)]
pub struct FunctionCircuit {
    pub cond: FieldValue,
    pub thenval: FieldValue,
    pub elseval: FieldValue,
}

impl FunctionCircuit {
    /// The same circuit with every witness value zero.
    pub fn without_witnesses(&self) -> (r: FunctionCircuit)
        ensures
            r.cond@ == 0 && r.thenval@ == 0 && r.elseval@ == 0,
            r.cond.wf() && r.thenval.wf() && r.elseval.wf(),
    {
        FunctionCircuit { cond: FieldValue::zero(), thenval: FieldValue::zero(), elseval: FieldValue::zero() }
    }

    /// Configures the circuit exactly as `FunctionChip::configure` does.
    pub fn configure(cs: &mut ConstraintSystem) -> (cfg: FunctionConfig)
        requires
            old(cs).wf(),
            old(cs).num_advice + 4 <= usize::MAX,
            old(cs).num_instance < usize::MAX,
            old(cs).num_selectors < usize::MAX,
        ensures
            final(cs).wf(),
            cfg == (FunctionConfig {
                selector: Column { kind: ColumnKind::Selector, index: old(cs).num_selectors },
                cond: Column { kind: ColumnKind::Advice, index: old(cs).num_advice },
                thenval: Column { kind: ColumnKind::Advice, index: (old(cs).num_advice + 1) as usize },
                elseval: Column { kind: ColumnKind::Advice, index: (old(cs).num_advice + 2) as usize },
                output: Column { kind: ColumnKind::Advice, index: (old(cs).num_advice + 3) as usize },
                instance: Column { kind: ColumnKind::Instance, index: old(cs).num_instance },
            }),
            function_config_ok(cfg, final(cs)),
            final(cs).num_advice == old(cs).num_advice + 4,
            final(cs).num_fixed == old(cs).num_fixed,
            final(cs).num_instance == old(cs).num_instance + 1,
            final(cs).num_selectors == old(cs).num_selectors + 1,
            final(cs).equality@ == old(cs).equality@,
            final(cs).constants@ == old(cs).constants@,
            final(cs).gates@.len() == old(cs).gates@.len() + 1,
            final(cs).gates@.drop_last() == old(cs).gates@,
            final(cs).gates@.last().selector == cfg.selector.index,
            exists|one: FieldValue|
                one@ == 1 && #[trigger] final(cs).gates@.last().polys@ == seq![select_poly(cfg, one)],
    {
        FunctionChip::configure(cs)
    }

    /// Lays out the conditional select of the witness and binds its output
    /// to public input 0. Where laying out fails, the grid is unchanged;
    /// where binding fails, the grid holds the laid-out select.
    pub fn synthesize(&self, config: FunctionConfig, cs: &ConstraintSystem, a: &mut Assignment) -> (r:
        Result<(), Error>)
        requires
            function_config_ok(config, cs),
            old(a).wf(),
            self.cond.wf(),
            self.thenval.wf(),
            self.elseval.wf(),
        ensures
            final(a).wf(),
            select_assign_error(*old(a), config) matches Some(err) ==> r == Err::<(), Error>(err)
                && *final(a) == *old(a),
            ({
                let o = Cell { column: config.output, row: old(a).next_row };
                select_assign_error(*old(a), config) is None ==> {
                    &&& !cs.equality_enabled(config.instance) ==> r == Err::<(), Error>(
                        Error::EqualityNotEnabled(config.instance),
                    ) && select_assigned(*old(a), *final(a), config, self.cond, self.thenval, self.elseval)
                        && final(a).bindings@ == old(a).bindings@
                    &&& cs.equality_enabled(config.instance) && !cs.equality_enabled(config.output) ==> r
                        == Err::<(), Error>(Error::EqualityNotEnabled(config.output)) && select_assigned(
                        *old(a),
                        *final(a),
                        config,
                        self.cond,
                        self.thenval,
                        self.elseval,
                    ) && final(a).bindings@ == old(a).bindings@
                    &&& cs.equality_enabled(config.instance) && cs.equality_enabled(config.output) ==> r
                        == Ok::<(), Error>(()) && select_assigned(
                        *old(a),
                        Assignment { bindings: old(a).bindings, ..*final(a) },
                        config,
                        self.cond,
                        self.thenval,
                        self.elseval,
                    ) && final(a).bindings@ == old(a).bindings@.push(
                        Binding { cell: o, instance: config.instance.index, row: 0 },
                    )
                }
            }),
    {
        let chip = FunctionChip::construct(config);
        let c = chip.assign(cs, a, self.cond, self.thenval, self.elseval)?;
        chip.expose_public(cs, a, c, 0)?;
        Ok(())
    }
}

/// The circuit of `IteChip`, whose inputs are all public.
#[derive(Clone, Copy, Debug)]
pub struct MyCircuit;

impl MyCircuit {
    pub fn without_witnesses(&self) -> (r: MyCircuit) {
        MyCircuit
    }

    /// Configures the circuit exactly as `IteChip::configure` does.
    pub fn configure(cs: &mut ConstraintSystem) -> (cfg: IteConfig)
        requires
            old(cs).wf(),
            old(cs).num_advice + 4 <= usize::MAX,
            old(cs).num_fixed < usize::MAX,
            old(cs).num_instance < usize::MAX,
            old(cs).num_selectors < usize::MAX,
        ensures
            final(cs).wf(),
            cfg == (IteConfig {
                oneval: Column { kind: ColumnKind::Fixed, index: old(cs).num_fixed },
                cond: Column { kind: ColumnKind::Advice, index: old(cs).num_advice },
                thenval: Column { kind: ColumnKind::Advice, index: (old(cs).num_advice + 1) as usize },
                elseval: Column { kind: ColumnKind::Advice, index: (old(cs).num_advice + 2) as usize },
                outval: Column { kind: ColumnKind::Advice, index: (old(cs).num_advice + 3) as usize },
                selector: Column { kind: ColumnKind::Selector, index: old(cs).num_selectors },
                instance: Column { kind: ColumnKind::Instance, index: old(cs).num_instance },
            }),
            ite_config_ok(cfg, final(cs)),
            ite_equality_ok(cfg, final(cs)),
            final(cs).constants@.contains(cfg.oneval),
            final(cs).num_advice == old(cs).num_advice + 4,
            final(cs).num_fixed == old(cs).num_fixed + 1,
            final(cs).num_instance == old(cs).num_instance + 1,
            final(cs).num_selectors == old(cs).num_selectors + 1,
            final(cs).gates@ == old(cs).gates@,
    {
        IteChip::configure(cs)
    }

    /// Lays out the chip's row and binds its output to public input 0.
    /// Where laying out fails, the grid is unchanged; where binding fails,
    /// the grid holds the laid-out row.
    pub fn synthesize(&self, config: IteConfig, cs: &ConstraintSystem, a: &mut Assignment) -> (r: Result<(), Error>)
        requires
            ite_config_ok(config, cs),
            old(a).wf(),
        ensures
            final(a).wf(),
            ite_assign_error(*old(a), cs, config) matches Some(err) ==> r == Err::<(), Error>(err)
                && *final(a) == *old(a),
            ({
                let o = Cell { column: config.outval, row: old(a).next_row };
                ite_assign_error(*old(a), cs, config) is None ==> {
                    &&& ite_assigned(*old(a), *final(a), config)
                    &&& !cs.equality_enabled(config.outval) ==> r == Err::<(), Error>(
                        Error::EqualityNotEnabled(config.outval),
                    ) && final(a).bindings@ == old(a).bindings@ + ite_bindings(*old(a), config)
                    &&& cs.equality_enabled(config.outval) ==> r == Ok::<(), Error>(())
                        && final(a).bindings@ == (old(a).bindings@ + ite_bindings(*old(a), config)).push(
                        Binding { cell: o, instance: config.instance.index, row: 0 },
                    )
                }
            }),
    {
        let chip = IteChip::construct(config);
        let o = chip.assign(cs, a)?;
        let ghost mid = *a;
        let r = chip.expose_public(cs, a, o, 0);
        proof {
            assert(a.cells@ == mid.cells@);
            assert(forall|d: Cell| #[trigger] a.value(d) == mid.value(d));
            assert(ite_assigned(*old(a), *a, config));
        }
        r
    }
}

} // verus!
