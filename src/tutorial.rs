//! A small circuit on top of the constraint system: a generalized add/mul
//! gate `l*sl + r*sr + l*r*sm - o*so + sc = 0`, an instance-binding gate
//! `sp*(l - PI) = 0`, and a synthesis that computes `x^2 * y^2 + c`.
use vstd::prelude::*;
use vstd::arithmetic::power2::{pow2, lemma2_to64, lemma_pow2_strictly_increases};
use crate::field::{reduce, fmul, fadd, fneg, lemma_reduce_elem, lemma_field_identities, lemma_sub_zero};
use crate::field;
use crate::system::{Column, ColumnKind, ConstraintSystem, Expr, equality_enabled};
use crate::assignment::{Assignment, AssignError, Cell, Slot, slot_of, empty_grid};
use crate::checker::{verify, lemma_row_isolation, Failure, eval, query_value, cell_value, is_failure, satisfied, gate_fails};

verus! {

/// The columns of the circuit.
#[derive(Clone, Copy, PartialEq, Eq, Structural, Debug)]
pub struct TutorialConfig {
    pub l: Column,
    pub r: Column,
    pub o: Column,
    pub sl: Column,
    pub sr: Column,
    pub so: Column,
    pub sm: Column,
    pub sc: Column,
    pub sp: Column,
    pub pi: Column,
}

impl TutorialConfig {
    /// The advice and fixed columns exist in the table `a`, with the kinds
    /// their roles need, and no two of them are the same column.
    pub open spec fn fits(&self, a: &Assignment) -> bool {
        &&& self.l.kind == ColumnKind::Advice && a.in_table(self.l)
        &&& self.r.kind == ColumnKind::Advice && a.in_table(self.r)
        &&& self.o.kind == ColumnKind::Advice && a.in_table(self.o)
        &&& self.sl.kind == ColumnKind::Fixed && a.in_table(self.sl)
        &&& self.sr.kind == ColumnKind::Fixed && a.in_table(self.sr)
        &&& self.so.kind == ColumnKind::Fixed && a.in_table(self.so)
        &&& self.sm.kind == ColumnKind::Fixed && a.in_table(self.sm)
        &&& self.sc.kind == ColumnKind::Fixed && a.in_table(self.sc)
        &&& self.sp.kind == ColumnKind::Fixed && a.in_table(self.sp)
        &&& self.l != self.r && self.l != self.o && self.r != self.o
        &&& self.sl != self.sr && self.sl != self.so && self.sl != self.sm && self.sl != self.sc && self.sl != self.sp
        &&& self.sr != self.so && self.sr != self.sm && self.sr != self.sc && self.sr != self.sp
        &&& self.so != self.sm && self.so != self.sc && self.so != self.sp
        &&& self.sm != self.sc && self.sm != self.sp
        &&& self.sc != self.sp
    }
}

/// The shape that `configure` adds to a constraint system.
pub open spec fn configured(old_cs: &ConstraintSystem, cs: &ConstraintSystem, c: TutorialConfig) -> bool {
    let (na, nf, ni) = (old_cs.num_advice, old_cs.num_fixed, old_cs.num_instance);
    &&& cs.num_advice == na + 3
    &&& cs.num_fixed == nf + 6
    &&& cs.num_instance == ni + 1
    &&& cs.gates@.len() == old_cs.gates@.len() + 2
    &&& forall|i: int| 0 <= i < old_cs.gates@.len() ==> #[trigger] cs.gates@[i] == old_cs.gates@[i]
    &&& cs.gates@[old_cs.gates@.len() as int].name@ == "mimi plonk"@
    &&& cs.gates@[old_cs.gates@.len() + 1int].name@ == "public input"@
    &&& cs.gates@[old_cs.gates@.len() as int].polys@ == seq![arithmetic_expr(c)]
    &&& cs.gates@[old_cs.gates@.len() + 1int].polys@ == seq![instance_expr(c)]
    &&& c == (TutorialConfig {
        l: Column { kind: ColumnKind::Advice, index: na },
        r: Column { kind: ColumnKind::Advice, index: (na + 1) as usize },
        o: Column { kind: ColumnKind::Advice, index: (na + 2) as usize },
        sm: Column { kind: ColumnKind::Fixed, index: nf },
        sl: Column { kind: ColumnKind::Fixed, index: (nf + 1) as usize },
        sr: Column { kind: ColumnKind::Fixed, index: (nf + 2) as usize },
        so: Column { kind: ColumnKind::Fixed, index: (nf + 3) as usize },
        sc: Column { kind: ColumnKind::Fixed, index: (nf + 4) as usize },
        sp: Column { kind: ColumnKind::Fixed, index: (nf + 5) as usize },
        pi: Column { kind: ColumnKind::Instance, index: ni },
    })
    &&& cs.equality@ == old_cs.equality@ + seq![c.l, c.r, c.o, c.pi]
}

pub open spec fn q(c: Column) -> Expr {
    Expr::Query(c, 0)
}

pub open spec fn times(x: Expr, y: Expr) -> Expr {
    Expr::Product(Box::new(x), Box::new(y))
}

pub open spec fn plus(x: Expr, y: Expr) -> Expr {
    Expr::Sum(Box::new(x), Box::new(y))
}

pub open spec fn minus(x: Expr, y: Expr) -> Expr {
    Expr::Sum(Box::new(x), Box::new(Expr::Negated(Box::new(y))))
}

/// `l*sl + r*sr + l*r*sm - o*so + sc`, every query at the current row.
pub open spec fn arithmetic_expr(c: TutorialConfig) -> Expr {
    plus(
        minus(
            plus(plus(times(q(c.l), q(c.sl)), times(q(c.r), q(c.sr))), times(times(q(c.l), q(c.r)), q(c.sm))),
            times(q(c.o), q(c.so)),
        ),
        q(c.sc),
    )
}

/// `sp*(l - PI)`, every query at the current row.
pub open spec fn instance_expr(c: TutorialConfig) -> Expr {
    times(q(c.sp), minus(q(c.l), q(c.pi)))
}

fn cur(c: Column) -> (e: Expr)
    ensures
        e == Expr::Query(c, 0),
{
    Expr::query(c, 0)
}

/// The generalized add/mul identity `l*sl + r*sr + l*r*sm - o*so + sc`.
fn arithmetic_poly(c: &TutorialConfig) -> (e: Expr)
    ensures
        e == arithmetic_expr(*c),
{
    let lsl = cur(c.l).mul(cur(c.sl));
    let rsr = cur(c.r).mul(cur(c.sr));
    let lrsm = cur(c.l).mul(cur(c.r)).mul(cur(c.sm));
    let oso = cur(c.o).mul(cur(c.so));
    lsl.add(rsr).add(lrsm).sub(oso).add(cur(c.sc))
}

/// The instance-binding identity `sp*(l - PI)`.
fn instance_poly(c: &TutorialConfig) -> (e: Expr)
    ensures
        e == instance_expr(*c),
{
    cur(c.sp).mul(cur(c.l).sub(cur(c.pi)))
}

/// The circuit's witness, `x` and `y`, and its constant.
#[derive(Clone, Copy, PartialEq, Eq, Structural, Debug)]
pub struct TutorialCircuit {
    pub x: Option<u64>,
    pub y: Option<u64>,
    pub constant: u64,
}

impl TutorialCircuit {
    /// The same circuit with its witness values unknown.
    pub fn without_witnesses(&self) -> (r: TutorialCircuit)
        ensures
            r.x is None,
            r.y is None,
            r.constant == 0,
    {
        TutorialCircuit { x: None, y: None, constant: 0 }
    }

    /// Allocates the circuit's columns, enables equality on `l`, `r`, `o` and
    /// the instance column, and creates its two gates. The result depends on
    /// nothing but the columns already in `meta`.
    pub fn configure(meta: &mut ConstraintSystem) -> (r: TutorialConfig)
        requires
            old(meta).num_advice + 3 < usize::MAX,
            old(meta).num_fixed + 6 < usize::MAX,
            old(meta).num_instance + 1 < usize::MAX,
        ensures
            configured(old(meta), final(meta), r),
    {
        let l = meta.advice_column().unwrap();
        let r = meta.advice_column().unwrap();
        let o = meta.advice_column().unwrap();
        meta.enable_equality(l).unwrap();
        meta.enable_equality(r).unwrap();
        meta.enable_equality(o).unwrap();
        let sm = meta.fixed_column().unwrap();
        let sl = meta.fixed_column().unwrap();
        let sr = meta.fixed_column().unwrap();
        let so = meta.fixed_column().unwrap();
        let sc = meta.fixed_column().unwrap();
        let sp = meta.fixed_column().unwrap();
        let pi = meta.instance_column().unwrap();
        meta.enable_equality(pi).unwrap();
        let config = TutorialConfig { l, r, o, sl, sr, so, sm, sc, sp, pi };
        proof {
            reveal_strlit("mimi plonk");
            reveal_strlit("public input");
        }
        let arith = vec![arithmetic_poly(&config)];
        let inst = vec![instance_poly(&config)];
        assert(arith@ =~= seq![arithmetic_expr(config)]);
        assert(inst@ =~= seq![instance_expr(config)]);
        meta.create_gate(String::from_str("mimi plonk"), arith);
        meta.create_gate(String::from_str("public input"), inst);
        assert(meta.equality@ =~= old(meta).equality@ + seq![l, r, o, pi]);
        config
    }
}

/// `configure` depends on nothing but the shape of the system it starts
/// from: two runs from systems with the same column counts and gate count
/// give the same columns, the same column counts and the same gate count.
pub proof fn lemma_configure_deterministic(
    base1: &ConstraintSystem,
    cs1: &ConstraintSystem,
    c1: TutorialConfig,
    base2: &ConstraintSystem,
    cs2: &ConstraintSystem,
    c2: TutorialConfig,
)
    requires
        configured(base1, cs1, c1),
        configured(base2, cs2, c2),
        base1.num_advice == base2.num_advice,
        base1.num_fixed == base2.num_fixed,
        base1.num_instance == base2.num_instance,
        base1.gates@.len() == base2.gates@.len(),
    ensures
        c1 == c2,
        cs1.num_advice == cs2.num_advice,
        cs1.num_fixed == cs2.num_fixed,
        cs1.num_instance == cs2.num_instance,
        cs1.gates@.len() == cs2.gates@.len(),
{
}

/// Both gates that `configure` creates read only the row under evaluation,
/// so each holds or fails at a row alike in two tables that agree at that
/// row, whatever the tables hold at other rows.
pub proof fn lemma_example_row_isolation(
    base: &ConstraintSystem,
    cs: &ConstraintSystem,
    c: TutorialConfig,
    a1: &Assignment,
    a2: &Assignment,
    pi: Seq<Vec<u64>>,
    gate: usize,
    row: usize,
)
    requires
        configured(base, cs, c),
        base.gates@.len() <= gate < base.gates@.len() + 2,
        a1.rows == a2.rows,
        row < a1.rows,
        forall|col: Column| #[trigger] a1.slot(col, row as int) == a2.slot(col, row as int),
    ensures
        is_failure(cs, a1, pi, Failure::GateUnsatisfied { gate, row })
            <==> is_failure(cs, a2, pi, Failure::GateUnsatisfied { gate, row }),
{
    reveal_with_fuel(Expr::current_row_only, 6);
    assert(arithmetic_expr(c).current_row_only());
    assert(instance_expr(c).current_row_only());
    lemma_row_isolation(cs, a1, a2, pi, gate, row);
}

/// At a row laid out by `raw_multiply` or `raw_add`, the arithmetic gate
/// that `configure` creates fails exactly when the row's values break its
/// relation: `l * r = o` where `sm` is set, `l + r = o` where `sl` and `sr`
/// are set.
pub proof fn lemma_example_row_relation(
    base: &ConstraintSystem,
    cs: &ConstraintSystem,
    c: TutorialConfig,
    a: &Assignment,
    pi: Seq<Vec<u64>>,
    gate: usize,
    row: usize,
    vl: u64,
    vr: u64,
    vo: u64,
    multiply: bool,
)
    requires
        configured(base, cs, c),
        gate == base.gates@.len(),
        row < a.rows,
        a.slot(c.l, row as int) == Slot::Known(vl),
        a.slot(c.r, row as int) == Slot::Known(vr),
        a.slot(c.o, row as int) == Slot::Known(vo),
        a.slot(c.so, row as int) == Slot::Known(1),
        a.slot(c.sc, row as int) == Slot::Empty,
        multiply ==> a.slot(c.sm, row as int) == Slot::Known(1),
        multiply ==> a.slot(c.sl, row as int) == Slot::Empty && a.slot(c.sr, row as int) == Slot::Empty,
        !multiply ==> a.slot(c.sm, row as int) == Slot::Empty,
        !multiply ==> a.slot(c.sl, row as int) == Slot::Known(1) && a.slot(c.sr, row as int) == Slot::Known(1),
    ensures
        is_failure(cs, a, pi, Failure::GateUnsatisfied { gate, row }) <==> if multiply {
            fmul(reduce(vl as int), reduce(vr as int)) != reduce(vo as int)
        } else {
            fadd(reduce(vl as int), reduce(vr as int)) != reduce(vo as int)
        },
{
    let l = reduce(vl as int);
    let r = reduce(vr as int);
    let o = reduce(vo as int);
    lemma_eval_gates(c, a, pi, row as int);
    assert(reduce(1) == 1);
    lemma_field_identities(l);
    lemma_field_identities(r);
    lemma_field_identities(o);
    lemma_field_identities(fmul(l, r));
    lemma_field_identities(fadd(l, r));
    lemma_field_identities(0);
    let g = base.gates@.len() as int;
    assert(cs.gates@[g].polys@ == seq![arithmetic_expr(c)]);
    if multiply {
        lemma_sub_zero(fmul(l, r), o);
    } else {
        lemma_sub_zero(fadd(l, r), o);
    }
    let e = eval(arithmetic_expr(c), a, pi, row as int);
    assert(query_value(a, pi, c.l, row as int) == l);
    assert(query_value(a, pi, c.r, row as int) == r);
    assert(query_value(a, pi, c.o, row as int) == o);
    assert(query_value(a, pi, c.so, row as int) == 1);
    assert(query_value(a, pi, c.sc, row as int) == 0);
    if multiply {
        assert(query_value(a, pi, c.sm, row as int) == 1);
        assert(query_value(a, pi, c.sl, row as int) == 0);
        assert(query_value(a, pi, c.sr, row as int) == 0);
        assert(e == fadd(fmul(l, r), fneg(o)));
    } else {
        assert(query_value(a, pi, c.sm, row as int) == 0);
        assert(query_value(a, pi, c.sl, row as int) == 1);
        assert(query_value(a, pi, c.sr, row as int) == 1);
        assert(e == fadd(fadd(l, r), fneg(o)));
    }
    if gate_fails(cs, a, pi, g, row as int) {
        let j = choose|j: int| 0 <= j < cs.gates@[g].polys@.len() && #[trigger] eval(cs.gates@[g].polys@[j], a, pi, row as int) != 0;
        assert(j == 0);
    }
    if e != 0 {
        assert(eval(cs.gates@[g].polys@[0], a, pi, row as int) != 0);
    }
}

/// The slot written for element `i` of a triple of values.
pub open spec fn part(values: Option<(u64, u64, u64)>, i: int) -> Slot {
    match values {
        Some(t) => slot_of(Some(if i == 0 { t.0 } else if i == 1 { t.1 } else { t.2 })),
        None => Slot::Unknown,
    }
}

/// `new` is `old` with `l`, `r`, `o` of row `row` written from `values` and
/// each column of `selectors` set to one at that row.
pub open spec fn row_written(
    old_a: &Assignment,
    new_a: &Assignment,
    c: TutorialConfig,
    row: int,
    values: Option<(u64, u64, u64)>,
    selectors: Seq<Column>,
) -> bool {
    &&& forall|col: Column, rr: int|
        #[trigger] new_a.slot(col, rr) == if rr == row && col == c.l {
            part(values, 0)
        } else if rr == row && col == c.r {
            part(values, 1)
        } else if rr == row && col == c.o {
            part(values, 2)
        } else if rr == row && selectors.contains(col) {
            Slot::Known(1)
        } else {
            old_a.slot(col, rr)
        }
    &&& new_a.next_row == row + 1
    &&& new_a.rows == old_a.rows
    &&& new_a.advice@.len() == old_a.advice@.len()
    &&& new_a.fixed@.len() == old_a.fixed@.len()
    &&& new_a.copies == old_a.copies
    &&& new_a.bindings == old_a.bindings
}

/// The cells `l`, `r`, `o` of row `row`.
pub open spec fn row_cells(c: TutorialConfig, row: int) -> (Cell, Cell, Cell) {
    (
        Cell { column: c.l, row: row as usize },
        Cell { column: c.r, row: row as usize },
        Cell { column: c.o, row: row as usize },
    )
}

/// Lays out rows of the circuit through its configuration.
pub struct TutorialChip {
    pub config: TutorialConfig,
}

impl TutorialChip {
    pub fn new(config: TutorialConfig) -> (r: TutorialChip)
        ensures
            r.config == config,
    {
        TutorialChip { config }
    }

    /// Opens a region and writes one row of `values` into `l`, `r`, `o`, with
    /// the selectors of `selectors` set to one.
    fn raw_row(&self, a: &mut Assignment, values: Option<(u64, u64, u64)>, s1: Column, s2: Column, s3: Option<Column>) -> (r: Result<(Cell, Cell, Cell), AssignError>)
        requires
            old(a).wf(),
            self.config.fits(old(a)),
            s1.kind == ColumnKind::Fixed && old(a).in_table(s1),
            s2.kind == ColumnKind::Fixed && old(a).in_table(s2),
            s1 != s2,
            s3 is Some ==> s3->0.kind == ColumnKind::Fixed && old(a).in_table(s3->0) && s3->0 != s1 && s3->0 != s2,
        ensures
            final(a).wf(),
            old(a).next_row < old(a).rows ==> r == Ok::<(Cell, Cell, Cell), AssignError>(row_cells(self.config, old(a).next_row as int))
                && row_written(old(a), final(a), self.config, old(a).next_row as int, values,
                    if s3 is Some { seq![s1, s2, s3->0] } else { seq![s1, s2] }),
            old(a).next_row >= old(a).rows ==> r == Err::<(Cell, Cell, Cell), AssignError>(AssignError::RowOutOfRange) && *final(a) == *old(a),
    {
        if a.next_row >= a.rows {
            return Err(AssignError::RowOutOfRange);
        }
        a.begin_region();
        let (v0, v1, v2) = match values {
            Some(t) => (Some(t.0), Some(t.1), Some(t.2)),
            None => (None, None, None),
        };
        let lhs = match a.assign_advice(self.config.l, 0, v0) {
            Ok(cell) => cell,
            Err(e) => { return Err(e); },
        };
        let rhs = a.assign_advice(self.config.r, 0, v1).unwrap();
        let out = a.assign_advice(self.config.o, 0, v2).unwrap();
        a.assign_fixed(s1, 0, 1).unwrap();
        a.assign_fixed(s2, 0, 1).unwrap();
        match s3 {
            Some(s) => { a.assign_fixed(s, 0, 1).unwrap(); },
            None => {},
        }
        proof {
            let sels = if s3 is Some { seq![s1, s2, s3->0] } else { seq![s1, s2] };
            assert(sels.contains(s1)) by { assert(sels[0] == s1); }
            assert(sels.contains(s2)) by { assert(sels[1] == s2); }
            if s3 is Some {
                assert(sels.contains(s3->0)) by { assert(sels[2] == s3->0); }
            }
            assert(reduce(1) == 1);
        }
        Ok((lhs, rhs, out))
    }

    /// A multiplication row: `l * r = o`, with `sm` and `so` set.
    pub fn raw_multiply(&self, a: &mut Assignment, values: Option<(u64, u64, u64)>) -> (r: Result<(Cell, Cell, Cell), AssignError>)
        requires
            old(a).wf(),
            self.config.fits(old(a)),
        ensures
            final(a).wf(),
            old(a).next_row < old(a).rows ==> r == Ok::<(Cell, Cell, Cell), AssignError>(row_cells(self.config, old(a).next_row as int))
                && row_written(old(a), final(a), self.config, old(a).next_row as int, values, seq![self.config.sm, self.config.so]),
            old(a).next_row >= old(a).rows ==> r == Err::<(Cell, Cell, Cell), AssignError>(AssignError::RowOutOfRange) && *final(a) == *old(a),
    {
        self.raw_row(a, values, self.config.sm, self.config.so, None)
    }

    /// An addition row: `l + r = o`, with `sl`, `sr` and `so` set.
    pub fn raw_add(&self, a: &mut Assignment, values: Option<(u64, u64, u64)>) -> (r: Result<(Cell, Cell, Cell), AssignError>)
        requires
            old(a).wf(),
            self.config.fits(old(a)),
        ensures
            final(a).wf(),
            old(a).next_row < old(a).rows ==> r == Ok::<(Cell, Cell, Cell), AssignError>(row_cells(self.config, old(a).next_row as int))
                && row_written(old(a), final(a), self.config, old(a).next_row as int, values, seq![self.config.sl, self.config.sr, self.config.so]),
            old(a).next_row >= old(a).rows ==> r == Err::<(Cell, Cell, Cell), AssignError>(AssignError::RowOutOfRange) && *final(a) == *old(a),
    {
        self.raw_row(a, values, self.config.sl, self.config.sr, Some(self.config.so))
    }

    /// Requires the cells `left` and `right` to hold equal values.
    pub fn copy(&self, a: &mut Assignment, cs: &ConstraintSystem, left: Cell, right: Cell) -> (r: Result<(), AssignError>)
        requires
            old(a).wf(),
        ensures
            final(a).wf(),
            r is Ok <==> equality_enabled(cs, left.column) && equality_enabled(cs, right.column),
            r is Err ==> r == Err::<(), AssignError>(AssignError::NotEqualityEnabled) && *final(a) == *old(a),
            r is Ok ==> final(a).copies@ == old(a).copies@.push((left, right)),
            final(a).rows == old(a).rows,
            final(a).advice == old(a).advice,
            final(a).fixed == old(a).fixed,
            final(a).bindings == old(a).bindings,
            final(a).region_start == old(a).region_start,
            final(a).next_row == old(a).next_row,
    {
        a.constrain_equal(cs, left, right)
    }

    /// Ties `cell` to the public input at `row` of the circuit's instance column.
    pub fn expose_public(&self, a: &mut Assignment, cs: &ConstraintSystem, cell: Cell, row: usize) -> (r: Result<(), AssignError>)
        requires
            old(a).wf(),
            self.config.pi.kind == ColumnKind::Instance,
            self.config.pi.index < cs.num_instance,
        ensures
            final(a).wf(),
            r is Ok,
            final(a).bindings@ == old(a).bindings@.push((cell, self.config.pi, row)),
            final(a).rows == old(a).rows,
            final(a).advice == old(a).advice,
            final(a).fixed == old(a).fixed,
            final(a).copies == old(a).copies,
            final(a).region_start == old(a).region_start,
            final(a).next_row == old(a).next_row,
    {
        a.constrain_instance(cs, cell, self.config.pi, row)
    }
}

/// The row values that synthesis writes into `l`, `r`, `o`, in order:
/// `(x, x, x^2)`, `(y, y, y^2)`, `(x^2, y^2, x^2 y^2)`, `(x^2 y^2, c, x^2 y^2 + c)`.
pub open spec fn synth_values(circ: TutorialCircuit) -> Seq<Option<(u64, u64, u64)>> {
    let k = reduce(circ.constant as int);
    let xs = match circ.x {
        Some(x) => Some(reduce(x as int)),
        None => None,
    };
    let ys = match circ.y {
        Some(y) => Some(reduce(y as int)),
        None => None,
    };
    seq![
        match xs { Some(x) => Some((x as u64, x as u64, fmul(x, x) as u64)), None => None },
        match ys { Some(y) => Some((y as u64, y as u64, fmul(y, y) as u64)), None => None },
        match (xs, ys) {
            (Some(x), Some(y)) => Some((fmul(x, x) as u64, fmul(y, y) as u64, fmul(fmul(x, x), fmul(y, y)) as u64)),
            _ => None,
        },
        match (xs, ys) {
            (Some(x), Some(y)) => Some((fmul(fmul(x, x), fmul(y, y)) as u64, k as u64, fadd(fmul(fmul(x, x), fmul(y, y)), k) as u64)),
            _ => None,
        },
    ]
}

/// The slot that synthesis starting at row `s` leaves at (`col`, `rr`).
pub open spec fn synth_slot(old_a: &Assignment, c: TutorialConfig, circ: TutorialCircuit, s: int, col: Column, rr: int) -> Slot {
    let v = synth_values(circ);
    if s <= rr < s + 4 {
        let k = rr - s;
        if col == c.l {
            part(v[k], 0)
        } else if col == c.r {
            part(v[k], 1)
        } else if col == c.o {
            part(v[k], 2)
        } else if (k < 3 && (col == c.sm || col == c.so)) || (k == 3 && (col == c.sl || col == c.sr || col == c.so)) {
            Slot::Known(1)
        } else {
            old_a.slot(col, rr)
        }
    } else {
        old_a.slot(col, rr)
    }
}

/// `new_a` is `old_a` after a synthesis of `circ` that started at row `s`.
pub open spec fn synthesized(old_a: &Assignment, new_a: &Assignment, c: TutorialConfig, circ: TutorialCircuit, s: int) -> bool {
    let (a0, b0, c0) = row_cells(c, s);
    let (a1, b1, c1) = row_cells(c, s + 1);
    let (a2, b2, c2) = row_cells(c, s + 2);
    let (a3, b3, c3) = row_cells(c, s + 3);
    &&& forall|col: Column, rr: int| #[trigger] new_a.slot(col, rr) == synth_slot(old_a, c, circ, s, col, rr)
    &&& new_a.copies@ == old_a.copies@ + seq![(a0, b0), (a1, b1), (c0, a2), (c1, b2), (c2, a3)]
    &&& new_a.bindings@ == old_a.bindings@ + seq![(b3, c.pi, 0usize), (c3, c.pi, 1usize)]
    &&& new_a.next_row == s + 4
    &&& new_a.rows == old_a.rows
    &&& new_a.advice@.len() == old_a.advice@.len()
    &&& new_a.fixed@.len() == old_a.fixed@.len()
}

impl TutorialCircuit {
    /// Lays out the computation of `x^2 * y^2 + c` in four rows from the
    /// first free row, links the rows by equality constraints, and exposes
    /// `c` and the result as public inputs 0 and 1.
    pub fn synthesize(&self, config: TutorialConfig, cs: &ConstraintSystem, a: &mut Assignment) -> (r: Result<(), AssignError>)
        requires
            old(a).wf(),
            config.fits(old(a)),
            equality_enabled(cs, config.l),
            equality_enabled(cs, config.r),
            equality_enabled(cs, config.o),
            config.pi.kind == ColumnKind::Instance,
            config.pi.index < cs.num_instance,
        ensures
            final(a).wf(),
            old(a).next_row + 4 <= old(a).rows ==> r is Ok && synthesized(old(a), final(a), config, *self, old(a).next_row as int),
            old(a).next_row + 4 > old(a).rows ==> r == Err::<(), AssignError>(AssignError::RowOutOfRange) && *final(a) == *old(a),
    {
        if a.rows - a.next_row < 4 {
            return Err(AssignError::RowOutOfRange);
        }
        let ghost a0 = *a;
        let ghost s = a.next_row as int;
        let chip = TutorialChip::new(config);
        let k = field::from_u64(self.constant);
        let xs = match self.x {
            Some(x) => Some(field::from_u64(x)),
            None => None,
        };
        let ys = match self.y {
            Some(y) => Some(field::from_u64(y)),
            None => None,
        };
        let v0 = match xs {
            Some(x) => Some((x, x, field::mul(x, x))),
            None => None,
        };
        let v1 = match ys {
            Some(y) => Some((y, y, field::mul(y, y))),
            None => None,
        };
        let (v2, v3) = match (xs, ys) {
            (Some(x), Some(y)) => {
                let x2 = field::mul(x, x);
                let y2 = field::mul(y, y);
                let p = field::mul(x2, y2);
                (Some((x2, y2, p)), Some((p, k, field::add(p, k))))
            },
            _ => (None, None),
        };
        proof {
            let sv = synth_values(*self);
            assert(v0 == sv[0] && v1 == sv[1] && v2 == sv[2] && v3 == sv[3]);
        }
        let (a0c, b0c, c0c) = match chip.raw_multiply(a, v0) {
            Ok(t) => t,
            Err(e) => { return Err(e); },
        };
        let ghost t1 = *a;
        chip.copy(a, cs, a0c, b0c).unwrap();
        let ghost t1b = *a;
        let (a1c, b1c, c1c) = match chip.raw_multiply(a, v1) {
            Ok(t) => t,
            Err(e) => { return Err(e); },
        };
        let ghost t2 = *a;
        chip.copy(a, cs, a1c, b1c).unwrap();
        let ghost t2b = *a;
        let (a2c, b2c, c2c) = match chip.raw_multiply(a, v2) {
            Ok(t) => t,
            Err(e) => { return Err(e); },
        };
        let ghost t3 = *a;
        chip.copy(a, cs, c0c, a2c).unwrap();
        chip.copy(a, cs, c1c, b2c).unwrap();
        let ghost t3b = *a;
        let (a3c, b3c, c3c) = match chip.raw_add(a, v3) {
            Ok(t) => t,
            Err(e) => { return Err(e); },
        };
        let ghost t4 = *a;
        chip.copy(a, cs, c2c, a3c).unwrap();
        chip.expose_public(a, cs, b3c, 0).unwrap();
        a.constrain_instance(cs, c3c, config.pi, 1).unwrap();
        proof {
            assert forall|col: Column, rr: int| #[trigger] a.slot(col, rr) == synth_slot(&a0, config, *self, s, col, rr) by {
                assert(a.slot(col, rr) == t4.slot(col, rr));
                assert(t3b.slot(col, rr) == t3.slot(col, rr));
                assert(t2b.slot(col, rr) == t2.slot(col, rr));
                assert(t1b.slot(col, rr) == t1.slot(col, rr));
                let sels3 = seq![config.sl, config.sr, config.so];
                let sels = seq![config.sm, config.so];
                assert(sels.contains(col) <==> col == config.sm || col == config.so) by {
                    if sels.contains(col) { let i = choose|i: int| 0 <= i < 2 && sels[i] == col; }
                    if col == config.sm { assert(sels[0] == col); }
                    if col == config.so { assert(sels[1] == col); }
                }
                assert(sels3.contains(col) <==> col == config.sl || col == config.sr || col == config.so) by {
                    if sels3.contains(col) { let i = choose|i: int| 0 <= i < 3 && sels3[i] == col; }
                    if col == config.sl { assert(sels3[0] == col); }
                    if col == config.sr { assert(sels3[1] == col); }
                    if col == config.so { assert(sels3[2] == col); }
                }
            }
            assert(a.copies@ =~= a0.copies@ + seq![(a0c, b0c), (a1c, b1c), (c0c, a2c), (c1c, b2c), (c2c, a3c)]);
            assert(a.bindings@ =~= a0.bindings@ + seq![(b3c, config.pi, 0usize), (c3c, config.pi, 1usize)]);
        }
        Ok(())
    }
}

/// `l*sl + r*sr + l*r*sm - o*so + sc` on field elements.
pub open spec fn arithmetic_value(l: int, r: int, o: int, sl: int, sr: int, sm: int, so: int, sc: int) -> int {
    fadd(fadd(fadd(fadd(fmul(l, sl), fmul(r, sr)), fmul(fmul(l, r), sm)), fneg(fmul(o, so))), sc)
}

proof fn lemma_eval_gates(c: TutorialConfig, a: &Assignment, pi: Seq<Vec<u64>>, row: int)
    requires
        0 <= row < a.rows,
    ensures
        eval(arithmetic_expr(c), a, pi, row) == arithmetic_value(
            query_value(a, pi, c.l, row),
            query_value(a, pi, c.r, row),
            query_value(a, pi, c.o, row),
            query_value(a, pi, c.sl, row),
            query_value(a, pi, c.sr, row),
            query_value(a, pi, c.sm, row),
            query_value(a, pi, c.so, row),
            query_value(a, pi, c.sc, row),
        ),
        eval(instance_expr(c), a, pi, row) == fmul(
            query_value(a, pi, c.sp, row),
            fadd(query_value(a, pi, c.l, row), fneg(query_value(a, pi, c.pi, row))),
        ),
{
    vstd::arithmetic::div_mod::lemma_small_mod(row as nat, a.rows as nat);
    reveal_with_fuel(eval, 6);
}

/// Public inputs that match the example circuit `circ`: one instance column
/// holding the constant and `x^2 * y^2 + constant` at rows 0 and 1.
pub open spec fn example_inputs_ok(circ: TutorialCircuit, pi: Seq<Vec<u64>>, rows: int) -> bool {
    let x = reduce(circ.x->0 as int);
    let y = reduce(circ.y->0 as int);
    let k = reduce(circ.constant as int);
    &&& pi.len() == 1
    &&& 2 <= pi[0]@.len() <= rows
    &&& reduce(pi[0]@[0] as int) == k
    &&& reduce(pi[0]@[1] as int) == fadd(fmul(fmul(x, x), fmul(y, y)), k)
}

/// For the example circuit configured on an empty system and synthesized
/// with a known witness into a fresh table, the checker accepts exactly the
/// public inputs that give the constant and `x^2 * y^2 + constant`.
/// Without a known witness the synthesized table of the example circuit
/// leaves a cell of an equality constraint empty, so no public inputs
/// satisfy it.
pub proof fn lemma_example_needs_witness(
    c: TutorialConfig,
    a0: &Assignment,
    a: &Assignment,
    circ: TutorialCircuit,
    cs: &ConstraintSystem,
    pi: Seq<Vec<u64>>,
)
    requires
        a0.copies@.len() == 0,
        circ.x is None || circ.y is None,
        synthesized(a0, a, c, circ, 0),
    ensures
        !satisfied(cs, a, pi),
{
    let sv = synth_values(circ);
    if circ.x is None {
        assert(sv[0] is None);
        assert(a.slot(c.l, 0) == Slot::Unknown);
        assert(a.copies@[0] == (Cell { column: c.l, row: 0 }, Cell { column: c.r, row: 0 }));
        assert(is_failure(cs, a, pi, Failure::UnassignedCell { copy: 0, cell: Cell { column: c.l, row: 0 } }));
    } else {
        assert(sv[1] is None);
        assert(a.slot(c.l, 1) == Slot::Unknown);
        assert(a.copies@[1] == (Cell { column: c.l, row: 1 }, Cell { column: c.r, row: 1 }));
        assert(is_failure(cs, a, pi, Failure::UnassignedCell { copy: 1, cell: Cell { column: c.l, row: 1 } }));
    }
}

#[verifier::rlimit(80)]
pub proof fn lemma_example_sound(
    base: &ConstraintSystem,
    cs: &ConstraintSystem,
    c: TutorialConfig,
    a0: &Assignment,
    a: &Assignment,
    circ: TutorialCircuit,
    pi: Seq<Vec<u64>>,
)
    requires
        base.num_advice == 0,
        base.num_fixed == 0,
        base.num_instance == 0,
        base.gates@.len() == 0,
        configured(base, cs, c),
        a0.wf(),
        a0.rows >= 4,
        a0.advice@.len() == cs.num_advice,
        a0.fixed@.len() == cs.num_fixed,
        empty_grid(a0.advice@, a0.rows as nat),
        empty_grid(a0.fixed@, a0.rows as nat),
        a0.copies@.len() == 0,
        a0.bindings@.len() == 0,
        a0.next_row == 0,
        circ.x is Some,
        circ.y is Some,
        synthesized(a0, a, c, circ, 0),
    ensures
        satisfied(cs, a, pi) <==> example_inputs_ok(circ, pi, a.rows as int),
{
    let x = reduce(circ.x->0 as int);
    let y = reduce(circ.y->0 as int);
    let k = reduce(circ.constant as int);
    let x2 = fmul(x, x);
    let y2 = fmul(y, y);
    let p = fmul(x2, y2);
    let z = fadd(p, k);
    assert forall|col: Column, rr: int| #[trigger] a0.slot(col, rr) == Slot::Empty by {}
    lemma_reduce_elem(x);
    lemma_reduce_elem(y);
    lemma_reduce_elem(k);
    lemma_reduce_elem(x2);
    lemma_reduce_elem(y2);
    lemma_reduce_elem(p);
    lemma_reduce_elem(z);
    assert(reduce(1) == 1);
    let sv = synth_values(circ);
    assert(sv[0] == Some((x as u64, x as u64, x2 as u64)));
    assert(sv[3] == Some((p as u64, k as u64, z as u64)));
    // the values that the cells of the four rows hold
    assert(cell_value(a, pi, c.l, 0) == Some(x) && cell_value(a, pi, c.r, 0) == Some(x) && cell_value(a, pi, c.o, 0) == Some(x2));
    assert(cell_value(a, pi, c.l, 1) == Some(y) && cell_value(a, pi, c.r, 1) == Some(y) && cell_value(a, pi, c.o, 1) == Some(y2));
    assert(cell_value(a, pi, c.l, 2) == Some(x2) && cell_value(a, pi, c.r, 2) == Some(y2) && cell_value(a, pi, c.o, 2) == Some(p));
    assert(cell_value(a, pi, c.l, 3) == Some(p) && cell_value(a, pi, c.r, 3) == Some(k) && cell_value(a, pi, c.o, 3) == Some(z));
    // every gate holds at every row
    assert forall|g: int, row: int| 0 <= g < cs.gates@.len() && 0 <= row < a.rows implies !gate_fails(cs, a, pi, g, row) by {
        lemma_eval_gates(c, a, pi, row);
        lemma_field_identities(query_value(a, pi, c.l, row));
        lemma_field_identities(query_value(a, pi, c.r, row));
        lemma_field_identities(query_value(a, pi, c.o, row));
        lemma_field_identities(fmul(query_value(a, pi, c.l, row), query_value(a, pi, c.r, row)));
        lemma_field_identities(fadd(query_value(a, pi, c.l, row), query_value(a, pi, c.r, row)));
        lemma_field_identities(fadd(query_value(a, pi, c.l, row), fneg(query_value(a, pi, c.pi, row))));
        lemma_field_identities(0);
        assert(query_value(a, pi, c.sp, row) == 0);
        assert(query_value(a, pi, c.sc, row) == 0);
        if row < 3 {
            assert(query_value(a, pi, c.sl, row) == 0);
            assert(query_value(a, pi, c.sr, row) == 0);
            assert(query_value(a, pi, c.sm, row) == 1);
            assert(query_value(a, pi, c.so, row) == 1);
            assert(query_value(a, pi, c.o, row) == fmul(query_value(a, pi, c.l, row), query_value(a, pi, c.r, row)));
        } else if row == 3 {
            assert(query_value(a, pi, c.sl, row) == 1);
            assert(query_value(a, pi, c.sr, row) == 1);
            assert(query_value(a, pi, c.sm, row) == 0);
            assert(query_value(a, pi, c.so, row) == 1);
        } else {
            assert(query_value(a, pi, c.l, row) == 0);
            assert(query_value(a, pi, c.r, row) == 0);
            assert(query_value(a, pi, c.o, row) == 0);
            assert(query_value(a, pi, c.sl, row) == 0);
            assert(query_value(a, pi, c.sr, row) == 0);
            assert(query_value(a, pi, c.sm, row) == 0);
            assert(query_value(a, pi, c.so, row) == 0);
        }
        assert(eval(arithmetic_expr(c), a, pi, row) == 0);
        assert(eval(instance_expr(c), a, pi, row) == 0);
        if g == 0 {
            assert(cs.gates@[g].polys@ == seq![arithmetic_expr(c)]);
        } else {
            assert(cs.gates@[g].polys@ == seq![instance_expr(c)]);
        }
    }
    if example_inputs_ok(circ, pi, a.rows as int) {
        assert(cell_value(a, pi, c.pi, 0) == Some(k));
        assert(cell_value(a, pi, c.pi, 1) == Some(z));
        assert forall|f: Failure| !is_failure(cs, a, pi, f) by {
            match f {
                Failure::GateUnsatisfied { gate, row } => {},
                _ => {},
            }
        }
    }
    if satisfied(cs, a, pi) {
        assert(!is_failure(cs, a, pi, Failure::PublicInputMismatch { binding: 0, column: c.pi.index, row: 0 }));
        assert(!is_failure(cs, a, pi, Failure::PublicInputMismatch { binding: 1, column: c.pi.index, row: 1 }));
    }
}

impl TutorialCircuit {
    /// Configures the circuit on an empty system, synthesizes it into a fresh
    /// table of `2^k` rows, and checks the table against `public_inputs`.
    /// Synthesis needs four rows; with a known witness the check passes
    /// exactly on the public inputs that give the constant and
    /// `x^2 * y^2 + constant`.
    pub fn run(&self, k: u32, public_inputs: &Vec<Vec<u64>>) -> (r: Result<Result<(), Vec<Failure>>, AssignError>)
        requires
            k <= 30,
        ensures
            k < 2 ==> r == Err::<Result<(), Vec<Failure>>, AssignError>(AssignError::RowOutOfRange),
            k >= 2 ==> r is Ok,
            k >= 2 && self.x is Some && self.y is Some ==> (r is Ok && r->Ok_0 is Ok
                <==> example_inputs_ok(*self, public_inputs@, pow2(k as nat) as int)),
            k >= 2 && (self.x is None || self.y is None) ==> r is Ok && r->Ok_0 is Err,
    {
        let mut cs = ConstraintSystem::new();
        let ghost base = cs;
        let config = TutorialCircuit::configure(&mut cs);
        let mut a = Assignment::new(&cs, k);
        let ghost a0 = a;
        proof {
            lemma2_to64();
            if k > 2 {
                lemma_pow2_strictly_increases(2, k as nat);
            }
            if k < 2 {
                lemma_pow2_strictly_increases(k as nat, 2);
            }
            assert(cs.equality@[0] == config.l);
            assert(cs.equality@[1] == config.r);
            assert(cs.equality@[2] == config.o);
        }
        match self.synthesize(config, &cs, &mut a) {
            Ok(()) => {},
            Err(e) => { return Err(e); },
        }
        let result = verify(&cs, &a, public_inputs);
        proof {
            if self.x is Some && self.y is Some {
                lemma_example_sound(&base, &cs, config, &a0, &a, *self, public_inputs@);
            } else {
                lemma_example_needs_witness(config, &a0, &a, *self, &cs, public_inputs@);
            }
        }
        Ok(result)
    }
}

} // verus!
