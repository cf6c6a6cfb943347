//! The exhaustive reference checker: it evaluates every gate at every row,
//! every equality constraint and every public-input binding against a frozen
//! table, and reports every violation it finds.
use vstd::prelude::*;
use crate::field;
use crate::field::{is_elem, reduce, fadd, fmul, fneg, from_u64};
use crate::system::{Column, ColumnKind, ConstraintSystem, Expr};
use crate::assignment::{Assignment, Cell, Slot, slot_value};

verus! {

/// One violation found by [`verify`].
#[derive(Clone, Copy, PartialEq, Eq, Structural, Debug)]
pub enum Failure {
    /// The public inputs do not give one vector per instance column, each no
    /// longer than the table.
    PublicInputShape,
    /// Binding number `binding` ties a cell to the public input at `row` of
    /// instance column `column`, and the two do not agree (or one is missing).
    PublicInputMismatch { binding: usize, column: usize, row: usize },
    /// A cell of equality constraint number `copy` holds no value.
    UnassignedCell { copy: usize, cell: Cell },
    /// The two cells of equality constraint number `copy` hold different values.
    UnequalCells { copy: usize, a: Cell, b: Cell },
    /// Some polynomial of gate number `gate` does not vanish at `row`.
    GateUnsatisfied { gate: usize, row: usize },
}

/// `x` taken modulo the row count, into `[0, rows)`.
pub open spec fn wrap(x: int, rows: int) -> int {
    x % rows
}

/// The public input at `row` of instance column `c`, if given.
pub open spec fn instance_value(pi: Seq<Vec<u64>>, c: Column, row: int) -> Option<int> {
    if c.index < pi.len() && 0 <= row < pi[c.index as int]@.len() {
        Some(reduce(pi[c.index as int]@[row] as int))
    } else {
        None
    }
}

/// The value the cell holds, if any: instance cells read the public inputs.
pub open spec fn cell_value(a: &Assignment, pi: Seq<Vec<u64>>, c: Column, row: int) -> Option<int> {
    if c.kind == ColumnKind::Instance {
        instance_value(pi, c, row)
    } else {
        slot_value(a.slot(c, row))
    }
}

/// What a query reads: the cell's value, or zero where it holds none.
pub open spec fn query_value(a: &Assignment, pi: Seq<Vec<u64>>, c: Column, row: int) -> int {
    match cell_value(a, pi, c, row) {
        Some(v) => v,
        None => 0,
    }
}

/// The value of `e` at `row`.
pub open spec fn eval(e: Expr, a: &Assignment, pi: Seq<Vec<u64>>, row: int) -> int
    decreases e,
{
    match e {
        Expr::Constant(c) => reduce(c as int),
        Expr::Query(c, rot) => query_value(a, pi, c, wrap(row + rot, a.rows as int)),
        Expr::Negated(x) => fneg(eval(*x, a, pi, row)),
        Expr::Sum(x, y) => fadd(eval(*x, a, pi, row), eval(*y, a, pi, row)),
        Expr::Product(x, y) => fmul(eval(*x, a, pi, row), eval(*y, a, pi, row)),
    }
}

/// Some polynomial of gate `g` does not vanish at `row`.
pub open spec fn gate_fails(cs: &ConstraintSystem, a: &Assignment, pi: Seq<Vec<u64>>, g: int, row: int) -> bool {
    exists|j: int|
        0 <= j < cs.gates@[g].polys@.len() && #[trigger] eval(cs.gates@[g].polys@[j], a, pi, row) != 0
}

/// One vector of public inputs per instance column, each no longer than the table.
pub open spec fn shape_ok(cs: &ConstraintSystem, a: &Assignment, pi: Seq<Vec<u64>>) -> bool {
    &&& pi.len() == cs.num_instance
    &&& forall|i: int| 0 <= i < pi.len() ==> (#[trigger] pi[i])@.len() <= a.rows
}

/// `f` is a violation of the table `a` with public inputs `pi`.
pub open spec fn is_failure(cs: &ConstraintSystem, a: &Assignment, pi: Seq<Vec<u64>>, f: Failure) -> bool {
    match f {
        Failure::PublicInputShape => false,
        Failure::PublicInputMismatch { binding, column, row } => {
            &&& binding < a.bindings@.len()
            &&& ({
                let (cell, inst, r) = a.bindings@[binding as int];
                &&& column == inst.index
                &&& row == r
                &&& (cell_value(a, pi, cell.column, cell.row as int) is None
                    || cell_value(a, pi, inst, r as int) is None
                    || cell_value(a, pi, cell.column, cell.row as int) != cell_value(a, pi, inst, r as int))
            })
        },
        Failure::UnassignedCell { copy, cell } => {
            &&& copy < a.copies@.len()
            &&& (cell == a.copies@[copy as int].0 || cell == a.copies@[copy as int].1)
            &&& cell_value(a, pi, cell.column, cell.row as int) is None
        },
        Failure::UnequalCells { copy, a: x, b: y } => {
            &&& copy < a.copies@.len()
            &&& a.copies@[copy as int] == (x, y)
            &&& cell_value(a, pi, x.column, x.row as int) is Some
            &&& cell_value(a, pi, y.column, y.row as int) is Some
            &&& cell_value(a, pi, x.column, x.row as int) != cell_value(a, pi, y.column, y.row as int)
        },
        Failure::GateUnsatisfied { gate, row } => {
            &&& gate < cs.gates@.len()
            &&& row < a.rows
            &&& gate_fails(cs, a, pi, gate as int, row as int)
        },
    }
}

/// The table satisfies every gate, equality constraint and binding.
pub open spec fn satisfied(cs: &ConstraintSystem, a: &Assignment, pi: Seq<Vec<u64>>) -> bool {
    shape_ok(cs, a, pi) && forall|f: Failure| !is_failure(cs, a, pi, f)
}

/// `(row + rot) mod rows`.
pub fn wrap_row(row: usize, rot: i32, rows: usize) -> (r: usize)
    requires
        row < rows <= 0x4000_0000,
    ensures
        r as int == wrap(row + rot, rows as int),
        r < rows,
{
    let m = rows as u64;
    if rot >= 0 {
        let s = (rot as u64) % m;
        proof {
            vstd::arithmetic::div_mod::lemma_add_mod_noop(row as int, rot as int, rows as int);
            vstd::arithmetic::div_mod::lemma_small_mod(row as nat, rows as nat);
        }
        ((row as u64 + s) % m) as usize
    } else {
        let t = (-(rot as i64)) as u64;
        let s = t % m;
        proof {
            let q = t as int / rows as int;
            vstd::arithmetic::div_mod::lemma_fundamental_div_mod(t as int, rows as int);
            assert(t as int == -(rot as int));
            assert(s as int == t as int % rows as int);
            assert(row + rot == (row + rows - s) + rows * (-(q + 1))) by (nonlinear_arith)
                requires
                    t as int == rows * q + s,
                    t as int == -(rot as int),
            ;
            vstd::arithmetic::div_mod::lemma_mod_multiples_vanish(-(q + 1), row + rows - s, rows as int);
        }
        ((row as u64 + m - s) % m) as usize
    }
}

/// The value of cell (`c`, `row`), if it holds one.
pub fn lookup(a: &Assignment, pi: &Vec<Vec<u64>>, c: Column, row: usize) -> (r: Option<u64>)
    requires
        a.wf(),
    ensures
        r is Some <==> cell_value(a, pi@, c, row as int) is Some,
        r is Some ==> r->0 as int == cell_value(a, pi@, c, row as int)->0,
        r is Some ==> is_elem(r->0 as int),
{
    match c.kind {
        ColumnKind::Instance => {
            if c.index < pi.len() && row < pi[c.index].len() {
                Some(from_u64(pi[c.index][row]))
            } else {
                None
            }
        },
        ColumnKind::Advice => {
            if c.index < a.advice.len() && row < a.rows {
                match a.advice[c.index][row] {
                    Slot::Known(v) => Some(from_u64(v)),
                    _ => None,
                }
            } else {
                None
            }
        },
        ColumnKind::Fixed => {
            if c.index < a.fixed.len() && row < a.rows {
                match a.fixed[c.index][row] {
                    Slot::Known(v) => Some(from_u64(v)),
                    _ => None,
                }
            } else {
                None
            }
        },
    }
}

/// The value of `e` at `row`.
pub fn evaluate(e: &Expr, a: &Assignment, pi: &Vec<Vec<u64>>, row: usize) -> (r: u64)
    requires
        a.wf(),
        row < a.rows,
    ensures
        r as int == eval(*e, a, pi@, row as int),
        is_elem(r as int),
    decreases e,
{
    match e {
        Expr::Constant(c) => from_u64(*c),
        Expr::Query(c, rot) => {
            let at = wrap_row(row, *rot, a.rows);
            match lookup(a, pi, *c, at) {
                Some(v) => v,
                None => 0,
            }
        },
        Expr::Negated(x) => field::neg(evaluate(x, a, pi, row)),
        Expr::Sum(x, y) => field::add(evaluate(x, a, pi, row), evaluate(y, a, pi, row)),
        Expr::Product(x, y) => field::mul(evaluate(x, a, pi, row), evaluate(y, a, pi, row)),
    }
}

proof fn lemma_push_contains(s: Seq<Failure>, x: Failure, f: Failure)
    ensures
        s.push(x).contains(f) <==> s.contains(f) || f == x,
{
    if s.contains(f) {
        let k = choose|k: int| 0 <= k < s.len() && s[k] == f;
        assert(s.push(x)[k] == f);
    }
    if f == x {
        assert(s.push(x)[s.len() as int] == x);
    }
    if s.push(x).contains(f) && f != x {
        let k = choose|k: int| 0 <= k < s.len() + 1 && s.push(x)[k] == f;
        assert(s[k] == f);
    }
}

pub open spec fn binding_before(f: Failure, n: int) -> bool {
    match f {
        Failure::PublicInputMismatch { binding, .. } => binding < n,
        _ => false,
    }
}

pub open spec fn copy_before(f: Failure, n: int) -> bool {
    match f {
        Failure::UnassignedCell { copy, .. } => copy < n,
        Failure::UnequalCells { copy, .. } => copy < n,
        _ => false,
    }
}

pub open spec fn gate_before(f: Failure, g: int, r: int) -> bool {
    match f {
        Failure::GateUnsatisfied { gate, row } => gate < g || (gate == g && row < r),
        _ => false,
    }
}

/// Appends a failure for every binding whose cell and public input disagree.
fn binding_failures(a: &Assignment, pi: &Vec<Vec<u64>>, cs: &ConstraintSystem, out: &mut Vec<Failure>)
    requires
        a.wf(),
    ensures
        forall|f: Failure|
            #[trigger] final(out)@.contains(f) <==> old(out)@.contains(f) || (binding_before(
                f,
                a.bindings@.len() as int,
            ) && is_failure(cs, a, pi@, f)),
{
    let mut k: usize = 0;
    while k < a.bindings.len()
        invariant
            a.wf(),
            k <= a.bindings@.len(),
            forall|f: Failure|
                #[trigger] out@.contains(f) <==> old(out)@.contains(f) || (binding_before(f, k as int)
                    && is_failure(cs, a, pi@, f)),
        decreases a.bindings@.len() - k,
    {
        let (cell, inst, row) = a.bindings[k];
        let v = lookup(a, pi, cell.column, cell.row);
        let w = lookup(a, pi, inst, row);
        let bad = match (v, w) {
            (Some(x), Some(y)) => x != y,
            _ => true,
        };
        let ghost prev = out@;
        if bad {
            let f = Failure::PublicInputMismatch { binding: k, column: inst.index, row };
            out.push(f);
            assert forall|g: Failure| #[trigger] out@.contains(g) <==> prev.contains(g) || g == f by {
                lemma_push_contains(prev, f, g);
            }
        }
        assert forall|f: Failure| #[trigger] out@.contains(f) <==> old(out)@.contains(f) || (
        binding_before(f, k + 1) && is_failure(cs, a, pi@, f)) by {
            if binding_before(f, k + 1) && !binding_before(f, k as int) {
                assert(out@.contains(f) <==> prev.contains(f) || is_failure(cs, a, pi@, f));
            }
        }
        k = k + 1;
    }
}

/// Appends a failure for every equality constraint with an empty cell or
/// unequal values.
fn copy_failures(a: &Assignment, pi: &Vec<Vec<u64>>, cs: &ConstraintSystem, out: &mut Vec<Failure>)
    requires
        a.wf(),
    ensures
        forall|f: Failure|
            #[trigger] final(out)@.contains(f) <==> old(out)@.contains(f) || (copy_before(
                f,
                a.copies@.len() as int,
            ) && is_failure(cs, a, pi@, f)),
{
    let mut k: usize = 0;
    while k < a.copies.len()
        invariant
            a.wf(),
            k <= a.copies@.len(),
            forall|f: Failure|
                #[trigger] out@.contains(f) <==> old(out)@.contains(f) || (copy_before(f, k as int)
                    && is_failure(cs, a, pi@, f)),
        decreases a.copies@.len() - k,
    {
        let (x, y) = a.copies[k];
        let v = lookup(a, pi, x.column, x.row);
        let w = lookup(a, pi, y.column, y.row);
        let ghost start = out@;
        if v.is_none() {
            let f = Failure::UnassignedCell { copy: k, cell: x };
            let ghost prev = out@;
            out.push(f);
            assert forall|g: Failure| #[trigger] out@.contains(g) <==> prev.contains(g) || g == f by {
                lemma_push_contains(prev, f, g);
            }
        }
        if w.is_none() {
            let f = Failure::UnassignedCell { copy: k, cell: y };
            let ghost prev = out@;
            out.push(f);
            assert forall|g: Failure| #[trigger] out@.contains(g) <==> prev.contains(g) || g == f by {
                lemma_push_contains(prev, f, g);
            }
        }
        match (v, w) {
            (Some(p), Some(q)) => {
                if p != q {
                    let f = Failure::UnequalCells { copy: k, a: x, b: y };
                    let ghost prev = out@;
                    out.push(f);
                    assert forall|g: Failure| #[trigger] out@.contains(g) <==> prev.contains(g) || g == f by {
                        lemma_push_contains(prev, f, g);
                    }
                }
            },
            _ => {},
        }
        assert forall|f: Failure| #[trigger] out@.contains(f) <==> old(out)@.contains(f) || (
        copy_before(f, k + 1) && is_failure(cs, a, pi@, f)) by {
            if copy_before(f, k + 1) && !copy_before(f, k as int) {
                assert(out@.contains(f) <==> start.contains(f) || is_failure(cs, a, pi@, f));
            }
        }
        k = k + 1;
    }
}

/// Whether some polynomial of gate `g` does not vanish at `row`.
fn gate_fails_at(cs: &ConstraintSystem, a: &Assignment, pi: &Vec<Vec<u64>>, g: usize, row: usize) -> (r: bool)
    requires
        a.wf(),
        g < cs.gates@.len(),
        row < a.rows,
    ensures
        r == gate_fails(cs, a, pi@, g as int, row as int),
{
    let polys = &cs.gates[g].polys;
    let mut j: usize = 0;
    while j < polys.len()
        invariant
            a.wf(),
            row < a.rows,
            polys == cs.gates@[g as int].polys,
            j <= polys@.len(),
            forall|t: int| 0 <= t < j ==> #[trigger] eval(polys@[t], a, pi@, row as int) == 0,
        decreases polys@.len() - j,
    {
        if evaluate(&polys[j], a, pi, row) != 0 {
            return true;
        }
        j = j + 1;
    }
    false
}

/// Appends a failure for each pair of gate and row where some polynomial of that gate is nonzero.
fn gate_failures(a: &Assignment, pi: &Vec<Vec<u64>>, cs: &ConstraintSystem, out: &mut Vec<Failure>)
    requires
        a.wf(),
    ensures
        forall|f: Failure|
            #[trigger] final(out)@.contains(f) <==> old(out)@.contains(f) || (gate_before(
                f,
                cs.gates@.len() as int,
                0,
            ) && is_failure(cs, a, pi@, f)),
{
    let mut g: usize = 0;
    while g < cs.gates.len()
        invariant
            a.wf(),
            g <= cs.gates@.len(),
            forall|f: Failure|
                #[trigger] out@.contains(f) <==> old(out)@.contains(f) || (gate_before(f, g as int, 0)
                    && is_failure(cs, a, pi@, f)),
        decreases cs.gates@.len() - g,
    {
        let mut r: usize = 0;
        while r < a.rows
            invariant
                a.wf(),
                g < cs.gates@.len(),
                r <= a.rows,
                forall|f: Failure|
                    #[trigger] out@.contains(f) <==> old(out)@.contains(f) || (gate_before(
                        f,
                        g as int,
                        r as int,
                    ) && is_failure(cs, a, pi@, f)),
            decreases a.rows - r,
        {
            if gate_fails_at(cs, a, pi, g, r) {
                let f = Failure::GateUnsatisfied { gate: g, row: r };
                let ghost prev = out@;
                out.push(f);
                assert forall|h: Failure| #[trigger] out@.contains(h) <==> prev.contains(h) || h == f by {
                    lemma_push_contains(prev, f, h);
                }
            }
            r = r + 1;
        }
        assert forall|f: Failure| #[trigger] out@.contains(f) <==> old(out)@.contains(f) || (
        gate_before(f, g + 1, 0) && is_failure(cs, a, pi@, f)) by {
            if gate_before(f, g + 1, 0) && !gate_before(f, g as int, a.rows as int) {
                assert(!is_failure(cs, a, pi@, f));
            }
        }
        g = g + 1;
    }
}

/// Whether the public inputs give one vector per instance column, each no
/// longer than the table.
fn check_shape(cs: &ConstraintSystem, a: &Assignment, pi: &Vec<Vec<u64>>) -> (r: bool)
    ensures
        r == shape_ok(cs, a, pi@),
{
    if pi.len() != cs.num_instance {
        return false;
    }
    let mut i: usize = 0;
    while i < pi.len()
        invariant
            i <= pi@.len(),
            forall|t: int| 0 <= t < i ==> (#[trigger] pi@[t])@.len() <= a.rows,
        decreases pi@.len() - i,
    {
        if pi[i].len() > a.rows {
            return false;
        }
        i = i + 1;
    }
    true
}

/// `f` is reported for the table `a` with public inputs `pi`: a violation,
/// or the wrong shape of the public inputs.
pub open spec fn reported(cs: &ConstraintSystem, a: &Assignment, pi: Seq<Vec<u64>>, f: Failure) -> bool {
    is_failure(cs, a, pi, f) || (f == Failure::PublicInputShape && !shape_ok(cs, a, pi))
}

/// Checks the table `a` of the circuit `cs` against the public inputs `pi`,
/// one vector per instance column. The shape of the public inputs, every
/// binding, every equality constraint, and every gate at every row are
/// checked, and every failure found is reported.
pub fn verify(cs: &ConstraintSystem, a: &Assignment, pi: &Vec<Vec<u64>>) -> (r: Result<(), Vec<Failure>>)
    requires
        a.wf(),
    ensures
        r is Ok <==> satisfied(cs, a, pi@),
        r is Err ==> forall|f: Failure|
            #[trigger] r->Err_0@.contains(f) <==> reported(cs, a, pi@, f),
{
    let mut out: Vec<Failure> = Vec::new();
    if !check_shape(cs, a, pi) {
        out.push(Failure::PublicInputShape);
    }
    assert forall|f: Failure| #[trigger] out@.contains(f) <==> (f == Failure::PublicInputShape && !shape_ok(cs, a, pi@)) by {
        if out@.len() > 0 {
            assert(out@[0] == Failure::PublicInputShape);
        }
    }
    binding_failures(a, pi, cs, &mut out);
    copy_failures(a, pi, cs, &mut out);
    gate_failures(a, pi, cs, &mut out);
    assert forall|f: Failure| #[trigger] out@.contains(f) <==> reported(cs, a, pi@, f) by {
        match f {
            Failure::PublicInputShape => {},
            Failure::PublicInputMismatch { .. } => {},
            Failure::UnassignedCell { .. } => {},
            Failure::UnequalCells { .. } => {},
            Failure::GateUnsatisfied { .. } => {},
        }
    }
    if out.len() == 0 {
        assert(shape_ok(cs, a, pi@)) by {
            assert(!out@.contains(Failure::PublicInputShape));
        }
        assert forall|f: Failure| !is_failure(cs, a, pi@, f) by {
            assert(!out@.contains(f));
        }
        Ok(())
    } else {
        assert(out@.contains(out@[0]));
        Err(out)
    }
}

/// Some equality constraint between `x` and `y`, in either order, is
/// reported as holding unequal values.
pub open spec fn unequal_reported(cs: &ConstraintSystem, a: &Assignment, pi: Seq<Vec<u64>>, x: Cell, y: Cell) -> bool {
    (exists|k: usize| #[trigger] is_failure(cs, a, pi, Failure::UnequalCells { copy: k, a: x, b: y }))
        || (exists|k: usize| #[trigger] is_failure(cs, a, pi, Failure::UnequalCells { copy: k, a: y, b: x }))
}

/// The pair `(x, y)` or its swap is among the equality constraints of `a`.
pub open spec fn has_copy(a: &Assignment, x: Cell, y: Cell) -> bool {
    a.copies@.contains((x, y)) || a.copies@.contains((y, x))
}

proof fn lemma_unequal_transfers(
    cs: &ConstraintSystem,
    a1: &Assignment,
    a2: &Assignment,
    pi: Seq<Vec<u64>>,
    x: Cell,
    y: Cell,
)
    requires
        a1.rows == a2.rows,
        a1.advice == a2.advice,
        a1.fixed == a2.fixed,
        a2.copies@.len() <= usize::MAX,
        forall|p: Cell, q: Cell| #[trigger] has_copy(a1, p, q) <==> has_copy(a2, p, q),
        unequal_reported(cs, a1, pi, x, y),
    ensures
        unequal_reported(cs, a2, pi, x, y),
{
    assert forall|c: Column, row: int| #[trigger] cell_value(a1, pi, c, row) == cell_value(a2, pi, c, row) by {
        assert(a1.slot(c, row) == a2.slot(c, row));
    }
    if exists|k: usize| #[trigger] is_failure(cs, a1, pi, Failure::UnequalCells { copy: k, a: x, b: y }) {
        let k = choose|k: usize| #[trigger] is_failure(cs, a1, pi, Failure::UnequalCells { copy: k, a: x, b: y });
        assert(a1.copies@[k as int] == (x, y));
        assert(has_copy(a1, x, y));
    } else {
        let k = choose|k: usize| #[trigger] is_failure(cs, a1, pi, Failure::UnequalCells { copy: k, a: y, b: x });
        assert(a1.copies@[k as int] == (y, x));
        assert(has_copy(a1, x, y));
    }
    assert(has_copy(a2, x, y));
    if a2.copies@.contains((x, y)) {
        let j = choose|j: int| 0 <= j < a2.copies@.len() && a2.copies@[j] == (x, y);
        assert(is_failure(cs, a2, pi, Failure::UnequalCells { copy: j as usize, a: x, b: y }));
    } else {
        let j = choose|j: int| 0 <= j < a2.copies@.len() && a2.copies@[j] == (y, x);
        assert(is_failure(cs, a2, pi, Failure::UnequalCells { copy: j as usize, a: y, b: x }));
    }
}

/// Whether equality constraint `copy` reports unequal values depends only on
/// the values of its two cells: never when both hold the same value, always
/// when both hold different ones. Tables whose equality constraints link the
/// same pairs of cells, registered in any order and each pair either way
/// round, report unequal values for the same pairs of cells.
pub proof fn lemma_equality_order_independent(
    cs: &ConstraintSystem,
    a1: &Assignment,
    a2: &Assignment,
    pi: Seq<Vec<u64>>,
    x: Cell,
    y: Cell,
)
    requires
        a1.rows == a2.rows,
        a1.advice == a2.advice,
        a1.fixed == a2.fixed,
        a1.copies@.len() <= usize::MAX,
        a2.copies@.len() <= usize::MAX,
        forall|p: Cell, q: Cell| #[trigger] has_copy(a1, p, q) <==> has_copy(a2, p, q),
    ensures
        forall|k: int|
            0 <= k < a1.copies@.len() && a1.copies@[k] == (x, y)
                && cell_value(a1, pi, x.column, x.row as int) is Some
                && cell_value(a1, pi, y.column, y.row as int) is Some
                ==> (#[trigger] is_failure(cs, a1, pi, Failure::UnequalCells { copy: k as usize, a: x, b: y })
                <==> cell_value(a1, pi, x.column, x.row as int) != cell_value(a1, pi, y.column, y.row as int)),
        unequal_reported(cs, a1, pi, x, y) <==> unequal_reported(cs, a2, pi, x, y),
{
    if unequal_reported(cs, a1, pi, x, y) {
        lemma_unequal_transfers(cs, a1, a2, pi, x, y);
    }
    if unequal_reported(cs, a2, pi, x, y) {
        lemma_unequal_transfers(cs, a2, a1, pi, x, y);
    }
}

proof fn lemma_eval_row_local(e: Expr, a1: &Assignment, a2: &Assignment, pi: Seq<Vec<u64>>, row: int)
    requires
        e.current_row_only(),
        a1.rows == a2.rows,
        0 <= row < a1.rows,
        forall|c: Column| #[trigger] cell_value(a1, pi, c, row) == cell_value(a2, pi, c, row),
    ensures
        eval(e, a1, pi, row) == eval(e, a2, pi, row),
    decreases e,
{
    match e {
        Expr::Constant(_) => {},
        Expr::Query(c, rot) => {
            vstd::arithmetic::div_mod::lemma_small_mod(row as nat, a1.rows as nat);
            assert(cell_value(a1, pi, c, row) == cell_value(a2, pi, c, row));
        },
        Expr::Negated(x) => {
            lemma_eval_row_local(*x, a1, a2, pi, row);
        },
        Expr::Sum(x, y) => {
            lemma_eval_row_local(*x, a1, a2, pi, row);
            lemma_eval_row_local(*y, a1, a2, pi, row);
        },
        Expr::Product(x, y) => {
            lemma_eval_row_local(*x, a1, a2, pi, row);
            lemma_eval_row_local(*y, a1, a2, pi, row);
        },
    }
}

/// A gate whose queries all read the row under evaluation fails at `row`
/// exactly when it fails on the values of that row: two tables that agree at
/// `row` both report it there or both do not, whatever their other rows contain.
pub proof fn lemma_row_isolation(
    cs: &ConstraintSystem,
    a1: &Assignment,
    a2: &Assignment,
    pi: Seq<Vec<u64>>,
    gate: usize,
    row: usize,
)
    requires
        gate < cs.gates@.len(),
        forall|j: int| 0 <= j < cs.gates@[gate as int].polys@.len()
            ==> (#[trigger] cs.gates@[gate as int].polys@[j]).current_row_only(),
        a1.rows == a2.rows,
        row < a1.rows,
        forall|c: Column| #[trigger] a1.slot(c, row as int) == a2.slot(c, row as int),
    ensures
        is_failure(cs, a1, pi, Failure::GateUnsatisfied { gate, row })
            <==> is_failure(cs, a2, pi, Failure::GateUnsatisfied { gate, row }),
        is_failure(cs, a1, pi, Failure::GateUnsatisfied { gate, row }) <==> exists|j: int|
            0 <= j < cs.gates@[gate as int].polys@.len()
                && #[trigger] eval(cs.gates@[gate as int].polys@[j], a1, pi, row as int) != 0,
{
    assert forall|c: Column| #[trigger] cell_value(a1, pi, c, row as int) == cell_value(a2, pi, c, row as int) by {
        assert(a1.slot(c, row as int) == a2.slot(c, row as int));
    }
    let polys = cs.gates@[gate as int].polys@;
    if gate_fails(cs, a1, pi, gate as int, row as int) {
        let j = choose|j: int| 0 <= j < polys.len() && #[trigger] eval(polys[j], a1, pi, row as int) != 0;
        lemma_eval_row_local(polys[j], a1, a2, pi, row as int);
        assert(eval(polys[j], a2, pi, row as int) != 0);
    }
    if gate_fails(cs, a2, pi, gate as int, row as int) {
        let j = choose|j: int| 0 <= j < polys.len() && #[trigger] eval(polys[j], a2, pi, row as int) != 0;
        lemma_eval_row_local(polys[j], a1, a2, pi, row as int);
        assert(eval(polys[j], a1, pi, row as int) != 0);
    }
}

} // verus!
