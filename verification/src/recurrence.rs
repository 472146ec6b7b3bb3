//! The pure-recurrence chip: a two-column trace of the Fibonacci pair.
//!
//! This chip has no selectors at all.  Row `i` holds the pair
//! `(fib(i), fib(i+1))` reduced into the field; the constraint system
//! fixes the first row to `(0, 1)` with boundary constraints and relates
//! every pair of adjacent rows by the recurrence.

use crate::field::{fadd, fsub, lemma_field_identities, Fp, FIELD_MODULUS};
use crate::pow2::is_pow2;
use vstd::arithmetic::div_mod::{lemma_add_mod_noop, lemma_small_mod};
use vstd::prelude::*;

verus! {

/// The column count of the recurrence chip: the two pair members.
pub const NUM_FIBONACCI_COLS: usize = 2;

/// The stateless descriptor of the recurrence chip.
pub struct FibonacciChip;

/// One row of the recurrence trace: the pair `(fib(i), fib(i+1))`.
#[derive(Clone, Copy, Debug)]
pub struct FibonacciRow {
    /// The value `fib(i)` of this row.
    pub a: Fp,
    /// The value `fib(i + 1)` of this row.
    pub b: Fp,
}

/// The Fibonacci numbers over the unbounded integers.
pub open spec fn fib(n: nat) -> nat
    decreases n,
{
    if n == 0 {
        0
    } else if n == 1 {
        1
    } else {
        fib((n - 2) as nat) + fib((n - 1) as nat)
    }
}

/// The Fibonacci numbers reduced into the field.
pub open spec fn fib_mod(n: nat) -> int {
    (fib(n) as int) % (FIELD_MODULUS as int)
}

impl FibonacciRow {
    /// Build a row from its two pair members.
    pub fn new(a: Fp, b: Fp) -> (r: FibonacciRow)
        ensures
            r.a == a,
            r.b == b,
    {
        FibonacciRow { a, b }
    }

    /// Both cells hold canonical field values.
    pub open spec fn wf(self) -> bool {
        self.a.wf() && self.b.wf()
    }
}

/// What a generated recurrence trace guarantees: row `i` holds the
/// canonical residues of `fib(i)` and `fib(i+1)`.
pub open spec fn fibonacci_trace_ok(t: Seq<FibonacciRow>) -> bool {
    forall|i: int|
        0 <= i < t.len() ==> (#[trigger] t[i]).a@ == fib_mod(i as nat) && t[i].b@ == fib_mod(
            (i + 1) as nat,
        )
}

/// The boundary constraint expressions on the first row, fixing the pair
/// to `(0, 1)`.
pub open spec fn fibonacci_boundary_expr(row: FibonacciRow, j: int) -> int {
    if j == 0 {
        row.a@
    } else {
        fsub(row.b@, 1)
    }
}

/// The transition constraint expressions between adjacent rows: the next
/// pair is `(b, a + b)`.
pub open spec fn fibonacci_transition_expr(local: FibonacciRow, next: FibonacciRow, j: int) -> int {
    if j == 0 {
        fsub(next.a@, local.b@)
    } else {
        fsub(next.b@, fadd(local.a@, local.b@))
    }
}

/// The whole constraint system vanishes on the trace: the boundary
/// constraints on the first row and the transition constraints between
/// every pair of adjacent rows.
pub open spec fn fibonacci_air_ok(t: Seq<FibonacciRow>) -> bool {
    &&& t.len() >= 1 ==> fibonacci_boundary_expr(t[0], 0) == 0 && fibonacci_boundary_expr(t[0], 1)
        == 0
    &&& forall|i: int|
        0 <= i < t.len() - 1 ==> fibonacci_transition_expr(#[trigger] t[i], t[i + 1], 0) == 0
            && fibonacci_transition_expr(t[i], t[i + 1], 1) == 0
}

impl FibonacciChip {
    /// The column count of this chip.
    pub fn width(&self) -> (r: usize)
        ensures
            r == NUM_FIBONACCI_COLS,
    {
        NUM_FIBONACCI_COLS
    }

    /// Generate the recurrence trace of `n` rows, `n` a power of two:
    /// row 0 is exactly `(0, 1)` and each later row is `(b, a + b)` of
    /// its predecessor, all in the field.
    pub fn generate_trace(n: usize) -> (r: Vec<FibonacciRow>)
        requires
            is_pow2(n as int),
        ensures
            r@.len() == n,
            fibonacci_trace_ok(r@),
            r@[0].a@ == 0,
            r@[0].b@ == 1,
            forall|i: int| 0 <= i < n ==> (#[trigger] r@[i]).wf(),
    {
        proof {
            crate::pow2::lemma_pow2_pos(n as int);
        }
        let mut trace: Vec<FibonacciRow> = Vec::new();
        let first = FibonacciRow::new(Fp::zero(), Fp::one());
        proof {
            lemma_small_mod(0, FIELD_MODULUS as nat);
            lemma_small_mod(1, FIELD_MODULUS as nat);
        }
        trace.push(first);
        let mut i: usize = 1;
        while i < n
            invariant
                1 <= i,
                trace@.len() == i,
                i <= n,
                fibonacci_trace_ok(trace@),
                forall|ii: int| 0 <= ii < i ==> (#[trigger] trace@[ii]).wf(),
            decreases n - i,
        {
            let prev = trace[i - 1];
            let row = FibonacciRow::new(prev.b, prev.a.add(prev.b));
            proof {
                lemma_add_mod_noop(
                    fib((i - 1) as nat) as int,
                    fib(i as nat) as int,
                    FIELD_MODULUS as int,
                );
                assert(fib((i + 1) as nat) == fib((i - 1) as nat) + fib(i as nat));
            }
            trace.push(row);
            i += 1;
        }
        trace
    }

    /// Evaluate the two boundary constraints on the first row.
    pub fn eval_first_row(&self, local: &FibonacciRow) -> (r: Vec<Fp>)
        requires
            local.wf(),
        ensures
            r@.len() == 2,
            r@[0]@ == fibonacci_boundary_expr(*local, 0),
            r@[1]@ == fibonacci_boundary_expr(*local, 1),
    {
        let mut r: Vec<Fp> = Vec::new();
        r.push(local.a);
        r.push(local.b.sub(Fp::one()));
        r
    }

    /// Evaluate the two transition constraints between adjacent rows.
    pub fn eval_transition(&self, local: &FibonacciRow, next: &FibonacciRow) -> (r: Vec<Fp>)
        requires
            local.wf(),
            next.wf(),
        ensures
            r@.len() == 2,
            r@[0]@ == fibonacci_transition_expr(*local, *next, 0),
            r@[1]@ == fibonacci_transition_expr(*local, *next, 1),
    {
        let mut r: Vec<Fp> = Vec::new();
        r.push(next.a.sub(local.b));
        r.push(next.b.sub(local.a.add(local.b)));
        r
    }

    /// Check the whole constraint system on a trace, exactly as a backend
    /// would: the boundary constraints on the first row and the
    /// transition constraints between every pair of adjacent rows.
    pub fn check_trace(&self, trace: &Vec<FibonacciRow>) -> (r: bool)
        requires
            forall|i: int| 0 <= i < trace@.len() ==> (#[trigger] trace@[i]).wf(),
        ensures
            r == fibonacci_air_ok(trace@),
    {
        let n = trace.len();
        if n == 0 {
            return true;
        }
        let boundary = self.eval_first_row(&trace[0]);
        if !all_zero_vec(&boundary) {
            return false;
        }
        let mut i: usize = 0;
        while i < n - 1
            invariant
                1 <= n == trace@.len(),
                i <= n - 1,
                forall|ii: int| 0 <= ii < trace@.len() ==> (#[trigger] trace@[ii]).wf(),
                fibonacci_boundary_expr(trace@[0], 0) == 0,
                fibonacci_boundary_expr(trace@[0], 1) == 0,
                forall|ii: int|
                    0 <= ii < i ==> fibonacci_transition_expr(#[trigger] trace@[ii], trace@[ii + 1], 0)
                        == 0 && fibonacci_transition_expr(trace@[ii], trace@[ii + 1], 1) == 0,
            decreases n - i,
        {
            let transition = self.eval_transition(&trace[i], &trace[i + 1]);
            if !all_zero_vec(&transition) {
                return false;
            }
            i += 1;
        }
        true
    }
}

/// Whether every evaluated constraint in `v` vanishes.
fn all_zero_vec(v: &Vec<Fp>) -> (r: bool)
    ensures
        r == (forall|j: int| 0 <= j < v@.len() ==> (#[trigger] v@[j])@ == 0),
{
    crate::air::all_zero(v)
}

/// The boundary law: the first row of a generated recurrence trace is
/// exactly the pair `(0, 1)`.
pub proof fn lemma_fibonacci_boundary(t: Seq<FibonacciRow>)
    requires
        t.len() >= 1,
        fibonacci_trace_ok(t),
    ensures
        t[0].a@ == 0,
        t[0].b@ == 1,
{
    lemma_small_mod(0, FIELD_MODULUS as nat);
    lemma_small_mod(1, FIELD_MODULUS as nat);
}

/// The recurrence law: every adjacent pair of rows satisfies
/// `next.a == local.b` and `next.b == local.a + local.b` in the field.
pub proof fn lemma_fibonacci_recurrence(t: Seq<FibonacciRow>)
    requires
        fibonacci_trace_ok(t),
    ensures
        forall|i: int|
            0 <= i < t.len() - 1 ==> (#[trigger] t[i + 1]).a@ == t[i].b@ && t[i + 1].b@ == fadd(
                t[i].a@,
                t[i].b@,
            ),
{
    assert forall|i: int|
        0 <= i < t.len() - 1 implies (#[trigger] t[i + 1]).a@ == t[i].b@ && t[i + 1].b@ == fadd(
        t[i].a@,
        t[i].b@,
    ) by {
        lemma_add_mod_noop(fib(i as nat) as int, fib((i + 1) as nat) as int, FIELD_MODULUS as int);
        assert(fib((i + 2) as nat) == fib(i as nat) + fib((i + 1) as nat));
        assert(t[i].a@ == fib_mod(i as nat));
        assert(t[i + 1].a@ == fib_mod((i + 1) as nat));
        assert(t[i + 1].b@ == fib_mod((i + 2) as nat));
    }
}

/// Soundness of the generator against the constraint system: a generated
/// recurrence trace satisfies all boundary and transition constraints.
pub proof fn lemma_fibonacci_air_soundness(t: Seq<FibonacciRow>)
    requires
        fibonacci_trace_ok(t),
        forall|i: int| 0 <= i < t.len() ==> (#[trigger] t[i]).wf(),
    ensures
        fibonacci_air_ok(t),
{
    if t.len() >= 1 {
        lemma_fibonacci_boundary(t);
        lemma_field_identities(1);
    }
    lemma_fibonacci_recurrence(t);
    assert forall|i: int|
        0 <= i < t.len() - 1 implies fibonacci_transition_expr(#[trigger] t[i], t[i + 1], 0) == 0
        && fibonacci_transition_expr(t[i], t[i + 1], 1) == 0 by {
        lemma_field_identities(t[i + 1].a@);
        lemma_field_identities(t[i + 1].b@);
    }
}

} // verus!
