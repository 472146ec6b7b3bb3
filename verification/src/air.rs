//! The algebraic building blocks of the constraint system.
//!
//! A proving backend can only check that fixed-degree polynomials vanish, so
//! every control-flow decision of the machine is expressed through these
//! expressions: booleanity of a cell as `x(x-1)`, a one-hot block through its
//! sum, a register read as a dot product with a selector block, and a
//! conditional write as a selector-weighted blend.  Each expression comes
//! with its evaluator and with the lemma that a well-formed one-hot encoding
//! makes it degenerate to the intended value.

use crate::field::{
    fadd, fmul, fsub, in_field, lemma_fadd_small, lemma_field_identities,
    lemma_field_ops_in_field, Fp,
};
use crate::isa::{block_view, cells_wf, one_hot_val};
use vstd::prelude::*;

verus! {

/// The expression `x(x-1)`, which vanishes exactly on boolean cells.
pub open spec fn bool_expr(x: int) -> int {
    fmul(x, fsub(x, 1))
}

/// The field sum of a block of four cells.
pub open spec fn block_sum(s: Seq<int>) -> int {
    fadd(fadd(fadd(s[0], s[1]), s[2]), s[3])
}

/// The dot product of the register block with a selector block.
pub open spec fn dot(r: Seq<int>, s: Seq<int>) -> int {
    fadd(fadd(fadd(fmul(r[0], s[0]), fmul(r[1], s[1])), fmul(r[2], s[2])), fmul(r[3], s[3]))
}

/// The conditional write `x·(1-d) + res·d`: carry `x` forward where the
/// destination selector `d` is zero, store `res` where it is one.
pub open spec fn blend(x: int, res: int, d: int) -> int {
    fadd(fmul(x, fsub(1, d)), fmul(res, d))
}

/// Boolean cells make `x(x-1)` vanish.
pub proof fn lemma_bool_expr_zero(x: int)
    requires
        x == 0 || x == 1,
    ensures
        bool_expr(x) == 0,
{
    lemma_field_ops_in_field(x, 1);
    if x == 0 {
        lemma_field_identities(fsub(0, 1));
    } else {
        lemma_field_identities(1);
    }
}

/// A one-hot block sums to one in the field.
pub proof fn lemma_one_hot_block_sum(s: Seq<int>, sel: int)
    requires
        0 <= sel < 4,
        forall|k: int| 0 <= k < 4 ==> s[k] == one_hot_val(sel, k),
    ensures
        block_sum(s) == 1,
{
    lemma_fadd_small(s[0], s[1]);
    lemma_fadd_small(fadd(s[0], s[1]), s[2]);
    lemma_fadd_small(fadd(fadd(s[0], s[1]), s[2]), s[3]);
}

/// The dot product with a one-hot block degenerates to the selected cell.
pub proof fn lemma_dot_one_hot(r: Seq<int>, s: Seq<int>, sel: int)
    requires
        r.len() == 4,
        cells_wf(r),
        0 <= sel < 4,
        forall|k: int| 0 <= k < 4 ==> s[k] == one_hot_val(sel, k),
    ensures
        dot(r, s) == r[sel],
{
    lemma_field_identities(r[0]);
    lemma_field_identities(r[1]);
    lemma_field_identities(r[2]);
    lemma_field_identities(r[3]);
    lemma_field_identities(0);
    lemma_field_identities(r[sel]);
}

/// The blend selects its branch when the selector cell is boolean.
pub proof fn lemma_blend(x: int, res: int, d: int)
    requires
        in_field(x),
        in_field(res),
        d == 0 || d == 1,
    ensures
        d == 0 ==> blend(x, res, d) == x,
        d == 1 ==> blend(x, res, d) == res,
{
    lemma_field_identities(1);
    lemma_field_identities(x);
    lemma_field_identities(res);
    lemma_field_identities(0);
}

/// Evaluate [`bool_expr`] on a cell.
pub fn eval_bool(x: Fp) -> (r: Fp)
    requires
        x.wf(),
    ensures
        r@ == bool_expr(x@),
        r.wf(),
{
    x.mul(x.sub(Fp::one()))
}

/// Evaluate [`block_sum`] on a block.
pub fn eval_block_sum(block: &[Fp; 4]) -> (r: Fp)
    requires
        cells_wf(block_view(*block)),
    ensures
        r@ == block_sum(block_view(*block)),
        r.wf(),
{
    proof {
        crate::isa::lemma_block_cells_wf(*block);
    }
    block[0].add(block[1]).add(block[2]).add(block[3])
}

/// Evaluate [`dot`] on a register block and a selector block.
pub fn eval_dot(r: &[Fp; 4], s: &[Fp; 4]) -> (res: Fp)
    requires
        cells_wf(block_view(*r)),
        cells_wf(block_view(*s)),
    ensures
        res@ == dot(block_view(*r), block_view(*s)),
        res.wf(),
{
    proof {
        crate::isa::lemma_block_cells_wf(*r);
        crate::isa::lemma_block_cells_wf(*s);
    }
    r[0].mul(s[0]).add(r[1].mul(s[1])).add(r[2].mul(s[2])).add(r[3].mul(s[3]))
}

/// Evaluate [`blend`] on a register cell, a result and a selector cell.
pub fn eval_blend(x: Fp, res: Fp, d: Fp) -> (r: Fp)
    requires
        x.wf(),
        res.wf(),
        d.wf(),
    ensures
        r@ == blend(x@, res@, d@),
        r.wf(),
{
    x.mul(Fp::one().sub(d)).add(res.mul(d))
}

/// Whether every evaluated constraint in `v` vanishes.
pub fn all_zero(v: &Vec<Fp>) -> (r: bool)
    ensures
        r == (forall|j: int| 0 <= j < v@.len() ==> (#[trigger] v@[j])@ == 0),
{
    let mut j: usize = 0;
    while j < v.len()
        invariant
            j <= v@.len(),
            forall|jj: int| 0 <= jj < j ==> (#[trigger] v@[jj])@ == 0,
        decreases v@.len() - j,
    {
        if !v[j].is_zero() {
            return false;
        }
        j += 1;
    }
    true
}

} // verus!
