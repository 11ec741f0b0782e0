use vstd::prelude::*;
use vstd::arithmetic::div_mod::{lemma_fundamental_div_mod, lemma_mod_multiples_basic, lemma_mod_adds, lemma_mod_decreases};

verus! {

/// `size` rounded up to the next multiple of `align`; a request of no bytes
/// takes one unit of alignment.
pub open spec fn rounded(size: int, align: int) -> int {
    if size == 0 {
        align
    } else if size % align == 0 {
        size
    } else {
        size - size % align + align
    }
}

/// The rounded size is a positive multiple of the alignment, no smaller than
/// the size and at most one unit above it.
pub proof fn lemma_rounded(size: int, align: int)
    requires
        size >= 0,
        align > 0,
    ensures
        rounded(size, align) % align == 0,
        rounded(size, align) >= size,
        rounded(size, align) > 0,
        rounded(size, align) <= size + align,
{
    lemma_fundamental_div_mod(size, align);
    lemma_mod_multiples_basic(size / align + 1, align);
    lemma_mod_multiples_basic(1, align);
    assert((size / align + 1) * align == align * (size / align) + align) by (nonlinear_arith);
}

/// The sum of two multiples of `align` is a multiple of `align`.
pub proof fn lemma_sum_aligned(a: int, b: int, align: int)
    requires
        align > 0,
        a % align == 0,
        b % align == 0,
    ensures
        (a + b) % align == 0,
{
    lemma_mod_adds(a, b, align);
}

/// A multiple of `outer` is a multiple of every divisor of `outer`.
pub proof fn lemma_divisor_aligned(x: int, outer: int, inner: int)
    requires
        outer > 0,
        inner > 0,
        x >= 0,
        x % outer == 0,
        outer % inner == 0,
    ensures
        x % inner == 0,
{
    lemma_fundamental_div_mod(x, outer);
    lemma_fundamental_div_mod(outer, inner);
    let q = x / outer;
    let p = outer / inner;
    assert(x == (q * p) * inner) by (nonlinear_arith)
        requires
            x == outer * q,
            outer == inner * p,
    ;
    lemma_mod_multiples_basic(q * p, inner);
}

/// Rounds `size` up to the alignment, or reports that the result would pass
/// `limit`.
pub fn round_up(size: u64, align: u64, limit: u64) -> (r: Option<u64>)
    requires
        align > 0,
    ensures
        r.is_some() <==> rounded(size as int, align as int) <= limit,
        r.is_some() ==> r.unwrap() == rounded(size as int, align as int),
{
    proof {
        lemma_rounded(size as int, align as int);
        lemma_mod_decreases(size as nat, align as nat);
    }
    if size == 0 {
        if align <= limit { Some(align) } else { None }
    } else {
        let rem: u64 = size % align;
        if rem == 0 {
            if size <= limit { Some(size) } else { None }
        } else {
            let base: u64 = size - rem;
            if base <= limit && align <= limit - base {
                Some(base + align)
            } else {
                None
            }
        }
    }
}

} // verus!
