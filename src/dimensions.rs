//! Output grid dimensions that keep the source's aspect ratio, measured in
//! glyph cells.
use vstd::prelude::*;

verus! {

/// `num / den` truncated toward zero and capped at `u32::MAX`; a zero
/// denominator gives `u32::MAX`, or zero when the numerator is zero too.
pub open spec fn scaled_side(num: nat, den: nat) -> nat {
    if den == 0 {
        if num == 0 {
            0
        } else {
            u32::MAX as nat
        }
    } else if num / den > u32::MAX {
        u32::MAX as nat
    } else {
        num / den
    }
}

/// The target size for a source of size `source` whose cells are `cell`
/// pixels. With `aspect = (source.0 / cell.0) / (source.1 / cell.1)`, a
/// width alone gives the height `width / aspect`, a height alone gives the width
/// `height * aspect`, both truncated toward zero.
pub open spec fn target_dimensions(
    source: (u32, u32),
    requested: (Option<u32>, Option<u32>),
    cell: (u32, u32),
) -> (u32, u32) {
    match requested {
        (None, None) => source,
        (Some(w), None) => (
            w,
            scaled_side(
                w as nat * source.1 as nat * cell.0 as nat,
                source.0 as nat * cell.1 as nat,
            ) as u32,
        ),
        (None, Some(h)) => (
            scaled_side(
                h as nat * source.0 as nat * cell.1 as nat,
                source.1 as nat * cell.0 as nat,
            ) as u32,
            h,
        ),
        (Some(w), Some(h)) => (w, h),
    }
}

fn scale(a: u32, b: u32, c: u32, d: u32, e: u32) -> (r: u32)
    ensures
        r as nat == scaled_side(a as nat * b as nat * c as nat, d as nat * e as nat),
{
    proof {
        let (u, v) = (d as nat, e as nat);
        assert(u * v <= 0xffff_ffff_ffff_ffff) by (nonlinear_arith)
            requires u <= 0xffff_ffff, v <= 0xffff_ffff;
        let (x, y, z) = (a as nat, b as nat, c as nat);
        assert(x * y <= 0xffff_ffff_ffff_ffff) by (nonlinear_arith)
            requires x <= 0xffff_ffff, y <= 0xffff_ffff;
        assert(x * y * z <= 0xffff_ffff_ffff_ffff_ffff_ffff) by (nonlinear_arith)
            requires x * y <= 0xffff_ffff_ffff_ffff, z <= 0xffff_ffff;
    }
    let num: u128 = a as u128 * b as u128 * c as u128;
    let den: u128 = d as u128 * e as u128;
    if den == 0 {
        if num == 0 {
            0
        } else {
            u32::MAX
        }
    } else {
        let q = num / den;
        if q > u32::MAX as u128 {
            u32::MAX
        } else {
            q as u32
        }
    }
}

/// Computes the size to which a source image of size `source` is resized
/// before quantisation, for cells of size `cell`.
pub fn calculate_new_dimensions(
    source: (u32, u32),
    requested: (Option<u32>, Option<u32>),
    cell: (u32, u32),
) -> (r: (u32, u32))
    ensures
        r == target_dimensions(source, requested, cell),
{
    match requested {
        (None, None) => source,
        (Some(w), None) => (w, scale(w, source.1, cell.0, source.0, cell.1)),
        (None, Some(h)) => (scale(h, source.0, cell.1, source.1, cell.0), h),
        (Some(w), Some(h)) => (w, h),
    }
}

} // verus!
