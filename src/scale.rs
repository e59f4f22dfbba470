use vstd::prelude::*;

verus! {

/// A uniform scale factor held as the exact ratio `num / den`: one unit of
/// source length becomes `num / den` output pixels.
#[derive(Clone, Copy, Debug, PartialEq, Eq, Structural)]
pub struct Scale {
    pub num: u64,
    pub den: u64,
}

impl Scale {
    /// A source length `len` scaled by `self` is at most `edge` pixels.
    pub open spec fn fits(self, len: int, edge: int) -> bool {
        len * self.num <= edge * self.den
    }

    /// A source length `len` scaled by `self` is exactly `edge` pixels.
    pub open spec fn reaches(self, len: int, edge: int) -> bool {
        len * self.num == edge * self.den
    }
}

/// The longer of the two sides.
pub open spec fn longer_side(w: int, h: int) -> int {
    if w >= h { w } else { h }
}

/// The largest uniform scale at which a `source_width` x `source_height`
/// artwork fits inside a `target_edge` square: the smaller of
/// `target_edge / source_width` and `target_edge / source_height`, which is
/// `target_edge` over the longer side. Both sides are given in one common
/// length unit; the result is exact, with no rounding.
pub fn compute_scale(source_width: u64, source_height: u64, target_edge: u32) -> (s: Scale)
    requires
        source_width > 0,
        source_height > 0,
        target_edge > 0,
    ensures
        s.num == target_edge as int,
        s.den == longer_side(source_width as int, source_height as int),
        s.den > 0,
        s.fits(source_width as int, target_edge as int),
        s.fits(source_height as int, target_edge as int),
        s.reaches(source_width as int, target_edge as int) || s.reaches(
            source_height as int,
            target_edge as int,
        ),
{
    let den: u64 = if source_width >= source_height { source_width } else { source_height };
    let s = Scale { num: target_edge as u64, den };
    proof {
        let e = target_edge as int;
        let w = source_width as int;
        let h = source_height as int;
        let d = den as int;
        assert(w * e <= e * d) by (nonlinear_arith) requires w <= d, e > 0;
        assert(h * e <= e * d) by (nonlinear_arith) requires h <= d, e > 0;
        assert(d * e == e * d) by (nonlinear_arith);
    }
    s
}

} // verus!
