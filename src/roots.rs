use vstd::prelude::*;

verus! {

/// Which of a surface's two intersection parameters is accepted.
#[derive(Clone, Copy, Debug, PartialEq, Eq, Structural)]
pub enum Root {
    /// The smaller parameter: where the ray enters the surface.
    Near,
    /// The larger parameter: where the ray leaves it.
    Far,
}

/// `t` lies strictly inside the open window `(lo, hi)`.
pub open spec fn within(lo: i32, hi: i32, t: i32) -> bool {
    lo < t && t < hi
}

/// Chooses the intersection to report for a search window `(lo, hi)`: the near
/// root when it lies strictly inside the window, else the far root when that
/// does, else none. All four values are order keys of ray parameters, so that
/// a smaller key is a smaller parameter.
pub fn first_within(lo: i32, hi: i32, near: i32, far: i32) -> (r: Option<Root>)
    ensures
        r == Some(Root::Near) <==> within(lo, hi, near),
        r == Some(Root::Far) <==> !within(lo, hi, near) && within(lo, hi, far),
        r is None <==> !within(lo, hi, near) && !within(lo, hi, far),
{
    if lo < near && near < hi {
        Some(Root::Near)
    } else if lo < far && far < hi {
        Some(Root::Far)
    } else {
        None
    }
}

} // verus!
