use vstd::prelude::*;
use crate::color::Rgb;

verus! {

/// Pure black: the color of a sample that hits nothing, or of a point in shadow.
pub open spec fn black() -> Rgb {
    Rgb { r: 0, g: 0, b: 0 }
}

/// Some light is blocked from the surface point by a primitive.
pub open spec fn in_shadow(blocked: Seq<bool>) -> bool {
    exists|i: int| 0 <= i < blocked.len() && #[trigger] blocked[i]
}

/// The flat shading rule with binary shadows. `hit` is the intrinsic color of
/// the nearest primitive (none when the ray hits nothing) and `blocked[i]`
/// tells whether the shadow ray toward light `i` meets a primitive.
pub open spec fn shaded(hit: Option<Rgb>, blocked: Seq<bool>) -> Rgb {
    match hit {
        None => black(),
        Some(base) => if in_shadow(blocked) {
            black()
        } else {
            base
        },
    }
}

/// Color of one traced sample: black on a miss or when any light is
/// occluded, otherwise the primitive's own color, unmodified.
pub fn shade(hit: Option<Rgb>, blocked: &Vec<bool>) -> (c: Rgb)
    ensures
        c == shaded(hit, blocked@),
{
    let base = match hit {
        None => {
            return Rgb::new(0, 0, 0);
        },
        Some(base) => base,
    };
    let mut i: usize = 0;
    while i < blocked.len()
        invariant
            0 <= i <= blocked@.len(),
            forall|j: int| 0 <= j < i ==> !blocked@[j],
        decreases blocked@.len() - i,
    {
        if blocked[i] {
            return Rgb::new(0, 0, 0);
        }
        i += 1;
    }
    base
}

/// A single occluder between a surface point and its only blocked light
/// turns the point black, and taking that occluder away gives the
/// primitive's own color back.
pub proof fn occluder_removal_restores_color(base: Rgb, blocked: Seq<bool>, i: int)
    requires
        0 <= i < blocked.len(),
        blocked[i],
        forall|j: int| 0 <= j < blocked.len() && j != i ==> !blocked[j],
    ensures
        shaded(Some(base), blocked) == black(),
        shaded(Some(base), blocked.update(i, false)) == base,
{
    let cleared = blocked.update(i, false);
    assert(forall|j: int| 0 <= j < cleared.len() ==> !cleared[j]);
}

} // verus!
