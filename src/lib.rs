//! Decision logic of a small recursive ray tracer.
//!
//! Geometry and colour arithmetic run on floating point and live with the
//! renderer; this library holds the choices made around them: which of the
//! surfaces struck by a ray is the visible one, and how a light path spends its
//! bounce budget before it is absorbed or escapes to the sky.
//!
//! Ray parameters reach the library as order keys (`order_key` of a single's
//! bit pattern), integers that compare as the parameters do.

mod bounce;
mod keys;
mod nearest;
mod roots;

pub use nearest::{
    Roots, answer, answers, closest_hit, is_nearest, nearest_key, reports, lemma_nearest_ignores_order,
    lemma_closest_ignores_surface_order,
};
pub use bounce::{
    Shade, Step, Path, halve, halve_times, shade, settle, lemma_path_matches_recursion,
    lemma_no_depth_is_black,
};
pub use keys::{SIGN_BIT, order_key, signed_magnitude};
pub use roots::{Root, first_within, within};
