//! The color a style may carry.

use vstd::prelude::*;

verus! {

/// `ecolor::Color32`, a 32-bit color with premultiplied alpha.
///
/// The verifier treats a color as an opaque value: styles only carry it
/// around. What it holds is named by [`color_rgba`].
#[verifier::external_type_specification]
#[verifier::external_body]
pub struct ExColor32(ecolor::Color32);

/// The four bytes a color holds: red, green, blue and alpha, in this order.
pub uninterp spec fn color_rgba(color: ecolor::Color32) -> Seq<u8>;

/// Reads the channels of a color with `Color32::to_array`, which returns
/// the red, green, blue and alpha bytes in this order.
#[verifier::external_body]
pub(crate) fn channels(color: ecolor::Color32) -> (res: [u8; 4])
    ensures
        res@ == color_rgba(color),
{
    color.to_array()
}

} // verus!
