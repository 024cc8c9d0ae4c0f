//! What a renderer is asked for.

use vstd::prelude::*;
use crate::font::FittingRules;

verus! {

/// The options of one rendering: the size of the output, the direction of
/// the text, whether lines break at white space, and the fitting rules to
/// lay the glyphs out with.
#[allow(non_snake_case)]
pub struct OutputOpts {
    pub height: usize,
    pub width: usize,
    pub print_direction: u8,
    pub white_space_break: bool,
    pub fittingRules: FittingRules,
}

} // verus!
