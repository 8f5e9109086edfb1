//! Font support for the surrounding shell.

use vstd::prelude::*;

verus! {

/// Font data for the embedding shell's text rendering. The raster core
/// bundles no font of its own, so this is an empty byte buffer; a shell
/// that needs a specific typeface supplies its own bytes instead.
pub fn setup_fonts() -> (r: Vec<u8>)
    ensures
        r@.len() == 0,
{
    Vec::new()
}

} // verus!
