//! Detection of the ruled grid of a scanned table.
//!
//! Starting from a binarized grayscale pixel field, the library finds maximal
//! runs of dark pixels along both axes, merges nearby runs into border
//! segments, filters out segments too short to be a table border, collapses
//! near-duplicate border candidates into stable grid lines, and pairs adjacent
//! lines into inset cell rectangles ready to be handed to a text recognizer.
//!
//! Decoding an image file, contrast adjustment and the text recognition
//! engine itself are collaborators outside this crate: the library works on a
//! plain pixel grid and returns plain rectangles.

use vstd::prelude::*;

pub mod dedup;
pub mod grid;
pub mod pipeline;
pub mod pixels;
pub mod scan;
pub mod segment;

verus! {

/// Image formats accepted by the surrounding decoding glue. The core works on
/// already-decoded pixel grids and never inspects the encoded form.
pub enum Format {
    Png,
}

} // verus!
