//! The core of a player for scripted movies: the value and object model of
//! its two script machines, their scope chains and operand stacks, event
//! dispatch, and the timeline logic that the machines drive.

pub mod avm1;
pub mod avm2;
pub mod backend;
pub mod display_object;
pub mod geometry;
pub mod movie_clip;
pub mod number;
pub mod text;
pub mod value;

use vstd::prelude::*;

verus! {

/// Whether property names are matched with regard to case in a movie of the
/// given format version: from version 7 on they are.
pub fn is_swf_case_sensitive(swf_version: u8) -> (r: bool)
    ensures
        r == (swf_version > 6),
{
    swf_version > 6
}

} // verus!
