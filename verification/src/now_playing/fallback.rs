//! The media session on systems where none can be read.

use vstd::prelude::*;
use crate::now_playing::NowPlaying;

verus! {

/// No track is ever reported.
pub fn current() -> (r: Option<NowPlaying>)
    ensures
        r is None,
{
    None
}

} // verus!
