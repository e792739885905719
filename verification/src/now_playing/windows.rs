//! The track the Windows media session reports.

use vstd::prelude::*;
use crate::now_playing;
use crate::now_playing::NowPlaying;

verus! {

/// The track for the media properties of the current session: `None` when
/// the title is blank; an empty artist or album counts as missing.
pub fn current(title: String, artist: Option<String>, album: Option<String>) -> (r: Option<NowPlaying>)
    ensures
        if !now_playing::not_blank(title@) {
            r is None
        } else {
            r matches Some(t) && t.title == title && t.artist == (if artist matches Some(a) && a@.len()
                > 0 {
                artist
            } else {
                None
            }) && t.album == (if album matches Some(a) && a@.len() > 0 {
                album
            } else {
                None
            }) && t.artwork is None
        },
{
    let blank = {
        let t = crate::text::chars_of(title.as_str());
        let (b, e) = crate::text::trim_bounds(&t);
        b == e
    };
    if blank {
        return None;
    }
    let artist = match artist {
        Some(a) => if a.as_str().unicode_len() == 0 {
            None
        } else {
            Some(a)
        },
        None => None,
    };
    let album = match album {
        Some(a) => if a.as_str().unicode_len() == 0 {
            None
        } else {
            Some(a)
        },
        None => None,
    };
    Some(NowPlaying { title, artist, album, artwork: None })
}

} // verus!
