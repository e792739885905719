//! The track the macOS media session reports.  The system's now-playing
//! information is read first; an older interface is asked as a fallback
//! when the first gives no track or no artwork.

use vstd::prelude::*;
use crate::metadata;
use crate::metadata::normalize_chars;
use crate::now_playing::NowPlaying;
use crate::text::{chars_of, same_chars};

verus! {

/// Whether the fallback interface has to be asked.
pub fn needs_fallback(system: &Option<NowPlaying>) -> (r: bool)
    ensures
        r == (system matches Some(t) ==> t.artwork is None),
{
    match system {
        None => true,
        Some(t) => t.artwork.is_none(),
    }
}

/// The track to report: the fallback's when the system has none;
/// otherwise the system's, which takes the fallback's artwork (and its
/// artist and album where the system has none) when it has no artwork and
/// both name the same title once normalised.
pub fn current(system: Option<NowPlaying>, fallback: Option<NowPlaying>) -> (r: Option<NowPlaying>)
    ensures
        match system {
            None => r == fallback,
            Some(s) => r matches Some(t) && t.title == s.title && if s.artwork is None && (
            fallback matches Some(f) && metadata::normalized(f.title@) == metadata::normalized(
                s.title@,
            )) {
                let f = fallback->0;
                &&& t.artwork == f.artwork
                &&& t.artist == if s.artist is None {
                    f.artist
                } else {
                    s.artist
                }
                &&& t.album == if s.album is None {
                    f.album
                } else {
                    s.album
                }
            } else {
                t.artwork == s.artwork && t.artist == s.artist && t.album == s.album
            },
        },
{
    match system {
        None => fallback,
        Some(cur) => {
            if cur.artwork.is_some() {
                return Some(cur);
            }
            match fallback {
                None => Some(cur),
                Some(f) => {
                    let ft = chars_of(f.title.as_str());
                    let ct = chars_of(cur.title.as_str());
                    let fk = normalize_chars(&ft);
                    let ck = normalize_chars(&ct);
                    if !same_chars(&fk, &ck) {
                        return Some(cur);
                    }
                    let artist = match cur.artist {
                        None => f.artist,
                        Some(a) => Some(a),
                    };
                    let album = match cur.album {
                        None => f.album,
                        Some(a) => Some(a),
                    };
                    Some(NowPlaying { title: cur.title, artist, album, artwork: f.artwork })
                },
            }
        },
    }
}

} // verus!
