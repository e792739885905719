//! The track that is playing, as the operating system's media session
//! reports it, and the lookup that finds its artwork.

pub mod macos;
pub mod windows;
pub mod fallback;

use vstd::prelude::*;
use vstd::string::*;
use crate::metadata;
use crate::metadata::{artist_for_lookup, normalize, title_for_lookup};
use crate::text;
use crate::text::{chars_of, trim_bounds};

verus! {

/// A track reported by the media session.
#[derive(Debug, Clone)]
pub struct NowPlaying {
    pub title: String,
    pub artist: Option<String>,
    pub album: Option<String>,
    pub artwork: Option<String>,
}

/// Text that holds more than whitespace.
pub open spec fn not_blank(s: Seq<char>) -> bool {
    text::trim(s).len() > 0
}

fn is_blank(s: &str) -> (r: bool)
    ensures
        r == !not_blank(s@),
{
    let cs = chars_of(s);
    let (b, e) = trim_bounds(&cs);
    b == e
}

/// The track to show: `None` when nothing plays or its title is blank;
/// otherwise the track, without its artwork when that is blank.  A track
/// left without artwork is then given the artwork its lookup finds.
pub fn current(track: Option<NowPlaying>) -> (r: Option<NowPlaying>)
    ensures
        match track {
            None => r is None,
            Some(t) => if !not_blank(t.title@) {
                r is None
            } else {
                r matches Some(x) && x.title == t.title && x.artist == t.artist && x.album
                    == t.album && x.artwork == (if t.artwork matches Some(a) && not_blank(a@) {
                    t.artwork
                } else {
                    None
                })
            },
        },
{
    match track {
        None => None,
        Some(t) => {
            if is_blank(t.title.as_str()) {
                return None;
            }
            let artwork = match t.artwork {
                Some(a) => if is_blank(a.as_str()) {
                    None
                } else {
                    Some(a)
                },
                None => None,
            };
            Some(NowPlaying { title: t.title, artist: t.artist, album: t.album, artwork })
        },
    }
}

/// What the artwork of a track is looked up by.
pub struct ArtworkQuery {
    pub title: String,
    pub artist: String,
    pub album: Option<String>,
    /// The cache key: the normalised artist, title and album, separated by `|`.
    pub key: String,
}

/// The cache key of a lookup.
pub open spec fn lookup_key(artist: Seq<char>, title: Seq<char>, album: Option<Seq<char>>) -> Seq<char> {
    metadata::normalized(artist) + seq!['|'] + metadata::normalized(title) + seq!['|']
        + metadata::normalized(
        match album {
            Some(a) => a,
            None => seq![],
        },
    )
}

/// The lookup for a track's artwork: `None` when the track has no artist
/// or the artist is blank once cleaned; otherwise the cleaned artist, the
/// title cleaned against it, the album, and the cache key.
pub fn artwork_query(track: &NowPlaying) -> (r: Option<ArtworkQuery>)
    ensures
        match track.artist {
            None => r is None,
            Some(a) => if metadata::lookup_artist(a@).len() == 0 {
                r is None
            } else {
                r matches Some(q) && q.artist@ == metadata::lookup_artist(a@) && q.title@
                    == metadata::lookup_title(track.title@, metadata::lookup_artist(a@))
                    && q.album == track.album && q.key@ == lookup_key(
                    q.artist@,
                    q.title@,
                    match track.album {
                        Some(al) => Some(al@),
                        None => None,
                    },
                )
            },
        },
{
    let artist_full = match &track.artist {
        Some(a) => a,
        None => return None,
    };
    let artist = artist_for_lookup(artist_full.as_str());
    if artist.unicode_len() == 0 {
        return None;
    }
    let title = title_for_lookup(track.title.as_str(), artist);
    let mut key = normalize(artist);
    key.append("|");
    let title_key = normalize(title.as_str());
    key.append(title_key.as_str());
    key.append("|");
    let album_key = match &track.album {
        Some(al) => normalize(al.as_str()),
        None => normalize(""),
    };
    key.append(album_key.as_str());
    proof {
        reveal_strlit("|");
        reveal_strlit("");
    }
    let album = match &track.album {
        Some(al) => Some(al.clone()),
        None => None,
    };
    Some(ArtworkQuery { title, artist: String::from_str(artist), album, key })
}

} // verus!
