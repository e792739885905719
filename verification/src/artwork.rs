//! Choosing cover art for a track: which MusicBrainz releases are
//! trustworthy, in which order their Cover Art Archive images are tried,
//! which HTTP responses are accepted as artwork, and the cache that keeps
//! lookups to one per track and spaced out in time.

use vstd::prelude::*;
use vstd::string::*;
use crate::metadata;
use crate::metadata::{looks_like_live_release, normalize_chars};
use crate::text;
use crate::text::{chars_of, eq_ascii_case_insensitive, find_first, has_prefix, same_chars, slice_chars, string_of};
use base64::Engine;

verus! {

/// An artist named in a MusicBrainz credit.
pub struct MusicBrainzArtist {
    pub name: String,
}

/// One entry of a MusicBrainz artist credit.
pub struct MusicBrainzArtistCredit {
    pub artist: MusicBrainzArtist,
}

/// The release group a MusicBrainz release belongs to.
pub struct MusicBrainzReleaseGroup {
    pub id: String,
    pub secondary_types: Vec<String>,
}

/// A MusicBrainz release, as the recording search returns it.
pub struct MusicBrainzRelease {
    pub id: String,
    pub title: String,
    pub status: Option<String>,
    pub artist_credit: Vec<MusicBrainzArtistCredit>,
    pub release_group: Option<MusicBrainzReleaseGroup>,
}

/// A recording found by the MusicBrainz recording search.
pub struct MusicBrainzRecording {
    pub score: u16,
    pub title: String,
    pub artist_credit: Vec<MusicBrainzArtistCredit>,
    pub releases: Vec<MusicBrainzRelease>,
}

/// The answer of the MusicBrainz recording search.
pub struct MusicBrainzSearch {
    pub recordings: Vec<MusicBrainzRecording>,
}

// ---------------------------------------------------------------------
// Trustworthy releases.
// ---------------------------------------------------------------------

/// Release statuses whose artwork is never used.
pub open spec fn rejected_status(status: Seq<char>) -> bool {
    status == "Expunged"@ || status == "Cancelled"@ || status == "Withdrawn"@ || status
        == "Bootleg"@ || status == "Pseudo-Release"@
}

/// Some credit in `credits` names, once normalised, `artist_key`.
pub open spec fn credits_artist(credits: Seq<MusicBrainzArtistCredit>, artist_key: Seq<char>) -> bool {
    exists|i: int| 0 <= i < credits.len() && metadata::normalized(credits[i].artist.name@) == artist_key
}

/// The release belongs to a release group marked as a compilation.
pub open spec fn in_compilation(release: MusicBrainzRelease) -> bool {
    match release.release_group {
        Some(g) => names_compilation(g.secondary_types@),
        None => false,
    }
}

/// One of the secondary types is "Compilation", in any ASCII case.
pub open spec fn names_compilation(types: Seq<String>) -> bool {
    exists|i: int| 0 <= i < types.len() && text::eq_ignore_ascii_case(#[trigger] types[i]@, "Compilation"@)
}

/// A release whose artwork may stand for a track by the artist whose
/// normalised name is `artist_key`: its status is not one of the rejected
/// ones, it is not part of a compilation, and it has no artist credit or
/// credits that artist.
pub open spec fn trustworthy(release: MusicBrainzRelease, artist_key: Seq<char>) -> bool {
    &&& !(release.status matches Some(s) && rejected_status(s@))
    &&& !in_compilation(release)
    &&& (release.artist_credit@.len() == 0 || credits_artist(release.artist_credit@, artist_key))
}

fn equals_literal(s: &String, lit: &str) -> (r: bool)
    ensures
        r == (s@ == lit@),
{
    let a = chars_of(s.as_str());
    let b = chars_of(lit);
    same_chars(&a, &b)
}

fn credits_name(credits: &Vec<MusicBrainzArtistCredit>, artist_key: &[char]) -> (r: bool)
    ensures
        r == credits_artist(credits@, artist_key@),
{
    let mut i: usize = 0;
    while i < credits.len()
        invariant
            i <= credits@.len(),
            forall|j: int|
                0 <= j < i ==> metadata::normalized(credits@[j].artist.name@) != artist_key@,
        decreases credits@.len() - i,
    {
        let name = chars_of(credits[i].artist.name.as_str());
        let key = normalize_chars(&name);
        if same_chars(&key, artist_key) {
            return true;
        }
        i = i + 1;
    }
    false
}

fn marked_compilation(release: &MusicBrainzRelease) -> (r: bool)
    ensures
        r == in_compilation(*release),
{
    match &release.release_group {
        None => false,
        Some(g) => {
            let compilation = chars_of("Compilation");
            let mut i: usize = 0;
            while i < g.secondary_types.len()
                invariant
                    i <= g.secondary_types@.len(),
                    release.release_group == Some(*g),
                    compilation@ == "Compilation"@,
                    forall|j: int|
                        0 <= j < i ==> !text::eq_ignore_ascii_case(
                            g.secondary_types@[j]@,
                            "Compilation"@,
                        ),
                decreases g.secondary_types@.len() - i,
            {
                let kind = chars_of(g.secondary_types[i].as_str());
                if eq_ascii_case_insensitive(&kind, &compilation) {
                    assert(text::eq_ignore_ascii_case(g.secondary_types@[i as int]@, "Compilation"@));
                    return true;
                }
                i = i + 1;
            }
            false
        },
    }
}

fn trustworthy_for_key(release: &MusicBrainzRelease, artist_key: &[char]) -> (r: bool)
    ensures
        r == trustworthy(*release, artist_key@),
{
    if let Some(status) = &release.status {
        if equals_literal(status, "Expunged") || equals_literal(status, "Cancelled")
            || equals_literal(status, "Withdrawn") || equals_literal(status, "Bootleg")
            || equals_literal(status, "Pseudo-Release") {
            return false;
        }
    }
    if marked_compilation(release) {
        return false;
    }
    release.artist_credit.len() == 0 || credits_name(&release.artist_credit, artist_key)
}

/// Whether the artwork of `release` may stand for a track by the artist
/// whose normalised name is `expected_artist`.
pub fn release_is_trustworthy(release: &MusicBrainzRelease, expected_artist: &str) -> (r: bool)
    ensures
        r == trustworthy(*release, expected_artist@),
{
    let key = chars_of(expected_artist);
    trustworthy_for_key(release, &key)
}


// ---------------------------------------------------------------------
// Candidate images.
// ---------------------------------------------------------------------

/// Cover Art Archive image of a release group.
pub open spec fn release_group_url(id: Seq<char>) -> Seq<char> {
    "https://coverartarchive.org/release-group/"@ + id + "/front-500"@
}

/// Cover Art Archive image of a release.
pub open spec fn release_url(id: Seq<char>) -> Seq<char> {
    "https://coverartarchive.org/release/"@ + id + "/front-500"@
}

/// The normalised album a lookup prefers, when it is not empty.
pub open spec fn album_key(album: Option<Seq<char>>) -> Option<Seq<char>> {
    match album {
        Some(a) => if metadata::normalized(a).len() > 0 {
            Some(metadata::normalized(a))
        } else {
            None
        },
        None => None,
    }
}

/// The release's title, normalised, is `key`.
pub open spec fn titled(release: MusicBrainzRelease, key: Seq<char>) -> bool {
    metadata::normalized(release.title@) == key
}

/// How early a release's images are tried: 0 for the album looked for, 1
/// for an official release that does not look live, 3 for one that looks
/// live, 2 for the rest.
pub open spec fn release_priority(release: MusicBrainzRelease, album: Option<Seq<char>>) -> u8 {
    if album matches Some(a) && titled(release, a) {
        0
    } else if release.status matches Some(s) && s@ == "Official"@ && !metadata::live_release_title(
        release.title@,
    ) {
        1
    } else if metadata::live_release_title(release.title@) {
        3
    } else {
        2
    }
}

/// The images a release offers, with their priority: the release group's
/// first, when there is one, then the release's own; none when the
/// release is not trustworthy.
pub open spec fn release_candidates(
    release: MusicBrainzRelease,
    album: Option<Seq<char>>,
    artist_key: Seq<char>,
) -> Seq<(u8, Seq<char>)> {
    if !trustworthy(release, artist_key) {
        seq![]
    } else {
        let p = release_priority(release, album);
        let own = seq![(p, release_url(release.id@))];
        match release.release_group {
            Some(g) => seq![(p, release_group_url(g.id@))] + own,
            None => own,
        }
    }
}

/// The images of `releases`, in their order.
pub open spec fn releases_candidates(
    releases: Seq<MusicBrainzRelease>,
    album: Option<Seq<char>>,
    artist_key: Seq<char>,
) -> Seq<(u8, Seq<char>)>
    decreases releases.len(),
{
    if releases.len() == 0 {
        seq![]
    } else {
        releases_candidates(releases.drop_last(), album, artist_key) + release_candidates(
            releases.last(),
            album,
            artist_key,
        )
    }
}

/// The releases whose being titled `key` is `wanted`, in their order.
pub open spec fn releases_titled(releases: Seq<MusicBrainzRelease>, key: Seq<char>, wanted: bool) -> Seq<
    MusicBrainzRelease,
>
    decreases releases.len(),
{
    if releases.len() == 0 {
        seq![]
    } else {
        let rest = releases_titled(releases.drop_last(), key, wanted);
        if titled(releases.last(), key) == wanted {
            rest.push(releases.last())
        } else {
            rest
        }
    }
}

/// `releases` in the order they are tried: when an album is looked for,
/// the releases titled like it first, each group keeping its order.
pub open spec fn album_first(releases: Seq<MusicBrainzRelease>, album: Option<Seq<char>>) -> Seq<
    MusicBrainzRelease,
> {
    match album {
        Some(a) => releases_titled(releases, a, true) + releases_titled(releases, a, false),
        None => releases,
    }
}

/// A recording that answers the lookup: scored at least 90, titled like
/// the track, and credited to its artist.
pub open spec fn recording_matches(
    recording: MusicBrainzRecording,
    title_key: Seq<char>,
    artist_key: Seq<char>,
) -> bool {
    recording.score >= 90 && metadata::normalized(recording.title@) == title_key && credits_artist(
        recording.artist_credit@,
        artist_key,
    )
}

/// The images a recording offers: those of its releases, album first,
/// when the recording answers the lookup; none otherwise.
pub open spec fn recording_candidates(
    recording: MusicBrainzRecording,
    title_key: Seq<char>,
    artist_key: Seq<char>,
    album: Option<Seq<char>>,
) -> Seq<(u8, Seq<char>)> {
    if recording_matches(recording, title_key, artist_key) {
        releases_candidates(album_first(recording.releases@, album), album, artist_key)
    } else {
        seq![]
    }
}

/// The images of all `recordings`, in their order.
pub open spec fn recordings_candidates(
    recordings: Seq<MusicBrainzRecording>,
    title_key: Seq<char>,
    artist_key: Seq<char>,
    album: Option<Seq<char>>,
) -> Seq<(u8, Seq<char>)>
    decreases recordings.len(),
{
    if recordings.len() == 0 {
        seq![]
    } else {
        recordings_candidates(recordings.drop_last(), title_key, artist_key, album)
            + recording_candidates(recordings.last(), title_key, artist_key, album)
    }
}

/// The images of priority `p`, in their order.
pub open spec fn with_priority(c: Seq<(u8, Seq<char>)>, p: u8) -> Seq<Seq<char>>
    decreases c.len(),
{
    if c.len() == 0 {
        seq![]
    } else {
        let rest = with_priority(c.drop_last(), p);
        if c.last().0 == p {
            rest.push(c.last().1)
        } else {
            rest
        }
    }
}

/// The images sorted by priority, keeping their order within a priority.
pub open spec fn by_priority(c: Seq<(u8, Seq<char>)>) -> Seq<Seq<char>> {
    with_priority(c, 0) + with_priority(c, 1) + with_priority(c, 2) + with_priority(c, 3)
}

/// `s` with every element after its first occurrence dropped.
pub open spec fn first_occurrences(s: Seq<Seq<char>>) -> Seq<Seq<char>>
    decreases s.len(),
{
    if s.len() == 0 {
        seq![]
    } else {
        let rest = first_occurrences(s.drop_last());
        if rest.contains(s.last()) {
            rest
        } else {
            rest.push(s.last())
        }
    }
}

/// The images that are tried for a track, in the order they are tried: the
/// candidates of every recording, sorted by priority, without repeats, at
/// most eight.
pub open spec fn artwork_urls(
    search: MusicBrainzSearch,
    title: Seq<char>,
    artist: Seq<char>,
    album: Option<Seq<char>>,
) -> Seq<Seq<char>> {
    let all = first_occurrences(
        by_priority(
            recordings_candidates(
                search.recordings@,
                metadata::normalized(title),
                metadata::normalized(artist),
                album_key(album),
            ),
        ),
    );
    if all.len() <= 8 {
        all
    } else {
        all.take(8)
    }
}

/// No image appears twice.
pub open spec fn no_repeats(s: Seq<Seq<char>>) -> bool {
    forall|i: int, j: int| 0 <= i < j < s.len() ==> s[i] != s[j]
}

proof fn lemma_first_occurrences_no_repeats(s: Seq<Seq<char>>)
    ensures
        no_repeats(first_occurrences(s)),
    decreases s.len(),
{
    if s.len() > 0 {
        let rest = first_occurrences(s.drop_last());
        lemma_first_occurrences_no_repeats(s.drop_last());
        if !rest.contains(s.last()) {
            let r = rest.push(s.last());
            assert forall|i: int, j: int| 0 <= i < j < r.len() implies r[i] != r[j] by {
                if j == rest.len() {
                    assert(r[i] == rest[i]);
                }
            }
        }
    }
}

/// Law: the images tried for a track are at most eight, and none of them
/// is tried twice.
pub proof fn candidates_are_few_and_distinct(
    search: MusicBrainzSearch,
    title: Seq<char>,
    artist: Seq<char>,
    album: Option<Seq<char>>,
)
    ensures
        artwork_urls(search, title, artist, album).len() <= 8,
        no_repeats(artwork_urls(search, title, artist, album)),
{
    let all = first_occurrences(
        by_priority(
            recordings_candidates(
                search.recordings@,
                metadata::normalized(title),
                metadata::normalized(artist),
                album_key(album),
            ),
        ),
    );
    lemma_first_occurrences_no_repeats(
        by_priority(
            recordings_candidates(
                search.recordings@,
                metadata::normalized(title),
                metadata::normalized(artist),
                album_key(album),
            ),
        ),
    );
    if all.len() > 8 {
        let t = all.take(8);
        assert forall|i: int, j: int| 0 <= i < j < t.len() implies t[i] != t[j] by {
            assert(t[i] == all[i] && t[j] == all[j]);
        }
    }
}

/// Law: a release's images are tried first when its title is the album
/// looked for; otherwise an official release that does not look live comes
/// next, then releases of any other status (or none) that do not look
/// live, and releases that look live last.
pub proof fn release_priorities(release: MusicBrainzRelease, album: Option<Seq<char>>)
    ensures
        (album matches Some(a) && metadata::normalized(release.title@) == a) ==> release_priority(
            release,
            album,
        ) == 0,
        !(album matches Some(a) && metadata::normalized(release.title@) == a) ==> {
            let official = release.status matches Some(s) && s@ == "Official"@;
            let live = metadata::live_release_title(release.title@);
            &&& official && !live ==> release_priority(release, album) == 1
            &&& !official && !live ==> release_priority(release, album) == 2
            &&& live ==> release_priority(release, album) == 3
        },
{
}

/// Law: the candidates of recordings listed one after another are those of
/// the first recordings, then those of the later ones, so recordings are
/// tried in the order the search gives them; one recording gives its own.
pub proof fn recordings_in_search_order(
    first: Seq<MusicBrainzRecording>,
    later: Seq<MusicBrainzRecording>,
    title_key: Seq<char>,
    artist_key: Seq<char>,
    album: Option<Seq<char>>,
)
    ensures
        recordings_candidates(first + later, title_key, artist_key, album) == recordings_candidates(
            first,
            title_key,
            artist_key,
            album,
        ) + recordings_candidates(later, title_key, artist_key, album),
        first.len() == 1 ==> recordings_candidates(first, title_key, artist_key, album)
            == recording_candidates(first[0], title_key, artist_key, album),
    decreases later.len(),
{
    if later.len() == 0 {
        assert(first + later =~= first);
        assert(recordings_candidates(later, title_key, artist_key, album) =~= Seq::<
            (u8, Seq<char>),
        >::empty());
        assert(recordings_candidates(first, title_key, artist_key, album) + Seq::<
            (u8, Seq<char>),
        >::empty() =~= recordings_candidates(first, title_key, artist_key, album));
    } else {
        recordings_in_search_order(first, later.drop_last(), title_key, artist_key, album);
        assert((first + later).drop_last() =~= first + later.drop_last());
        assert((first + later).last() == later.last());
        let a = recordings_candidates(first, title_key, artist_key, album);
        let b = recordings_candidates(later.drop_last(), title_key, artist_key, album);
        let c = recording_candidates(later.last(), title_key, artist_key, album);
        assert(a + b + c =~= a + (b + c));
    }
    if first.len() == 1 {
        assert(first.drop_last() =~= Seq::<MusicBrainzRecording>::empty());
        assert(recordings_candidates(first.drop_last(), title_key, artist_key, album) =~= Seq::<
            (u8, Seq<char>),
        >::empty());
        assert(Seq::<(u8, Seq<char>)>::empty() + recording_candidates(
            first[0],
            title_key,
            artist_key,
            album,
        ) =~= recording_candidates(first[0], title_key, artist_key, album));
    }
}

/// Law: picking the images of one priority keeps their order: from
/// candidates listed one after another, those of the first come first.
pub proof fn priority_keeps_order(first: Seq<(u8, Seq<char>)>, later: Seq<(u8, Seq<char>)>, p: u8)
    ensures
        with_priority(first + later, p) == with_priority(first, p) + with_priority(later, p),
    decreases later.len(),
{
    if later.len() == 0 {
        assert(first + later =~= first);
        assert(with_priority(first, p) + with_priority(later, p) =~= with_priority(first, p));
    } else {
        priority_keeps_order(first, later.drop_last(), p);
        assert((first + later).drop_last() =~= first + later.drop_last());
        assert((first + later).last() == later.last());
        let a = with_priority(first, p);
        let b = with_priority(later.drop_last(), p);
        if later.last().0 == p {
            assert(a + b.push(later.last().1) =~= (a + b).push(later.last().1));
        }
    }
}

/// The characters of an optional vector of characters.
pub open spec fn chars_opt(o: Option<Vec<char>>) -> Option<Seq<char>> {
    match o {
        Some(a) => Some(a@),
        None => None,
    }
}

/// The characters of an optional string.
pub open spec fn str_opt(o: Option<&str>) -> Option<Seq<char>> {
    match o {
        Some(a) => Some(a@),
        None => None,
    }
}

struct Candidate {
    priority: u8,
    url: String,
}

spec fn candidates_view(c: Seq<Candidate>) -> Seq<(u8, Seq<char>)> {
    c.map_values(|x: Candidate| (x.priority, x.url@))
}

proof fn lemma_candidates_push(c: Seq<Candidate>, x: Candidate)
    ensures
        candidates_view(c.push(x)) == candidates_view(c).push((x.priority, x.url@)),
{
    assert(candidates_view(c.push(x)) =~= candidates_view(c).push((x.priority, x.url@)));
}

fn cover_url(prefix: &str, id: &String) -> (r: String)
    ensures
        r@ == prefix@ + id@ + "/front-500"@,
{
    let mut u = String::from_str(prefix);
    u.append(id.as_str());
    u.append("/front-500");
    u
}

fn priority_of(release: &MusicBrainzRelease, album: &Option<Vec<char>>) -> (p: u8)
    ensures
        p == release_priority(*release, chars_opt(*album)),
{
    let title = chars_of(release.title.as_str());
    if let Some(a) = album {
        let key = normalize_chars(&title);
        if same_chars(&key, a) {
            return 0;
        }
    }
    let live = looks_like_live_release(release.title.as_str());
    let official = match &release.status {
        Some(s) => equals_literal(s, "Official"),
        None => false,
    };
    if official && !live {
        1
    } else if live {
        3
    } else {
        2
    }
}

fn push_release_candidates(
    out: &mut Vec<Candidate>,
    release: &MusicBrainzRelease,
    album: &Option<Vec<char>>,
    artist_key: &[char],
)
    ensures
        candidates_view(final(out)@) == candidates_view(old(out)@) + release_candidates(
            *release,
            chars_opt(*album),
            artist_key@,
        ),
{
    let ghost album_view = chars_opt(*album);
    if !trustworthy_for_key(release, artist_key) {
        assert(candidates_view(out@) =~= candidates_view(out@) + Seq::<(u8, Seq<char>)>::empty());
        return;
    }
    let p = priority_of(release, album);
    let ghost before = out@;
    if let Some(g) = &release.release_group {
        let u = cover_url("https://coverartarchive.org/release-group/", &g.id);
        let c = Candidate { priority: p, url: u };
        proof {
            lemma_candidates_push(out@, c);
        }
        out.push(c);
    }
    let u = cover_url("https://coverartarchive.org/release/", &release.id);
    let c = Candidate { priority: p, url: u };
    proof {
        lemma_candidates_push(out@, c);
    }
    out.push(c);
    assert(candidates_view(out@) =~= candidates_view(before) + release_candidates(
        *release,
        album_view,
        artist_key@,
    ));
}

proof fn lemma_releases_candidates_concat(
    a: Seq<MusicBrainzRelease>,
    b: Seq<MusicBrainzRelease>,
    album: Option<Seq<char>>,
    artist_key: Seq<char>,
)
    ensures
        releases_candidates(a + b, album, artist_key) == releases_candidates(a, album, artist_key)
            + releases_candidates(b, album, artist_key),
    decreases b.len(),
{
    if b.len() == 0 {
        assert(a + b =~= a);
        assert(releases_candidates(b, album, artist_key) =~= Seq::<(u8, Seq<char>)>::empty());
        assert(releases_candidates(a, album, artist_key) + Seq::<(u8, Seq<char>)>::empty()
            =~= releases_candidates(a, album, artist_key));
    } else {
        lemma_releases_candidates_concat(a, b.drop_last(), album, artist_key);
        assert((a + b).drop_last() =~= a + b.drop_last());
        assert((a + b).last() == b.last());
        assert(releases_candidates(a + b, album, artist_key) =~= releases_candidates(
            a,
            album,
            artist_key,
        ) + releases_candidates(b, album, artist_key));
    }
}

/// Adds the candidates of the releases of `releases` whose being titled
/// `key` is `wanted` (all of them when `key` is `None`).
fn push_releases(
    out: &mut Vec<Candidate>,
    releases: &Vec<MusicBrainzRelease>,
    key: &Option<Vec<char>>,
    wanted: bool,
    album: &Option<Vec<char>>,
    artist_key: &[char],
)
    ensures
        candidates_view(final(out)@) == candidates_view(old(out)@) + releases_candidates(
            match key {
                Some(k) => releases_titled(releases@, k@, wanted),
                None => releases@,
            },
            chars_opt(*album),
            artist_key@,
        ),
{
    let ghost album_view = chars_opt(*album);
    let ghost start = candidates_view(out@);
    let mut i: usize = 0;
    while i < releases.len()
        invariant
            i <= releases@.len(),
            album_view == chars_opt(*album),
            candidates_view(out@) == start + releases_candidates(
                match key {
                    Some(k) => releases_titled(releases@.take(i as int), k@, wanted),
                    None => releases@.take(i as int),
                },
                album_view,
                artist_key@,
            ),
        decreases releases@.len() - i,
    {
        let release = &releases[i];
        let ghost prefix = releases@.take(i as int);
        let ghost next = releases@.take(i + 1);
        assert(next.drop_last() =~= prefix);
        assert(next.last() == *release);
        let take = match key {
            None => true,
            Some(k) => {
                let title = chars_of(release.title.as_str());
                let norm = normalize_chars(&title);
                same_chars(&norm, k) == wanted
            },
        };
        if take {
            push_release_candidates(out, release, album, artist_key);
        }
        proof {
            match key {
                Some(k) => {
                    let chosen = releases_titled(next, k@, wanted);
                    if take {
                        assert(chosen == releases_titled(prefix, k@, wanted).push(*release));
                        assert(chosen.drop_last() =~= releases_titled(prefix, k@, wanted));
                    } else {
                        assert(chosen == releases_titled(prefix, k@, wanted));
                    }
                },
                None => {
                    assert(next.drop_last() =~= prefix);
                },
            }
        }
        i = i + 1;
    }
    assert(releases@.take(releases@.len() as int) =~= releases@);
}

fn push_recording_candidates(
    out: &mut Vec<Candidate>,
    recording: &MusicBrainzRecording,
    title_key: &[char],
    artist_key: &[char],
    album: &Option<Vec<char>>,
)
    ensures
        candidates_view(final(out)@) == candidates_view(old(out)@) + recording_candidates(
            *recording,
            title_key@,
            artist_key@,
            chars_opt(*album),
        ),
{
    let ghost album_view = chars_opt(*album);
    let title = chars_of(recording.title.as_str());
    let key = normalize_chars(&title);
    if recording.score < 90 || !same_chars(&key, title_key) || !credits_name(
        &recording.artist_credit,
        artist_key,
    ) {
        assert(candidates_view(out@) =~= candidates_view(out@) + Seq::<(u8, Seq<char>)>::empty());
        return;
    }
    match album {
        None => {
            push_releases(out, &recording.releases, album, true, album, artist_key);
        },
        Some(a) => {
            let ghost before = candidates_view(out@);
            push_releases(out, &recording.releases, album, true, album, artist_key);
            push_releases(out, &recording.releases, album, false, album, artist_key);
            proof {
                lemma_releases_candidates_concat(
                    releases_titled(recording.releases@, a@, true),
                    releases_titled(recording.releases@, a@, false),
                    album_view,
                    artist_key@,
                );
            }
            assert(candidates_view(out@) =~= before + recording_candidates(
                *recording,
                title_key@,
                artist_key@,
                album_view,
            ));
        },
    }
}

fn push_by_priority(out: &mut Vec<String>, c: &Vec<Candidate>, p: u8)
    ensures
        final(out)@.map_values(|u: String| u@) == old(out)@.map_values(|u: String| u@)
            + with_priority(candidates_view(c@), p),
{
    let ghost start = out@.map_values(|u: String| u@);
    let mut i: usize = 0;
    while i < c.len()
        invariant
            i <= c@.len(),
            out@.map_values(|u: String| u@) == start + with_priority(
                candidates_view(c@.take(i as int)),
                p,
            ),
        decreases c@.len() - i,
    {
        let ghost prefix = c@.take(i as int);
        assert(candidates_view(c@.take(i + 1)).drop_last() =~= candidates_view(prefix));
        assert(candidates_view(c@.take(i + 1)).last() == (c@[i as int].priority, c@[i as int].url@));
        if c[i].priority == p {
            let ghost before = out@;
            let u = c[i].url.clone();
            out.push(u);
            assert(out@.map_values(|u: String| u@) =~= before.map_values(|u: String| u@).push(u@));
        }
        i = i + 1;
    }
    assert(c@.take(c@.len() as int) =~= c@);
}

fn contains_string(list: &Vec<String>, s: &String) -> (r: bool)
    ensures
        r == list@.map_values(|u: String| u@).contains(s@),
{
    let target = chars_of(s.as_str());
    let mut i: usize = 0;
    while i < list.len()
        invariant
            i <= list@.len(),
            target@ == s@,
            forall|j: int| 0 <= j < i ==> list@[j]@ != s@,
        decreases list@.len() - i,
    {
        let item = chars_of(list[i].as_str());
        if same_chars(&item, &target) {
            assert(list@.map_values(|u: String| u@)[i as int] == s@);
            return true;
        }
        i = i + 1;
    }
    proof {
        if list@.map_values(|u: String| u@).contains(s@) {
            let views = list@.map_values(|u: String| u@);
            let j = choose|j: int| 0 <= j < views.len() && #[trigger] views[j] == s@;
            assert(list@[j]@ == s@);
        }
    }
    false
}

fn without_repeats(urls: &Vec<String>) -> (r: Vec<String>)
    ensures
        r@.map_values(|u: String| u@) == first_occurrences(urls@.map_values(|u: String| u@)),
{
    let mut out: Vec<String> = Vec::new();
    let mut i: usize = 0;
    while i < urls.len()
        invariant
            i <= urls@.len(),
            out@.map_values(|u: String| u@) == first_occurrences(
                urls@.take(i as int).map_values(|u: String| u@),
            ),
        decreases urls@.len() - i,
    {
        let ghost prefix = urls@.take(i as int).map_values(|u: String| u@);
        let ghost next = urls@.take(i + 1).map_values(|u: String| u@);
        assert(next.drop_last() =~= prefix);
        assert(next.last() == urls@[i as int]@);
        if !contains_string(&out, &urls[i]) {
            let ghost before = out@;
            out.push(urls[i].clone());
            assert(out@.map_values(|u: String| u@) =~= before.map_values(|u: String| u@).push(
                urls@[i as int]@,
            ));
        }
        i = i + 1;
    }
    assert(urls@.take(urls@.len() as int) =~= urls@);
    out
}

/// The MusicBrainz recording search for a title by an artist: both terms
/// quoted, with their quotes and backslashes escaped.
pub open spec fn search_query(title: Seq<char>, artist: Seq<char>) -> Seq<char> {
    "recording:\""@ + metadata::escaped(title) + "\" AND artist:\""@ + metadata::escaped(artist)
        + "\""@
}

/// The search query sent to MusicBrainz for a track.
pub fn musicbrainz_query(title: &str, artist: &str) -> (r: String)
    ensures
        r@ == search_query(title@, artist@),
{
    let t = metadata::musicbrainz_escape(title);
    let a = metadata::musicbrainz_escape(artist);
    String::from_str("recording:\"").concat(t.as_str()).concat("\" AND artist:\"").concat(
        a.as_str(),
    ).concat("\"")
}

/// The Cover Art Archive images to try for a track, in order: the images
/// of the trustworthy releases of every recording that answers the lookup,
/// those of the album looked for first, then official studio releases,
/// then other releases, then live ones; without repeats; at most eight.
pub fn artwork_candidates(
    search: &MusicBrainzSearch,
    title: &str,
    artist: &str,
    album: Option<&str>,
) -> (r: Vec<String>)
    ensures
        r@.map_values(|u: String| u@) == artwork_urls(
            *search,
            title@,
            artist@,
            str_opt(album),
        ),
{
    let title_chars = chars_of(title);
    let title_key = normalize_chars(&title_chars);
    let artist_chars = chars_of(artist);
    let artist_key = normalize_chars(&artist_chars);
    let album_norm: Option<Vec<char>> = match album {
        Some(a) => {
            let a_chars = chars_of(a);
            let k = normalize_chars(&a_chars);
            if k.len() > 0 {
                Some(k)
            } else {
                None
            }
        },
        None => None,
    };
    let ghost album_view = chars_opt(album_norm);
    assert(album_view == album_key(str_opt(album)));
    let mut cands: Vec<Candidate> = Vec::new();
    let mut i: usize = 0;
    while i < search.recordings.len()
        invariant
            i <= search.recordings@.len(),
            album_view == chars_opt(album_norm),
            candidates_view(cands@) == recordings_candidates(
                search.recordings@.take(i as int),
                title_key@,
                artist_key@,
                album_view,
            ),
        decreases search.recordings@.len() - i,
    {
        let ghost prefix = search.recordings@.take(i as int);
        assert(search.recordings@.take(i + 1).drop_last() =~= prefix);
        push_recording_candidates(
            &mut cands,
            &search.recordings[i],
            &title_key,
            &artist_key,
            &album_norm,
        );
        i = i + 1;
    }
    assert(search.recordings@.take(search.recordings@.len() as int) =~= search.recordings@);
    let mut sorted: Vec<String> = Vec::new();
    push_by_priority(&mut sorted, &cands, 0);
    push_by_priority(&mut sorted, &cands, 1);
    push_by_priority(&mut sorted, &cands, 2);
    push_by_priority(&mut sorted, &cands, 3);
    assert(sorted@.map_values(|u: String| u@) =~= by_priority(candidates_view(cands@)));
    let mut unique = without_repeats(&sorted);
    let ghost all = unique@.map_values(|u: String| u@);
    if unique.len() > 8 {
        unique.truncate(8);
        assert(unique@.map_values(|u: String| u@) =~= all.take(8));
    }
    unique
}


// ---------------------------------------------------------------------
// Downloaded images.
// ---------------------------------------------------------------------

/// Largest image, in bytes, that is accepted as artwork.
pub const MAX_ARTWORK_BYTES: u64 = 5 * 1024 * 1024;

/// The media type of a `Content-Type` header value: the text before its
/// first `;`, or all of it.
pub open spec fn media_type(content_type: Seq<char>) -> Seq<char> {
    match text::first_occurrence(content_type, seq![';']) {
        Some(i) => content_type.subrange(0, i),
        None => content_type,
    }
}

/// The media type of an image response that may be downloaded: `None`
/// when its announced length is over `MAX_ARTWORK_BYTES`, when it has no
/// readable `Content-Type`, or when that type is not `image/...`.
pub open spec fn accepted_media_type(content_length: Option<u64>, content_type: Option<Seq<char>>) -> Option<
    Seq<char>,
> {
    if content_length matches Some(n) && n > MAX_ARTWORK_BYTES {
        None
    } else {
        match content_type {
            Some(ct) => if text::starts_with(media_type(ct), "image/"@) {
                Some(media_type(ct))
            } else {
                None
            },
            None => None,
        }
    }
}

/// The digit of the standard base64 alphabet for a value below 64.
pub open spec fn base64_digit(v: int) -> char {
    if v < 26 {
        (65 + v) as char
    } else if v < 52 {
        (97 + v - 26) as char
    } else if v < 62 {
        (48 + v - 52) as char
    } else if v == 62 {
        '+'
    } else {
        '/'
    }
}

/// Standard base64 (RFC 4648, alphabet `A-Z a-z 0-9 + /`, padded with `=`).
pub open spec fn base64_standard(b: Seq<u8>) -> Seq<char>
    decreases b.len(),
{
    if b.len() == 0 {
        seq![]
    } else {
        let x = b[0] as int;
        if b.len() == 1 {
            seq![base64_digit(x / 4), base64_digit((x % 4) * 16), '=', '=']
        } else {
            let y = b[1] as int;
            if b.len() == 2 {
                seq![
                    base64_digit(x / 4),
                    base64_digit((x % 4) * 16 + y / 16),
                    base64_digit((y % 16) * 4),
                    '=',
                ]
            } else {
                let z = b[2] as int;
                seq![
                    base64_digit(x / 4),
                    base64_digit((x % 4) * 16 + y / 16),
                    base64_digit((y % 16) * 4 + z / 64),
                    base64_digit(z % 64),
                ] + base64_standard(b.subrange(3, b.len() as int))
            }
        }
    }
}

/// Calls `encode` of the `base64` crate's `STANDARD` engine, which encodes
/// with the standard alphabet and `=` padding; the contract restates that
/// encoding as `base64_standard`.
#[verifier::external_body]
fn base64_encode(bytes: &[u8]) -> (r: String)
    ensures
        r@ == base64_standard(bytes@),
{
    base64::engine::general_purpose::STANDARD.encode(bytes)
}

/// The `data:` URL that carries an image, or `None` when the image is
/// larger than `MAX_ARTWORK_BYTES`.
pub open spec fn artwork_url(media: Seq<char>, bytes: Seq<u8>) -> Option<Seq<char>> {
    if bytes.len() > MAX_ARTWORK_BYTES {
        None
    } else {
        Some("data:"@ + media + ";base64,"@ + base64_standard(bytes))
    }
}

/// Decides, from the headers of an image response, whether its body is
/// downloaded, and with which media type.
pub fn accept_artwork_headers(content_length: Option<u64>, content_type: Option<&str>) -> (r: Option<
    String,
>)
    ensures
        match accepted_media_type(content_length, str_opt(content_type)) {
            Some(m) => r matches Some(x) && x@ == m,
            None => r is None,
        },
{
    if let Some(n) = content_length {
        if n > MAX_ARTWORK_BYTES {
            return None;
        }
    }
    match content_type {
        None => None,
        Some(ct) => {
            let chars = chars_of(ct);
            let semicolon = vec![';'];
            assert(semicolon@ =~= seq![';']);
            let end = match find_first(&chars, &semicolon) {
                Some(i) => {
                    assert(text::occurs_at(chars@, semicolon@, i as int));
                    i
                },
                None => chars.len(),
            };
            let media = slice_chars(&chars, 0, end);
            assert(media@ == media_type(ct@)) by {
                if text::first_occurrence(chars@, seq![';']) is None {
                    assert(chars@.subrange(0, chars@.len() as int) =~= chars@);
                }
            }
            let image = chars_of("image/");
            if has_prefix(&media, &image) {
                Some(string_of(&media))
            } else {
                None
            }
        },
    }
}

/// Builds the `data:` URL for a downloaded image.
pub fn artwork_data_url(media: &str, bytes: &[u8]) -> (r: Option<String>)
    ensures
        match artwork_url(media@, bytes@) {
            Some(u) => r matches Some(x) && x@ == u,
            None => r is None,
        },
{
    if bytes.len() as u64 > MAX_ARTWORK_BYTES {
        return None;
    }
    let mut url = String::from_str("data:");
    url.append(media);
    url.append(";base64,");
    let encoded = base64_encode(bytes);
    url.append(encoded.as_str());
    Some(url)
}

} // verus!
