//! Clean-up of track metadata before it is looked up: case- and
//! punctuation-insensitive comparison, removal of an artist prefix, of
//! presentation labels such as "(Official Audio)", of wrapping quotes, and
//! of the " - Topic" suffix that auto-generated channels add to artists.

use vstd::prelude::*;
use vstd::string::*;
use crate::text;
use crate::text::{
    char_is_alphanumeric, char_lowercase, chars_of, contains_chars, eq_ascii_case_insensitive,
    find_first, find_last, has_prefix, push_char, same_chars, slice_chars, string_of, trim_bounds,
    is_digit, trim_end_index, trimmed,
};

verus! {

// ---------------------------------------------------------------------
// Normalisation.
// ---------------------------------------------------------------------

/// The alphanumeric characters of `s`, in order.
pub open spec fn alphanumeric_only(s: Seq<char>) -> Seq<char>
    decreases s.len(),
{
    if s.len() == 0 {
        seq![]
    } else if text::unicode_alphanumeric(s.last()) {
        alphanumeric_only(s.drop_last()).push(s.last())
    } else {
        alphanumeric_only(s.drop_last())
    }
}

/// The key two pieces of metadata are compared by: every character mapped
/// to its lowercase form, keeping only what is alphanumeric.
pub open spec fn normalized(s: Seq<char>) -> Seq<char>
    decreases s.len(),
{
    if s.len() == 0 {
        seq![]
    } else {
        normalized(s.drop_last()) + alphanumeric_only(text::unicode_lowercase(s.last()))
    }
}

proof fn lemma_alphanumeric_only_push(s: Seq<char>, c: char)
    ensures
        alphanumeric_only(s.push(c)) == if text::unicode_alphanumeric(c) {
            alphanumeric_only(s).push(c)
        } else {
            alphanumeric_only(s)
        },
{
    assert(s.push(c).drop_last() =~= s);
}

proof fn lemma_alphanumeric_only_all(s: Seq<char>)
    ensures
        forall|i: int|
            0 <= i < alphanumeric_only(s).len() ==> text::unicode_alphanumeric(
                #[trigger] alphanumeric_only(s)[i],
            ),
    decreases s.len(),
{
    if s.len() > 0 {
        lemma_alphanumeric_only_all(s.drop_last());
        let r = alphanumeric_only(s.drop_last());
        if text::unicode_alphanumeric(s.last()) {
            assert forall|i: int| 0 <= i < r.push(s.last()).len() implies text::unicode_alphanumeric(
                #[trigger] r.push(s.last())[i],
            ) by {
                if i < r.len() {
                    assert(r.push(s.last())[i] == r[i]);
                }
            }
        }
    }
}

/// Law: the normalised form of two texts one after the other is their
/// normalised forms one after the other, and every character of a
/// normalised form is alphanumeric.
pub proof fn normalized_concat(a: Seq<char>, b: Seq<char>)
    ensures
        normalized(a + b) == normalized(a) + normalized(b),
        forall|i: int| 0 <= i < normalized(a).len() ==> text::unicode_alphanumeric(
            #[trigger] normalized(a)[i],
        ),
    decreases b.len(), a.len(),
{
    if b.len() == 0 {
        assert(a + b =~= a);
        assert(normalized(a) + normalized(b) =~= normalized(a));
        if a.len() > 0 {
            normalized_concat(a.drop_last(), b);
            let r = normalized(a.drop_last());
            let t = alphanumeric_only(text::unicode_lowercase(a.last()));
            lemma_alphanumeric_only_all(text::unicode_lowercase(a.last()));
            assert forall|i: int| 0 <= i < (r + t).len() implies text::unicode_alphanumeric(
                #[trigger] (r + t)[i],
            ) by {
                if i < r.len() {
                    assert((r + t)[i] == r[i]);
                } else {
                    assert((r + t)[i] == t[i - r.len()]);
                }
            }
        }
    } else {
        normalized_concat(a, b.drop_last());
        assert((a + b).drop_last() =~= a + b.drop_last());
        assert((a + b).last() == b.last());
        let t = alphanumeric_only(text::unicode_lowercase(b.last()));
        assert(normalized(a) + normalized(b.drop_last()) + t =~= normalized(a) + (normalized(
            b.drop_last(),
        ) + t));
    }
}

/// The normalised form of the characters `s`.
pub fn normalize_chars(s: &[char]) -> (r: Vec<char>)
    ensures
        r@ == normalized(s@),
{
    let mut out: Vec<char> = Vec::new();
    let mut i: usize = 0;
    while i < s.len()
        invariant
            i <= s@.len(),
            out@ == normalized(s@.take(i as int)),
        decreases s@.len() - i,
    {
        let lower = char_lowercase(s[i]);
        let ghost before = out@;
        let mut k: usize = 0;
        while k < lower.len()
            invariant
                k <= lower@.len(),
                lower@ == text::unicode_lowercase(s@[i as int]),
                out@ == before + alphanumeric_only(lower@.take(k as int)),
            decreases lower@.len() - k,
        {
            let c = lower[k];
            proof {
                lemma_alphanumeric_only_push(lower@.take(k as int), c);
                assert(lower@.take(k + 1) =~= lower@.take(k as int).push(c));
            }
            if char_is_alphanumeric(c) {
                out.push(c);
            }
            k = k + 1;
        }
        proof {
            assert(lower@.take(lower@.len() as int) =~= lower@);
            assert(s@.take(i + 1).drop_last() =~= s@.take(i as int));
        }
        i = i + 1;
    }
    assert(s@.take(s@.len() as int) =~= s@);
    out
}

/// Lowercases `value` and keeps only its alphanumeric characters, so that
/// "Where Am I?" and "where am i" compare equal.
pub fn normalize(value: &str) -> (r: String)
    ensures
        r@ == normalized(value@),
{
    let cs = chars_of(value);
    let n = normalize_chars(&cs);
    string_of(&n)
}

// ---------------------------------------------------------------------
// Query escaping.
// ---------------------------------------------------------------------

pub open spec fn escape_char(c: char) -> Seq<char> {
    if c == '\\' {
        seq!['\\', '\\']
    } else if c == '"' {
        seq!['\\', '"']
    } else {
        seq![c]
    }
}

/// `s` with every backslash doubled and every double quote preceded by a
/// backslash, so that it can stand inside a quoted search term.
pub open spec fn escaped(s: Seq<char>) -> Seq<char>
    decreases s.len(),
{
    if s.len() == 0 {
        seq![]
    } else {
        escaped(s.drop_last()) + escape_char(s.last())
    }
}

/// Escapes `value` for a quoted MusicBrainz search term.
pub fn musicbrainz_escape(value: &str) -> (r: String)
    ensures
        r@ == escaped(value@),
{
    let cs = chars_of(value);
    let mut out = String::new();
    let mut i: usize = 0;
    while i < cs.len()
        invariant
            cs@ == value@,
            i <= cs@.len(),
            out@ == escaped(cs@.take(i as int)),
        decreases cs@.len() - i,
    {
        let c = cs[i];
        let ghost before = out@;
        if c == '\\' {
            push_char(&mut out, '\\');
            push_char(&mut out, '\\');
        } else if c == '"' {
            push_char(&mut out, '\\');
            push_char(&mut out, '"');
        } else {
            push_char(&mut out, c);
        }
        proof {
            assert(out@ =~= before + escape_char(c));
            assert(cs@.take(i + 1).drop_last() =~= cs@.take(i as int));
        }
        i = i + 1;
    }
    assert(cs@.take(cs@.len() as int) =~= cs@);
    out
}


// ---------------------------------------------------------------------
// Helpers on literals.
// ---------------------------------------------------------------------

fn occurs_literal(s: &[char], lit: &str) -> (r: bool)
    ensures
        r == text::occurs_in(s@, lit@),
{
    let p = chars_of(lit);
    contains_chars(s, &p)
}

fn equals_literal(s: &[char], lit: &str) -> (r: bool)
    ensures
        r == (s@ == lit@),
{
    let p = chars_of(lit);
    same_chars(s, &p)
}

fn sub_bounds_of_trim(s: &[char], from: usize, to: usize) -> (r: (usize, usize))
    requires
        from <= to <= s@.len(),
    ensures
        from <= r.0 <= r.1 <= to,
        s@.subrange(r.0 as int, r.1 as int) == text::trim(s@.subrange(from as int, to as int)),
{
    let part = slice_chars(s, from, to);
    let (b, e) = trim_bounds(&part);
    assert(s@.subrange(from + b, from + e) =~= part@.subrange(b as int, e as int));
    (from + b, from + e)
}

// ---------------------------------------------------------------------
// Artist prefix of a title.
// ---------------------------------------------------------------------

/// The rest of `title` after `artist` and `sep`, when the title starts with
/// the artist's name (compared normalised) followed by `sep`, and something
/// other than whitespace follows.
pub open spec fn artist_prefix_removed(title: Seq<char>, artist: Seq<char>, sep: Seq<char>) -> Option<
    Seq<char>,
> {
    match text::split_once(title, sep) {
        Some((prefix, rest)) => if normalized(prefix) == normalized(artist) && text::trim(rest).len()
            > 0 {
            Some(text::trim(rest))
        } else {
            None
        },
        None => None,
    }
}

/// `title` without a leading "Artist - " (with a hyphen, an en dash or an
/// em dash), trimmed.
pub open spec fn without_artist_prefix(title: Seq<char>, artist: Seq<char>) -> Seq<char> {
    match artist_prefix_removed(title, artist, " - "@) {
        Some(r) => r,
        None => match artist_prefix_removed(title, artist, " \u{2013} "@) {
            Some(r) => r,
            None => match artist_prefix_removed(title, artist, " \u{2014} "@) {
                Some(r) => r,
                None => text::trim(title),
            },
        },
    }
}

fn artist_prefix_bounds(title: &[char], artist: &[char], sep: &[char]) -> (r: Option<(usize, usize)>)
    ensures
        match artist_prefix_removed(title@, artist@, sep@) {
            Some(t) => r matches Some((b, e)) && b <= e <= title@.len() && title@.subrange(
                b as int,
                e as int,
            ) == t,
            None => r is None,
        },
{
    match find_first(title, sep) {
        None => None,
        Some(i) => {
            let n = title.len();
            assert(text::occurs_at(title@, sep@, i as int));
            let prefix = slice_chars(title, 0, i);
            let key = normalize_chars(&prefix);
            let artist_key = normalize_chars(artist);
            let (b, e) = sub_bounds_of_trim(title, i + sep.len(), title.len());
            if same_chars(&key, &artist_key) && b < e {
                Some((b, e))
            } else {
                None
            }
        },
    }
}

/// Removes a leading "Artist - " from a title when the prefix names the
/// artist; the result is trimmed.
pub fn title_without_artist_prefix<'a>(title: &'a str, artist: &str) -> (r: &'a str)
    ensures
        r@ == without_artist_prefix(title@, artist@),
{
    let t = chars_of(title);
    let a = chars_of(artist);
    let hyphen = chars_of(" - ");
    if let Some((b, e)) = artist_prefix_bounds(&t, &a, &hyphen) {
        return title.substring_char(b, e);
    }
    let en_dash = chars_of(" \u{2013} ");
    if let Some((b, e)) = artist_prefix_bounds(&t, &a, &en_dash) {
        return title.substring_char(b, e);
    }
    let em_dash = chars_of(" \u{2014} ");
    if let Some((b, e)) = artist_prefix_bounds(&t, &a, &em_dash) {
        return title.substring_char(b, e);
    }
    let (b, e) = trim_bounds(&t);
    title.substring_char(b, e)
}

// ---------------------------------------------------------------------
// Presentation labels.
// ---------------------------------------------------------------------

/// A normalised label that names a distinct version of a song.
pub open spec fn names_version(l: Seq<char>) -> bool {
    text::occurs_in(l, "live"@) || text::occurs_in(l, "remix"@) || text::occurs_in(l, "acoustic"@)
        || text::occurs_in(l, "demo"@) || text::occurs_in(l, "remaster"@) || text::occurs_in(
        l,
        "edit"@,
    ) || text::occurs_in(l, "version"@)
}

/// A normalised label that only describes how a song was published.
pub open spec fn names_presentation(l: Seq<char>) -> bool {
    l == "audio"@ || l == "officialaudio"@ || l == "video"@ || l == "officialvideo"@ || l
        == "musicvideo"@ || l == "officialmusicvideo"@ || l == "lyric"@ || l == "lyrics"@ || l
        == "lyricvideo"@ || l == "officiallyricvideo"@ || l == "visualizer"@ || l
        == "officialvisualizer"@ || l == "hd"@ || l == "4k"@ || (text::starts_with(
        l,
        "official"@,
    ) && (text::occurs_in(l, "audio"@) || text::occurs_in(l, "video"@) || text::occurs_in(
        l,
        "lyric"@,
    ) || text::occurs_in(l, "visualizer"@)))
}

/// A label such as "Official Audio" or "HD" that can be dropped from a
/// title; labels that name a version ("Live", "Remix", ...) never can.
pub open spec fn presentation_label(label: Seq<char>) -> bool {
    let l = normalized(label);
    !names_version(l) && names_presentation(l)
}

fn names_version_chars(l: &[char]) -> (r: bool)
    ensures
        r == names_version(l@),
{
    occurs_literal(l, "live") || occurs_literal(l, "remix") || occurs_literal(l, "acoustic")
        || occurs_literal(l, "demo") || occurs_literal(l, "remaster") || occurs_literal(l, "edit")
        || occurs_literal(l, "version")
}

fn names_presentation_chars(l: &[char]) -> (r: bool)
    ensures
        r == names_presentation(l@),
{
    if equals_literal(l, "audio") || equals_literal(l, "officialaudio") || equals_literal(l, "video")
        || equals_literal(l, "officialvideo") || equals_literal(l, "musicvideo") || equals_literal(
        l,
        "officialmusicvideo",
    ) || equals_literal(l, "lyric") || equals_literal(l, "lyrics") || equals_literal(
        l,
        "lyricvideo",
    ) || equals_literal(l, "officiallyricvideo") || equals_literal(l, "visualizer")
        || equals_literal(l, "officialvisualizer") || equals_literal(l, "hd") || equals_literal(
        l,
        "4k",
    ) {
        return true;
    }
    let official = chars_of("official");
    has_prefix(l, &official) && (occurs_literal(l, "audio") || occurs_literal(l, "video")
        || occurs_literal(l, "lyric") || occurs_literal(l, "visualizer"))
}

fn presentation_label_chars(label: &[char]) -> (r: bool)
    ensures
        r == presentation_label(label@),
{
    let l = normalize_chars(label);
    if names_version_chars(&l) {
        return false;
    }
    names_presentation_chars(&l)
}

/// Whether a bracketed or trailing label only describes how a song was
/// published (for example "Official Music Video"), rather than naming a
/// version of it (for example "Live at Bush Hall").
pub fn is_presentation_label(label: &str) -> (r: bool)
    ensures
        r == presentation_label(label@),
{
    let l = chars_of(label);
    presentation_label_chars(&l)
}

// ---------------------------------------------------------------------
// Presentation suffixes.
// ---------------------------------------------------------------------

/// `t` without a final bracketed presentation label such as
/// "(Official Audio)", with trailing whitespace dropped.
pub open spec fn bracket_label_removed(t: Seq<char>, open: char, close: char) -> Option<Seq<char>> {
    if t.len() > 0 && t.last() == close {
        match text::last_occurrence(t, seq![open]) {
            Some(start) => if start + 1 <= t.len() - 1 && presentation_label(
                t.subrange(start + 1, t.len() - 1),
            ) {
                Some(text::trim_end(t.subrange(0, start)))
            } else {
                None
            },
            None => None,
        }
    } else {
        None
    }
}

/// `t` without a presentation label that follows the last `sep`, with
/// trailing whitespace dropped.
pub open spec fn separator_label_removed(t: Seq<char>, sep: Seq<char>) -> Option<Seq<char>> {
    match text::rsplit_once(t, sep) {
        Some((name, label)) => if presentation_label(label) {
            Some(text::trim_end(name))
        } else {
            None
        },
        None => None,
    }
}

/// The trimmed `title` without one trailing presentation label: in round or
/// square brackets, or after " | ", " - ", " \u{2013} " or " \u{2014} ".
pub open spec fn presentation_suffix_removed(title: Seq<char>) -> Option<Seq<char>> {
    let t = text::trim(title);
    match bracket_label_removed(t, '(', ')') {
        Some(r) => Some(r),
        None => match bracket_label_removed(t, '[', ']') {
            Some(r) => Some(r),
            None => match separator_label_removed(t, " | "@) {
                Some(r) => Some(r),
                None => match separator_label_removed(t, " - "@) {
                    Some(r) => Some(r),
                    None => match separator_label_removed(t, " \u{2013} "@) {
                        Some(r) => Some(r),
                        None => separator_label_removed(t, " \u{2014} "@),
                    },
                },
            },
        },
    }
}

fn bracket_label_end(t: &[char], open: char, close: char) -> (r: Option<usize>)
    ensures
        match bracket_label_removed(t@, open, close) {
            Some(c) => r matches Some(e) && e <= t@.len() && t@.subrange(0, e as int) == c,
            None => r is None,
        },
{
    let n = t.len();
    if n == 0 || t[n - 1] != close {
        return None;
    }
    let pat = vec![open];
    assert(pat@ =~= seq![open]);
    match find_last(t, &pat) {
        None => None,
        Some(start) => {
            if start + 1 > n - 1 {
                return None;
            }
            let label = slice_chars(t, start + 1, n - 1);
            if presentation_label_chars(&label) {
                let e = trim_end_index(t, 0, start);
                Some(e)
            } else {
                None
            }
        },
    }
}

fn separator_label_end(t: &[char], sep: &[char]) -> (r: Option<usize>)
    ensures
        match separator_label_removed(t@, sep@) {
            Some(c) => r matches Some(e) && e <= t@.len() && t@.subrange(0, e as int) == c,
            None => r is None,
        },
{
    match find_last(t, sep) {
        None => None,
        Some(i) => {
            let n = t.len();
            assert(text::occurs_at(t@, sep@, i as int));
            let label = slice_chars(t, i + sep.len(), t.len());
            if presentation_label_chars(&label) {
                Some(trim_end_index(t, 0, i))
            } else {
                None
            }
        },
    }
}

/// Where the title without its presentation suffix lies in `title`.
fn presentation_suffix_bounds(title: &[char]) -> (r: Option<(usize, usize)>)
    ensures
        match presentation_suffix_removed(title@) {
            Some(c) => r matches Some((b, e)) && b <= e <= title@.len() && title@.subrange(
                b as int,
                e as int,
            ) == c,
            None => r is None,
        },
{
    let (b, e) = trim_bounds(title);
    let t = slice_chars(title, b, e);
    let found = match bracket_label_end(&t, '(', ')') {
        Some(x) => Some(x),
        None => match bracket_label_end(&t, '[', ']') {
            Some(x) => Some(x),
            None => {
                let bar = chars_of(" | ");
                match separator_label_end(&t, &bar) {
                    Some(x) => Some(x),
                    None => {
                        let hyphen = chars_of(" - ");
                        match separator_label_end(&t, &hyphen) {
                            Some(x) => Some(x),
                            None => {
                                let en_dash = chars_of(" \u{2013} ");
                                match separator_label_end(&t, &en_dash) {
                                    Some(x) => Some(x),
                                    None => {
                                        let em_dash = chars_of(" \u{2014} ");
                                        separator_label_end(&t, &em_dash)
                                    },
                                }
                            },
                        }
                    },
                }
            },
        },
    };
    match found {
        Some(x) => {
            assert(title@.subrange(b as int, b + x) =~= t@.subrange(0, x as int));
            Some((b, b + x))
        },
        None => None,
    }
}

/// The trimmed title without one trailing presentation label, or `None`
/// when it has none.
pub fn strip_presentation_suffix(title: &str) -> (r: Option<&str>)
    ensures
        match presentation_suffix_removed(title@) {
            Some(c) => r matches Some(x) && x@ == c,
            None => r is None,
        },
{
    let t = chars_of(title);
    match presentation_suffix_bounds(&t) {
        Some((b, e)) => Some(title.substring_char(b, e)),
        None => None,
    }
}


proof fn lemma_separator_label_shorter(t: Seq<char>, sep: Seq<char>)
    requires
        sep.len() > 0,
        separator_label_removed(t, sep) is Some,
    ensures
        separator_label_removed(t, sep)->0.len() < t.len(),
{
    text::lemma_occurrences(t, sep);
    let i = text::last_occurrence(t, sep)->0;
    text::lemma_trim_end_len(t.subrange(0, i));
}

proof fn lemma_bracket_label_shorter(t: Seq<char>, open: char, close: char)
    requires
        bracket_label_removed(t, open, close) is Some,
    ensures
        bracket_label_removed(t, open, close)->0.len() < t.len(),
{
    text::lemma_occurrences(t, seq![open]);
    let start = text::last_occurrence(t, seq![open])->0;
    text::lemma_trim_end_len(t.subrange(0, start));
}

/// Removing a presentation suffix always makes a title shorter.
pub proof fn lemma_presentation_suffix_shorter(title: Seq<char>)
    requires
        presentation_suffix_removed(title) is Some,
    ensures
        text::trim(presentation_suffix_removed(title)->0).len() < title.len(),
{
    reveal_strlit(" | ");
    reveal_strlit(" - ");
    reveal_strlit(" \u{2013} ");
    reveal_strlit(" \u{2014} ");
    let t = text::trim(title);
    text::lemma_trim_len(title);
    let c = presentation_suffix_removed(title)->0;
    text::lemma_trim_len(c);
    if bracket_label_removed(t, '(', ')') is Some {
        lemma_bracket_label_shorter(t, '(', ')');
    } else if bracket_label_removed(t, '[', ']') is Some {
        lemma_bracket_label_shorter(t, '[', ']');
    } else if separator_label_removed(t, " | "@) is Some {
        lemma_separator_label_shorter(t, " | "@);
    } else if separator_label_removed(t, " - "@) is Some {
        lemma_separator_label_shorter(t, " - "@);
    } else if separator_label_removed(t, " \u{2013} "@) is Some {
        lemma_separator_label_shorter(t, " \u{2013} "@);
    } else {
        lemma_separator_label_shorter(t, " \u{2014} "@);
    }
}

/// `t` after presentation labels are removed from its end, one after the
/// other, trimming after each, until none is left.
pub open spec fn presentation_suffixes_removed(t: Seq<char>) -> Seq<char>
    decreases t.len(),
{
    match presentation_suffix_removed(t) {
        Some(c) => {
            proof {
                lemma_presentation_suffix_shorter(t);
            }
            presentation_suffixes_removed(text::trim(c))
        },
        None => t,
    }
}

// ---------------------------------------------------------------------
// Wrapping quotes.
// ---------------------------------------------------------------------

/// The inside of `v` when it is wrapped in `open` and `close` and the
/// inside holds more than whitespace.
pub open spec fn quote_pair_removed(v: Seq<char>, open: char, close: char) -> Option<Seq<char>> {
    if v.len() >= 2 && v[0] == open && v.last() == close && text::trim(v.subrange(1, v.len() - 1)).len()
        > 0 {
        Some(v.subrange(1, v.len() - 1))
    } else {
        None
    }
}

/// `v` without one pair of wrapping quotes: straight single or double,
/// or typographic single or double.
pub open spec fn quotes_removed(v: Seq<char>) -> Seq<char> {
    match quote_pair_removed(v, '\'', '\'') {
        Some(r) => r,
        None => match quote_pair_removed(v, '"', '"') {
            Some(r) => r,
            None => match quote_pair_removed(v, '\u{2018}', '\u{2019}') {
                Some(r) => r,
                None => match quote_pair_removed(v, '\u{201c}', '\u{201d}') {
                    Some(r) => r,
                    None => v,
                },
            },
        },
    }
}

fn quote_pair_inside(v: &[char], open: char, close: char) -> (r: bool)
    ensures
        r == quote_pair_removed(v@, open, close) is Some,
{
    let n = v.len();
    if n < 2 || v[0] != open || v[n - 1] != close {
        return false;
    }
    let (b, e) = sub_bounds_of_trim(v, 1, n - 1);
    b < e
}

fn quotes_bounds(v: &[char]) -> (r: (usize, usize))
    ensures
        r.0 <= r.1 <= v@.len(),
        v@.subrange(r.0 as int, r.1 as int) == quotes_removed(v@),
{
    let n = v.len();
    if quote_pair_inside(v, '\'', '\'') || quote_pair_inside(v, '"', '"') || quote_pair_inside(
        v,
        '\u{2018}',
        '\u{2019}',
    ) || quote_pair_inside(v, '\u{201c}', '\u{201d}') {
        (1, n - 1)
    } else {
        assert(v@.subrange(0, n as int) =~= v@);
        (0, n)
    }
}

/// Removes one pair of quotes wrapping `value`, unless only whitespace is
/// inside them.
pub fn strip_wrapping_quotes(value: &str) -> (r: &str)
    ensures
        r@ == quotes_removed(value@),
{
    let v = chars_of(value);
    let (b, e) = quotes_bounds(&v);
    value.substring_char(b, e)
}

// ---------------------------------------------------------------------
// Titles and artists as they are looked up.
// ---------------------------------------------------------------------

/// The title a track is looked up by: without the artist prefix, without
/// trailing presentation labels, without wrapping quotes, and trimmed.
pub open spec fn lookup_title(title: Seq<char>, artist: Seq<char>) -> Seq<char> {
    let t = presentation_suffixes_removed(text::trim(without_artist_prefix(title, artist)));
    text::trim(quotes_removed(text::trim(t)))
}

/// The title to look a track up by: the artist prefix, trailing
/// presentation labels and wrapping quotes removed.
pub fn title_for_lookup(title: &str, artist: &str) -> (r: String)
    ensures
        r@ == lookup_title(title@, artist@),
{
    let first = title_without_artist_prefix(title, artist);
    let first_chars = chars_of(first);
    let start = trimmed(&first_chars);
    let t = remove_presentation_suffixes(start);
    let t = trimmed(&t);
    let (b, e) = quotes_bounds(&t);
    let inner = slice_chars(&t, b, e);
    let result = trimmed(&inner);
    string_of(&result)
}

fn remove_presentation_suffixes(start: Vec<char>) -> (r: Vec<char>)
    ensures
        r@ == presentation_suffixes_removed(start@),
{
    let mut cur = start;
    loop
        invariant
            presentation_suffixes_removed(cur@) == presentation_suffixes_removed(start@),
        decreases cur@.len(),
    {
        match presentation_suffix_bounds(&cur) {
            Some((b, e)) => {
                proof {
                    lemma_presentation_suffix_shorter(cur@);
                }
                let cleaned = slice_chars(&cur, b, e);
                cur = trimmed(&cleaned);
            },
            None => {
                return cur;
            },
        }
    }
}

/// `a` without a final `sep` followed by "topic" (in any ASCII case), when
/// something other than whitespace comes before it; trimmed.
pub open spec fn topic_suffix_removed(a: Seq<char>, sep: Seq<char>) -> Option<Seq<char>> {
    match text::rsplit_once(a, sep) {
        Some((name, suffix)) => if text::eq_ignore_ascii_case(suffix, "topic"@) && text::trim(
            name,
        ).len() > 0 {
            Some(text::trim(name))
        } else {
            None
        },
        None => None,
    }
}

/// The artist a track is looked up by: trimmed, and without the " - Topic"
/// that auto-generated channels append.
pub open spec fn lookup_artist(artist: Seq<char>) -> Seq<char> {
    let a = text::trim(artist);
    match topic_suffix_removed(a, " - "@) {
        Some(r) => r,
        None => match topic_suffix_removed(a, " \u{2013} "@) {
            Some(r) => r,
            None => match topic_suffix_removed(a, " \u{2014} "@) {
                Some(r) => r,
                None => a,
            },
        },
    }
}

fn topic_suffix_bounds(a: &[char], sep: &[char]) -> (r: Option<(usize, usize)>)
    ensures
        match topic_suffix_removed(a@, sep@) {
            Some(t) => r matches Some((b, e)) && b <= e <= a@.len() && a@.subrange(b as int, e as int)
                == t,
            None => r is None,
        },
{
    match find_last(a, sep) {
        None => None,
        Some(i) => {
            let n = a.len();
            assert(text::occurs_at(a@, sep@, i as int));
            let suffix = slice_chars(a, i + sep.len(), n);
            let topic = chars_of("topic");
            let (b, e) = sub_bounds_of_trim(a, 0, i);
            if eq_ascii_case_insensitive(&suffix, &topic) && b < e {
                Some((b, e))
            } else {
                None
            }
        },
    }
}

/// The artist name to look a track up by.
pub fn artist_for_lookup(artist: &str) -> (r: &str)
    ensures
        r@ == lookup_artist(artist@),
{
    let all = chars_of(artist);
    let (tb, te) = trim_bounds(&all);
    let a = slice_chars(&all, tb, te);
    let hyphen = chars_of(" - ");
    let en_dash = chars_of(" \u{2013} ");
    let em_dash = chars_of(" \u{2014} ");
    let found = match topic_suffix_bounds(&a, &hyphen) {
        Some(x) => Some(x),
        None => match topic_suffix_bounds(&a, &en_dash) {
            Some(x) => Some(x),
            None => topic_suffix_bounds(&a, &em_dash),
        },
    };
    match found {
        Some((b, e)) => {
            assert(all@.subrange(tb + b, tb + e) =~= a@.subrange(b as int, e as int));
            artist.substring_char(tb + b, tb + e)
        },
        None => {
            assert(all@.subrange(tb as int, te as int) =~= a@);
            artist.substring_char(tb, te)
        },
    }
}

// ---------------------------------------------------------------------
// Live releases.
// ---------------------------------------------------------------------

/// A release title that suggests a live recording: its normalised form
/// mentions "live", "bootleg", "concert" or "session", or it holds a slash
/// and an ASCII digit (as dates do).
pub open spec fn live_release_title(title: Seq<char>) -> bool {
    let n = normalized(title);
    text::occurs_in(n, "live"@) || text::occurs_in(n, "bootleg"@) || text::occurs_in(n, "concert"@)
        || text::occurs_in(n, "session"@) || (title.contains('/') && exists|i: int|
        0 <= i < title.len() && text::is_ascii_digit(title[i]))
}

/// Whether a release title looks like a live recording.
pub fn looks_like_live_release(title: &str) -> (r: bool)
    ensures
        r == live_release_title(title@),
{
    let t = chars_of(title);
    let n = normalize_chars(&t);
    if occurs_literal(&n, "live") || occurs_literal(&n, "bootleg") || occurs_literal(&n, "concert")
        || occurs_literal(&n, "session") {
        return true;
    }
    let mut has_slash = false;
    let mut has_digit = false;
    let mut i: usize = 0;
    while i < t.len()
        invariant
            i <= t@.len(),
            has_slash == (exists|j: int| 0 <= j < i && t@[j] == '/'),
            has_digit == (exists|j: int| 0 <= j < i && text::is_ascii_digit(t@[j])),
        decreases t@.len() - i,
    {
        if t[i] == '/' {
            has_slash = true;
        }
        if is_digit(t[i]) {
            has_digit = true;
        }
        i = i + 1;
    }
    proof {
        if has_slash {
            let j = choose|j: int| 0 <= j < t@.len() && t@[j] == '/';
            assert(t@.contains('/'));
        }
        if t@.contains('/') {
            let j = choose|j: int| 0 <= j < t@.len() && t@[j] == '/';
            assert(has_slash);
        }
    }
    has_slash && has_digit
}

/// Law: a title made of a name that normalises like the artist's, " - ",
/// and some text that is not blank loses exactly that prefix, at the
/// first " - ": what is left is the text after it, trimmed, even when that
/// text holds " - " itself.
pub proof fn artist_prefix_is_cut_at_first_separator(
    prefix: Seq<char>,
    rest: Seq<char>,
    artist: Seq<char>,
)
    requires
        normalized(prefix) == normalized(artist),
        !text::occurs_in(prefix + " -"@, " - "@),
        text::trim(rest).len() > 0,
    ensures
        without_artist_prefix(prefix + " - "@ + rest, artist) == text::trim(rest),
{
    reveal_strlit(" - ");
    reveal_strlit(" -");
    let sep = " - "@;
    let title = prefix + sep + rest;
    let at = prefix.len() as int;
    assert(title.subrange(at, at + 3) =~= sep);
    assert forall|j: int| 0 <= j < at implies !text::occurs_at(title, sep, j) by {
        if text::occurs_at(title, sep, j) {
            let head = prefix + " -"@;
            assert(title.subrange(j, j + 3) =~= head.subrange(j, j + 3));
            assert(text::occurs_at(head, sep, j));
        }
    }
    text::lemma_first_occurrence(title, sep, at);
    assert(title.subrange(0, at) =~= prefix);
    assert(title.subrange(at + 3, title.len() as int) =~= rest);
}

/// A normalised label mentions live, remix, acoustic, demo, remaster, edit
/// or version.
pub open spec fn version_word_in(l: Seq<char>) -> bool {
    exists|w: Seq<char>|
        (w == "live"@ || w == "remix"@ || w == "acoustic"@ || w == "demo"@ || w == "remaster"@ || w
            == "edit"@ || w == "version"@) && #[trigger] text::occurs_in(l, w)
}

/// Law: a label whose normalised form is one of the publication labels
/// (audio, official audio, video, official video, music video, official
/// music video, lyric, lyrics, lyric video, official lyric video,
/// visualizer, official visualizer, HD, 4K) is a presentation label unless
/// it names a version; a label that names a version never is one.
pub proof fn publication_labels_are_presentation(label: Seq<char>)
    ensures
        ({
            let l = normalized(label);
            (l == "audio"@ || l == "officialaudio"@ || l == "video"@ || l == "officialvideo"@
                || l == "musicvideo"@ || l == "officialmusicvideo"@ || l == "lyric"@ || l
                == "lyrics"@ || l == "lyricvideo"@ || l == "officiallyricvideo"@ || l
                == "visualizer"@ || l == "officialvisualizer"@ || l == "hd"@ || l == "4k"@)
                && !version_word_in(l) ==> presentation_label(label)
        }),
        version_word_in(normalized(label)) ==> !presentation_label(label),
{
}

} // verus!
