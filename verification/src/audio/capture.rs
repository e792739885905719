//! The sources each capture back end offers, and how a source id is read
//! back when capture starts. Each platform module is fed what its platform
//! reports (input devices, displays, applications, windows) as plain values.

pub mod linux;
pub mod macos;
pub mod windows;

use vstd::prelude::*;
use vstd::string::*;
use crate::audio::AudioSource;

verus! {

/// `k` is the first index at which `x` occurs in `s`.
pub open spec fn is_first<T>(s: Seq<T>, x: T, k: int) -> bool {
    &&& 0 <= k < s.len()
    &&& s[k] == x
    &&& forall|j: int| 0 <= j < k ==> s[j] != x
}

/// The first index at which `x` occurs in `s`.
pub open spec fn first_index<T>(s: Seq<T>, x: T) -> Option<int> {
    if exists|k: int| is_first(s, x, k) {
        Some(choose|k: int| is_first(s, x, k))
    } else {
        None
    }
}

/// The first index is unique.
pub proof fn lemma_first_index<T>(s: Seq<T>, x: T, k: int)
    requires
        is_first(s, x, k),
    ensures
        first_index(s, x) == Some(k),
{
    let c = choose|c: int| is_first(s, x, c);
    assert(is_first(s, x, c));
    if c < k {
        assert(s[c] != x);
    } else if k < c {
        assert(s[k] != x);
    }
}

/// Where `x` occurs at `i`, its first index is at most `i`.
pub proof fn lemma_first_index_at_most<T>(s: Seq<T>, x: T, i: int)
    requires
        0 <= i < s.len(),
        s[i] == x,
    ensures
        first_index(s, x) matches Some(k) && 0 <= k <= i && s[k] == x,
    decreases i,
{
    if exists|j: int| 0 <= j < i && s[j] == x {
        let j = choose|j: int| 0 <= j < i && s[j] == x;
        lemma_first_index_at_most(s, x, j);
    } else {
        lemma_first_index(s, x, i);
    }
}

/// The fields of each source, in order.
pub open spec fn sources_view(v: Seq<AudioSource>) -> Seq<(Seq<char>, Seq<char>, Seq<char>, Seq<char>)> {
    v.map_values(|s: AudioSource| s@)
}

/// A source made of its four fields.
pub fn source_of(id: String, kind: &str, title: String, subtitle: String) -> (r: AudioSource)
    ensures
        r@ == (id@, kind@, title@, subtitle@),
{
    AudioSource { id, kind: String::from_str(kind), title, subtitle }
}

} // verus!
