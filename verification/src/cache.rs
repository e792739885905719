//! The cache of artwork lookups.  Each track is looked up at most once per
//! time-to-live, a lookup in progress is marked so that overlapping polls
//! do not repeat it, and requests to MusicBrainz are kept at least
//! `MIN_REQUEST_INTERVAL_MS` apart.  Times are milliseconds on a monotonic
//! clock that the caller reads.

use vstd::prelude::*;
use vstd::string::*;
use crate::text::{chars_of, same_chars};

verus! {

/// Least time between two requests to MusicBrainz.
pub const MIN_REQUEST_INTERVAL_MS: u64 = 1_100;

/// How long found artwork stays cached.
pub const FOUND_TTL_MS: u64 = 86_400_000;

/// How long a lookup that found nothing stays cached.
pub const MISSED_TTL_MS: u64 = 1_800_000;

/// How long a lookup in progress is marked as such.
pub const PENDING_TTL_MS: u64 = 30_000;

/// What the cache holds for one track key.
pub struct CachedArtwork {
    pub value: Option<String>,
    pub expires_at: u64,
}

struct CacheEntry {
    key: String,
    artwork: CachedArtwork,
}

/// The artwork cache together with the time of the last request.
pub struct ArtworkCache {
    entries: Vec<CacheEntry>,
    last_request: Option<u64>,
}

/// What a lookup has to do next.
#[derive(Debug, PartialEq, Eq)]
pub enum CacheStep {
    /// The cache answers: the artwork found earlier, or `None` for a miss or
    /// a lookup still in progress.
    Cached(Option<String>),
    /// Nothing is cached: wait this long, then request.
    Fetch { wait_ms: u64 },
}

pub open spec fn opt_chars(v: Option<String>) -> Option<Seq<char>> {
    match v {
        Some(s) => Some(s@),
        None => None,
    }
}

/// A cached value: the artwork (if any) and when it expires.
pub type CachedView = (Option<Seq<char>>, u64);

spec fn has_key(s: Seq<CacheEntry>, k: Seq<char>) -> bool {
    exists|i: int| 0 <= i < s.len() && #[trigger] s[i].key@ == k
}

spec fn keys_unique(s: Seq<CacheEntry>) -> bool {
    forall|i: int, j: int| 0 <= i < s.len() && 0 <= j < s.len() && i != j ==> s[i].key@ != s[j].key@
}

spec fn entry_view(e: CacheEntry) -> CachedView {
    (opt_chars(e.artwork.value), e.artwork.expires_at)
}

spec fn entries_map(s: Seq<CacheEntry>) -> Map<Seq<char>, CachedView> {
    Map::new(
        |k: Seq<char>| has_key(s, k),
        |k: Seq<char>| entry_view(s[choose|i: int| 0 <= i < s.len() && #[trigger] s[i].key@ == k]),
    )
}

proof fn lemma_entries_map_at(s: Seq<CacheEntry>, i: int)
    requires
        keys_unique(s),
        0 <= i < s.len(),
    ensures
        entries_map(s).contains_key(s[i].key@),
        entries_map(s)[s[i].key@] == entry_view(s[i]),
{
    let k = s[i].key@;
    assert(has_key(s, k));
    let j = choose|j: int| 0 <= j < s.len() && #[trigger] s[j].key@ == k;
    assert(j == i);
}

/// `m` without the entries that expire at or before `now`.
pub open spec fn live_at(m: Map<Seq<char>, CachedView>, now: u64) -> Map<Seq<char>, CachedView> {
    Map::new(|k: Seq<char>| m.contains_key(k) && m[k].1 > now, |k: Seq<char>| m[k])
}

/// How long a request made at `now` must wait after one made at `last`.
pub open spec fn wait_before_request(last: Option<u64>, now: u64) -> u64 {
    match last {
        Some(t) => if now >= t && now - t < MIN_REQUEST_INTERVAL_MS {
            (MIN_REQUEST_INTERVAL_MS - (now - t)) as u64
        } else if now < t {
            MIN_REQUEST_INTERVAL_MS
        } else {
            0
        },
        None => 0,
    }
}

/// What the cached entries `m` (already without expired ones) answer for
/// `key`: the artwork cached for it, or `None` when nothing is cached and a
/// request is needed.
pub open spec fn cached_answer(m: Map<Seq<char>, CachedView>, key: Seq<char>) -> Option<
    Option<Seq<char>>,
> {
    if m.contains_key(key) {
        Some(m[key].0)
    } else {
        None
    }
}

/// How long found artwork, or a miss, stays cached.
pub open spec fn ttl_for(found: bool) -> u64 {
    if found {
        FOUND_TTL_MS
    } else {
        MISSED_TTL_MS
    }
}

impl ArtworkCache {
    spec fn wf(self) -> bool {
        keys_unique(self.entries@)
    }

    /// The cached entries, by track key.
    pub closed spec fn entries(self) -> Map<Seq<char>, CachedView> {
        entries_map(self.entries@)
    }

    /// When the last request was made.
    pub closed spec fn last_request(self) -> Option<u64> {
        self.last_request
    }

    /// The cache is consistent: each key appears once.
    pub closed spec fn valid(self) -> bool {
        self.wf()
    }

    /// An empty cache that has made no request yet.
    pub fn new() -> (r: Self)
        ensures
            r.valid(),
            r.entries() == Map::<Seq<char>, CachedView>::empty(),
            r.last_request() is None,
    {
        let r = ArtworkCache { entries: Vec::new(), last_request: None };
        assert(r.entries() =~= Map::<Seq<char>, CachedView>::empty());
        r
    }

    fn keep(&mut self, key: Option<&str>, now: Option<u64>)
        requires
            old(self).wf(),
        ensures
            final(self).wf(),
            final(self).last_request == old(self).last_request,
            final(self).entries() == Map::new(
                |k: Seq<char>|
                    old(self).entries().contains_key(k) && (now matches Some(t) ==> old(self).entries()[
                        k].1 > t) && !(
                    key matches Some(x) && x@ == k),
                |k: Seq<char>| old(self).entries()[k],
            ),
    {
        let ghost old_entries = self.entries@;
        let key_chars: Option<Vec<char>> = match key {
            Some(x) => Some(chars_of(x)),
            None => None,
        };
        let ghost kv: Option<Seq<char>> = match key {
            Some(x) => Some(x@),
            None => None,
        };
        let mut kept: Vec<CacheEntry> = Vec::new();
        let mut rest: Vec<CacheEntry> = Vec::new();
        std::mem::swap(&mut rest, &mut self.entries);
        assert(rest@ == old_entries);
        // Walk the entries from the back, keeping those that stay.
        let ghost n = rest@.len();
        while rest.len() > 0
            invariant
                old_entries.len() == n,
                rest@.len() <= n,
                rest@ == old_entries.subrange(0, rest@.len() as int),
                keys_unique(kept@),
                forall|j: int|
                    #![trigger kept@[j]]
                    0 <= j < kept@.len() ==> exists|i: int|
                        rest@.len() <= i < n && #[trigger] old_entries[i] == kept@[j],
                forall|i: int|
                    #![trigger old_entries[i]]
                    rest@.len() <= i < n ==> ((now matches Some(t) ==> old_entries[i].artwork.expires_at > t) && !(
                    kv matches Some(x) && x == old_entries[i].key@) <==> exists|j: int|
                        0 <= j < kept@.len() && kept@[j] == old_entries[i]),
                keys_unique(old_entries),
                kv == match key {
                    Some(x) => Some(x@),
                    None => None::<Seq<char>>,
                },
                key_chars matches Some(c) ==> kv == Some(c@),
                key_chars is None ==> kv is None,
            decreases rest@.len(),
        {
            let ghost before = rest@;
            let ghost old_kept = kept@;
            let e = rest.pop().unwrap();
            let ghost idx = rest@.len() as int;
            assert(before[idx] == e);
            assert(old_entries[idx] == e);
            let matches_key = match &key_chars {
                Some(c) => {
                    let ek = chars_of(e.key.as_str());
                    same_chars(&ek, c)
                },
                None => false,
            };
            let live = match now {
                Some(t) => e.artwork.expires_at > t,
                None => true,
            };
            if live && !matches_key {
                proof {
                    assert forall|j: int| 0 <= j < kept@.len() implies kept@[j].key@ != e.key@ by {
                        let i = choose|i: int|
                            idx < i < n && #[trigger] old_entries[i] == kept@[j];
                        assert(i != idx);
                    }
                }
                kept.push(e);
                proof {
                    assert forall|j: int| #![trigger kept@[j]] 0 <= j < kept@.len() implies exists|i: int|
                        idx <= i < n && #[trigger] old_entries[i] == kept@[j] by {
                        if j == kept@.len() - 1 {
                            assert(old_entries[idx] == kept@[j]);
                        } else {
                            assert(kept@[j] == old_kept[j]);
                            let i = choose|i: int|
                                idx < i < n && #[trigger] old_entries[i] == old_kept[j];
                            assert(old_entries[i] == kept@[j]);
                        }
                    }
                    assert forall|i: int|
                        #![trigger old_entries[i]]
                        idx <= i < n implies ((now matches Some(t) ==> old_entries[i].artwork.expires_at > t) && !(
                        kv matches Some(x) && x == old_entries[i].key@) <==> exists|j: int|
                            0 <= j < kept@.len() && kept@[j] == old_entries[i]) by {
                        if i == idx {
                            assert(kept@[kept@.len() - 1] == old_entries[i]);
                        } else {
                            assert(kept@.drop_last() =~= old_kept);
                            if exists|j: int| 0 <= j < kept@.len() && kept@[j] == old_entries[i] {
                                let j = choose|j: int|
                                    0 <= j < kept@.len() && kept@[j] == old_entries[i];
                                if j == kept@.len() - 1 {
                                    assert(old_entries[i].key@ == old_entries[idx].key@);
                                }
                                assert(old_kept[j] == old_entries[i]);
                            }
                            if exists|j: int| 0 <= j < old_kept.len() && old_kept[j] == old_entries[i] {
                                let j = choose|j: int|
                                    0 <= j < old_kept.len() && old_kept[j] == old_entries[i];
                                assert(kept@[j] == old_entries[i]);
                            }
                        }
                    }
                }
            } else {
                proof {
                    assert forall|i: int|
                        #![trigger old_entries[i]]
                        idx <= i < n implies ((now matches Some(t) ==> old_entries[i].artwork.expires_at > t) && !(
                        kv matches Some(x) && x == old_entries[i].key@) <==> exists|j: int|
                            0 <= j < kept@.len() && kept@[j] == old_entries[i]) by {
                        if i == idx {
                            if exists|j: int| 0 <= j < kept@.len() && kept@[j] == old_entries[i] {
                                let j = choose|j: int|
                                    0 <= j < kept@.len() && kept@[j] == old_entries[i];
                                let i2 = choose|i2: int|
                                    idx < i2 < n && #[trigger] old_entries[i2] == kept@[j];
                                assert(old_entries[i2].key@ == old_entries[idx].key@);
                            }
                        }
                    }
                }
            }
        }
        self.entries = kept;
        proof {
            let m = self.entries();
            let want = Map::new(
                |k: Seq<char>|
                    entries_map(old_entries).contains_key(k) && (now matches Some(t) ==> entries_map(
                        old_entries,
                    )[k].1 > t) && !(key matches Some(x) && x@ == k),
                |k: Seq<char>| entries_map(old_entries)[k],
            );
            assert forall|k: Seq<char>| #[trigger] m.contains_key(k) <==> want.contains_key(k) by {
                if m.contains_key(k) {
                    let j = choose|j: int| 0 <= j < kept@.len() && #[trigger] kept@[j].key@ == k;
                    let i = choose|i: int| 0 <= i < n && #[trigger] old_entries[i] == kept@[j];
                    lemma_entries_map_at(old_entries, i);
                }
                if want.contains_key(k) {
                    let i = choose|i: int| 0 <= i < n && #[trigger] old_entries[i].key@ == k;
                    lemma_entries_map_at(old_entries, i);
                    let j = choose|j: int| 0 <= j < kept@.len() && kept@[j] == old_entries[i];
                    assert(has_key(kept@, k));
                }
            }
            assert forall|k: Seq<char>| m.contains_key(k) implies #[trigger] m[k] == want[k] by {
                let j = choose|j: int| 0 <= j < kept@.len() && #[trigger] kept@[j].key@ == k;
                lemma_entries_map_at(kept@, j);
                let i = choose|i: int| 0 <= i < n && #[trigger] old_entries[i] == kept@[j];
                lemma_entries_map_at(old_entries, i);
            }
            assert(m =~= want);
        }
    }

    fn put(&mut self, key: &str, value: Option<String>, expires_at: u64)
        requires
            old(self).wf(),
        ensures
            final(self).wf(),
            final(self).last_request == old(self).last_request,
            final(self).entries() == old(self).entries().insert(key@, (opt_chars(value), expires_at)),
    {
        let ghost before = self.entries();
        self.keep(Some(key), None);
        let ghost kept = self.entries@;
        let ghost kept_map = self.entries();
        assert(kept_map == entries_map(kept));
        let entry = CacheEntry {
            key: String::from_str(key),
            artwork: CachedArtwork { value, expires_at },
        };
        proof {
            assert forall|j: int| 0 <= j < kept.len() implies #[trigger] kept[j].key@ != key@ by {
                lemma_entries_map_at(kept, j);
            }
        }
        self.entries.push(entry);
        proof {
            let s = self.entries@;
            assert(s.drop_last() =~= kept);
            assert(keys_unique(s)) by {
                assert forall|i: int, j: int|
                    0 <= i < s.len() && 0 <= j < s.len() && i != j implies s[i].key@ != s[j].key@ by {
                    if i < kept.len() && j < kept.len() {
                        assert(s[i] == kept[i] && s[j] == kept[j]);
                    } else if i < kept.len() {
                        assert(s[i] == kept[i]);
                    } else if j < kept.len() {
                        assert(s[j] == kept[j]);
                    }
                }
            }
            let want = before.insert(key@, (opt_chars(value), expires_at));
            let m = self.entries();
            assert forall|k: Seq<char>| #[trigger] m.contains_key(k) <==> want.contains_key(k) by {
                if k == key@ {
                    assert(s[s.len() - 1].key@ == k);
                    assert(has_key(s, k));
                } else {
                    if m.contains_key(k) {
                        let i = choose|i: int| 0 <= i < s.len() && #[trigger] s[i].key@ == k;
                        assert(s[i] == kept[i]);
                        assert(has_key(kept, k));
                        assert(kept_map.contains_key(k));
                        assert(before.contains_key(k));
                    }
                    if want.contains_key(k) {
                        assert(before.contains_key(k));
                        assert(kept_map.contains_key(k));
                        assert(entries_map(kept).contains_key(k));
                        let i = choose|i: int| 0 <= i < kept.len() && #[trigger] kept[i].key@ == k;
                        assert(s[i] == kept[i]);
                        assert(has_key(s, k));
                    }
                }
            }
            assert forall|k: Seq<char>| m.contains_key(k) implies #[trigger] m[k] == want[k] by {
                let i = choose|i: int| 0 <= i < s.len() && #[trigger] s[i].key@ == k;
                lemma_entries_map_at(s, i);
                if k != key@ {
                    assert(s[i] == kept[i]);
                    lemma_entries_map_at(kept, i);
                }
            }
            assert(m =~= want);
        }
    }

    /// Starts the lookup of `key` at `now`: expired entries are dropped;
    /// then the cache either answers, or says how long to wait before the
    /// request so that requests stay `MIN_REQUEST_INTERVAL_MS` apart.
    pub fn begin_lookup(&mut self, key: &str, now: u64) -> (step: CacheStep)
        requires
            old(self).valid(),
        ensures
            final(self).valid(),
            final(self).entries() == live_at(old(self).entries(), now),
            final(self).last_request() == old(self).last_request(),
            match cached_answer(final(self).entries(), key@) {
                Some(v) => step matches CacheStep::Cached(x) && opt_chars(x) == v,
                None => step == (CacheStep::Fetch {
                    wait_ms: wait_before_request(old(self).last_request(), now),
                }),
            },
    {
        let ghost before = self.entries();
        self.keep(None, Some(now));
        proof {
            assert(self.entries() =~= live_at(before, now));
        }
        let target = chars_of(key);
        let mut i: usize = 0;
        while i < self.entries.len()
            invariant
                i <= self.entries@.len(),
                self.wf(),
                self.entries() == live_at(before, now),
                before == old(self).entries(),
                self.last_request == old(self).last_request,
                target@ == key@,
                forall|j: int| 0 <= j < i ==> #[trigger] self.entries@[j].key@ != key@,
            decreases self.entries@.len() - i,
        {
            let k = chars_of(self.entries[i].key.as_str());
            if same_chars(&k, &target) {
                proof {
                    lemma_entries_map_at(self.entries@, i as int);
                }
                let v = match &self.entries[i].artwork.value {
                    Some(s) => Some(s.clone()),
                    None => None,
                };
                return CacheStep::Cached(v);
            }
            i = i + 1;
        }
        let wait_ms = match self.last_request {
            Some(t) => {
                if now >= t && now - t < MIN_REQUEST_INTERVAL_MS {
                    MIN_REQUEST_INTERVAL_MS - (now - t)
                } else if now < t {
                    MIN_REQUEST_INTERVAL_MS
                } else {
                    0
                }
            },
            None => 0,
        };
        CacheStep::Fetch { wait_ms }
    }

    /// Records that a request for `key` is made at `now`: the time of the
    /// last request becomes `now`, and `key` is marked as being looked up
    /// (no artwork) for `PENDING_TTL_MS`.
    pub fn record_request(&mut self, key: &str, now: u64)
        requires
            old(self).valid(),
            now <= u64::MAX - PENDING_TTL_MS,
        ensures
            final(self).valid(),
            final(self).last_request() == Some(now),
            final(self).entries() == old(self).entries().insert(
                key@,
                (None, (now + PENDING_TTL_MS) as u64),
            ),
    {
        self.last_request = Some(now);
        self.put(key, None, now + PENDING_TTL_MS);
    }

    /// Records what the lookup of `key` found at `now`: the artwork stays
    /// cached for `FOUND_TTL_MS`, a miss for `MISSED_TTL_MS`.
    pub fn record_result(&mut self, key: &str, value: Option<String>, now: u64)
        requires
            old(self).valid(),
            now <= u64::MAX - FOUND_TTL_MS,
        ensures
            final(self).valid(),
            final(self).last_request() == old(self).last_request(),
            final(self).entries() == old(self).entries().insert(
                key@,
                (opt_chars(value), (now + ttl_for(value is Some)) as u64),
            ),
    {
        let ttl = if value.is_some() {
            FOUND_TTL_MS
        } else {
            MISSED_TTL_MS
        };
        self.put(key, value, now + ttl);
    }
}

/// Law: artwork recorded for a key is what a lookup of that key answers,
/// until its time-to-live has passed.
pub proof fn recorded_result_is_answered(
    m: Map<Seq<char>, CachedView>,
    key: Seq<char>,
    value: Option<Seq<char>>,
    recorded_at: u64,
    now: u64,
)
    requires
        recorded_at <= u64::MAX - FOUND_TTL_MS,
        now < recorded_at + ttl_for(value is Some),
    ensures
        cached_answer(
            live_at(m.insert(key, (value, (recorded_at + ttl_for(value is Some)) as u64)), now),
            key,
        ) == Some(value),
{
}

/// Law: while a lookup of a key is in progress, another lookup of the same
/// key is answered from the cache (with no artwork) instead of requesting
/// again.
pub proof fn pending_lookup_is_not_repeated(
    m: Map<Seq<char>, CachedView>,
    key: Seq<char>,
    requested_at: u64,
    now: u64,
)
    requires
        requested_at <= u64::MAX - PENDING_TTL_MS,
        now < requested_at + PENDING_TTL_MS,
    ensures
        cached_answer(
            live_at(m.insert(key, (None, (requested_at + PENDING_TTL_MS) as u64)), now),
            key,
        ) == Some(None::<Seq<char>>),
{
}

/// Law: a request that waits as told starts at least
/// `MIN_REQUEST_INTERVAL_MS` after the previous one.
pub proof fn requests_are_spaced(last: u64, now: u64)
    requires
        now >= last,
    ensures
        now + wait_before_request(Some(last), now) >= last + MIN_REQUEST_INTERVAL_MS,
{
}

/// Law: a lookup never answers from an entry that has expired.
pub proof fn expired_entries_are_not_answered(
    m: Map<Seq<char>, CachedView>,
    key: Seq<char>,
    now: u64,
)
    requires
        m.contains_key(key),
        m[key].1 <= now,
    ensures
        cached_answer(live_at(m, now), key) is None,
{
}

} // verus!
