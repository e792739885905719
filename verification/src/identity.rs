//! Room codes and the keys derived from them.
//!
//! A room code reads `SNR-XXXX-XXXX`, where the eight `X` are drawn from an
//! alphabet without the look-alike characters 0, 1, I and O.  The host's
//! secret key is derived from the code, so anyone who knows the code knows
//! which endpoint to connect to.

use vstd::prelude::*;
use vstd::string::*;
use vstd::utf8::encode_utf8;
use crate::text;
use crate::text::{chars_of, is_alnum_ascii, to_upper_ascii};
use rand::Rng;

verus! {

/// Number of characters in the body of a room code.
pub const CODE_LEN: usize = 8;

// ---------------------------------------------------------------------
// Outside computations.
// ---------------------------------------------------------------------

/// The BLAKE3 digest of some bytes.
pub uninterp spec fn blake3_digest(data: Seq<u8>) -> Seq<u8>;

/// The Ed25519 public key that belongs to a 32-byte secret key.
pub uninterp spec fn ed25519_public_key(secret: Seq<u8>) -> Seq<u8>;

/// Calls `blake3::hash` and returns the digest's bytes; the digest is
/// named by `blake3_digest`.
#[verifier::external_body]
fn blake3_hash(data: &[u8]) -> (r: [u8; 32])
    ensures
        r@ == blake3_digest(data@),
{
    *blake3::hash(data).as_bytes()
}

/// Builds an `iroh::SecretKey` from `secret` with `SecretKey::from_bytes`
/// and returns the bytes of its `public()` key, named by
/// `ed25519_public_key`.
#[verifier::external_body]
fn public_key_of(secret: &[u8; 32]) -> (r: [u8; 32])
    ensures
        r@ == ed25519_public_key(secret@),
{
    *iroh::SecretKey::from_bytes(secret).public().as_bytes()
}

/// Calls `rand::Rng::gen_range(0..bound)` on the thread-local generator;
/// the result is some index below `bound`.
#[verifier::external_body]
fn random_index(bound: usize) -> (r: usize)
    requires
        bound > 0,
    ensures
        r < bound,
{
    rand::thread_rng().gen_range(0..bound)
}

// ---------------------------------------------------------------------
// UTF-8 widths, for slicing at byte offsets.
// ---------------------------------------------------------------------

/// How many bytes `c` takes in UTF-8.
pub open spec fn utf8_width(c: char) -> int {
    if (c as u32) < 0x80 {
        1
    } else if (c as u32) < 0x800 {
        2
    } else if (c as u32) < 0x10000 {
        3
    } else {
        4
    }
}

/// How many bytes `s` takes in UTF-8.
pub open spec fn utf8_len(s: Seq<char>) -> int
    decreases s.len(),
{
    if s.len() == 0 {
        0
    } else {
        utf8_len(s.drop_last()) + utf8_width(s.last())
    }
}

proof fn lemma_utf8_len_grows(s: Seq<char>, a: int, b: int)
    requires
        0 <= a < b <= s.len(),
    ensures
        utf8_len(s.take(a)) < utf8_len(s.take(b)),
    decreases b - a,
{
    assert(s.take(b).drop_last() =~= s.take(b - 1));
    if a < b - 1 {
        lemma_utf8_len_grows(s, a, b - 1);
    }
}

fn utf8_width_of(c: char) -> (w: usize)
    ensures
        w == utf8_width(c),
{
    let v = c as u32;
    if v < 0x80 {
        1
    } else if v < 0x800 {
        2
    } else if v < 0x10000 {
        3
    } else {
        4
    }
}

/// The first `k` characters of `raw` take exactly four bytes.
pub open spec fn splits_after_four_bytes(raw: Seq<char>, k: int) -> bool {
    0 <= k <= raw.len() && utf8_len(raw.take(k)) == 4
}

/// `raw` can be cut after its fourth byte.
pub open spec fn four_byte_prefix(raw: Seq<char>) -> bool {
    exists|k: int| splits_after_four_bytes(raw, k)
}

/// The displayed form of a room code: `SNR-`, the first four bytes of
/// `raw`, `-`, and the rest.
pub open spec fn formatted_code(raw: Seq<char>) -> Seq<char> {
    let k = choose|k: int| splits_after_four_bytes(raw, k);
    seq!['S', 'N', 'R', '-'] + raw.take(k) + seq!['-'] + raw.skip(k)
}

proof fn lemma_four_byte_split_unique(raw: Seq<char>, k: int)
    requires
        splits_after_four_bytes(raw, k),
    ensures
        formatted_code(raw) == seq!['S', 'N', 'R', '-'] + raw.take(k) + seq!['-'] + raw.skip(k),
{
    let j = choose|j: int| splits_after_four_bytes(raw, j);
    if j < k {
        lemma_utf8_len_grows(raw, j, k);
    } else if k < j {
        lemma_utf8_len_grows(raw, k, j);
    }
}

/// Formats the body of a room code for display: `SNR-` followed by the
/// first four bytes of `raw`, a dash, and the rest.
pub fn format_room_code(raw: &str) -> (r: String)
    requires
        four_byte_prefix(raw@),
    ensures
        r@ == formatted_code(raw@),
{
    let cs = chars_of(raw);
    let n = cs.len();
    let ghost target = choose|k: int| splits_after_four_bytes(raw@, k);
    let mut k: usize = 0;
    let mut bytes: usize = 0;
    while bytes < 4
        invariant
            cs@ == raw@,
            n == cs@.len(),
            splits_after_four_bytes(raw@, target),
            k <= target,
            bytes == utf8_len(cs@.take(k as int)),
        decreases target - k,
    {
        proof {
            if k == target {
                assert(false);
            }
        }
        let w = utf8_width_of(cs[k]);
        bytes = bytes + w;
        assert(cs@.take(k + 1).drop_last() =~= cs@.take(k as int));
        k = k + 1;
        proof {
            if k > target {
                lemma_utf8_len_grows(cs@, target, k as int);
            }
        }
    }
    proof {
        if k < target {
            lemma_utf8_len_grows(cs@, k as int, target);
        }
        lemma_four_byte_split_unique(raw@, k as int);
    }
    let mut out = String::from_str("SNR-");
    let mut i: usize = 0;
    proof {
        reveal_strlit("SNR-");
    }
    assert(out@ =~= seq!['S', 'N', 'R', '-'] + cs@.take(0));
    while i < k
        invariant
            i <= k <= cs@.len(),
            out@ == seq!['S', 'N', 'R', '-'] + cs@.take(i as int),
        decreases k - i,
    {
        text::push_char(&mut out, cs[i]);
        assert(cs@.take(i + 1) =~= cs@.take(i as int).push(cs@[i as int]));
        i = i + 1;
    }
    text::push_char(&mut out, '-');
    let ghost head = out@;
    assert(head =~= seq!['S', 'N', 'R', '-'] + cs@.take(k as int) + seq!['-']);
    let mut j: usize = k;
    while j < cs.len()
        invariant
            k <= j <= cs@.len(),
            out@ == head + cs@.subrange(k as int, j as int),
        decreases cs@.len() - j,
    {
        text::push_char(&mut out, cs[j]);
        assert(cs@.subrange(k as int, j + 1) =~= cs@.subrange(k as int, j as int).push(
            cs@[j as int],
        ));
        j = j + 1;
    }
    assert(cs@.subrange(k as int, cs@.len() as int) =~= cs@.skip(k as int));
    out
}

// ---------------------------------------------------------------------
// Reading room codes.
// ---------------------------------------------------------------------

/// A byte of the room-code alphabet `23456789ABCDEFGHJKLMNPQRSTUVWXYZ`.
pub open spec fn alphabet_byte(b: int) -> bool {
    (50 <= b <= 57) || (65 <= b <= 72) || (74 <= b <= 78) || (80 <= b <= 90)
}

/// A character of the room-code alphabet.
pub open spec fn in_alphabet(c: char) -> bool {
    ('2' <= c <= '9') || ('A' <= c <= 'H') || ('J' <= c <= 'N') || ('P' <= c <= 'Z')
}

/// The character a typed character stands for: ASCII letters in upper
/// case, `0` read as `O`, `1` and `I` read as `L`; `None` when the result's
/// low byte is not in the alphabet.
pub open spec fn canonical(c: char) -> Option<char> {
    let u = text::ascii_upper(c);
    let m = if u == '0' {
        'O'
    } else if u == '1' || u == 'I' {
        'L'
    } else {
        u
    };
    if alphabet_byte((m as u32 % 256) as int) {
        Some(m)
    } else {
        None
    }
}

/// Reads one typed character of a room code.
pub fn canon_char(c: char) -> (r: Option<char>)
    ensures
        r == canonical(c),
{
    let u = to_upper_ascii(c);
    let m = if u == '0' {
        'O'
    } else if u == '1' || u == 'I' {
        'L'
    } else {
        u
    };
    let b = m as u32 % 256;
    if (50 <= b && b <= 57) || (65 <= b && b <= 72) || (74 <= b && b <= 78) || (80 <= b && b <= 90) {
        Some(m)
    } else {
        None
    }
}

/// The ASCII letters and digits of `s`, in order.
pub open spec fn ascii_alphanumeric_only(s: Seq<char>) -> Seq<char>
    decreases s.len(),
{
    if s.len() == 0 {
        seq![]
    } else if text::is_ascii_alphanumeric(s.last()) {
        ascii_alphanumeric_only(s.drop_last()).push(s.last())
    } else {
        ascii_alphanumeric_only(s.drop_last())
    }
}

/// The characters `s` stands for, dropping those that stand for none.
pub open spec fn canonical_only(s: Seq<char>) -> Seq<char>
    decreases s.len(),
{
    if s.len() == 0 {
        seq![]
    } else {
        match canonical(s.last()) {
            Some(c) => canonical_only(s.drop_last()).push(c),
            None => canonical_only(s.drop_last()),
        }
    }
}

/// `s` without one leading `SNR`.
pub open spec fn without_snr(s: Seq<char>) -> Seq<char> {
    if text::starts_with(s, seq!['S', 'N', 'R']) {
        s.skip(3)
    } else {
        s
    }
}

/// The body of a typed room code: its ASCII letters and digits in upper
/// case, without a leading `SNR`, each read as the character it stands for.
pub open spec fn code_body(input: Seq<char>) -> Seq<char> {
    canonical_only(without_snr(text::ascii_upper_all(ascii_alphanumeric_only(input))))
}

/// The room code a typed text stands for: `None` when its body is not
/// eight characters long.
pub open spec fn parsed_code(input: Seq<char>) -> Option<Seq<char>> {
    let n = code_body(input);
    if n.len() != CODE_LEN {
        None
    } else {
        Some(formatted_code(n))
    }
}

/// The error shown for text that is no room code.
pub open spec fn bad_code_message() -> Seq<char> {
    "Use an 8-character room code like SNR-K7MQ-2PLX."@
}

fn body_of(input: &str) -> (r: Vec<char>)
    ensures
        r@ == code_body(input@),
{
    let cs = chars_of(input);
    let mut upper: Vec<char> = Vec::new();
    let mut i: usize = 0;
    while i < cs.len()
        invariant
            i <= cs@.len(),
            cs@ == input@,
            upper@ == text::ascii_upper_all(ascii_alphanumeric_only(cs@.take(i as int))),
        decreases cs@.len() - i,
    {
        let c = cs[i];
        assert(cs@.take(i + 1).drop_last() =~= cs@.take(i as int));
        let ghost before = ascii_alphanumeric_only(cs@.take(i as int));
        if is_alnum_ascii(c) {
            upper.push(to_upper_ascii(c));
            assert(text::ascii_upper_all(before.push(c)) =~= text::ascii_upper_all(before).push(
                text::ascii_upper(c),
            ));
        }
        i = i + 1;
    }
    assert(cs@.take(cs@.len() as int) =~= cs@);
    let start: usize = if upper.len() >= 3 && upper[0] == 'S' && upper[1] == 'N' && upper[2] == 'R' {
        3
    } else {
        0
    };
    let ghost stripped = without_snr(upper@);
    proof {
        if start == 3 {
            assert(upper@.subrange(0, 3) =~= seq!['S', 'N', 'R']);
        } else if text::starts_with(upper@, seq!['S', 'N', 'R']) {
            assert(upper@.subrange(0, 3)[0] == upper@[0]);
            assert(upper@.subrange(0, 3)[1] == upper@[1]);
            assert(upper@.subrange(0, 3)[2] == upper@[2]);
        }
        assert(stripped =~= upper@.subrange(start as int, upper@.len() as int));
    }
    let mut out: Vec<char> = Vec::new();
    let mut j: usize = start;
    while j < upper.len()
        invariant
            start <= j <= upper@.len(),
            stripped == upper@.subrange(start as int, upper@.len() as int),
            out@ == canonical_only(upper@.subrange(start as int, j as int)),
        decreases upper@.len() - j,
    {
        assert(upper@.subrange(start as int, j + 1).drop_last() =~= upper@.subrange(
            start as int,
            j as int,
        ));
        if let Some(c) = canon_char(upper[j]) {
            out.push(c);
        }
        j = j + 1;
    }
    out
}

proof fn lemma_alnum_only_ascii(s: Seq<char>)
    ensures
        forall|i: int|
            0 <= i < ascii_alphanumeric_only(s).len() ==> text::is_ascii_alphanumeric(
                #[trigger] ascii_alphanumeric_only(s)[i],
            ),
    decreases s.len(),
{
    if s.len() > 0 {
        lemma_alnum_only_ascii(s.drop_last());
        let r = ascii_alphanumeric_only(s.drop_last());
        let res = ascii_alphanumeric_only(s);
        assert forall|i: int| 0 <= i < res.len() implies text::is_ascii_alphanumeric(
            #[trigger] res[i],
        ) by {
            if i < r.len() {
                assert(res[i] == r[i]);
            }
        }
    }
}

proof fn lemma_canonical_only_from_ascii(s: Seq<char>)
    requires
        forall|i: int| 0 <= i < s.len() ==> (#[trigger] s[i] as u32) < 128,
    ensures
        forall|i: int|
            0 <= i < canonical_only(s).len() ==> in_alphabet(#[trigger] canonical_only(s)[i]),
    decreases s.len(),
{
    if s.len() > 0 {
        let t = s.drop_last();
        assert forall|i: int| 0 <= i < t.len() implies (#[trigger] t[i] as u32) < 128 by {
            assert(t[i] == s[i]);
        }
        lemma_canonical_only_from_ascii(t);
        let c = s.last();
        assert((c as u32) < 128);
        let r = canonical_only(t);
        let res = canonical_only(s);
        assert forall|i: int| 0 <= i < res.len() implies in_alphabet(#[trigger] res[i]) by {
            if i < r.len() {
                assert(res[i] == r[i]);
            }
        }
    }
}

/// The body of every typed code consists of alphabet characters.
proof fn lemma_code_body_in_alphabet(input: Seq<char>)
    ensures
        forall|i: int| 0 <= i < code_body(input).len() ==> in_alphabet(#[trigger] code_body(input)[i]),
{
    let a = ascii_alphanumeric_only(input);
    lemma_alnum_only_ascii(a);
    lemma_alnum_only_ascii(input);
    let u = text::ascii_upper_all(a);
    let w = without_snr(u);
    assert forall|i: int| 0 <= i < w.len() implies (#[trigger] w[i] as u32) < 128 by {
        if text::starts_with(u, seq!['S', 'N', 'R']) {
            assert(w[i] == u[i + 3]);
            assert(text::is_ascii_alphanumeric(a[i + 3]));
        } else {
            assert(w[i] == u[i]);
            assert(text::is_ascii_alphanumeric(a[i]));
        }
    }
    lemma_canonical_only_from_ascii(w);
}

/// Eight alphabet characters split after their fourth byte.
proof fn lemma_alphabet_split(n: Seq<char>)
    requires
        n.len() == CODE_LEN,
        forall|i: int| 0 <= i < n.len() ==> in_alphabet(#[trigger] n[i]),
    ensures
        splits_after_four_bytes(n, 4),
        four_byte_prefix(n),
        formatted_code(n) == seq!['S', 'N', 'R', '-'] + n.take(4) + seq!['-'] + n.skip(4),
{
    assert(n.take(0) =~= Seq::<char>::empty());
    assert(n.take(1).drop_last() =~= n.take(0));
    assert(n.take(2).drop_last() =~= n.take(1));
    assert(n.take(3).drop_last() =~= n.take(2));
    assert(n.take(4).drop_last() =~= n.take(3));
    assert(in_alphabet(n[0]) && in_alphabet(n[1]) && in_alphabet(n[2]) && in_alphabet(n[3]));
    assert(utf8_len(n.take(0)) == 0);
    assert(n.take(1).last() == n[0] && n.take(2).last() == n[1]);
    assert(n.take(3).last() == n[2] && n.take(4).last() == n[3]);
    assert((n[0] as u32) < 0x80 && (n[1] as u32) < 0x80);
    assert((n[2] as u32) < 0x80 && (n[3] as u32) < 0x80);
    assert(utf8_len(n.take(1)) == 1);
    assert(utf8_len(n.take(2)) == 2);
    assert(utf8_len(n.take(3)) == 3);
    assert(utf8_len(n.take(4)) == 4);
    assert(splits_after_four_bytes(n, 4));
    lemma_four_byte_split_unique(n, 4);
}

/// Reads a typed room code, forgiving case, separators, a missing `SNR`
/// and the look-alikes 0, 1 and I, and returns it in display form.
pub fn parse_room_code(input: &str) -> (r: Result<String, String>)
    ensures
        match parsed_code(input@) {
            Some(code) => r matches Ok(s) && s@ == code,
            None => r matches Err(e) && e@ == bad_code_message(),
        },
{
    let n = body_of(input);
    if n.len() != CODE_LEN {
        return Err(String::from_str("Use an 8-character room code like SNR-K7MQ-2PLX."));
    }
    proof {
        lemma_code_body_in_alphabet(input@);
        lemma_alphabet_split(n@);
    }
    let raw = crate::text::string_of(&n);
    Ok(format_room_code(raw.as_str()))
}

// ---------------------------------------------------------------------
// Keys.
// ---------------------------------------------------------------------

/// A room's secret key: the 32 bytes an Ed25519 signing key is made from.
pub struct RoomSecret {
    seed: [u8; 32],
}

impl View for RoomSecret {
    type V = Seq<u8>;

    closed spec fn view(&self) -> Seq<u8> {
        self.seed@
    }
}

impl RoomSecret {
    /// The secret key's bytes.
    pub fn to_bytes(&self) -> (r: [u8; 32])
        ensures
            r@ == self@,
    {
        self.seed
    }

    /// The public key of this secret key, which is the host's endpoint id.
    pub fn public(&self) -> (r: [u8; 32])
        ensures
            r@ == ed25519_public_key(self@),
    {
        public_key_of(&self.seed)
    }
}

/// The part of a room code a key is derived from: its letters and digits,
/// without the leading `SNR`.
pub open spec fn key_body(code: Seq<char>) -> Seq<char> {
    without_snr(ascii_alphanumeric_only(code))
}

/// The bytes hashed into a room's secret key.
pub open spec fn key_input(code: Seq<char>) -> Seq<u8> {
    encode_utf8("sonora-room-v1:"@ + key_body(code))
}

/// The secret key of the room a typed code stands for.
pub open spec fn room_seed(input: Seq<char>) -> Option<Seq<u8>> {
    match parsed_code(input) {
        Some(code) => Some(blake3_digest(key_input(code))),
        None => None,
    }
}

/// Derives the host's secret key from a room code, typed or displayed.
pub fn room_secret(formatted_or_raw: &str) -> (r: Result<RoomSecret, String>)
    ensures
        match room_seed(formatted_or_raw@) {
            Some(seed) => r matches Ok(k) && k@ == seed,
            None => r matches Err(e) && e@ == bad_code_message(),
        },
{
    let code = match parse_room_code(formatted_or_raw) {
        Ok(c) => c,
        Err(e) => return Err(e),
    };
    let cs = chars_of(code.as_str());
    let mut alnum: Vec<char> = Vec::new();
    let mut i: usize = 0;
    while i < cs.len()
        invariant
            i <= cs@.len(),
            alnum@ == ascii_alphanumeric_only(cs@.take(i as int)),
        decreases cs@.len() - i,
    {
        assert(cs@.take(i + 1).drop_last() =~= cs@.take(i as int));
        if is_alnum_ascii(cs[i]) {
            alnum.push(cs[i]);
        }
        i = i + 1;
    }
    assert(cs@.take(cs@.len() as int) =~= cs@);
    let start: usize = if alnum.len() >= 3 && alnum[0] == 'S' && alnum[1] == 'N' && alnum[2] == 'R' {
        3
    } else {
        0
    };
    proof {
        if start == 3 {
            assert(alnum@.subrange(0, 3) =~= seq!['S', 'N', 'R']);
        } else if text::starts_with(alnum@, seq!['S', 'N', 'R']) {
            assert(alnum@.subrange(0, 3)[0] == alnum@[0]);
            assert(alnum@.subrange(0, 3)[1] == alnum@[1]);
            assert(alnum@.subrange(0, 3)[2] == alnum@[2]);
        }
    }
    let body = crate::text::slice_chars(&alnum, start, alnum.len());
    assert(body@ =~= key_body(code@));
    let mut input = String::from_str("sonora-room-v1:");
    let body_text = crate::text::string_of(&body);
    input.append(body_text.as_str());
    let bytes = input.as_str().as_bytes();
    let seed = blake3_hash(bytes);
    Ok(RoomSecret { seed })
}

/// The endpoint id of the host of the room a code stands for.
pub fn host_id(code: &str) -> (r: Result<[u8; 32], String>)
    ensures
        match room_seed(code@) {
            Some(seed) => r matches Ok(id) && id@ == ed25519_public_key(seed),
            None => r matches Err(e) && e@ == bad_code_message(),
        },
{
    match room_secret(code) {
        Ok(secret) => Ok(secret.public()),
        Err(e) => Err(e),
    }
}

// ---------------------------------------------------------------------
// New codes.
// ---------------------------------------------------------------------

/// The `i`-th character of the alphabet.
pub open spec fn alphabet_char(i: int) -> char {
    if i < 8 {
        (50 + i) as char
    } else if i < 16 {
        (65 + i - 8) as char
    } else if i < 21 {
        (74 + i - 16) as char
    } else {
        (80 + i - 21) as char
    }
}

fn alphabet_at(i: usize) -> (c: char)
    requires
        i < 32,
    ensures
        c == alphabet_char(i as int),
        in_alphabet(c),
{
    let code: u32 = if i < 8 {
        50 + i as u32
    } else if i < 16 {
        65 + (i as u32 - 8)
    } else if i < 21 {
        74 + (i as u32 - 16)
    } else {
        80 + (i as u32 - 21)
    };
    let b = code as u8;
    b as char
}

/// A display-form room code whose body is `raw`.
pub open spec fn is_room_code(code: Seq<char>) -> bool {
    exists|raw: Seq<char>|
        raw.len() == CODE_LEN && (forall|i: int| 0 <= i < raw.len() ==> in_alphabet(#[trigger] raw[i]))
            && code == formatted_code(raw)
}

/// The body a sequence of draws stands for: each draw picks a character
/// of the alphabet by its position.
pub open spec fn drawn_body(draws: Seq<usize>) -> Seq<char> {
    Seq::new(draws.len(), |i: int| alphabet_char(draws[i] as int))
}

/// The room code that eight draws from the alphabet make.
pub fn room_code_from_draws(draws: &[usize]) -> (r: String)
    requires
        draws@.len() == CODE_LEN,
        forall|i: int| 0 <= i < draws@.len() ==> #[trigger] draws@[i] < 32,
    ensures
        r@ == formatted_code(drawn_body(draws@)),
        is_room_code(r@),
{
    let mut raw: Vec<char> = Vec::new();
    let mut i: usize = 0;
    while i < draws.len()
        invariant
            i <= draws@.len(),
            draws@.len() == CODE_LEN,
            forall|j: int| 0 <= j < draws@.len() ==> #[trigger] draws@[j] < 32,
            raw@ == drawn_body(draws@).take(i as int),
            forall|j: int| 0 <= j < raw@.len() ==> in_alphabet(#[trigger] raw@[j]),
        decreases draws@.len() - i,
    {
        let c = alphabet_at(draws[i]);
        raw.push(c);
        assert(raw@ =~= drawn_body(draws@).take(i + 1));
        i = i + 1;
    }
    assert(raw@ =~= drawn_body(draws@));
    proof {
        lemma_alphabet_split(raw@);
    }
    let text = crate::text::string_of(&raw);
    format_room_code(text.as_str())
}

/// A new room code with a random body: the code that eight random draws
/// from the alphabet make.
pub fn generate_room_code() -> (r: String)
    ensures
        exists|draws: Seq<usize>|
            {
                &&& draws.len() == CODE_LEN
                &&& forall|i: int| 0 <= i < draws.len() ==> #[trigger] draws[i] < 32
                &&& r@ == formatted_code(drawn_body(draws))
            },
        is_room_code(r@),
{
    let mut draws: Vec<usize> = Vec::new();
    let mut i: usize = 0;
    while i < CODE_LEN
        invariant
            i <= CODE_LEN,
            draws@.len() == i,
            forall|j: int| 0 <= j < draws@.len() ==> #[trigger] draws@[j] < 32,
        decreases CODE_LEN - i,
    {
        let k = random_index(32);
        draws.push(k);
        i = i + 1;
    }
    room_code_from_draws(&draws)
}

// ---------------------------------------------------------------------
// Laws.
// ---------------------------------------------------------------------

proof fn lemma_alnum_concat(a: Seq<char>, b: Seq<char>)
    ensures
        ascii_alphanumeric_only(a + b) == ascii_alphanumeric_only(a) + ascii_alphanumeric_only(b),
    decreases b.len(),
{
    if b.len() == 0 {
        assert(a + b =~= a);
        assert(ascii_alphanumeric_only(a) + ascii_alphanumeric_only(b) =~= ascii_alphanumeric_only(
            a,
        ));
    } else {
        lemma_alnum_concat(a, b.drop_last());
        assert((a + b).drop_last() =~= a + b.drop_last());
        assert((a + b).last() == b.last());
        assert(ascii_alphanumeric_only(a + b) =~= ascii_alphanumeric_only(a)
            + ascii_alphanumeric_only(b));
    }
}

proof fn lemma_alnum_keeps_all(s: Seq<char>)
    requires
        forall|i: int| 0 <= i < s.len() ==> text::is_ascii_alphanumeric(#[trigger] s[i]),
    ensures
        ascii_alphanumeric_only(s) == s,
    decreases s.len(),
{
    if s.len() > 0 {
        let t = s.drop_last();
        assert forall|i: int| 0 <= i < t.len() implies text::is_ascii_alphanumeric(
            #[trigger] t[i],
        ) by {
            assert(t[i] == s[i]);
        }
        lemma_alnum_keeps_all(t);
        assert(t.push(s.last()) =~= s);
    }
}

proof fn lemma_canonical_keeps_alphabet(s: Seq<char>)
    requires
        forall|i: int| 0 <= i < s.len() ==> in_alphabet(#[trigger] s[i]),
    ensures
        canonical_only(s) == s,
    decreases s.len(),
{
    if s.len() > 0 {
        let t = s.drop_last();
        assert forall|i: int| 0 <= i < t.len() implies in_alphabet(#[trigger] t[i]) by {
            assert(t[i] == s[i]);
        }
        lemma_canonical_keeps_alphabet(t);
        let c = s.last();
        assert(in_alphabet(c));
        assert(canonical(c) == Some(c));
        assert(t.push(c) =~= s);
    }
}

/// Law: a room code in display form reads back as itself, so a code that
/// was generated or formatted can be shared and typed in again; its key is
/// made from its eight body characters.
pub proof fn displayed_code_reads_back(raw: Seq<char>)
    requires
        raw.len() == CODE_LEN,
        forall|i: int| 0 <= i < raw.len() ==> in_alphabet(#[trigger] raw[i]),
    ensures
        parsed_code(formatted_code(raw)) == Some(formatted_code(raw)),
        key_body(formatted_code(raw)) == raw,
{
    lemma_alphabet_split(raw);
    let head = seq!['S', 'N', 'R', '-'];
    let a = raw.take(4);
    let b = raw.skip(4);
    let shown = head + a + seq!['-'] + b;
    assert(formatted_code(raw) == shown);
    assert forall|i: int| 0 <= i < a.len() implies text::is_ascii_alphanumeric(#[trigger] a[i]) by {
        assert(a[i] == raw[i]);
    }
    assert forall|i: int| 0 <= i < b.len() implies text::is_ascii_alphanumeric(#[trigger] b[i]) by {
        assert(b[i] == raw[i + 4]);
    }
    lemma_alnum_keeps_all(a);
    lemma_alnum_keeps_all(b);
    lemma_alnum_concat(head + a + seq!['-'], b);
    lemma_alnum_concat(head + a, seq!['-']);
    lemma_alnum_concat(head, a);
    assert(head.drop_last() =~= seq!['S', 'N', 'R']);
    assert(seq!['S', 'N', 'R'].drop_last() =~= seq!['S', 'N']);
    assert(seq!['S', 'N'].drop_last() =~= seq!['S']);
    assert(seq!['S'].drop_last() =~= Seq::<char>::empty());
    assert(ascii_alphanumeric_only(Seq::<char>::empty()) =~= Seq::<char>::empty());
    assert(seq!['S'].last() == 'S' && seq!['S', 'N'].last() == 'N');
    assert(seq!['S', 'N', 'R'].last() == 'R' && head.last() == '-');
    assert(Seq::<char>::empty().push('S') =~= seq!['S']);
    assert(seq!['S'].push('N') =~= seq!['S', 'N']);
    assert(seq!['S', 'N'].push('R') =~= seq!['S', 'N', 'R']);
    assert(ascii_alphanumeric_only(seq!['S']) =~= seq!['S']);
    assert(ascii_alphanumeric_only(seq!['S', 'N']) =~= seq!['S', 'N']);
    assert(ascii_alphanumeric_only(seq!['S', 'N', 'R']) =~= seq!['S', 'N', 'R']);
    assert(ascii_alphanumeric_only(head) =~= seq!['S', 'N', 'R']);
    assert(seq!['-'].drop_last() =~= Seq::<char>::empty());
    assert(seq!['-'].last() == '-');
    assert(ascii_alphanumeric_only(seq!['-']) =~= Seq::<char>::empty());
    let alnum = seq!['S', 'N', 'R'] + raw;
    assert(a + b =~= raw);
    assert(ascii_alphanumeric_only(shown) =~= alnum);
    assert(text::ascii_upper_all(alnum) =~= alnum);
    assert(alnum.subrange(0, 3) =~= seq!['S', 'N', 'R']);
    assert(without_snr(alnum) =~= raw);
    lemma_canonical_keeps_alphabet(raw);
}

proof fn lemma_alnum_lower(s: Seq<char>)
    ensures
        ascii_alphanumeric_only(text::ascii_lower_all(s)) == text::ascii_lower_all(
            ascii_alphanumeric_only(s),
        ),
    decreases s.len(),
{
    if s.len() > 0 {
        let t = s.drop_last();
        lemma_alnum_lower(t);
        assert(text::ascii_lower_all(s).drop_last() =~= text::ascii_lower_all(t));
        assert(text::ascii_lower_all(s).last() == text::ascii_lower(s.last()));
        let c = s.last();
        let r = ascii_alphanumeric_only(t);
        if text::is_ascii_alphanumeric(c) {
            assert(text::ascii_lower_all(r.push(c)) =~= text::ascii_lower_all(r).push(
                text::ascii_lower(c),
            ));
        }
    }
}

proof fn lemma_upper_of_lower(s: Seq<char>)
    ensures
        text::ascii_upper_all(text::ascii_lower_all(s)) == text::ascii_upper_all(s),
{
    assert forall|i: int| 0 <= i < s.len() implies text::ascii_upper(
        text::ascii_lower(s[i]),
    ) == text::ascii_upper(s[i]) by {
        let c = s[i];
        if text::is_ascii_upper(c) {
            let l = ((c as u32) + 32) as char;
            assert((l as u32) == (c as u32) + 32);
            assert(((l as u32) - 32) as char == c) by {
                vstd::utf8::char_u32_cast(c, c as u32);
            }
        }
    }
    assert(text::ascii_upper_all(text::ascii_lower_all(s)) =~= text::ascii_upper_all(s));
}

/// Law: a room code is read the same in lower case as in any other case,
/// so it leads to the same room key.
pub proof fn room_codes_ignore_case(input: Seq<char>)
    ensures
        parsed_code(text::ascii_lower_all(input)) == parsed_code(input),
        room_seed(text::ascii_lower_all(input)) == room_seed(input),
{
    lemma_alnum_lower(input);
    lemma_upper_of_lower(ascii_alphanumeric_only(input));
    assert(code_body(text::ascii_lower_all(input)) == code_body(input));
}

/// Law: the room code a text stands for reads back as itself, so reading
/// a code twice changes nothing.
pub proof fn parsed_codes_read_back(input: Seq<char>)
    ensures
        parsed_code(input) matches Some(code) ==> parsed_code(code) == Some(code),
{
    let n = code_body(input);
    if n.len() == CODE_LEN {
        lemma_code_body_in_alphabet(input);
        displayed_code_reads_back(n);
    }
}

/// Law: a typed code that reads as a room code gives the key hashed from
/// `sonora-room-v1:` and the code's eight body characters, those after
/// `SNR`; text that is no room code gives no key.
pub proof fn room_key_is_hash_of_body(input: Seq<char>)
    ensures
        parsed_code(input) matches Some(code) ==> code == formatted_code(code_body(input))
            && code.subrange(0, 4) == seq!['S', 'N', 'R', '-'] && key_body(code) == code_body(input)
            && room_seed(input) == Some(
            blake3_digest(encode_utf8("sonora-room-v1:"@ + code_body(input))),
        ),
        parsed_code(input) is None ==> room_seed(input) is None,
{
    let n = code_body(input);
    if n.len() == CODE_LEN {
        lemma_code_body_in_alphabet(input);
        displayed_code_reads_back(n);
        lemma_alphabet_split(n);
        let code = formatted_code(n);
        assert(code.subrange(0, 4) =~= seq!['S', 'N', 'R', '-']);
    }
}

} // verus!
