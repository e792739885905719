//! Character-level helpers shared by the text-processing modules: Unicode
//! properties taken from the standard library, ASCII case handling,
//! searching for substrings, and trimming.

use vstd::prelude::*;

verus! {

// ---------------------------------------------------------------------
// Unicode properties, as the standard library computes them.
// ---------------------------------------------------------------------

/// The characters `char::to_lowercase` yields for `c`.
pub uninterp spec fn unicode_lowercase(c: char) -> Seq<char>;

/// Whether `char::is_alphanumeric` holds of `c`.
pub uninterp spec fn unicode_alphanumeric(c: char) -> bool;

/// Whether `char::is_whitespace` holds of `c`.
pub uninterp spec fn unicode_whitespace(c: char) -> bool;

/// The characters `str::to_lowercase` produces for a string.
pub uninterp spec fn unicode_str_lowercase(s: Seq<char>) -> Seq<char>;

/// Calls `char::to_lowercase` and collects the characters it yields.
/// Claims only that the result is the lowercase mapping of `c`, named by
/// `unicode_lowercase`; the Unicode tables are not restated.
#[verifier::external_body]
pub(crate) fn char_lowercase(c: char) -> (r: Vec<char>)
    ensures
        r@ == unicode_lowercase(c),
{
    c.to_lowercase().collect()
}

/// Calls `char::is_alphanumeric`; the result is named by
/// `unicode_alphanumeric`.
#[verifier::external_body]
pub(crate) fn char_is_alphanumeric(c: char) -> (r: bool)
    ensures
        r == unicode_alphanumeric(c),
{
    c.is_alphanumeric()
}

/// Calls `char::is_whitespace`; the result is named by
/// `unicode_whitespace`.
#[verifier::external_body]
pub(crate) fn char_is_whitespace(c: char) -> (r: bool)
    ensures
        r == unicode_whitespace(c),
{
    c.is_whitespace()
}

/// Calls `str::to_lowercase`; the result is named by
/// `unicode_str_lowercase` of the string's characters.
#[verifier::external_body]
pub(crate) fn str_lowercase(s: &str) -> (r: String)
    ensures
        r@ == unicode_str_lowercase(s@),
{
    s.to_lowercase()
}

/// Calls `String::push`, which appends `c` to the end of `s`.
#[verifier::external_body]
pub(crate) fn push_char(s: &mut String, c: char)
    ensures
        final(s)@ == old(s)@.push(c),
{
    s.push(c)
}

// ---------------------------------------------------------------------
// ASCII classes and case.
// ---------------------------------------------------------------------

pub open spec fn is_ascii_digit(c: char) -> bool {
    '0' <= c && c <= '9'
}

pub open spec fn is_ascii_upper(c: char) -> bool {
    'A' <= c && c <= 'Z'
}

pub open spec fn is_ascii_lower(c: char) -> bool {
    'a' <= c && c <= 'z'
}

pub open spec fn is_ascii_alphanumeric(c: char) -> bool {
    is_ascii_digit(c) || is_ascii_upper(c) || is_ascii_lower(c)
}

/// `char::to_ascii_uppercase`: ASCII lowercase letters map to their
/// uppercase form; every other character is unchanged.
pub open spec fn ascii_upper(c: char) -> char {
    if is_ascii_lower(c) {
        ((c as u32) - 32) as char
    } else {
        c
    }
}

/// `char::to_ascii_lowercase`.
pub open spec fn ascii_lower(c: char) -> char {
    if is_ascii_upper(c) {
        ((c as u32) + 32) as char
    } else {
        c
    }
}

pub open spec fn ascii_upper_all(s: Seq<char>) -> Seq<char> {
    s.map_values(|c: char| ascii_upper(c))
}

pub open spec fn ascii_lower_all(s: Seq<char>) -> Seq<char> {
    s.map_values(|c: char| ascii_lower(c))
}

/// `str::eq_ignore_ascii_case`.
pub open spec fn eq_ignore_ascii_case(a: Seq<char>, b: Seq<char>) -> bool {
    ascii_lower_all(a) == ascii_lower_all(b)
}

pub fn is_digit(c: char) -> (r: bool)
    ensures
        r == is_ascii_digit(c),
{
    '0' <= c && c <= '9'
}

pub fn is_alnum_ascii(c: char) -> (r: bool)
    ensures
        r == is_ascii_alphanumeric(c),
{
    ('0' <= c && c <= '9') || ('A' <= c && c <= 'Z') || ('a' <= c && c <= 'z')
}

pub fn to_upper_ascii(c: char) -> (r: char)
    ensures
        r == ascii_upper(c),
{
    if 'a' <= c && c <= 'z' {
        let code = (c as u32) - 32;
        let b = code as u8;
        b as char
    } else {
        c
    }
}

pub fn to_lower_ascii(c: char) -> (r: char)
    ensures
        r == ascii_lower(c),
{
    if 'A' <= c && c <= 'Z' {
        let code = (c as u32) + 32;
        let b = code as u8;
        b as char
    } else {
        c
    }
}

/// Whether `a` and `b` match when ASCII letters are compared without case.
pub fn eq_ascii_case_insensitive(a: &[char], b: &[char]) -> (r: bool)
    ensures
        r == eq_ignore_ascii_case(a@, b@),
{
    if a.len() != b.len() {
        proof {
            if eq_ignore_ascii_case(a@, b@) {
                assert(ascii_lower_all(a@).len() == ascii_lower_all(b@).len());
            }
        }
        return false;
    }
    let mut i: usize = 0;
    while i < a.len()
        invariant
            a@.len() == b@.len(),
            i <= a@.len(),
            forall|j: int| 0 <= j < i ==> ascii_lower(a@[j]) == ascii_lower(b@[j]),
        decreases a@.len() - i,
    {
        if to_lower_ascii(a[i]) != to_lower_ascii(b[i]) {
            proof {
                if eq_ignore_ascii_case(a@, b@) {
                    assert(ascii_lower_all(a@)[i as int] == ascii_lower_all(b@)[i as int]);
                }
            }
            return false;
        }
        i = i + 1;
    }
    assert(ascii_lower_all(a@) =~= ascii_lower_all(b@));
    true
}

// ---------------------------------------------------------------------
// Conversions between strings and character vectors.
// ---------------------------------------------------------------------

/// The characters of `s`, in order.
pub fn chars_of(s: &str) -> (v: Vec<char>)
    ensures
        v@ == s@,
{
    let mut v: Vec<char> = Vec::new();
    for c in it: s.chars()
        invariant
            it.seq() == s@,
            v@ == it.seq().take(it.index() as int),
    {
        v.push(c);
    }
    v
}

/// A string holding the characters of `v`.
pub fn string_of(v: &[char]) -> (s: String)
    ensures
        s@ == v@,
{
    let mut s = String::new();
    let mut i: usize = 0;
    while i < v.len()
        invariant
            i <= v@.len(),
            s@ == v@.take(i as int),
        decreases v@.len() - i,
    {
        push_char(&mut s, v[i]);
        assert(v@.take(i + 1) =~= v@.take(i as int).push(v@[i as int]));
        i = i + 1;
    }
    assert(v@.take(v@.len() as int) =~= v@);
    s
}

/// Whether two character sequences are equal.
pub fn same_chars(a: &[char], b: &[char]) -> (r: bool)
    ensures
        r == (a@ == b@),
{
    if a.len() != b.len() {
        return false;
    }
    let mut i: usize = 0;
    while i < a.len()
        invariant
            a@.len() == b@.len(),
            i <= a@.len(),
            forall|j: int| 0 <= j < i ==> a@[j] == b@[j],
        decreases a@.len() - i,
    {
        if a[i] != b[i] {
            return false;
        }
        i = i + 1;
    }
    assert(a@ =~= b@);
    true
}

/// The characters of `s` from `from` up to, not including, `to`.
pub fn slice_chars(s: &[char], from: usize, to: usize) -> (r: Vec<char>)
    requires
        from <= to <= s@.len(),
    ensures
        r@ == s@.subrange(from as int, to as int),
{
    let mut r: Vec<char> = Vec::new();
    let mut i: usize = from;
    while i < to
        invariant
            from <= i <= to,
            to <= s@.len(),
            r@ == s@.subrange(from as int, i as int),
        decreases to - i,
    {
        r.push(s[i]);
        assert(s@.subrange(from as int, i + 1) =~= s@.subrange(from as int, i as int).push(
            s@[i as int],
        ));
        i = i + 1;
    }
    r
}

// ---------------------------------------------------------------------
// Searching.
// ---------------------------------------------------------------------

/// `pat` occurs in `s` starting at index `i`.
pub open spec fn occurs_at(s: Seq<char>, pat: Seq<char>, i: int) -> bool {
    0 <= i && i + pat.len() <= s.len() && s.subrange(i, i + pat.len()) == pat
}

pub open spec fn occurs_in(s: Seq<char>, pat: Seq<char>) -> bool {
    exists|i: int| occurs_at(s, pat, i)
}

pub open spec fn is_first_occurrence(s: Seq<char>, pat: Seq<char>, i: int) -> bool {
    occurs_at(s, pat, i) && forall|j: int| 0 <= j < i ==> !occurs_at(s, pat, j)
}

pub open spec fn is_last_occurrence(s: Seq<char>, pat: Seq<char>, i: int) -> bool {
    occurs_at(s, pat, i) && forall|j: int| i < j <= s.len() ==> !occurs_at(s, pat, j)
}

/// The index where `pat` first occurs in `s`.
pub open spec fn first_occurrence(s: Seq<char>, pat: Seq<char>) -> Option<int> {
    if occurs_in(s, pat) {
        Some(choose|i: int| is_first_occurrence(s, pat, i))
    } else {
        None
    }
}

/// The index where the last occurrence of `pat` in `s` starts.
pub open spec fn last_occurrence(s: Seq<char>, pat: Seq<char>) -> Option<int> {
    if occurs_in(s, pat) {
        Some(choose|i: int| is_last_occurrence(s, pat, i))
    } else {
        None
    }
}

/// `str::split_once`: the text before and after the first occurrence of
/// `sep`.
pub open spec fn split_once(s: Seq<char>, sep: Seq<char>) -> Option<(Seq<char>, Seq<char>)> {
    match first_occurrence(s, sep) {
        Some(i) => Some((s.subrange(0, i), s.subrange(i + sep.len(), s.len() as int))),
        None => None,
    }
}

/// `str::rsplit_once`: the text before and after the last occurrence of
/// `sep`.
pub open spec fn rsplit_once(s: Seq<char>, sep: Seq<char>) -> Option<(Seq<char>, Seq<char>)> {
    match last_occurrence(s, sep) {
        Some(i) => Some((s.subrange(0, i), s.subrange(i + sep.len(), s.len() as int))),
        None => None,
    }
}

pub open spec fn starts_with(s: Seq<char>, pat: Seq<char>) -> bool {
    pat.len() <= s.len() && s.subrange(0, pat.len() as int) == pat
}

pub proof fn lemma_first_occurrence(s: Seq<char>, pat: Seq<char>, i: int)
    requires
        is_first_occurrence(s, pat, i),
    ensures
        first_occurrence(s, pat) == Some(i),
{
    assert(occurs_in(s, pat));
    let k = choose|k: int| is_first_occurrence(s, pat, k);
    assert(is_first_occurrence(s, pat, k));
    if k < i {
        assert(!occurs_at(s, pat, k));
    } else if i < k {
        assert(!occurs_at(s, pat, i));
    }
}

pub proof fn lemma_last_occurrence(s: Seq<char>, pat: Seq<char>, i: int)
    requires
        is_last_occurrence(s, pat, i),
    ensures
        last_occurrence(s, pat) == Some(i),
{
    assert(occurs_in(s, pat));
    let k = choose|k: int| is_last_occurrence(s, pat, k);
    assert(is_last_occurrence(s, pat, k));
    if k < i {
        assert(!occurs_at(s, pat, i));
    } else if i < k {
        assert(k <= s.len());
        assert(!occurs_at(s, pat, k));
    }
}

proof fn lemma_last_from(s: Seq<char>, pat: Seq<char>, k: int, w: int)
    requires
        occurs_at(s, pat, w),
        w <= k <= s.len(),
        forall|j: int| k < j <= s.len() ==> !occurs_at(s, pat, j),
    ensures
        exists|i: int| is_last_occurrence(s, pat, i),
    decreases k - w,
{
    if occurs_at(s, pat, k) {
        assert(is_last_occurrence(s, pat, k));
    } else {
        lemma_last_from(s, pat, k - 1, w);
    }
}

proof fn lemma_first_from(s: Seq<char>, pat: Seq<char>, k: int, w: int)
    requires
        occurs_at(s, pat, w),
        0 <= k <= w,
        forall|j: int| 0 <= j < k ==> !occurs_at(s, pat, j),
    ensures
        exists|i: int| is_first_occurrence(s, pat, i),
    decreases w - k,
{
    if occurs_at(s, pat, k) {
        assert(is_first_occurrence(s, pat, k));
    } else {
        lemma_first_from(s, pat, k + 1, w);
    }
}

/// When `pat` occurs in `s`, its first and last occurrences are where
/// `first_occurrence` and `last_occurrence` say.
pub proof fn lemma_occurrences(s: Seq<char>, pat: Seq<char>)
    requires
        occurs_in(s, pat),
    ensures
        first_occurrence(s, pat) matches Some(i) && is_first_occurrence(s, pat, i),
        last_occurrence(s, pat) matches Some(i) && is_last_occurrence(s, pat, i),
{
    let w = choose|w: int| occurs_at(s, pat, w);
    lemma_first_from(s, pat, 0, w);
    lemma_last_from(s, pat, s.len() as int, w);
}

/// Whether `pat` occurs in `s` at index `i`.
pub fn matches_at(s: &[char], pat: &[char], i: usize) -> (r: bool)
    ensures
        r == occurs_at(s@, pat@, i as int),
{
    if i > s.len() || pat.len() > s.len() - i {
        return false;
    }
    let n = s.len();
    let mut k: usize = 0;
    while k < pat.len()
        invariant
            n == s@.len(),
            i + pat@.len() <= s@.len(),
            k <= pat@.len(),
            forall|j: int| 0 <= j < k ==> s@[i + j] == pat@[j],
        decreases pat@.len() - k,
    {
        if s[i + k] != pat[k] {
            proof {
                if occurs_at(s@, pat@, i as int) {
                    assert(s@.subrange(i as int, i + pat@.len())[k as int] == s@[i + k]);
                }
            }
            return false;
        }
        k = k + 1;
    }
    assert(s@.subrange(i as int, i + pat@.len()) =~= pat@);
    true
}

/// The index where `pat` first occurs in `s`, if it does.
pub fn find_first(s: &[char], pat: &[char]) -> (r: Option<usize>)
    ensures
        r == (match first_occurrence(s@, pat@) {
            Some(i) => Some(i as usize),
            None => None::<usize>,
        }),
        r matches Some(i) ==> is_first_occurrence(s@, pat@, i as int),
{
    let mut i: usize = 0;
    while i < s.len()
        invariant
            i <= s@.len(),
            forall|j: int| 0 <= j < i ==> !occurs_at(s@, pat@, j),
        decreases s@.len() - i,
    {
        if matches_at(s, pat, i) {
            proof {
                lemma_first_occurrence(s@, pat@, i as int);
            }
            return Some(i);
        }
        i = i + 1;
    }
    if matches_at(s, pat, s.len()) {
        proof {
            lemma_first_occurrence(s@, pat@, s@.len() as int);
        }
        return Some(s.len());
    }
    proof {
        assert forall|j: int| !occurs_at(s@, pat@, j) by {
            if 0 <= j <= s@.len() {
            }
        }
    }
    None
}

/// The index where the last occurrence of `pat` in `s` starts, if any.
pub fn find_last(s: &[char], pat: &[char]) -> (r: Option<usize>)
    ensures
        r == (match last_occurrence(s@, pat@) {
            Some(i) => Some(i as usize),
            None => None::<usize>,
        }),
        r matches Some(i) ==> is_last_occurrence(s@, pat@, i as int),
{
    let mut i: usize = s.len();
    while i > 0
        invariant
            i <= s@.len(),
            forall|j: int| i < j <= s@.len() ==> !occurs_at(s@, pat@, j),
        decreases i,
    {
        if matches_at(s, pat, i) {
            proof {
                lemma_last_occurrence(s@, pat@, i as int);
            }
            return Some(i);
        }
        i = i - 1;
    }
    if matches_at(s, pat, 0) {
        proof {
            lemma_last_occurrence(s@, pat@, 0);
        }
        return Some(0);
    }
    proof {
        assert forall|j: int| !occurs_at(s@, pat@, j) by {
            if 0 <= j <= s@.len() {
            }
        }
    }
    None
}

/// Whether `pat` occurs anywhere in `s`.
pub fn contains_chars(s: &[char], pat: &[char]) -> (r: bool)
    ensures
        r == occurs_in(s@, pat@),
{
    match find_first(s, pat) {
        Some(i) => {
            assert(occurs_at(s@, pat@, i as int));
            true
        },
        None => false,
    }
}

/// Whether `s` starts with `pat`.
pub fn has_prefix(s: &[char], pat: &[char]) -> (r: bool)
    ensures
        r == starts_with(s@, pat@),
{
    let r = matches_at(s, pat, 0);
    proof {
        if starts_with(s@, pat@) {
            assert(occurs_at(s@, pat@, 0));
        }
    }
    r
}

// ---------------------------------------------------------------------
// Decimal numbers.
// ---------------------------------------------------------------------

/// The ASCII digit for a value below ten.
pub open spec fn digit_char(d: int) -> char {
    (48 + d) as char
}

/// The decimal digits of `n`, as `Display` writes them.
pub open spec fn decimal(n: nat) -> Seq<char>
    decreases n,
{
    if n < 10 {
        seq![digit_char(n as int)]
    } else {
        decimal(n / 10).push(digit_char((n % 10) as int))
    }
}

/// How `Display` writes a signed integer.
pub open spec fn signed_decimal(n: int) -> Seq<char> {
    if n < 0 {
        seq!['-'] + decimal((-n) as nat)
    } else {
        decimal(n as nat)
    }
}

/// Writes `n` in decimal.
pub fn decimal_u64(n: u64) -> (r: String)
    ensures
        r@ == decimal(n as nat),
    decreases n,
{
    let d = (n % 10) as u8;
    let c = (48u8 + d) as char;
    if n < 10 {
        let mut s = String::new();
        push_char(&mut s, c);
        assert(s@ =~= seq![digit_char(n as int)]);
        s
    } else {
        let mut s = decimal_u64(n / 10);
        push_char(&mut s, c);
        s
    }
}

/// Writes `n` in decimal, with a leading `-` when it is negative.
pub fn decimal_i64(n: i64) -> (r: String)
    ensures
        r@ == signed_decimal(n as int),
{
    if n < 0 {
        let magnitude: u64 = if n == i64::MIN {
            9_223_372_036_854_775_808u64
        } else {
            (-n) as u64
        };
        let digits = decimal_u64(magnitude);
        let mut s = String::new();
        push_char(&mut s, '-');
        s.append(digits.as_str());
        s
    } else {
        decimal_u64(n as u64)
    }
}

/// The value of a run of ASCII digits.
pub open spec fn digits_value(s: Seq<char>) -> int
    decreases s.len(),
{
    if s.len() == 0 {
        0
    } else {
        digits_value(s.drop_last()) * 10 + (s.last() as int - 48)
    }
}

pub open spec fn all_digits(s: Seq<char>) -> bool {
    forall|i: int| 0 <= i < s.len() ==> is_ascii_digit(#[trigger] s[i])
}

/// The value of a run of one or more ASCII digits.
pub open spec fn digits_of(s: Seq<char>) -> Option<int> {
    if s.len() > 0 && all_digits(s) {
        Some(digits_value(s))
    } else {
        None
    }
}

/// `u32::from_str`: an optional `+`, then decimal digits, within range.
pub open spec fn parsed_u32(s: Seq<char>) -> Option<u32> {
    let d = if s.len() > 0 && s[0] == '+' {
        s.drop_first()
    } else {
        s
    };
    match digits_of(d) {
        Some(v) => if v <= u32::MAX {
            Some(v as u32)
        } else {
            None
        },
        None => None,
    }
}

/// `i32::from_str`: an optional `+` or `-`, then decimal digits, within
/// range.
pub open spec fn parsed_i32(s: Seq<char>) -> Option<i32> {
    if s.len() > 0 && s[0] == '-' {
        match digits_of(s.drop_first()) {
            Some(v) => if v <= 0x8000_0000 {
                Some((-v) as i32)
            } else {
                None
            },
            None => None,
        }
    } else {
        let d = if s.len() > 0 && s[0] == '+' {
            s.drop_first()
        } else {
            s
        };
        match digits_of(d) {
            Some(v) => if v <= i32::MAX {
                Some(v as i32)
            } else {
                None
            },
            None => None,
        }
    }
}

proof fn lemma_digits_value_grows(s: Seq<char>, k: int)
    requires
        all_digits(s),
        0 <= k <= s.len(),
    ensures
        digits_value(s.take(k)) <= digits_value(s),
        digits_value(s.take(k)) >= 0,
    decreases s.len() - k,
{
    if k < s.len() {
        lemma_digits_value_grows(s, k + 1);
        assert(s.take(k + 1).drop_last() =~= s.take(k));
        assert(is_ascii_digit(s[k]));
    } else {
        assert(s.take(k) =~= s);
        lemma_digits_value_nonneg(s);
    }
}

proof fn lemma_digits_value_nonneg(s: Seq<char>)
    requires
        all_digits(s),
    ensures
        digits_value(s) >= 0,
    decreases s.len(),
{
    if s.len() > 0 {
        assert(is_ascii_digit(s[s.len() - 1]));
        lemma_digits_value_nonneg(s.drop_last());
    }
}

/// The decimal digits of a number read back as that number.
pub proof fn lemma_decimal_digits(n: nat)
    ensures
        decimal(n).len() > 0,
        all_digits(decimal(n)),
        digits_value(decimal(n)) == n,
        digits_of(decimal(n)) == Some(n as int),
    decreases n,
{
    assert(digit_char((n % 10) as int) as int == 48 + n % 10);
    if n < 10 {
        assert(decimal(n).drop_last() =~= Seq::<char>::empty());
        assert(digits_value(Seq::<char>::empty()) == 0);
    }
    if n >= 10 {
        lemma_decimal_digits(n / 10);
        let d = decimal(n / 10);
        let c = digit_char((n % 10) as int);
        assert(decimal(n) == d.push(c));
        assert(d.push(c).drop_last() =~= d);
        assert(n == (n / 10) * 10 + n % 10) by (nonlinear_arith);
        assert(digits_value(d.push(c)) == digits_value(d) * 10 + (c as int - 48));
        assert forall|i: int| 0 <= i < d.push(c).len() implies is_ascii_digit(
            #[trigger] d.push(c)[i],
        ) by {
            if i < d.len() {
                assert(d.push(c)[i] == d[i]);
            }
        }
    }
}

/// `u32::from_str` reads back what `Display` writes.
pub proof fn lemma_u32_reads_back(n: u32)
    ensures
        parsed_u32(decimal(n as nat)) == Some(n),
{
    lemma_decimal_digits(n as nat);
    assert(is_ascii_digit(decimal(n as nat)[0]));
}

/// `i32::from_str` reads back what `Display` writes.
pub proof fn lemma_i32_reads_back(n: i32)
    ensures
        parsed_i32(signed_decimal(n as int)) == Some(n),
{
    if n < 0 {
        let m = (-n) as nat;
        lemma_decimal_digits(m);
        let s = seq!['-'] + decimal(m);
        assert(s.drop_first() =~= decimal(m));
        assert(s[0] == '-');
    } else {
        lemma_decimal_digits(n as nat);
        assert(is_ascii_digit(decimal(n as nat)[0]));
    }
}

/// The value of the digits `s[from..]` when it is at most `limit`, or
/// `None` when they are not all digits, there are none, or their value
/// exceeds `limit`.
fn digits_up_to(s: &[char], from: usize, limit: u64) -> (r: Option<u64>)
    requires
        from <= s@.len(),
        limit <= u32::MAX + 1,
    ensures
        match r {
            Some(x) => digits_of(s@.skip(from as int)) == Some(x as int) && x <= limit,
            None => match digits_of(s@.skip(from as int)) {
                Some(v) => v > limit,
                None => true,
            },
        },
{
    let ghost d = s@.skip(from as int);
    let n = s.len();
    if from == n {
        return None;
    }
    let mut i: usize = from;
    while i < n
        invariant
            from <= i <= n,
            n == s@.len(),
            d == s@.skip(from as int),
            all_digits(d.take(i - from)),
        decreases n - i,
    {
        if !is_digit(s[i]) {
            assert(!all_digits(d)) by {
                assert(d[i - from] == s@[i as int]);
            }
            return None;
        }
        assert(d.take(i + 1 - from) =~= d.take(i - from).push(s@[i as int]));
        i = i + 1;
    }
    assert(d.take(n - from) =~= d);
    let mut acc: u64 = 0;
    let mut j: usize = from;
    assert(d.take(0) =~= Seq::<char>::empty());
    while j < n
        invariant
            from <= j <= n,
            n == s@.len(),
            d == s@.skip(from as int),
            d.len() == n - from,
            all_digits(d),
            acc == digits_value(d.take(j - from)),
            acc <= limit,
            limit <= u32::MAX + 1,
        decreases n - j,
    {
        assert(d[j - from] == s@[j as int]);
        assert(is_ascii_digit(d[j - from]));
        let digit = (s[j] as u32 - 48) as u64;
        assert(d.take(j + 1 - from).drop_last() =~= d.take(j - from));
        let next = acc * 10 + digit;
        proof {
            lemma_digits_value_grows(d, j + 1 - from);
        }
        if next > limit {
            return None;
        }
        acc = next;
        j = j + 1;
    }
    assert(d.take(n - from) =~= d);
    Some(acc)
}

/// Reads a `u32` as `u32::from_str` does.
pub fn parse_u32(s: &[char]) -> (r: Option<u32>)
    ensures
        r == parsed_u32(s@),
{
    let from: usize = if s.len() > 0 && s[0] == '+' {
        1
    } else {
        0
    };
    assert(s@.skip(from as int) =~= if s@.len() > 0 && s@[0] == '+' {
        s@.drop_first()
    } else {
        s@
    });
    match digits_up_to(s, from, 0xffff_ffff) {
        Some(v) => Some(v as u32),
        None => None,
    }
}

/// Reads an `i32` as `i32::from_str` does.
pub fn parse_i32(s: &[char]) -> (r: Option<i32>)
    ensures
        r == parsed_i32(s@),
{
    if s.len() > 0 && s[0] == '-' {
        assert(s@.skip(1) =~= s@.drop_first());
        match digits_up_to(s, 1, 0x8000_0000) {
            Some(v) => {
                let value: i64 = -(v as i64);
                Some(value as i32)
            },
            None => None,
        }
    } else {
        let from: usize = if s.len() > 0 && s[0] == '+' {
            1
        } else {
            0
        };
        assert(s@.skip(from as int) =~= if s@.len() > 0 && s@[0] == '+' {
            s@.drop_first()
        } else {
            s@
        });
        match digits_up_to(s, from, 0x7fff_ffff) {
            Some(v) => Some(v as i32),
            None => None,
        }
    }
}

// ---------------------------------------------------------------------
// Trimming.
// ---------------------------------------------------------------------

/// `str::trim_start`: drops leading whitespace.
pub open spec fn trim_start(s: Seq<char>) -> Seq<char>
    decreases s.len(),
{
    if s.len() > 0 && unicode_whitespace(s[0]) {
        trim_start(s.drop_first())
    } else {
        s
    }
}

/// `str::trim_end`: drops trailing whitespace.
pub open spec fn trim_end(s: Seq<char>) -> Seq<char>
    decreases s.len(),
{
    if s.len() > 0 && unicode_whitespace(s.last()) {
        trim_end(s.drop_last())
    } else {
        s
    }
}

/// `str::trim`: drops leading and trailing whitespace.
pub open spec fn trim(s: Seq<char>) -> Seq<char> {
    trim_end(trim_start(s))
}

pub proof fn lemma_trim_start_len(s: Seq<char>)
    ensures
        trim_start(s).len() <= s.len(),
    decreases s.len(),
{
    if s.len() > 0 && unicode_whitespace(s[0]) {
        lemma_trim_start_len(s.drop_first());
    }
}

pub proof fn lemma_trim_end_len(s: Seq<char>)
    ensures
        trim_end(s).len() <= s.len(),
    decreases s.len(),
{
    if s.len() > 0 && unicode_whitespace(s.last()) {
        lemma_trim_end_len(s.drop_last());
    }
}

pub proof fn lemma_trim_len(s: Seq<char>)
    ensures
        trim(s).len() <= s.len(),
{
    lemma_trim_start_len(s);
    lemma_trim_end_len(trim_start(s));
}

/// Where the text of `s` without trailing whitespace ends.
pub fn trim_end_index(s: &[char], start: usize, end: usize) -> (r: usize)
    requires
        start <= end <= s@.len(),
    ensures
        start <= r <= end,
        s@.subrange(start as int, r as int) == trim_end(s@.subrange(start as int, end as int)),
{
    let mut e: usize = end;
    while e > start && char_is_whitespace(s[e - 1])
        invariant
            start <= e <= end,
            end <= s@.len(),
            trim_end(s@.subrange(start as int, e as int)) == trim_end(
                s@.subrange(start as int, end as int),
            ),
        decreases e,
    {
        assert(s@.subrange(start as int, e as int).drop_last() =~= s@.subrange(
            start as int,
            e - 1,
        ));
        e = e - 1;
    }
    e
}

/// The bounds of `s` once leading and trailing whitespace is dropped.
pub fn trim_bounds(s: &[char]) -> (r: (usize, usize))
    ensures
        r.0 <= r.1 <= s@.len(),
        s@.subrange(r.0 as int, r.1 as int) == trim(s@),
{
    let mut b: usize = 0;
    assert(s@.subrange(0, s@.len() as int) =~= s@);
    while b < s.len() && char_is_whitespace(s[b])
        invariant
            b <= s@.len(),
            trim_start(s@.subrange(b as int, s@.len() as int)) == trim_start(s@),
        decreases s@.len() - b,
    {
        assert(s@.subrange(b as int, s@.len() as int).drop_first() =~= s@.subrange(
            b + 1,
            s@.len() as int,
        ));
        b = b + 1;
    }
    assert(s@.subrange(0, s@.len() as int) =~= s@);
    let e = trim_end_index(s, b, s.len());
    (b, e)
}

/// `s` without leading and trailing whitespace.
pub fn trimmed(s: &[char]) -> (r: Vec<char>)
    ensures
        r@ == trim(s@),
{
    let (b, e) = trim_bounds(s);
    slice_chars(s, b, e)
}

} // verus!
