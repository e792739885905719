//! Sources where the audio server exposes input devices: every device is
//! offered, and those that mirror what the machine plays (monitors,
//! loopbacks, "stereo mix") are offered as system audio. A source id names
//! the device to open by its position and name.

use vstd::prelude::*;
use vstd::string::*;
use crate::audio::AudioSource;
use crate::audio::capture::{
    first_index, is_first, lemma_first_index, lemma_first_index_at_most, source_of, sources_view,
};
use crate::text;
use crate::text::{chars_of, contains_chars, decimal_u64, find_first, has_prefix, same_chars, str_lowercase};

verus! {

/// The names of the devices, as reported; `None` where a device has none.
pub open spec fn names_view(names: Seq<Option<String>>) -> Seq<Option<Seq<char>>> {
    names.map_values(
        |o: Option<String>|
            match o {
                Some(s) => Some(s@),
                None => None,
            },
    )
}

/// A device name that mirrors what the machine plays.
pub open spec fn monitor_name(name: Seq<char>) -> bool {
    let lower = text::unicode_str_lowercase(name);
    text::occurs_in(lower, "monitor"@) || text::occurs_in(lower, "loopback"@) || text::occurs_in(
        lower,
        "stereo mix"@,
    )
}

/// The title of the device at `index`: its name, or "Input {index}".
pub open spec fn device_title(index: nat, name: Option<Seq<char>>) -> Seq<char> {
    match name {
        Some(n) => n,
        None => "Input "@ + text::decimal(index),
    }
}

/// The source offered for the device at `index`.
pub open spec fn device_entry(index: nat, name: Option<Seq<char>>) -> (
    Seq<char>,
    Seq<char>,
    Seq<char>,
    Seq<char>,
) {
    let title = device_title(index, name);
    (
        "in:"@ + text::decimal(index) + ":"@ + title,
        if monitor_name(title) {
            "system"@
        } else {
            "app"@
        },
        title,
        if monitor_name(title) {
            "Output monitor"@
        } else {
            "Capture device"@
        },
    )
}

/// The source offered when there is no input device to list.
pub open spec fn default_entry() -> (Seq<char>, Seq<char>, Seq<char>, Seq<char>) {
    (
        "in:default"@,
        "system"@,
        "Default input"@,
        "Use a monitor / loopback device for app audio"@,
    )
}

/// The sources offered for devices with these names.
pub open spec fn offered_sources(names: Seq<Option<Seq<char>>>) -> Seq<
    (Seq<char>, Seq<char>, Seq<char>, Seq<char>),
> {
    if names.len() == 0 {
        seq![default_entry()]
    } else {
        Seq::new(names.len(), |i: int| device_entry(i as nat, names[i]))
    }
}

fn contains_literal(s: &[char], lit: &str) -> (r: bool)
    ensures
        r == text::occurs_in(s@, lit@),
{
    let p = chars_of(lit);
    contains_chars(s, &p)
}

/// Whether a device name mirrors what the machine plays.
pub fn is_monitor_name(name: &str) -> (r: bool)
    ensures
        r == monitor_name(name@),
{
    let lower = str_lowercase(name);
    let l = chars_of(lower.as_str());
    contains_literal(&l, "monitor") || contains_literal(&l, "loopback") || contains_literal(
        &l,
        "stereo mix",
    )
}

/// The source offered for the device at `index`.
pub fn device_source(index: usize, name: &Option<String>) -> (r: AudioSource)
    ensures
        r@ == device_entry(
            index as nat,
            match name {
                Some(s) => Some(s@),
                None => None,
            },
        ),
{
    let digits = decimal_u64(index as u64);
    let title = match name {
        Some(s) => s.clone(),
        None => String::from_str("Input ").concat(digits.as_str()),
    };
    let monitor = is_monitor_name(title.as_str());
    let id = String::from_str("in:").concat(digits.as_str()).concat(":").concat(title.as_str());
    let subtitle = if monitor {
        String::from_str("Output monitor")
    } else {
        String::from_str("Capture device")
    };
    let kind = if monitor {
        "system"
    } else {
        "app"
    };
    let t = title.clone();
    source_of(id, kind, t, subtitle)
}

/// The sources to offer for the input devices with these names, in order;
/// a device whose name could not be read is titled by its position. With
/// no device at all, the default input is offered.
pub fn list_sources(device_names: &Vec<Option<String>>) -> (r: Vec<AudioSource>)
    ensures
        sources_view(r@) == offered_sources(names_view(device_names@)),
{
    let mut out: Vec<AudioSource> = Vec::new();
    let n = device_names.len();
    let mut i: usize = 0;
    while i < n
        invariant
            n == device_names@.len(),
            i <= n,
            out@.len() == i,
            forall|j: int|
                0 <= j < i ==> #[trigger] out@[j]@ == device_entry(
                    j as nat,
                    names_view(device_names@)[j],
                ),
        decreases n - i,
    {
        let s = device_source(i, &device_names[i]);
        out.push(s);
        i = i + 1;
    }
    if n == 0 {
        let d = source_of(
            String::from_str("in:default"),
            "system",
            String::from_str("Default input"),
            String::from_str("Use a monitor / loopback device for app audio"),
        );
        out.push(d);
        assert(sources_view(out@) =~= offered_sources(names_view(device_names@)));
    } else {
        assert(sources_view(out@) =~= offered_sources(names_view(device_names@)));
    }
    out
}

/// The name of the device a source id asks for: after `in:`, the text
/// that follows the position and its colon (all of it when there is no
/// colon). `in:default`, and an id of another form, ask for none.
pub open spec fn wanted_device(source_id: Seq<char>) -> Option<Seq<char>> {
    if source_id == "in:default"@ {
        None
    } else if text::starts_with(source_id, "in:"@) {
        let rest = source_id.skip(3);
        match text::split_once(rest, ":"@) {
            Some((_, name)) => Some(name),
            None => Some(rest),
        }
    } else {
        None
    }
}

/// The device to open for a source id: the position of the first device
/// named as the id asks, or `None` for the default input device (also when
/// no device has that name).
pub open spec fn chosen_device(source_id: Seq<char>, names: Seq<Option<Seq<char>>>) -> Option<int> {
    match wanted_device(source_id) {
        Some(name) => first_index(names, Some(name)),
        None => None,
    }
}

fn wanted_device_name(source_id: &str) -> (r: Option<Vec<char>>)
    ensures
        match r {
            Some(v) => wanted_device(source_id@) == Some(v@),
            None => wanted_device(source_id@) is None,
        },
{
    let id = chars_of(source_id);
    let default_id = chars_of("in:default");
    if same_chars(&id, &default_id) {
        return None;
    }
    let prefix = chars_of("in:");
    if !has_prefix(&id, &prefix) {
        return None;
    }
    proof {
        reveal_strlit("in:");
        reveal_strlit(":");
    }
    let ghost rest_view = id@.skip(3);
    let mut rest: Vec<char> = Vec::new();
    let mut i: usize = 3;
    while i < id.len()
        invariant
            3 <= i <= id@.len(),
            rest@ == id@.subrange(3, i as int),
        decreases id@.len() - i,
    {
        rest.push(id[i]);
        assert(id@.subrange(3, i + 1) =~= id@.subrange(3, i as int).push(id@[i as int]));
        i = i + 1;
    }
    assert(rest@ =~= rest_view);
    let colon = chars_of(":");
    match find_first(&rest, &colon) {
        Some(k) => {
            let mut name: Vec<char> = Vec::new();
            let mut j: usize = k + 1;
            while j < rest.len()
                invariant
                    k + 1 <= j <= rest@.len(),
                    name@ == rest@.subrange(k + 1, j as int),
                decreases rest@.len() - j,
            {
                name.push(rest[j]);
                assert(rest@.subrange(k + 1, j + 1) =~= rest@.subrange(k + 1, j as int).push(
                    rest@[j as int],
                ));
                j = j + 1;
            }
            Some(name)
        },
        None => Some(rest),
    }
}

/// The device to open for `source_id` among devices with these names.
pub fn pick_device(source_id: &str, device_names: &Vec<Option<String>>) -> (r: Option<usize>)
    ensures
        match r {
            Some(k) => chosen_device(source_id@, names_view(device_names@)) == Some(k as int),
            None => chosen_device(source_id@, names_view(device_names@)) is None,
        },
{
    let wanted = match wanted_device_name(source_id) {
        Some(w) => w,
        None => return None,
    };
    let ghost names = names_view(device_names@);
    let n = device_names.len();
    let mut i: usize = 0;
    while i < n
        invariant
            n == device_names@.len(),
            names == names_view(device_names@),
            wanted_device(source_id@) == Some(wanted@),
            i <= n,
            forall|j: int| 0 <= j < i ==> names[j] != Some(wanted@),
        decreases n - i,
    {
        match &device_names[i] {
            Some(s) => {
                let c = chars_of(s.as_str());
                if same_chars(&c, &wanted) {
                    proof {
                        assert(names[i as int] == Some(wanted@));
                        lemma_first_index(names, Some(wanted@), i as int);
                    }
                    return Some(i);
                }
            },
            None => {},
        }
        i = i + 1;
    }
    assert(!exists|k: int| is_first(names, Some(wanted@), k));
    None
}

/// Law: the id offered for a named device reads back to the first device
/// with that name.
pub proof fn device_id_reads_back(names: Seq<Option<Seq<char>>>, i: int)
    requires
        0 <= i < names.len(),
        names[i] is Some,
    ensures
        chosen_device(device_entry(i as nat, names[i]).0, names) matches Some(k) && k <= i
            && names[k] == names[i],
{
    reveal_strlit("in:");
    reveal_strlit(":");
    reveal_strlit("in:default");
    let name = names[i]->0;
    let digits = text::decimal(i as nat);
    text::lemma_decimal_digits(i as nat);
    let id = device_entry(i as nat, names[i]).0;
    assert(id == "in:"@ + digits + ":"@ + name);
    assert(text::is_ascii_digit(id[3]));
    assert(id != "in:default"@) by {
        if id == "in:default"@ {
            assert(id[3] == 'd');
        }
    }
    assert(id.subrange(0, 3) =~= "in:"@);
    let rest = id.skip(3);
    assert(rest =~= digits + ":"@ + name);
    let at = digits.len() as int;
    assert(rest.subrange(at, at + 1) =~= ":"@);
    assert forall|j: int| 0 <= j < at implies !text::occurs_at(rest, ":"@, j) by {
        assert(rest[j] == digits[j]);
        assert(text::is_ascii_digit(digits[j]));
        if text::occurs_at(rest, ":"@, j) {
            assert(rest.subrange(j, j + 1)[0] == rest[j]);
        }
    }
    text::lemma_first_occurrence(rest, ":"@, at);
    assert(rest.subrange(at + 1, rest.len() as int) =~= name);
    lemma_first_index_at_most(names, Some(name), i);
}

} // verus!
