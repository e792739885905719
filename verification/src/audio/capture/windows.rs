//! Sources offered where the audio engine can capture the default output
//! mix or a single process: the mix first, then one source per titled
//! window, captured through the process that owns it.

use vstd::prelude::*;
use vstd::string::*;
use crate::audio::AudioSource;
use crate::audio::capture::{source_of, sources_view};
use crate::text;
use crate::text::{chars_of, decimal_u64, has_prefix, parse_u32, same_chars};

verus! {

/// A top-level window: its title (empty when it has none), the process
/// that owns it, and that application's name (empty when unknown).
pub struct WindowInfo {
    pub title: String,
    pub pid: u32,
    pub app_name: String,
}

impl View for WindowInfo {
    type V = (Seq<char>, u32, Seq<char>);

    open spec fn view(&self) -> Self::V {
        (self.title@, self.pid, self.app_name@)
    }
}

/// The source for the default output mix.
pub open spec fn system_entry() -> (Seq<char>, Seq<char>, Seq<char>, Seq<char>) {
    ("system:default"@, "system"@, "This PC"@, "Default output mix"@)
}

/// The source for the process that owns a window.
pub open spec fn window_entry(w: (Seq<char>, u32, Seq<char>)) -> (
    Seq<char>,
    Seq<char>,
    Seq<char>,
    Seq<char>,
) {
    ("app:"@ + text::decimal(w.1 as nat), "app"@, w.0, w.2)
}

/// The sources for the windows that have a title, in order.
pub open spec fn window_entries(windows: Seq<(Seq<char>, u32, Seq<char>)>) -> Seq<
    (Seq<char>, Seq<char>, Seq<char>, Seq<char>),
>
    decreases windows.len(),
{
    if windows.len() == 0 {
        seq![]
    } else if windows.last().0.len() > 0 {
        window_entries(windows.drop_last()).push(window_entry(windows.last()))
    } else {
        window_entries(windows.drop_last())
    }
}

pub open spec fn windows_view(windows: Seq<WindowInfo>) -> Seq<(Seq<char>, u32, Seq<char>)> {
    windows.map_values(|w: WindowInfo| w@)
}

fn window_source(w: &WindowInfo) -> (r: AudioSource)
    ensures
        r@ == window_entry(w@),
{
    let digits = decimal_u64(w.pid as u64);
    let id = String::from_str("app:").concat(digits.as_str());
    source_of(id, "app", w.title.clone(), w.app_name.clone())
}

/// The sources to offer: the output mix, then the windows in the order
/// listed (none when they could not be listed).
pub fn list_sources(windows: &[WindowInfo]) -> (r: Vec<AudioSource>)
    ensures
        sources_view(r@) == seq![system_entry()] + window_entries(windows_view(windows@)),
{
    let mut out: Vec<AudioSource> = Vec::new();
    let s = source_of(
        String::from_str("system:default"),
        "system",
        String::from_str("This PC"),
        String::from_str("Default output mix"),
    );
    out.push(s);
    let ghost first = sources_view(out@);
    assert(first =~= seq![system_entry()]);
    let mut j: usize = 0;
    assert(windows_view(windows@).take(0) =~= Seq::<(Seq<char>, u32, Seq<char>)>::empty());
    assert(first + window_entries(windows_view(windows@).take(0)) =~= first);
    while j < windows.len()
        invariant
            j <= windows@.len(),
            first == seq![system_entry()],
            sources_view(out@) == first + window_entries(windows_view(windows@).take(j as int)),
        decreases windows@.len() - j,
    {
        let w = &windows[j];
        let ghost before = out@;
        assert(windows_view(windows@).take(j + 1).drop_last() =~= windows_view(windows@).take(
            j as int,
        ));
        assert(windows_view(windows@).take(j + 1).last() == w@);
        if w.title.as_str().unicode_len() > 0 {
            let s = window_source(w);
            out.push(s);
            assert(sources_view(out@) =~= sources_view(before).push(s@));
        } else {
            assert(sources_view(out@) =~= sources_view(before));
        }
        j = j + 1;
    }
    assert(windows_view(windows@).take(windows@.len() as int) =~= windows_view(windows@));
    out
}

/// What to capture: the default output mix, or the audio of one process.
#[derive(Debug, PartialEq, Eq)]
pub enum CaptureTarget {
    SystemMix,
    Process(u32),
}

/// Why a source id cannot be captured: an `app:` id whose process id does
/// not read as a `u32` (with the message `u32::from_str` gives), or an id
/// of no known form.
#[derive(Debug, PartialEq, Eq)]
pub enum TargetError {
    BadProcessId(String),
    UnknownSource,
}

impl TargetError {
    pub open spec fn text(&self) -> Seq<char> {
        match self {
            TargetError::BadProcessId(m) => m@,
            TargetError::UnknownSource => "Unknown source"@,
        }
    }

    /// The message logged for this error.
    pub fn message(&self) -> (r: String)
        ensures
            r@ == self.text(),
    {
        match self {
            TargetError::BadProcessId(m) => m.clone(),
            TargetError::UnknownSource => String::from_str("Unknown source"),
        }
    }
}

/// The message `u32::from_str` gives for a text (empty where the text reads
/// as a `u32`).
pub uninterp spec fn u32_parse_error(s: Seq<char>) -> Seq<char>;

/// Calls `str::parse::<u32>` and returns the `Display` text of its error,
/// or an empty string when it parses; the text is named by
/// `u32_parse_error`, and nothing more is claimed of it.
#[verifier::external_body]
fn u32_parse_error_text(s: &str) -> (r: String)
    ensures
        r@ == u32_parse_error(s@),
{
    match s.parse::<u32>() {
        Ok(_) => String::new(),
        Err(e) => e.to_string(),
    }
}

/// The target a source id names: `system:default` is the output mix, and
/// `app:` followed by a process id is that process; `None` for any other
/// id.
pub open spec fn chosen_target(source_id: Seq<char>) -> Option<CaptureTarget> {
    if source_id == "system:default"@ {
        Some(CaptureTarget::SystemMix)
    } else if text::starts_with(source_id, "app:"@) {
        match text::parsed_u32(source_id.skip(4)) {
            Some(pid) => Some(CaptureTarget::Process(pid)),
            None => None,
        }
    } else {
        None
    }
}

/// Reads a source id back into what to capture.
pub fn capture_target(source_id: &str) -> (r: Result<CaptureTarget, TargetError>)
    ensures
        match r {
            Ok(t) => chosen_target(source_id@) == Some(t),
            Err(TargetError::BadProcessId(m)) => {
                &&& chosen_target(source_id@) is None
                &&& text::starts_with(source_id@, "app:"@)
                &&& m@ == u32_parse_error(source_id@.skip(4))
            },
            Err(TargetError::UnknownSource) => {
                &&& chosen_target(source_id@) is None
                &&& !text::starts_with(source_id@, "app:"@)
            },
        },
{
    proof {
        reveal_strlit("app:");
        reveal_strlit("system:default");
    }
    let id = chars_of(source_id);
    if same_chars(&id, &chars_of("system:default")) {
        Ok(CaptureTarget::SystemMix)
    } else if has_prefix(&id, &chars_of("app:")) {
        let rest = text::slice_chars(&id, 4, id.len());
        assert(rest@ =~= source_id@.skip(4));
        match parse_u32(&rest) {
            Some(pid) => Ok(CaptureTarget::Process(pid)),
            None => {
                let digits = source_id.substring_char(4, source_id.unicode_len());
                assert(digits@ =~= source_id@.skip(4));
                Err(TargetError::BadProcessId(u32_parse_error_text(digits)))
            },
        }
    } else {
        Err(TargetError::UnknownSource)
    }
}

/// Law: the id of every source offered reads back to what it offers: the
/// output mix's id to the output mix, and a window's id to the process
/// that owns the window.
pub proof fn offered_ids_read_back(w: (Seq<char>, u32, Seq<char>))
    ensures
        chosen_target(system_entry().0) == Some(CaptureTarget::SystemMix),
        chosen_target(window_entry(w).0) == Some(CaptureTarget::Process(w.1)),
{
    reveal_strlit("app:");
    reveal_strlit("system:default");
    let id = window_entry(w).0;
    let digits = text::decimal(w.1 as nat);
    assert(id[0] == 'a');
    assert(id != "system:default"@);
    assert(id.subrange(0, 4) =~= "app:"@);
    assert(id.skip(4) =~= digits);
    text::lemma_u32_reads_back(w.1);
}

} // verus!
