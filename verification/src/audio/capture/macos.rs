//! Sources offered where the screen-capture service lists displays,
//! applications and windows: the first display as the whole system's
//! audio, every other application, and every titled window. A source id is
//! read back into the display, application or window to capture.

use vstd::prelude::*;
use vstd::string::*;
use crate::audio::AudioSource;
use crate::audio::capture::{
    first_index, is_first, lemma_first_index, lemma_first_index_at_most, source_of, sources_view,
};
use crate::text;
use crate::text::{chars_of, decimal_i64, decimal_u64, has_prefix, parse_i32, parse_u32, same_chars};

verus! {

/// An application that can be captured, as the service reports it.
pub struct ShareableApp {
    pub name: String,
    pub process_id: i32,
    pub bundle_identifier: String,
}

impl View for ShareableApp {
    type V = (Seq<char>, i32, Seq<char>);

    open spec fn view(&self) -> Self::V {
        (self.name@, self.process_id, self.bundle_identifier@)
    }
}

/// A window that can be captured: its title (empty when it has none), its
/// id, and the name of the application that owns it (empty when unknown).
pub struct ShareableWindow {
    pub title: String,
    pub window_id: u32,
    pub app_name: String,
}

impl View for ShareableWindow {
    type V = (Seq<char>, u32, Seq<char>);

    open spec fn view(&self) -> Self::V {
        (self.title@, self.window_id, self.app_name@)
    }
}

/// The source for the whole system's audio, through the display `id`.
pub open spec fn display_entry(id: u32) -> (Seq<char>, Seq<char>, Seq<char>, Seq<char>) {
    ("system:"@ + text::decimal(id as nat), "system"@, "This Mac"@, "Everything you hear"@)
}

/// Applications other than this one, and with a name, are offered.
pub open spec fn app_offered(name: Seq<char>) -> bool {
    name.len() > 0 && name != "Sonora"@
}

/// The source for an application.
pub open spec fn app_entry(app: (Seq<char>, i32, Seq<char>)) -> (
    Seq<char>,
    Seq<char>,
    Seq<char>,
    Seq<char>,
) {
    let pid = text::signed_decimal(app.1 as int);
    ("app:"@ + pid, "app"@, app.0, if app.2.len() == 0 {
        "pid "@ + pid
    } else {
        app.2
    })
}

/// The sources for the applications that are offered, in order.
pub open spec fn app_entries(apps: Seq<(Seq<char>, i32, Seq<char>)>) -> Seq<
    (Seq<char>, Seq<char>, Seq<char>, Seq<char>),
>
    decreases apps.len(),
{
    if apps.len() == 0 {
        seq![]
    } else if app_offered(apps.last().0) {
        app_entries(apps.drop_last()).push(app_entry(apps.last()))
    } else {
        app_entries(apps.drop_last())
    }
}

/// The source for a window.
pub open spec fn window_entry(w: (Seq<char>, u32, Seq<char>)) -> (
    Seq<char>,
    Seq<char>,
    Seq<char>,
    Seq<char>,
) {
    ("window:"@ + text::decimal(w.1 as nat), "window"@, w.0, w.2)
}

/// The sources for the windows that have a title, in order.
pub open spec fn window_entries(windows: Seq<(Seq<char>, u32, Seq<char>)>) -> Seq<
    (Seq<char>, Seq<char>, Seq<char>, Seq<char>),
>
    decreases windows.len(),
{
    if windows.len() == 0 {
        seq![]
    } else if windows.last().0.len() > 0 {
        window_entries(windows.drop_last()).push(window_entry(windows.last()))
    } else {
        window_entries(windows.drop_last())
    }
}

/// The sources offered: the first display, then the applications, then
/// the windows.
pub open spec fn offered_sources(
    displays: Seq<u32>,
    apps: Seq<(Seq<char>, i32, Seq<char>)>,
    windows: Seq<(Seq<char>, u32, Seq<char>)>,
) -> Seq<(Seq<char>, Seq<char>, Seq<char>, Seq<char>)> {
    let first = if displays.len() > 0 {
        seq![display_entry(displays[0])]
    } else {
        seq![]
    };
    first + app_entries(apps) + window_entries(windows)
}

pub open spec fn apps_view(apps: Seq<ShareableApp>) -> Seq<(Seq<char>, i32, Seq<char>)> {
    apps.map_values(|a: ShareableApp| a@)
}

pub open spec fn windows_view(windows: Seq<ShareableWindow>) -> Seq<(Seq<char>, u32, Seq<char>)> {
    windows.map_values(|w: ShareableWindow| w@)
}

fn app_source(app: &ShareableApp) -> (r: AudioSource)
    ensures
        r@ == app_entry(app@),
{
    let pid = decimal_i64(app.process_id as i64);
    let id = String::from_str("app:").concat(pid.as_str());
    let subtitle = if app.bundle_identifier.as_str().unicode_len() == 0 {
        String::from_str("pid ").concat(pid.as_str())
    } else {
        app.bundle_identifier.clone()
    };
    source_of(id, "app", app.name.clone(), subtitle)
}

fn window_source(w: &ShareableWindow) -> (r: AudioSource)
    ensures
        r@ == window_entry(w@),
{
    let digits = decimal_u64(w.window_id as u64);
    let id = String::from_str("window:").concat(digits.as_str());
    source_of(id, "window", w.title.clone(), w.app_name.clone())
}

/// The sources to offer, given the ids of the displays, the running
/// applications and the open windows, each in the order listed.
pub fn list_sources(displays: &[u32], apps: &[ShareableApp], windows: &[ShareableWindow]) -> (r:
    Vec<AudioSource>)
    ensures
        sources_view(r@) == offered_sources(displays@, apps_view(apps@), windows_view(windows@)),
{
    let mut out: Vec<AudioSource> = Vec::new();
    if displays.len() > 0 {
        let digits = decimal_u64(displays[0] as u64);
        let id = String::from_str("system:").concat(digits.as_str());
        let s = source_of(
            id,
            "system",
            String::from_str("This Mac"),
            String::from_str("Everything you hear"),
        );
        out.push(s);
    }
    let ghost first = sources_view(out@);
    assert(first == (if displays@.len() > 0 {
        seq![display_entry(displays@[0])]
    } else {
        seq![]
    }));
    let sonora = chars_of("Sonora");
    let mut i: usize = 0;
    assert(apps_view(apps@).take(0) =~= Seq::<(Seq<char>, i32, Seq<char>)>::empty());
    assert(first + app_entries(apps_view(apps@).take(0)) =~= first);
    while i < apps.len()
        invariant
            i <= apps@.len(),
            sonora@ == "Sonora"@,
            sources_view(out@) == first + app_entries(apps_view(apps@).take(i as int)),
        decreases apps@.len() - i,
    {
        let app = &apps[i];
        let name = chars_of(app.name.as_str());
        let ghost before = out@;
        assert(apps_view(apps@).take(i + 1).drop_last() =~= apps_view(apps@).take(i as int));
        assert(apps_view(apps@).take(i + 1).last() == app@);
        if name.len() > 0 && !same_chars(&name, &sonora) {
            let s = app_source(app);
            out.push(s);
            assert(sources_view(out@) =~= sources_view(before).push(s@));
        } else {
            assert(sources_view(out@) =~= sources_view(before));
        }
        i = i + 1;
    }
    assert(apps_view(apps@).take(apps@.len() as int) =~= apps_view(apps@));
    let ghost middle = sources_view(out@);
    let mut j: usize = 0;
    assert(windows_view(windows@).take(0) =~= Seq::<(Seq<char>, u32, Seq<char>)>::empty());
    assert(middle + window_entries(windows_view(windows@).take(0)) =~= middle);
    while j < windows.len()
        invariant
            j <= windows@.len(),
            sources_view(out@) == middle + window_entries(windows_view(windows@).take(j as int)),
        decreases windows@.len() - j,
    {
        let w = &windows[j];
        let ghost before = out@;
        assert(windows_view(windows@).take(j + 1).drop_last() =~= windows_view(windows@).take(
            j as int,
        ));
        assert(windows_view(windows@).take(j + 1).last() == w@);
        if w.title.as_str().unicode_len() > 0 {
            let s = window_source(w);
            out.push(s);
            assert(sources_view(out@) =~= sources_view(before).push(s@));
        } else {
            assert(sources_view(out@) =~= sources_view(before));
        }
        j = j + 1;
    }
    assert(windows_view(windows@).take(windows@.len() as int) =~= windows_view(windows@));
    out
}

/// What a capture is filtered to: a display (for everything it plays), an
/// application shown on a display, or a single window. Each is given by
/// its position in what the service listed.
#[derive(Debug, PartialEq, Eq)]
pub enum CaptureFilter {
    Display(usize),
    Application { app: usize, display: usize },
    Window(usize),
}

/// Why a source id cannot be captured.
#[derive(Debug, PartialEq, Eq)]
pub enum FilterError {
    NoDisplayForSystem,
    BadAppId,
    AppGone,
    NoDisplay,
    BadWindowId,
    WindowGone,
    UnknownSource,
}

impl FilterError {
    pub open spec fn text(&self) -> Seq<char> {
        match self {
            FilterError::NoDisplayForSystem => "No display available for system audio."@,
            FilterError::BadAppId => "bad app id"@,
            FilterError::AppGone => "That app is no longer running."@,
            FilterError::NoDisplay => "No display available."@,
            FilterError::BadWindowId => "bad window id"@,
            FilterError::WindowGone => "That window is no longer open."@,
            FilterError::UnknownSource => "Unknown source."@,
        }
    }

    /// The message shown for this error.
    pub fn message(&self) -> (r: String)
        ensures
            r@ == self.text(),
    {
        match self {
            FilterError::NoDisplayForSystem => String::from_str(
                "No display available for system audio.",
            ),
            FilterError::BadAppId => String::from_str("bad app id"),
            FilterError::AppGone => String::from_str("That app is no longer running."),
            FilterError::NoDisplay => String::from_str("No display available."),
            FilterError::BadWindowId => String::from_str("bad window id"),
            FilterError::WindowGone => String::from_str("That window is no longer open."),
            FilterError::UnknownSource => String::from_str("Unknown source."),
        }
    }
}

/// The filter for a source id. `system:` followed by a display id picks
/// that display, or the first one when it is not listed (an id that is not
/// a number reads as 0); `app:` followed by a process id picks that
/// application, shown on the first display; `window:` followed by a window
/// id picks that window.
pub open spec fn chosen_filter(
    source_id: Seq<char>,
    displays: Seq<u32>,
    pids: Seq<i32>,
    window_ids: Seq<u32>,
) -> Result<CaptureFilter, FilterError> {
    if text::starts_with(source_id, "system:"@) {
        let want = match text::parsed_u32(source_id.skip(7)) {
            Some(v) => v,
            None => 0,
        };
        match first_index(displays, want) {
            Some(k) => Ok(CaptureFilter::Display(k as usize)),
            None => if displays.len() > 0 {
                Ok(CaptureFilter::Display(0))
            } else {
                Err(FilterError::NoDisplayForSystem)
            },
        }
    } else if text::starts_with(source_id, "app:"@) {
        match text::parsed_i32(source_id.skip(4)) {
            None => Err(FilterError::BadAppId),
            Some(pid) => match first_index(pids, pid) {
                None => Err(FilterError::AppGone),
                Some(k) => if displays.len() > 0 {
                    Ok(CaptureFilter::Application { app: k as usize, display: 0 })
                } else {
                    Err(FilterError::NoDisplay)
                },
            },
        }
    } else if text::starts_with(source_id, "window:"@) {
        match text::parsed_u32(source_id.skip(7)) {
            None => Err(FilterError::BadWindowId),
            Some(id) => match first_index(window_ids, id) {
                None => Err(FilterError::WindowGone),
                Some(k) => Ok(CaptureFilter::Window(k as usize)),
            },
        }
    } else {
        Err(FilterError::UnknownSource)
    }
}

fn find_u32(v: &[u32], x: u32) -> (r: Option<usize>)
    ensures
        match r {
            Some(k) => first_index(v@, x) == Some(k as int),
            None => first_index(v@, x) is None,
        },
{
    let mut i: usize = 0;
    while i < v.len()
        invariant
            i <= v@.len(),
            forall|j: int| 0 <= j < i ==> v@[j] != x,
        decreases v@.len() - i,
    {
        if v[i] == x {
            proof {
                lemma_first_index(v@, x, i as int);
            }
            return Some(i);
        }
        i = i + 1;
    }
    assert(!exists|k: int| is_first(v@, x, k));
    None
}

fn find_i32(v: &[i32], x: i32) -> (r: Option<usize>)
    ensures
        match r {
            Some(k) => first_index(v@, x) == Some(k as int),
            None => first_index(v@, x) is None,
        },
{
    let mut i: usize = 0;
    while i < v.len()
        invariant
            i <= v@.len(),
            forall|j: int| 0 <= j < i ==> v@[j] != x,
        decreases v@.len() - i,
    {
        if v[i] == x {
            proof {
                lemma_first_index(v@, x, i as int);
            }
            return Some(i);
        }
        i = i + 1;
    }
    assert(!exists|k: int| is_first(v@, x, k));
    None
}

/// Reads a source id back into what to capture, given the ids of the
/// displays, the process ids of the applications and the ids of the
/// windows, in the order listed.
pub fn build_filter(source_id: &str, displays: &[u32], pids: &[i32], window_ids: &[u32]) -> (r:
    Result<CaptureFilter, FilterError>)
    ensures
        r == chosen_filter(source_id@, displays@, pids@, window_ids@),
{
    proof {
        reveal_strlit("system:");
        reveal_strlit("app:");
        reveal_strlit("window:");
    }
    let id = chars_of(source_id);
    let n = id.len();
    if has_prefix(&id, &chars_of("system:")) {
        let rest = text::slice_chars(&id, 7, n);
        assert(rest@ =~= source_id@.skip(7));
        let want = match parse_u32(&rest) {
            Some(v) => v,
            None => 0,
        };
        match find_u32(displays, want) {
            Some(k) => Ok(CaptureFilter::Display(k)),
            None => if displays.len() > 0 {
                Ok(CaptureFilter::Display(0))
            } else {
                Err(FilterError::NoDisplayForSystem)
            },
        }
    } else if has_prefix(&id, &chars_of("app:")) {
        let rest = text::slice_chars(&id, 4, n);
        assert(rest@ =~= source_id@.skip(4));
        match parse_i32(&rest) {
            None => Err(FilterError::BadAppId),
            Some(pid) => match find_i32(pids, pid) {
                None => Err(FilterError::AppGone),
                Some(k) => if displays.len() > 0 {
                    Ok(CaptureFilter::Application { app: k, display: 0 })
                } else {
                    Err(FilterError::NoDisplay)
                },
            },
        }
    } else if has_prefix(&id, &chars_of("window:")) {
        let rest = text::slice_chars(&id, 7, n);
        assert(rest@ =~= source_id@.skip(7));
        match parse_u32(&rest) {
            None => Err(FilterError::BadWindowId),
            Some(wid) => match find_u32(window_ids, wid) {
                None => Err(FilterError::WindowGone),
                Some(k) => Ok(CaptureFilter::Window(k)),
            },
        }
    } else {
        Err(FilterError::UnknownSource)
    }
}

/// Two mono buffers as one stereo buffer: a frame for each pair of
/// samples, as far as the shorter buffer goes.
pub open spec fn interleaved<T>(left: Seq<T>, right: Seq<T>) -> Seq<T>
    decreases left.len(),
{
    if left.len() == 0 || right.len() == 0 {
        seq![]
    } else {
        seq![left[0], right[0]] + interleaved(left.drop_first(), right.drop_first())
    }
}

/// The channel count a buffer declares, at least one, as a `u16`.
pub open spec fn buffer_channels(declared: u32) -> u16 {
    if declared < 1 {
        1
    } else {
        declared as u16
    }
}

/// The samples and channel count gathered from the buffers of one sample
/// buffer: the first buffer with samples is taken as it is, and a further
/// mono buffer is interleaved with it while both are mono; other buffers
/// are dropped.
pub open spec fn gathered<T>(buffers: Seq<(Seq<T>, u32)>) -> (Seq<T>, u16)
    decreases buffers.len(),
{
    if buffers.len() == 0 {
        (seq![], 0)
    } else {
        let acc = gathered(buffers.drop_last());
        let data = buffers.last().0;
        let channels = buffer_channels(buffers.last().1);
        if acc.0.len() == 0 {
            (data, channels)
        } else if channels == 1 && acc.1 == 1 {
            (interleaved(acc.0, data), 2)
        } else {
            acc
        }
    }
}

/// The samples of a sample buffer with their channel count (at least one),
/// or `None` when it holds no samples.
pub open spec fn gathered_chunk<T>(buffers: Seq<(Seq<T>, u32)>) -> Option<(Seq<T>, u16)> {
    let g = gathered(buffers);
    if g.0.len() == 0 {
        None
    } else {
        Some((g.0, if g.1 < 1 {
            1
        } else {
            g.1
        }))
    }
}

pub open spec fn buffers_view<T>(buffers: Seq<(Vec<T>, u32)>) -> Seq<(Seq<T>, u32)> {
    buffers.map_values(|b: (Vec<T>, u32)| (b.0@, b.1))
}

fn copied<T: Copy>(v: &[T]) -> (r: Vec<T>)
    ensures
        r@ == v@,
{
    let mut out: Vec<T> = Vec::new();
    let mut i: usize = 0;
    while i < v.len()
        invariant
            i <= v@.len(),
            out@ == v@.take(i as int),
        decreases v@.len() - i,
    {
        out.push(v[i]);
        assert(v@.take(i + 1) =~= v@.take(i as int).push(v@[i as int]));
        i = i + 1;
    }
    assert(v@.take(v@.len() as int) =~= v@);
    out
}

fn interleave<T: Copy>(left: &Vec<T>, right: &[T]) -> (r: Vec<T>)
    ensures
        r@ == interleaved(left@, right@),
{
    let mut out: Vec<T> = Vec::new();
    let mut i: usize = 0;
    assert(left@.skip(0) =~= left@);
    assert(right@.skip(0) =~= right@);
    assert(out@ + interleaved(left@, right@) =~= interleaved(left@, right@));
    while i < left.len() && i < right.len()
        invariant
            i <= left@.len(),
            i <= right@.len(),
            interleaved(left@, right@) == out@ + interleaved(left@.skip(i as int), right@.skip(i as int)),
        decreases left@.len() - i,
    {
        assert(left@.skip(i as int).drop_first() =~= left@.skip(i + 1));
        assert(right@.skip(i as int).drop_first() =~= right@.skip(i + 1));
        let ghost before = out@;
        out.push(left[i]);
        out.push(right[i]);
        assert(before + interleaved(left@.skip(i as int), right@.skip(i as int)) =~= out@
            + interleaved(left@.skip(i + 1), right@.skip(i + 1)));
        i = i + 1;
    }
    assert(interleaved(left@.skip(i as int), right@.skip(i as int)) =~= Seq::<T>::empty());
    assert(out@ + Seq::<T>::empty() =~= out@);
    out
}

/// The interleaved samples of a sample buffer, as each of its buffers
/// gives its samples and declared channel count, with their channel count;
/// `None` when there are no samples.
pub fn interleave_buffers<T: Copy>(buffers: &[(Vec<T>, u32)]) -> (r: Option<(Vec<T>, u16)>)
    ensures
        match r {
            Some(c) => gathered_chunk(buffers_view(buffers@)) == Some((c.0@, c.1)),
            None => gathered_chunk(buffers_view(buffers@)) is None,
        },
{
    let ghost bv = buffers_view(buffers@);
    let mut samples: Vec<T> = Vec::new();
    let mut channels: u16 = 0;
    let mut i: usize = 0;
    assert(bv.take(0) =~= Seq::<(Seq<T>, u32)>::empty());
    while i < buffers.len()
        invariant
            i <= buffers@.len(),
            bv == buffers_view(buffers@),
            gathered(bv.take(i as int)) == (samples@, channels),
        decreases buffers@.len() - i,
    {
        let (data, declared) = &buffers[i];
        assert(bv.take(i + 1).drop_last() =~= bv.take(i as int));
        assert(bv.take(i + 1).last() == (data@, *declared));
        let c: u16 = if *declared < 1 {
            1
        } else {
            #[verifier::truncate]
            (*declared as u16)
        };
        if samples.len() == 0 {
            samples = copied(data.as_slice());
            channels = c;
        } else if c == 1 && channels == 1 {
            samples = interleave(&samples, data.as_slice());
            channels = 2;
        }
        i = i + 1;
    }
    assert(bv.take(buffers@.len() as int) =~= bv);
    if samples.len() == 0 {
        None
    } else {
        let ch = if channels < 1 {
            1
        } else {
            channels
        };
        Some((samples, ch))
    }
}

/// Law: the id offered for the first display reads back to that display.
pub proof fn display_id_reads_back(displays: Seq<u32>, pids: Seq<i32>, window_ids: Seq<u32>)
    requires
        displays.len() > 0,
    ensures
        chosen_filter(display_entry(displays[0]).0, displays, pids, window_ids) == Ok::<
            CaptureFilter,
            FilterError,
        >(CaptureFilter::Display(0)),
{
    reveal_strlit("system:");
    let id = display_entry(displays[0]).0;
    assert(id.subrange(0, 7) =~= "system:"@);
    assert(id.skip(7) =~= text::decimal(displays[0] as nat));
    text::lemma_u32_reads_back(displays[0]);
    lemma_first_index(displays, displays[0], 0);
}

/// Law: the id offered for an application reads back to the first listed
/// application with its process id, shown on the first display.
pub proof fn app_id_reads_back(
    displays: Seq<u32>,
    pids: Seq<i32>,
    window_ids: Seq<u32>,
    app: (Seq<char>, i32, Seq<char>),
    i: int,
)
    requires
        displays.len() > 0,
        0 <= i < pids.len() <= usize::MAX,
        pids[i] == app.1,
    ensures
        chosen_filter(app_entry(app).0, displays, pids, window_ids) matches Ok(
            CaptureFilter::Application { app: k, display: 0 },
        ) && k <= i && pids[k as int] == app.1,
{
    reveal_strlit("system:");
    reveal_strlit("app:");
    let id = app_entry(app).0;
    assert(id[0] == 'a');
    assert(!text::starts_with(id, "system:"@)) by {
        if text::starts_with(id, "system:"@) {
            assert(id.subrange(0, 7)[0] == id[0]);
        }
    }
    assert(id.subrange(0, 4) =~= "app:"@);
    assert(id.skip(4) =~= text::signed_decimal(app.1 as int));
    text::lemma_i32_reads_back(app.1);
    lemma_first_index_at_most(pids, app.1, i);
}

/// Law: the id offered for a window reads back to the first listed window
/// with its id.
pub proof fn window_id_reads_back(
    displays: Seq<u32>,
    pids: Seq<i32>,
    window_ids: Seq<u32>,
    window: (Seq<char>, u32, Seq<char>),
    j: int,
)
    requires
        0 <= j < window_ids.len() <= usize::MAX,
        window_ids[j] == window.1,
    ensures
        chosen_filter(window_entry(window).0, displays, pids, window_ids) matches Ok(
            CaptureFilter::Window(k),
        ) && k <= j && window_ids[k as int] == window.1,
{
    reveal_strlit("system:");
    reveal_strlit("app:");
    reveal_strlit("window:");
    let id = window_entry(window).0;
    assert(id[0] == 'w');
    assert(!text::starts_with(id, "system:"@)) by {
        if text::starts_with(id, "system:"@) {
            assert(id.subrange(0, 7)[0] == id[0]);
        }
    }
    assert(!text::starts_with(id, "app:"@)) by {
        if text::starts_with(id, "app:"@) {
            assert(id.subrange(0, 4)[0] == id[0]);
        }
    }
    assert(id.subrange(0, 7) =~= "window:"@);
    assert(id.skip(7) =~= text::decimal(window.1 as nat));
    text::lemma_u32_reads_back(window.1);
    lemma_first_index_at_most(window_ids, window.1, j);
}

} // verus!
