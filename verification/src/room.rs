//! What a room looks like to its user, and how it changes: the state
//! shown while idle, hosting or listening, and the list of listeners a host
//! keeps as they join and leave.  The level meter is measured elsewhere and
//! shown beside this state.

use vstd::prelude::*;
use vstd::string::*;
use crate::protocol::{Ctrl, CHANNELS, SAMPLE_RATE};
use crate::text::{chars_of, same_chars};

verus! {

/// The stream format every room uses.
pub open spec fn lossless_label() -> Seq<char> {
    "16-bit \u{b7} 48 kHz stereo PCM"@
}

/// The state of the room shown to the user.
#[derive(Debug, Clone)]
pub struct RoomState {
    pub mode: String,
    pub room_code: Option<String>,
    pub source_label: Option<String>,
    pub listeners: Vec<String>,
    pub path: String,
    pub status: String,
    pub error: Option<String>,
    pub host_name: Option<String>,
    pub lossless: String,
}

impl RoomState {
    /// No room: mode, path and status all `idle`.
    pub fn idle() -> (r: Self)
        ensures
            r.mode@ == "idle"@,
            r.path@ == "idle"@,
            r.status@ == "idle"@,
            r.room_code is None,
            r.source_label is None,
            r.listeners@.len() == 0,
            r.error is None,
            r.host_name is None,
            r.lossless@ == lossless_label(),
    {
        RoomState {
            mode: String::from_str("idle"),
            room_code: None,
            source_label: None,
            listeners: Vec::new(),
            path: String::from_str("idle"),
            status: String::from_str("idle"),
            error: None,
            host_name: None,
            lossless: String::from_str("16-bit \u{b7} 48 kHz stereo PCM"),
        }
    }

    /// A room just opened by this user as host: live and publishing, with
    /// no listener yet.
    pub fn hosting(code: String, source_label: String, host_name: String) -> (r: Self)
        ensures
            r.mode@ == "hosting"@,
            r.room_code == Some(code),
            r.source_label == Some(source_label),
            r.listeners@.len() == 0,
            r.path@ == "publishing"@,
            r.status@ == "live"@,
            r.error is None,
            r.host_name == Some(host_name),
            r.lossless@ == lossless_label(),
    {
        RoomState {
            mode: String::from_str("hosting"),
            room_code: Some(code),
            source_label: Some(source_label),
            listeners: Vec::new(),
            path: String::from_str("publishing"),
            status: String::from_str("live"),
            error: None,
            host_name: Some(host_name),
            lossless: String::from_str("16-bit \u{b7} 48 kHz stereo PCM"),
        }
    }

    /// A room this user is joining as a listener, still connecting.
    pub fn listening(code: String) -> (r: Self)
        ensures
            r.mode@ == "listening"@,
            r.room_code == Some(code),
            r.source_label is None,
            r.listeners@.len() == 0,
            r.path@ == "connecting"@,
            r.status@ == "connecting"@,
            r.error is None,
            r.host_name is None,
            r.lossless@ == lossless_label(),
    {
        RoomState {
            mode: String::from_str("listening"),
            room_code: Some(code),
            source_label: None,
            listeners: Vec::new(),
            path: String::from_str("connecting"),
            status: String::from_str("connecting"),
            error: None,
            host_name: None,
            lossless: String::from_str("16-bit \u{b7} 48 kHz stereo PCM"),
        }
    }

    /// The host described its room: its name and source are shown and the
    /// room is live over `path`.
    pub fn on_room_info(&mut self, host: String, source: String, path: String)
        ensures
            final(self).host_name == Some(host),
            final(self).source_label == Some(source),
            final(self).status@ == "live"@,
            final(self).path == path,
            final(self).mode == old(self).mode,
            final(self).room_code == old(self).room_code,
            final(self).listeners == old(self).listeners,
            final(self).error == old(self).error,
            final(self).lossless == old(self).lossless,
    {
        self.host_name = Some(host);
        self.source_label = Some(source);
        self.status = String::from_str("live");
        self.path = path;
    }

    /// The first message a listener reads from the host: a description of
    /// the room is shown as `on_room_info` shows it, reached over `path`;
    /// any other first message changes nothing.
    pub fn on_first_message(&mut self, msg: Ctrl, path: String)
        ensures
            match msg {
                Ctrl::Room { host, source, .. } => {
                    &&& final(self).host_name == Some(host)
                    &&& final(self).source_label == Some(source)
                    &&& final(self).status@ == "live"@
                    &&& final(self).path == path
                    &&& final(self).mode == old(self).mode
                    &&& final(self).room_code == old(self).room_code
                    &&& final(self).listeners == old(self).listeners
                    &&& final(self).error == old(self).error
                    &&& final(self).lossless == old(self).lossless
                },
                _ => *final(self) == *old(self),
            },
    {
        match msg {
            Ctrl::Room { host, source, .. } => self.on_room_info(host, source, path),
            _ => {},
        }
    }

    /// A later message from the host: a list of peers becomes the list of
    /// listeners; any other message changes nothing.
    pub fn on_message(&mut self, msg: Ctrl)
        ensures
            match msg {
                Ctrl::Peers { names } => {
                    &&& final(self).listeners == names
                    &&& final(self).mode == old(self).mode
                    &&& final(self).room_code == old(self).room_code
                    &&& final(self).source_label == old(self).source_label
                    &&& final(self).path == old(self).path
                    &&& final(self).status == old(self).status
                    &&& final(self).error == old(self).error
                    &&& final(self).host_name == old(self).host_name
                    &&& final(self).lossless == old(self).lossless
                },
                _ => *final(self) == *old(self),
            },
    {
        match msg {
            Ctrl::Peers { names } => self.on_peers(names),
            _ => {},
        }
    }

    /// The list of listeners changed.
    pub fn on_peers(&mut self, names: Vec<String>)
        ensures
            final(self).listeners == names,
            final(self).mode == old(self).mode,
            final(self).room_code == old(self).room_code,
            final(self).source_label == old(self).source_label,
            final(self).path == old(self).path,
            final(self).status == old(self).status,
            final(self).error == old(self).error,
            final(self).host_name == old(self).host_name,
            final(self).lossless == old(self).lossless,
    {
        self.listeners = names;
    }

    /// Audio reached a listener: the room is live.
    pub fn on_audio_received(&mut self)
        ensures
            final(self).status@ == "live"@,
            final(self).mode == old(self).mode,
            final(self).room_code == old(self).room_code,
            final(self).source_label == old(self).source_label,
            final(self).listeners == old(self).listeners,
            final(self).path == old(self).path,
            final(self).error == old(self).error,
            final(self).host_name == old(self).host_name,
            final(self).lossless == old(self).lossless,
    {
        self.status = String::from_str("live");
    }

    /// The host captured audio: the room's path is live.
    pub fn on_audio_published(&mut self)
        ensures
            final(self).path@ == "live"@,
            final(self).mode == old(self).mode,
            final(self).room_code == old(self).room_code,
            final(self).source_label == old(self).source_label,
            final(self).listeners == old(self).listeners,
            final(self).status == old(self).status,
            final(self).error == old(self).error,
            final(self).host_name == old(self).host_name,
            final(self).lossless == old(self).lossless,
    {
        self.path = String::from_str("live");
    }

    /// The audio stream of a listener failed to open; `reason` says why.
    pub fn on_audio_failed(&mut self, reason: &str)
        ensures
            final(self).error matches Some(e) && e@ == "Audio stream failed: "@ + reason@,
            final(self).status@ == "error"@,
            final(self).mode == old(self).mode,
            final(self).room_code == old(self).room_code,
            final(self).source_label == old(self).source_label,
            final(self).listeners == old(self).listeners,
            final(self).path == old(self).path,
            final(self).host_name == old(self).host_name,
            final(self).lossless == old(self).lossless,
    {
        let mut e = String::from_str("Audio stream failed: ");
        e.append(reason);
        self.error = Some(e);
        self.status = String::from_str("error");
    }
}

// ---------------------------------------------------------------------
// Listeners of a hosted room.
// ---------------------------------------------------------------------

/// The name a listener is shown by: the one its greeting gives, or
/// `Listener` when its first message is not a greeting.
pub open spec fn greeting_name(first: Ctrl) -> Seq<char> {
    match first {
        Ctrl::Hello { name, .. } => name@,
        _ => "Listener"@,
    }
}

/// The name of a listener, from the first message it sent.
pub fn listener_name(first: Ctrl) -> (r: String)
    ensures
        r@ == greeting_name(first),
{
    match first {
        Ctrl::Hello { name, .. } => name,
        _ => String::from_str("Listener"),
    }
}

/// The first two messages a host sends a listener that joined: the
/// description of the room, then the listeners now in it.
pub fn welcome_messages(host_name: String, source_label: String, names: Vec<String>) -> (r: (
    Ctrl,
    Ctrl,
))
    ensures
        r.0 == (Ctrl::Room {
            host: host_name,
            source: source_label,
            rate: SAMPLE_RATE,
            channels: CHANNELS,
        }),
        r.1 == (Ctrl::Peers { names }),
{
    (
        Ctrl::Room { host: host_name, source: source_label, rate: SAMPLE_RATE, channels: CHANNELS },
        Ctrl::Peers { names },
    )
}

/// The names of a list of strings.
pub open spec fn names_of(list: Seq<String>) -> Seq<Seq<char>> {
    list.map_values(|s: String| s@)
}

/// The index of the last `name` in `names`.
pub open spec fn last_index_of(names: Seq<Seq<char>>, name: Seq<char>) -> Option<int> {
    if exists|i: int| 0 <= i < names.len() && names[i] == name {
        Some(
            choose|i: int|
                0 <= i < names.len() && names[i] == name && forall|j: int|
                    i < j < names.len() ==> names[j] != name,
        )
    } else {
        None
    }
}

/// `names` without the last `name`, when there is one.
pub open spec fn without_last(names: Seq<Seq<char>>, name: Seq<char>) -> Seq<Seq<char>> {
    match last_index_of(names, name) {
        Some(i) => names.remove(i),
        None => names,
    }
}

proof fn lemma_last_index(names: Seq<Seq<char>>, name: Seq<char>, i: int)
    requires
        0 <= i < names.len(),
        names[i] == name,
        forall|j: int| i < j < names.len() ==> names[j] != name,
    ensures
        last_index_of(names, name) == Some(i),
{
    let k = choose|k: int|
        0 <= k < names.len() && names[k] == name && forall|j: int|
            k < j < names.len() ==> names[j] != name;
    if k < i {
        assert(names[i] != name);
    } else if i < k {
        assert(names[k] != name);
    }
}

/// A listener joined: its name goes to the end of the list.
pub fn add_listener(listeners: &mut Vec<String>, name: String)
    ensures
        names_of(final(listeners)@) == names_of(old(listeners)@).push(name@),
{
    let ghost before = listeners@;
    listeners.push(name);
    assert(names_of(listeners@) =~= names_of(before).push(name@));
}

/// A listener left: the last entry with its name is removed, so another
/// listener of the same name stays listed.
pub fn remove_listener(listeners: &mut Vec<String>, name: &str)
    ensures
        names_of(final(listeners)@) == without_last(names_of(old(listeners)@), name@),
{
    let target = chars_of(name);
    let ghost names = names_of(listeners@);
    let mut i: usize = listeners.len();
    while i > 0
        invariant
            i <= listeners@.len(),
            names == names_of(listeners@),
            listeners@ == old(listeners)@,
            target@ == name@,
            forall|j: int| i <= j < names.len() ==> names[j] != name@,
        decreases i,
    {
        let cur = chars_of(listeners[i - 1].as_str());
        assert(names[i - 1] == listeners@[i - 1]@);
        if same_chars(&cur, &target) {
            proof {
                lemma_last_index(names, name@, i - 1);
            }
            listeners.remove(i - 1);
            assert(names_of(listeners@) =~= names.remove(i - 1));
            return;
        }
        i = i - 1;
    }
    assert(!(exists|j: int| 0 <= j < names.len() && names[j] == name@));
}

/// Law: a listener who joins and then leaves leaves the list as it was.
pub proof fn join_then_leave_restores(names: Seq<Seq<char>>, name: Seq<char>)
    ensures
        without_last(names.push(name), name) == names,
{
    let pushed = names.push(name);
    lemma_last_index(pushed, name, names.len() as int);
    assert(pushed.remove(names.len() as int) =~= names);
}

proof fn lemma_last_index_from(names: Seq<Seq<char>>, name: Seq<char>, k: int, w: int)
    requires
        0 <= w <= k < names.len(),
        names[w] == name,
        forall|j: int| k < j < names.len() ==> names[j] != name,
    ensures
        last_index_of(names, name) is Some,
        0 <= last_index_of(names, name)->0 < names.len(),
    decreases k - w,
{
    if names[k] == name {
        lemma_last_index(names, name, k);
    } else {
        lemma_last_index_from(names, name, k - 1, w);
    }
}

/// Law: a listener leaving removes exactly one entry with its name, when
/// there is one, and changes nothing otherwise.
pub proof fn leave_removes_one(names: Seq<Seq<char>>, name: Seq<char>)
    ensures
        names.contains(name) ==> without_last(names, name).len() == names.len() - 1,
        !names.contains(name) ==> without_last(names, name) == names,
{
    if names.contains(name) {
        let w = choose|w: int| 0 <= w < names.len() && names[w] == name;
        lemma_last_index_from(names, name, names.len() - 1, w);
    }
}

} // verus!
