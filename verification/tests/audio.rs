use sonora::audio::capture::{linux, macos, windows};
use sonora::audio::capture::macos::{build_filter, CaptureFilter, FilterError};
use sonora::audio::capture::windows::{capture_target, CaptureTarget, TargetError};
use sonora::audio::{enqueue_samples, to_stereo, AudioSource, MAX_QUEUED_SAMPLES};
use std::collections::VecDeque;

fn fields(s: &AudioSource) -> (&str, &str, &str, &str) {
    (s.id.as_str(), s.kind.as_str(), s.title.as_str(), s.subtitle.as_str())
}

#[test]
fn mono_is_played_on_both_channels() {
    assert_eq!(to_stereo(&[100, -200], 1), vec![100, 100, -200, -200]);
    assert_eq!(to_stereo(&[7], 0), vec![7, 7]);
}

#[test]
fn stereo_is_kept() {
    assert_eq!(to_stereo(&[1, 2, 3, 4], 2), vec![1, 2, 3, 4]);
}

#[test]
fn extra_channels_are_reduced_to_the_first_two() {
    assert_eq!(to_stereo(&[1, 2, 3, 4, 5, 6], 3), vec![1, 2, 4, 5]);
    assert_eq!(to_stereo(&[1, 2, 3, 4, 5, 6, 7], 3), vec![1, 2, 4, 5, 7, 7]);
    assert_eq!(to_stereo(&[1, 2, 3, 4, 5], 4), vec![1, 2, 5, 5]);
    assert_eq!(to_stereo(&[], 6), Vec::<i16>::new());
}

#[test]
fn input_devices_are_offered_with_monitors_as_system_audio() {
    let names = vec![
        Some("Monitor of Built-in Audio".to_string()),
        Some("USB Microphone".to_string()),
        None,
        Some("Stereo Mix (Realtek)".to_string()),
    ];
    let sources = linux::list_sources(&names);
    assert_eq!(sources.len(), 4);
    assert_eq!(
        fields(&sources[0]),
        ("in:0:Monitor of Built-in Audio", "system", "Monitor of Built-in Audio", "Output monitor")
    );
    assert_eq!(fields(&sources[1]), ("in:1:USB Microphone", "app", "USB Microphone", "Capture device"));
    assert_eq!(fields(&sources[2]), ("in:2:Input 2", "app", "Input 2", "Capture device"));
    assert_eq!(fields(&sources[3]).1, "system");
    assert!(linux::is_monitor_name("alsa LOOPBACK device"));
}

#[test]
fn without_devices_the_default_input_is_offered() {
    let sources = linux::list_sources(&vec![]);
    assert_eq!(sources.len(), 1);
    assert_eq!(
        fields(&sources[0]),
        ("in:default", "system", "Default input", "Use a monitor / loopback device for app audio")
    );
}

#[test]
fn a_device_id_picks_the_device_by_name() {
    let names = vec![Some("Mic".to_string()), None, Some("Mic: Front".to_string()), Some("Mic".to_string())];
    assert_eq!(linux::pick_device("in:default", &names), None);
    assert_eq!(linux::pick_device("in:2:Mic: Front", &names), Some(2));
    assert_eq!(linux::pick_device("in:3:Mic", &names), Some(0));
    assert_eq!(linux::pick_device("in:9:Gone", &names), None);
    assert_eq!(linux::pick_device("in:Mic", &names), Some(0));
    assert_eq!(linux::pick_device("out:0:Mic", &names), None);
    let sources = linux::list_sources(&names);
    assert_eq!(linux::pick_device(&sources[2].id, &names), Some(2));
}

fn app(name: &str, pid: i32, bundle: &str) -> macos::ShareableApp {
    macos::ShareableApp { name: name.to_string(), process_id: pid, bundle_identifier: bundle.to_string() }
}

fn window(title: &str, id: u32, app: &str) -> macos::ShareableWindow {
    macos::ShareableWindow { title: title.to_string(), window_id: id, app_name: app.to_string() }
}

#[test]
fn macos_offers_the_display_apps_and_windows() {
    let apps = vec![app("Music", 42, "com.apple.Music"), app("Sonora", 7, "x"), app("", 8, ""), app("Tool", -3, "")];
    let windows = vec![window("Player", 100, "Music"), window("", 101, "Music")];
    let sources = macos::list_sources(&[69_733_248, 5], &apps, &windows);
    let got: Vec<_> = sources.iter().map(fields).collect();
    assert_eq!(
        got,
        vec![
            ("system:69733248", "system", "This Mac", "Everything you hear"),
            ("app:42", "app", "Music", "com.apple.Music"),
            ("app:-3", "app", "Tool", "pid -3"),
            ("window:100", "window", "Player", "Music"),
        ]
    );
    assert!(macos::list_sources(&[], &[], &[]).is_empty());
}

#[test]
fn macos_source_ids_read_back() {
    let displays = [5u32, 9];
    let pids = [42, -3, 42];
    let windows = [100u32, 200];
    assert_eq!(build_filter("system:9", &displays, &pids, &windows), Ok(CaptureFilter::Display(1)));
    assert_eq!(build_filter("system:77", &displays, &pids, &windows), Ok(CaptureFilter::Display(0)));
    assert_eq!(build_filter("system:x", &displays, &pids, &windows), Ok(CaptureFilter::Display(0)));
    assert_eq!(build_filter("system:1", &[], &pids, &windows), Err(FilterError::NoDisplayForSystem));
    assert_eq!(
        build_filter("app:42", &displays, &pids, &windows),
        Ok(CaptureFilter::Application { app: 0, display: 0 })
    );
    assert_eq!(
        build_filter("app:-3", &displays, &pids, &windows),
        Ok(CaptureFilter::Application { app: 1, display: 0 })
    );
    assert_eq!(build_filter("app:+42", &[], &pids, &windows), Err(FilterError::NoDisplay));
    assert_eq!(build_filter("app:4x", &displays, &pids, &windows), Err(FilterError::BadAppId));
    assert_eq!(build_filter("app:5", &displays, &pids, &windows), Err(FilterError::AppGone));
    assert_eq!(build_filter("window:200", &displays, &pids, &windows), Ok(CaptureFilter::Window(1)));
    assert_eq!(build_filter("window:", &displays, &pids, &windows), Err(FilterError::BadWindowId));
    assert_eq!(build_filter("window:300", &displays, &pids, &windows), Err(FilterError::WindowGone));
    assert_eq!(build_filter("tab:1", &displays, &pids, &windows), Err(FilterError::UnknownSource));
    assert_eq!(FilterError::AppGone.message(), "That app is no longer running.");
    assert_eq!(FilterError::UnknownSource.message(), "Unknown source.");
}

#[test]
fn macos_numbers_out_of_range_are_refused() {
    assert_eq!(build_filter("app:2147483648", &[1], &[1], &[]), Err(FilterError::BadAppId));
    assert!(build_filter("app:-2147483648", &[1], &[i32::MIN], &[]).is_ok());
    assert_eq!(build_filter("window:4294967296", &[1], &[], &[1]), Err(FilterError::BadWindowId));
    assert!(build_filter("window:4294967295", &[1], &[], &[u32::MAX]).is_ok());
}

#[test]
fn macos_buffers_are_interleaved() {
    let mono = vec![(vec![1, 2, 3], 1u32), (vec![10, 20], 1u32)];
    assert_eq!(macos::interleave_buffers(&mono), Some((vec![1, 10, 2, 20], 2)));
    let stereo = vec![(vec![1, 2, 3, 4], 2u32), (vec![9, 9], 1u32)];
    assert_eq!(macos::interleave_buffers(&stereo), Some((vec![1, 2, 3, 4], 2)));
    let empty_first = vec![(vec![], 1u32), (vec![5, 6], 0u32)];
    assert_eq!(macos::interleave_buffers(&empty_first), Some((vec![5, 6], 1)));
    let none: Vec<(Vec<i16>, u32)> = vec![(vec![], 2)];
    assert_eq!(macos::interleave_buffers(&none), None);
    assert_eq!(macos::interleave_buffers::<i16>(&[]), None);
}

#[test]
fn windows_offers_the_mix_and_titled_windows() {
    let list = vec![
        windows::WindowInfo { title: "Player".to_string(), pid: 1234, app_name: "Spotify".to_string() },
        windows::WindowInfo { title: String::new(), pid: 99, app_name: "Hidden".to_string() },
    ];
    let sources = windows::list_sources(&list);
    let got: Vec<_> = sources.iter().map(fields).collect();
    assert_eq!(
        got,
        vec![
            ("system:default", "system", "This PC", "Default output mix"),
            ("app:1234", "app", "Player", "Spotify"),
        ]
    );
}

#[test]
fn windows_source_ids_read_back() {
    assert_eq!(capture_target("system:default"), Ok(CaptureTarget::SystemMix));
    assert_eq!(capture_target("app:1234"), Ok(CaptureTarget::Process(1234)));
    assert_eq!(capture_target("app:-1"), Err(TargetError::BadProcessId("invalid digit found in string".to_string())));
    assert_eq!(capture_target("app:"), Err(TargetError::BadProcessId("cannot parse integer from empty string".to_string())));
    assert_eq!(capture_target("app:4294967296"), Err(TargetError::BadProcessId("number too large to fit in target type".to_string())));
    assert_eq!(capture_target("system:other"), Err(TargetError::UnknownSource));
    assert_eq!(TargetError::UnknownSource.message(), "Unknown source");
}

#[test]
fn offered_ids_read_back_on_every_platform() {
    let list = vec![windows::WindowInfo { title: "Player".to_string(), pid: 77, app_name: String::new() }];
    let sources = windows::list_sources(&list);
    assert_eq!(capture_target(&sources[0].id), Ok(CaptureTarget::SystemMix));
    assert_eq!(capture_target(&sources[1].id), Ok(CaptureTarget::Process(77)));

    let apps = vec![app("Music", -12, "")];
    let wins = vec![window("Player", 4_000_000_000, "Music")];
    let sources = macos::list_sources(&[3], &apps, &wins);
    assert_eq!(build_filter(&sources[0].id, &[3], &[-12], &[4_000_000_000]), Ok(CaptureFilter::Display(0)));
    assert_eq!(
        build_filter(&sources[1].id, &[3], &[-12], &[4_000_000_000]),
        Ok(CaptureFilter::Application { app: 0, display: 0 })
    );
    assert_eq!(build_filter(&sources[2].id, &[3], &[-12], &[4_000_000_000]), Ok(CaptureFilter::Window(0)));
}

#[test]
fn the_playback_queue_keeps_the_newest_samples() {
    let mut q: VecDeque<i16> = VecDeque::new();
    enqueue_samples(&mut q, &[1, 2, 3]);
    assert_eq!(q, VecDeque::from(vec![1, 2, 3]));
    let big: Vec<i16> = (0..MAX_QUEUED_SAMPLES).map(|i| (i % 1000) as i16).collect();
    enqueue_samples(&mut q, &big);
    assert_eq!(q.len(), MAX_QUEUED_SAMPLES);
    assert_eq!(q.front(), Some(&0));
    enqueue_samples(&mut q, &[-1, -2]);
    assert_eq!(q.len(), MAX_QUEUED_SAMPLES);
    assert_eq!(q.front(), Some(&2));
    assert_eq!(q.back(), Some(&-2));
    assert_eq!(MAX_QUEUED_SAMPLES, 192_000);
}
