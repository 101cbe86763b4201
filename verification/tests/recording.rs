use clipsta::commands::{
    compress_for_upload, is_hotkey_setting, watch_folder_start, watch_folder_status,
    WatchFolderStatusResponse,
};
use clipsta::number::NumberError;
use clipsta::recording::{
    audio_sources, capture_options, resolve_game_bar_bitrate, resolve_target_res,
    RecordingSettings, StartRecordingOpts,
};
use clipsta::source::{
    list_sources, monitor_source, resolve_target, window_source, CaptureTarget, MonitorFacts,
    Rect, TargetError, WindowFacts,
};

#[test]
fn resolutions_have_sizes() {
    assert_eq!(resolve_target_res("480p"), Some((854, 480)));
    assert_eq!(resolve_target_res("720p"), Some((1280, 720)));
    assert_eq!(resolve_target_res("1080p"), Some((1920, 1080)));
    assert_eq!(resolve_target_res("1440p"), Some((2560, 1440)));
    assert_eq!(resolve_target_res("4k"), Some((3840, 2160)));
    assert_eq!(resolve_target_res("native"), None);
}

#[test]
fn bitrates_depend_on_resolution_and_frame_rate() {
    assert_eq!(resolve_game_bar_bitrate("480p", 60), 4000);
    assert_eq!(resolve_game_bar_bitrate("480p", 49), 2500);
    assert_eq!(resolve_game_bar_bitrate("720p", 50), 8000);
    assert_eq!(resolve_game_bar_bitrate("720p", 30), 5000);
    assert_eq!(resolve_game_bar_bitrate("1080p", 60), 20000);
    assert_eq!(resolve_game_bar_bitrate("1080p", 30), 12000);
    assert_eq!(resolve_game_bar_bitrate("1440p", 60), 50000);
    assert_eq!(resolve_game_bar_bitrate("1440p", 30), 30000);
    assert_eq!(resolve_game_bar_bitrate("4k", 60), 80000);
    assert_eq!(resolve_game_bar_bitrate("4k", 30), 50000);
    assert_eq!(resolve_game_bar_bitrate("native", 60), 8000);
    assert_eq!(resolve_game_bar_bitrate("", 30), 5000);
}

fn settings() -> RecordingSettings {
    RecordingSettings {
        fps: 60,
        capture_audio: true,
        resolution: "1080p".to_string(),
        buffer_duration: 120,
    }
}

#[test]
fn what_is_left_out_comes_from_the_settings() {
    let opts = StartRecordingOpts {
        source_id: Some("monitor:1".to_string()),
        fps: None,
        no_audio: None,
        mic_device: Some("mic".to_string()),
        loopback_device: None,
    };
    let options = capture_options(opts, &settings(), "dir".to_string());
    assert_eq!(options.source_id.as_deref(), Some("monitor:1"));
    assert_eq!(options.fps, 60);
    assert!(!options.no_audio);
    assert!(!options.no_mic);
    assert_eq!(options.bitrate_kbps, 20000);
    assert_eq!(options.segment_duration, 3);
    assert_eq!(options.buffer_duration, 120);
    assert_eq!(options.target_width, None);
    assert_eq!(options.segment_dir, "dir");
    let sources = audio_sources(&options);
    assert!(sources.desktop);
    assert_eq!(sources.mic_device.as_deref(), Some("mic"));
}

#[test]
fn only_the_microphone_can_be_left_out() {
    let opts = StartRecordingOpts {
        source_id: None,
        fps: Some(30),
        no_audio: Some(true),
        mic_device: Some("mic".to_string()),
        loopback_device: Some("speakers".to_string()),
    };
    let options = capture_options(opts, &settings(), String::new());
    assert_eq!(options.fps, 30);
    assert_eq!(options.bitrate_kbps, 12000);
    assert!(!options.no_audio);
    assert!(options.no_mic);
    assert_eq!(options.mic_device.as_deref(), Some("mic"));
    let sources = audio_sources(&options);
    assert!(sources.desktop);
    assert_eq!(sources.loopback_device.as_deref(), Some("speakers"));
    assert_eq!(sources.mic_device, None);
}

#[test]
fn settings_without_audio_leave_out_the_microphone() {
    let opts = StartRecordingOpts {
        source_id: None,
        fps: None,
        no_audio: None,
        mic_device: Some("mic".to_string()),
        loopback_device: None,
    };
    let silent = RecordingSettings { capture_audio: false, ..settings() };
    let options = capture_options(opts, &silent, String::new());
    assert!(!options.no_audio);
    let sources = audio_sources(&options);
    assert!(sources.desktop);
    assert_eq!(sources.mic_device, None);
}

fn area(width: i32, height: i32) -> Rect {
    Rect { left: 10, top: 20, right: 10 + width, bottom: 20 + height }
}

#[test]
fn monitors_are_sources() {
    let source = monitor_source(65537, " \\\\.\\DISPLAY1 ", area(2560, 1440));
    assert_eq!(source.id, "monitor:65537");
    assert_eq!(source.name, "Display \\\\.\\DISPLAY1");
    assert_eq!(source.source_type, "monitor");
    assert_eq!((source.width, source.height), (2560, 1440));
}

#[test]
fn windows_are_sources_if_they_can_be_seen() {
    let source = window_source(42, true, "Game", area(150, 150)).unwrap();
    assert_eq!(source.id, "hwnd:42");
    assert_eq!(source.name, "Game");
    assert_eq!(source.source_type, "window");
    assert_eq!((source.width, source.height), (150, 150));
    assert!(window_source(42, false, "Game", area(800, 600)).is_none());
    assert!(window_source(42, true, "", area(800, 600)).is_none());
    assert!(window_source(42, true, "Game", area(149, 600)).is_none());
    assert!(window_source(42, true, "Game", area(800, 149)).is_none());
    assert!(area(800, 600).is_in_range());
    let huge = Rect { left: i32::MIN, top: 0, right: 1, bottom: 0 };
    assert!(!huge.is_in_range());
    assert!(window_source(42, false, "Game", huge).is_none());
    assert!(window_source(42, true, "", huge).is_none());
}

#[test]
fn ids_name_targets() {
    assert_eq!(resolve_target(Some("hwnd:42")), Ok(CaptureTarget::Window(42)));
    assert_eq!(resolve_target(Some("monitor:+7")), Ok(CaptureTarget::Monitor(7)));
    assert_eq!(resolve_target(Some("screen")), Ok(CaptureTarget::Primary));
    assert_eq!(resolve_target(None), Ok(CaptureTarget::Primary));
}

#[test]
fn ids_that_name_no_target() {
    let empty = resolve_target(Some("hwnd:")).unwrap_err();
    assert_eq!(empty, TargetError::BadWindow(NumberError::Empty));
    assert_eq!(empty.message(), "bad hwnd: cannot parse integer from empty string");
    let digit = resolve_target(Some("monitor:1x")).unwrap_err();
    assert_eq!(digit, TargetError::BadMonitor(NumberError::InvalidDigit));
    assert_eq!(digit.message(), "bad monitor: invalid digit found in string");
    let large = resolve_target(Some("hwnd:99999999999999999999")).unwrap_err();
    assert_eq!(large, TargetError::BadWindow(NumberError::TooLarge));
    assert_eq!(large.message(), "bad hwnd: number too large to fit in target type");
}

#[test]
fn a_listed_source_can_be_captured() {
    let source = window_source(usize::MAX, true, "Game", area(800, 600)).unwrap();
    assert_eq!(resolve_target(Some(&source.id)), Ok(CaptureTarget::Window(usize::MAX)));
    let source = monitor_source(0, "d", area(1, 1));
    assert_eq!(resolve_target(Some(&source.id)), Ok(CaptureTarget::Monitor(0)));
}

#[test]
fn small_requests() {
    assert!(is_hotkey_setting("hotkeySave30"));
    assert!(!is_hotkey_setting("outputFolder"));
    assert!(!is_hotkey_setting("hotke"));
    assert_eq!(watch_folder_start("C:\\in".to_string()), Ok("C:\\in".to_string()));
    assert_eq!(
        watch_folder_start(String::new()),
        Err("No watch folder path configured".to_string())
    );
    assert_eq!(
        watch_folder_status(true, 3),
        WatchFolderStatusResponse { active: true, files_detected: 3 }
    );
    assert_eq!(compress_for_upload("clip.mp4"), None);
}

#[test]
fn monitors_are_listed_before_windows() {
    let window = |handle: usize, visible: bool, title: &str| WindowFacts {
        handle,
        visible,
        title: title.to_string(),
        area: area(800, 600),
    };
    let monitors = vec![
        MonitorFacts { handle: 1, device: "D1".to_string(), area: area(1920, 1080) },
        MonitorFacts { handle: 2, device: "D2".to_string(), area: area(100, 100) },
    ];
    let windows = vec![window(3, true, "Game"), window(4, false, "Hidden"), window(5, true, "B")];
    let ids: Vec<String> =
        list_sources(&monitors, &windows).into_iter().map(|s| s.id).collect();
    assert_eq!(ids, vec!["monitor:1", "monitor:2", "hwnd:3", "hwnd:5"]);
}
