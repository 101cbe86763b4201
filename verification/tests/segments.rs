use clipsta::recording::CaptureOptions;
use clipsta::ring::TICKS_PER_SECOND;
use clipsta::segments::{
    audio_pipe_name, ffmpeg_capture_args, pipe_is_connected, segment_index, CaptureSession,
    SegmentFile, SegmentWatcher,
};
use clipsta::session::{CompletedSegment, StartError};

fn options() -> CaptureOptions {
    CaptureOptions {
        source_id: None,
        fps: 60,
        no_audio: false,
        no_mic: false,
        mic_device: None,
        loopback_device: None,
        target_width: None,
        target_height: None,
        bitrate_kbps: 8000,
        segment_duration: 3,
        buffer_duration: 9,
        segment_dir: "C:\\temp\\rec".to_string(),
    }
}

fn file(index: u32, size: u64) -> SegmentFile {
    SegmentFile { index, path: format!("C:\\temp\\rec\\seg_{:05}.mp4", index), size: Some(size) }
}

fn indices(list: &[CompletedSegment]) -> Vec<u32> {
    list.iter().map(|s| s.index).collect()
}

fn recording() -> (CaptureSession, SegmentWatcher) {
    let mut session = CaptureSession::new();
    session.start().unwrap();
    session.started(&options(), Ok(()), 100).unwrap();
    (session, SegmentWatcher::new(&options()))
}

#[test]
fn ffmpeg_records_video_and_audio() {
    let pipe = audio_pipe_name(1234);
    assert_eq!(pipe, "\\\\.\\pipe\\clipsta_audio_1234");
    assert_eq!(
        ffmpeg_capture_args(&options(), &pipe).join(" "),
        "-y -f lavfi -i ddagrab=framerate=60:draw_mouse=1:video_size=1280x720 \
         -f s16le -ar 48000 -ac 2 -i \\\\.\\pipe\\clipsta_audio_1234 -map 0:v:0 -map 1:a:0 \
         -c:v h264_nvenc -preset p1 -tune ll -rc cbr -b:v 8000k -maxrate 9000k -bufsize 16000k \
         -r 60 -video_track_timescale 90000 -g 120 -bf 0 -profile:v high \
         -c:a aac -b:a 192k \
         -f segment -segment_time 3 -segment_format mp4 -reset_timestamps 1 -strftime 0 \
         C:/temp/rec/seg_%05d.mp4"
    );
}

#[test]
fn ffmpeg_records_video_alone() {
    let mut silent = options();
    silent.no_audio = true;
    silent.target_width = Some(1920);
    silent.target_height = Some(1080);
    silent.segment_duration = 0;
    let args = ffmpeg_capture_args(&silent, "pipe");
    assert!(args.contains(&"ddagrab=framerate=60:draw_mouse=1:video_size=1920x1080".to_string()));
    assert!(!args.contains(&"pipe".to_string()));
    assert!(!args.contains(&"-c:a".to_string()));
    let at = args.iter().position(|a| a == "-segment_time").unwrap();
    assert_eq!(args[at + 1], "1");
}

#[test]
fn the_pipe_may_be_connected_early() {
    assert!(pipe_is_connected(true, 0));
    assert!(pipe_is_connected(false, 535));
    assert!(!pipe_is_connected(false, 2));
}

#[test]
fn segment_files_are_told_by_their_names() {
    assert_eq!(segment_index("seg_00012"), Some(12));
    assert_eq!(segment_index("seg_4294967295"), Some(u32::MAX));
    assert_eq!(segment_index("seg_4294967296"), None);
    assert_eq!(segment_index("seg_"), None);
    assert_eq!(segment_index("seg_1a"), None);
    assert_eq!(segment_index("audio"), None);
}

#[test]
fn a_recording_starts_once() {
    let mut session = CaptureSession::default();
    assert_eq!(session.segment_duration, 5);
    session.start().unwrap();
    let failed = session.started(&options(), Err("not found".to_string()), 1);
    assert_eq!(failed.unwrap_err(), "FFmpeg failed: not found");
    assert!(!session.is_recording);
    let info = session.started(&options(), Ok(()), 100).unwrap();
    assert_eq!((info.width, info.height, info.fps), (1280, 720, 60));
    assert_eq!(info.segment_dir, "C:\\temp\\rec");
    assert_eq!(session.start(), Err(StartError::AlreadyRecording));
    assert_eq!(session.elapsed(150), Some(50));
    assert_eq!(session.audio_start_delay(), 0);
    session.stop();
    assert!(session.stop_flag && !session.is_recording);
}

#[test]
fn the_segment_that_is_written_is_left_alone() {
    let (mut session, mut watcher) = recording();
    let scan = session.scan(&mut watcher, &vec![file(0, 1)]);
    assert!(scan.completed.is_empty());
    let scan = session.scan(&mut watcher, &vec![file(1, 1), file(0, 1)]);
    assert_eq!(indices(&scan.completed), vec![0]);
    assert_eq!(scan.completed[0].path, "C:/temp/rec/seg_00000.mp4");
    assert_eq!(scan.completed[0].start_pts, 0);
    assert_eq!(scan.completed[0].end_pts, 3 * TICKS_PER_SECOND as i128);
    assert_eq!(scan.completed[0].duration, 3 * TICKS_PER_SECOND as i128);
    let scan = session.scan(&mut watcher, &vec![file(0, 1), file(1, 1)]);
    assert!(scan.completed.is_empty());
    let scan = session.scan(&mut watcher, &vec![]);
    assert!(scan.completed.is_empty() && scan.removed.is_empty());
}

#[test]
fn old_segments_are_removed() {
    let (mut session, mut watcher) = recording();
    let found: Vec<SegmentFile> = (0..6).map(|i| file(i, 1)).collect();
    let scan = session.scan(&mut watcher, &found);
    // Segment 5 ends at 18 s, so segments that end before 9 s are dropped.
    assert_eq!(indices(&scan.completed), vec![0, 1, 2, 3, 4]);
    assert_eq!(scan.removed, vec!["C:/temp/rec/seg_00000.mp4", "C:/temp/rec/seg_00001.mp4"]);
    assert_eq!(indices(&session.segments), vec![2, 3, 4]);
}

#[test]
fn segments_are_listed_in_order_while_their_files_exist() {
    let (mut session, mut watcher) = recording();
    session.scan(&mut watcher, &vec![file(1, 1), file(0, 1), file(2, 1)]);
    assert_eq!(indices(&session.get_segments(|_: &String| true)), vec![0, 1]);
    let left = session.get_segments(|path: &String| !path.contains("00000"));
    assert_eq!(indices(&left), vec![1]);
}

#[test]
fn the_last_segment_is_added_at_the_end() {
    let (mut session, mut watcher) = recording();
    session.scan(&mut watcher, &vec![file(0, 5000), file(1, 5000)]);
    session.stop();
    let mut unknown = file(3, 0);
    unknown.size = None;
    session.finalize_pending_segments(&vec![
        file(2, 1023),
        unknown,
        file(1, 1024),
        file(0, 5000),
        file(1, 9000),
    ]);
    assert_eq!(indices(&session.segments), vec![0, 1]);
    assert_eq!(session.segments[1].start_pts, 3 * TICKS_PER_SECOND as i128);
    let mut idle = CaptureSession::new();
    idle.finalize_pending_segments(&vec![file(0, 5000)]);
    assert!(idle.segments.is_empty());
}

#[test]
fn audio_files_that_hold_something() {
    let (mut session, _) = recording();
    assert_eq!(session.audio_path().as_deref(), Some("C:/temp/rec/audio.raw"));
    assert_eq!(session.get_audio_file(Some(1001)).as_deref(), Some("C:/temp/rec/audio.raw"));
    assert_eq!(session.get_audio_file(Some(1000)), None);
    assert_eq!(session.get_audio_file(None), None);
    assert_eq!(session.get_segment_dir().as_deref(), Some("C:\\temp\\rec"));
    assert_eq!(session.cleanup().as_deref(), Some("C:\\temp\\rec"));
    assert_eq!(session.get_audio_file(Some(2000)), None);
    assert_eq!(session.elapsed(1), None);
}
