use clipsta::mux::{plan_mux, MuxError};
use clipsta::recording::{CaptureOptions, CaptureReadyInfo};
use clipsta::ring::{AudioChunk, EncodedFrame, TICKS_PER_SECOND};
use clipsta::session::{
    clip_reply, early_clip_reply, plays_clip_sound, start_failure, CaptureSession, SaveError,
    StartError,
};

fn options(buffer_duration: u32) -> CaptureOptions {
    CaptureOptions {
        source_id: None,
        fps: 60,
        no_audio: false,
        no_mic: false,
        mic_device: None,
        loopback_device: None,
        target_width: None,
        target_height: None,
        bitrate_kbps: 8000,
        segment_duration: 3,
        buffer_duration,
        segment_dir: "C:\\temp\\clipsta_recording".to_string(),
    }
}

fn info() -> CaptureReadyInfo {
    CaptureReadyInfo { width: 1920, height: 1088, fps: 60, segment_dir: String::new() }
}

fn recording(seconds: i64) -> CaptureSession<f32> {
    let mut session = CaptureSession::new();
    session.start(&options(30)).unwrap();
    session.started(Ok(info()), 1000).unwrap();
    for s in 0..seconds {
        session.ring.push_video(EncodedFrame {
            data: vec![s as u8],
            pts_100ns: s * TICKS_PER_SECOND,
            duration_100ns: TICKS_PER_SECOND,
            is_keyframe: s % 2 == 0,
        });
        session.ring.push_audio(AudioChunk {
            data: vec![0.5f32, -0.5],
            pts_100ns: s * TICKS_PER_SECOND,
            duration_100ns: TICKS_PER_SECOND,
        });
    }
    session
}

#[test]
fn a_new_session_does_not_record() {
    let session: CaptureSession<f32> = CaptureSession::default();
    assert!(!session.is_recording);
    assert!(!session.is_saving);
    assert_eq!(session.session_fps, 60);
    assert_eq!(session.elapsed(5), None);
    assert_eq!(session.get_segment_dir(), None);
    assert_eq!(session.get_audio_file(), None);
    assert!(session.get_segments().is_empty());
}

#[test]
fn a_session_cannot_be_started_twice() {
    let mut session = recording(0);
    assert_eq!(session.start(&options(30)), Err(StartError::AlreadyRecording));
    assert_eq!(StartError::AlreadyRecording.message(), "Already recording");
    session.stop();
    session.is_saving = true;
    assert_eq!(session.start(&options(30)), Err(StartError::SaveInProgress));
    assert_eq!(StartError::SaveInProgress.message(), "Save in progress");
}

#[test]
fn a_pipeline_that_fails_starts_no_recording() {
    let mut session: CaptureSession<f32> = CaptureSession::new();
    session.start(&options(30)).unwrap();
    let failed = session.started(Err("no device".to_string()), 1);
    assert_eq!(failed.unwrap_err(), "no device");
    assert!(!session.is_recording);
    assert_eq!(start_failure("no device"), "Capture start failed: no device");
}

#[test]
fn the_buffer_is_as_long_as_was_set() {
    for (buffer_duration, kept) in [(0, 120), (30, 120), (120, 120), (180, 180), (300, 300)] {
        let mut session: CaptureSession<f32> = CaptureSession::new();
        session.start(&options(buffer_duration)).unwrap();
        for s in 0..400i64 {
            session.ring.push_video(EncodedFrame {
                data: vec![],
                pts_100ns: s * TICKS_PER_SECOND,
                duration_100ns: TICKS_PER_SECOND,
                is_keyframe: true,
            });
        }
        assert_eq!(session.ring.duration_100ns(), kept * TICKS_PER_SECOND as i128);
    }
}

#[test]
fn saved_clips_may_be_heard() {
    let saved = Ok(Some("clip.mp4".to_string()));
    assert!(plays_clip_sound(&saved, true));
    assert!(!plays_clip_sound(&saved, false));
    assert!(!plays_clip_sound(&Ok(None), true));
    assert!(!plays_clip_sound(&Err("disk full".to_string()), true));
}

#[test]
fn a_clip_is_cut_and_filed() {
    let mut session = recording(20);
    let clip = match session.save_clip(5) {
        Ok(clip) => clip,
        Err(e) => panic!("{}", e.message()),
    };
    assert!(session.is_saving);
    assert_eq!(clip.fps, 60);
    // The newest frame is at 19 s; the clip starts at the keyframe at 14 s.
    assert_eq!(clip.video.len(), 6);
    assert!(clip.video[0].is_keyframe);
    assert_eq!(clip.audio.len(), 6);
    let path = session.finish_save(&clip, "clip.mp4", Ok(())).unwrap();
    assert_eq!(path, "clip.mp4");
    assert!(!session.is_saving);
    let saved = session.get_segments();
    assert_eq!(saved.len(), 1);
    assert_eq!(saved[0].path, "clip.mp4");
    assert_eq!(saved[0].index, 0);
    assert_eq!(saved[0].start_pts, 14 * TICKS_PER_SECOND as i128);
    assert_eq!(saved[0].end_pts, 20 * TICKS_PER_SECOND as i128);
    assert_eq!(saved[0].duration, 6 * TICKS_PER_SECOND as i128);
    assert_eq!(session.clip_counter, 1);
}

#[test]
fn a_clip_that_cannot_be_written_is_not_filed() {
    let mut session = recording(20);
    let clip = session.save_clip(5).ok().unwrap();
    let error = session.finish_save(&clip, "clip.mp4", Err("disk full".to_string())).unwrap_err();
    assert_eq!(error.message(), "disk full");
    assert!(!session.is_saving);
    assert!(session.get_segments().is_empty());
    assert_eq!(session.clip_counter, 0);
}

#[test]
fn only_one_clip_is_saved_at_a_time() {
    let mut session = recording(20);
    let clip = session.save_clip(5).ok().unwrap();
    assert!(matches!(session.save_clip(5), Err(SaveError::SaveInProgress)));
    session.finish_save(&clip, "clip.mp4", Ok(())).unwrap();
    assert!(session.save_clip(5).is_ok());
}

#[test]
fn nothing_is_saved_without_a_recording_or_a_keyframe() {
    let mut idle: CaptureSession<f32> = CaptureSession::new();
    let error = idle.save_clip(5).err().unwrap();
    assert_eq!(error.message(), "Not recording \u{2014} cannot save clip");
    let mut empty = recording(0);
    let error = empty.save_clip(5).err().unwrap();
    assert_eq!(error.message(), "No keyframe found in ring buffer");
    assert!(!empty.is_saving);
}

#[test]
fn a_recording_that_has_ended_is_told_first() {
    let mut session = recording(20);
    let clip = session.save_clip(5).ok().unwrap();
    session.stop();
    assert!(matches!(session.save_clip(5), Err(SaveError::NotRecording)));
    session.finish_save(&clip, "clip.mp4", Ok(())).unwrap();
    let mut empty = recording(0);
    empty.is_saving = true;
    assert!(matches!(empty.save_clip(5), Err(SaveError::NoKeyframe)));
}

#[test]
fn a_request_may_be_answered_at_once() {
    let saving = Some(Err("Another save is in progress".to_string()));
    assert_eq!(early_clip_reply(true, true), saving);
    assert_eq!(early_clip_reply(true, false), saving);
    assert_eq!(early_clip_reply(false, false), Some(Ok(None)));
    assert_eq!(early_clip_reply(false, true), None);
}

#[test]
fn replies_tell_errors_from_nothing_to_save() {
    assert_eq!(clip_reply(Ok("a".to_string())), Ok(Some("a".to_string())));
    assert_eq!(clip_reply(Err(SaveError::NoKeyframe)), Ok(None));
    assert_eq!(clip_reply(Err(SaveError::Failed("Not enough data".to_string()))), Ok(None));
    assert_eq!(
        clip_reply(Err(SaveError::SaveInProgress)),
        Err("Another save is in progress".to_string())
    );
    assert_eq!(
        clip_reply(Err(SaveError::NotRecording)),
        Err("Not recording \u{2014} cannot save clip".to_string())
    );
    assert_eq!(
        clip_reply(Err(SaveError::Failed("disk full".to_string()))),
        Err("disk full".to_string())
    );
}

#[test]
fn clips_are_numbered_through_the_session() {
    let mut session = recording(20);
    for (path, written) in [("a", true), ("b", false), ("c", true)] {
        let clip = session.save_clip(5).ok().unwrap();
        let result = if written { Ok(()) } else { Err("disk full".to_string()) };
        assert_eq!(session.finish_save(&clip, path, result).is_ok(), written);
    }
    let numbers: Vec<u32> = session.get_segments().iter().map(|s| s.index).collect();
    assert_eq!(numbers, vec![0, 1]);
    session.stop();
    session.start(&options(30)).unwrap();
    session.started(Ok(info()), 2000).unwrap();
    assert!(session.get_segments().is_empty());
    session.ring.push_video(EncodedFrame {
        data: vec![],
        pts_100ns: 0,
        duration_100ns: 1,
        is_keyframe: true,
    });
    let clip = session.save_clip(5).ok().unwrap();
    session.finish_save(&clip, "d", Ok(())).unwrap();
    assert_eq!(session.get_segments()[0].index, 2);
}

#[test]
fn stopping_and_cleaning_up() {
    let mut session = recording(10);
    assert_eq!(session.elapsed(1500), Some(500));
    assert_eq!(session.elapsed(500), Some(0));
    session.stop();
    assert!(session.stop_flag);
    assert!(!session.is_recording);
    session.finalize_pending_segments();
    let dir = session.cleanup();
    assert_eq!(dir.unwrap(), "C:\\temp\\clipsta_recording");
    assert_eq!(session.get_segment_dir(), None);
    assert_eq!(session.ring.frames_pushed(), 0);
    session.is_recording = true;
    session.ended();
    assert!(!session.is_recording);
}

#[test]
fn a_clip_is_written_from_time_zero() {
    let mut session = recording(20);
    let clip = session.save_clip(5).ok().unwrap();
    let plan = plan_mux(&clip.video, &clip.audio, clip.fps, 8_000_000).ok().unwrap();
    assert_eq!(plan.video_format.frame_size, (1920u64 << 32) | 1088);
    assert_eq!(plan.video_format.frame_rate, (60u64 << 32) | 1);
    assert_eq!(plan.video_format.pixel_aspect_ratio, (1u64 << 32) | 1);
    assert_eq!(plan.video_format.profile, 100);
    assert_eq!(plan.video_format.level, 42);
    assert_eq!(plan.video_format.avg_bitrate, 8_000_000);
    let audio = plan.audio_format.unwrap();
    assert_eq!(audio.sample_rate, 48000);
    assert_eq!(audio.channels, 2);
    assert_eq!(audio.block_align, 4);
    assert_eq!(audio.pcm_bytes_per_second, 192_000);
    assert_eq!(audio.aac_bytes_per_second, 24_000);
    assert_eq!(plan.video[0].time_100ns, 0);
    assert!(plan.video[0].clean_point);
    assert_eq!(plan.video[5].time_100ns, 5 * TICKS_PER_SECOND as i128);
    assert!(!plan.video[5].clean_point);
    assert_eq!(plan.video[5].duration_100ns, TICKS_PER_SECOND);
    assert_eq!(plan.audio[1].time_100ns, TICKS_PER_SECOND as i128);
}

#[test]
fn audio_that_began_before_a_clip_is_presented_at_its_start() {
    let video = vec![EncodedFrame {
        data: vec![1],
        pts_100ns: 1000,
        duration_100ns: 10,
        is_keyframe: true,
    }];
    let audio: Vec<AudioChunk<f32>> =
        vec![AudioChunk { data: vec![], pts_100ns: 400, duration_100ns: 700 }];
    let plan = plan_mux(&video, &audio, 60, 1).ok().unwrap();
    assert_eq!(plan.audio[0].time_100ns, 0);
    let none: Vec<AudioChunk<f32>> = vec![];
    assert!(plan_mux(&video, &none, 60, 1).ok().unwrap().audio_format.is_none());
}

#[test]
fn a_clip_without_video_is_not_written() {
    let audio: Vec<AudioChunk<f32>> = vec![];
    let error = plan_mux(&vec![], &audio, 60, 1).err().unwrap();
    assert_eq!(error, MuxError::NoVideoFrames);
    assert_eq!(error.message(), "No video frames to mux");
}
