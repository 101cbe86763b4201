use clipsta::mp4::{
    audio_guid_to_codec_name, guid_to_codec_name, mp4_info, nearest_keyframe_before, FrameRate,
    KeyframeWalk, SampleRead, StreamFacts,
};
use clipsta::trim::{
    after_copy, after_move, is_countable, needs_seek, new_temp_file_name, next_copy_step,
    plan_trim, temp_file_name, CopyStep, Finish, InvalidRange, StreamRead,
};

fn ticks(seconds: f64) -> i64 {
    (seconds * 10_000_000.0) as i64
}

#[test]
fn test_nearest_keyframe_before() {
    let keyframes: Vec<i64> =
        vec![0.0, 2.0, 4.0, 6.0, 8.0, 10.0].into_iter().map(ticks).collect();

    assert_eq!(nearest_keyframe_before(&keyframes, ticks(5.0)), ticks(4.0));
    assert_eq!(nearest_keyframe_before(&keyframes, ticks(4.0)), ticks(4.0));
    assert_eq!(nearest_keyframe_before(&keyframes, ticks(0.5)), ticks(0.0));
    assert_eq!(nearest_keyframe_before(&keyframes, ticks(11.0)), ticks(10.0));
    assert_eq!(nearest_keyframe_before(&[], ticks(5.0)), ticks(0.0));
}

#[test]
fn no_keyframe_before_a_time_gives_the_start() {
    assert_eq!(nearest_keyframe_before(&[20, 40], 19), 0);
    assert_eq!(nearest_keyframe_before(&[20, 40], 20), 20);
    assert_eq!(nearest_keyframe_before(&[20, 20, 40], 39), 20);
}

#[test]
fn codecs_have_names() {
    let tail = 0x0000_0010_8000_00aa00389b71u128;
    let subtype = |first: u32| ((first as u128) << 96) | tail;
    assert_eq!(guid_to_codec_name(subtype(0x34363248)), "h264");
    assert_eq!(guid_to_codec_name(subtype(0x35363248)), "hevc");
    assert_eq!(guid_to_codec_name(subtype(0x30395056)), "vp9");
    assert_eq!(guid_to_codec_name(subtype(0x31305641)), "av1");
    assert_eq!(audio_guid_to_codec_name(subtype(0x1610)), "aac");
    assert_eq!(audio_guid_to_codec_name(subtype(0x55)), "mp3");
    assert_eq!(audio_guid_to_codec_name(subtype(1)), "pcm");
    assert_eq!(audio_guid_to_codec_name(subtype(3)), "float");
}

#[test]
fn other_codecs_are_named_by_their_number() {
    assert_eq!(
        guid_to_codec_name(0x3231564e_0000_0010_8000_00aa00389b71),
        "3231564E-0000-0010-8000-00AA00389B71"
    );
    assert_eq!(
        audio_guid_to_codec_name(0x01234567_89ab_cdef_0102_0304050607f8),
        "01234567-89AB-CDEF-0102-0304050607F8"
    );
    assert_eq!(audio_guid_to_codec_name(0), "00000000-0000-0000-0000-000000000000");
}

#[test]
fn facts_of_a_file() {
    let info = mp4_info(
        &StreamFacts {
            duration: Some(300_000_000),
            frame_size: Some((1920 << 32) | 1088),
            frame_rate: Some((60000 << 32) | 1001),
            video_subtype: Some(0x35363248_0000_0010_8000_00aa00389b71),
            bitrate: Some(8_000_000),
            has_audio: true,
            audio_subtype: Some(0x00001610_0000_0010_8000_00aa00389b71),
        },
        vec![0, 20_000_000],
    );
    assert_eq!(info.duration, 300_000_000);
    assert_eq!((info.width, info.height), (1920, 1088));
    assert_eq!(info.fps, FrameRate { frames: 60000, seconds: 1001 });
    assert_eq!(info.video_codec, "hevc");
    assert_eq!(info.audio_codec, "aac");
    assert_eq!(info.bitrate, 8_000_000);
    assert!(info.has_audio);
    assert_eq!(info.keyframes, vec![0, 20_000_000]);
}

#[test]
fn facts_that_are_missing() {
    let mut facts = StreamFacts {
        duration: None,
        frame_size: None,
        frame_rate: None,
        video_subtype: None,
        bitrate: None,
        has_audio: false,
        audio_subtype: None,
    };
    let info = mp4_info(&facts, vec![]);
    assert_eq!(info.duration, 0);
    assert_eq!((info.width, info.height), (0, 0));
    assert_eq!(info.fps, FrameRate { frames: 30, seconds: 1 });
    assert_eq!(info.video_codec, "h264");
    assert_eq!(info.audio_codec, "");
    facts.frame_rate = Some(25 << 32);
    facts.has_audio = true;
    let info = mp4_info(&facts, vec![]);
    assert_eq!(info.fps, FrameRate { frames: 30, seconds: 1 });
    assert_eq!(info.audio_codec, "");
    assert!(info.has_audio);
}

fn read(timestamp: i64, clean_point: Option<u32>) -> SampleRead {
    SampleRead::Read { flags: 0, timestamp, clean_point }
}

#[test]
fn keyframes_are_collected_in_order() {
    let mut walk = KeyframeWalk::new();
    for sample in [read(0, Some(1)), read(30, Some(0)), read(60, None), read(50, Some(1))] {
        assert!(!walk.is_over());
        walk.take(sample);
    }
    walk.take(read(20, Some(7)));
    assert!(!walk.is_over());
    walk.take(SampleRead::Read { flags: 2, timestamp: 99, clean_point: Some(1) });
    assert!(walk.is_over());
    assert_eq!(walk.finish(), vec![0, 20, 50]);
}

#[test]
fn a_walk_ends_with_a_failure() {
    let mut walk = KeyframeWalk::new();
    walk.take(read(5, Some(1)));
    walk.take(SampleRead::Failed);
    assert!(walk.is_over());
    assert_eq!(walk.finish(), vec![5]);
}

#[test]
fn a_walk_ends_with_enough_keyframes() {
    let mut walk = KeyframeWalk::new();
    let mut n = 0;
    while !walk.is_over() {
        walk.take(read(n, Some(1)));
        n += 1;
    }
    assert_eq!(n, 10000);
    assert_eq!(walk.finish().len(), 10000);
}

#[test]
fn a_trim_starts_at_a_keyframe() {
    let keyframes = [0, ticks(2.0), ticks(4.0)];
    let plan = plan_trim("out.mp4", ticks(3.0), ticks(5.0), &keyframes).unwrap();
    assert_eq!(plan.output_path, "out.mp4");
    assert_eq!(plan.requested_start, ticks(3.0));
    assert_eq!(plan.actual_start, ticks(2.0));
    assert_eq!(plan.requested_end, ticks(5.0));
    assert_eq!(plan.actual_end, ticks(5.0));
    assert_eq!(plan.duration, ticks(3.0) as i128);
    assert_eq!(plan.extra_before, ticks(1.0) as i128);
}

#[test]
fn a_trim_of_nothing_is_refused() {
    let error = plan_trim("out.mp4", 30, 20, &[0, 20, 40]).unwrap_err();
    assert_eq!(error, InvalidRange { actual_start: 20, actual_end: 20, duration: 0 });
    assert!(plan_trim("out.mp4", 30, 21, &[0, 20, 40]).is_ok());
    assert!(plan_trim("out.mp4", 30, -1, &[]).is_err());
}

#[test]
fn temporary_files_have_random_names() {
    assert_eq!(
        temp_file_name("67e55044-10b1-426f-9247-bb680e5fe0c8"),
        ".clipsta_trim_67e5504410b1426f9247bb680e5fe0c8.mp4"
    );
    let name = new_temp_file_name();
    let digits = name.strip_prefix(".clipsta_trim_").unwrap().strip_suffix(".mp4").unwrap();
    assert_eq!(digits.len(), 32);
    assert!(digits.chars().all(|c| c.is_ascii_digit() || ('a'..='f').contains(&c)));
    assert_eq!(digits.as_bytes()[12], b'4');
    assert_ne!(name, new_temp_file_name());
}

fn sample(stream: u32, timestamp: i64) -> StreamRead {
    StreamRead::Read { stream, flags: 0, timestamp, sample: true }
}

#[test]
fn samples_are_copied_from_the_range() {
    assert_eq!(next_copy_step(sample(0, 100), 100, 200, true), CopyStep::Video(0));
    assert_eq!(next_copy_step(sample(0xFFFF_FFFC, 150), 100, 200, true), CopyStep::Video(50));
    assert_eq!(next_copy_step(sample(1, 200), 100, 200, true), CopyStep::Audio(100));
    assert_eq!(next_copy_step(sample(1, 150), 100, 200, false), CopyStep::Skip);
    assert_eq!(next_copy_step(sample(0, 99), 100, 200, true), CopyStep::Skip);
    assert_eq!(next_copy_step(sample(0, 201), 100, 200, true), CopyStep::Stop);
    assert_eq!(next_copy_step(StreamRead::Failed, 100, 200, true), CopyStep::Stop);
    let end = StreamRead::Read { stream: 0, flags: 2, timestamp: 150, sample: false };
    assert_eq!(next_copy_step(end, 100, 200, true), CopyStep::Stop);
    let gap = StreamRead::Read { stream: 0, flags: 0, timestamp: 150, sample: false };
    assert_eq!(next_copy_step(gap, 100, 200, true), CopyStep::Skip);
    // Times that are not counted from the start may be any.
    assert!(is_countable(sample(0, i64::MIN), 100, 200));
    assert_eq!(next_copy_step(sample(0, i64::MIN), 100, 200, true), CopyStep::Skip);
    assert!(is_countable(sample(0, i64::MAX), -100, 200));
    assert_eq!(next_copy_step(sample(0, i64::MAX), -100, 200, true), CopyStep::Stop);
    let last = StreamRead::Read { stream: 0, flags: 2, timestamp: i64::MAX, sample: true };
    assert!(is_countable(last, -100, i64::MAX));
    assert_eq!(next_copy_step(last, -100, i64::MAX, true), CopyStep::Stop);
    assert!(!is_countable(sample(0, i64::MAX), -100, i64::MAX));
    assert!(is_countable(StreamRead::Failed, i64::MIN, i64::MAX));
    assert!(needs_seek(1));
    assert!(!needs_seek(0));
}

#[test]
fn the_output_is_replaced_only_by_a_complete_file() {
    assert!(matches!(after_copy(Ok(()), Some(5)), Finish::Move));
    match after_copy(Err("seek failed".to_string()), Some(5)) {
        Finish::Remove(text) => assert_eq!(text, "seek failed"),
        _ => panic!("the file is kept"),
    }
    match after_copy(Ok(()), Some(0)) {
        Finish::Remove(text) => {
            assert_eq!(text, "Media Foundation produced an empty output file")
        }
        _ => panic!("the file is kept"),
    }
    match after_copy(Ok(()), None) {
        Finish::Fail(text) => assert_eq!(text, "Temp file was not created"),
        _ => panic!("there is no file"),
    }
}

#[test]
fn a_file_that_cannot_be_moved_is_removed() {
    assert!(matches!(after_move(Ok(())), Finish::Done));
    match after_move(Err("access denied".to_string())) {
        Finish::Remove(text) => assert_eq!(text, "access denied"),
        _ => panic!("the file is kept"),
    }
}
