use clipsta::ring::{AudioChunk, EncodedFrame, EncodedMediaRing, TICKS_PER_SECOND};

fn frame(seconds: i64, key: bool) -> EncodedFrame {
    EncodedFrame {
        data: vec![seconds as u8],
        pts_100ns: seconds * TICKS_PER_SECOND,
        duration_100ns: TICKS_PER_SECOND,
        is_keyframe: key,
    }
}

fn chunk(seconds: i64) -> AudioChunk<i16> {
    AudioChunk {
        data: vec![seconds as i16],
        pts_100ns: seconds * TICKS_PER_SECOND,
        duration_100ns: TICKS_PER_SECOND,
    }
}

fn filled(max_seconds: u32, seconds: i64, every: i64) -> EncodedMediaRing<i16> {
    let mut ring = EncodedMediaRing::new(max_seconds);
    for s in 0..seconds {
        ring.push_video(frame(s, s % every == 0));
    }
    ring
}

#[test]
fn an_empty_ring_has_no_clip() {
    let ring: EncodedMediaRing<i16> = EncodedMediaRing::new(10);
    assert_eq!(ring.find_slice_start(5), None);
    assert_eq!(ring.newest_pts(), 0);
    assert_eq!(ring.oldest_pts(), 0);
    assert_eq!(ring.duration_100ns(), 0);
    assert_eq!(ring.frames_pushed(), 0);
    assert!(ring.slice_video(0).is_empty());
}

#[test]
fn old_frames_are_dropped() {
    let ring = filled(10, 30, 2);
    assert_eq!(ring.newest_pts(), 29 * TICKS_PER_SECOND);
    assert_eq!(ring.oldest_pts(), 19 * TICKS_PER_SECOND);
    assert_eq!(ring.duration_100ns(), 10 * TICKS_PER_SECOND as i128);
    assert_eq!(ring.frames_pushed(), 30);
    assert_eq!(ring.slice_video(0).len(), 11);
}

#[test]
fn two_frames_are_always_kept() {
    let mut ring: EncodedMediaRing<i16> = EncodedMediaRing::new(1);
    ring.push_video(frame(0, true));
    ring.push_video(frame(100, false));
    assert_eq!(ring.slice_video(0).len(), 2);
    ring.push_video(frame(200, false));
    assert_eq!(ring.slice_video(0).len(), 2);
    assert_eq!(ring.oldest_pts(), 100 * TICKS_PER_SECOND);
}

#[test]
fn a_clip_starts_at_the_keyframe_before_its_time() {
    let ring = filled(60, 31, 4);
    // The newest frame is at 30 s, the keyframes are at 0, 4, .. 28 s.
    assert_eq!(ring.find_slice_start(10), Some(20));
    assert_eq!(ring.find_slice_start(9), Some(20));
    assert_eq!(ring.find_slice_start(2), Some(28));
    assert_eq!(ring.find_slice_start(0), Some(28));
    let video = ring.slice_video(20);
    assert_eq!(video.len(), 11);
    assert!(video[0].is_keyframe);
    assert_eq!(video[0].data, vec![20]);
}

#[test]
fn a_clip_that_is_too_long_starts_at_the_earliest_keyframe() {
    let mut ring: EncodedMediaRing<i16> = EncodedMediaRing::new(60);
    for s in 0..10 {
        ring.push_video(frame(s, s == 3 || s == 6));
    }
    assert_eq!(ring.find_slice_start(100), Some(3));
    assert_eq!(ring.find_slice_start(6), Some(3));
    assert_eq!(ring.find_slice_start(3), Some(6));
}

#[test]
fn without_keyframes_there_is_no_clip() {
    let mut ring: EncodedMediaRing<i16> = EncodedMediaRing::new(60);
    for s in 0..10 {
        ring.push_video(frame(s, false));
    }
    assert_eq!(ring.find_slice_start(5), None);
}

#[test]
fn keyframes_are_found_after_frames_were_dropped() {
    let ring = filled(10, 100, 3);
    // Frames from 89 s to 99 s are left; the keyframes are at 90, 93, 96, 99 s.
    assert_eq!(ring.find_slice_start(100), Some(1));
    assert_eq!(ring.find_slice_start(4), Some(4));
    assert_eq!(ring.slice_video(4)[0].data, vec![93]);
}

#[test]
fn audio_beside_a_clip_overlaps_it() {
    let mut ring = filled(60, 10, 1);
    for s in 0..10 {
        ring.push_audio(chunk(s));
    }
    let second = TICKS_PER_SECOND as i128;
    let audio = ring.slice_audio(3 * second, 5 * second);
    let found: Vec<i16> = audio.iter().map(|c| c.data[0]).collect();
    assert_eq!(found, vec![3, 4]);
    let audio = ring.slice_audio(3 * second - 1, 5 * second + 1);
    let found: Vec<i16> = audio.iter().map(|c| c.data[0]).collect();
    assert_eq!(found, vec![2, 3, 4, 5]);
}

#[test]
fn audio_that_has_ended_is_dropped_with_the_next_chunk() {
    let mut ring: EncodedMediaRing<i16> = EncodedMediaRing::new(10);
    ring.push_audio(chunk(0));
    ring.push_audio(chunk(1));
    for s in 5..8 {
        ring.push_video(frame(s, true));
    }
    let everything = |ring: &EncodedMediaRing<i16>| -> Vec<i16> {
        ring.slice_audio(i128::MIN, i128::MAX).iter().map(|c| c.data[0]).collect()
    };
    assert_eq!(everything(&ring), vec![0, 1]);
    ring.push_audio(chunk(4));
    assert_eq!(everything(&ring), vec![4]);
}

#[test]
fn extreme_times_do_not_overflow() {
    let mut ring: EncodedMediaRing<i16> = EncodedMediaRing::new(u32::MAX);
    for pts in [i64::MIN, 0, i64::MAX] {
        ring.push_video(EncodedFrame {
            data: vec![],
            pts_100ns: pts,
            duration_100ns: i64::MAX,
            is_keyframe: true,
        });
    }
    assert_eq!(ring.newest_pts(), i64::MAX);
    assert_eq!(ring.find_slice_start(u32::MAX), Some(0));
}

#[test]
fn a_clip_is_as_long_as_asked_for_and_a_keyframe() {
    // A keyframe every two seconds, for longer than the ring keeps.
    let ring = filled(20, 200, 2);
    for seconds in 0..18u32 {
        let start = ring.find_slice_start(seconds).unwrap();
        let video = ring.slice_video(start);
        let length = video[video.len() - 1].pts_100ns - video[0].pts_100ns;
        let asked = seconds as i64 * TICKS_PER_SECOND;
        assert!(asked <= length && length <= asked + 2 * TICKS_PER_SECOND);
    }
}
