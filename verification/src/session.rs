//! A capture session: what it records into, and how clips are saved from it.
//!
//! The work of a session (capturing, writing files) is done outside. Here is
//! what a session allows, and what it remembers. A save has two parts: first
//! [`CaptureSession::save_clip`] cuts the clip and takes the save guard, then,
//! once the clip was written, [`CaptureSession::finish_save`] gives the guard
//! back and files the clip.
use vstd::prelude::*;

use crate::recording::{CaptureOptions, CaptureReadyInfo};
use crate::ring::{
    chunks, clip_starts_at_a_keyframe, frames, in_order, nothing_is_dropped_early, overlaps,
    pushed_in_turn, retained, retained_is_the_longest_end_that_fits, slice_start, AudioChunk,
    Chunk, EncodedFrame, EncodedMediaRing, Frame, Media, TICKS_PER_SECOND,
};
use crate::text::{contains_text, has_text, parts_stand_between_texts, stands_at};

verus! {

/// How many seconds a session keeps at least. A shorter buffer in the settings is
/// made this long; one of this length or longer is honoured.
pub const MAX_RING_SECONDS: u32 = 120;

/// The frame rate of a session that was not started yet.
pub const DEFAULT_FPS: u32 = 60;

/// A clip that was saved. Times are in units of 100 ns.
#[derive(Debug, Clone)]
pub struct CompletedSegment {
    pub path: String,
    pub index: u32,
    pub start_pts: i128,
    pub end_pts: i128,
    pub duration: i128,
}

/// What a [`CompletedSegment`] says.
#[verifier::ext_equal]
pub struct Segment {
    pub path: Seq<char>,
    pub index: int,
    pub start: int,
    pub end: int,
    pub duration: int,
}

impl View for CompletedSegment {
    type V = Segment;

    open spec fn view(&self) -> Segment {
        Segment {
            path: self.path@,
            index: self.index as int,
            start: self.start_pts as int,
            end: self.end_pts as int,
            duration: self.duration as int,
        }
    }
}

impl CompletedSegment {
    /// A copy of the segment.
    pub fn copy(&self) -> (segment: CompletedSegment)
        ensures
            segment@ == self@,
    {
        CompletedSegment {
            path: self.path.clone(),
            index: self.index,
            start_pts: self.start_pts,
            end_pts: self.end_pts,
            duration: self.duration,
        }
    }
}

/// What a list of segments says.
pub open spec fn segments(list: Seq<CompletedSegment>) -> Seq<Segment> {
    list.map_values(|s: CompletedSegment| s@)
}

/// Copies of the segments in a list.
fn copy_segments(list: &Vec<CompletedSegment>) -> (copy: Vec<CompletedSegment>)
    ensures
        segments(copy@) == segments(list@),
{
    let mut copy: Vec<CompletedSegment> = Vec::new();
    let mut i: usize = 0;
    while i < list.len()
        invariant
            i <= list@.len(),
            segments(copy@) == segments(list@).take(i as int),
        decreases list@.len() - i,
    {
        let ghost before = copy@;
        copy.push(list[i].copy());
        assert(segments(copy@) =~= segments(before).push(list@[i as int]@));
        i += 1;
        assert(segments(list@).take(i as int) =~= segments(list@).take(i - 1).push(
            list@[i - 1]@,
        ));
    }
    assert(segments(list@).take(list@.len() as int) =~= segments(list@));
    copy
}

/// A clip that was cut out of the replay buffer.
pub struct Clip<S> {
    pub video: Vec<EncodedFrame>,
    pub audio: Vec<AudioChunk<S>>,
    pub fps: u32,
}

/// The frames of a clip of the last `seconds` seconds.
pub open spec fn clip_video(video: Seq<Frame>, seconds: int) -> Option<Seq<Frame>> {
    match slice_start(video, seconds) {
        Some(i) => Some(video.skip(i)),
        None => None,
    }
}

/// When the last frame of a clip ends.
pub open spec fn clip_end(video: Seq<Frame>) -> int {
    video.last().pts + video.last().duration
}

/// The audio beside the frames of a clip.
pub open spec fn clip_audio<S>(audio: Seq<Chunk<S>>, video: Seq<Frame>) -> Seq<Chunk<S>> {
    audio.filter(|c: Chunk<S>| overlaps(c, video.first().pts, clip_end(video)))
}

/// A clip starts at a keyframe and ends with the newest frame.
pub proof fn clips_end_with_the_newest_frame(video: Seq<Frame>, seconds: int)
    ensures
        clip_video(video, seconds) is Some <==> exists|j: int|
            0 <= j < video.len() && (#[trigger] video[j]).key,
        clip_video(video, seconds) matches Some(clip) ==> {
            &&& clip.len() > 0
            &&& clip.first().key
            &&& clip.last() == video.last()
        },
{
    clip_starts_at_a_keyframe(video, seconds);
}

/// Where the buffer holds a keyframe that is old enough, a clip of `seconds`
/// seconds starts at least `seconds` before the newest frame.
pub proof fn clips_are_long_enough(video: Seq<Frame>, seconds: int, key: int)
    requires
        0 <= key < video.len(),
        video[key].key,
        video.last().pts - video[key].pts >= seconds * TICKS_PER_SECOND,
    ensures
        clip_video(video, seconds) matches Some(clip) && clip.last().pts - clip.first().pts
            >= seconds * TICKS_PER_SECOND,
{
    clip_starts_at_a_keyframe(video, seconds);
}

/// A clip covers what was asked for, and no more than that and the distance to a
/// keyframe: where frames were pushed in order of time, and a keyframe among
/// them lies at most `gap` before the time that is `seconds` before the newest
/// one, and the buffer is long enough for both, the clip is between `seconds`
/// and `seconds` and `gap` long.
pub proof fn clips_cover_what_was_asked_for(
    history: Seq<Frame>,
    max_duration: int,
    seconds: int,
    gap: int,
    key: int,
)
    requires
        in_order(history),
        0 <= key < history.len(),
        history[key].key,
        seconds * TICKS_PER_SECOND <= history.last().pts - history[key].pts <= seconds
            * TICKS_PER_SECOND + gap,
        seconds * TICKS_PER_SECOND + gap <= max_duration,
    ensures
        clip_video(pushed_in_turn(history, max_duration), seconds) matches Some(clip) && {
            &&& clip.first().key
            &&& clip.last() == history.last()
            &&& seconds * TICKS_PER_SECOND <= clip.last().pts - clip.first().pts <= seconds
                * TICKS_PER_SECOND + gap
        },
{
    nothing_is_dropped_early(history, max_duration);
    retained_is_the_longest_end_that_fits(history, max_duration);
    let kept = retained(history, max_duration);
    let dropped = history.len() - kept.len();
    if key < dropped {
        assert(history.last().pts - history[key].pts > max_duration);
    }
    let at = key - dropped;
    assert(kept[at] == history[key]);
    assert(kept.last() == history.last());
    clip_starts_at_a_keyframe(kept, seconds);
    let start = slice_start(kept, seconds)->0;
    assert(start >= at);
    assert(kept[start] == history[dropped + start]);
    assert(history[key].pts <= history[dropped + start].pts);
}

/// The entry for a clip with the given frames.
pub open spec fn segment_of(video: Seq<Frame>, path: Seq<char>, index: int) -> Segment {
    Segment {
        path,
        index,
        start: video.first().pts,
        end: clip_end(video),
        duration: clip_end(video) - video.first().pts,
    }
}

/// What a session has filed: the clips that were saved since it was last
/// started or cleaned up, and the number of the next one.
#[verifier::ext_equal]
pub struct Filed {
    pub clips: Seq<Segment>,
    pub next: int,
}

/// What happens to the clips of a session.
pub enum FilingEvent {
    /// The session is started, or cleaned up.
    Cleared,
    /// A clip with these frames was saved at this path.
    Saved { video: Seq<Frame>, path: Seq<char> },
    /// A clip was not saved.
    NotSaved,
}

/// What a new session has filed.
pub open spec fn nothing_filed() -> Filed {
    Filed { clips: Seq::empty(), next: 0 }
}

/// What a session has filed after an event. Numbers start anew after 2^32.
pub open spec fn filed_after(filed: Filed, event: FilingEvent) -> Filed {
    match event {
        FilingEvent::Cleared => Filed { clips: Seq::empty(), ..filed },
        FilingEvent::Saved { video, path } => Filed {
            clips: filed.clips.push(segment_of(video, path, filed.next)),
            next: (filed.next + 1) % 0x1_0000_0000,
        },
        FilingEvent::NotSaved => filed,
    }
}

/// What a session has filed after all that happened to it.
pub open spec fn filed_by(history: Seq<FilingEvent>) -> Filed
    decreases history.len(),
{
    if history.len() == 0 {
        nothing_filed()
    } else {
        filed_after(filed_by(history.drop_last()), history.last())
    }
}

/// How many clips were saved.
pub open spec fn saves(history: Seq<FilingEvent>) -> nat
    decreases history.len(),
{
    if history.len() == 0 {
        0
    } else if history.last() is Saved {
        saves(history.drop_last()) + 1
    } else {
        saves(history.drop_last())
    }
}

proof fn lemma_numbers_count_the_saves(history: Seq<FilingEvent>)
    ensures
        filed_by(history).next == saves(history) as int % 0x1_0000_0000,
    decreases history.len(),
{
    if history.len() > 0 {
        lemma_numbers_count_the_saves(history.drop_last());
    }
}

/// The number of a saved clip is the count of the clips that were saved before
/// on the same session, whatever else happened to it; it starts anew after 2^32
/// clips. The clip is filed behind those that were filed before. A clip that was
/// not saved leaves the clips and the next number as they were.
pub proof fn clips_are_numbered_by_the_saves_before(
    history: Seq<FilingEvent>,
    video: Seq<Frame>,
    path: Seq<char>,
)
    ensures
        filed_by(history.push(FilingEvent::Saved { video, path })).clips == filed_by(
            history,
        ).clips.push(segment_of(video, path, saves(history) as int % 0x1_0000_0000)),
        saves(history) < 0x1_0000_0000 ==> filed_by(
            history.push(FilingEvent::Saved { video, path }),
        ).clips.last().index == saves(history),
        filed_by(history.push(FilingEvent::NotSaved)) == filed_by(history),
        filed_by(history).next == saves(history) as int % 0x1_0000_0000,
{
    lemma_numbers_count_the_saves(history);
    assert(history.push(FilingEvent::Saved { video, path }).drop_last() =~= history);
    assert(history.push(FilingEvent::NotSaved).drop_last() =~= history);
}

/// Why a capture cannot be started.
#[derive(Debug, Clone, Copy, PartialEq, Eq, Structural)]
pub enum StartError {
    AlreadyRecording,
    SaveInProgress,
}

impl StartError {
    /// What the error says.
    pub open spec fn says(self) -> Seq<char> {
        match self {
            StartError::AlreadyRecording => "Already recording"@,
            StartError::SaveInProgress => "Save in progress"@,
        }
    }

    /// What the error says.
    pub fn message(&self) -> (text: String)
        ensures
            text@ == self.says(),
    {
        match self {
            StartError::AlreadyRecording => "Already recording".to_owned(),
            StartError::SaveInProgress => "Save in progress".to_owned(),
        }
    }
}

/// Why a clip was not saved.
#[derive(Debug, Clone)]
pub enum SaveError {
    /// Another clip is being written.
    SaveInProgress,
    /// Nothing is being recorded.
    NotRecording,
    /// The buffer holds no keyframe yet.
    NoKeyframe,
    /// The clip could not be written.
    Failed(String),
}

impl SaveError {
    /// What the error says.
    pub open spec fn says(self) -> Seq<char> {
        match self {
            SaveError::SaveInProgress => "Another save is in progress"@,
            SaveError::NotRecording => "Not recording \u{2014} cannot save clip"@,
            SaveError::NoKeyframe => "No keyframe found in ring buffer"@,
            SaveError::Failed(reason) => reason@,
        }
    }

    /// What the error says.
    pub fn message(self) -> (text: String)
        ensures
            text@ == self.says(),
    {
        match self {
            SaveError::SaveInProgress => "Another save is in progress".to_owned(),
            SaveError::NotRecording => "Not recording \u{2014} cannot save clip".to_owned(),
            SaveError::NoKeyframe => "No keyframe found in ring buffer".to_owned(),
            SaveError::Failed(reason) => reason,
        }
    }

    /// Whether an error only says that there is nothing to save yet.
    pub open spec fn is_too_early(self) -> bool {
        contains_text(self.says(), "Not enough"@) || contains_text(self.says(), "No keyframe"@)
    }
}

/// A capture session with audio samples of type `S`.
pub struct CaptureSession<S> {
    pub is_recording: bool,
    /// The save guard: whether a clip is being written.
    pub is_saving: bool,
    pub stop_flag: bool,
    /// The clips that were saved.
    pub saved_clips: Vec<CompletedSegment>,
    pub segment_dir: Option<String>,
    /// When the recording started, by a clock of the caller.
    pub recording_start: Option<u64>,
    pub audio_file: Option<String>,
    /// The replay buffer.
    pub ring: EncodedMediaRing<S>,
    pub session_fps: u32,
    /// The number of the next clip.
    pub clip_counter: u32,
}

/// An empty buffer for so many seconds.
pub open spec fn empty_media<S>(seconds: int) -> Media<S> {
    Media {
        video: Seq::empty(),
        audio: Seq::empty(),
        pushed: 0,
        max_duration: seconds * TICKS_PER_SECOND,
    }
}

/// How many seconds a session keeps.
pub open spec fn ring_seconds(buffer_duration: u32) -> u32 {
    if buffer_duration < MAX_RING_SECONDS {
        MAX_RING_SECONDS
    } else {
        buffer_duration
    }
}

impl<S> CaptureSession<S> {
    /// The replay buffer is sound.
    pub open spec fn wf(&self) -> bool {
        self.ring.wf()
    }

    /// What the session has filed.
    pub open spec fn filed(&self) -> Filed {
        Filed { clips: segments(self.saved_clips@), next: self.clip_counter as int }
    }

    /// A session that does not record.
    pub fn new() -> (session: Self)
        ensures
            session.wf(),
            !session.is_recording,
            !session.is_saving,
            !session.stop_flag,
            session.saved_clips@.len() == 0,
            session.segment_dir is None,
            session.recording_start is None,
            session.audio_file is None,
            session.ring@ == empty_media::<S>(MAX_RING_SECONDS as int),
            session.session_fps == DEFAULT_FPS,
            session.clip_counter == 0,
            session.filed() == nothing_filed(),
    {
        CaptureSession {
            is_recording: false,
            is_saving: false,
            stop_flag: false,
            saved_clips: Vec::new(),
            segment_dir: None,
            recording_start: None,
            audio_file: None,
            ring: EncodedMediaRing::new(MAX_RING_SECONDS),
            session_fps: DEFAULT_FPS,
            clip_counter: 0,
        }
    }

    /// Gets ready to record: forgets the saved clips and empties the buffer.
    /// The recording begins with [`CaptureSession::started`].
    pub fn start(&mut self, opts: &CaptureOptions) -> (ready: Result<(), StartError>)
        requires
            old(self).wf(),
        ensures
            final(self).wf(),
            ready is Ok <==> !old(self).is_recording && !old(self).is_saving,
            ready matches Err(e) ==> *final(self) == *old(self) && e == if old(self).is_recording {
                StartError::AlreadyRecording
            } else {
                StartError::SaveInProgress
            },
            ready is Ok ==> {
                &&& !final(self).stop_flag
                &&& final(self).saved_clips@.len() == 0
                &&& final(self).filed() == filed_after(old(self).filed(), FilingEvent::Cleared)
                &&& final(self).segment_dir.deep_view() == Some(opts.segment_dir@)
                &&& final(self).session_fps == opts.fps
                &&& final(self).ring@ == empty_media::<S>(
                    ring_seconds(opts.buffer_duration) as int,
                )
                &&& !final(self).is_recording
                &&& !final(self).is_saving
                &&& final(self).recording_start == old(self).recording_start
                &&& final(self).audio_file == old(self).audio_file
                &&& final(self).clip_counter == old(self).clip_counter
            },
    {
        if self.is_recording {
            return Err(StartError::AlreadyRecording);
        }
        if self.is_saving {
            return Err(StartError::SaveInProgress);
        }
        self.stop_flag = false;
        self.saved_clips = Vec::new();
        self.segment_dir = Some(opts.segment_dir.clone());
        self.session_fps = opts.fps;
        let seconds: u32 = if opts.buffer_duration < MAX_RING_SECONDS {
            MAX_RING_SECONDS
        } else {
            opts.buffer_duration
        };
        self.ring = EncodedMediaRing::new(seconds);
        Ok(())
    }

    /// Begins the recording once the pipeline has reported that it is ready, at
    /// the time `now`. A pipeline that failed changes nothing.
    pub fn started(&mut self, ready: Result<CaptureReadyInfo, String>, now: u64) -> (info: Result<
        CaptureReadyInfo,
        String,
    >)
        ensures
            info == ready,
            ready is Err ==> *final(self) == *old(self),
            ready is Ok ==> *final(self) == (CaptureSession {
                is_recording: true,
                recording_start: Some(now),
                audio_file: None,
                ..*old(self)
            }),
    {
        if ready.is_ok() {
            self.is_recording = true;
            self.recording_start = Some(now);
            self.audio_file = None;
        }
        ready
    }

    /// Notes that the pipeline has ended.
    pub fn ended(&mut self)
        ensures
            *final(self) == (CaptureSession { is_recording: false, ..*old(self) }),
    {
        self.is_recording = false;
    }

    /// Asks the pipeline to end.
    pub fn stop(&mut self)
        ensures
            *final(self) == (CaptureSession {
                stop_flag: true,
                is_recording: false,
                ..*old(self)
            }),
    {
        self.stop_flag = true;
        self.is_recording = false;
    }

    /// The clips that were saved.
    pub fn get_segments(&self) -> (list: Vec<CompletedSegment>)
        ensures
            segments(list@) == segments(self.saved_clips@),
    {
        copy_segments(&self.saved_clips)
    }

    /// Completes what is pending at the end of a recording: nothing, since the
    /// buffer always holds the latest frames.
    pub fn finalize_pending_segments(&mut self)
        ensures
            *final(self) == *old(self),
    {
    }

    /// The directory of the recording.
    pub fn get_segment_dir(&self) -> (dir: Option<String>)
        ensures
            dir.deep_view() == self.segment_dir.deep_view(),
    {
        self.segment_dir.clone()
    }

    /// Forgets the saved clips and the buffer. The directory that is returned
    /// is no longer needed.
    pub fn cleanup(&mut self) -> (dir: Option<String>)
        ensures
            final(self).wf(),
            dir == old(self).segment_dir,
            final(self).segment_dir is None,
            final(self).saved_clips@.len() == 0,
            final(self).filed() == filed_after(old(self).filed(), FilingEvent::Cleared),
            final(self).ring@ == empty_media::<S>(MAX_RING_SECONDS as int),
            *final(self) == (CaptureSession {
                segment_dir: final(self).segment_dir,
                saved_clips: final(self).saved_clips,
                ring: final(self).ring,
                ..*old(self)
            }),
    {
        let dir = self.segment_dir.take();
        self.saved_clips = Vec::new();
        self.ring = EncodedMediaRing::new(MAX_RING_SECONDS);
        dir
    }

    /// The file that audio is recorded into.
    pub fn get_audio_file(&self) -> (file: Option<String>)
        ensures
            file.deep_view() == self.audio_file.deep_view(),
    {
        self.audio_file.clone()
    }

    /// The time since the recording started, at the time `now`. A clock that
    /// went back gives 0.
    pub fn elapsed(&self, now: u64) -> (elapsed: Option<u64>)
        ensures
            elapsed == match self.recording_start {
                Some(start) => Some(
                    if now < start {
                        0
                    } else {
                        (now - start) as u64
                    },
                ),
                None => None,
            },
    {
        match self.recording_start {
            Some(start) => Some(now.saturating_sub(start)),
            None => None,
        }
    }

    /// Files a clip that was cut, once writing it has succeeded or failed, and
    /// gives the save guard back.
    pub fn finish_save(&mut self, clip: &Clip<S>, output_path: &str, written: Result<(), String>)
        -> (path: Result<String, SaveError>)
        requires
            clip.video@.len() > 0,
        ensures
            !final(self).is_saving,
            match written {
                Ok(_) => {
                    &&& path matches Ok(p) && p@ == output_path@
                    &&& segments(final(self).saved_clips@) == segments(
                        old(self).saved_clips@,
                    ).push(
                        segment_of(
                            frames(clip.video@),
                            output_path@,
                            old(self).clip_counter as int,
                        ),
                    )
                    &&& final(self).clip_counter == if old(self).clip_counter == u32::MAX {
                        0
                    } else {
                        old(self).clip_counter + 1
                    }
                },
                Err(reason) => {
                    &&& path == Err::<String, SaveError>(SaveError::Failed(reason))
                    &&& final(self).saved_clips == old(self).saved_clips
                    &&& final(self).clip_counter == old(self).clip_counter
                },
            },
            final(self).filed() == filed_after(
                old(self).filed(),
                match written {
                    Ok(_) => FilingEvent::Saved { video: frames(clip.video@), path: output_path@ },
                    Err(_) => FilingEvent::NotSaved,
                },
            ),
            *final(self) == (CaptureSession {
                is_saving: false,
                saved_clips: final(self).saved_clips,
                clip_counter: final(self).clip_counter,
                ..*old(self)
            }),
    {
        self.is_saving = false;
        match written {
            Err(reason) => Err(SaveError::Failed(reason)),
            Ok(_) => {
                let first = &clip.video[0];
                let last = &clip.video[clip.video.len() - 1];
                let ghost video = frames(clip.video@);
                assert(video.first() == first@);
                assert(video.last() == last@);
                let start: i128 = first.pts_100ns as i128;
                let end: i128 = last.pts_100ns as i128 + last.duration_100ns as i128;
                let ghost before = self.saved_clips@;
                self.saved_clips.push(
                    CompletedSegment {
                        path: output_path.to_owned(),
                        index: self.clip_counter,
                        start_pts: start,
                        end_pts: end,
                        duration: end - start,
                    },
                );
                assert(segments(self.saved_clips@) =~= segments(before).push(
                    segment_of(video, output_path@, self.clip_counter as int),
                ));
                self.clip_counter = if self.clip_counter == u32::MAX {
                    0
                } else {
                    self.clip_counter + 1
                };
                Ok(output_path.to_owned())
            },
        }
    }
}

impl<S> Default for CaptureSession<S> {
    /// A session that does not record.
    fn default() -> (session: Self)
        ensures
            session.wf(),
            !session.is_recording,
            !session.is_saving,
            !session.stop_flag,
            session.saved_clips@.len() == 0,
            session.segment_dir is None,
            session.recording_start is None,
            session.audio_file is None,
            session.ring@ == empty_media::<S>(MAX_RING_SECONDS as int),
            session.session_fps == DEFAULT_FPS,
            session.clip_counter == 0,
            session.filed() == nothing_filed(),
    {
        Self::new()
    }
}

impl<S: Copy> CaptureSession<S> {
    /// Cuts a clip of the last `seconds` seconds out of the buffer and takes
    /// the save guard. It is refused where nothing is recorded, else where there
    /// is no keyframe, else where another clip is being written.
    pub fn save_clip(&mut self, seconds: u32) -> (clip: Result<Clip<S>, SaveError>)
        requires
            old(self).wf(),
        ensures
            final(self).wf(),
            clip is Ok <==> old(self).is_recording && clip_video(
                old(self).ring@.video,
                seconds as int,
            ) is Some && !old(self).is_saving,
            match clip {
                Ok(clip) => {
                    let video = clip_video(old(self).ring@.video, seconds as int)->0;
                    &&& clip.video@.len() > 0
                    &&& frames(clip.video@) == video
                    &&& chunks(clip.audio@) == clip_audio(old(self).ring@.audio, video)
                    &&& clip.video@[0].is_keyframe
                    &&& frames(clip.video@).last() == old(self).ring@.video.last()
                    &&& forall|c: Chunk<S>| #[trigger]
                        chunks(clip.audio@).contains(c) <==> old(self).ring@.audio.contains(c)
                            && c.pts + c.duration > clip.video@[0].pts_100ns && c.pts
                            < clip.video@[clip.video@.len() - 1].pts_100ns
                            + clip.video@[clip.video@.len() - 1].duration_100ns
                    &&& clip.fps == old(self).session_fps
                    &&& *final(self) == (CaptureSession { is_saving: true, ..*old(self) })
                },
                Err(e) => {
                    &&& *final(self) == *old(self)
                    &&& e == if !old(self).is_recording {
                        SaveError::NotRecording
                    } else if clip_video(old(self).ring@.video, seconds as int) is None {
                        SaveError::NoKeyframe
                    } else {
                        SaveError::SaveInProgress
                    }
                },
            },
    {
        if !self.is_recording {
            return Err(SaveError::NotRecording);
        }
        let start: usize = match self.ring.find_slice_start(seconds) {
            Some(start) => start,
            None => {
                return Err(SaveError::NoKeyframe);
            },
        };
        if self.is_saving {
            return Err(SaveError::SaveInProgress);
        }
        proof {
            clip_starts_at_a_keyframe(self.ring@.video, seconds as int);
        }
        let video = self.ring.slice_video(start);
        let ghost cut = frames(video@);
        assert(cut == self.ring@.video.skip(start as int));
        assert(cut.len() > 0);
        let first = &video[0];
        let last = &video[video.len() - 1];
        assert(cut.first() == first@);
        assert(cut.last() == last@);
        let start_pts: i128 = first.pts_100ns as i128;
        let end_pts: i128 = last.pts_100ns as i128 + last.duration_100ns as i128;
        let audio = self.ring.slice_audio(start_pts, end_pts);
        assert(chunks(audio@) == clip_audio(self.ring@.audio, cut)) by {
            assert((|c: Chunk<S>| overlaps(c, start_pts as int, end_pts as int)) =~= (|c: Chunk<S>|
                overlaps(c, cut.first().pts, clip_end(cut))));
        }
        assert forall|c: Chunk<S>| #[trigger]
            chunks(audio@).contains(c) <==> self.ring@.audio.contains(c) && c.pts + c.duration
                > cut[0].pts && c.pts < cut[cut.len() - 1].pts + cut[cut.len() - 1].duration by {
            lemma_audio_beside(self.ring@.audio, cut, c);
        }
        self.is_saving = true;
        Ok(Clip { video, audio, fps: self.session_fps })
    }
}

/// What is replied to a request to record that has failed.
pub fn start_failure(reason: &str) -> (text: String)
    ensures
        text@ == "Capture start failed: "@ + reason@,
{
    let mut text = "Capture start failed: ".to_owned();
    text.append(reason);
    text
}

/// What is replied at once to a request to save a clip, before anything is cut:
/// an error while another clip is being written, else `None` in place of a path
/// where nothing is recorded. `None` where the clip can be tried.
pub fn early_clip_reply(is_saving: bool, is_recording: bool) -> (reply: Option<
    Result<Option<String>, String>,
>)
    ensures
        match reply {
            Some(Err(text)) => is_saving && text@ == "Another save is in progress"@,
            Some(Ok(path)) => !is_saving && !is_recording && path is None,
            None => !is_saving && is_recording,
        },
{
    if is_saving {
        Some(Err("Another save is in progress".to_owned()))
    } else if !is_recording {
        Some(Ok(None))
    } else {
        None
    }
}

/// What is replied to a request to save, once the save was tried. Where nothing
/// can be cut yet, the reply is `None`.
pub fn clip_reply(saved: Result<String, SaveError>) -> (reply: Result<Option<String>, String>)
    ensures
        match saved {
            Ok(path) => reply == Ok::<Option<String>, String>(Some(path)),
            Err(e) => if e.is_too_early() {
                reply == Ok::<Option<String>, String>(None)
            } else {
                reply matches Err(text) && text@ == e.says()
            },
        },
{
    match saved {
        Ok(path) => Ok(Some(path)),
        Err(e) => {
            let text = e.message();
            if has_text(text.as_str(), "Not enough") || has_text(text.as_str(), "No keyframe") {
                Ok(None)
            } else {
                Err(text)
            }
        },
    }
}

/// Whether a reply goes along with the sound of a saved clip, which the settings
/// can switch off.
pub fn plays_clip_sound(reply: &Result<Option<String>, String>, enabled: bool) -> (plays: bool)
    ensures
        plays == (enabled && (reply matches Ok(Some(_)))),
{
    match reply {
        Ok(Some(_)) => enabled,
        _ => false,
    }
}

/// A clip that cannot be cut for want of a keyframe is no error.
pub proof fn no_keyframe_is_too_early()
    ensures
        SaveError::NoKeyframe.is_too_early(),
{
    reveal_strlit("No keyframe found in ring buffer");
    reveal_strlit("No keyframe");
    let text = "No keyframe found in ring buffer"@;
    assert(text.subrange(0, 11) =~= "No keyframe"@);
    assert(crate::text::stands_at(text, "No keyframe"@, 0));
}

/// A clip is the end of the buffer from a keyframe on, with every frame in it.
///
/// It goes back at least as many seconds as were asked for wherever a keyframe lies
/// that far back, and then no later keyframe does; else it starts at the first
/// keyframe there is.
pub proof fn clips_start_at_the_right_keyframe(video: Seq<Frame>, seconds: int)
    ensures
        clip_video(video, seconds) is None <==> forall|j: int|
            0 <= j < video.len() ==> !(#[trigger] video[j]).key,
        clip_video(video, seconds) matches Some(clip) ==> {
            let start = video.len() - clip.len();
            let newest = video.last().pts;
            &&& 0 <= start < video.len()
            &&& clip == video.skip(start)
            &&& video[start].key
            &&& if newest - video[start].pts >= seconds * 10_000_000 {
                forall|j: int|
                    start < j < video.len() && (#[trigger] video[j]).key ==> newest - video[j].pts
                        < seconds * 10_000_000
            } else {
                &&& forall|j: int|
                    0 <= j < video.len() && (#[trigger] video[j]).key ==> newest - video[j].pts
                        < seconds * 10_000_000
                &&& forall|j: int| 0 <= j < start ==> !(#[trigger] video[j]).key
            }
        },
{
    clip_starts_at_a_keyframe(video, seconds);
    if clip_video(video, seconds) is Some {
        let start = slice_start(video, seconds)->0;
        assert(video.len() - video.skip(start).len() == start);
        let target = video.last().pts - seconds * TICKS_PER_SECOND;
        if video[start].pts > target {
            assert forall|j: int| 0 <= j < video.len() && (#[trigger] video[j]).key implies
                video[j].pts > target by {}
        }
    }
}

/// A clip has all the audio beside its frames, and no other: a chunk of the buffer
/// is in the clip if and only if a part of it lies between the time of the first
/// frame and the end of the last one.
pub proof fn clips_have_the_audio_beside_their_frames<S>(
    audio: Seq<Chunk<S>>,
    video: Seq<Frame>,
    seconds: int,
    chunk: Chunk<S>,
)
    requires
        clip_video(video, seconds) is Some,
    ensures
        ({
            let clip = clip_video(video, seconds)->0;
            let first = clip[0];
            let last = clip[clip.len() - 1];
            clip_audio(audio, clip).contains(chunk) <==> audio.contains(chunk) && chunk.pts
                + chunk.duration > first.pts && chunk.pts < last.pts + last.duration
        }),
{
    clips_start_at_the_right_keyframe(video, seconds);
    let clip = clip_video(video, seconds)->0;
    lemma_audio_beside(audio, clip, chunk);
}

proof fn lemma_audio_beside<S>(audio: Seq<Chunk<S>>, clip: Seq<Frame>, chunk: Chunk<S>)
    requires
        clip.len() > 0,
    ensures
        clip_audio(audio, clip).contains(chunk) <==> audio.contains(chunk) && chunk.pts
            + chunk.duration > clip[0].pts && chunk.pts < clip[clip.len() - 1].pts + clip[clip.len()
            - 1].duration,
{
    broadcast use {Seq::lemma_filter_pred, Seq::lemma_filter_contains};

    let wanted = |c: Chunk<S>| overlaps(c, clip.first().pts, clip_end(clip));
    let kept = audio.filter(wanted);
    if kept.contains(chunk) {
        let i = kept.index_of(chunk);
        assert(wanted(kept[i]));
        audio.lemma_filter_contains_rev(wanted, chunk);
    }
    if audio.contains(chunk) && overlaps(chunk, clip.first().pts, clip_end(clip)) {
        let i = audio.index_of(chunk);
        assert(wanted(audio[i]));
    }
}

/// The audio of a clip is in the order in which it came, each chunk as often as it
/// came: the audio beside the frames of two runs of chunks is that of the first and
/// then that of the second, and of a single chunk it is that chunk or nothing.
pub proof fn clip_audio_keeps_its_order<S>(
    a: Seq<Chunk<S>>,
    b: Seq<Chunk<S>>,
    chunk: Chunk<S>,
    clip: Seq<Frame>,
)
    requires
        clip.len() > 0,
    ensures
        clip_audio(a + b, clip) == clip_audio(a, clip) + clip_audio(b, clip),
        clip_audio(seq![chunk], clip) == if chunk.pts + chunk.duration > clip[0].pts && chunk.pts
            < clip[clip.len() - 1].pts + clip[clip.len() - 1].duration {
            seq![chunk]
        } else {
            Seq::empty()
        },
{
    let wanted = |c: Chunk<S>| overlaps(c, clip.first().pts, clip_end(clip));
    Seq::filter_distributes_over_add(a, b, wanted);
    reveal(Seq::filter);
    let one = seq![chunk];
    assert(one.drop_last() =~= Seq::empty());
    assert(one.drop_last().filter(wanted) =~= Seq::empty());
    assert(one.last() == chunk);
}

/// The entry of a clip tells when its first frame is presented and when its last
/// one ends, and how long it is from the one to the other.
pub proof fn entries_tell_when_a_clip_was(video: Seq<Frame>, path: Seq<char>, index: int)
    requires
        video.len() > 0,
    ensures
        ({
            let entry = segment_of(video, path, index);
            &&& entry.path == path
            &&& entry.index == index
            &&& entry.start == video[0].pts
            &&& entry.end == video[video.len() - 1].pts + video[video.len() - 1].duration
            &&& entry.start + entry.duration == entry.end
        }),
{
}

/// A list of entries says what its entries say.
pub proof fn lists_say_what_their_entries_say(list: Seq<CompletedSegment>, i: int)
    requires
        0 <= i < list.len(),
    ensures
        segments(list).len() == list.len(),
        segments(list)[i].path == list[i].path@,
        segments(list)[i].index == list[i].index,
        segments(list)[i].start == list[i].start_pts,
        segments(list)[i].end == list[i].end_pts,
        segments(list)[i].duration == list[i].duration,
{
}

/// The buffer is never shorter than was asked for, nor than two minutes, and it is
/// one of the two.
pub proof fn buffers_are_long_enough(buffer_duration: u32)
    ensures
        ring_seconds(buffer_duration) >= buffer_duration,
        ring_seconds(buffer_duration) >= 120,
        ring_seconds(buffer_duration) == buffer_duration || ring_seconds(buffer_duration) == 120,
        forall|seconds: int| (#[trigger] empty_media::<u8>(seconds)).max_duration == seconds
            * 10_000_000,
        forall|seconds: int| (#[trigger] empty_media::<u8>(seconds)).video.len() == 0,
        forall|seconds: int| (#[trigger] empty_media::<u8>(seconds)).audio.len() == 0,
        forall|seconds: int| (#[trigger] empty_media::<u8>(seconds)).pushed == 0,
{
}

/// The number of the next clip counts the clips that were saved since the session
/// was made, whether or not it was started anew or cleaned up in between. That
/// forgets the clips, and nothing else does.
pub proof fn numbers_go_on_after_a_restart(history: Seq<FilingEvent>, event: FilingEvent)
    ensures
        filed_by(history).next == history.filter(|e: FilingEvent| e is Saved).len() as int
            % 0x1_0000_0000,
        filed_by(history.push(FilingEvent::Cleared)).clips.len() == 0,
        filed_by(history.push(FilingEvent::Cleared)).next == filed_by(history).next,
        event !is Cleared ==> filed_by(history).clips.is_prefix_of(
            filed_by(history.push(event)).clips,
        ),
        filed_by(history.push(event)).clips.len() == match event {
            FilingEvent::Cleared => 0,
            FilingEvent::Saved { .. } => filed_by(history).clips.len() + 1,
            FilingEvent::NotSaved => filed_by(history).clips.len(),
        },
{
    lemma_numbers_count_the_saves(history);
    lemma_saves_are_counted(history);
    assert(history.push(FilingEvent::Cleared).drop_last() =~= history);
    assert(history.push(event).drop_last() =~= history);
    assert(event !is Cleared ==> filed_by(history).clips =~= filed_by(
        history.push(event),
    ).clips.take(filed_by(history).clips.len() as int));
}

proof fn lemma_saves_are_counted(history: Seq<FilingEvent>)
    ensures
        saves(history) == history.filter(|e: FilingEvent| e is Saved).len(),
    decreases history.len(),
{
    reveal(Seq::filter);
    if history.len() > 0 {
        lemma_saves_are_counted(history.drop_last());
    }
}

/// A save that came to nothing is no error only where the reason says so: it holds
/// the words for too little data, or for a missing keyframe. The errors of a session
/// that does not record, or that is saving already, never do.
pub proof fn other_failures_are_errors(reason: String)
    ensures
        SaveError::Failed(reason).is_too_early() <==> exists|a: Seq<char>, b: Seq<char>|
            reason@ == #[trigger] (a + "Not enough"@ + b) || reason@ == a + "No keyframe"@ + b,
        !SaveError::SaveInProgress.is_too_early(),
        !SaveError::NotRecording.is_too_early(),
{
    parts_stand_between_texts(reason@, "Not enough"@);
    parts_stand_between_texts(reason@, "No keyframe"@);
    if contains_text(reason@, "No keyframe"@) {
        let (a, b): (Seq<char>, Seq<char>) = choose|a: Seq<char>, b: Seq<char>|
            reason@ == #[trigger] (a + "No keyframe"@ + b);
        assert((a + "Not enough"@ + b) == (a + "Not enough"@ + b));
    }
    reveal_strlit("Not enough");
    reveal_strlit("No keyframe");
    reveal_strlit("Another save is in progress");
    reveal_strlit("Not recording \u{2014} cannot save clip");
    let busy = SaveError::SaveInProgress.says();
    let idle = SaveError::NotRecording.says();
    assert forall|i: int| !stands_at(busy, "Not enough"@, i) && !stands_at(busy, "No keyframe"@, i)
        by {
        if 0 <= i < busy.len() {
            assert(busy[i] != 'N');
            if i + 10 <= busy.len() {
                assert(busy.subrange(i, i + 10)[0] == busy[i]);
            }
            if i + 11 <= busy.len() {
                assert(busy.subrange(i, i + 11)[0] == busy[i]);
            }
        }
    }
    assert forall|i: int| !stands_at(idle, "Not enough"@, i) && !stands_at(idle, "No keyframe"@, i)
        by {
        if 0 <= i < idle.len() {
            if i > 0 {
                assert(idle[i] != 'N');
            }
            if i + 10 <= idle.len() {
                assert(idle.subrange(i, i + 10)[0] == idle[i]);
                assert(idle.subrange(i, i + 10)[4] == idle[i + 4]);
            }
            if i + 11 <= idle.len() {
                assert(idle.subrange(i, i + 11)[0] == idle[i]);
                assert(idle.subrange(i, i + 11)[2] == idle[i + 2]);
            }
        }
    }
}

} // verus!
