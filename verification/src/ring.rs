//! The replay buffer: encoded video frames and audio chunks of the last few
//! minutes, with an index of the keyframes among the video frames.
//!
//! All times are in units of 100 ns. Sums and differences of times are taken
//! in `i128`, where no two `i64` times can overflow.
use std::collections::VecDeque;
use vstd::prelude::*;

verus! {

/// Length of a second in units of 100 ns.
pub const TICKS_PER_SECOND: i64 = 10_000_000;

/// One encoded access unit of the video stream.
pub struct EncodedFrame {
    pub data: Vec<u8>,
    pub pts_100ns: i64,
    pub duration_100ns: i64,
    pub is_keyframe: bool,
}

/// What an [`EncodedFrame`] holds.
#[verifier::ext_equal]
pub struct Frame {
    pub data: Seq<u8>,
    pub pts: int,
    pub duration: int,
    pub key: bool,
}

impl View for EncodedFrame {
    type V = Frame;

    open spec fn view(&self) -> Frame {
        Frame {
            data: self.data@,
            pts: self.pts_100ns as int,
            duration: self.duration_100ns as int,
            key: self.is_keyframe,
        }
    }
}

impl EncodedFrame {
    /// A copy of the frame.
    pub fn copy(&self) -> (frame: EncodedFrame)
        ensures
            frame@ == self@,
    {
        EncodedFrame {
            data: self.data.clone(),
            pts_100ns: self.pts_100ns,
            duration_100ns: self.duration_100ns,
            is_keyframe: self.is_keyframe,
        }
    }
}

/// A run of interleaved samples of type `S`.
pub struct AudioChunk<S> {
    pub data: Vec<S>,
    pub pts_100ns: i64,
    pub duration_100ns: i64,
}

/// What an [`AudioChunk`] holds.
#[verifier::ext_equal]
pub struct Chunk<S> {
    pub data: Seq<S>,
    pub pts: int,
    pub duration: int,
}

impl<S> View for AudioChunk<S> {
    type V = Chunk<S>;

    open spec fn view(&self) -> Chunk<S> {
        Chunk {
            data: self.data@,
            pts: self.pts_100ns as int,
            duration: self.duration_100ns as int,
        }
    }
}

impl<S: Copy> AudioChunk<S> {
    /// A copy of the chunk.
    pub fn copy(&self) -> (chunk: AudioChunk<S>)
        ensures
            chunk@ == self@,
    {
        let mut data: Vec<S> = Vec::new();
        let mut i: usize = 0;
        while i < self.data.len()
            invariant
                i <= self.data.len(),
                data@ == self.data@.take(i as int),
            decreases self.data.len() - i,
        {
            data.push(self.data[i]);
            i += 1;
            assert(self.data@.take(i as int) =~= self.data@.take(i - 1).push(self.data@[i - 1]));
        }
        assert(self.data@.take(self.data@.len() as int) =~= self.data@);
        AudioChunk { data, pts_100ns: self.pts_100ns, duration_100ns: self.duration_100ns }
    }
}

/// The frames that a sequence of encoded frames holds.
pub open spec fn frames(encoded: Seq<EncodedFrame>) -> Seq<Frame> {
    encoded.map_values(|f: EncodedFrame| f@)
}

/// The chunks that a sequence of audio chunks holds.
pub open spec fn chunks<S>(audio: Seq<AudioChunk<S>>) -> Seq<Chunk<S>> {
    audio.map_values(|c: AudioChunk<S>| c@)
}

/// What is left of `video` when the oldest frame is dropped again and again
/// while more than two frames are there and the newest is more than
/// `max_duration` later than the oldest.
pub open spec fn retained(video: Seq<Frame>, max_duration: int) -> Seq<Frame>
    decreases video.len(),
{
    if video.len() > 2 && video.last().pts - video.first().pts > max_duration {
        retained(video.drop_first(), max_duration)
    } else {
        video
    }
}

/// What is left of `audio` when the chunks at its front that end before
/// `oldest` are dropped.
pub open spec fn not_ended_before<S>(audio: Seq<Chunk<S>>, oldest: int) -> Seq<Chunk<S>>
    decreases audio.len(),
{
    if audio.len() > 0 && audio.first().pts + audio.first().duration < oldest {
        not_ended_before(audio.drop_first(), oldest)
    } else {
        audio
    }
}

/// What is left of `audio` beside the frames of `video`.
pub open spec fn retained_audio<S>(audio: Seq<Chunk<S>>, video: Seq<Frame>) -> Seq<Chunk<S>> {
    if video.len() == 0 {
        audio
    } else {
        not_ended_before(audio, video.first().pts)
    }
}

/// The last of the first `n` frames that is a keyframe at or before `target`.
pub open spec fn latest_key(video: Seq<Frame>, target: int, n: nat) -> Option<int>
    decreases n,
{
    if n == 0 {
        None
    } else if video[n - 1].key && video[n - 1].pts <= target {
        Some(n - 1)
    } else {
        latest_key(video, target, (n - 1) as nat)
    }
}

/// The first keyframe at position `from` or later.
pub open spec fn earliest_key(video: Seq<Frame>, from: nat) -> Option<int>
    decreases video.len() - from,
{
    if from >= video.len() {
        None
    } else if video[from as int].key {
        Some(from as int)
    } else {
        earliest_key(video, from + 1)
    }
}

/// Where a clip of the last `seconds` seconds starts: at the last keyframe
/// that is at least `seconds` older than the newest frame, or else at the
/// first keyframe there is.
pub open spec fn slice_start(video: Seq<Frame>, seconds: int) -> Option<int> {
    if video.len() == 0 {
        None
    } else {
        let target = video.last().pts - seconds * TICKS_PER_SECOND;
        match latest_key(video, target, video.len()) {
            Some(i) => Some(i),
            None => earliest_key(video, 0),
        }
    }
}

/// Whether a chunk has a part inside the interval from `start` to `end`.
pub open spec fn overlaps<S>(chunk: Chunk<S>, start: int, end: int) -> bool {
    chunk.pts + chunk.duration > start && chunk.pts < end
}

/// What an [`EncodedMediaRing`] holds.
#[verifier::ext_equal]
pub struct Media<S> {
    pub video: Seq<Frame>,
    pub audio: Seq<Chunk<S>>,
    /// How many frames were ever pushed.
    pub pushed: nat,
    pub max_duration: int,
}

/// Ring buffer of encoded video frames and audio chunks.
pub struct EncodedMediaRing<S> {
    video_frames: VecDeque<EncodedFrame>,
    audio_chunks: VecDeque<AudioChunk<S>>,
    /// The keyframes in `video_frames`, each numbered by its place among all
    /// frames ever pushed.
    keyframe_indices: VecDeque<usize>,
    frames_pushed: usize,
    max_duration_100ns: i64,
}

impl<S> View for EncodedMediaRing<S> {
    type V = Media<S>;

    closed spec fn view(&self) -> Media<S> {
        Media {
            video: frames(self.video_frames@),
            audio: chunks(self.audio_chunks@),
            pushed: self.frames_pushed as nat,
            max_duration: self.max_duration_100ns as int,
        }
    }
}

/// `indices` holds, in order, the numbers of exactly the keyframes in `video`,
/// whose first frame has number `base`.
spec fn indexes_keys(indices: Seq<usize>, video: Seq<EncodedFrame>, base: int) -> bool {
    &&& forall|i: int, j: int| 0 <= i < j < indices.len() ==> indices[i] < indices[j]
    &&& forall|i: int|
        0 <= i < indices.len() ==> base <= #[trigger] indices[i] < base + video.len()
            && video[indices[i] - base].is_keyframe
    &&& forall|p: int|
        0 <= p < video.len() && (#[trigger] video[p]).is_keyframe ==> exists|i: int|
            0 <= i < indices.len() && #[trigger] indices[i] == base + p
}

impl<S> EncodedMediaRing<S> {
    /// The keyframe index names exactly the keyframes that the ring holds.
    pub closed spec fn wf(&self) -> bool {
        &&& self.video_frames@.len() <= self.frames_pushed
        &&& indexes_keys(
            self.keyframe_indices@,
            self.video_frames@,
            self.frames_pushed - self.video_frames@.len(),
        )
    }

    /// An empty ring that keeps `max_seconds` seconds of video.
    pub fn new(max_seconds: u32) -> (ring: Self)
        ensures
            ring.wf(),
            ring@ == (Media::<S> {
                video: Seq::empty(),
                audio: Seq::empty(),
                pushed: 0,
                max_duration: max_seconds * TICKS_PER_SECOND,
            }),
    {
        EncodedMediaRing {
            video_frames: VecDeque::new(),
            audio_chunks: VecDeque::new(),
            keyframe_indices: VecDeque::new(),
            frames_pushed: 0,
            max_duration_100ns: max_seconds as i64 * TICKS_PER_SECOND,
        }
    }

    /// How many frames were ever pushed.
    pub fn frames_pushed(&self) -> (n: usize)
        ensures
            n == self@.pushed,
    {
        self.frames_pushed
    }

    /// Appends a video frame and drops the frames that are too old beside it.
    pub fn push_video(&mut self, frame: EncodedFrame)
        requires
            old(self).wf(),
            old(self)@.pushed < usize::MAX,
        ensures
            final(self).wf(),
            final(self)@ == (Media {
                video: retained(old(self)@.video.push(frame@), old(self)@.max_duration),
                pushed: old(self)@.pushed + 1,
                ..old(self)@
            }),
    {
        let ghost before = self.video_frames@;
        let ghost indices = self.keyframe_indices@;
        let ghost base = self.frames_pushed - before.len();
        if frame.is_keyframe {
            self.keyframe_indices.push_back(self.frames_pushed);
        }
        self.video_frames.push_back(frame);
        self.frames_pushed += 1;
        proof {
            assert(frames(self.video_frames@) =~= frames(before).push(frame@));
            lemma_index_push(indices, before, base, frame);
        }
        self.prune();
    }

    /// Drops the frames that exceed the maximal duration.
    fn prune(&mut self)
        requires
            old(self).wf(),
        ensures
            final(self).wf(),
            final(self)@ == (Media {
                video: retained(old(self)@.video, old(self)@.max_duration),
                ..old(self)@
            }),
    {
        let ghost start = *self;
        while self.video_frames.len() > 2
            invariant
                self.wf(),
                retained(self@.video, self@.max_duration) == retained(
                    start@.video,
                    start@.max_duration,
                ),
                self@ == (Media { video: self@.video, ..start@ }),
            ensures
                self.wf(),
                self@ == (Media {
                    video: retained(start@.video, start@.max_duration),
                    ..start@
                }),
            decreases self.video_frames.len(),
        {
            let count: usize = self.video_frames.len();
            let newest_pts: i64 = self.video_frames[count - 1].pts_100ns;
            let oldest_pts: i64 = self.video_frames[0].pts_100ns;
            assert(self@.video.len() == count);
            assert(self@.video.last().pts == newest_pts);
            assert(self@.video.first().pts == oldest_pts);
            if newest_pts as i128 - oldest_pts as i128 > self.max_duration_100ns as i128 {
                self.drop_oldest();
            } else {
                break;
            }
        }
    }

    /// Drops the oldest frame, and its number if it is a keyframe.
    fn drop_oldest(&mut self)
        requires
            old(self).wf(),
            old(self)@.video.len() > 0,
        ensures
            final(self).wf(),
            final(self).video_frames@.len() == old(self).video_frames@.len() - 1,
            final(self)@ == (Media { video: old(self)@.video.drop_first(), ..old(self)@ }),
    {
        let ghost video = self.video_frames@;
        let ghost indices = self.keyframe_indices@;
        let ghost pushed = self.frames_pushed;
        let base: usize = self.frames_pushed - self.video_frames.len();
        let _ = self.video_frames.pop_front();
        assert(frames(self.video_frames@) =~= frames(video).drop_first());
        assert(video.len() > 0);
        assert(indexes_keys(indices, video, base as int));
        if self.keyframe_indices.len() > 0 && self.keyframe_indices[0] <= base {
            let _ = self.keyframe_indices.pop_front();
        }
        proof {
            lemma_index_drop(indices, video, base as int);
        }
    }

    /// Appends an audio chunk and drops the chunks that ended before the
    /// oldest video frame.
    pub fn push_audio(&mut self, chunk: AudioChunk<S>)
        requires
            old(self).wf(),
        ensures
            final(self).wf(),
            final(self)@ == (Media {
                audio: retained_audio(old(self)@.audio.push(chunk@), old(self)@.video),
                ..old(self)@
            }),
    {
        let ghost before = self.audio_chunks@;
        self.audio_chunks.push_back(chunk);
        assert(chunks(self.audio_chunks@) =~= chunks(before).push(chunk@));
        self.prune_audio();
    }

    /// Drops the chunks that ended before the oldest video frame.
    fn prune_audio(&mut self)
        requires
            old(self).wf(),
        ensures
            final(self).wf(),
            final(self)@ == (Media {
                audio: retained_audio(old(self)@.audio, old(self)@.video),
                ..old(self)@
            }),
    {
        if self.video_frames.len() == 0 {
            return ;
        }
        let oldest_video_pts: i64 = self.video_frames[0].pts_100ns;
        let ghost start = *self;
        assert(start@.video.first().pts == oldest_video_pts);
        while self.audio_chunks.len() > 0
            invariant
                self.wf(),
                not_ended_before(self@.audio, oldest_video_pts as int) == not_ended_before(
                    start@.audio,
                    oldest_video_pts as int,
                ),
                self@ == (Media { audio: self@.audio, ..start@ }),
            ensures
                self.wf(),
                self@ == (Media {
                    audio: not_ended_before(start@.audio, oldest_video_pts as int),
                    ..start@
                }),
            decreases self.audio_chunks.len(),
        {
            let ghost audio = self.audio_chunks@;
            let pts: i64 = self.audio_chunks[0].pts_100ns;
            let duration: i64 = self.audio_chunks[0].duration_100ns;
            assert(self@.audio.first() == audio[0]@);
            if (pts as i128 + duration as i128) < oldest_video_pts as i128 {
                let _ = self.audio_chunks.pop_front();
                assert(chunks(self.audio_chunks@) =~= chunks(audio).drop_first());
            } else {
                break ;
            }
        }
    }

    /// Finds where a clip of the last `seconds` seconds starts.
    pub fn find_slice_start(&self, seconds: u32) -> (start: Option<usize>)
        requires
            self.wf(),
        ensures
            match start {
                Some(i) => slice_start(self@.video, seconds as int) == Some(i as int),
                None => slice_start(self@.video, seconds as int) is None,
            },
    {
        let count: usize = self.video_frames.len();
        if count == 0 {
            return None;
        }
        let newest_pts: i64 = self.video_frames[count - 1].pts_100ns;
        let target_pts: i128 = newest_pts as i128 - seconds as i128 * TICKS_PER_SECOND as i128;
        let base: usize = self.frames_pushed - count;
        let ghost video = self@.video;
        let ghost target = target_pts as int;
        let ghost indices = self.keyframe_indices@;
        assert(video.last() == self.video_frames@[count - 1]@);
        let mut k: usize = self.keyframe_indices.len();
        while k > 0
            invariant
                self.wf(),
                count > 0,
                count == self.video_frames@.len(),
                base == self.frames_pushed - count,
                video == frames(self.video_frames@),
                indices == self.keyframe_indices@,
                k <= indices.len(),
                target == target_pts,
                target == video.last().pts - seconds * TICKS_PER_SECOND,
                latest_key(video, target, video.len()) == latest_key(
                    video,
                    target,
                    key_bound(indices, k as int, base as int, count as int),
                ),
            decreases k,
        {
            let i: usize = self.keyframe_indices[k - 1] - base;
            proof {
                let bound = key_bound(indices, k as int, base as int, count as int);
                assert(i < bound);
                assert forall|p: int| i < p < bound implies !(#[trigger] video[p]).key by {
                    lemma_no_key_between(indices, self.video_frames@, base as int, k as int, p);
                }
                lemma_latest_skip(video, target, (i + 1) as nat, bound);
            }
            assert(video[i as int] == self.video_frames@[i as int]@);
            if self.video_frames[i].pts_100ns as i128 <= target_pts {
                return Some(i);
            }
            k -= 1;
        }
        proof {
            let bound = key_bound(indices, 0, base as int, count as int);
            assert forall|p: int| 0 <= p < bound implies !(#[trigger] video[p]).key by {
                lemma_no_key_between(indices, self.video_frames@, base as int, 0, p);
            }
            lemma_latest_skip(video, target, 0, bound);
            lemma_earliest_skip(video, 0, bound);
        }
        if self.keyframe_indices.len() == 0 {
            None
        } else {
            let first: usize = self.keyframe_indices[0] - base;
            assert(video[first as int] == self.video_frames@[first as int]@);
            Some(first)
        }
    }

    /// Copies of the frames from `start_idx` on.
    pub fn slice_video(&self, start_idx: usize) -> (video: Vec<EncodedFrame>)
        ensures
            frames(video@) == if start_idx <= self@.video.len() {
                self@.video.skip(start_idx as int)
            } else {
                Seq::empty()
            },
    {
        let mut video: Vec<EncodedFrame> = Vec::new();
        let mut i: usize = start_idx;
        let count: usize = self.video_frames.len();
        while i < count
            invariant
                count == self.video_frames@.len(),
                start_idx <= count ==> i <= count,
                start_idx <= i,
                start_idx > count ==> video@.len() == 0,
                start_idx <= count ==> frames(video@) == self@.video.subrange(
                    start_idx as int,
                    i as int,
                ),
            decreases count - i,
        {
            let ghost so_far = video@;
            video.push(self.video_frames[i].copy());
            i += 1;
            assert(frames(video@) =~= self@.video.subrange(start_idx as int, i as int));
        }
        assert(start_idx <= count ==> frames(video@) =~= self@.video.skip(start_idx as int));
        assert(start_idx > count ==> frames(video@) =~= Seq::empty());
        video
    }

    /// The presentation time of the newest frame, 0 where there is none.
    pub fn newest_pts(&self) -> (pts: i64)
        ensures
            pts == if self@.video.len() == 0 {
                0
            } else {
                self@.video.last().pts
            },
    {
        let count: usize = self.video_frames.len();
        if count == 0 {
            0
        } else {
            assert(self@.video.last() == self.video_frames@[count - 1]@);
            self.video_frames[count - 1].pts_100ns
        }
    }

    /// The presentation time of the oldest frame, 0 where there is none.
    pub fn oldest_pts(&self) -> (pts: i64)
        ensures
            pts == if self@.video.len() == 0 {
                0
            } else {
                self@.video.first().pts
            },
    {
        if self.video_frames.len() == 0 {
            0
        } else {
            assert(self@.video.first() == self.video_frames@[0]@);
            self.video_frames[0].pts_100ns
        }
    }

    /// How much later the newest frame is than the oldest.
    pub fn duration_100ns(&self) -> (duration: i128)
        ensures
            duration == if self@.video.len() == 0 {
                0
            } else {
                self@.video.last().pts - self@.video.first().pts
            },
    {
        self.newest_pts() as i128 - self.oldest_pts() as i128
    }
}

impl<S: Copy> EncodedMediaRing<S> {
    /// Copies of the chunks that overlap the interval from `start_pts` to
    /// `end_pts`.
    pub fn slice_audio(&self, start_pts: i128, end_pts: i128) -> (audio: Vec<AudioChunk<S>>)
        ensures
            chunks(audio@) == self@.audio.filter(
                |c: Chunk<S>| overlaps(c, start_pts as int, end_pts as int),
            ),
    {
        let ghost wanted = |c: Chunk<S>| overlaps(c, start_pts as int, end_pts as int);
        let mut audio: Vec<AudioChunk<S>> = Vec::new();
        let mut i: usize = 0;
        let count: usize = self.audio_chunks.len();
        assert(self@.audio.take(0).filter(wanted) =~= Seq::empty()) by {
            reveal(Seq::filter);
        }
        while i < count
            invariant
                count == self.audio_chunks@.len(),
                i <= count,
                wanted == (|c: Chunk<S>| overlaps(c, start_pts as int, end_pts as int)),
                chunks(audio@) == self@.audio.take(i as int).filter(wanted),
            decreases count - i,
        {
            let chunk = &self.audio_chunks[i];
            let end: i128 = chunk.pts_100ns as i128 + chunk.duration_100ns as i128;
            let ghost before = audio@;
            assert(self@.audio[i as int] == chunk@);
            proof {
                let longer = self@.audio.take(i + 1);
                assert(longer.drop_last() =~= self@.audio.take(i as int));
                assert(longer.last() == chunk@);
                reveal(Seq::filter);
            }
            if end > start_pts && (chunk.pts_100ns as i128) < end_pts {
                audio.push(chunk.copy());
                assert(chunks(audio@) =~= chunks(before).push(chunk@));
            }
            i += 1;
        }
        assert(self@.audio.take(count as int) =~= self@.audio);
        audio
    }
}

/// Where the keyframes from the `k`th on begin: the position of the `k`th, or
/// the end of the video.
spec fn key_bound(indices: Seq<usize>, k: int, base: int, count: int) -> nat {
    if k < indices.len() {
        (indices[k] - base) as nat
    } else {
        count as nat
    }
}

/// No keyframe lies between the last of the first `k` indexed ones and the
/// next.
proof fn lemma_no_key_between(
    indices: Seq<usize>,
    video: Seq<EncodedFrame>,
    base: int,
    k: int,
    p: int,
)
    requires
        indexes_keys(indices, video, base),
        0 <= k <= indices.len(),
        0 <= p < key_bound(indices, k, base, video.len() as int),
        k > 0 ==> indices[k - 1] - base < p,
    ensures
        !frames(video)[p].key,
{
    if k < indices.len() {
        assert(indices[k] < base + video.len());
    }
    if video[p].is_keyframe {
        let i = choose|i: int| 0 <= i < indices.len() && #[trigger] indices[i] == base + p;
        if i < k - 1 {
            assert(indices[i] < indices[k - 1]);
        } else if i > k {
            assert(indices[k] < indices[i]);
        }
        assert(false);
    }
}

proof fn lemma_latest_skip(video: Seq<Frame>, target: int, a: nat, b: nat)
    requires
        a <= b <= video.len(),
        forall|p: int| a <= p < b ==> !(#[trigger] video[p]).key,
    ensures
        latest_key(video, target, b) == latest_key(video, target, a),
    decreases b,
{
    if a < b {
        assert(!video[b - 1].key);
        lemma_latest_skip(video, target, a, (b - 1) as nat);
    }
}

proof fn lemma_earliest_skip(video: Seq<Frame>, a: nat, b: nat)
    requires
        a <= b <= video.len(),
        forall|p: int| a <= p < b ==> !(#[trigger] video[p]).key,
    ensures
        earliest_key(video, a) == earliest_key(video, b),
    decreases b - a,
{
    if a < b {
        assert(!video[a as int].key);
        lemma_earliest_skip(video, a + 1, b);
    }
}

/// The index of a video with one more frame at its end.
proof fn lemma_index_push(indices: Seq<usize>, video: Seq<EncodedFrame>, base: int, frame: EncodedFrame)
    requires
        indexes_keys(indices, video, base),
        0 <= base,
        base + video.len() < usize::MAX,
    ensures
        indexes_keys(
            if frame.is_keyframe {
                indices.push((base + video.len()) as usize)
            } else {
                indices
            },
            video.push(frame),
            base,
        ),
{
    let n = (base + video.len()) as usize;
    let more = if frame.is_keyframe {
        indices.push(n)
    } else {
        indices
    };
    let longer = video.push(frame);
    assert forall|p: int| 0 <= p < longer.len() && (#[trigger] longer[p]).is_keyframe implies exists|
        i: int,
    |
        0 <= i < more.len() && #[trigger] more[i] == base + p by {
        if p < video.len() {
            assert(video[p].is_keyframe);
            let i = choose|i: int| 0 <= i < indices.len() && #[trigger] indices[i] == base + p;
            assert(more[i] == base + p);
        } else {
            assert(more[indices.len() as int] == base + p);
        }
    }
}

/// The index of a video without its first frame.
proof fn lemma_index_drop(indices: Seq<usize>, video: Seq<EncodedFrame>, base: int)
    requires
        indexes_keys(indices, video, base),
        video.len() > 0,
    ensures
        indexes_keys(
            if indices.len() > 0 && indices[0] <= base {
                indices.drop_first()
            } else {
                indices
            },
            video.drop_first(),
            base + 1,
        ),
{
    let fewer = if indices.len() > 0 && indices[0] <= base {
        indices.drop_first()
    } else {
        indices
    };
    let rest = video.drop_first();
    assert forall|i: int| 0 <= i < fewer.len() implies base + 1 <= #[trigger] fewer[i] < base + 1
        + rest.len() && rest[fewer[i] - base - 1].is_keyframe by {
        let k = if indices.len() > 0 && indices[0] <= base {
            i + 1
        } else {
            i
        };
        assert(fewer[i] == indices[k]);
        assert(indices[0] <= indices[k]);
        assert(indices[k] > base);
    }
    assert forall|p: int| 0 <= p < rest.len() && (#[trigger] rest[p]).is_keyframe implies exists|
        i: int,
    |
        0 <= i < fewer.len() && #[trigger] fewer[i] == base + 1 + p by {
        assert(video[p + 1].is_keyframe);
        let k = choose|k: int| 0 <= k < indices.len() && #[trigger] indices[k] == base + (p + 1);
        if indices[0] <= base {
            assert(k != 0);
            assert(fewer[k - 1] == indices[k]);
        } else {
            assert(fewer[k] == indices[k]);
        }
    }
}

/// Dropping old frames keeps the end of the video: what is dropped is a prefix,
/// the newest two frames stay, and what stays is either no more than two frames
/// or no longer than `max_duration`. No more is dropped than that: with any
/// one of the dropped frames still in front, there would be more than two
/// frames, over more than `max_duration`.
pub proof fn retained_is_the_longest_end_that_fits(video: Seq<Frame>, max_duration: int)
    ensures
        ({
            let kept = retained(video, max_duration);
            let dropped = video.len() - kept.len();
            &&& 0 <= dropped
            &&& kept == video.skip(dropped)
            &&& video.len() <= 2 ==> dropped == 0
            &&& video.len() >= 2 ==> kept.len() >= 2
            &&& kept.len() <= 2 || kept.last().pts - kept.first().pts <= max_duration
            &&& forall|m: int|
                0 <= m < dropped ==> video.len() - m > 2 && video.last().pts - (
                #[trigger] video[m]).pts > max_duration
        }),
    decreases video.len(),
{
    let kept = retained(video, max_duration);
    if video.len() > 2 && video.last().pts - video.first().pts > max_duration {
        let rest = video.drop_first();
        retained_is_the_longest_end_that_fits(rest, max_duration);
        let dropped = video.len() - kept.len();
        assert(kept =~= video.skip(dropped));
        assert forall|m: int| 0 <= m < dropped implies video.len() - m > 2 && video.last().pts - (
        #[trigger] video[m]).pts > max_duration by {
            if m > 0 {
                assert(rest[m - 1] == video[m]);
            }
        }
    } else {
        assert(kept =~= video.skip(0));
    }
}

/// Where the frames come in order of time, no frame that stays beside two
/// others is more than `max_duration` older than the newest.
pub proof fn retained_frames_are_recent(video: Seq<Frame>, max_duration: int, i: int)
    requires
        in_order(video),
        retained(video, max_duration).len() > 2,
        0 <= i < retained(video, max_duration).len(),
    ensures
        retained(video, max_duration).last().pts - retained(video, max_duration)[i].pts
            <= max_duration,
{
    retained_is_the_longest_end_that_fits(video, max_duration);
    let dropped = video.len() - retained(video, max_duration).len();
    assert(video[dropped].pts <= video[dropped + i].pts);
}

/// Whether frames come in order of time.
pub open spec fn in_order(video: Seq<Frame>) -> bool {
    forall|a: int, b: int| 0 <= a <= b < video.len() ==> video[a].pts <= video[b].pts
}

/// What is left of frames that are pushed in turn, each of which makes the old
/// ones beside it drop.
pub open spec fn pushed_in_turn(history: Seq<Frame>, max_duration: int) -> Seq<Frame>
    decreases history.len(),
{
    if history.len() == 0 {
        Seq::empty()
    } else {
        retained(
            pushed_in_turn(history.drop_last(), max_duration).push(history.last()),
            max_duration,
        )
    }
}

proof fn lemma_retained_then_pushed(video: Seq<Frame>, frame: Frame, max_duration: int)
    requires
        video.len() > 0 ==> video.last().pts <= frame.pts,
    ensures
        retained(retained(video, max_duration).push(frame), max_duration) == retained(
            video.push(frame),
            max_duration,
        ),
    decreases video.len(),
{
    if video.len() > 2 && video.last().pts - video.first().pts > max_duration {
        lemma_retained_then_pushed(video.drop_first(), frame, max_duration);
        assert(video.push(frame).drop_first() =~= video.drop_first().push(frame));
        assert(video.push(frame).first() == video.first());
    }
}

/// Where frames come in order of time, the ring holds the longest end that fits
/// of all frames that were ever pushed, not only of those that were left before
/// the last one.
pub proof fn nothing_is_dropped_early(history: Seq<Frame>, max_duration: int)
    requires
        in_order(history),
    ensures
        pushed_in_turn(history, max_duration) == retained(history, max_duration),
    decreases history.len(),
{
    if history.len() > 0 {
        let before = history.drop_last();
        assert(in_order(before)) by {
            assert forall|a: int, b: int| 0 <= a <= b < before.len() implies before[a].pts
                <= before[b].pts by {
                assert(history[a].pts <= history[b].pts);
            }
        }
        nothing_is_dropped_early(before, max_duration);
        lemma_retained_then_pushed(before, history.last(), max_duration);
        assert(before.push(history.last()) =~= history);
    }
}

/// A chunk is dropped only when it, and all chunks before it, ended before the
/// oldest frame; the first chunk that stays did not.
pub proof fn dropped_audio_has_ended<S>(audio: Seq<Chunk<S>>, oldest: int)
    ensures
        ({
            let kept = not_ended_before(audio, oldest);
            let dropped = audio.len() - kept.len();
            &&& 0 <= dropped
            &&& kept == audio.skip(dropped)
            &&& forall|m: int|
                0 <= m < dropped ==> (#[trigger] audio[m]).pts + audio[m].duration < oldest
            &&& kept.len() > 0 ==> kept.first().pts + kept.first().duration >= oldest
        }),
    decreases audio.len(),
{
    let kept = not_ended_before(audio, oldest);
    if audio.len() > 0 && audio.first().pts + audio.first().duration < oldest {
        let rest = audio.drop_first();
        dropped_audio_has_ended(rest, oldest);
        let dropped = audio.len() - kept.len();
        assert(kept =~= audio.skip(dropped));
        assert forall|m: int| 0 <= m < dropped implies (#[trigger] audio[m]).pts
            + audio[m].duration < oldest by {
            if m > 0 {
                assert(rest[m - 1] == audio[m]);
            }
        }
    } else {
        assert(kept =~= audio.skip(0));
    }
}

proof fn lemma_latest_key(video: Seq<Frame>, target: int, n: nat)
    requires
        n <= video.len(),
    ensures
        match latest_key(video, target, n) {
            Some(i) => {
                &&& 0 <= i < n
                &&& video[i].key
                &&& video[i].pts <= target
                &&& forall|j: int| i < j < n && (#[trigger] video[j]).key ==> video[j].pts > target
            },
            None => forall|j: int|
                0 <= j < n && (#[trigger] video[j]).key ==> video[j].pts > target,
        },
    decreases n,
{
    if n > 0 {
        lemma_latest_key(video, target, (n - 1) as nat);
    }
}

proof fn lemma_earliest_key(video: Seq<Frame>, from: nat)
    requires
        from <= video.len(),
    ensures
        match earliest_key(video, from) {
            Some(i) => {
                &&& from <= i < video.len()
                &&& video[i].key
                &&& forall|j: int| from <= j < i ==> !(#[trigger] video[j]).key
            },
            None => forall|j: int| from <= j < video.len() ==> !(#[trigger] video[j]).key,
        },
    decreases video.len() - from,
{
    if from < video.len() {
        lemma_earliest_key(video, from + 1);
    }
}

/// A clip can be cut if and only if there is a keyframe, and then it starts at
/// a keyframe.
///
/// Where a keyframe is at least `seconds` older than the newest frame, the clip
/// covers the whole of the last `seconds` seconds, and no keyframe after its
/// start would. Where none is, the clip starts at the first keyframe there is.
pub proof fn clip_starts_at_a_keyframe(video: Seq<Frame>, seconds: int)
    ensures
        match slice_start(video, seconds) {
            Some(i) => {
                let target = video.last().pts - seconds * TICKS_PER_SECOND;
                &&& 0 <= i < video.len()
                &&& video[i].key
                &&& if exists|j: int|
                    0 <= j < video.len() && (#[trigger] video[j]).key && video[j].pts <= target {
                    &&& video[i].pts <= target
                    &&& forall|j: int|
                        i < j < video.len() && (#[trigger] video[j]).key ==> video[j].pts > target
                } else {
                    forall|j: int| 0 <= j < i ==> !(#[trigger] video[j]).key
                }
            },
            None => forall|j: int| 0 <= j < video.len() ==> !(#[trigger] video[j]).key,
        },
{
    if video.len() > 0 {
        let target = video.last().pts - seconds * TICKS_PER_SECOND;
        lemma_latest_key(video, target, video.len());
        lemma_earliest_key(video, 0);
    }
}

/// Asking for more seconds never gives a later start.
pub proof fn longer_clips_start_earlier(video: Seq<Frame>, fewer: int, more: int)
    requires
        fewer <= more,
    ensures
        slice_start(video, fewer) is Some <==> slice_start(video, more) is Some,
        slice_start(video, more) matches Some(i) ==> i <= slice_start(video, fewer)->0,
{
    if video.len() > 0 {
        assert(fewer * TICKS_PER_SECOND <= more * TICKS_PER_SECOND);
        lemma_latest_key(video, video.last().pts - fewer * TICKS_PER_SECOND, video.len());
        lemma_latest_key(video, video.last().pts - more * TICKS_PER_SECOND, video.len());
        lemma_earliest_key(video, 0);
    }
}

/// A frame in the buffer is the encoded frame as it came: its bytes, its times and
/// whether it is a keyframe.
pub proof fn frames_are_what_was_encoded(encoded: Seq<EncodedFrame>, i: int)
    requires
        0 <= i < encoded.len(),
    ensures
        frames(encoded).len() == encoded.len(),
        frames(encoded)[i].data == encoded[i].data@,
        frames(encoded)[i].pts == encoded[i].pts_100ns,
        frames(encoded)[i].duration == encoded[i].duration_100ns,
        frames(encoded)[i].key == encoded[i].is_keyframe,
{
}

/// A chunk in the buffer is the audio as it came: its samples and its times.
pub proof fn chunks_are_what_was_heard<S>(audio: Seq<AudioChunk<S>>, i: int)
    requires
        0 <= i < audio.len(),
    ensures
        chunks(audio).len() == audio.len(),
        chunks(audio)[i].data == audio[i].data@,
        chunks(audio)[i].pts == audio[i].pts_100ns,
        chunks(audio)[i].duration == audio[i].duration_100ns,
{
}

/// Audio beside the video stays: what is dropped is the beginning of the audio,
/// each chunk of which ended before the oldest frame. Without video nothing is
/// dropped.
pub proof fn audio_beside_the_video_stays<S>(audio: Seq<Chunk<S>>, video: Seq<Frame>)
    ensures
        ({
            let kept = retained_audio(audio, video);
            let dropped = audio.len() - kept.len();
            &&& 0 <= dropped
            &&& kept == audio.skip(dropped)
            &&& video.len() == 0 ==> dropped == 0
            &&& video.len() > 0 ==> forall|m: int|
                0 <= m < dropped ==> (#[trigger] audio[m]).pts + audio[m].duration
                    < video[0].pts
            &&& video.len() > 0 && kept.len() > 0 ==> kept[0].pts + kept[0].duration
                >= video[0].pts
        }),
{
    if video.len() > 0 {
        dropped_audio_has_ended(audio, video.first().pts);
    } else {
        assert(audio =~= audio.skip(0));
    }
}

} // verus!
