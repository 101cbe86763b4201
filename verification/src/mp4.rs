//! What is known of an MP4 file, and where its keyframes are. Times are in units
//! of 100 ns.
use vstd::prelude::*;

use crate::media_type::unpack_u64;

verus! {

/// A number of frames per so many seconds.
#[derive(Debug, Clone, Copy, PartialEq, Eq, Structural)]
pub struct FrameRate {
    pub frames: u32,
    pub seconds: u32,
}

/// What is known of an MP4 file.
#[derive(Debug, Clone)]
pub struct Mp4Info {
    pub duration: i64,
    pub fps: FrameRate,
    pub width: u32,
    pub height: u32,
    pub video_codec: String,
    pub audio_codec: String,
    pub bitrate: u64,
    pub has_audio: bool,
    pub keyframes: Vec<i64>,
}

/// The codecs that have a name.
pub const VIDEO_H264: u128 = 0x34363248_0000_0010_8000_00aa00389b71;

pub const VIDEO_H265: u128 = 0x35363248_0000_0010_8000_00aa00389b71;

pub const VIDEO_VP90: u128 = 0x30395056_0000_0010_8000_00aa00389b71;

pub const VIDEO_AV1: u128 = 0x31305641_0000_0010_8000_00aa00389b71;

pub const AUDIO_AAC: u128 = 0x00001610_0000_0010_8000_00aa00389b71;

pub const AUDIO_MP3: u128 = 0x00000055_0000_0010_8000_00aa00389b71;

pub const AUDIO_PCM: u128 = 0x00000001_0000_0010_8000_00aa00389b71;

pub const AUDIO_FLOAT: u128 = 0x00000003_0000_0010_8000_00aa00389b71;

/// The last `width` hexadecimal digits of a number, in upper case.
pub open spec fn hex(n: nat, width: nat) -> Seq<char>
    decreases width,
{
    if width == 0 {
        Seq::empty()
    } else {
        hex(n / 16, (width - 1) as nat).push(hex_char(n % 16))
    }
}

/// The character of a hexadecimal digit, in upper case.
pub open spec fn hex_char(d: nat) -> char {
    if d < 10 {
        ('0' as u32 + d) as char
    } else {
        ('A' as u32 + (d - 10)) as char
    }
}

/// A GUID as text: its 32 hexadecimal digits in groups of 8, 4, 4, 4 and 12.
pub open spec fn guid_text(guid: u128) -> Seq<char> {
    let digits = hex(guid as nat, 32);
    digits.subrange(0, 8) + "-"@ + digits.subrange(8, 12) + "-"@ + digits.subrange(12, 16) + "-"@
        + digits.subrange(16, 20) + "-"@ + digits.subrange(20, 32)
}

/// A GUID as text, as the `Debug` of `windows_core::GUID` writes it: the first
/// 32 bits, two times 16 bits, and then 8 bytes of which the first two stand
/// apart, each in upper-case hexadecimal digits with leading zeros.
/// `GUID::from_u128` takes these parts from the number, the highest bits first.
#[verifier::external_body]
fn guid_name(guid: u128) -> (name: String)
    ensures
        name@ == guid_text(guid),
{
    format!("{:?}", windows_core::GUID::from_u128(guid))
}

/// The name of a video codec.
pub open spec fn video_codec(guid: u128) -> Seq<char> {
    if guid == VIDEO_H264 {
        "h264"@
    } else if guid == VIDEO_H265 {
        "hevc"@
    } else if guid == VIDEO_VP90 {
        "vp9"@
    } else if guid == VIDEO_AV1 {
        "av1"@
    } else {
        guid_text(guid)
    }
}

/// The name of an audio codec.
pub open spec fn audio_codec(guid: u128) -> Seq<char> {
    if guid == AUDIO_AAC {
        "aac"@
    } else if guid == AUDIO_MP3 {
        "mp3"@
    } else if guid == AUDIO_PCM {
        "pcm"@
    } else if guid == AUDIO_FLOAT {
        "float"@
    } else {
        guid_text(guid)
    }
}

/// The name of a video codec.
pub fn guid_to_codec_name(guid: u128) -> (name: String)
    ensures
        name@ == video_codec(guid),
{
    if guid == VIDEO_H264 {
        "h264".to_owned()
    } else if guid == VIDEO_H265 {
        "hevc".to_owned()
    } else if guid == VIDEO_VP90 {
        "vp9".to_owned()
    } else if guid == VIDEO_AV1 {
        "av1".to_owned()
    } else {
        guid_name(guid)
    }
}

/// The name of an audio codec.
pub fn audio_guid_to_codec_name(guid: u128) -> (name: String)
    ensures
        name@ == audio_codec(guid),
{
    if guid == AUDIO_AAC {
        "aac".to_owned()
    } else if guid == AUDIO_MP3 {
        "mp3".to_owned()
    } else if guid == AUDIO_PCM {
        "pcm".to_owned()
    } else if guid == AUDIO_FLOAT {
        "float".to_owned()
    } else {
        guid_name(guid)
    }
}

/// What a reader reports of a file. What it does not report is `None`.
#[derive(Debug, Clone, Copy)]
pub struct StreamFacts {
    pub duration: Option<i64>,
    /// The width and the height in one number, as the next one.
    pub frame_size: Option<u64>,
    pub frame_rate: Option<u64>,
    pub video_subtype: Option<u128>,
    pub bitrate: Option<u32>,
    pub has_audio: bool,
    pub audio_subtype: Option<u128>,
}

/// The rate of 30 frames a second.
pub open spec fn default_rate() -> FrameRate {
    FrameRate { frames: 30, seconds: 1 }
}

/// The upper half of a number.
pub open spec fn upper(n: u64) -> u32 {
    (n / 0x1_0000_0000) as u32
}

/// The lower half of a number.
pub open spec fn lower(n: u64) -> u32 {
    (n % 0x1_0000_0000) as u32
}

/// What is known of a file by what a reader reports of it, with its keyframes.
pub fn mp4_info(facts: &StreamFacts, keyframes: Vec<i64>) -> (info: Mp4Info)
    ensures
        info.duration == facts.duration.unwrap_or(0),
        (info.width, info.height) == match facts.frame_size {
            Some(size) => (upper(size), lower(size)),
            None => (0, 0),
        },
        info.fps == match facts.frame_rate {
            Some(rate) => if lower(rate) > 0 {
                FrameRate { frames: upper(rate), seconds: lower(rate) }
            } else {
                default_rate()
            },
            None => default_rate(),
        },
        info.fps.seconds > 0,
        info.video_codec@ == video_codec(facts.video_subtype.unwrap_or(VIDEO_H264)),
        info.bitrate == facts.bitrate.unwrap_or(0),
        info.has_audio == facts.has_audio,
        info.audio_codec@ == match facts.audio_subtype {
            Some(guid) => if facts.has_audio {
                audio_codec(guid)
            } else {
                Seq::empty()
            },
            None => Seq::empty(),
        },
        info.keyframes == keyframes,
{
    let (width, height): (u32, u32) = match facts.frame_size {
        Some(size) => unpack_u64(size),
        None => (0, 0),
    };
    let (frames, seconds): (u32, u32) = match facts.frame_rate {
        Some(rate) => unpack_u64(rate),
        None => (30, 1),
    };
    let fps = if seconds > 0 {
        FrameRate { frames, seconds }
    } else {
        FrameRate { frames: 30, seconds: 1 }
    };
    let audio_codec: String = match facts.audio_subtype {
        Some(guid) => if facts.has_audio {
            audio_guid_to_codec_name(guid)
        } else {
            String::new()
        },
        None => String::new(),
    };
    Mp4Info {
        duration: facts.duration.unwrap_or(0),
        fps,
        width,
        height,
        video_codec: guid_to_codec_name(facts.video_subtype.unwrap_or(VIDEO_H264)),
        audio_codec,
        bitrate: facts.bitrate.unwrap_or(0) as u64,
        has_audio: facts.has_audio,
        keyframes,
    }
}

/// No more keyframes than this are collected.
pub const MAX_KEYFRAMES: usize = 10000;

/// The flag of a read that has come to the end.
pub const END_OF_STREAM: u32 = 2;

/// Whether a read has come to the end, by its flags.
pub open spec fn ends_stream(flags: u32) -> bool {
    flags & END_OF_STREAM != 0
}

/// What a read of the next sample came to.
#[derive(Debug, Clone, Copy)]
pub enum SampleRead {
    Failed,
    Read {
        flags: u32,
        timestamp: i64,
        /// Whether decoding can start here, 0 where it cannot; `None` where the
        /// read gave no sample or the sample does not say.
        clean_point: Option<u32>,
    },
}

/// Whether a walk through the samples goes on after a read.
pub open spec fn goes_on(read: SampleRead) -> bool {
    match read {
        SampleRead::Failed => false,
        SampleRead::Read { flags, .. } => !ends_stream(flags),
    }
}

/// The time of the keyframe that a read gave, if it gave one.
pub open spec fn keyframe_in(read: SampleRead) -> Option<i64> {
    match read {
        SampleRead::Failed => None,
        SampleRead::Read { flags, timestamp, clean_point } => if !ends_stream(flags) && (
        clean_point matches Some(n) && n != 0) {
            Some(timestamp)
        } else {
            None
        },
    }
}

/// What a walk through the samples comes to by these reads: the keyframes, and
/// whether it is over. It is over after a read after which it does not go on,
/// and when it has enough keyframes.
pub open spec fn walked(reads: Seq<SampleRead>) -> (Seq<i64>, bool)
    decreases reads.len(),
{
    if reads.len() == 0 {
        (Seq::empty(), false)
    } else {
        let (times, over) = walked(reads.drop_last());
        if over || !goes_on(reads.last()) {
            (times, true)
        } else {
            match keyframe_in(reads.last()) {
                Some(time) => (times.push(time), times.len() + 1 >= MAX_KEYFRAMES),
                None => (times, false),
            }
        }
    }
}

/// The keyframes that a walk through the samples collects.
pub open spec fn collected(reads: Seq<SampleRead>) -> Seq<i64> {
    walked(reads).0
}

/// Whether a walk through the samples is over after these reads.
pub open spec fn is_over(reads: Seq<SampleRead>) -> bool {
    walked(reads).1
}

/// A walk through the samples of a file that collects the keyframes.
pub struct KeyframeWalk {
    keyframes: Vec<i64>,
    over: bool,
    reads: Ghost<Seq<SampleRead>>,
}

impl View for KeyframeWalk {
    type V = Seq<SampleRead>;

    /// The reads so far.
    closed spec fn view(&self) -> Seq<SampleRead> {
        self.reads@
    }
}

impl KeyframeWalk {
    /// The walk has collected what its reads gave.
    pub closed spec fn wf(&self) -> bool {
        &&& self.keyframes@ == collected(self@)
        &&& self.over == is_over(self@)
        &&& !self.over ==> self.keyframes@.len() < MAX_KEYFRAMES
    }

    /// A walk that has not begun.
    pub fn new() -> (walk: KeyframeWalk)
        ensures
            walk.wf(),
            walk@ == Seq::<SampleRead>::empty(),
    {
        KeyframeWalk { keyframes: Vec::new(), over: false, reads: Ghost(Seq::empty()) }
    }

    /// Whether there is nothing more to read.
    pub fn is_over(&self) -> (over: bool)
        requires
            self.wf(),
        ensures
            over == is_over(self@),
    {
        self.over
    }

    /// Takes what the next read came to.
    pub fn take(&mut self, read: SampleRead)
        requires
            old(self).wf(),
            !is_over(old(self)@),
        ensures
            final(self).wf(),
            final(self)@ == old(self)@.push(read),
    {
        let ghost before = self@;
        proof {
            self.reads@ = before.push(read);
            assert(self@.drop_last() =~= before);
        }
        match read {
            SampleRead::Failed => {
                self.over = true;
            },
            SampleRead::Read { flags, timestamp, clean_point } => {
                if flags & END_OF_STREAM != 0 {
                    self.over = true;
                } else {
                    if clean_point.unwrap_or(0) != 0 {
                        self.keyframes.push(timestamp);
                    }
                    if self.keyframes.len() >= MAX_KEYFRAMES {
                        self.over = true;
                    }
                }
            },
        }
    }

    /// The keyframes that were collected, in the order of time.
    pub fn finish(self) -> (keyframes: Vec<i64>)
        requires
            self.wf(),
        ensures
            is_sorted(keyframes@),
            keyframes@.to_multiset() == collected(self@).to_multiset(),
    {
        sort_times(&self.keyframes)
    }
}

/// A walk collects a limited number of keyframes.
pub proof fn keyframes_are_limited(reads: Seq<SampleRead>)
    ensures
        collected(reads).len() <= MAX_KEYFRAMES,
        !is_over(reads) ==> collected(reads).len() < MAX_KEYFRAMES,
    decreases reads.len(),
{
    if reads.len() > 0 {
        keyframes_are_limited(reads.drop_last());
    }
}

/// Whether times are in order.
pub open spec fn is_sorted(times: Seq<i64>) -> bool {
    forall|i: int, j: int| 0 <= i <= j < times.len() ==> times[i] <= times[j]
}

/// The times in order.
fn sort_times(times: &Vec<i64>) -> (sorted: Vec<i64>)
    ensures
        is_sorted(sorted@),
        sorted@.to_multiset() == times@.to_multiset(),
{
    broadcast use vstd::seq_lib::group_to_multiset_ensures;

    let mut sorted: Vec<i64> = Vec::new();
    let mut i: usize = 0;
    assert(times@.take(0) =~= Seq::empty());
    while i < times.len()
        invariant
            i <= times@.len(),
            is_sorted(sorted@),
            sorted@.to_multiset() == times@.take(i as int).to_multiset(),
        decreases times@.len() - i,
    {
        let time: i64 = times[i];
        let mut at: usize = sorted.len();
        while at > 0 && sorted[at - 1] > time
            invariant
                at <= sorted@.len(),
                is_sorted(sorted@),
                forall|k: int| at <= k < sorted@.len() ==> sorted@[k] > time,
            decreases at,
        {
            at -= 1;
        }
        let ghost before = sorted@;
        sorted.insert(at, time);
        proof {
            vstd::seq_lib::to_multiset_insert(before, at as int, time);
            vstd::seq_lib::to_multiset_build(times@.take(i as int), time);
            assert(times@.take(i + 1) =~= times@.take(i as int).push(time));
            assert forall|a: int, b: int| 0 <= a <= b < sorted@.len() implies sorted@[a]
                <= sorted@[b] by {
                let a0 = if a < at {
                    a
                } else {
                    a - 1
                };
                let b0 = if b < at {
                    b
                } else {
                    b - 1
                };
                if a != at && b != at {
                    assert(before[a0] <= before[b0]);
                } else if a == at && b != at {
                    assert(before[b0] > time);
                } else if b == at && a != at {
                    assert(before[a0] <= before[at - 1]);
                }
            }
        }
        i += 1;
    }
    assert(times@.take(times@.len() as int) =~= times@);
    sorted
}

/// The last of the keyframes at `time` or before it, 0 where there is none.
pub open spec fn nearest_before(keyframes: Seq<i64>, time: i64) -> i64
    decreases keyframes.len(),
{
    if keyframes.len() == 0 {
        0
    } else if keyframes.last() <= time {
        keyframes.last()
    } else {
        nearest_before(keyframes.drop_last(), time)
    }
}

proof fn lemma_nearest_before(keyframes: Seq<i64>, time: i64, n: int)
    requires
        0 <= n <= keyframes.len(),
        n > 0 ==> keyframes[n - 1] <= time,
        forall|i: int| n <= i < keyframes.len() ==> keyframes[i] > time,
    ensures
        nearest_before(keyframes, time) == if n > 0 {
            keyframes[n - 1]
        } else {
            0
        },
    decreases keyframes.len(),
{
    if n < keyframes.len() {
        lemma_nearest_before(keyframes.drop_last(), time, n);
    }
}

/// The last of the keyframes at `time` or before it, 0 where there is none.
pub fn nearest_keyframe_before(keyframes: &[i64], time: i64) -> (keyframe: i64)
    requires
        is_sorted(keyframes@),
    ensures
        keyframe == nearest_before(keyframes@, time),
{
    let mut known_before: usize = 0;
    let mut known_after: usize = keyframes.len();
    while known_before < known_after
        invariant
            is_sorted(keyframes@),
            known_before <= known_after <= keyframes@.len(),
            forall|i: int| 0 <= i < known_before ==> keyframes@[i] <= time,
            forall|i: int| known_after <= i < keyframes@.len() ==> keyframes@[i] > time,
        decreases known_after - known_before,
    {
        let probe: usize = known_before + (known_after - known_before) / 2;
        if keyframes[probe] <= time {
            known_before = probe + 1;
        } else {
            known_after = probe;
        }
    }
    proof {
        lemma_nearest_before(keyframes@, time, known_before as int);
    }
    if known_before == 0 {
        0
    } else {
        keyframes[known_before - 1]
    }
}

/// Where there is a keyframe at a time or before it, the nearest one is a
/// keyframe, not later than the time, and no other keyframe lies between.
pub proof fn nearest_keyframe_is_nearest(keyframes: Seq<i64>, time: i64)
    requires
        is_sorted(keyframes),
    ensures
        (exists|i: int| 0 <= i < keyframes.len() && keyframes[i] <= time) ==> {
            &&& keyframes.contains(nearest_before(keyframes, time))
            &&& nearest_before(keyframes, time) <= time
            &&& forall|i: int|
                0 <= i < keyframes.len() && #[trigger] keyframes[i] <= time ==> keyframes[i]
                    <= nearest_before(keyframes, time)
        },
        (forall|i: int| 0 <= i < keyframes.len() ==> keyframes[i] > time) ==> nearest_before(
            keyframes,
            time,
        ) == 0,
    decreases keyframes.len(),
{
    if keyframes.len() > 0 {
        let front = keyframes.drop_last();
        if keyframes.last() <= time {
            assert(keyframes[keyframes.len() - 1] == keyframes.last());
        } else {
            nearest_keyframe_is_nearest(front, time);
            if exists|i: int| 0 <= i < keyframes.len() && keyframes[i] <= time {
                let i = choose|i: int| 0 <= i < keyframes.len() && keyframes[i] <= time;
                assert(front[i] <= time);
                let k = front.index_of(nearest_before(front, time));
                assert(keyframes[k] == front[k]);
                assert forall|j: int|
                    0 <= j < keyframes.len() && #[trigger] keyframes[j] <= time implies keyframes[j]
                    <= nearest_before(keyframes, time) by {
                    assert(front[j] == keyframes[j]);
                }
            } else {
                assert forall|j: int| 0 <= j < front.len() implies front[j] > time by {
                    assert(keyframes[j] > time);
                }
            }
        }
    }
}

/// The keyframe nearest to a keyframe is that keyframe.
pub proof fn keyframes_stay(keyframes: Seq<i64>, i: int)
    requires
        is_sorted(keyframes),
        0 <= i < keyframes.len(),
    ensures
        nearest_before(keyframes, keyframes[i]) == keyframes[i],
{
    nearest_keyframe_is_nearest(keyframes, keyframes[i]);
}

/// The width and the height of a picture, and both parts of a frame rate, are found
/// again in the number that holds both.
pub proof fn halves_are_found_again(high: u32, low: u32, packed: u64)
    requires
        packed == high * 0x1_0000_0000 + low,
    ensures
        upper(packed) == high,
        lower(packed) == low,
        default_rate().frames == 30 * default_rate().seconds,
{
}

/// A walk collects the time of every keyframe that it reads, and of nothing else. A
/// read that fails, or comes to the end, ends it, and so do ten thousand keyframes;
/// what is read after that does not count.
pub proof fn walks_collect_keyframes(reads: Seq<SampleRead>, read: SampleRead)
    ensures
        collected(Seq::empty()).len() == 0 && !is_over(Seq::empty()),
        is_over(reads) ==> is_over(reads.push(read)) && collected(reads.push(read)) == collected(
            reads,
        ),
        read is Failed ==> is_over(reads.push(read)) && collected(reads.push(read)) == collected(
            reads,
        ),
        !is_over(reads) ==> (read matches SampleRead::Read { flags, timestamp, clean_point } ==> {
            let key = clean_point matches Some(n) && n != 0;
            let times = collected(reads.push(read));
            &&& flags & 2 != 0 ==> is_over(reads.push(read)) && times == collected(reads)
            &&& flags & 2 == 0 && key ==> times == collected(reads).push(timestamp)
            &&& flags & 2 == 0 && !key ==> times == collected(reads)
            &&& flags & 2 == 0 ==> (is_over(reads.push(read)) <==> times.len() >= 10000)
        }),
{
    assert(reads.push(read).drop_last() =~= reads);
    keyframes_are_limited(reads);
}

/// The value of a hexadecimal digit in upper case.
pub open spec fn hex_value(c: char) -> int {
    if c <= '9' {
        c as int - 48
    } else {
        c as int - 55
    }
}

/// A number in hexadecimal digits has as many digits as it is given. Each is a
/// digit or one of the letters from A to F, and the last one is the number modulo
/// 16, the others the number without it.
pub proof fn hexadecimal_digits_read_back(n: nat, width: nat)
    requires
        width > 0,
    ensures
        hex(n, width).len() == width,
        hex_value(hex(n, width)[width - 1]) == n % 16,
        '0' <= hex(n, width)[width - 1] <= '9' || 'A' <= hex(n, width)[width - 1] <= 'F',
        hex(n, width).take(width - 1) == hex(n / 16, (width - 1) as nat),
{
    lemma_hex_len(n, width);
    lemma_hex_len(n / 16, (width - 1) as nat);
    assert(hex(n, width).take(width - 1) =~= hex(n / 16, (width - 1) as nat));
}

proof fn lemma_hex_len(n: nat, width: nat)
    ensures
        hex(n, width).len() == width,
    decreases width,
{
    if width > 0 {
        lemma_hex_len(n / 16, (width - 1) as nat);
    }
}

/// A codec that has no name is called by its number: 32 digits in five groups,
/// which dashes separate.
pub proof fn unknown_codecs_are_called_by_their_number(guid: u128)
    ensures
        guid_text(guid).len() == 36,
        guid_text(guid)[8] == '-',
        guid_text(guid)[13] == '-',
        guid_text(guid)[18] == '-',
        guid_text(guid)[23] == '-',
        guid_text(guid).subrange(0, 8) + guid_text(guid).subrange(9, 13) + guid_text(guid).subrange(
            14,
            18,
        ) + guid_text(guid).subrange(19, 23) + guid_text(guid).subrange(24, 36) == hex(
            guid as nat,
            32,
        ),
        video_codec(guid).len() > 5 ==> video_codec(guid) == guid_text(guid),
        audio_codec(guid).len() > 5 ==> audio_codec(guid) == guid_text(guid),
{
    reveal_strlit("-");
    reveal_strlit("h264");
    reveal_strlit("hevc");
    reveal_strlit("vp9");
    reveal_strlit("av1");
    reveal_strlit("aac");
    reveal_strlit("mp3");
    reveal_strlit("pcm");
    reveal_strlit("float");
    lemma_hex_len(guid as nat, 32);
    let text = guid_text(guid);
    assert(text.subrange(0, 8) + text.subrange(9, 13) + text.subrange(14, 18) + text.subrange(
        19,
        23,
    ) + text.subrange(24, 36) =~= hex(guid as nat, 32));
}

/// A codec has a name if and only if it is one of eight. The numbers of the video
/// codecs begin with their four letters, the last one first, those of the audio
/// codecs with their tags.
pub proof fn known_codecs_have_names(guid: u128)
    ensures
        video_codec(guid) == "h264"@ <==> guid == 0x34363248_0000_0010_8000_00aa00389b71,
        video_codec(guid) == "hevc"@ <==> guid == 0x35363248_0000_0010_8000_00aa00389b71,
        video_codec(guid) == "vp9"@ <==> guid == 0x30395056_0000_0010_8000_00aa00389b71,
        video_codec(guid) == "av1"@ <==> guid == 0x31305641_0000_0010_8000_00aa00389b71,
        audio_codec(guid) == "aac"@ <==> guid == 0x00001610_0000_0010_8000_00aa00389b71,
        audio_codec(guid) == "mp3"@ <==> guid == 0x00000055_0000_0010_8000_00aa00389b71,
        audio_codec(guid) == "pcm"@ <==> guid == 0x00000001_0000_0010_8000_00aa00389b71,
        audio_codec(guid) == "float"@ <==> guid == 0x00000003_0000_0010_8000_00aa00389b71,
        video_codec(guid).len() <= 4 || video_codec(guid) == guid_text(guid),
        audio_codec(guid).len() <= 5 || audio_codec(guid) == guid_text(guid),
{
    unknown_codecs_are_called_by_their_number(guid);
    reveal_strlit("h264");
    reveal_strlit("hevc");
    reveal_strlit("vp9");
    reveal_strlit("av1");
    reveal_strlit("aac");
    reveal_strlit("mp3");
    reveal_strlit("pcm");
    reveal_strlit("float");
    assert("h264"@[1] != "hevc"@[1]);
    assert("vp9"@[0] != "av1"@[0]);
    assert("aac"@[0] != "mp3"@[0] && "aac"@[0] != "pcm"@[0] && "mp3"@[0] != "pcm"@[0]);
}

} // verus!
