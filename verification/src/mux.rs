//! How a clip is written to a file: the formats of its streams, and the time of
//! each sample, counted from the first video frame.
use vstd::prelude::*;

use crate::clock::{AUDIO_CHANNELS, AUDIO_SAMPLE_RATE};
use crate::encoder::{LEVEL_4_2, PROFILE_HIGH};
use crate::media_type::pack_u64;
use crate::pipeline::{OUTPUT_HEIGHT, OUTPUT_WIDTH};
use crate::ring::{chunks, frames, AudioChunk, Chunk, EncodedFrame, Frame};

verus! {

/// Bits of a PCM sample.
pub const AUDIO_BITS_PER_SAMPLE: u32 = 16;

/// Bytes of the PCM samples of all channels at one time.
pub const AUDIO_BLOCK_ALIGN: u32 = 4;

/// Bytes of AAC audio per second.
pub const AAC_BYTES_PER_SECOND: u32 = 24_000;

/// The format of the video stream, which is written as it was encoded.
#[derive(Debug, Clone, Copy, PartialEq, Eq, Structural)]
pub struct VideoFormat {
    /// Width and height, packed.
    pub frame_size: u64,
    /// Numerator and denominator, packed.
    pub frame_rate: u64,
    /// Numerator and denominator, packed.
    pub pixel_aspect_ratio: u64,
    pub profile: u32,
    pub level: u32,
    /// In bits per second.
    pub avg_bitrate: u32,
}

/// The formats of the audio stream: PCM that goes in, AAC that is written.
#[derive(Debug, Clone, Copy, PartialEq, Eq, Structural)]
pub struct AudioFormat {
    pub sample_rate: u32,
    pub channels: u32,
    pub bits_per_sample: u32,
    pub block_align: u32,
    pub pcm_bytes_per_second: u32,
    pub aac_bytes_per_second: u32,
}

/// When a sample of the file is presented.
#[derive(Debug, Clone, Copy, PartialEq, Eq, Structural)]
pub struct SampleStamp {
    pub time_100ns: i128,
    pub duration_100ns: i64,
    /// Whether decoding can start here.
    pub clean_point: bool,
}

/// How a clip is written to a file.
pub struct MuxPlan {
    pub video_format: VideoFormat,
    /// `None` where there is no audio.
    pub audio_format: Option<AudioFormat>,
    pub video: Vec<SampleStamp>,
    pub audio: Vec<SampleStamp>,
}

/// Why a clip cannot be written.
#[derive(Debug, Clone, Copy, PartialEq, Eq, Structural)]
pub enum MuxError {
    NoVideoFrames,
}

impl MuxError {
    /// What the error says.
    pub fn message(&self) -> (text: String)
        ensures
            text@ == "No video frames to mux"@,
    {
        "No video frames to mux".to_owned()
    }
}

/// The stamp of a video frame in a clip that starts at `base`.
pub open spec fn video_stamp(frame: Frame, base: int) -> SampleStamp {
    SampleStamp {
        time_100ns: (frame.pts - base) as i128,
        duration_100ns: frame.duration as i64,
        clean_point: frame.key,
    }
}

/// The stamp of an audio chunk in a clip that starts at `base`. A chunk that
/// began before the clip is presented at its start.
pub open spec fn audio_stamp<S>(chunk: Chunk<S>, base: int) -> SampleStamp {
    SampleStamp {
        time_100ns: if chunk.pts < base {
            0
        } else {
            (chunk.pts - base) as i128
        },
        duration_100ns: chunk.duration as i64,
        clean_point: false,
    }
}

/// Plans how the frames and chunks of a clip are written.
pub fn plan_mux<S>(
    video: &Vec<EncodedFrame>,
    audio: &Vec<AudioChunk<S>>,
    fps: u32,
    mean_bitrate: u32,
) -> (plan: Result<MuxPlan, MuxError>)
    ensures
        match plan {
            Ok(plan) => {
                let base = video@[0].pts_100ns as int;
                &&& video@.len() > 0
                &&& plan.video_format.frame_size == OUTPUT_WIDTH * 0x1_0000_0000 + OUTPUT_HEIGHT
                &&& plan.video_format.frame_rate == fps * 0x1_0000_0000 + 1
                &&& plan.video_format.pixel_aspect_ratio == 0x1_0000_0000 + 1
                &&& plan.video_format.profile == PROFILE_HIGH
                &&& plan.video_format.level == LEVEL_4_2
                &&& plan.video_format.avg_bitrate == mean_bitrate
                &&& plan.audio_format == if audio@.len() == 0 {
                    None
                } else {
                    Some(
                        AudioFormat {
                            sample_rate: AUDIO_SAMPLE_RATE,
                            channels: AUDIO_CHANNELS,
                            bits_per_sample: AUDIO_BITS_PER_SAMPLE,
                            block_align: AUDIO_BLOCK_ALIGN,
                            pcm_bytes_per_second: 192_000,
                            aac_bytes_per_second: AAC_BYTES_PER_SECOND,
                        },
                    )
                }
                &&& plan.video@ == frames(video@).map_values(|f: Frame| video_stamp(f, base))
                &&& plan.audio@ == chunks(audio@).map_values(|c: Chunk<S>| audio_stamp(c, base))
            },
            Err(error) => video@.len() == 0 && error == MuxError::NoVideoFrames,
        },
{
    if video.len() == 0 {
        return Err(MuxError::NoVideoFrames);
    }
    let base_pts: i64 = video[0].pts_100ns;
    let ghost base = base_pts as int;
    let mut video_stamps: Vec<SampleStamp> = Vec::new();
    let mut i: usize = 0;
    while i < video.len()
        invariant
            i <= video@.len(),
            video_stamps@.len() == i,
            base == base_pts,
            forall|k: int|
                0 <= k < i ==> #[trigger] video_stamps@[k] == video_stamp(video@[k]@, base),
        decreases video@.len() - i,
    {
        let frame = &video[i];
        video_stamps.push(
            SampleStamp {
                time_100ns: frame.pts_100ns as i128 - base_pts as i128,
                duration_100ns: frame.duration_100ns,
                clean_point: frame.is_keyframe,
            },
        );
        i += 1;
    }
    let mut audio_stamps: Vec<SampleStamp> = Vec::new();
    let mut j: usize = 0;
    while j < audio.len()
        invariant
            j <= audio@.len(),
            audio_stamps@.len() == j,
            base == base_pts,
            forall|k: int|
                0 <= k < j ==> #[trigger] audio_stamps@[k] == audio_stamp(audio@[k]@, base),
        decreases audio@.len() - j,
    {
        let chunk = &audio[j];
        audio_stamps.push(
            SampleStamp {
                time_100ns: if chunk.pts_100ns < base_pts {
                    0
                } else {
                    chunk.pts_100ns as i128 - base_pts as i128
                },
                duration_100ns: chunk.duration_100ns,
                clean_point: false,
            },
        );
        j += 1;
    }
    assert(video_stamps@ =~= frames(video@).map_values(|f: Frame| video_stamp(f, base)));
    assert(audio_stamps@ =~= chunks(audio@).map_values(|c: Chunk<S>| audio_stamp(c, base)));
    let audio_format: Option<AudioFormat> = if audio.len() == 0 {
        None
    } else {
        Some(
            AudioFormat {
                sample_rate: AUDIO_SAMPLE_RATE,
                channels: AUDIO_CHANNELS,
                bits_per_sample: AUDIO_BITS_PER_SAMPLE,
                block_align: AUDIO_BLOCK_ALIGN,
                pcm_bytes_per_second: AUDIO_SAMPLE_RATE * AUDIO_BLOCK_ALIGN,
                aac_bytes_per_second: AAC_BYTES_PER_SECOND,
            },
        )
    };
    Ok(
        MuxPlan {
            video_format: VideoFormat {
                frame_size: pack_u64(OUTPUT_WIDTH, OUTPUT_HEIGHT),
                frame_rate: pack_u64(fps, 1),
                pixel_aspect_ratio: pack_u64(1, 1),
                profile: PROFILE_HIGH,
                level: LEVEL_4_2,
                avg_bitrate: mean_bitrate,
            },
            audio_format,
            video: video_stamps,
            audio: audio_stamps,
        },
    )
}

/// A block of PCM holds one sample of each channel.
pub proof fn audio_blocks_hold_all_channels()
    ensures
        AUDIO_BLOCK_ALIGN == AUDIO_CHANNELS * (AUDIO_BITS_PER_SAMPLE / 8),
{
}

/// Writing a clip moves its frames in time, all by the same amount: the first
/// one is presented at 0, and the distances between frames stay.
pub proof fn clip_times_start_at_zero(video: Seq<Frame>, i: int, j: int)
    requires
        0 <= i < video.len(),
        0 <= j < video.len(),
        forall|k: int|
            0 <= k < video.len() ==> i64::MIN <= (#[trigger] video[k]).pts <= i64::MAX,
    ensures
        video_stamp(video[0], video[0].pts).time_100ns == 0,
        video_stamp(video[j], video[0].pts).time_100ns - video_stamp(
            video[i],
            video[0].pts,
        ).time_100ns == video[j].pts - video[i].pts,
        video_stamp(video[i], video[0].pts).clean_point == video[i].key,
{
}

/// No audio is presented before the clip starts.
pub proof fn clip_audio_never_starts_early<S>(chunk: Chunk<S>, base: int)
    requires
        i64::MIN <= base <= i64::MAX,
        i64::MIN <= chunk.pts <= i64::MAX,
    ensures
        audio_stamp(chunk, base).time_100ns >= 0,
        chunk.pts >= base ==> audio_stamp(chunk, base).time_100ns == chunk.pts - base,
{
}

/// Writing a clip changes nothing of a frame or a chunk but its time: how long it
/// is, and whether decoding can start there, stay. Audio that began before the clip
/// is presented with its first frame, and no audio is moved otherwise than the
/// frames beside it.
pub proof fn sound_and_picture_stay_together<S>(frame: Frame, chunk: Chunk<S>, base: int)
    requires
        i64::MIN <= base <= i64::MAX,
        i64::MIN <= frame.pts <= i64::MAX,
        i64::MIN <= frame.duration <= i64::MAX,
        i64::MIN <= chunk.pts <= i64::MAX,
        i64::MIN <= chunk.duration <= i64::MAX,
    ensures
        video_stamp(frame, base).duration_100ns == frame.duration,
        video_stamp(frame, base).clean_point == frame.key,
        audio_stamp(chunk, base).duration_100ns == chunk.duration,
        !audio_stamp(chunk, base).clean_point,
        chunk.pts <= base ==> audio_stamp(chunk, base).time_100ns == 0,
        chunk.pts >= base ==> audio_stamp(chunk, base).time_100ns - video_stamp(
            frame,
            base,
        ).time_100ns == chunk.pts - frame.pts,
{
}

/// Sound is written with two channels of 16 bits, 48000 times a second, and
/// compressed to 192 kbit/s.
pub proof fn sound_has_the_usual_format()
    ensures
        AUDIO_SAMPLE_RATE == 48_000,
        AUDIO_CHANNELS == 2,
        AUDIO_BITS_PER_SAMPLE == 16,
        AUDIO_SAMPLE_RATE * AUDIO_BLOCK_ALIGN == 192_000,
        8 * AAC_BYTES_PER_SECOND == 192_000,
{
}

} // verus!
