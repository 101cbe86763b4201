//! How a recording is asked for, and what is asked of the capture pipeline.
use vstd::prelude::*;

use crate::number::{decimal, decimal_reads_back};
use crate::text::same_text;

verus! {

/// What a recording is asked for with. What is left out comes from the
/// settings.
#[derive(Debug, Clone)]
pub struct StartRecordingOpts {
    pub source_id: Option<String>,
    pub fps: Option<u32>,
    pub no_audio: Option<bool>,
    pub mic_device: Option<String>,
    pub loopback_device: Option<String>,
}

/// The settings that a recording depends on.
#[derive(Debug, Clone)]
pub struct RecordingSettings {
    pub fps: u32,
    pub capture_audio: bool,
    pub resolution: String,
    /// In seconds.
    pub buffer_duration: u32,
}

/// What is asked of the capture pipeline.
#[derive(Debug, Clone)]
pub struct CaptureOptions {
    pub source_id: Option<String>,
    pub fps: u32,
    /// In a recording into segments: that there is no sound at all. The replay
    /// buffer always records the sound of the desktop.
    pub no_audio: bool,
    /// That the microphone is left out of the replay buffer.
    pub no_mic: bool,
    pub mic_device: Option<String>,
    pub loopback_device: Option<String>,
    pub target_width: Option<u32>,
    pub target_height: Option<u32>,
    pub bitrate_kbps: u32,
    /// In seconds.
    pub segment_duration: u32,
    /// In seconds.
    pub buffer_duration: u32,
    pub segment_dir: String,
}

/// What a capture reports once it runs.
#[derive(Debug, Clone)]
pub struct CaptureReadyInfo {
    pub width: u32,
    pub height: u32,
    pub fps: u32,
    pub segment_dir: String,
}

/// Length of the segments of a recording, in seconds.
pub const SEGMENT_SECONDS: u32 = 3;

/// The width and height that a resolution stands for.
pub open spec fn target_res(setting: Seq<char>) -> Option<(u32, u32)> {
    if setting == "480p"@ {
        Some((854, 480))
    } else if setting == "720p"@ {
        Some((1280, 720))
    } else if setting == "1080p"@ {
        Some((1920, 1080))
    } else if setting == "1440p"@ {
        Some((2560, 1440))
    } else if setting == "4k"@ {
        Some((3840, 2160))
    } else {
        None
    }
}

/// The width and height that a resolution stands for.
pub fn resolve_target_res(setting: &str) -> (res: Option<(u32, u32)>)
    ensures
        res == target_res(setting@),
{
    if same_text(setting, "480p") {
        Some((854, 480))
    } else if same_text(setting, "720p") {
        Some((1280, 720))
    } else if same_text(setting, "1080p") {
        Some((1920, 1080))
    } else if same_text(setting, "1440p") {
        Some((2560, 1440))
    } else if same_text(setting, "4k") {
        Some((3840, 2160))
    } else {
        None
    }
}

/// The bitrate in kbit/s for a resolution, below and from 50 frames a second.
pub open spec fn bitrates(resolution: Seq<char>) -> (u32, u32) {
    if resolution == "480p"@ {
        (2500, 4000)
    } else if resolution == "720p"@ {
        (5000, 8000)
    } else if resolution == "1080p"@ {
        (12000, 20000)
    } else if resolution == "1440p"@ {
        (30000, 50000)
    } else if resolution == "4k"@ {
        (50000, 80000)
    } else {
        (5000, 8000)
    }
}

/// The bitrate in kbit/s for a resolution and a frame rate.
pub open spec fn game_bar_bitrate(resolution: Seq<char>, fps: u32) -> u32 {
    if fps >= 50 {
        bitrates(resolution).1
    } else {
        bitrates(resolution).0
    }
}

/// The bitrate in kbit/s for a resolution and a frame rate.
pub fn resolve_game_bar_bitrate(resolution: &str, fps: u32) -> (bitrate_kbps: u32)
    ensures
        bitrate_kbps == game_bar_bitrate(resolution@, fps),
{
    let (below, from): (u32, u32) = if same_text(resolution, "480p") {
        (2500, 4000)
    } else if same_text(resolution, "720p") {
        (5000, 8000)
    } else if same_text(resolution, "1080p") {
        (12000, 20000)
    } else if same_text(resolution, "1440p") {
        (30000, 50000)
    } else if same_text(resolution, "4k") {
        (50000, 80000)
    } else {
        (5000, 8000)
    };
    if fps >= 50 {
        from
    } else {
        below
    }
}

/// Every bitrate that a resolution resolves to can be set up in an encoder,
/// twice over in bits per second.
pub proof fn bitrates_can_be_encoded(resolution: Seq<char>, fps: u32)
    ensures
        game_bar_bitrate(resolution, fps) * 2000 <= u32::MAX,
{
}

/// What is asked of the pipeline for a recording. It captures at the size of
/// the source, and never without audio: a recording that is asked for without
/// is one without the microphone.
pub fn capture_options(
    opts: StartRecordingOpts,
    settings: &RecordingSettings,
    segment_dir: String,
) -> (options: CaptureOptions)
    ensures
        options.source_id == opts.source_id,
        options.fps == opts.fps.unwrap_or(settings.fps),
        !options.no_audio,
        options.no_mic == opts.no_audio.unwrap_or(!settings.capture_audio),
        options.mic_device == opts.mic_device,
        options.loopback_device == opts.loopback_device,
        options.target_width is None,
        options.target_height is None,
        options.bitrate_kbps == game_bar_bitrate(
            settings.resolution@,
            opts.fps.unwrap_or(settings.fps),
        ),
        options.segment_duration == SEGMENT_SECONDS,
        options.buffer_duration == settings.buffer_duration,
        options.segment_dir == segment_dir,
{
    let fps: u32 = opts.fps.unwrap_or(settings.fps);
    CaptureOptions {
        source_id: opts.source_id,
        fps,
        no_audio: false,
        no_mic: opts.no_audio.unwrap_or(!settings.capture_audio),
        mic_device: opts.mic_device,
        loopback_device: opts.loopback_device,
        target_width: None,
        target_height: None,
        bitrate_kbps: resolve_game_bar_bitrate(settings.resolution.as_str(), fps),
        segment_duration: SEGMENT_SECONDS,
        buffer_duration: settings.buffer_duration,
        segment_dir,
    }
}

/// What the audio of a recording is taken from.
#[derive(Debug, Clone)]
pub struct AudioSources {
    /// Whether the sound of the desktop is recorded.
    pub desktop: bool,
    /// The device whose sound is recorded, `None` for the default one.
    pub loopback_device: Option<String>,
    /// The microphone that is mixed in.
    pub mic_device: Option<String>,
}

/// What the audio of a recording is taken from. The sound of the desktop is
/// always recorded; only the microphone can be left out.
pub fn audio_sources(options: &CaptureOptions) -> (sources: AudioSources)
    ensures
        sources.desktop,
        sources.loopback_device.deep_view() == options.loopback_device.deep_view(),
        sources.mic_device.deep_view() == if options.no_mic {
            None
        } else {
            options.mic_device.deep_view()
        },
{
    AudioSources {
        desktop: true,
        loopback_device: options.loopback_device.clone(),
        mic_device: if options.no_mic {
            None
        } else {
            options.mic_device.clone()
        },
    }
}

proof fn lemma_heights(height: nat)
    ensures
        decimal(height) + "p"@ == "480p"@ <==> height == 480,
        decimal(height) + "p"@ == "720p"@ <==> height == 720,
        decimal(height) + "p"@ == "1080p"@ <==> height == 1080,
        decimal(height) + "p"@ == "1440p"@ <==> height == 1440,
        decimal(height) + "p"@ != "4k"@,
{
    reveal_strlit("p");
    reveal_strlit("480p");
    reveal_strlit("720p");
    reveal_strlit("1080p");
    reveal_strlit("1440p");
    reveal_strlit("4k");
    reveal_with_fuel(decimal, 5);
    let text = decimal(height) + "p"@;
    assert(text.last() == 'p');
    assert(decimal(480) + "p"@ =~= "480p"@);
    assert(decimal(720) + "p"@ =~= "720p"@);
    assert(decimal(1080) + "p"@ =~= "1080p"@);
    assert(decimal(1440) + "p"@ =~= "1440p"@);
    lemma_same_number(height, 480);
    lemma_same_number(height, 720);
    lemma_same_number(height, 1080);
    lemma_same_number(height, 1440);
    assert("4k"@.last() == 'k');
}

proof fn lemma_same_number(a: nat, b: nat)
    ensures
        decimal(a) + "p"@ == decimal(b) + "p"@ ==> a == b,
{
    if decimal(a) + "p"@ == decimal(b) + "p"@ {
        let x = decimal(a) + "p"@;
        let y = decimal(b) + "p"@;
        assert(decimal(a) =~= x.take(x.len() - "p"@.len()));
        assert(decimal(b) =~= y.take(y.len() - "p"@.len()));
        decimal_reads_back(a, (a + b) as int);
        decimal_reads_back(b, (a + b) as int);
    }
}

/// A resolution is named after its height, but for `4k`, which has twice the lines
/// of `1080p`. The picture is 16 wide for every 9 it is high, to the next pixel.
pub proof fn resolutions_are_named_after_their_height(height: nat)
    ensures
        target_res(decimal(height) + "p"@) matches Some((_, lines)) ==> lines == height,
        target_res(decimal(height) + "p"@) is Some <==> height == 480 || height == 720 || height
            == 1080 || height == 1440,
        target_res("4k"@) matches Some((_, lines)) && lines == 2 * 1080,
        forall|name: Seq<char>| (#[trigger] target_res(name)) matches Some((width, lines)) ==> -9
            < 9 * width - 16 * lines < 9,
{
    lemma_heights(height);
    reveal_strlit("480p");
    reveal_strlit("720p");
    reveal_strlit("1080p");
    reveal_strlit("1440p");
    reveal_strlit("4k");
    assert("4k"@.len() == 2);
}

/// More frames a second never get a lower bitrate, and from 50 on a higher one; a
/// resolution that is not known gets that of `720p`.
pub proof fn bitrates_grow_with_the_frame_rate(resolution: Seq<char>, fewer: u32, more: u32)
    requires
        fewer <= more,
    ensures
        game_bar_bitrate(resolution, fewer) <= game_bar_bitrate(resolution, more),
        game_bar_bitrate(resolution, fewer) < game_bar_bitrate(resolution, more) <==> fewer < 50
            <= more,
        target_res(resolution) is None ==> game_bar_bitrate(resolution, fewer) == game_bar_bitrate(
            "720p"@,
            fewer,
        ),
{
    reveal_strlit("480p");
    reveal_strlit("720p");
    assert("480p"@[0] != "720p"@[0]);
}

/// A picture with more lines gets a higher bitrate, except that an unknown one is
/// taken for `720p`.
pub proof fn bitrates_grow_with_the_resolution(a: Seq<char>, b: Seq<char>, fps: u32)
    ensures
        target_res(a) matches Some((_, low)) ==> target_res(b) matches Some((_, high)) ==> low < high
            ==> game_bar_bitrate(a, fps) < game_bar_bitrate(b, fps),
{
}

} // verus!
