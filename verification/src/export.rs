//! Exporting a clip with FFmpeg: what it is run with, and what follows from how
//! a run ended. Times are in microseconds; FFmpeg is given them in seconds,
//! rounded to three decimals.
use vstd::prelude::*;

use crate::clips::answered;
use crate::number::{
    decimal, decimal_reads_back, decimals_have_no_leading_zeros, hundredths, hundredths_read_back,
    parsed, push_hundredths, push_thousandths, thousandths,
};
use crate::path::{join_path, joined};
use crate::recording::target_res;
use crate::segments::is_switched;
use crate::text::{
    contains_text, final_line, first_line, has_text, initial_line, last_line,
    last_lines_stand_behind_the_last_feed, parts_stand_between_texts, push_text, same_text, trim,
    trimmed,
};

verus! {

/// A part that is cut out of a clip.
#[derive(Debug, Clone, Copy)]
pub struct CutRange {
    pub start: i64,
    pub end: i64,
}

/// How a clip is exported.
#[derive(Debug, Clone)]
pub struct ExportOpts {
    pub format: Option<String>,
    pub aspect_ratio: Option<String>,
    pub resolution: Option<String>,
    pub encoder: Option<String>,
    pub fps: Option<u32>,
    pub trim_start: Option<i64>,
    pub trim_end: Option<i64>,
    pub cuts: Option<Vec<CutRange>>,
    /// In percent, as the next two.
    pub brightness: Option<u32>,
    pub contrast: Option<u32>,
    pub saturation: Option<u32>,
}

/// The encoder that an export runs with.
#[derive(Debug, Clone, Copy, PartialEq, Eq, Structural)]
pub enum Encoder {
    /// The encoder of the graphics card.
    Nvenc,
    /// The encoder that is used where there is no other.
    Software,
}

/// The filter that scales to a resolution.
pub open spec fn scale_filter(resolution: Option<Seq<char>>) -> Option<Seq<char>> {
    if resolution == Some("480p"@) {
        Some("scale=854:480"@)
    } else if resolution == Some("720p"@) {
        Some("scale=1280:720"@)
    } else if resolution == Some("1080p"@) {
        Some("scale=1920:1080"@)
    } else if resolution == Some("1440p"@) {
        Some("scale=2560:1440"@)
    } else if resolution == Some("4k"@) {
        Some("scale=3840:2160"@)
    } else {
        None
    }
}

/// The filter that crops to an aspect ratio.
pub open spec fn crop_filter(aspect_ratio: Option<Seq<char>>) -> Option<Seq<char>> {
    if aspect_ratio == Some("9:16"@) {
        Some("crop=ih*9/16:ih"@)
    } else if aspect_ratio == Some("1:1"@) {
        Some("crop=min(iw\\,ih):min(iw\\,ih)"@)
    } else if aspect_ratio == Some("4:5"@) {
        Some("crop=ih*4/5:ih"@)
    } else {
        None
    }
}

/// A percentage, 100 where there is none.
pub open spec fn percent(value: Option<u32>) -> int {
    match value {
        Some(value) => value as int,
        None => 100,
    }
}

/// The filter that adjusts the picture.
pub open spec fn eq_filter(
    brightness: Option<u32>,
    contrast: Option<u32>,
    saturation: Option<u32>,
) -> Option<Seq<char>> {
    if brightness is None && contrast is None && saturation is None {
        None
    } else {
        Some(
            "eq=brightness="@ + hundredths(percent(brightness) - 100) + ":contrast="@ + hundredths(
                percent(contrast),
            ) + ":saturation="@ + hundredths(percent(saturation)),
        )
    }
}

/// A chain of filters with one more behind it.
pub open spec fn then_filter(chain: Option<Seq<char>>, more: Option<Seq<char>>) -> Option<
    Seq<char>,
> {
    match (chain, more) {
        (Some(chain), Some(more)) => Some(chain + ","@ + more),
        (None, more) => more,
        (chain, None) => chain,
    }
}

impl ExportOpts {
    /// The filters of an export: the picture is scaled, then cropped, then
    /// adjusted.
    pub open spec fn filters(&self) -> Option<Seq<char>> {
        then_filter(
            then_filter(
                scale_filter(self.resolution.deep_view()),
                crop_filter(self.aspect_ratio.deep_view()),
            ),
            eq_filter(self.brightness, self.contrast, self.saturation),
        )
    }

    /// Where an export starts in the clip, if that is not at its beginning.
    pub open spec fn seek(&self) -> Option<nat> {
        match self.trim_start {
            Some(start) => if start > 0 {
                Some(start as nat)
            } else {
                None
            },
            None => None,
        }
    }

    /// How long an export is, if it does not go on to the end of the clip.
    pub open spec fn length(&self) -> Option<nat> {
        match self.trim_end {
            Some(end) => {
                let start = match self.trim_start {
                    Some(start) => start as int,
                    None => 0,
                };
                if end > start {
                    Some((end - start) as nat)
                } else {
                    None
                }
            },
            None => None,
        }
    }
}

/// A switch that is followed by a time, where there is one, to the nearest
/// millisecond.
pub open spec fn time_args(switch: Seq<char>, time: Option<nat>) -> Seq<Seq<char>> {
    match time {
        Some(time) => seq![switch, thousandths((time + 500) / 1000)],
        None => Seq::empty(),
    }
}

/// What selects an encoder.
pub open spec fn encoder_args(encoder: Encoder) -> Seq<Seq<char>> {
    match encoder {
        Encoder::Nvenc => seq![
            "-c:v"@,
            "h264_nvenc"@,
            "-preset"@,
            "p7"@,
            "-rc"@,
            "vbr"@,
            "-cq"@,
            "18"@,
            "-b:v"@,
            "20M"@,
            "-maxrate"@,
            "30M"@,
        ],
        Encoder::Software => seq![
            "-c:v"@,
            "libx264"@,
            "-preset"@,
            "medium"@,
            "-crf"@,
            "18"@,
        ],
    }
}

/// What selects the filters, where there are any.
pub open spec fn filter_args(filters: Option<Seq<char>>) -> Seq<Seq<char>> {
    match filters {
        Some(filters) => seq!["-vf"@, filters],
        None => Seq::empty(),
    }
}

/// What stands before the encoder: the part of the clip that is exported, and
/// the frame rate, which is always 60.
pub open spec fn input_args(input: Seq<char>, opts: &ExportOpts) -> Seq<Seq<char>> {
    seq!["-y"@] + time_args("-ss"@, opts.seek()) + seq!["-i"@, input] + time_args(
        "-t"@,
        opts.length(),
    ) + seq!["-r"@, "60"@]
}

/// What stands behind the encoder: the filters, the audio encoder and the
/// output.
pub open spec fn output_args(output: Seq<char>, opts: &ExportOpts) -> Seq<Seq<char>> {
    filter_args(opts.filters()) + seq!["-c:a"@, "aac"@, "-b:a"@, "192k"@, output]
}

/// What FFmpeg is run with for an export.
pub open spec fn export_args(
    input: Seq<char>,
    output: Seq<char>,
    opts: &ExportOpts,
    encoder: Encoder,
) -> Seq<Seq<char>> {
    input_args(input, opts) + encoder_args(encoder) + output_args(output, opts)
}

/// Whether there is a text, and it is `expected`.
fn is_text(text: &Option<String>, expected: &str) -> (same: bool)
    ensures
        same == (text.deep_view() == Some(expected@)),
{
    match text {
        Some(text) => same_text(text.as_str(), expected),
        None => false,
    }
}

/// The filter that scales to a resolution.
fn scale_of(resolution: &Option<String>) -> (filter: Option<&'static str>)
    ensures
        filter.deep_view() == scale_filter(resolution.deep_view()),
{
    if is_text(resolution, "480p") {
        Some("scale=854:480")
    } else if is_text(resolution, "720p") {
        Some("scale=1280:720")
    } else if is_text(resolution, "1080p") {
        Some("scale=1920:1080")
    } else if is_text(resolution, "1440p") {
        Some("scale=2560:1440")
    } else if is_text(resolution, "4k") {
        Some("scale=3840:2160")
    } else {
        None
    }
}

/// The filter that crops to an aspect ratio.
fn crop_of(aspect_ratio: &Option<String>) -> (filter: Option<&'static str>)
    ensures
        filter.deep_view() == crop_filter(aspect_ratio.deep_view()),
{
    if is_text(aspect_ratio, "9:16") {
        Some("crop=ih*9/16:ih")
    } else if is_text(aspect_ratio, "1:1") {
        Some("crop=min(iw\\,ih):min(iw\\,ih)")
    } else if is_text(aspect_ratio, "4:5") {
        Some("crop=ih*4/5:ih")
    } else {
        None
    }
}

/// The filter that adjusts the picture.
fn eq_of(brightness: Option<u32>, contrast: Option<u32>, saturation: Option<u32>) -> (filter:
    Option<String>)
    ensures
        filter.deep_view() == eq_filter(brightness, contrast, saturation),
{
    if brightness.is_none() && contrast.is_none() && saturation.is_none() {
        return None;
    }
    let mut filter = "eq=brightness=".to_owned();
    push_hundredths(&mut filter, brightness.unwrap_or(100) as i64 - 100);
    filter.append(":contrast=");
    push_hundredths(&mut filter, contrast.unwrap_or(100) as i64);
    filter.append(":saturation=");
    push_hundredths(&mut filter, saturation.unwrap_or(100) as i64);
    Some(filter)
}

/// Puts one more filter behind a chain of filters.
fn add_filter(chain: Option<String>, more: &str) -> (filters: Option<String>)
    ensures
        filters.deep_view() == then_filter(chain.deep_view(), Some(more@)),
{
    match chain {
        Some(chain) => {
            let mut filters = chain;
            filters.append(",");
            filters.append(more);
            Some(filters)
        },
        None => Some(more.to_owned()),
    }
}

/// The filters of an export.
fn filters_of(opts: &ExportOpts) -> (filters: Option<String>)
    ensures
        filters.deep_view() == opts.filters(),
{
    let mut filters: Option<String> = None;
    if let Some(scale) = scale_of(&opts.resolution) {
        filters = add_filter(filters, scale);
    }
    if let Some(crop) = crop_of(&opts.aspect_ratio) {
        filters = add_filter(filters, crop);
    }
    if let Some(eq) = eq_of(opts.brightness, opts.contrast, opts.saturation) {
        filters = add_filter(filters, eq.as_str());
    }
    filters
}

/// Appends a switch and a time.
fn push_time(args: &mut Vec<String>, switch: &str, time: u64)
    ensures
        final(args).deep_view() == old(args).deep_view() + time_args(switch@, Some(time as nat)),
{
    let ghost before = args.deep_view();
    push_text(args, switch);
    let mut text = String::new();
    let millis: u64 = time / 1000 + if time % 1000 >= 500 {
        1
    } else {
        0
    };
    push_thousandths(&mut text, millis);
    assert(millis == (time + 500) / 1000);
    assert(text@ =~= thousandths(millis as nat));
    push_text(args, text.as_str());
    assert(args.deep_view() =~= before + time_args(switch@, Some(time as nat)));
}

/// Appends what stands before the encoder.
fn push_input(args: &mut Vec<String>, input: &str, opts: &ExportOpts)
    requires
        old(args)@.len() == 0,
    ensures
        final(args).deep_view() == input_args(input@, opts),
{
    push_text(args, "-y");
    if let Some(start) = opts.trim_start {
        if start > 0 {
            push_time(args, "-ss", start as u64);
        }
    }
    push_text(args, "-i");
    push_text(args, input);
    if let Some(end) = opts.trim_end {
        let start: i64 = opts.trim_start.unwrap_or(0);
        if end > start {
            push_time(args, "-t", (end as i128 - start as i128) as u64);
        }
    }
    push_text(args, "-r");
    push_text(args, "60");
    assert(args.deep_view() =~= input_args(input@, opts));
}

/// Appends what selects an encoder.
fn push_encoder(args: &mut Vec<String>, encoder: Encoder)
    ensures
        final(args).deep_view() == old(args).deep_view() + encoder_args(encoder),
{
    let ghost before = args.deep_view();
    push_text(args, "-c:v");
    match encoder {
        Encoder::Nvenc => {
            push_text(args, "h264_nvenc");
            push_text(args, "-preset");
            push_text(args, "p7");
            push_text(args, "-rc");
            push_text(args, "vbr");
            push_text(args, "-cq");
            push_text(args, "18");
            push_text(args, "-b:v");
            push_text(args, "20M");
            push_text(args, "-maxrate");
            push_text(args, "30M");
        },
        Encoder::Software => {
            push_text(args, "libx264");
            push_text(args, "-preset");
            push_text(args, "medium");
            push_text(args, "-crf");
            push_text(args, "18");
        },
    }
    assert(args.deep_view() =~= before + encoder_args(encoder));
}

/// Appends what stands behind the encoder.
fn push_output(args: &mut Vec<String>, output: &str, opts: &ExportOpts)
    ensures
        final(args).deep_view() == old(args).deep_view() + output_args(output@, opts),
{
    let ghost before = args.deep_view();
    if let Some(filters) = filters_of(opts) {
        push_text(args, "-vf");
        push_text(args, filters.as_str());
    }
    push_text(args, "-c:a");
    push_text(args, "aac");
    push_text(args, "-b:a");
    push_text(args, "192k");
    push_text(args, output);
    assert(args.deep_view() =~= before + output_args(output@, opts));
}

/// What FFmpeg is run with for an export.
pub fn ffmpeg_args(input: &str, output: &str, opts: &ExportOpts, encoder: Encoder) -> (args: Vec<
    String,
>)
    ensures
        args.deep_view() == export_args(input@, output@, opts, encoder),
{
    let mut args: Vec<String> = Vec::new();
    push_input(&mut args, input, opts);
    push_encoder(&mut args, encoder);
    push_output(&mut args, output, opts);
    args
}

/// The arguments that select an encoder, between others.
pub open spec fn around_encoder(
    front: Seq<Seq<char>>,
    encoder: Encoder,
    back: Seq<Seq<char>>,
) -> Seq<Seq<char>> {
    front + encoder_args(encoder) + back
}

/// Falling back to the other encoder changes nothing else of an export.
pub proof fn encoders_export_the_same(input: Seq<char>, output: Seq<char>, opts: &ExportOpts)
    ensures
        exists|front: Seq<Seq<char>>, back: Seq<Seq<char>>|
            {
                &&& export_args(input, output, opts, Encoder::Nvenc) == #[trigger] around_encoder(
                    front,
                    Encoder::Nvenc,
                    back,
                )
                &&& export_args(input, output, opts, Encoder::Software) == around_encoder(
                    front,
                    Encoder::Software,
                    back,
                )
            },
{
    let front = input_args(input, opts);
    let back = output_args(output, opts);
    assert(export_args(input, output, opts, Encoder::Nvenc) == around_encoder(
        front,
        Encoder::Nvenc,
        back,
    ));
}

/// How a run of FFmpeg ended.
#[derive(Debug, Clone)]
pub enum RunOutcome {
    /// There is no FFmpeg.
    NotFound,
    /// FFmpeg could not be run, with the reason.
    NotStarted(String),
    /// FFmpeg ran and succeeded.
    Succeeded,
    /// FFmpeg ran and failed, with what it wrote to its error output.
    Failed(String),
}

/// What is done next for an export.
pub enum ExportAction {
    /// FFmpeg is run with the given arguments.
    Run(Vec<String>),
    /// The export is over.
    Reply(Result<String, String>),
}

/// Whether an error output tells that the graphics card cannot encode.
pub open spec fn lacks_nvenc(errors: Seq<char>) -> bool {
    ||| contains_text(errors, "Cannot load"@)
    ||| contains_text(errors, "nvenc"@)
    ||| contains_text(errors, "No NVENC"@)
}

/// Whether an error output tells that the graphics card cannot encode.
pub fn nvenc_is_missing(errors: &str) -> (missing: bool)
    ensures
        missing == lacks_nvenc(errors@),
{
    has_text(errors, "Cannot load") || has_text(errors, "nvenc") || has_text(errors, "No NVENC")
}

/// The last line of an error output, or another text where there is none.
pub open spec fn last_line_or(errors: Seq<char>, other: Seq<char>) -> Seq<char> {
    match last_line(errors) {
        Some(line) => line,
        None => other,
    }
}

/// Why an export failed, where it did not succeed.
pub open spec fn failure(encoder: Encoder, outcome: RunOutcome) -> Seq<char> {
    match (encoder, outcome) {
        (
            Encoder::Nvenc,
            RunOutcome::NotFound,
        ) => "FFmpeg not found. Install via: winget install ffmpeg"@,
        (Encoder::Software, RunOutcome::NotFound) => "FFmpeg not found"@,
        (Encoder::Nvenc, RunOutcome::NotStarted(reason)) => "Failed to run FFmpeg: "@ + reason@,
        (Encoder::Software, RunOutcome::NotStarted(reason)) => "FFmpeg failed: "@ + reason@,
        (Encoder::Nvenc, RunOutcome::Failed(errors)) => "FFmpeg failed: "@ + last_line_or(
            errors@,
            "unknown error"@,
        ),
        (Encoder::Software, RunOutcome::Failed(errors)) => "Export failed: "@ + last_line_or(
            errors@,
            "unknown"@,
        ),
        (_, RunOutcome::Succeeded) => Seq::empty(),
    }
}

/// Whether an export is tried again with the other encoder.
pub open spec fn falls_back(encoder: Encoder, outcome: RunOutcome) -> bool {
    encoder is Nvenc && (outcome matches RunOutcome::Failed(errors) && lacks_nvenc(errors@))
}

/// The two texts behind each other.
fn join(front: &str, back: &str) -> (text: String)
    ensures
        text@ == front@ + back@,
{
    let mut text = front.to_owned();
    text.append(back);
    text
}

/// What is done after a run of FFmpeg with the given encoder. An export starts
/// with a run for [`Encoder::Nvenc`].
pub fn after_run(
    input: &str,
    output: &str,
    opts: &ExportOpts,
    encoder: Encoder,
    outcome: &RunOutcome,
) -> (action: ExportAction)
    ensures
        match action {
            ExportAction::Run(args) => {
                &&& falls_back(encoder, *outcome)
                &&& args.deep_view() == export_args(input@, output@, opts, Encoder::Software)
            },
            ExportAction::Reply(Ok(path)) => outcome is Succeeded && path@ == output@,
            ExportAction::Reply(Err(text)) => {
                &&& outcome !is Succeeded
                &&& !falls_back(encoder, *outcome)
                &&& text@ == "Export failed: "@ + failure(encoder, *outcome)
            },
        },
{
    let reason: String = match outcome {
        RunOutcome::Succeeded => {
            return ExportAction::Reply(Ok(output.to_owned()));
        },
        RunOutcome::NotFound => match encoder {
            Encoder::Nvenc => "FFmpeg not found. Install via: winget install ffmpeg".to_owned(),
            Encoder::Software => "FFmpeg not found".to_owned(),
        },
        RunOutcome::NotStarted(reason) => match encoder {
            Encoder::Nvenc => join("Failed to run FFmpeg: ", reason.as_str()),
            Encoder::Software => join("FFmpeg failed: ", reason.as_str()),
        },
        RunOutcome::Failed(errors) => match encoder {
            Encoder::Nvenc => {
                if nvenc_is_missing(errors.as_str()) {
                    return ExportAction::Run(ffmpeg_args(input, output, opts, Encoder::Software));
                }
                match final_line(errors.as_str()) {
                    Some(line) => join("FFmpeg failed: ", line.as_str()),
                    None => join("FFmpeg failed: ", "unknown error"),
                }
            },
            Encoder::Software => match final_line(errors.as_str()) {
                Some(line) => join("Export failed: ", line.as_str()),
                None => join("Export failed: ", "unknown"),
            },
        },
    };
    ExportAction::Reply(Err(join("Export failed: ", reason.as_str())))
}

/// An export is run at most twice: after the software encoder it is over.
pub proof fn exports_end(encoder: Encoder, outcome: RunOutcome)
    ensures
        encoder is Software ==> !falls_back(encoder, outcome),
{
}

/// Where FFmpeg is looked for beside the program, which is in the given
/// directory.
pub open spec fn bundled_paths(exe_dir: Option<Seq<char>>) -> Seq<Seq<char>> {
    match exe_dir {
        Some(dir) => seq![
            joined(dir, "ffmpeg.exe"@),
            joined(joined(dir, "resources"@), "ffmpeg.exe"@),
        ],
        None => Seq::empty(),
    }
}

/// Where FFmpeg is looked for by what the search path has to offer, of which
/// only the first line counts.
pub open spec fn listed_paths(listing: Option<Seq<char>>) -> Seq<Seq<char>> {
    match listing {
        Some(listing) => match first_line(listing) {
            Some(line) => seq![trimmed(line)],
            None => Seq::empty(),
        },
        None => Seq::empty(),
    }
}

/// Where FFmpeg is looked for, in this order.
pub open spec fn ffmpeg_paths(exe_dir: Option<Seq<char>>, listing: Option<Seq<char>>) -> Seq<
    Seq<char>,
> {
    bundled_paths(exe_dir) + listed_paths(listing) + seq![
        "C:\\Program Files\\ffmpeg\\bin\\ffmpeg.exe"@,
        "C:\\ffmpeg\\bin\\ffmpeg.exe"@,
    ]
}

/// Whether `found` is the first of the `paths` at which there is something, as
/// `present` tells.
pub open spec fn is_first_present<F: Fn(&String) -> bool>(
    found: Option<String>,
    paths: Seq<Seq<char>>,
    present: F,
) -> bool {
    match found {
        Some(path) => exists|i: int|
            {
                &&& 0 <= i < paths.len()
                &&& path@ == #[trigger] paths[i]
                &&& call_ensures(present, (&path,), true)
                &&& forall|j: int| 0 <= j < i ==> answered(present, #[trigger] paths[j], false)
            },
        None => forall|j: int|
            0 <= j < paths.len() ==> answered(present, #[trigger] paths[j], false),
    }
}

/// The first of the paths at which there is something.
fn first_present<F: Fn(&String) -> bool>(paths: Vec<String>, present: F) -> (found: Option<String>)
    requires
        forall|path: &String| call_requires(present, (path,)),
    ensures
        is_first_present(found, paths.deep_view(), present),
{
    let mut i: usize = 0;
    while i < paths.len()
        invariant
            i <= paths@.len(),
            forall|path: &String| call_requires(present, (path,)),
            forall|j: int|
                0 <= j < i ==> answered(present, #[trigger] paths.deep_view()[j], false),
        decreases paths@.len() - i,
    {
        let path = paths[i].clone();
        assert(path@ == paths.deep_view()[i as int]);
        if present(&path) {
            return Some(path);
        }
        assert(answered(present, paths.deep_view()[i as int], false));
        i += 1;
    }
    None
}

/// Appends where FFmpeg is looked for beside the program.
fn push_bundled(paths: &mut Vec<String>, exe_dir: Option<&str>)
    ensures
        final(paths).deep_view() == old(paths).deep_view() + bundled_paths(exe_dir.deep_view()),
{
    let ghost before = paths.deep_view();
    if let Some(dir) = exe_dir {
        push_text(paths, join_path(dir, "ffmpeg.exe").as_str());
        let resources = join_path(dir, "resources");
        push_text(paths, join_path(resources.as_str(), "ffmpeg.exe").as_str());
    }
    assert(paths.deep_view() =~= before + bundled_paths(exe_dir.deep_view()));
}

/// The FFmpeg beside the program, which is in the given directory. `present`
/// tells whether there is something at a path.
pub fn find_bundled_ffmpeg<F: Fn(&String) -> bool>(exe_dir: Option<&str>, present: F) -> (found:
    Option<String>)
    requires
        forall|path: &String| call_requires(present, (path,)),
    ensures
        is_first_present(found, bundled_paths(exe_dir.deep_view()), present),
{
    let mut paths: Vec<String> = Vec::new();
    push_bundled(&mut paths, exe_dir);
    assert(paths.deep_view() =~= bundled_paths(exe_dir.deep_view()));
    first_present(paths, present)
}

/// The FFmpeg that is used: the one beside the program, which is in the given
/// directory, else the first one of the search path, whose listing is given,
/// else one at a usual place. `present` tells whether there is something at a
/// path.
pub fn find_ffmpeg<F: Fn(&String) -> bool>(
    exe_dir: Option<&str>,
    listing: Option<&str>,
    present: F,
) -> (found: Option<String>)
    requires
        forall|path: &String| call_requires(present, (path,)),
    ensures
        is_first_present(found, ffmpeg_paths(exe_dir.deep_view(), listing.deep_view()), present),
{
    let mut paths: Vec<String> = Vec::new();
    push_bundled(&mut paths, exe_dir);
    if let Some(listing) = listing {
        if let Some(line) = initial_line(listing) {
            push_text(&mut paths, trim(line.as_str()).as_str());
        }
    }
    push_text(&mut paths, "C:\\Program Files\\ffmpeg\\bin\\ffmpeg.exe");
    push_text(&mut paths, "C:\\ffmpeg\\bin\\ffmpeg.exe");
    assert(paths.deep_view() =~= ffmpeg_paths(exe_dir.deep_view(), listing.deep_view()));
    first_present(paths, present)
}

/// What FFmpeg is told of the picture is what was asked for, in percent: the
/// brightness is as much above or below 0, and the contrast and the saturation are
/// as much, as the texts read, in hundredths. What is not asked for is 100 percent.
pub proof fn adjustments_read_back(
    brightness: Option<u32>,
    contrast: Option<u32>,
    saturation: Option<u32>,
)
    ensures
        eq_filter(brightness, contrast, saturation) is None <==> brightness is None && contrast
            is None && saturation is None,
        eq_filter(brightness, contrast, saturation) matches Some(filter) ==> exists|
            b: Seq<char>,
            c: Seq<char>,
            s: Seq<char>,
        |
            {
                &&& filter == #[trigger] ("eq=brightness="@ + b + ":contrast="@ + c
                    + ":saturation="@ + s)
                &&& reads_in_hundredths(b, brightness.unwrap_or(100) - 100)
                &&& reads_in_hundredths(c, contrast.unwrap_or(100) as int)
                &&& reads_in_hundredths(s, saturation.unwrap_or(100) as int)
            },
{
    let b = percent(brightness) - 100;
    let c = percent(contrast);
    let s = percent(saturation);
    hundredths_read_back(b, 0x1_0000_0000);
    hundredths_read_back(c, 0x1_0000_0000);
    hundredths_read_back(s, 0x1_0000_0000);
    if eq_filter(brightness, contrast, saturation) is Some {
        assert(eq_filter(brightness, contrast, saturation)->0 == "eq=brightness="@ + hundredths(b)
            + ":contrast="@ + hundredths(c) + ":saturation="@ + hundredths(s));
    }
}

/// Whether a text reads as a number of hundredths: a whole number, a point and two
/// digits, behind a minus sign where the number is negative.
pub open spec fn reads_in_hundredths(text: Seq<char>, n: int) -> bool {
    let digits = if n < 0 {
        text.drop_first()
    } else {
        text
    };
    let end = digits.len() as int;
    &&& text.first() == '-' <==> n < 0
    &&& end >= 4
    &&& digits[end - 3] == '.'
    &&& '0' <= digits[end - 2] <= '9'
    &&& '0' <= digits[end - 1] <= '9'
    &&& parsed(digits.take(end - 3), 0x1_0000_0000) matches Ok(whole) && 100 * whole + 10 * (
    digits[end - 2] as int - 48) + (digits[end - 1] as int - 48) == if n < 0 {
        -n
    } else {
        n
    }
}

/// A text reads as one number of hundredths at most. So different percentages are
/// never written alike.
pub proof fn hundredths_read_one_way(text: Seq<char>, m: int, n: int)
    requires
        reads_in_hundredths(text, m),
        reads_in_hundredths(text, n),
    ensures
        m == n,
{
}

/// Without an adjustment of the picture, its filters are those of an export that
/// only scales and crops; an adjustment is put behind them. Likewise cropping is
/// put behind scaling. Filters are separated by commas.
pub proof fn pictures_are_scaled_cropped_and_adjusted(opts: &ExportOpts)
    ensures
        ({
            let scale = scale_filter(opts.resolution.deep_view());
            let crop = crop_filter(opts.aspect_ratio.deep_view());
            let adjust = eq_filter(opts.brightness, opts.contrast, opts.saturation);
            let unadjusted = ExportOpts {
                brightness: None,
                contrast: None,
                saturation: None,
                ..*opts
            };
            let only_scaled = ExportOpts { aspect_ratio: None, ..unadjusted };
            &&& adjust is None ==> opts.filters() == unadjusted.filters()
            &&& adjust is Some ==> opts.filters() == match unadjusted.filters() {
                Some(front) => Some(front + seq![','] + adjust->0),
                None => adjust,
            }
            &&& crop is None ==> unadjusted.filters() == only_scaled.filters()
            &&& crop is Some ==> unadjusted.filters() == match only_scaled.filters() {
                Some(front) => Some(front + seq![','] + crop->0),
                None => crop,
            }
            &&& only_scaled.filters() == scale
        }),
{
    reveal_strlit(",");
    reveal_strlit("9:16");
    assert(","@ =~= seq![',']);
    let none: Option<String> = None;
    assert(none.deep_view() == None::<Seq<char>>);
}

/// An export is scaled to the size that a recording of that resolution has.
pub proof fn exports_have_the_size_of_recordings(resolution: Seq<char>)
    ensures
        scale_filter(None) is None,
        scale_filter(Some(resolution)) == match target_res(resolution) {
            Some((width, height)) => Some(
                "scale="@ + decimal(width as nat) + seq![':'] + decimal(height as nat),
            ),
            None => None,
        },
{
    reveal_strlit("scale=");
    reveal_strlit("scale=854:480");
    reveal_strlit("scale=1280:720");
    reveal_strlit("scale=1920:1080");
    reveal_strlit("scale=2560:1440");
    reveal_strlit("scale=3840:2160");
    reveal_with_fuel(decimal, 5);
    if let Some((width, height)) = target_res(resolution) {
        assert(scale_filter(Some(resolution))->0 =~= "scale="@ + decimal(width as nat) + seq![':']
            + decimal(height as nat));
    }
}

/// A picture that is cropped to be narrower than it is high keeps its height, and
/// gets the part of it as its width that the aspect ratio says.
pub proof fn pictures_are_cropped_to_their_aspect_ratio(wide: nat, high: nat)
    ensures
        crop_filter(None) is None,
        crop_filter(Some(decimal(wide) + seq![':'] + decimal(high))) matches Some(filter) ==> wide
            != high ==> filter == "crop=ih*"@ + decimal(wide) + seq!['/'] + decimal(high) + seq![
            ':', 'i', 'h',
        ],
{
    reveal_strlit("9:16");
    reveal_strlit("1:1");
    reveal_strlit("4:5");
    reveal_strlit("crop=ih*");
    reveal_strlit("crop=ih*9/16:ih");
    reveal_strlit("crop=ih*4/5:ih");
    reveal_with_fuel(decimal, 3);
    let ratio = decimal(wide) + seq![':'] + decimal(high);
    lemma_ratio(wide, high, 9, 16);
    lemma_ratio(wide, high, 1, 1);
    lemma_ratio(wide, high, 4, 5);
    assert(decimal(9) + seq![':'] + decimal(16) =~= "9:16"@);
    assert(decimal(1) + seq![':'] + decimal(1) =~= "1:1"@);
    assert(decimal(4) + seq![':'] + decimal(5) =~= "4:5"@);
    if wide == 9 && high == 16 {
        assert(crop_filter(Some(ratio))->0 =~= "crop=ih*"@ + decimal(wide) + seq!['/'] + decimal(
            high,
        ) + seq![':', 'i', 'h']);
    }
    if wide == 4 && high == 5 {
        assert(crop_filter(Some(ratio))->0 =~= "crop=ih*"@ + decimal(wide) + seq!['/'] + decimal(
            high,
        ) + seq![':', 'i', 'h']);
    }
}

proof fn lemma_ratio(a: nat, b: nat, c: nat, d: nat)
    ensures
        decimal(a) + seq![':'] + decimal(b) == decimal(c) + seq![':'] + decimal(d) ==> a == c && b
            == d,
{
    let x = decimal(a) + seq![':'] + decimal(b);
    let y = decimal(c) + seq![':'] + decimal(d);
    let max = (a + b + c + d) as int;
    if x == y {
        decimals_have_no_leading_zeros(a);
        decimals_have_no_leading_zeros(b);
        decimals_have_no_leading_zeros(c);
        decimals_have_no_leading_zeros(d);
        assert(x[decimal(a).len() as int] == ':');
        assert(y[decimal(c).len() as int] == ':');
        if decimal(a).len() < decimal(c).len() {
            assert(y[decimal(a).len() as int] == decimal(c)[decimal(a).len() as int]);
        }
        if decimal(c).len() < decimal(a).len() {
            assert(x[decimal(c).len() as int] == decimal(a)[decimal(c).len() as int]);
        }
        assert(decimal(a) =~= x.take(decimal(a).len() as int));
        assert(decimal(c) =~= y.take(decimal(a).len() as int));
        assert(decimal(b) =~= x.skip(decimal(a).len() as int + 1));
        assert(decimal(d) =~= y.skip(decimal(a).len() as int + 1));
        decimal_reads_back(a, max);
        decimal_reads_back(b, max);
        decimal_reads_back(c, max);
        decimal_reads_back(d, max);
    }
}

/// An export starts in the clip where was asked for, if that is behind its
/// beginning, and ends where was asked for, if that is behind its start.
pub proof fn exports_start_and_end_where_was_asked_for(opts: &ExportOpts)
    ensures
        ({
            let from = opts.trim_start.unwrap_or(0) as int;
            &&& opts.seek() is Some <==> from > 0
            &&& opts.seek() matches Some(start) ==> start == from
            &&& opts.length() is Some <==> (opts.trim_end matches Some(end) && end > from)
            &&& opts.length() matches Some(length) ==> opts.trim_end matches Some(end) && from
                + length == end
        }),
{
}

/// FFmpeg is given a time behind its switch, in seconds with three decimals, and not
/// more than half a millisecond off.
pub proof fn times_are_given_to_the_millisecond(switch: Seq<char>, time: nat)
    ensures
        time_args(switch, None).len() == 0,
        time_args(switch, Some(time)).len() == 2,
        time_args(switch, Some(time))[0] == switch,
        exists|millis: nat|
            {
                &&& #[trigger] thousandths(millis) == time_args(switch, Some(time))[1]
                &&& -500 <= 1000 * millis - time <= 500
            },
{
    let millis = (time + 500) / 1000;
    assert(thousandths(millis) == time_args(switch, Some(time))[1]);
}

/// The part of the clip that is exported is selected before the clip is named, by
/// where it starts, and behind it, by how long it is; the output comes last, and the
/// filters, where there are any, behind their own switch.
pub proof fn exports_name_input_and_output(
    input: Seq<char>,
    output: Seq<char>,
    opts: &ExportOpts,
    encoder: Encoder,
)
    ensures
        ({
            let args = export_args(input, output, opts, encoder);
            let at = if opts.seek() is Some {
                3int
            } else {
                1int
            };
            &&& args.len() > 0 && args.last() == output
            &&& args[at] == "-i"@ && args[at + 1] == input
            &&& opts.seek() matches Some(start) ==> args.subrange(1, 3) == time_args("-ss"@, Some(start))
            &&& opts.length() matches Some(length) ==> args.subrange(at + 2, at + 4) == time_args(
                "-t"@,
                Some(length),
            )
            &&& opts.length() is None ==> args[at + 2] == "-r"@
            &&& opts.filters() matches Some(filters) ==> args[args.len() - 7] == "-vf"@
                && args[args.len() - 6] == filters
            &&& opts.filters() is None ==> args.len() == at + 4 + time_args(
                "-t"@,
                opts.length(),
            ).len() + encoder_args(encoder).len() + 5
        }),
{
    let args = export_args(input, output, opts, encoder);
    let at = if opts.seek() is Some {
        3int
    } else {
        1int
    };
    if let Some(start) = opts.seek() {
        assert(args.subrange(1, 3) =~= time_args("-ss"@, Some(start)));
    }
    if let Some(length) = opts.length() {
        assert(args.subrange(at + 2, at + 4) =~= time_args("-t"@, Some(length)));
    }
}

/// An export is tried again only where the graphics card was tried and its encoder
/// is missing, as the error output tells.
pub proof fn exports_fall_back_only_without_the_encoder(encoder: Encoder, outcome: RunOutcome)
    ensures
        falls_back(encoder, outcome) ==> encoder == Encoder::Nvenc && outcome is Failed,
        outcome matches RunOutcome::Failed(errors) ==> (falls_back(
            Encoder::Nvenc,
            outcome,
        ) <==> exists|a: Seq<char>, b: Seq<char>|
            {
                ||| errors@ == #[trigger] (a + "Cannot load"@ + b)
                ||| errors@ == a + "nvenc"@ + b
                ||| errors@ == a + "No NVENC"@ + b
            }),
{
    if let RunOutcome::Failed(errors) = outcome {
        parts_stand_between_texts(errors@, "Cannot load"@);
        parts_stand_between_texts(errors@, "nvenc"@);
        parts_stand_between_texts(errors@, "No NVENC"@);
        if contains_text(errors@, "nvenc"@) {
            let (a, b): (Seq<char>, Seq<char>) = choose|a: Seq<char>, b: Seq<char>|
                errors@ == #[trigger] (a + "nvenc"@ + b);
            assert(a + "Cannot load"@ + b == a + "Cannot load"@ + b);
        }
        if contains_text(errors@, "No NVENC"@) {
            let (a, b): (Seq<char>, Seq<char>) = choose|a: Seq<char>, b: Seq<char>|
                errors@ == #[trigger] (a + "No NVENC"@ + b);
            assert(a + "Cannot load"@ + b == a + "Cannot load"@ + b);
        }
    }
}

/// What FFmpeg wrote last is in the reason of an export that failed.
pub proof fn failures_tell_the_last_line(front: Seq<char>, line: Seq<char>, errors: String)
    requires
        errors@ == front + line + seq!['\n'],
        forall|i: int| 0 <= i < line.len() ==> #[trigger] line[i] != '\n',
        line.len() > 0 ==> line.last() != '\r',
        front.len() > 0 ==> front.last() == '\n',
    ensures
        failure(Encoder::Nvenc, RunOutcome::Failed(errors)) == "FFmpeg failed: "@ + line,
        failure(Encoder::Software, RunOutcome::Failed(errors)) == "Export failed: "@ + line,
{
    last_lines_stand_behind_the_last_feed(front, line);
}

/// FFmpeg beside the program goes before one of the search path, and that before
/// the usual places.
pub proof fn nearer_programs_go_first(dir: Seq<char>, listing: Seq<char>)
    ensures
        ffmpeg_paths(Some(dir), Some(listing)).len() >= 4,
        ffmpeg_paths(Some(dir), Some(listing))[0] == joined(dir, "ffmpeg.exe"@),
        ffmpeg_paths(Some(dir), Some(listing))[1] == joined(
            joined(dir, "resources"@),
            "ffmpeg.exe"@,
        ),
        first_line(listing) matches Some(line) ==> ffmpeg_paths(Some(dir), Some(listing))[2]
            == trimmed(line),
        first_line(listing) matches Some(line) ==> ffmpeg_paths(None, Some(listing))[0] == trimmed(
            line,
        ),
        ffmpeg_paths(Some(dir), None).take(2) == bundled_paths(Some(dir)),
        ffmpeg_paths(None, None) == seq![
            "C:\\Program Files\\ffmpeg\\bin\\ffmpeg.exe"@,
            "C:\\ffmpeg\\bin\\ffmpeg.exe"@,
        ],
        bundled_paths(None).len() == 0,
{
    assert(ffmpeg_paths(None, None) =~= seq![
        "C:\\Program Files\\ffmpeg\\bin\\ffmpeg.exe"@,
        "C:\\ffmpeg\\bin\\ffmpeg.exe"@,
    ]);
    assert(ffmpeg_paths(Some(dir), None).take(2) =~= bundled_paths(Some(dir)));
}

/// Whichever encoder an export runs with, it is asked for the same quality, and the
/// sound is encoded as AAC at 192 kbit/s. The picture has 60 frames a second.
pub proof fn exports_are_of_good_quality(
    input: Seq<char>,
    output: Seq<char>,
    opts: &ExportOpts,
    encoder: Encoder,
)
    ensures
        ({
            let args = export_args(input, output, opts, encoder);
            &&& is_switched(args, "-r"@, "60"@)
            &&& is_switched(args, "-c:a"@, "aac"@)
            &&& is_switched(args, "-b:a"@, "192k"@)
            &&& encoder is Nvenc ==> {
                &&& is_switched(args, "-c:v"@, "h264_nvenc"@)
                &&& is_switched(args, "-preset"@, "p7"@)
                &&& is_switched(args, "-rc"@, "vbr"@)
                &&& is_switched(args, "-cq"@, "18"@)
                &&& is_switched(args, "-b:v"@, "20M"@)
                &&& is_switched(args, "-maxrate"@, "30M"@)
            }
            &&& encoder is Software ==> {
                &&& is_switched(args, "-c:v"@, "libx264"@)
                &&& is_switched(args, "-preset"@, "medium"@)
                &&& is_switched(args, "-crf"@, "18"@)
            }
        }),
{
    let args = export_args(input, output, opts, encoder);
    let at = input_args(input, opts).len() as int;
    let end = args.len() as int;
    assert(args[at - 2] == "-r"@);
    assert(args[end - 5] == "-c:a"@);
    assert(args[end - 3] == "-b:a"@);
    assert(args[at] == "-c:v"@);
    assert(args[at + 2] == "-preset"@);
    if encoder is Nvenc {
        assert(args[at + 4] == "-rc"@);
        assert(args[at + 6] == "-cq"@);
        assert(args[at + 8] == "-b:v"@);
        assert(args[at + 10] == "-maxrate"@);
    } else {
        assert(args[at + 4] == "-crf"@);
    }
}

/// What is found is the first place at which there is something: it is one of the
/// places, something was there, and nothing was at those before. Where nothing is
/// found, nothing was at any of them.
pub proof fn the_first_place_is_taken<F: Fn(&String) -> bool>(
    found: Option<String>,
    paths: Seq<Seq<char>>,
    present: F,
    k: int,
)
    requires
        is_first_present(found, paths, present),
        0 <= k < paths.len(),
        forall|path: String| path@ == paths[k] ==> !#[trigger] call_ensures(
            present,
            (&path,),
            false,
        ),
    ensures
        found matches Some(path) && exists|i: int|
            0 <= i <= k && #[trigger] paths[i] == path@ && call_ensures(present, (&path,), true),
{
    if found is None {
        assert(answered(present, paths[k], false));
    } else {
        let path = found->0;
        let i = choose|i: int|
            {
                &&& 0 <= i < paths.len()
                &&& path@ == #[trigger] paths[i]
                &&& call_ensures(present, (&path,), true)
                &&& forall|j: int| 0 <= j < i ==> answered(present, #[trigger] paths[j], false)
            };
        if k < i {
            assert(answered(present, paths[k], false));
        }
    }
}

} // verus!
