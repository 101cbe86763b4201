//! Recording into a rolling set of segment files that FFmpeg writes.
//!
//! Only files that FFmpeg has closed are ever read, so that saving a clip never
//! interrupts the recording. FFmpeg numbers the files, and each holds the same
//! length of video, so the number of a file tells its time. The file with the
//! highest number is the one that is being written.
use std::collections::BTreeSet;

use vstd::prelude::*;

use crate::number::{
    decimal, decimal_of, digit_value, is_digit, lemma_decimal_parses, only_digits_make_numbers,
    parse_digits, parse_number, parsed, push_decimal,
};
use crate::path::{join_path, joined};
use crate::recording::{CaptureOptions, CaptureReadyInfo};
use crate::ring::TICKS_PER_SECOND;
use crate::session::{segments, CompletedSegment, Segment, StartError};
use crate::text::{begins_with, push_text, replace_char, without_prefix};

verus! {

/// The length of the segments of a session that was not started yet, in
/// seconds.
pub const DEFAULT_SEGMENT_SECONDS: u32 = 5;

/// The picture that is recorded where no other size is asked for.
pub const DEFAULT_WIDTH: u32 = 1280;

pub const DEFAULT_HEIGHT: u32 = 720;

/// A segment file with less than this many bytes is not complete.
pub const MIN_SEGMENT_SIZE: u64 = 1024;

/// An audio file with no more than this many bytes holds nothing.
pub const EMPTY_AUDIO_SIZE: u64 = 1000;

/// A path with slashes in place of backslashes.
pub open spec fn with_slashes(path: Seq<char>) -> Seq<char> {
    path.map_values(
        |c: char|
            if c == '\\' {
                '/'
            } else {
                c
            },
    )
}

/// The length of the segments of a recording, in seconds: at least one.
pub open spec fn segment_seconds(options: &CaptureOptions) -> u32 {
    if options.segment_duration < 1 {
        1
    } else {
        options.segment_duration
    }
}

/// How much of a recording is kept, in seconds: at least one segment.
pub open spec fn buffer_seconds(options: &CaptureOptions) -> u32 {
    if options.buffer_duration < segment_seconds(options) {
        segment_seconds(options)
    } else {
        options.buffer_duration
    }
}

/// The width and height of the picture that is recorded.
pub open spec fn picture_size(options: &CaptureOptions) -> (u32, u32) {
    (
        options.target_width.unwrap_or(DEFAULT_WIDTH),
        options.target_height.unwrap_or(DEFAULT_HEIGHT),
    )
}

/// The pipe through which FFmpeg gets the audio from the process `pid`.
pub fn audio_pipe_name(pid: u32) -> (name: String)
    ensures
        name@ == "\\\\.\\pipe\\clipsta_audio_"@ + decimal(pid as nat),
{
    let mut name = "\\\\.\\pipe\\clipsta_audio_".to_owned();
    push_decimal(&mut name, pid as u64);
    name
}

/// Windows reports with this number that the other end of a pipe was connected
/// before anybody waited for it.
pub const ERROR_PIPE_CONNECTED: u32 = 535;

/// Whether FFmpeg is connected to the pipe, after waiting for it has succeeded
/// or has failed with the given error.
pub fn pipe_is_connected(waited: bool, error: u32) -> (connected: bool)
    ensures
        connected == (waited || error == ERROR_PIPE_CONNECTED),
{
    waited || error == ERROR_PIPE_CONNECTED
}

/// A number of kbit/s.
pub open spec fn kbit(n: int) -> Seq<char> {
    decimal(n as nat) + "k"@
}

/// What the screen is captured with.
pub open spec fn grab_input(options: &CaptureOptions) -> Seq<char> {
    "ddagrab=framerate="@ + decimal(options.fps as nat) + ":draw_mouse=1:video_size="@ + decimal(
        picture_size(options).0 as nat,
    ) + "x"@ + decimal(picture_size(options).1 as nat)
}

/// What selects the audio input. A recording into segments without audio has no
/// sound at all.
pub open spec fn audio_input_args(options: &CaptureOptions, pipe: Seq<char>) -> Seq<Seq<char>> {
    if options.no_audio {
        Seq::empty()
    } else {
        seq![
            "-f"@,
            "s16le"@,
            "-ar"@,
            "48000"@,
            "-ac"@,
            "2"@,
            "-i"@,
            pipe,
            "-map"@,
            "0:v:0"@,
            "-map"@,
            "1:a:0"@,
        ]
    }
}

/// What selects the video encoder. A keyframe comes every two seconds.
pub open spec fn video_encoder_args(options: &CaptureOptions) -> Seq<Seq<char>> {
    seq![
        "-c:v"@,
        "h264_nvenc"@,
        "-preset"@,
        "p1"@,
        "-tune"@,
        "ll"@,
        "-rc"@,
        "cbr"@,
        "-b:v"@,
        kbit(options.bitrate_kbps as int),
        "-maxrate"@,
        kbit(options.bitrate_kbps + 1000),
        "-bufsize"@,
        kbit(options.bitrate_kbps * 2),
        "-r"@,
        decimal(options.fps as nat),
        "-video_track_timescale"@,
        "90000"@,
        "-g"@,
        decimal((options.fps * 2) as nat),
        "-bf"@,
        "0"@,
        "-profile:v"@,
        "high"@,
    ]
}

/// What selects the audio encoder.
pub open spec fn audio_encoder_args(options: &CaptureOptions) -> Seq<Seq<char>> {
    if options.no_audio {
        Seq::empty()
    } else {
        seq!["-c:a"@, "aac"@, "-b:a"@, "192k"@]
    }
}

/// What selects the segment files.
pub open spec fn segment_args(options: &CaptureOptions) -> Seq<Seq<char>> {
    seq![
        "-f"@,
        "segment"@,
        "-segment_time"@,
        decimal(segment_seconds(options) as nat),
        "-segment_format"@,
        "mp4"@,
        "-reset_timestamps"@,
        "1"@,
        "-strftime"@,
        "0"@,
        with_slashes(joined(options.segment_dir@, "seg_%05d.mp4"@)),
    ]
}

/// What FFmpeg is run with for a recording.
pub open spec fn capture_args(options: &CaptureOptions, pipe: Seq<char>) -> Seq<Seq<char>> {
    seq!["-y"@, "-f"@, "lavfi"@, "-i"@, grab_input(options)] + audio_input_args(options, pipe)
        + video_encoder_args(options) + audio_encoder_args(options) + segment_args(options)
}

/// Appends a number of kbit/s.
fn push_kbit(args: &mut Vec<String>, n: u32)
    ensures
        final(args).deep_view() == old(args).deep_view().push(kbit(n as int)),
{
    let mut text = decimal_of(n as u64);
    text.append("k");
    push_text(args, text.as_str());
}

/// Appends a number.
fn push_number(args: &mut Vec<String>, n: u32)
    ensures
        final(args).deep_view() == old(args).deep_view().push(decimal(n as nat)),
{
    let text = decimal_of(n as u64);
    push_text(args, text.as_str());
}

/// The length of the segments of a recording.
fn seconds_of(options: &CaptureOptions) -> (seconds: u32)
    ensures
        seconds == segment_seconds(options),
{
    if options.segment_duration < 1 {
        1
    } else {
        options.segment_duration
    }
}

/// Appends the inputs.
fn push_inputs(args: &mut Vec<String>, options: &CaptureOptions, pipe: &str)
    requires
        old(args)@.len() == 0,
    ensures
        final(args).deep_view() == seq![
            "-y"@,
            "-f"@,
            "lavfi"@,
            "-i"@,
            grab_input(options),
        ] + audio_input_args(options, pipe@),
{
    let mut grab = "ddagrab=framerate=".to_owned();
    push_decimal(&mut grab, options.fps as u64);
    grab.append(":draw_mouse=1:video_size=");
    push_decimal(&mut grab, options.target_width.unwrap_or(DEFAULT_WIDTH) as u64);
    grab.append("x");
    push_decimal(&mut grab, options.target_height.unwrap_or(DEFAULT_HEIGHT) as u64);
    assert(grab@ =~= grab_input(options));
    push_text(args, "-y");
    push_text(args, "-f");
    push_text(args, "lavfi");
    push_text(args, "-i");
    push_text(args, grab.as_str());
    if !options.no_audio {
        push_text(args, "-f");
        push_text(args, "s16le");
        push_text(args, "-ar");
        push_text(args, "48000");
        push_text(args, "-ac");
        push_text(args, "2");
        push_text(args, "-i");
        push_text(args, pipe);
        push_text(args, "-map");
        push_text(args, "0:v:0");
        push_text(args, "-map");
        push_text(args, "1:a:0");
    }
    assert(args.deep_view() =~= seq!["-y"@, "-f"@, "lavfi"@, "-i"@, grab_input(options)]
        + audio_input_args(options, pipe@));
}

/// Appends the encoders.
fn push_encoders(args: &mut Vec<String>, options: &CaptureOptions)
    requires
        options.fps * 2 <= u32::MAX,
        options.bitrate_kbps * 2 <= u32::MAX,
    ensures
        final(args).deep_view() == old(args).deep_view() + video_encoder_args(options)
            + audio_encoder_args(options),
{
    let ghost before = args.deep_view();
    push_text(args, "-c:v");
    push_text(args, "h264_nvenc");
    push_text(args, "-preset");
    push_text(args, "p1");
    push_text(args, "-tune");
    push_text(args, "ll");
    push_text(args, "-rc");
    push_text(args, "cbr");
    push_text(args, "-b:v");
    push_kbit(args, options.bitrate_kbps);
    push_text(args, "-maxrate");
    push_kbit(args, options.bitrate_kbps + 1000);
    push_text(args, "-bufsize");
    push_kbit(args, options.bitrate_kbps * 2);
    push_text(args, "-r");
    push_number(args, options.fps);
    push_text(args, "-video_track_timescale");
    push_text(args, "90000");
    push_text(args, "-g");
    push_number(args, options.fps * 2);
    push_text(args, "-bf");
    push_text(args, "0");
    push_text(args, "-profile:v");
    push_text(args, "high");
    if !options.no_audio {
        push_text(args, "-c:a");
        push_text(args, "aac");
        push_text(args, "-b:a");
        push_text(args, "192k");
    }
    assert(args.deep_view() =~= before + video_encoder_args(options) + audio_encoder_args(
        options,
    ));
}

/// What FFmpeg is run with for a recording that gets its audio from `pipe`.
pub fn ffmpeg_capture_args(options: &CaptureOptions, pipe: &str) -> (args: Vec<String>)
    requires
        options.fps * 2 <= u32::MAX,
        options.bitrate_kbps * 2 <= u32::MAX,
    ensures
        args.deep_view() == capture_args(options, pipe@),
{
    let mut args: Vec<String> = Vec::new();
    push_inputs(&mut args, options, pipe);
    push_encoders(&mut args, options);
    let ghost before = args.deep_view();
    push_text(&mut args, "-f");
    push_text(&mut args, "segment");
    push_text(&mut args, "-segment_time");
    push_number(&mut args, seconds_of(options));
    push_text(&mut args, "-segment_format");
    push_text(&mut args, "mp4");
    push_text(&mut args, "-reset_timestamps");
    push_text(&mut args, "1");
    push_text(&mut args, "-strftime");
    push_text(&mut args, "0");
    let pattern = join_path(options.segment_dir.as_str(), "seg_%05d.mp4");
    push_text(&mut args, replace_char(pattern.as_str(), '\\', '/').as_str());
    assert(args.deep_view() =~= before + segment_args(options));
    assert(args.deep_view() =~= capture_args(options, pipe@));
    args
}

/// The number in the name of a segment file, given without its extension.
pub open spec fn number_in(stem: Seq<char>) -> Option<int> {
    if begins_with(stem, "seg_"@) {
        match parsed(stem.skip("seg_"@.len() as int), u32::MAX as int) {
            Ok(n) => Some(n),
            Err(_) => None,
        }
    } else {
        None
    }
}

/// The number in the name of a segment file, given without its extension.
pub fn segment_index(stem: &str) -> (index: Option<u32>)
    ensures
        match index {
            Some(n) => number_in(stem@) == Some(n as int),
            None => number_in(stem@) is None,
        },
{
    match without_prefix(stem, "seg_") {
        Some(digits) => match parse_number(digits.as_str(), u32::MAX as u64) {
            Ok(n) => {
                proof {
                    lemma_parsed_is_bounded(digits@, u32::MAX as int);
                }
                Some(n as u32)
            },
            Err(_) => None,
        },
        None => None,
    }
}

proof fn lemma_digits_are_bounded(digits: Seq<char>, acc: int, max: int)
    requires
        0 <= acc <= max,
    ensures
        parse_digits(digits, acc, max) matches Ok(n) ==> 0 <= n <= max,
    decreases digits.len(),
{
    if digits.len() > 0 && is_digit(digits.first()) {
        let next = acc * 10 + digit_value(digits.first());
        if next <= max {
            lemma_digits_are_bounded(digits.drop_first(), next, max);
        }
    }
}

proof fn lemma_parsed_is_bounded(text: Seq<char>, max: int)
    requires
        0 <= max,
    ensures
        parsed(text, max) matches Ok(n) ==> 0 <= n <= max,
{
    lemma_digits_are_bounded(text, 0, max);
    if text.len() > 0 {
        lemma_digits_are_bounded(text.drop_first(), 0, max);
    }
}

proof fn lemma_leading_zeros(zeros: nat, digits: Seq<char>, max: int)
    requires
        0 <= max,
    ensures
        parse_digits(Seq::new(zeros, |i: int| '0') + digits, 0, max) == parse_digits(
            digits,
            0,
            max,
        ),
    decreases zeros,
{
    let all = Seq::new(zeros, |i: int| '0') + digits;
    if zeros == 0 {
        assert(all =~= digits);
    } else {
        let fewer = Seq::new((zeros - 1) as nat, |i: int| '0') + digits;
        assert(all.drop_first() =~= fewer);
        assert(all.first() == '0');
        lemma_leading_zeros((zeros - 1) as nat, digits, max);
    }
}

/// The number that FFmpeg gives to a segment file is found again in the name of
/// the file, with as many zeros as it may stand behind.
pub proof fn segment_names_read_back(n: nat, zeros: nat)
    requires
        n <= u32::MAX,
    ensures
        number_in("seg_"@ + Seq::new(zeros, |i: int| '0') + decimal(n)) == Some(n as int),
{
    let digits = Seq::new(zeros, |i: int| '0') + decimal(n);
    let stem = "seg_"@ + Seq::new(zeros, |i: int| '0') + decimal(n);
    assert(stem.subrange(0, "seg_"@.len() as int) =~= "seg_"@);
    assert(begins_with(stem, "seg_"@));
    assert(stem.skip("seg_"@.len() as int) =~= digits);
    lemma_leading_zeros(zeros, decimal(n), u32::MAX as int);
    lemma_decimal_parses(n, u32::MAX as int);
    assert(is_digit(digits.first()));
}

/// A file in the directory of a recording that has the name of a segment.
#[derive(Debug, Clone)]
pub struct SegmentFile {
    pub index: u32,
    pub path: String,
    /// In bytes, where it is known.
    pub size: Option<u64>,
}

/// The segment in the file at `path` with the number `index`, where every
/// segment is `seconds` long.
pub open spec fn file_segment(path: Seq<char>, index: int, seconds: int) -> Segment {
    Segment {
        path: with_slashes(path),
        index,
        start: index * seconds * TICKS_PER_SECOND,
        end: (index + 1) * seconds * TICKS_PER_SECOND,
        duration: seconds * TICKS_PER_SECOND,
    }
}

/// Segments follow each other without a gap.
pub proof fn segments_are_contiguous(
    path: Seq<char>,
    next_path: Seq<char>,
    index: int,
    seconds: int,
)
    ensures
        file_segment(path, index, seconds).end == file_segment(
            next_path,
            index + 1,
            seconds,
        ).start,
        file_segment(path, index, seconds).end - file_segment(path, index, seconds).start
            == file_segment(path, index, seconds).duration,
{
    assert((index + 1) * seconds * TICKS_PER_SECOND - index * seconds * TICKS_PER_SECOND == seconds
        * TICKS_PER_SECOND) by (nonlinear_arith);
}

/// The segment in a file.
fn segment_in(file: &SegmentFile, seconds: u32) -> (segment: CompletedSegment)
    ensures
        segment@ == file_segment(file.path@, file.index as int, seconds as int),
{
    assert(0 <= file.index * seconds <= u32::MAX * u32::MAX) by (nonlinear_arith)
        requires
            0 <= file.index <= u32::MAX,
            0 <= seconds <= u32::MAX,
    ;
    assert((file.index + 1) * seconds == file.index * seconds + seconds) by (nonlinear_arith);
    let start: i128 = (file.index as u64 * seconds as u64) as i128;
    let ticks: i128 = TICKS_PER_SECOND as i128;
    CompletedSegment {
        path: replace_char(file.path.as_str(), '\\', '/'),
        index: file.index,
        start_pts: start * ticks,
        end_pts: (start + seconds as i128) * ticks,
        duration: seconds as i128 * ticks,
    }
}

/// Which of the files that were found are taken.
#[derive(Debug, Clone, Copy)]
pub enum Pick {
    /// Those that do not have this number.
    Except(u32),
    /// Those that are complete.
    Complete,
}

/// Whether a file is taken.
pub open spec fn picks(pick: Pick, file: SegmentFile) -> bool {
    match pick {
        Pick::Except(index) => file.index != index,
        Pick::Complete => file.size matches Some(size) && size >= MIN_SEGMENT_SIZE,
    }
}

/// The segments in the files that are taken, in the order of the files.
pub open spec fn picked(found: Seq<SegmentFile>, pick: Pick, seconds: int) -> Seq<Segment>
    decreases found.len(),
{
    if found.len() == 0 {
        Seq::empty()
    } else {
        let front = picked(found.drop_last(), pick, seconds);
        let file = found.last();
        if picks(pick, file) {
            front.push(file_segment(file.path@, file.index as int, seconds))
        } else {
            front
        }
    }
}

/// The segments in the files that are taken.
fn pick_segments(found: &Vec<SegmentFile>, pick: Pick, seconds: u32) -> (list: Vec<
    CompletedSegment,
>)
    ensures
        segments(list@) == picked(found@, pick, seconds as int),
{
    let mut list: Vec<CompletedSegment> = Vec::new();
    let mut i: usize = 0;
    assert(segments(list@) =~= Seq::empty());
    while i < found.len()
        invariant
            i <= found@.len(),
            segments(list@) == picked(found@.take(i as int), pick, seconds as int),
        decreases found@.len() - i,
    {
        let ghost before = list@;
        assert(found@.take(i + 1).drop_last() =~= found@.take(i as int));
        let file = &found[i];
        let taken: bool = match pick {
            Pick::Except(index) => file.index != index,
            Pick::Complete => match file.size {
                Some(size) => size >= MIN_SEGMENT_SIZE,
                None => false,
            },
        };
        if taken {
            list.push(segment_in(file, seconds));
            assert(segments(list@) =~= segments(before).push(list@.last()@));
        }
        i += 1;
    }
    assert(found@.take(found@.len() as int) =~= found@);
    list
}

/// Where a segment with the number `index` is put in: behind those with smaller
/// numbers, and behind those with the same one.
pub open spec fn place(list: Seq<Segment>, index: int) -> int
    decreases list.len(),
{
    if list.len() == 0 || list.last().index <= index {
        list.len() as int
    } else {
        place(list.drop_last(), index)
    }
}

/// The segments in the order of their numbers. Segments with the same number
/// keep their order.
pub open spec fn by_index(list: Seq<Segment>) -> Seq<Segment>
    decreases list.len(),
{
    if list.len() == 0 {
        Seq::empty()
    } else {
        let front = by_index(list.drop_last());
        front.insert(place(front, list.last().index), list.last())
    }
}

proof fn lemma_place(list: Seq<Segment>, index: int)
    requires
        forall|i: int, j: int|
            0 <= i <= j < list.len() ==> (#[trigger] list[i]).index <= (#[trigger] list[j]).index,
    ensures
        0 <= place(list, index) <= list.len(),
        forall|i: int| 0 <= i < place(list, index) ==> (#[trigger] list[i]).index <= index,
        forall|i: int| place(list, index) <= i < list.len() ==> (#[trigger] list[i]).index > index,
    decreases list.len(),
{
    if list.len() > 0 && list.last().index > index {
        lemma_place(list.drop_last(), index);
        assert forall|i: int| 0 <= i < place(list, index) implies (#[trigger] list[i]).index
            <= index by {
            assert(list.drop_last()[i] == list[i]);
        }
        assert forall|i: int| place(list, index) <= i < list.len() implies (
        #[trigger] list[i]).index > index by {
            if i < list.len() - 1 {
                assert(list.drop_last()[i] == list[i]);
            }
        }
    }
}

/// Putting segments in order keeps all of them, and the numbers never go down.
pub proof fn segments_are_put_in_order(list: Seq<Segment>)
    ensures
        by_index(list).to_multiset() == list.to_multiset(),
        by_index(list).len() == list.len(),
        forall|i: int, j: int|
            0 <= i <= j < by_index(list).len() ==> (#[trigger] by_index(list)[i]).index <= (
            #[trigger] by_index(list)[j]).index,
    decreases list.len(),
{
    broadcast use vstd::seq_lib::group_to_multiset_ensures;

    if list.len() > 0 {
        let front = by_index(list.drop_last());
        let last = list.last();
        segments_are_put_in_order(list.drop_last());
        lemma_place(front, last.index);
        vstd::seq_lib::to_multiset_insert(front, place(front, last.index), last);
        assert(list =~= list.drop_last().push(last));
    }
}

/// The segments in the order of their numbers.
fn sort_segments(list: &Vec<CompletedSegment>) -> (sorted: Vec<CompletedSegment>)
    ensures
        segments(sorted@) == by_index(segments(list@)),
{
    let ghost all = segments(list@);
    let mut sorted: Vec<CompletedSegment> = Vec::new();
    let mut i: usize = 0;
    assert(segments(sorted@) =~= Seq::empty());
    while i < list.len()
        invariant
            all == segments(list@),
            i <= list@.len(),
            segments(sorted@) == by_index(all.take(i as int)),
        decreases list@.len() - i,
    {
        let index: u32 = list[i].index;
        let ghost front = segments(sorted@);
        let mut at: usize = sorted.len();
        assert(front.take(at as int) =~= front);
        while at > 0 && sorted[at - 1].index > index
            invariant
                at <= sorted@.len(),
                front == segments(sorted@),
                place(front, index as int) == place(front.take(at as int), index as int),
            decreases at,
        {
            assert(front.take(at as int).last() == sorted@[at - 1]@);
            assert(front.take(at as int).drop_last() =~= front.take(at - 1));
            at -= 1;
        }
        proof {
            if at > 0 {
                assert(front.take(at as int).last() == sorted@[at - 1]@);
            }
            assert(all.take(i + 1).drop_last() =~= all.take(i as int));
            assert(all.take(i + 1).last() == list@[i as int]@);
        }
        sorted.insert(at, list[i].copy());
        i += 1;
        assert(segments(sorted@) =~= front.insert(at as int, list@[i - 1]@));
    }
    assert(all.take(list@.len() as int) =~= all);
    sorted
}

/// Whether a segment of the list has the number `index`.
pub open spec fn has_index(list: Seq<Segment>, index: int) -> bool {
    exists|i: int| 0 <= i < list.len() && (#[trigger] list[i]).index == index
}

/// The segments of the list whose numbers are not known yet. Of those with the
/// same number only the first counts.
pub open spec fn unseen(list: Seq<Segment>, known: Set<u32>) -> Seq<Segment>
    decreases list.len(),
{
    if list.len() == 0 {
        Seq::empty()
    } else {
        let front = unseen(list.drop_last(), known);
        let last = list.last();
        if known.contains(last.index as u32) || has_index(front, last.index) {
            front
        } else {
            front.push(last)
        }
    }
}

/// Takes the segments whose numbers are not known yet, and notes their numbers.
fn take_unseen(list: &Vec<CompletedSegment>, known: &mut BTreeSet<u32>) -> (new: Vec<
    CompletedSegment,
>)
    ensures
        segments(new@) == unseen(segments(list@), old(known)@),
        forall|index: u32| #[trigger]
            final(known)@.contains(index) <==> old(known)@.contains(index) || has_index(
                segments(new@),
                index as int,
            ),
{
    broadcast use vstd::std_specs::btree::group_btree_axioms;

    let ghost seen = known@;
    let ghost all = segments(list@);
    let mut new: Vec<CompletedSegment> = Vec::new();
    let mut i: usize = 0;
    assert(segments(new@) =~= Seq::empty());
    while i < list.len()
        invariant
            all == segments(list@),
            i <= list@.len(),
            segments(new@) == unseen(all.take(i as int), seen),
            forall|index: u32| #[trigger]
                known@.contains(index) <==> seen.contains(index) || has_index(
                    segments(new@),
                    index as int,
                ),
        decreases list@.len() - i,
    {
        let index: u32 = list[i].index;
        let ghost front = segments(new@);
        assert(all.take(i + 1).drop_last() =~= all.take(i as int));
        assert(all.take(i + 1).last() == list@[i as int]@);
        if !known.contains(&index) {
            known.insert(index);
            new.push(list[i].copy());
            let ghost longer = segments(new@);
            assert(longer =~= front.push(list@[i as int]@));
            assert forall|other: u32| #[trigger] known@.contains(other) <==> seen.contains(other)
                || has_index(longer, other as int) by {
                if has_index(front, other as int) {
                    let k = choose|k: int|
                        0 <= k < front.len() && (#[trigger] front[k]).index == other;
                    assert(longer[k].index == other);
                }
                if has_index(longer, other as int) && other != index {
                    let k = choose|k: int|
                        0 <= k < longer.len() && (#[trigger] longer[k]).index == other;
                    assert(front[k].index == other);
                }
                assert(longer.last().index == index);
            }
        }
        i += 1;
    }
    assert(all.take(list@.len() as int) =~= all);
    new
}

proof fn lemma_unseen(list: Seq<Segment>, known: Set<u32>)
    ensures
        forall|i: int|
            0 <= i < unseen(list, known).len() ==> list.contains(
                #[trigger] unseen(list, known)[i],
            ) && !known.contains(unseen(list, known)[i].index as u32),
        forall|i: int, j: int|
            0 <= i < j < unseen(list, known).len() ==> (#[trigger] unseen(list, known)[i]).index
                != (#[trigger] unseen(list, known)[j]).index,
    decreases list.len(),
{
    if list.len() > 0 {
        let front = unseen(list.drop_last(), known);
        lemma_unseen(list.drop_last(), known);
        assert forall|i: int| 0 <= i < front.len() implies list.contains(#[trigger] front[i]) by {
            let k = list.drop_last().index_of(front[i]);
            assert(list[k] == front[i]);
        }
        assert(list[list.len() - 1] == list.last());
    }
}

/// The highest number of the files that were found.
pub open spec fn newest(found: Seq<SegmentFile>) -> u32
    decreases found.len(),
{
    if found.len() <= 1 {
        found[0].index
    } else if found.last().index > newest(found.drop_last()) {
        found.last().index
    } else {
        newest(found.drop_last())
    }
}

proof fn lemma_newest(found: Seq<SegmentFile>)
    requires
        found.len() > 0,
    ensures
        forall|i: int| 0 <= i < found.len() ==> (#[trigger] found[i]).index <= newest(found),
    decreases found.len(),
{
    if found.len() > 1 {
        lemma_newest(found.drop_last());
        assert forall|i: int| 0 <= i < found.len() implies (#[trigger] found[i]).index <= newest(
            found,
        ) by {
            if i < found.len() - 1 {
                assert(found.drop_last()[i] == found[i]);
            }
        }
    }
}

/// The highest number of the files that were found.
fn newest_index(found: &Vec<SegmentFile>) -> (index: u32)
    requires
        found@.len() > 0,
    ensures
        index == newest(found@),
{
    let mut index: u32 = found[0].index;
    let mut i: usize = 1;
    while i < found.len()
        invariant
            1 <= i <= found@.len(),
            index == newest(found@.take(i as int)),
        decreases found@.len() - i,
    {
        assert(found@.take(i + 1).drop_last() =~= found@.take(i as int));
        if found[i].index > index {
            index = found[i].index;
        }
        i += 1;
    }
    assert(found@.take(found@.len() as int) =~= found@);
    index
}

/// The segments that a look at the directory adds: those in files that FFmpeg
/// has closed, in the order of their numbers, as far as their numbers are not
/// known.
pub open spec fn newly_closed(found: Seq<SegmentFile>, seconds: int, known: Set<u32>) -> Seq<
    Segment,
> {
    if found.len() == 0 {
        Seq::empty()
    } else {
        unseen(by_index(picked(found, Pick::Except(newest(found)), seconds)), known)
    }
}

proof fn lemma_picked(found: Seq<SegmentFile>, pick: Pick, seconds: int, s: Segment)
    requires
        picked(found, pick, seconds).contains(s),
    ensures
        exists|i: int|
            0 <= i < found.len() && picks(pick, #[trigger] found[i]) && s == file_segment(
                found[i].path@,
                found[i].index as int,
                seconds,
            ),
    decreases found.len(),
{
    let all = picked(found, pick, seconds);
    let k = all.index_of(s);
    let front = picked(found.drop_last(), pick, seconds);
    if k < front.len() {
        assert(front[k] == s);
        lemma_picked(found.drop_last(), pick, seconds, s);
        let i = choose|i: int|
            0 <= i < found.drop_last().len() && picks(pick, #[trigger] found.drop_last()[i]) && s
                == file_segment(
                found.drop_last()[i].path@,
                found.drop_last()[i].index as int,
                seconds,
            );
        assert(found[i] == found.drop_last()[i]);
    } else {
        assert(found[found.len() - 1] == found.last());
    }
}

/// A segment is added only once its file is closed: what is added comes from a
/// file that was found, and that is not the one with the highest number, which
/// is still being written.
pub proof fn segments_being_written_are_left_alone(
    found: Seq<SegmentFile>,
    seconds: int,
    known: Set<u32>,
    i: int,
)
    requires
        0 <= i < newly_closed(found, seconds, known).len(),
    ensures
        newly_closed(found, seconds, known)[i].index < newest(found),
        exists|j: int|
            0 <= j < found.len() && newly_closed(found, seconds, known)[i] == file_segment(
                (#[trigger] found[j]).path@,
                found[j].index as int,
                seconds,
            ),
{
    let taken = picked(found, Pick::Except(newest(found)), seconds);
    let s = newly_closed(found, seconds, known)[i];
    lemma_unseen(by_index(taken), known);
    assert(by_index(taken).contains(s));
    segments_are_put_in_order(taken);
    broadcast use vstd::seq_lib::group_to_multiset_ensures;

    assert(by_index(taken).to_multiset().count(s) > 0);
    assert(taken.contains(s));
    lemma_picked(found, Pick::Except(newest(found)), seconds, s);
    lemma_newest(found);
}

/// No segment is added twice: what is added was not known before, and no two
/// of those that are added at once have the same number.
pub proof fn segments_are_added_once(found: Seq<SegmentFile>, seconds: int, known: Set<u32>)
    ensures
        forall|i: int|
            0 <= i < newly_closed(found, seconds, known).len() ==> !known.contains(
                (#[trigger] newly_closed(found, seconds, known)[i]).index as u32,
            ),
        forall|i: int, j: int|
            0 <= i < j < newly_closed(found, seconds, known).len() ==> (
            #[trigger] newly_closed(found, seconds, known)[i]).index != (
            #[trigger] newly_closed(found, seconds, known)[j]).index,
{
    if found.len() > 0 {
        lemma_unseen(by_index(picked(found, Pick::Except(newest(found)), seconds)), known);
    }
}

/// When the oldest segment must end that is kept, given the highest number.
pub open spec fn keep_from(newest: int, seconds: int, buffer: int) -> int {
    ((newest + 1) * seconds - buffer) * TICKS_PER_SECOND
}

/// Whether a segment ends at `time` or later.
pub open spec fn ends_from(time: int) -> spec_fn(Segment) -> bool {
    |s: Segment| s.end >= time
}

/// Whether a segment ends before `time`.
pub open spec fn ends_before(time: int) -> spec_fn(Segment) -> bool {
    |s: Segment| s.end < time
}

/// The paths of segments.
pub open spec fn paths_of(list: Seq<Segment>) -> Seq<Seq<char>> {
    list.map_values(|s: Segment| s.path)
}

/// Splits a list into the segments that are kept and the paths of the others.
fn split_old(list: Vec<CompletedSegment>, from: i128) -> (parts: (
    Vec<CompletedSegment>,
    Vec<String>,
))
    ensures
        segments(parts.0@) == segments(list@).filter(ends_from(from as int)),
        parts.1.deep_view() == paths_of(segments(list@).filter(ends_before(from as int))),
{
    let ghost all = segments(list@);
    let mut kept: Vec<CompletedSegment> = Vec::new();
    let mut removed: Vec<String> = Vec::new();
    let mut i: usize = 0;
    proof {
        reveal(Seq::filter);
        assert(segments(kept@) =~= all.take(0).filter(ends_from(from as int)));
        assert(removed.deep_view() =~= paths_of(all.take(0).filter(ends_before(from as int))));
    }
    while i < list.len()
        invariant
            all == segments(list@),
            i <= list@.len(),
            segments(kept@) == all.take(i as int).filter(ends_from(from as int)),
            removed.deep_view() == paths_of(
                all.take(i as int).filter(ends_before(from as int)),
            ),
        decreases list@.len() - i,
    {
        let ghost kept_before = segments(kept@);
        let ghost removed_before = removed.deep_view();
        proof {
            reveal(Seq::filter);
            assert(all.take(i + 1).drop_last() =~= all.take(i as int));
            assert(all.take(i + 1).last() == list@[i as int]@);
        }
        if list[i].end_pts < from {
            push_text(&mut removed, list[i].path.as_str());
            assert(removed.deep_view() =~= paths_of(
                all.take(i + 1).filter(ends_before(from as int)),
            ));
        } else {
            kept.push(list[i].copy());
            assert(segments(kept@) =~= kept_before.push(list@[i as int]@));
        }
        i += 1;
    }
    assert(all.take(list@.len() as int) =~= all);
    (kept, removed)
}

/// Watches the directory of a recording for segments that FFmpeg has closed.
pub struct SegmentWatcher {
    /// The numbers of the segments that were added.
    pub known: BTreeSet<u32>,
    /// The length of a segment in seconds.
    pub seconds: u32,
    /// How much of the recording is kept, in seconds.
    pub buffer: u32,
}

impl SegmentWatcher {
    /// A watcher for a recording that begins.
    pub fn new(options: &CaptureOptions) -> (watcher: SegmentWatcher)
        ensures
            watcher.known@ == Set::<u32>::empty(),
            watcher.seconds == segment_seconds(options),
            watcher.buffer == buffer_seconds(options),
    {
        let seconds: u32 = seconds_of(options);
        let buffer: u32 = if options.buffer_duration < seconds {
            seconds
        } else {
            options.buffer_duration
        };
        SegmentWatcher { known: BTreeSet::new(), seconds, buffer }
    }
}

/// What a look at the directory of a recording came to.
pub struct Scan {
    /// The segments that were added.
    pub completed: Vec<CompletedSegment>,
    /// The files that are no longer needed.
    pub removed: Vec<String>,
}

/// A session that records into segments.
pub struct CaptureSession {
    pub is_recording: bool,
    pub is_saving: bool,
    pub dropped_frames: u64,
    pub stop_flag: bool,
    pub segments: Vec<CompletedSegment>,
    pub segment_dir: Option<String>,
    /// In seconds.
    pub segment_duration: u32,
    /// When the recording started, by a clock of the caller.
    pub recording_start: Option<u64>,
    /// How much later than the video the audio started, in units of 100 ns.
    pub audio_start_delay: i64,
}

/// Whether `present` has answered with `flags` for the paths of the segments.
pub open spec fn flags_of<F: Fn(&String) -> bool>(
    list: Seq<CompletedSegment>,
    present: F,
    flags: Seq<bool>,
) -> bool {
    &&& flags.len() == list.len()
    &&& forall|i: int|
        0 <= i < list.len() ==> call_ensures(present, (&list[i].path,), #[trigger] flags[i])
}

/// The segments of a list whose flag is set.
pub open spec fn flagged(list: Seq<Segment>, flags: Seq<bool>) -> Seq<Segment>
    decreases list.len(),
{
    if list.len() == 0 {
        Seq::empty()
    } else {
        let front = flagged(list.drop_last(), flags.drop_last());
        if flags.last() {
            front.push(list.last())
        } else {
            front
        }
    }
}

impl CaptureSession {
    /// A session that does not record.
    pub fn new() -> (session: Self)
        ensures
            !session.is_recording,
            !session.is_saving,
            session.dropped_frames == 0,
            !session.stop_flag,
            session.segments@.len() == 0,
            session.segment_dir is None,
            session.segment_duration == DEFAULT_SEGMENT_SECONDS,
            session.recording_start is None,
            session.audio_start_delay == 0,
    {
        CaptureSession {
            is_recording: false,
            is_saving: false,
            dropped_frames: 0,
            stop_flag: false,
            segments: Vec::new(),
            segment_dir: None,
            segment_duration: DEFAULT_SEGMENT_SECONDS,
            recording_start: None,
            audio_start_delay: 0,
        }
    }

    /// Gets ready to record. The recording begins with
    /// [`CaptureSession::started`].
    pub fn start(&mut self) -> (ready: Result<(), StartError>)
        ensures
            ready == if old(self).is_recording {
                Err::<(), StartError>(StartError::AlreadyRecording)
            } else {
                Ok(())
            },
            *final(self) == if old(self).is_recording {
                *old(self)
            } else {
                CaptureSession { stop_flag: false, ..*old(self) }
            },
    {
        if self.is_recording {
            return Err(StartError::AlreadyRecording);
        }
        self.stop_flag = false;
        Ok(())
    }

    /// Begins the recording at the time `now` once FFmpeg was launched, or
    /// reports why it was not.
    pub fn started(&mut self, options: &CaptureOptions, launched: Result<(), String>, now: u64)
        -> (info: Result<CaptureReadyInfo, String>)
        ensures
            match launched {
                Ok(_) => {
                    &&& final(self).segments@.len() == 0
                    &&& final(self).segment_dir.deep_view() == Some(options.segment_dir@)
                    &&& *final(self) == (CaptureSession {
                        is_recording: true,
                        segments: final(self).segments,
                        segment_dir: final(self).segment_dir,
                        segment_duration: segment_seconds(options),
                        recording_start: Some(now),
                        audio_start_delay: 0,
                        ..*old(self)
                    })
                    &&& info matches Ok(info) && {
                        &&& (info.width, info.height) == picture_size(options)
                        &&& info.fps == options.fps
                        &&& info.segment_dir@ == options.segment_dir@
                    }
                },
                Err(reason) => {
                    &&& *final(self) == (CaptureSession {
                        segment_duration: segment_seconds(options),
                        ..*old(self)
                    })
                    &&& info matches Err(text) && text@ == "FFmpeg failed: "@ + reason@
                },
            },
    {
        self.segment_duration = seconds_of(options);
        match launched {
            Err(reason) => {
                let mut text = "FFmpeg failed: ".to_owned();
                text.append(reason.as_str());
                Err(text)
            },
            Ok(_) => {
                self.recording_start = Some(now);
                self.segment_dir = Some(options.segment_dir.clone());
                self.segments = Vec::new();
                self.audio_start_delay = 0;
                self.is_recording = true;
                Ok(
                    CaptureReadyInfo {
                        width: options.target_width.unwrap_or(DEFAULT_WIDTH),
                        height: options.target_height.unwrap_or(DEFAULT_HEIGHT),
                        fps: options.fps,
                        segment_dir: options.segment_dir.clone(),
                    },
                )
            },
        }
    }

    /// Asks the recording to end.
    pub fn stop(&mut self)
        ensures
            *final(self) == (CaptureSession {
                stop_flag: true,
                is_recording: false,
                ..*old(self)
            }),
    {
        self.stop_flag = true;
        self.is_recording = false;
    }

    /// Adds the segments that FFmpeg has closed since the last look at the
    /// directory, and drops those that are too old. Where no files were found
    /// nothing changes.
    pub fn scan(&mut self, watcher: &mut SegmentWatcher, found: &Vec<SegmentFile>) -> (scan: Scan)
        ensures
            segments(scan.completed@) == newly_closed(
                found@,
                old(watcher).seconds as int,
                old(watcher).known@,
            ),
            forall|index: u32| #[trigger]
                final(watcher).known@.contains(index) <==> old(watcher).known@.contains(index)
                    || has_index(segments(scan.completed@), index as int),
            final(watcher).seconds == old(watcher).seconds,
            final(watcher).buffer == old(watcher).buffer,
            found@.len() == 0 ==> *final(self) == *old(self) && scan.removed@.len() == 0,
            found@.len() > 0 ==> {
                let all = segments(old(self).segments@) + segments(scan.completed@);
                let from = keep_from(
                    newest(found@) as int,
                    old(watcher).seconds as int,
                    old(watcher).buffer as int,
                );
                &&& segments(final(self).segments@) == all.filter(ends_from(from))
                &&& scan.removed.deep_view() == paths_of(all.filter(ends_before(from)))
                &&& *final(self) == (CaptureSession {
                    segments: final(self).segments,
                    ..*old(self)
                })
            },
    {
        if found.len() == 0 {
            let completed: Vec<CompletedSegment> = Vec::new();
            assert(segments(completed@) =~= Seq::empty());
            return Scan { completed, removed: Vec::new() };
        }
        let last: u32 = newest_index(found);
        let seconds: u32 = watcher.seconds;
        let closed = pick_segments(found, Pick::Except(last), seconds);
        let sorted = sort_segments(&closed);
        let completed = take_unseen(&sorted, &mut watcher.known);
        let ghost before = segments(self.segments@);
        let mut all = take_list(&mut self.segments);
        push_copies(&mut all, &completed);
        assert(0 <= last * seconds <= u32::MAX * u32::MAX) by (nonlinear_arith)
            requires
                0 <= last <= u32::MAX,
                0 <= seconds <= u32::MAX,
        ;
        assert((last + 1) * seconds == last * seconds + seconds) by (nonlinear_arith);
        let end: i128 = (last as u64 * seconds as u64) as i128 + seconds as i128;
        let from: i128 = (end - watcher.buffer as i128) * TICKS_PER_SECOND as i128;
        let (kept, removed) = split_old(all, from);
        self.segments = kept;
        Scan { completed, removed }
    }

    /// The segments in closed files that are still there, as `present` tells,
    /// in the order of their numbers.
    pub fn get_segments<F: Fn(&String) -> bool>(&self, present: F) -> (list: Vec<CompletedSegment>)
        requires
            forall|path: &String| call_requires(present, (path,)),
        ensures
            exists|flags: Seq<bool>| #[trigger]
                flags_of(self.segments@, present, flags) && segments(list@) == by_index(
                    flagged(segments(self.segments@), flags),
                ),
    {
        let ghost all = segments(self.segments@);
        let ghost mut flags: Seq<bool> = Seq::empty();
        let mut list: Vec<CompletedSegment> = Vec::new();
        let mut i: usize = 0;
        assert(segments(list@) =~= Seq::empty());
        while i < self.segments.len()
            invariant
                all == segments(self.segments@),
                i <= self.segments@.len(),
                flags.len() == i,
                forall|path: &String| call_requires(present, (path,)),
                forall|j: int|
                    0 <= j < i ==> call_ensures(
                        present,
                        (&self.segments@[j].path,),
                        #[trigger] flags[j],
                    ),
                segments(list@) == flagged(all.take(i as int), flags),
            decreases self.segments@.len() - i,
        {
            let there: bool = present(&self.segments[i].path);
            let ghost front = segments(list@);
            proof {
                let before = flags;
                flags = flags.push(there);
                assert(flags.drop_last() =~= before);
                assert(all.take(i + 1).drop_last() =~= all.take(i as int));
                assert(all.take(i + 1).last() == self.segments@[i as int]@);
            }
            if there {
                list.push(self.segments[i].copy());
                assert(segments(list@) =~= front.push(self.segments@[i as int]@));
            }
            i += 1;
        }
        assert(all.take(i as int) =~= all);
        assert(flags_of(self.segments@, present, flags));
        sort_segments(&list)
    }

    /// Adds the files that were still being written when the recording ended.
    /// Files that are not complete are left out.
    pub fn finalize_pending_segments(&mut self, found: &Vec<SegmentFile>)
        ensures
            old(self).segment_dir is None ==> *final(self) == *old(self),
            old(self).segment_dir is Some ==> {
                let before = segments(old(self).segments@);
                &&& segments(final(self).segments@) == before + unseen(
                    by_index(
                        picked(found@, Pick::Complete, old(self).segment_duration as int),
                    ),
                    numbers(before),
                )
                &&& *final(self) == (CaptureSession {
                    segments: final(self).segments,
                    ..*old(self)
                })
            },
    {
        if self.segment_dir.is_none() {
            return ;
        }
        let mut known = known_numbers(&self.segments);
        let complete = pick_segments(found, Pick::Complete, self.segment_duration);
        let sorted = sort_segments(&complete);
        let new = take_unseen(&sorted, &mut known);
        push_copies(&mut self.segments, &new);
    }

    /// The directory of the recording.
    pub fn get_segment_dir(&self) -> (dir: Option<String>)
        ensures
            dir.deep_view() == self.segment_dir.deep_view(),
    {
        self.segment_dir.clone()
    }

    /// Where the audio of the recording would be.
    pub fn audio_path(&self) -> (path: Option<String>)
        ensures
            path.deep_view() == match self.segment_dir.deep_view() {
                Some(dir) => Some(with_slashes(joined(dir, "audio.raw"@))),
                None => None,
            },
    {
        match &self.segment_dir {
            Some(dir) => {
                let path = join_path(dir.as_str(), "audio.raw");
                Some(replace_char(path.as_str(), '\\', '/'))
            },
            None => None,
        }
    }

    /// The audio of the recording, given the size of the file at
    /// [`CaptureSession::audio_path`], where there is one.
    pub fn get_audio_file(&self, size: Option<u64>) -> (file: Option<String>)
        ensures
            file.deep_view() == match (self.segment_dir.deep_view(), size) {
                (Some(dir), Some(size)) => if size > EMPTY_AUDIO_SIZE {
                    Some(with_slashes(joined(dir, "audio.raw"@)))
                } else {
                    None
                },
                _ => None,
            },
    {
        match size {
            Some(size) => if size > EMPTY_AUDIO_SIZE {
                self.audio_path()
            } else {
                None
            },
            None => None,
        }
    }

    /// The time since the recording started, at the time `now`. A clock that
    /// went back gives 0.
    pub fn elapsed(&self, now: u64) -> (elapsed: Option<u64>)
        ensures
            elapsed == match self.recording_start {
                Some(start) => Some(
                    if now < start {
                        0
                    } else {
                        (now - start) as u64
                    },
                ),
                None => None,
            },
    {
        match self.recording_start {
            Some(start) => Some(now.saturating_sub(start)),
            None => None,
        }
    }

    /// How much later than the video the audio started, in units of 100 ns.
    pub fn audio_start_delay(&self) -> (delay: i64)
        ensures
            delay == self.audio_start_delay,
    {
        self.audio_start_delay
    }

    /// Forgets the recording. The directory that is returned is no longer
    /// needed.
    pub fn cleanup(&mut self) -> (dir: Option<String>)
        ensures
            dir == old(self).segment_dir,
            final(self).segments@.len() == 0,
            *final(self) == (CaptureSession {
                segment_dir: None,
                segments: final(self).segments,
                recording_start: None,
                ..*old(self)
            }),
    {
        let dir = self.segment_dir.take();
        self.segments = Vec::new();
        self.recording_start = None;
        dir
    }
}

impl Default for CaptureSession {
    /// A session that does not record.
    fn default() -> (session: Self)
        ensures
            !session.is_recording,
            !session.is_saving,
            session.dropped_frames == 0,
            !session.stop_flag,
            session.segments@.len() == 0,
            session.segment_dir is None,
            session.segment_duration == DEFAULT_SEGMENT_SECONDS,
            session.recording_start is None,
            session.audio_start_delay == 0,
    {
        Self::new()
    }
}

/// The numbers of segments.
pub open spec fn numbers(list: Seq<Segment>) -> Set<u32> {
    Set::new(|index: u32| has_index(list, index as int))
}

/// The numbers of segments.
fn known_numbers(list: &Vec<CompletedSegment>) -> (known: BTreeSet<u32>)
    ensures
        known@ == numbers(segments(list@)),
{
    broadcast use vstd::std_specs::btree::group_btree_axioms;

    let ghost all = segments(list@);
    let mut known: BTreeSet<u32> = BTreeSet::new();
    let mut i: usize = 0;
    while i < list.len()
        invariant
            all == segments(list@),
            i <= list@.len(),
            forall|index: u32| #[trigger]
                known@.contains(index) <==> exists|k: int|
                    0 <= k < i && (#[trigger] all[k]).index == index,
        decreases list@.len() - i,
    {
        known.insert(list[i].index);
        assert(all[i as int].index == list@[i as int].index);
        i += 1;
    }
    assert(known@ =~= numbers(all));
    known
}

/// Takes a list away.
fn take_list(list: &mut Vec<CompletedSegment>) -> (taken: Vec<CompletedSegment>)
    ensures
        taken@ == old(list)@,
        final(list)@.len() == 0,
{
    let mut taken: Vec<CompletedSegment> = Vec::new();
    std::mem::swap(list, &mut taken);
    taken
}

/// Appends copies of segments.
fn push_copies(list: &mut Vec<CompletedSegment>, more: &Vec<CompletedSegment>)
    ensures
        segments(final(list)@) == segments(old(list)@) + segments(more@),
{
    let ghost before = segments(list@);
    let ghost added = segments(more@);
    let mut i: usize = 0;
    assert(before + added.take(0) =~= before);
    while i < more.len()
        invariant
            added == segments(more@),
            i <= more@.len(),
            segments(list@) == before + added.take(i as int),
        decreases more@.len() - i,
    {
        let ghost front = segments(list@);
        list.push(more[i].copy());
        assert(segments(list@) =~= front.push(more@[i as int]@));
        i += 1;
        assert(added.take(i as int) =~= added.take(i - 1).push(more@[i - 1]@));
    }
    assert(added.take(more@.len() as int) =~= added);
}

/// What is left of a list after a look at the directory lies within the time
/// that is kept, and what is removed does not.
pub proof fn old_segments_are_dropped(
    list: Seq<Segment>,
    newest: int,
    seconds: int,
    buffer: int,
    s: Segment,
)
    requires
        list.contains(s),
    ensures
        list.filter(ends_from(keep_from(newest, seconds, buffer))).contains(s) <==> (newest + 1)
            * seconds * TICKS_PER_SECOND - s.end <= buffer * TICKS_PER_SECOND,
        list.filter(ends_before(keep_from(newest, seconds, buffer))).contains(s)
            <==> !list.filter(ends_from(keep_from(newest, seconds, buffer))).contains(s),
{
    let from = keep_from(newest, seconds, buffer);
    let at = list.index_of(s);
    assert(list[at] == s);
    broadcast use {Seq::lemma_filter_pred, Seq::lemma_filter_contains};

    if s.end >= from {
        assert(ends_from(from)(list[at]));
    } else {
        assert(ends_before(from)(list[at]));
    }
    let kept = list.filter(ends_from(from));
    let removed = list.filter(ends_before(from));
    if kept.contains(s) {
        let i = kept.index_of(s);
        assert(ends_from(from)(kept[i]));
    }
    if removed.contains(s) {
        let i = removed.index_of(s);
        assert(ends_before(from)(removed[i]));
    }
    assert(((newest + 1) * seconds - buffer) * TICKS_PER_SECOND == (newest + 1) * seconds
        * TICKS_PER_SECOND - buffer * TICKS_PER_SECOND) by (nonlinear_arith);
}

proof fn lemma_picked_all(found: Seq<SegmentFile>, pick: Pick, seconds: int, i: int)
    requires
        0 <= i < found.len(),
        picks(pick, found[i]),
    ensures
        picked(found, pick, seconds).contains(
            file_segment(found[i].path@, found[i].index as int, seconds),
        ),
    decreases found.len(),
{
    let all = picked(found, pick, seconds);
    let front = picked(found.drop_last(), pick, seconds);
    let s = file_segment(found[i].path@, found[i].index as int, seconds);
    if i < found.len() - 1 {
        assert(found.drop_last()[i] == found[i]);
        lemma_picked_all(found.drop_last(), pick, seconds, i);
        let k = front.index_of(s);
        assert(all[k] == s);
    } else {
        assert(all[front.len() as int] == s);
    }
}

proof fn lemma_unseen_covers(list: Seq<Segment>, known: Set<u32>, s: Segment)
    requires
        list.contains(s),
    ensures
        known.contains(s.index as u32) || has_index(unseen(list, known), s.index),
    decreases list.len(),
{
    let all = unseen(list, known);
    let front = unseen(list.drop_last(), known);
    let at = list.index_of(s);
    if at < list.len() - 1 {
        assert(list.drop_last()[at] == s);
        lemma_unseen_covers(list.drop_last(), known, s);
        if has_index(front, s.index) {
            let k = choose|k: int| 0 <= k < front.len() && (#[trigger] front[k]).index == s.index;
            assert(all[k].index == s.index);
        }
    } else if !known.contains(s.index as u32) && !has_index(front, s.index) {
        assert(all[front.len() as int].index == s.index);
    }
}

proof fn lemma_picked_are_covered(
    found: Seq<SegmentFile>,
    pick: Pick,
    seconds: int,
    known: Set<u32>,
    i: int,
)
    requires
        0 <= i < found.len(),
        picks(pick, found[i]),
    ensures
        known.contains(found[i].index) || has_index(
            unseen(by_index(picked(found, pick, seconds)), known),
            found[i].index as int,
        ),
{
    broadcast use vstd::seq_lib::group_to_multiset_ensures;

    let taken = picked(found, pick, seconds);
    let s = file_segment(found[i].path@, found[i].index as int, seconds);
    lemma_picked_all(found, pick, seconds, i);
    segments_are_put_in_order(taken);
    assert(taken.to_multiset().count(s) > 0);
    assert(by_index(taken).contains(s));
    lemma_unseen_covers(by_index(taken), known, s);
}

/// No closed segment is missed: each file but those with the highest number was
/// known or is added.
pub proof fn closed_segments_are_added(
    found: Seq<SegmentFile>,
    seconds: int,
    known: Set<u32>,
    i: int,
)
    requires
        0 <= i < found.len(),
        found[i].index != newest(found),
    ensures
        known.contains(found[i].index) || has_index(
            newly_closed(found, seconds, known),
            found[i].index as int,
        ),
{
    lemma_picked_are_covered(found, Pick::Except(newest(found)), seconds, known, i);
}

/// Once a recording has ended, every complete file has its segment, the one
/// with the highest number too.
pub proof fn complete_files_are_added(
    list: Seq<Segment>,
    found: Seq<SegmentFile>,
    seconds: int,
    i: int,
)
    requires
        0 <= i < found.len(),
        picks(Pick::Complete, found[i]),
    ensures
        has_index(
            list + unseen(by_index(picked(found, Pick::Complete, seconds)), numbers(list)),
            found[i].index as int,
        ),
{
    let more = unseen(by_index(picked(found, Pick::Complete, seconds)), numbers(list));
    let index = found[i].index as int;
    lemma_picked_are_covered(found, Pick::Complete, seconds, numbers(list), i);
    if has_index(list, index) {
        let k = choose|k: int| 0 <= k < list.len() && (#[trigger] list[k]).index == index;
        assert((list + more)[k].index == index);
    } else {
        assert(!numbers(list).contains(found[i].index));
        let k = choose|k: int| 0 <= k < more.len() && (#[trigger] more[k]).index == index;
        assert((list + more)[list.len() + k].index == index);
    }
}

/// A path with slashes has one in place of every backslash, and is else the same.
pub proof fn only_backslashes_are_replaced(path: Seq<char>, i: int)
    requires
        0 <= i < path.len(),
    ensures
        with_slashes(path).len() == path.len(),
        with_slashes(path)[i] == if path[i] == '\\' {
            '/'
        } else {
            path[i]
        },
{
}

/// The number of a file tells when its segment was: the first one starts with the
/// recording, and each is as long as all are, in units of 100 ns.
pub proof fn numbers_tell_the_time(path: Seq<char>, index: int, seconds: int)
    ensures
        file_segment(path, 0, seconds).start == 0,
        file_segment(path, index, seconds).start == index * seconds * 10_000_000,
        file_segment(path, index, seconds).end == index * seconds * 10_000_000 + seconds
            * 10_000_000,
        file_segment(path, index, seconds).duration == seconds * 10_000_000,
        file_segment(path, index, seconds).index == index,
        file_segment(path, index, seconds).path == with_slashes(path),
{
    assert((index + 1) * seconds * 10_000_000 == index * seconds * 10_000_000 + seconds
        * 10_000_000) by (nonlinear_arith);
}

/// Segments are as long as was asked for, but at least a second, and as much is kept
/// as was asked for, but at least a segment.
pub proof fn segments_are_as_long_as_was_asked_for(options: &CaptureOptions)
    ensures
        segment_seconds(options) >= 1,
        segment_seconds(options) >= options.segment_duration,
        segment_seconds(options) == options.segment_duration || segment_seconds(options) == 1,
        buffer_seconds(options) >= segment_seconds(options),
        buffer_seconds(options) >= options.buffer_duration,
        buffer_seconds(options) == options.buffer_duration || buffer_seconds(options)
            == segment_seconds(options),
{
}

/// Of two lists of files, what is taken of the first comes before what is taken of
/// the second. A file is taken for its size if it has 1024 bytes or more, and else
/// for its number, which must be another than the one that is left out.
pub proof fn files_are_taken_one_by_one(
    a: Seq<SegmentFile>,
    b: Seq<SegmentFile>,
    file: SegmentFile,
    except: u32,
    seconds: int,
    pick: Pick,
)
    ensures
        picked(a + b, pick, seconds) == picked(a, pick, seconds) + picked(b, pick, seconds),
        picked(seq![file], Pick::Complete, seconds) == if file.size matches Some(size) && size
            >= 1024 {
            seq![file_segment(file.path@, file.index as int, seconds)]
        } else {
            Seq::empty()
        },
        picked(seq![file], Pick::Except(except), seconds) == if file.index != except {
            seq![file_segment(file.path@, file.index as int, seconds)]
        } else {
            Seq::empty()
        },
    decreases b.len(),
{
    reveal_with_fuel(picked, 2);
    let one = seq![file];
    assert(one.drop_last() =~= Seq::empty());
    assert(Seq::<Segment>::empty().push(file_segment(file.path@, file.index as int, seconds))
        =~= seq![file_segment(file.path@, file.index as int, seconds)]);
    if b.len() == 0 {
        assert(a + b =~= a);
        assert(picked(a, pick, seconds) + picked(b, pick, seconds) =~= picked(a, pick, seconds));
    } else {
        files_are_taken_one_by_one(a, b.drop_last(), file, except, seconds, pick);
        assert((a + b).drop_last() =~= a + b.drop_last());
        assert(picked(a + b, pick, seconds) =~= picked(a, pick, seconds) + picked(
            b,
            pick,
            seconds,
        ));
    }
}

/// Whether a segment has the number `index`.
spec fn is_numbered(index: int) -> spec_fn(Segment) -> bool {
    |s: Segment| s.index == index
}

/// Segments with the same number keep their order when segments are put in order.
pub proof fn segments_with_the_same_number_keep_their_order(list: Seq<Segment>, index: int)
    ensures
        by_index(list).filter(|s: Segment| s.index == index) == list.filter(
            |s: Segment| s.index == index,
        ),
    decreases list.len(),
{
    let same = is_numbered(index);
    assert(same =~= (|s: Segment| s.index == index));
    if list.len() > 0 {
        let shorter = list.drop_last();
        let last = list.last();
        let front = by_index(shorter);
        let at = place(front, last.index);
        segments_with_the_same_number_keep_their_order(shorter, index);
        segments_are_put_in_order(shorter);
        lemma_place(front, last.index);
        let a = front.take(at);
        let b = front.skip(at);
        let one = seq![last];
        assert(by_index(list) =~= a + one + b);
        assert(front =~= a + b);
        assert(list =~= shorter + one);
        Seq::filter_distributes_over_add(a + one, b, same);
        Seq::filter_distributes_over_add(a, one, same);
        Seq::filter_distributes_over_add(a, b, same);
        Seq::filter_distributes_over_add(shorter, one, same);
        if last.index == index {
            assert forall|i: int| 0 <= i < b.len() implies !same(#[trigger] b[i]) by {
                assert(b[i] == front[at + i]);
            }
            b.lemma_all_neg_filter_empty(same);
            assert(a.filter(same) + one.filter(same) + b.filter(same) =~= a.filter(same) + b.filter(
                same,
            ) + one.filter(same));
        } else {
            one.lemma_all_neg_filter_empty(same);
            assert(a.filter(same) + one.filter(same) + b.filter(same) =~= a.filter(same) + b.filter(
                same,
            ) + one.filter(same));
        }
    }
}

/// The highest number is one of the numbers of the files, and no file has a higher
/// one.
pub proof fn the_newest_file_has_the_highest_number(found: Seq<SegmentFile>)
    requires
        found.len() > 0,
    ensures
        forall|i: int| 0 <= i < found.len() ==> (#[trigger] found[i]).index <= newest(found),
        exists|i: int| 0 <= i < found.len() && (#[trigger] found[i]).index == newest(found),
    decreases found.len(),
{
    lemma_newest(found);
    if found.len() > 1 {
        let front = found.drop_last();
        the_newest_file_has_the_highest_number(front);
        let i = choose|i: int| 0 <= i < front.len() && (#[trigger] front[i]).index == newest(front);
        assert(found[i] == front[i]);
        assert(found[found.len() - 1] == found.last());
    } else {
        assert(found[0].index == newest(found));
    }
}

/// Of the segments that are looked at, one is new if its number was not known and no
/// segment before it has that number; it comes behind the other new ones.
pub proof fn the_first_of_a_number_is_new(list: Seq<Segment>, known: Set<u32>, s: Segment)
    requires
        0 <= s.index <= u32::MAX,
        forall|i: int| 0 <= i < list.len() ==> 0 <= (#[trigger] list[i]).index <= u32::MAX,
    ensures
        unseen(Seq::empty(), known).len() == 0,
        unseen(list.push(s), known) == if known.contains(s.index as u32) || exists|i: int|
            0 <= i < list.len() && (#[trigger] list[i]).index == s.index {
            unseen(list, known)
        } else {
            unseen(list, known).push(s)
        },
{
    assert(list.push(s).drop_last() =~= list);
    lemma_unseen(list, known);
    let front = unseen(list, known);
    if exists|i: int| 0 <= i < list.len() && (#[trigger] list[i]).index == s.index {
        let i = choose|i: int| 0 <= i < list.len() && (#[trigger] list[i]).index == s.index;
        assert(list.contains(list[i]));
        lemma_unseen_covers(list, known, list[i]);
    }
    if has_index(front, s.index) {
        let k = choose|k: int| 0 <= k < front.len() && (#[trigger] front[k]).index == s.index;
        assert(list.contains(front[k]));
        let i = list.index_of(front[k]);
        assert(list[i].index == s.index);
    }
}

proof fn lemma_unseen_in_order(list: Seq<Segment>, known: Set<u32>)
    requires
        forall|i: int, j: int|
            0 <= i <= j < list.len() ==> (#[trigger] list[i]).index <= (#[trigger] list[j]).index,
    ensures
        forall|i: int, j: int|
            0 <= i < j < unseen(list, known).len() ==> (#[trigger] unseen(list, known)[i]).index < (
            #[trigger] unseen(list, known)[j]).index,
    decreases list.len(),
{
    if list.len() > 0 {
        let shorter = list.drop_last();
        let front = unseen(shorter, known);
        assert forall|i: int, j: int| 0 <= i <= j < shorter.len() implies (
        #[trigger] shorter[i]).index <= (#[trigger] shorter[j]).index by {
            assert(list[i] == shorter[i] && list[j] == shorter[j]);
        }
        lemma_unseen_in_order(shorter, known);
        lemma_unseen(shorter, known);
        let all = unseen(list, known);
        assert forall|i: int, j: int| 0 <= i < j < all.len() implies (#[trigger] all[i]).index < (
        #[trigger] all[j]).index by {
            if j == front.len() {
                assert(shorter.contains(front[i]));
                let k = shorter.index_of(front[i]);
                assert(list[k] == front[i]);
                assert(list[k].index <= list[list.len() - 1].index);
                assert(!has_index(front, list.last().index));
                assert(front[i].index != list.last().index);
            }
        }
    }
}

/// The segments that are added come in the order of their numbers, which is that of
/// time.
pub proof fn segments_are_added_in_order(
    found: Seq<SegmentFile>,
    seconds: int,
    known: Set<u32>,
    i: int,
    j: int,
)
    requires
        0 <= i < j < newly_closed(found, seconds, known).len(),
    ensures
        newly_closed(found, seconds, known)[i].index < newly_closed(found, seconds, known)[j].index,
{
    if found.len() > 0 {
        let taken = picked(found, Pick::Except(newest(found)), seconds);
        segments_are_put_in_order(taken);
        lemma_unseen_in_order(by_index(taken), known);
    }
}

/// Of the segments of a list those are given whose files are there, in their order.
pub proof fn segments_are_given_while_their_files_are_there(
    list: Seq<Segment>,
    flags: Seq<bool>,
    s: Segment,
    there: bool,
)
    ensures
        flagged(Seq::empty(), flags).len() == 0,
        flagged(list.push(s), flags.push(there)) == if there {
            flagged(list, flags).push(s)
        } else {
            flagged(list, flags)
        },
{
    assert(list.push(s).drop_last() =~= list);
    assert(flags.push(there).drop_last() =~= flags);
}

/// The number of a file is found in names that begin with `seg_` and go on with
/// digits, and in no others.
pub proof fn only_segment_files_have_numbers(stem: Seq<char>)
    ensures
        number_in(stem) matches Some(n) ==> {
            &&& 0 <= n <= u32::MAX
            &&& stem.len() >= 5
            &&& stem[0] == 's' && stem[1] == 'e' && stem[2] == 'g' && stem[3] == '_'
            &&& forall|i: int|
                4 <= i < stem.len() ==> '0' <= #[trigger] stem[i] <= '9' || (i == 4 && stem[i]
                    == '+')
        },
{
    reveal_strlit("seg_");
    if number_in(stem) is Some {
        let digits = stem.skip(4);
        only_digits_make_numbers(digits, u32::MAX as int);
        assert(stem.subrange(0, 4)[0] == stem[0]);
        assert(stem.subrange(0, 4)[1] == stem[1]);
        assert(stem.subrange(0, 4)[2] == stem[2]);
        assert(stem.subrange(0, 4)[3] == stem[3]);
        assert forall|i: int| 4 <= i < stem.len() implies '0' <= #[trigger] stem[i] <= '9' || (i
            == 4 && stem[i] == '+') by {
            assert(stem[i] == digits[i - 4]);
        }
    }
}

/// Whether the text behind a switch is `value`, somewhere among arguments.
pub open spec fn is_switched(args: Seq<Seq<char>>, switch: Seq<char>, value: Seq<char>) -> bool {
    exists|i: int| 0 <= i && i + 1 < args.len() && #[trigger] args[i] == switch && args[i + 1] == value
}

/// FFmpeg records what was asked for: at the given frame rate and bitrate, with a
/// buffer of two seconds and a keyframe every two, into files of the given length. It
/// gets the sound from the pipe, but for a recording without sound, which is else the
/// same.
pub proof fn recordings_are_made_as_was_asked_for(options: &CaptureOptions, pipe: Seq<char>)
    ensures
        ({
            let args = capture_args(options, pipe);
            &&& is_switched(args, "-r"@, decimal(options.fps as nat))
            &&& is_switched(args, "-g"@, decimal((2 * options.fps) as nat))
            &&& is_switched(args, "-b:v"@, decimal(options.bitrate_kbps as nat) + "k"@)
            &&& is_switched(args, "-bufsize"@, decimal((2 * options.bitrate_kbps) as nat) + "k"@)
            &&& is_switched(args, "-segment_time"@, decimal(segment_seconds(options) as nat))
            &&& args.last() == with_slashes(joined(options.segment_dir@, "seg_%05d.mp4"@))
            &&& !options.no_audio ==> is_switched(args, "-i"@, pipe) && is_switched(
                args,
                "-c:a"@,
                "aac"@,
            )
            &&& options.no_audio ==> args == capture_args(options, Seq::empty()) && args.len()
                == 40
            &&& !options.no_audio ==> args.len() == 40 + 16
        }),
{
    let args = capture_args(options, pipe);
    let at: int = if options.no_audio {
        5
    } else {
        17
    };
    let end: int = if options.no_audio {
        at + 24
    } else {
        at + 28
    };
    assert(args[at + 8] == "-b:v"@);
    assert(args[at + 12] == "-bufsize"@);
    assert(args[at + 14] == "-r"@);
    assert(args[at + 18] == "-g"@);
    assert(args[end + 2] == "-segment_time"@);
    if !options.no_audio {
        assert(args[11] == "-i"@);
        assert(args[at + 24] == "-c:a"@);
    }
}
/// FFmpeg captures the screen, with the pointer, at the size that was asked for, or
/// at 1280 by 720. It encodes with the graphics card at a constant bitrate, in the
/// profile High, as fast as it can, and without frames that wait for later ones. Each
/// file is an MP4 whose times start anew, and the sound, where there is any, has two
/// channels of 16 bits, 48000 times a second.
pub proof fn recordings_are_made_for_replay(options: &CaptureOptions, pipe: Seq<char>)
    ensures
        ({
            let args = capture_args(options, pipe);
            &&& is_switched(args, "-f"@, "lavfi"@)
            &&& is_switched(
                args,
                "-i"@,
                "ddagrab=framerate="@ + decimal(options.fps as nat) + ":draw_mouse=1:video_size="@
                    + decimal(options.target_width.unwrap_or(1280) as nat) + "x"@ + decimal(
                    options.target_height.unwrap_or(720) as nat,
                ),
            )
            &&& is_switched(args, "-c:v"@, "h264_nvenc"@)
            &&& is_switched(args, "-preset"@, "p1"@)
            &&& is_switched(args, "-tune"@, "ll"@)
            &&& is_switched(args, "-rc"@, "cbr"@)
            &&& is_switched(args, "-maxrate"@, decimal((options.bitrate_kbps + 1000) as nat) + "k"@)
            &&& is_switched(args, "-video_track_timescale"@, "90000"@)
            &&& is_switched(args, "-bf"@, "0"@)
            &&& is_switched(args, "-profile:v"@, "high"@)
            &&& is_switched(args, "-f"@, "segment"@)
            &&& is_switched(args, "-segment_format"@, "mp4"@)
            &&& is_switched(args, "-reset_timestamps"@, "1"@)
            &&& is_switched(args, "-strftime"@, "0"@)
            &&& args[0] == "-y"@
            &&& !options.no_audio ==> {
                &&& is_switched(args, "-f"@, "s16le"@)
                &&& is_switched(args, "-ar"@, "48000"@)
                &&& is_switched(args, "-ac"@, "2"@)
                &&& is_switched(args, "-map"@, "0:v:0"@)
                &&& is_switched(args, "-map"@, "1:a:0"@)
                &&& is_switched(args, "-b:a"@, "192k"@)
            }
        }),
{
    let args = capture_args(options, pipe);
    let at: int = if options.no_audio {
        5
    } else {
        17
    };
    let end: int = if options.no_audio {
        at + 24
    } else {
        at + 28
    };
    assert(args[1] == "-f"@ && args[3] == "-i"@);
    assert(args[at] == "-c:v"@ && args[at + 2] == "-preset"@ && args[at + 4] == "-tune"@);
    assert(args[at + 6] == "-rc"@ && args[at + 10] == "-maxrate"@);
    assert(args[at + 16] == "-video_track_timescale"@);
    assert(args[at + 20] == "-bf"@ && args[at + 22] == "-profile:v"@);
    assert(args[end] == "-f"@ && args[end + 4] == "-segment_format"@);
    assert(args[end + 6] == "-reset_timestamps"@ && args[end + 8] == "-strftime"@);
    if !options.no_audio {
        assert(args[5] == "-f"@ && args[7] == "-ar"@ && args[9] == "-ac"@);
        assert(args[13] == "-map"@ && args[15] == "-map"@ && args[at + 26] == "-b:a"@);
    }
}

} // verus!
