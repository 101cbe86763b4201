//! Trimming a clip without encoding it again. Times are in units of 100 ns.
//!
//! Only at a keyframe can a video be cut without encoding it again, so a trimmed
//! clip starts at the nearest keyframe before the start that was asked for. It
//! is written to a temporary file, which then takes the place of the output.
use vstd::prelude::*;

use crate::mp4::{
    ends_stream, is_sorted, nearest_before, nearest_keyframe_before, nearest_keyframe_is_nearest,
    END_OF_STREAM,
};
use crate::text::remove_char;

verus! {

/// What a trim came to.
#[derive(Debug, Clone)]
pub struct TrimResult {
    pub output_path: String,
    pub requested_start: i64,
    pub actual_start: i64,
    pub requested_end: i64,
    pub actual_end: i64,
    pub duration: i128,
    /// How much earlier than asked for the clip starts.
    pub extra_before: i128,
}

/// A range that holds nothing.
#[derive(Debug, Clone, Copy, PartialEq, Eq, Structural)]
pub struct InvalidRange {
    pub actual_start: i64,
    pub actual_end: i64,
    pub duration: i128,
}

/// What a trim from `start` to `end` will come to: it starts at the keyframe
/// nearest to `start`.
pub fn plan_trim(output: &str, start: i64, end: i64, keyframes: &[i64]) -> (plan: Result<
    TrimResult,
    InvalidRange,
>)
    requires
        is_sorted(keyframes@),
    ensures
        plan is Ok <==> nearest_before(keyframes@, start) < end,
        match plan {
            Ok(plan) => {
                &&& plan.output_path@ == output@
                &&& plan.requested_start == start
                &&& plan.actual_start == nearest_before(keyframes@, start)
                &&& plan.requested_end == end
                &&& plan.actual_end == end
                &&& plan.duration == end - nearest_before(keyframes@, start)
                &&& plan.extra_before == start - nearest_before(keyframes@, start)
            },
            Err(e) => {
                &&& e.actual_start == nearest_before(keyframes@, start)
                &&& e.actual_end == end
                &&& e.duration == end - nearest_before(keyframes@, start)
            },
        },
{
    let actual_start: i64 = nearest_keyframe_before(keyframes, start);
    let duration: i128 = end as i128 - actual_start as i128;
    if duration <= 0 {
        return Err(InvalidRange { actual_start, actual_end: end, duration });
    }
    Ok(
        TrimResult {
            output_path: output.to_owned(),
            requested_start: start,
            actual_start,
            requested_end: end,
            actual_end: end,
            duration,
            extra_before: start as i128 - actual_start as i128,
        },
    )
}

/// Nothing of the range that was asked for is lost: a trimmed clip never starts
/// later than that, if it does not start before the clip does.
pub proof fn trims_never_start_late(keyframes: Seq<i64>, start: i64)
    requires
        is_sorted(keyframes),
        start >= 0,
    ensures
        nearest_before(keyframes, start) <= start,
{
    nearest_keyframe_is_nearest(keyframes, start);
    if !(exists|i: int| 0 <= i < keyframes.len() && keyframes[i] <= start) {
        assert forall|i: int| 0 <= i < keyframes.len() implies keyframes[i] > start by {}
    }
}

/// Whether a character is a hexadecimal digit in lower case.
pub open spec fn is_hex_digit(c: char) -> bool {
    '0' <= c <= '9' || 'a' <= c <= 'f'
}

/// Whether a text is a random UUID: hexadecimal digits in groups of 8, 4, 4, 4
/// and 12, with the version 4 and a variant between 8 and b.
pub open spec fn is_random_uuid(text: Seq<char>) -> bool {
    &&& text.len() == 36
    &&& forall|i: int|
        0 <= i < 36 ==> if i == 8 || i == 13 || i == 18 || i == 23 {
            #[trigger] text[i] == '-'
        } else {
            is_hex_digit(text[i])
        }
    &&& text[14] == '4'
    &&& text[19] == '8' || text[19] == '9' || text[19] == 'a' || text[19] == 'b'
}

/// A random UUID, as `uuid::Uuid::new_v4` makes it and its `Display` writes it:
/// 32 hexadecimal digits in lower case, in five groups. Which one it is, is not
/// stated. The system must be able to give random bytes.
#[verifier::external_body]
fn random_uuid() -> (text: String)
    ensures
        is_random_uuid(text@),
{
    uuid::Uuid::new_v4().to_string()
}

/// The name of the temporary file of a trim with the given UUID.
pub open spec fn temp_name(uuid: Seq<char>) -> Seq<char> {
    ".clipsta_trim_"@ + uuid.filter(|c: char| c != '-') + ".mp4"@
}

/// The name of the temporary file of a trim with the given UUID.
pub fn temp_file_name(uuid: &str) -> (name: String)
    ensures
        name@ == temp_name(uuid@),
{
    let mut name = ".clipsta_trim_".to_owned();
    name.append(remove_char(uuid, '-').as_str());
    name.append(".mp4");
    name
}

/// A new name for the temporary file of a trim.
pub fn new_temp_file_name() -> (name: String)
    ensures
        exists|uuid: Seq<char>| is_random_uuid(uuid) && name@ == #[trigger] temp_name(uuid),
{
    let uuid = random_uuid();
    temp_file_name(uuid.as_str())
}

/// The first video stream of a file, where a reader numbers the streams itself.
pub const FIRST_VIDEO_STREAM: u32 = 0xFFFF_FFFC;

/// What a read of the next sample of any stream came to.
#[derive(Debug, Clone, Copy)]
pub enum StreamRead {
    Failed,
    Read {
        stream: u32,
        flags: u32,
        timestamp: i64,
        /// Whether the read gave a sample.
        sample: bool,
    },
}

/// What is done with what was read.
#[derive(Debug, Clone, Copy, PartialEq, Eq, Structural)]
pub enum CopyStep {
    /// The copy is complete.
    Stop,
    /// The sample is left out.
    Skip,
    /// The sample is written to the video, with the given time.
    Video(i64),
    /// The sample is written to the audio, with the given time.
    Audio(i64),
}

/// Whether the copy has to begin with a seek: not where it begins with the file.
pub fn needs_seek(start: i64) -> (seek: bool)
    ensures
        seek == (start > 0),
{
    start > 0
}

/// What is done with what was read, in a copy from `start` to `end`.
pub open spec fn copy_step(read: StreamRead, start: int, end: int, has_audio: bool) -> CopyStep {
    match read {
        StreamRead::Failed => CopyStep::Stop,
        StreamRead::Read { stream, flags, timestamp, sample } => if ends_stream(flags) || timestamp
            > end {
            CopyStep::Stop
        } else if !sample || timestamp < start {
            CopyStep::Skip
        } else if stream == FIRST_VIDEO_STREAM || stream == 0 {
            CopyStep::Video((timestamp - start) as i64)
        } else if has_audio {
            CopyStep::Audio((timestamp - start) as i64)
        } else {
            CopyStep::Skip
        },
    }
}

/// Whether the time of what was read can be counted from `start`. Only a sample
/// in the range of the copy has to be.
pub open spec fn can_be_counted(read: StreamRead, start: int, end: int) -> bool {
    read matches StreamRead::Read { flags, timestamp, sample, .. } ==> {
        sample && !ends_stream(flags) && start <= timestamp <= end ==> timestamp - start
            <= i64::MAX
    }
}

/// Whether the time of what was read can be counted from `start`.
pub fn is_countable(read: StreamRead, start: i64, end: i64) -> (countable: bool)
    ensures
        countable == can_be_counted(read, start as int, end as int),
{
    match read {
        StreamRead::Failed => true,
        StreamRead::Read { flags, timestamp, sample, .. } => {
            !sample || flags & END_OF_STREAM != 0 || timestamp < start || timestamp > end
                || timestamp as i128 - start as i128 <= i64::MAX as i128
        },
    }
}

/// What is done with what was read, in a copy from `start` to `end`.
pub fn next_copy_step(read: StreamRead, start: i64, end: i64, has_audio: bool) -> (step: CopyStep)
    requires
        can_be_counted(read, start as int, end as int),
    ensures
        step == copy_step(read, start as int, end as int, has_audio),
{
    match read {
        StreamRead::Failed => CopyStep::Stop,
        StreamRead::Read { stream, flags, timestamp, sample } => {
            if flags & END_OF_STREAM != 0 || timestamp > end {
                return CopyStep::Stop;
            }
            if !sample || timestamp < start {
                return CopyStep::Skip;
            }
            let adjusted: i64 = timestamp - start;
            if stream == FIRST_VIDEO_STREAM || stream == 0 {
                CopyStep::Video(adjusted)
            } else if has_audio {
                CopyStep::Audio(adjusted)
            } else {
                CopyStep::Skip
            }
        },
    }
}

/// The time that a sample is written with.
pub open spec fn written_time(step: CopyStep) -> Option<int> {
    match step {
        CopyStep::Video(time) => Some(time as int),
        CopyStep::Audio(time) => Some(time as int),
        _ => None,
    }
}

/// What is written was read from the range of the trim, and its time counts
/// from the start of the range.
pub proof fn copied_samples_lie_in_the_range(
    read: StreamRead,
    start: int,
    end: int,
    has_audio: bool,
)
    requires
        can_be_counted(read, start, end),
    ensures
        written_time(copy_step(read, start, end, has_audio)) matches Some(time) ==> {
            &&& 0 <= time <= end - start
            &&& read matches StreamRead::Read { timestamp, .. } && time == timestamp - start
        },
{
}

/// Every sample of the video in the range is written.
pub proof fn video_in_the_range_is_copied(
    stream: u32,
    flags: u32,
    timestamp: i64,
    start: int,
    end: int,
    has_audio: bool,
)
    requires
        start <= timestamp <= end,
        timestamp - start <= i64::MAX,
        stream == 0 || stream == FIRST_VIDEO_STREAM,
        !ends_stream(flags),
    ensures
        copy_step(
            StreamRead::Read { stream, flags, timestamp, sample: true },
            start,
            end,
            has_audio,
        ) matches CopyStep::Video(time) && time == timestamp - start,
{
}

/// What is done with the temporary file of a trim.
#[derive(Debug, Clone)]
pub enum Finish {
    /// It is moved to the output, whose old file it replaces. Nothing else
    /// replaces or removes that file.
    Move,
    /// It is the output now; the trim has succeeded.
    Done,
    /// It is removed; the trim has failed.
    Remove(String),
    /// There is none; the trim has failed.
    Fail(String),
}

/// Whether `finish` follows once the copy has succeeded or failed, given the
/// size of the temporary file, where there is one.
pub open spec fn follows_copy(copied: Result<(), String>, size: Option<u64>, finish: Finish) -> bool {
    match finish {
        Finish::Move => copied is Ok && (size matches Some(n) && n > 0),
        Finish::Done => false,
        Finish::Remove(text) => match copied {
            Err(reason) => text == reason,
            Ok(_) => size == Some(0u64) && text@
                == "Media Foundation produced an empty output file"@,
        },
        Finish::Fail(text) => copied is Ok && size is None && text@ == "Temp file was not created"@,
    }
}

/// What is done with the temporary file once the copy has succeeded or failed,
/// given the size of the file, where there is one.
pub fn after_copy(copied: Result<(), String>, size: Option<u64>) -> (finish: Finish)
    ensures
        follows_copy(copied, size, finish),
{
    match copied {
        Err(reason) => Finish::Remove(reason),
        Ok(_) => match size {
            None => Finish::Fail("Temp file was not created".to_owned()),
            Some(size) => if size == 0 {
                Finish::Remove("Media Foundation produced an empty output file".to_owned())
            } else {
                Finish::Move
            },
        },
    }
}

/// Whether `finish` follows once the temporary file was moved to the output, or
/// was not.
pub open spec fn follows_move(moved: Result<(), String>, finish: Finish) -> bool {
    match moved {
        Ok(_) => finish == Finish::Done,
        Err(reason) => finish == Finish::Remove(reason),
    }
}

/// What is done with the temporary file once it was moved to the output, or was
/// not: a file that could not be moved is removed. Only the move replaces an old
/// output, so a trim that fails leaves that as it was.
pub fn after_move(moved: Result<(), String>) -> (finish: Finish)
    ensures
        follows_move(moved, finish),
{
    match moved {
        Ok(_) => Finish::Done,
        Err(reason) => Finish::Remove(reason),
    }
}

/// The files of a trim: what is at the output, and what is in the temporary
/// file.
#[verifier::ext_equal]
pub struct TrimFiles {
    pub output: Option<Seq<u8>>,
    pub temp: Option<Seq<u8>>,
}

/// The files after a step. A move that fails changes nothing.
pub open spec fn files_after(files: TrimFiles, finish: Finish, moved: Result<(), String>) -> TrimFiles {
    match finish {
        Finish::Move => if moved is Ok {
            TrimFiles { output: files.temp, temp: None }
        } else {
            files
        },
        Finish::Remove(_) => TrimFiles { temp: None, ..files },
        Finish::Done => files,
        Finish::Fail(_) => files,
    }
}

/// A trim replaces the output as a whole or not at all: on success the output
/// is all that was copied, and it is not empty; on failure it is what it was
/// before. Either way no temporary file is left.
pub proof fn trims_replace_the_output_as_a_whole(
    files: TrimFiles,
    copied: Result<(), String>,
    size: Option<u64>,
    finish: Finish,
    moved: Result<(), String>,
    end: Finish,
)
    requires
        match files.temp {
            Some(content) => size matches Some(n) && n == content.len(),
            None => size is None,
        },
        follows_copy(copied, size, finish),
        if finish is Move {
            follows_move(moved, end)
        } else {
            end == finish
        },
    ensures
        ({
            let left = if finish is Move {
                files_after(files_after(files, finish, moved), end, moved)
            } else {
                files_after(files, finish, moved)
            };
            &&& left.temp is None
            &&& end !is Move
            &&& if end is Done {
                &&& copied is Ok
                &&& left.output == files.temp
                &&& left.output matches Some(content) && content.len() > 0
            } else {
                left.output == files.output
            }
        }),
{
}

/// Every sample of the audio in the range is written where the output has audio,
/// and none where it has not.
pub proof fn audio_in_the_range_is_copied(
    stream: u32,
    flags: u32,
    timestamp: i64,
    start: int,
    end: int,
)
    requires
        start <= timestamp <= end,
        timestamp - start <= i64::MAX,
        stream != 0 && stream != 0xFFFF_FFFC,
        flags & 2 == 0,
    ensures
        copy_step(
            StreamRead::Read { stream, flags, timestamp, sample: true },
            start,
            end,
            true,
        ) matches CopyStep::Audio(time) && time == timestamp - start,
        copy_step(
            StreamRead::Read { stream, flags, timestamp, sample: true },
            start,
            end,
            false,
        ) is Skip,
{
}

/// A copy goes on until a read fails, comes to the end of the file, or gives
/// something later than the range: not longer, and not less long. Until that, what
/// is no sample or lies before the range is left out, and a sample of the video is
/// written whether or not there is audio.
pub proof fn copies_go_on_to_the_end_of_the_range(
    stream: u32,
    flags: u32,
    timestamp: i64,
    sample: bool,
    start: int,
    end: int,
    has_audio: bool,
)
    requires
        timestamp - start <= i64::MAX,
    ensures
        copy_step(StreamRead::Failed, start, end, has_audio) is Stop,
        ({
            let step = copy_step(
                StreamRead::Read { stream, flags, timestamp, sample },
                start,
                end,
                has_audio,
            );
            &&& step is Stop <==> flags & 2 != 0 || timestamp > end
            &&& step !is Stop && (!sample || timestamp < start) ==> step is Skip
            &&& step !is Stop && sample && timestamp >= start && (stream == 0 || stream
                == 0xFFFF_FFFC) ==> (step matches CopyStep::Video(time) && time == timestamp
                - start)
        }),
{
}

proof fn lemma_without_dashes(uuid: Seq<char>)
    requires
        is_random_uuid(uuid),
    ensures
        uuid.filter(|c: char| c != '-') == uuid.subrange(0, 8) + uuid.subrange(9, 13)
            + uuid.subrange(14, 18) + uuid.subrange(19, 23) + uuid.subrange(24, 36),
{
    let keep = |c: char| c != '-';
    let dash = seq!['-'];
    let groups = seq![
        uuid.subrange(0, 8),
        uuid.subrange(9, 13),
        uuid.subrange(14, 18),
        uuid.subrange(19, 23),
        uuid.subrange(24, 36),
    ];
    let (a, b, c, d, e) = (groups[0], groups[1], groups[2], groups[3], groups[4]);
    assert(uuid =~= a + dash + b + dash + c + dash + d + dash + e);
    lemma_all_kept(a, keep);
    lemma_all_kept(b, keep);
    lemma_all_kept(c, keep);
    lemma_all_kept(d, keep);
    lemma_all_kept(e, keep);
    assert(dash.filter(keep) =~= Seq::empty()) by {
        dash.lemma_all_neg_filter_empty(keep);
    }
    Seq::filter_distributes_over_add(a + dash + b + dash + c + dash + d + dash, e, keep);
    Seq::filter_distributes_over_add(a + dash + b + dash + c + dash + d, dash, keep);
    Seq::filter_distributes_over_add(a + dash + b + dash + c + dash, d, keep);
    Seq::filter_distributes_over_add(a + dash + b + dash + c, dash, keep);
    Seq::filter_distributes_over_add(a + dash + b + dash, c, keep);
    Seq::filter_distributes_over_add(a + dash + b, dash, keep);
    Seq::filter_distributes_over_add(a + dash, b, keep);
    Seq::filter_distributes_over_add(a, dash, keep);
    assert(uuid.filter(keep) =~= a + b + c + d + e);
}

proof fn lemma_all_kept(text: Seq<char>, keep: spec_fn(char) -> bool)
    requires
        forall|i: int| 0 <= i < text.len() ==> keep(#[trigger] text[i]),
    ensures
        text.filter(keep) == text,
    decreases text.len(),
{
    reveal(Seq::filter);
    if text.len() > 0 {
        let front = text.drop_last();
        assert forall|i: int| 0 <= i < front.len() implies keep(#[trigger] front[i]) by {
            assert(front[i] == text[i]);
        }
        lemma_all_kept(front, keep);
        assert(keep(text[text.len() - 1]));
        assert(text =~= front.push(text.last()));
    }
}

/// Trims at the same time do not get in each other's way: different UUIDs make
/// different names, which are hidden, and those of MP4 files.
pub proof fn temporary_files_are_told_apart(a: Seq<char>, b: Seq<char>)
    requires
        is_random_uuid(a),
        is_random_uuid(b),
    ensures
        temp_name(a) == temp_name(b) ==> a == b,
        temp_name(a).len() == 50,
        temp_name(a)[0] == '.',
        temp_name(a).skip(46) == seq!['.', 'm', 'p', '4'],
{
    reveal_strlit(".clipsta_trim_");
    reveal_strlit(".mp4");
    lemma_without_dashes(a);
    lemma_without_dashes(b);
    let x = a.filter(|c: char| c != '-');
    let y = b.filter(|c: char| c != '-');
    assert(temp_name(a).skip(46) =~= seq!['.', 'm', 'p', '4']);
    if temp_name(a) == temp_name(b) {
        assert(x =~= y) by {
            assert(temp_name(a).subrange(14, 46) =~= x);
            assert(temp_name(b).subrange(14, 46) =~= y);
        }
        assert forall|i: int| 0 <= i < 36 implies a[i] == b[i] by {
            let k = if i < 8 {
                i
            } else if i < 13 {
                i - 1
            } else if i < 18 {
                i - 2
            } else if i < 23 {
                i - 3
            } else {
                i - 4
            };
            if i != 8 && i != 13 && i != 18 && i != 23 {
                assert(x[k] == a[i]);
                assert(y[k] == b[i]);
            } else {
                assert(a[i] == '-' && b[i] == '-');
            }
        }
        assert(a =~= b);
    }
}

/// A copy that has succeeded, and has left a file that is not empty, is moved to the
/// output, and only such a copy is. One that has failed is removed and tells why; one
/// that has left nothing, or an empty file, has failed too.
pub proof fn successful_copies_become_the_output(
    copied: Result<(), String>,
    size: Option<u64>,
    finish: Finish,
    moved: Result<(), String>,
    end: Finish,
)
    requires
        follows_copy(copied, size, finish),
        follows_move(moved, end),
    ensures
        finish is Move <==> copied is Ok && (size matches Some(n) && n > 0),
        copied matches Err(reason) ==> finish == Finish::Remove(reason),
        copied is Ok && size is None ==> finish is Fail,
        copied is Ok && size == Some(0u64) ==> finish is Remove,
        moved is Ok ==> end is Done,
        moved matches Err(reason) ==> end == Finish::Remove(reason),
{
}

} // verus!
