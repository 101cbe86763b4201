//! The clip library: which files are clips, in what order they are listed, and
//! where new ones go.
use vstd::prelude::*;

use crate::number::{
    decimal, decimal_reads_back, decimals_are_digits, is_digit, is_two_digits_in, padded,
    padded_numbers_read_back, parsed, push_decimal, NumberError,
};
use crate::path::{
    file_extension, file_name, file_stem, is_around_number, is_separator, join_path, joined,
    numbers_keep_paths_apart, split_at, split_file_name,
};
use crate::text::{chars_of, same_text};

verus! {

/// A clip in the library.
#[derive(Debug, Clone)]
pub struct ClipFile {
    pub name: String,
    pub path: String,
    pub size: u64,
    /// The time as text. Clips are listed in the order of these texts, which is
    /// that of time as long as the texts have the same offset from UTC.
    pub created_at: String,
}

/// The first second that a time can be written of, from 1970 on in UTC: that at
/// the beginning of the year -262143.
pub const FIRST_SECOND: i64 = -8_334_601_228_800;

/// The last second that a time can be written of: that at the end of the year
/// 262142.
pub const LAST_SECOND: i64 = 8_210_266_876_799;

/// A time as text, as `chrono::DateTime::to_rfc3339` writes it: the time is so
/// many seconds and nanoseconds after the beginning of 1970 in UTC, on a clock
/// that is `offset` seconds ahead of UTC.
pub uninterp spec fn rfc3339(secs: int, nanos: int, offset: int) -> Seq<char>;

/// The fraction of a second in a time as text: none, or as many of 3, 6 or 9
/// digits as it takes.
pub open spec fn fraction(nanos: nat) -> Seq<char> {
    if nanos == 0 {
        Seq::empty()
    } else if nanos % 1_000_000 == 0 {
        seq!['.'] + padded(nanos / 1_000_000, 3)
    } else if nanos % 1000 == 0 {
        seq!['.'] + padded(nanos / 1000, 6)
    } else {
        seq!['.'] + padded(nanos, 9)
    }
}

/// Whether a text is a time in the form `YYYY-MM-DDTHH:MM:SS`, with the given
/// fraction, and an offset in the form `+HH:MM` or `-HH:MM`, with each number in
/// its range; second 60 is a leap second. A year outside of four digits has a sign
/// and may have more digits.
pub open spec fn is_time_text(text: Seq<char>, fraction: Seq<char>) -> bool {
    let year = text.len() - 21 - fraction.len();
    let zone = text.len() - 6;
    &&& year >= 4
    &&& forall|i: int| 1 <= i < year ==> is_digit(#[trigger] text[i])
    &&& is_digit(text[0]) || (year >= 5 && (text[0] == '+' || text[0] == '-'))
    &&& text[year] == '-' && is_two_digits_in(text, year + 1, 1, 12)
    &&& text[year + 3] == '-' && is_two_digits_in(text, year + 4, 1, 31)
    &&& text[year + 6] == 'T' && is_two_digits_in(text, year + 7, 0, 23)
    &&& text[year + 9] == ':' && is_two_digits_in(text, year + 10, 0, 59)
    &&& text[year + 12] == ':' && is_two_digits_in(text, year + 13, 0, 60)
    &&& text.subrange(year + 15, zone) == fraction
    &&& text[zone] == '+' || text[zone] == '-'
    &&& is_two_digits_in(text, zone + 1, 0, 24) && text[zone + 3] == ':'
    &&& is_two_digits_in(text, zone + 4, 0, 59)
}

/// A time as text on the clock of the machine, and by how many seconds this clock
/// is ahead of UTC. `chrono::DateTime::from_timestamp` takes the seconds and
/// nanoseconds, `with_timezone` finds the offset of `chrono::Local` at that time,
/// which is less than a day, and `to_rfc3339` writes the time with that offset.
/// Which offset it is depends on the machine and is not stated. The time zone of
/// the machine must be one that the system can tell the offset of.
#[verifier::external_body]
fn local_rfc3339(secs: i64, nanos: u32) -> (written: (String, i32))
    requires
        FIRST_SECOND <= secs <= LAST_SECOND,
        nanos < 1_000_000_000,
    ensures
        written.0@ == rfc3339(secs as int, nanos as int, written.1 as int),
        -86400 < written.1 < 86400,
        is_time_text(written.0@, fraction(nanos as nat)),
{
    let utc = chrono::DateTime::from_timestamp(secs, nanos).unwrap();
    let local = utc.with_timezone(&chrono::Local);
    (local.to_rfc3339(), local.offset().local_minus_utc())
}

/// The time of a file as text on the clock of the machine. It is so many seconds
/// and nanoseconds after the beginning of 1970 in UTC.
pub fn file_time(secs: i64, nanos: u32) -> (text: String)
    requires
        FIRST_SECOND <= secs <= LAST_SECOND,
        nanos < 1_000_000_000,
    ensures
        exists|offset: int|
            -86400 < offset < 86400 && text@ == #[trigger] rfc3339(
                secs as int,
                nanos as int,
                offset,
            ),
        is_time_text(text@, fraction(nanos as nat)),
{
    let (text, _) = local_rfc3339(secs, nanos);
    text
}

/// The sign of the unit Kelvin, whose lower case is the letter k.
pub const KELVIN_SIGN: char = '\u{212A}';

/// The lower case of a character, as far as it is a Latin letter.
pub open spec fn lower_char(c: char) -> char {
    if 'A' <= c <= 'Z' {
        (c as u32 + 32) as char
    } else if c == KELVIN_SIGN {
        'k'
    } else {
        c
    }
}

/// A text in lower case, as far as it consists of Latin letters.
pub open spec fn lower(text: Seq<char>) -> Seq<char> {
    text.map_values(|c: char| lower_char(c))
}

/// Whether a file with this extension is a video.
pub open spec fn is_video(extension: Seq<char>) -> bool {
    let ext = lower(extension);
    ext == "mp4"@ || ext == "webm"@ || ext == "mkv"@ || ext == "mov"@
}

/// A text in lower case, as far as it consists of Latin letters.
fn to_lower(text: &str) -> (lowered: String)
    ensures
        lowered@ == lower(text@),
{
    let chars = chars_of(text);
    let mut lowered = String::new();
    let mut i: usize = 0;
    while i < chars.len()
        invariant
            chars@ == text@,
            i <= chars@.len(),
            lowered@ == lower(text@).take(i as int),
        decreases chars@.len() - i,
    {
        let c: char = chars[i];
        lowered.push(
            if 'A' <= c && c <= 'Z' {
                (c as u8 + 32) as char
            } else if c == KELVIN_SIGN {
                'k'
            } else {
                c
            },
        );
        i += 1;
        assert(lower(text@).take(i as int) =~= lower(text@).take(i - 1).push(lower_char(c)));
    }
    assert(lower(text@).take(text@.len() as int) =~= lower(text@));
    lowered
}

/// Whether a file with this extension is a video.
pub fn is_video_extension(extension: &str) -> (video: bool)
    ensures
        video == is_video(extension@),
{
    let ext = to_lower(extension);
    same_text(ext.as_str(), "mp4") || same_text(ext.as_str(), "webm") || same_text(
        ext.as_str(),
        "mkv",
    ) || same_text(ext.as_str(), "mov")
}

/// Whether a file belongs into the library: a video that is not empty.
pub fn is_clip(extension: &str, size: u64) -> (clip: bool)
    ensures
        clip == (is_video(extension@) && size > 0),
{
    size > 0 && is_video_extension(extension)
}

/// Whether one text comes before another, by the first characters in which they
/// differ.
pub open spec fn precedes(a: Seq<char>, b: Seq<char>) -> bool
    decreases a.len(),
{
    if b.len() == 0 {
        false
    } else if a.len() == 0 {
        true
    } else if a.first() == b.first() {
        precedes(a.drop_first(), b.drop_first())
    } else {
        a.first() < b.first()
    }
}

proof fn lemma_precedes_is_an_order(a: Seq<char>, b: Seq<char>, c: Seq<char>)
    ensures
        !precedes(a, a),
        precedes(a, b) && precedes(b, c) ==> precedes(a, c),
        a == b || precedes(a, b) || precedes(b, a),
        precedes(a, b) ==> !precedes(b, a),
    decreases a.len(),
{
    if a.len() > 0 {
        let b2 = if b.len() > 0 {
            b.drop_first()
        } else {
            b
        };
        let c2 = if c.len() > 0 {
            c.drop_first()
        } else {
            c
        };
        lemma_precedes_is_an_order(a.drop_first(), b2, c2);
        if b.len() > 0 && a.first() == b.first() && a.drop_first() == b.drop_first() {
            assert(a =~= seq![a.first()] + a.drop_first());
            assert(b =~= seq![b.first()] + b.drop_first());
            assert(a == b);
        }
    } else if b.len() == 0 {
        assert(a =~= b);
    }
}

/// Whether one text comes before another.
fn comes_before(a: &str, b: &str) -> (before: bool)
    ensures
        before == precedes(a@, b@),
{
    let left = chars_of(a);
    let right = chars_of(b);
    let mut i: usize = 0;
    assert(a@.skip(0) =~= a@);
    assert(b@.skip(0) =~= b@);
    while i < left.len() && i < right.len()
        invariant
            left@ == a@,
            right@ == b@,
            i <= left@.len(),
            i <= right@.len(),
            precedes(a@, b@) == precedes(a@.skip(i as int), b@.skip(i as int)),
        decreases left@.len() - i,
    {
        assert(a@.skip(i as int).first() == left@[i as int]);
        assert(b@.skip(i as int).first() == right@[i as int]);
        if left[i] != right[i] {
            return left[i] < right[i];
        }
        assert(a@.skip(i as int).drop_first() =~= a@.skip(i + 1));
        assert(b@.skip(i as int).drop_first() =~= b@.skip(i + 1));
        i += 1;
    }
    i < right.len()
}

/// Whether a clip was created at the time `time`.
pub open spec fn is_of(time: Seq<char>) -> spec_fn(ClipFile) -> bool {
    |c: ClipFile| c.created_at@ == time
}

/// The clips that were created at the time `time`, in their order.
pub open spec fn created_at(clips: Seq<ClipFile>, time: Seq<char>) -> Seq<ClipFile> {
    clips.filter(is_of(time))
}

/// No clip is listed before one that was created later.
pub open spec fn newest_first(clips: Seq<ClipFile>) -> bool {
    forall|i: int, j: int|
        0 <= i < j < clips.len() ==> !precedes(
            (#[trigger] clips[i]).created_at@,
            (#[trigger] clips[j]).created_at@,
        )
}

/// The clips in the order in which they are listed: newest first, and clips of
/// the same time as they came.
pub fn sort_clips(clips: Vec<ClipFile>) -> (sorted: Vec<ClipFile>)
    ensures
        newest_first(sorted@),
        forall|time: Seq<char>| #[trigger]
            created_at(sorted@, time) == created_at(clips@, time),
        sorted@.len() == clips@.len(),
{
    let ghost all = clips@;
    let mut rest = clips;
    let mut sorted: Vec<ClipFile> = Vec::new();
    // The clips are taken from the end, so each goes before its equals.
    while rest.len() > 0
        invariant
            rest@.len() <= all.len(),
            rest@ == all.take(rest@.len() as int),
            newest_first(sorted@),
            sorted@.len() == all.len() - rest@.len(),
            forall|time: Seq<char>| #[trigger]
                created_at(sorted@, time) == created_at(all.skip(rest@.len() as int), time),
        decreases rest@.len(),
    {
        let ghost n = rest@.len() as int;
        let clip = rest.pop().unwrap();
        let ghost before = sorted@;
        let mut at: usize = 0;
        while at < sorted.len() && comes_before(
            clip.created_at.as_str(),
            sorted[at].created_at.as_str(),
        )
            invariant
                sorted@ == before,
                at <= sorted@.len(),
                forall|i: int|
                    0 <= i < at ==> precedes(
                        clip.created_at@,
                        (#[trigger] before[i]).created_at@,
                    ),
            decreases sorted@.len() - at,
        {
            at += 1;
        }
        sorted.insert(at, clip);
        proof {
            assert forall|i: int, j: int| 0 <= i < j < sorted@.len() implies !precedes(
                (#[trigger] sorted@[i]).created_at@,
                (#[trigger] sorted@[j]).created_at@,
            ) by {
                lemma_insert_sorted(before, clip, at as int, i, j);
            }
            assert forall|time: Seq<char>| #[trigger]
                created_at(sorted@, time) == created_at(all.skip(n - 1), time) by {
                lemma_insert_front(before, clip, at as int, time);
                let same = is_of(time);
                let one = seq![clip];
                assert(all.skip(n - 1) =~= one + all.skip(n));
                Seq::filter_distributes_over_add(one, all.skip(n), same);
                Seq::filter_distributes_over_add(one, before, same);
                assert(created_at(before, time) == created_at(all.skip(n), time));
            }
        }
    }
    assert(all.skip(0) =~= all);
    sorted
}

proof fn lemma_insert_sorted(before: Seq<ClipFile>, clip: ClipFile, at: int, i: int, j: int)
    requires
        newest_first(before),
        0 <= at <= before.len(),
        forall|k: int|
            0 <= k < at ==> precedes(clip.created_at@, (#[trigger] before[k]).created_at@),
        at < before.len() ==> !precedes(clip.created_at@, before[at].created_at@),
        0 <= i < j <= before.len(),
    ensures
        !precedes(before.insert(at, clip)[i].created_at@, before.insert(at, clip)[j].created_at@),
{
    let after = before.insert(at, clip);
    if j == at {
        lemma_precedes_is_an_order(clip.created_at@, before[i].created_at@, clip.created_at@);
    } else if i == at {
        let later = before[j - 1].created_at@;
        lemma_precedes_is_an_order(before[at].created_at@, clip.created_at@, later);
        lemma_precedes_is_an_order(before[at].created_at@, later, later);
        lemma_precedes_is_an_order(clip.created_at@, before[at].created_at@, later);
    } else if i < at && j > at {
        assert(after[i] == before[i] && after[j] == before[j - 1]);
    }
}

proof fn lemma_insert_front(clips: Seq<ClipFile>, clip: ClipFile, at: int, time: Seq<char>)
    requires
        0 <= at <= clips.len(),
        forall|i: int|
            0 <= i < at ==> precedes(clip.created_at@, (#[trigger] clips[i]).created_at@),
    ensures
        created_at(clips.insert(at, clip), time) == created_at(seq![clip] + clips, time),
{
    let same = is_of(time);
    let front = clips.take(at);
    let back = clips.skip(at);
    let one = seq![clip];
    assert(clips.insert(at, clip) =~= front + one + back);
    assert(one + clips =~= one + front + back);
    Seq::filter_distributes_over_add(front + one, back, same);
    Seq::filter_distributes_over_add(front, one, same);
    Seq::filter_distributes_over_add(one + front, back, same);
    Seq::filter_distributes_over_add(one, front, same);
    assert forall|i: int| 0 <= i < front.len() implies (#[trigger] front[i]).created_at@
        != clip.created_at@ by {
        lemma_precedes_is_an_order(clip.created_at@, clip.created_at@, clip.created_at@);
        assert(clips[i] == front[i]);
    }
    if clip.created_at@ == time {
        front.lemma_all_neg_filter_empty(same);
        assert(front.filter(same) + one.filter(same) =~= one.filter(same) + front.filter(same));
    } else {
        one.lemma_all_neg_filter_empty(same);
        assert(front.filter(same) + one.filter(same) =~= one.filter(same) + front.filter(same));
    }
}

/// A file below the folder for clips, and its extension.
#[derive(Debug, Clone)]
pub struct FoundFile {
    pub extension: String,
    pub file: ClipFile,
}

/// The files that are clips, in their order.
pub open spec fn library(found: Seq<FoundFile>) -> Seq<ClipFile>
    decreases found.len(),
{
    if found.len() == 0 {
        Seq::empty()
    } else {
        let front = library(found.drop_last());
        let last = found.last();
        if is_video(last.extension@) && last.file.size > 0 {
            front.push(last.file)
        } else {
            front
        }
    }
}

/// Every file that is a clip is in the library.
pub proof fn every_clip_is_listed(found: Seq<FoundFile>, i: int)
    requires
        0 <= i < found.len(),
        is_video(found[i].extension@),
        found[i].file.size > 0,
    ensures
        library(found).contains(found[i].file),
    decreases found.len(),
{
    let front = library(found.drop_last());
    if i < found.len() - 1 {
        assert(found.drop_last()[i] == found[i]);
        every_clip_is_listed(found.drop_last(), i);
        let k = front.index_of(found[i].file);
        assert(library(found)[k] == found[i].file);
    } else {
        assert(library(found)[front.len() as int] == found[i].file);
    }
}

/// The clips among the files that were found, newest first, and clips of the
/// same time as they were found.
pub fn clips_list(found: Vec<FoundFile>) -> (clips: Vec<ClipFile>)
    ensures
        newest_first(clips@),
        forall|time: Seq<char>| #[trigger]
            created_at(clips@, time) == created_at(library(found@), time),
        clips@.len() == library(found@).len(),
{
    let ghost all = found@;
    let mut clips: Vec<ClipFile> = Vec::new();
    for entry in it: found
        invariant
            it.seq() == all,
            clips@ == library(all.take(it.index() as int)),
    {
        assert(all.take(it.index() + 1).drop_last() =~= all.take(it.index() as int));
        if is_clip(entry.extension.as_str(), entry.file.size) {
            clips.push(entry.file);
        }
    }
    assert(all.take(all.len() as int) =~= all);
    sort_clips(clips)
}

/// The name of the file at the path `name`, with a number before its extension.
pub open spec fn numbered(name: Seq<char>, n: int) -> Seq<char> {
    let ext = file_extension(name);
    file_stem(name) + " ("@ + decimal(n as nat) + ")"@ + if ext.len() == 0 {
        Seq::empty()
    } else {
        seq!['.'] + ext
    }
}

/// The path that is tried in the `n`th place: the name itself, then the name of
/// its file with a number before its extension.
pub open spec fn candidate(folder: Seq<char>, name: Seq<char>, n: int) -> Seq<char> {
    if n == 0 {
        joined(folder, name)
    } else {
        joined(folder, numbered(name, n))
    }
}

/// Whether a path that reads `text` was looked up with the given answer.
pub open spec fn answered<F: Fn(&String) -> bool>(taken: F, text: Seq<char>, answer: bool) -> bool {
    exists|path: String| #[trigger] call_ensures(taken, (&path,), answer) && path@ == text
}

/// The largest number that is tried.
pub const MAX_NUMBER: u32 = 0x7FFF_FFFF;

/// A path for a file called `name` at which there is nothing yet, as `taken`
/// tells: the name itself, or the name with the first number that is free.
/// `None` where all numbers are taken.
pub fn unique_path<F: Fn(&String) -> bool>(folder: &str, name: &str, taken: F) -> (path: Option<
    String,
>)
    requires
        forall|path: &String| call_requires(taken, (path,)),
    ensures
        match path {
            Some(path) => exists|n: int|
                {
                    &&& 0 <= n <= MAX_NUMBER
                    &&& path@ == #[trigger] candidate(folder@, name@, n)
                    &&& call_ensures(taken, (&path,), false)
                    &&& forall|m: int|
                        0 <= m < n ==> answered(
                            taken,
                            #[trigger] candidate(folder@, name@, m),
                            true,
                        )
                },
            None => forall|m: int|
                0 <= m <= MAX_NUMBER ==> answered(
                    taken,
                    #[trigger] candidate(folder@, name@, m),
                    true,
                ),
        },
{
    let plain = join_path(folder, name);
    assert(plain@ == candidate(folder@, name@, 0));
    if !taken(&plain) {
        return Some(plain);
    }
    assert(answered(taken, candidate(folder@, name@, 0), true));
    let (stem, ext) = split_file_name(name);
    let mut n: u32 = 1;
    while n <= MAX_NUMBER
        invariant
            stem@ == file_stem(name@),
            ext@ == file_extension(name@),
            1 <= n <= MAX_NUMBER + 1,
            forall|path: &String| call_requires(taken, (path,)),
            forall|m: int|
                0 <= m < n ==> answered(taken, #[trigger] candidate(folder@, name@, m), true),
        decreases MAX_NUMBER + 1 - n,
    {
        let mut file = stem.as_str().to_owned();
        file.append(" (");
        push_decimal(&mut file, n as u64);
        file.append(")");
        if !ext.as_str().is_empty() {
            file.push('.');
            file.append(ext.as_str());
        }
        assert(file@ =~= numbered(name@, n as int));
        let path = join_path(folder, file.as_str());
        assert(path@ == candidate(folder@, name@, n as int));
        if !taken(&path) {
            return Some(path);
        }
        assert(answered(taken, candidate(folder@, name@, n as int), true));
        n += 1;
    }
    None
}

proof fn lemma_split_at(name: Seq<char>, n: nat)
    requires
        n <= name.len(),
    ensures
        split_at(name, n) matches Some(dot) ==> 0 < dot < n && forall|i: int|
            dot < i < n ==> #[trigger] name[i] != '.',
    decreases n,
{
    if n > 1 && name[n - 1] != '.' {
        lemma_split_at(name, (n - 1) as nat);
    }
}

/// Paths that are tried for one name differ: a number is never tried twice.
pub proof fn candidates_differ(folder: Seq<char>, name: Seq<char>, m: int, n: int)
    requires
        0 < m < n,
    ensures
        candidate(folder, name, m) != candidate(folder, name, n),
{
    reveal_strlit(" (");
    reveal_strlit(")");
    let file = file_name(name);
    lemma_split_at(file, file.len());
    let front = file_stem(name) + " ("@;
    let ext = file_extension(name);
    let back = ")"@ + if ext.len() == 0 {
        Seq::empty()
    } else {
        seq!['.'] + ext
    };
    let a = decimal(m as nat);
    let b = decimal(n as nat);
    assert(numbered(name, m) =~= front + a + back);
    assert(numbered(name, n) =~= front + b + back);
    assert(is_around_number(front, back)) by {
        assert forall|i: int| 2 <= i < back.len() implies #[trigger] back[i] != '.' by {
            assert(back[i] == ext[i - 2]);
        }
    }
    assert forall|i: int| 0 <= i < a.len() implies !is_separator(#[trigger] a[i]) by {
        decimals_are_digits(m as nat, i);
    }
    assert forall|i: int| 0 <= i < b.len() implies !is_separator(#[trigger] b[i]) by {
        decimals_are_digits(n as nat, i);
    }
    if candidate(folder, name, m) == candidate(folder, name, n) {
        numbers_keep_paths_apart(folder, front, a, b, back);
        decimal_reads_back(m as nat, n);
        decimal_reads_back(n as nat, n);
    }
}

/// The folder that clips are saved in.
pub struct OutputFolder {
    pub folder: String,
    /// Whether the folder was chosen just now and has to be remembered.
    pub is_new: bool,
}

/// The folder that clips are saved in: the one in the settings, or else
/// `Clipsta` in the folder for videos, in the home folder or here, whichever
/// there is first.
pub fn choose_output_folder(
    setting: &str,
    video_dir: Option<&str>,
    home_dir: Option<&str>,
) -> (output: OutputFolder)
    ensures
        output.is_new == (setting@.len() == 0),
        output.folder@ == if setting@.len() > 0 {
            setting@
        } else {
            joined(first_dir(video_dir, home_dir), "Clipsta"@)
        },
{
    if setting.is_empty() {
        let dir = existing_dir(video_dir, home_dir);
        OutputFolder { folder: join_path(dir.as_str(), "Clipsta"), is_new: true }
    } else {
        OutputFolder { folder: setting.to_owned(), is_new: false }
    }
}

/// The first of two folders that there is, or else the current one.
pub open spec fn first_dir(first: Option<&str>, second: Option<&str>) -> Seq<char> {
    match first {
        Some(dir) => dir@,
        None => match second {
            Some(dir) => dir@,
            None => "."@,
        },
    }
}

/// The first of two folders that there is, or else the current one.
pub fn existing_dir(first: Option<&str>, second: Option<&str>) -> (dir: String)
    ensures
        dir@ == first_dir(first, second),
{
    match first {
        Some(dir) => dir.to_owned(),
        None => match second {
            Some(dir) => dir.to_owned(),
            None => ".".to_owned(),
        },
    }
}

proof fn lemma_precedes_from(a: Seq<char>, b: Seq<char>, k: int)
    requires
        0 <= k <= a.len(),
        k <= b.len(),
        a.take(k) == b.take(k),
    ensures
        precedes(a, b) == precedes(a.skip(k), b.skip(k)),
    decreases k,
{
    if k == 0 {
        assert(a.skip(0) =~= a);
        assert(b.skip(0) =~= b);
    } else {
        assert(a.take(k)[0] == a.first());
        assert(b.take(k)[0] == b.first());
        let rest_a = a.drop_first();
        let rest_b = b.drop_first();
        assert(rest_a.take(k - 1) =~= a.take(k).drop_first());
        assert(rest_b.take(k - 1) =~= b.take(k).drop_first());
        lemma_precedes_from(rest_a, rest_b, k - 1);
        assert(rest_a.skip(k - 1) =~= a.skip(k));
        assert(rest_b.skip(k - 1) =~= b.skip(k));
    }
}

/// The first character in which two texts differ decides which comes first; where
/// one is the beginning of the other, the shorter one does. No text comes before
/// itself.
pub proof fn the_first_difference_decides(a: Seq<char>, b: Seq<char>, k: int)
    requires
        0 <= k <= a.len(),
        k <= b.len(),
        forall|i: int| 0 <= i < k ==> a[i] == b[i],
    ensures
        k < a.len() && k < b.len() && a[k] != b[k] ==> (precedes(a, b) <==> a[k] < b[k]),
        k == a.len() ==> (precedes(a, b) <==> a.len() < b.len()),
        k == b.len() ==> !precedes(a, b),
{
    assert(a.take(k) =~= b.take(k));
    lemma_precedes_from(a, b, k);
    if k < a.len() {
        assert(a.skip(k).first() == a[k]);
    }
    if k < b.len() {
        assert(b.skip(k).first() == b[k]);
    }
}

/// Of two clips, the one whose time is later is listed first: where the texts of
/// their times agree up to some character, the larger character comes first. So
/// years weigh more than months, and these more than days, hours, minutes and
/// seconds.
pub proof fn later_clips_are_listed_first(clips: Seq<ClipFile>, i: int, j: int, k: int)
    requires
        newest_first(clips),
        0 <= i < j < clips.len(),
        0 <= k < clips[i].created_at@.len(),
        k < clips[j].created_at@.len(),
        forall|m: int| 0 <= m < k ==> clips[i].created_at@[m] == clips[j].created_at@[m],
    ensures
        clips[i].created_at@[k] >= clips[j].created_at@[k],
{
    the_first_difference_decides(clips[i].created_at@, clips[j].created_at@, k);
}

/// Whether a file is a video does not depend on the case of the letters in its
/// extension, and the sign of the unit Kelvin counts as the letter. In small letters,
/// the extension is one of four.
pub proof fn videos_are_told_by_their_extension(extension: Seq<char>, i: int)
    ensures
        0 <= i < extension.len() && 'A' <= extension[i] <= 'Z' ==> is_video(extension) == is_video(
            extension.update(i, (extension[i] as u32 + 32) as char),
        ),
        (forall|k: int|
            0 <= k < extension.len() ==> (#[trigger] extension[k] < 'A' || extension[k] > 'Z')
                && extension[k] as u32 != 0x212A) ==> (is_video(extension) <==> extension == "mp4"@
            || extension == "webm"@ || extension == "mkv"@ || extension == "mov"@),
        is_video(extension) ==> extension.len() == 3 || extension.len() == 4,
        0 <= i < extension.len() && extension[i] as u32 == 0x212A ==> is_video(extension)
            == is_video(extension.update(i, 'k')),
{
    if 0 <= i < extension.len() && extension[i] as u32 == 0x212A {
        assert(lower(extension.update(i, 'k')) =~= lower(extension));
    }
    if 0 <= i < extension.len() && 'A' <= extension[i] <= 'Z' {
        let small = extension.update(i, (extension[i] as u32 + 32) as char);
        assert(lower(small) =~= lower(extension));
    }
    if forall|k: int|
        0 <= k < extension.len() ==> (#[trigger] extension[k] < 'A' || extension[k] > 'Z')
            && extension[k] as u32 != 0x212A {
        assert(lower(extension) =~= extension);
    }
    reveal_strlit("mp4");
    reveal_strlit("webm");
    reveal_strlit("mkv");
    reveal_strlit("mov");
    assert(lower(extension).len() == extension.len());
}

/// Nothing but videos that are not empty is in the library, and what is in it is as
/// it was found.
pub proof fn only_clips_are_listed(found: Seq<FoundFile>, i: int)
    requires
        0 <= i < library(found).len(),
    ensures
        exists|j: int|
            {
                &&& 0 <= j < found.len()
                &&& library(found)[i] == (#[trigger] found[j]).file
                &&& is_video(found[j].extension@)
                &&& found[j].file.size > 0
            },
    decreases found.len(),
{
    let front = library(found.drop_last());
    if i < front.len() {
        only_clips_are_listed(found.drop_last(), i);
        let j = choose|j: int|
            {
                &&& 0 <= j < found.drop_last().len()
                &&& front[i] == (#[trigger] found.drop_last()[j]).file
                &&& is_video(found.drop_last()[j].extension@)
                &&& found.drop_last()[j].file.size > 0
            };
        assert(found.drop_last()[j] == found[j]);
        assert(library(found)[i] == found[j].file);
    } else {
        assert(found[found.len() - 1] == found.last());
    }
}

/// The library of two lists of files is that of the first and then that of the
/// second: files stay in the order in which they were found, each as often.
pub proof fn libraries_keep_the_order_of_files(a: Seq<FoundFile>, b: Seq<FoundFile>)
    ensures
        library(a + b) == library(a) + library(b),
    decreases b.len(),
{
    if b.len() == 0 {
        assert(a + b =~= a);
        assert(library(a) + library(b) =~= library(a));
    } else {
        libraries_keep_the_order_of_files(a, b.drop_last());
        assert((a + b).drop_last() =~= a + b.drop_last());
        assert(library(a + b) =~= library(a) + library(b));
    }
}

/// A number goes before the extension of a file, in brackets and behind a space;
/// the rest of its name stays.
pub proof fn numbers_go_before_the_extension(name: Seq<char>, stem: Seq<char>, ext: Seq<char>, n: int)
    requires
        file_name(name) == stem + seq!['.'] + ext,
        stem.len() > 0,
        ext.len() > 0,
        forall|i: int| 0 <= i < ext.len() ==> #[trigger] ext[i] != '.',
    ensures
        numbered(name, n) == stem + seq![' ', '('] + decimal(n as nat) + seq![')', '.'] + ext,
{
    reveal_strlit(" (");
    reveal_strlit(")");
    let file = file_name(name);
    lemma_split_at(file, file.len());
    lemma_split_is_last(file, file.len(), stem.len() as int);
    assert(file_stem(name) =~= stem);
    assert(file_extension(name) =~= ext);
    assert(numbered(name, n) =~= stem + seq![' ', '('] + decimal(n as nat) + seq![')', '.'] + ext);
}

proof fn lemma_split_is_last(name: Seq<char>, n: nat, dot: int)
    requires
        0 < dot < n <= name.len(),
        name[dot] == '.',
        forall|i: int| dot < i < n ==> #[trigger] name[i] != '.',
    ensures
        split_at(name, n) == Some(dot),
    decreases n,
{
    if name[n - 1] != '.' {
        lemma_split_is_last(name, (n - 1) as nat, dot);
    }
}

/// A name is tried as it is before it is numbered, and numbers are tried from 1 on.
pub proof fn names_are_tried_as_they_are(folder: Seq<char>, name: Seq<char>, n: int)
    requires
        n > 0,
    ensures
        candidate(folder, name, 0) == joined(folder, name),
        candidate(folder, name, n) == joined(folder, numbered(name, n)),
{
}

/// The fraction of a second is written with as many digits as it takes, in groups
/// of three: read as a number of that many decimals it is the fraction.
pub proof fn fractions_read_back(nanos: nat)
    requires
        nanos < 1_000_000_000,
    ensures
        nanos == 0 ==> fraction(nanos).len() == 0,
        nanos > 0 ==> {
            let digits = fraction(nanos).drop_first();
            &&& fraction(nanos)[0] == '.'
            &&& digits.len() == 3 || digits.len() == 6 || digits.len() == 9
            &&& digits.len() == 3 ==> (parsed(digits, nanos as int) matches Ok(n) && n * 1_000_000
                == nanos)
            &&& digits.len() == 6 ==> (parsed(digits, nanos as int) matches Ok(n) && n * 1000
                == nanos)
            &&& digits.len() == 9 ==> parsed(digits, nanos as int) == Ok::<int, NumberError>(
                nanos as int,
            )
        },
{
    if nanos > 0 {
        let (n, width): (nat, nat) = if nanos % 1_000_000 == 0 {
            (nanos / 1_000_000, 3)
        } else if nanos % 1000 == 0 {
            (nanos / 1000, 6)
        } else {
            (nanos, 9)
        };
        assert(fraction(nanos).drop_first() =~= padded(n, width));
        assert(vstd::arithmetic::power::pow(10, 3) == 1000 && vstd::arithmetic::power::pow(10, 6)
            == 1_000_000 && vstd::arithmetic::power::pow(10, 9) == 1_000_000_000) by {
            reveal_with_fuel(vstd::arithmetic::power::pow, 10);
        }
        padded_numbers_read_back(n, width, nanos as int);
    }
}

/// The first folder goes before the second, and both before the current one.
pub proof fn the_first_folder_goes_first(first: &str, second: Option<&str>)
    ensures
        first_dir(Some(first), second) == first@,
        first_dir(None, Some(first)) == first@,
        first_dir(None, None) == seq!['.'],
{
    reveal_strlit(".");
    assert("."@ =~= seq!['.']);
}

} // verus!
