//! The names of clips: the game they are named after, and the time.
use vstd::prelude::*;

use crate::number::{is_digit, is_two_digits_in};
use crate::path::{join_path, joined};
use crate::text::{
    chars_of, ends_with, is_space, nothing_is_left_to_strip, same_text, string_between, strip_end,
    trim, trim_end_matches, trimmed, trimmed_texts_stay,
};

verus! {

/// The name of a clip that shows no game.
pub open spec fn desktop() -> Seq<char> {
    "Desktop"@
}

/// A title without what browsers and other programs append to theirs.
pub open spec fn without_program_names(title: Seq<char>) -> Seq<char> {
    let t1 = trim_end_matches(title, " - Google Chrome"@);
    let t2 = trim_end_matches(t1, " - Mozilla Firefox"@);
    let t3 = trim_end_matches(t2, " - Microsoft Edge"@);
    let t4 = trim_end_matches(t3, " \u{2013} Mozilla Firefox"@);
    let t5 = trim_end_matches(t4, " - Visual Studio Code"@);
    trim_end_matches(t5, " - Discord"@)
}

/// Whether a character cannot stand in a file name.
pub open spec fn is_reserved(c: char) -> bool {
    c == '<' || c == '>' || c == ':' || c == '"' || c == '/' || c == '\\' || c == '|' || c == '?'
        || c == '*'
}

/// A character, or an underscore where it cannot stand in a file name.
pub open spec fn safe_char(c: char) -> char {
    if is_reserved(c) {
        '_'
    } else {
        c
    }
}

/// A text with underscores in place of what cannot stand in a file name.
pub open spec fn sanitized(text: Seq<char>) -> Seq<char> {
    text.map_values(|c: char| safe_char(c))
}

/// The name of the game that a window with this title shows.
pub open spec fn window_name(title: Seq<char>) -> Seq<char> {
    let name = sanitized(without_program_names(trimmed(title)));
    if name.len() == 0 {
        desktop()
    } else {
        name
    }
}

/// A text with underscores in place of what cannot stand in a file name.
fn sanitize(text: &str) -> (safe: String)
    ensures
        safe@ == sanitized(text@),
{
    let chars = chars_of(text);
    let mut safe = String::new();
    let mut i: usize = 0;
    while i < chars.len()
        invariant
            chars@ == text@,
            i <= chars@.len(),
            safe@ == sanitized(text@).take(i as int),
        decreases chars@.len() - i,
    {
        let c: char = chars[i];
        let reserved: bool = c == '<' || c == '>' || c == ':' || c == '"' || c == '/' || c == '\\'
            || c == '|' || c == '?' || c == '*';
        safe.push(
            if reserved {
                '_'
            } else {
                c
            },
        );
        i += 1;
        assert(sanitized(text@).take(i as int) =~= sanitized(text@).take(i - 1).push(safe_char(c)));
    }
    assert(sanitized(text@).take(text@.len() as int) =~= sanitized(text@));
    safe
}

/// The name of the game in the active window, given the title of the window
/// where there is one.
pub fn get_active_window_title(title: Option<&str>) -> (name: String)
    ensures
        name@ == match title {
            Some(title) => window_name(title@),
            None => desktop(),
        },
{
    match title {
        None => "Desktop".to_owned(),
        Some(title) => {
            let t0 = trim(title);
            let t1 = strip_end(t0, " - Google Chrome");
            let t2 = strip_end(t1, " - Mozilla Firefox");
            let t3 = strip_end(t2, " - Microsoft Edge");
            let t4 = strip_end(t3, " \u{2013} Mozilla Firefox");
            let t5 = strip_end(t4, " - Visual Studio Code");
            let t6 = strip_end(t5, " - Discord");
            let safe = sanitize(t6.as_str());
            if safe.as_str().is_empty() {
                "Desktop".to_owned()
            } else {
                safe
            }
        },
    }
}

/// A game always has a name, and it can be the name of a file.
pub proof fn window_names_are_safe(title: Seq<char>)
    ensures
        window_name(title).len() > 0,
        forall|i: int|
            0 <= i < window_name(title).len() ==> !is_reserved(#[trigger] window_name(title)[i]),
{
    reveal_strlit("Desktop");
}

/// A name that can be the name of a file stays as it is.
pub proof fn safe_names_stay(name: Seq<char>)
    requires
        forall|i: int| 0 <= i < name.len() ==> !is_reserved(#[trigger] name[i]),
    ensures
        sanitized(name) == name,
{
    assert(sanitized(name) =~= name);
}

/// Where the first digit at `from` or later stands, or the end of `text`.
pub open spec fn until_digit(text: Seq<char>, from: int) -> int
    decreases text.len() - from,
{
    if from >= text.len() || is_digit(text[from]) {
        from
    } else {
        until_digit(text, from + 1)
    }
}

/// Whether a text is a time in the form `YYYY.MM.DD - HH.MM.SS.ff`.
pub open spec fn is_clip_stamp(text: Seq<char>) -> bool {
    &&& text.len() == 24
    &&& forall|i: int|
        0 <= i < 24 ==> if i == 4 || i == 7 || i == 15 || i == 18 || i == 21 {
            #[trigger] text[i] == '.'
        } else if i == 10 || i == 12 {
            text[i] == ' '
        } else if i == 11 {
            text[i] == '-'
        } else {
            is_digit(text[i])
        }
}

/// The name of a clip of a game that was saved at the time `stamp`.
pub open spec fn clip_name(game: Seq<char>, stamp: Seq<char>) -> Seq<char> {
    game + " "@ + stamp + ".DVR.mp4"@
}

/// Whether a file has the name of a clip of this game.
pub open spec fn named_after(file_name: Seq<char>, game: Seq<char>) -> bool {
    exists|stamp: Seq<char>| is_clip_stamp(stamp) && file_name == #[trigger] clip_name(game, stamp)
}

/// Whether a file has the name of a clip: it ends in a space, a time and
/// `.DVR.mp4`.
pub open spec fn is_clip_name(file_name: Seq<char>) -> bool {
    let len = file_name.len() as int;
    &&& len >= 33
    &&& file_name[len - 33] == ' '
    &&& is_clip_stamp(file_name.subrange(len - 32, len - 8))
    &&& file_name.skip(len - 8) == ".DVR.mp4"@
}

/// The name of the game in the name of a clip, without white space around it.
/// In a name of any other form it is what stands before the first digit.
pub open spec fn game_of(file_name: Seq<char>) -> Seq<char> {
    if is_clip_name(file_name) {
        trimmed(file_name.take(file_name.len() - 33))
    } else {
        trimmed(file_name.take(until_digit(file_name, 0)))
    }
}

/// The game that a clip is named after stands before the time, and only names of
/// clips are named after a game.
pub proof fn clip_names_have_one_game(file_name: Seq<char>, game: Seq<char>)
    ensures
        named_after(file_name, game) <==> is_clip_name(file_name) && game == file_name.take(
            file_name.len() - 33,
        ),
{
    reveal_strlit(" ");
    reveal_strlit(".DVR.mp4");
    let len = file_name.len() as int;
    if named_after(file_name, game) {
        let stamp = choose|stamp: Seq<char>|
            is_clip_stamp(stamp) && file_name == #[trigger] clip_name(game, stamp);
        assert(game =~= file_name.take(len - 33));
        assert(stamp =~= file_name.subrange(len - 32, len - 8));
        assert(".DVR.mp4"@ =~= file_name.skip(len - 8));
    }
    if is_clip_name(file_name) && game == file_name.take(len - 33) {
        let stamp = file_name.subrange(len - 32, len - 8);
        assert(file_name =~= clip_name(game, stamp));
    }
}

/// Whether a time in the form of clip names stands at `at`.
fn has_stamp_at(chars: &Vec<char>, at: usize) -> (found: bool)
    requires
        at + 24 <= chars@.len(),
    ensures
        found == is_clip_stamp(chars@.subrange(at as int, at + 24)),
{
    let ghost stamp = chars@.subrange(at as int, at + 24);
    let len: usize = chars.len();
    let mut i: usize = 0;
    while i < 24
        invariant
            len == chars@.len(),
            at + 24 <= len,
            i <= 24,
            stamp == chars@.subrange(at as int, at + 24),
            forall|k: int|
                0 <= k < i ==> if k == 4 || k == 7 || k == 15 || k == 18 || k == 21 {
                    #[trigger] stamp[k] == '.'
                } else if k == 10 || k == 12 {
                    stamp[k] == ' '
                } else if k == 11 {
                    stamp[k] == '-'
                } else {
                    is_digit(stamp[k])
                },
        decreases 24 - i,
    {
        let c: char = chars[at + i];
        assert(stamp[i as int] == c);
        let fits: bool = if i == 4 || i == 7 || i == 15 || i == 18 || i == 21 {
            c == '.'
        } else if i == 10 || i == 12 {
            c == ' '
        } else if i == 11 {
            c == '-'
        } else {
            '0' <= c && c <= '9'
        };
        if !fits {
            return false;
        }
        i += 1;
    }
    true
}

/// Whether a file has the name of a clip.
fn has_clip_name(chars: &Vec<char>) -> (clip: bool)
    ensures
        clip == is_clip_name(chars@),
{
    let len: usize = chars.len();
    if len < 33 || chars[len - 33] != ' ' || !has_stamp_at(chars, len - 32) {
        return false;
    }
    let suffix = string_between(chars, len - 8, len);
    assert(suffix@ =~= chars@.skip(len - 8));
    same_text(suffix.as_str(), ".DVR.mp4")
}

/// The name of the game in the name of a clip, empty where there is none. Clips
/// of a game are kept in a folder of that name.
pub fn game_name(file_name: &str) -> (game: String)
    ensures
        game@ == game_of(file_name@),
        forall|g: Seq<char>| #[trigger] named_after(file_name@, g) ==> game@ == trimmed(g),
        (forall|g: Seq<char>| !#[trigger] named_after(file_name@, g)) ==> game@ == trimmed(
            file_name@.take(until_digit(file_name@, 0)),
        ),
{
    proof {
        assert forall|g: Seq<char>| #[trigger] named_after(file_name@, g) implies game_of(
            file_name@,
        ) == trimmed(g) by {
            clip_names_have_one_game(file_name@, g);
        }
        clip_names_have_one_game(file_name@, file_name@.take(file_name@.len() - 33));
    }
    let chars = chars_of(file_name);
    if has_clip_name(&chars) {
        let game = string_between(&chars, 0, chars.len() - 33);
        assert(game@ =~= file_name@.take(file_name@.len() - 33));
        return trim(game.as_str());
    }
    let mut end: usize = 0;
    while end < chars.len() && !('0' <= chars[end] && chars[end] <= '9')
        invariant
            chars@ == file_name@,
            end <= chars@.len(),
            until_digit(file_name@, 0) == until_digit(file_name@, end as int),
        decreases chars@.len() - end,
    {
        end += 1;
    }
    let before = string_between(&chars, 0, end);
    assert(file_name@.subrange(0, end as int) =~= file_name@.take(end as int));
    trim(before.as_str())
}

/// The folder that a clip is saved in: one for its game.
pub open spec fn game_folder(output_folder: Seq<char>, file_name: Seq<char>) -> Seq<char> {
    let game = game_of(file_name);
    if game.len() == 0 {
        output_folder
    } else {
        joined(output_folder, game)
    }
}

/// The folder that a clip is saved in: one for its game, in the folder for all
/// clips.
pub fn clip_folder(output_folder: &str, file_name: &str) -> (folder: String)
    ensures
        folder@ == game_folder(output_folder@, file_name@),
{
    let game = game_name(file_name);
    if game.as_str().is_empty() {
        output_folder.to_owned()
    } else {
        join_path(output_folder, game.as_str())
    }
}

/// Where a clip is saved.
pub fn clip_path(output_folder: &str, file_name: &str) -> (path: String)
    ensures
        path@ == joined(game_folder(output_folder@, file_name@), file_name@),
{
    let folder = clip_folder(output_folder, file_name);
    join_path(folder.as_str(), file_name)
}

/// A clip goes to the folder of its game, whatever the game is called: the name
/// of the game is found again in the name of the clip.
pub proof fn clips_go_to_the_folder_of_their_game(
    output_folder: Seq<char>,
    game: Seq<char>,
    stamp: Seq<char>,
)
    requires
        is_clip_stamp(stamp),
    ensures
        game_of(clip_name(game, stamp)) == trimmed(game),
        game_folder(output_folder, clip_name(game, stamp)) == if trimmed(game).len() == 0 {
            output_folder
        } else {
            joined(output_folder, trimmed(game))
        },
{
    assert(named_after(clip_name(game, stamp), game));
    clip_names_have_one_game(clip_name(game, stamp), game);
}

/// A recording of the whole buffer is named as a clip of the desktop.
pub proof fn recordings_are_clips_of_the_desktop(stamp: Seq<char>)
    requires
        is_stamp(stamp),
        stamp.len() == 24,
    ensures
        is_clip_stamp(stamp),
        recording_name(stamp) == clip_name(desktop(), stamp),
{
    reveal_strlit("Desktop ");
    reveal_strlit("Desktop");
    reveal_strlit(" ");
    assert("Desktop "@ =~= "Desktop"@ + " "@);
    assert(recording_name(stamp) =~= clip_name(desktop(), stamp));
}

/// How the time is written in the name of a recording.
pub const STAMP_FORMAT: &'static str = "%Y.%m.%d - %H.%M.%S.00";

/// Whether a text is a time in the form `YYYY.MM.DD - HH.MM.SS.00`, with each
/// number in its range; second 60 is a leap second. A year outside of four digits
/// has a sign and may have more digits.
pub open spec fn is_stamp(text: Seq<char>) -> bool {
    let year = text.len() - 20;
    &&& year >= 4
    &&& forall|i: int| 1 <= i < year ==> is_digit(#[trigger] text[i])
    &&& is_digit(text[0]) || (year >= 5 && (text[0] == '+' || text[0] == '-'))
    &&& text[year] == '.' && is_two_digits_in(text, year + 1, 1, 12)
    &&& text[year + 3] == '.' && is_two_digits_in(text, year + 4, 1, 31)
    &&& text[year + 6] == ' ' && text[year + 7] == '-' && text[year + 8] == ' '
    &&& is_two_digits_in(text, year + 9, 0, 23) && text[year + 11] == '.'
    &&& is_two_digits_in(text, year + 12, 0, 59) && text[year + 14] == '.'
    &&& is_two_digits_in(text, year + 15, 0, 60) && text[year + 17] == '.'
    &&& text[year + 18] == '0' && text[year + 19] == '0'
}

/// The local time, as `chrono::Local::now` gives it and `DateTime::format`
/// writes it. In this format, year, month, day, hour, minute and second are
/// written as numbers padded with zeros, each in its range, and the rest stands as
/// it is. Which time it is, is not stated. The clock of the system must not be set
/// to a time before 1970.
#[verifier::external_body]
fn local_time(format: &str) -> (stamp: String)
    requires
        format@ == STAMP_FORMAT@,
    ensures
        is_stamp(stamp@),
{
    chrono::Local::now().format(format).to_string()
}

/// The name of a recording of the whole buffer that is saved at the time
/// `stamp`.
pub open spec fn recording_name(stamp: Seq<char>) -> Seq<char> {
    "Desktop "@ + stamp + ".DVR.mp4"@
}

/// The name of a recording of the whole buffer that is saved at the time
/// `stamp`.
pub fn full_recording_name(stamp: &str) -> (name: String)
    ensures
        name@ == recording_name(stamp@),
{
    let mut name = "Desktop ".to_owned();
    name.append(stamp);
    name.append(".DVR.mp4");
    name
}

/// The name of a recording of the whole buffer that is saved now.
pub fn full_recording_name_now() -> (name: String)
    ensures
        exists|stamp: Seq<char>| is_stamp(stamp) && name@ == #[trigger] recording_name(stamp),
{
    let stamp = local_time(STAMP_FORMAT);
    full_recording_name(stamp.as_str())
}

/// What cannot stand in a file name is replaced by an underscore, character by
/// character, and nothing else is changed.
pub proof fn names_keep_all_but_reserved_characters(text: Seq<char>, i: int)
    requires
        0 <= i < text.len(),
    ensures
        sanitized(text).len() == text.len(),
        sanitized(text)[i] == if seq!['<', '>', ':', '"', '/', '\\', '|', '?', '*'].contains(
            text[i],
        ) {
            '_'
        } else {
            text[i]
        },
{
    let reserved = seq!['<', '>', ':', '"', '/', '\\', '|', '?', '*'];
    if is_reserved(text[i]) {
        let k = if text[i] == '<' {
            0int
        } else if text[i] == '>' {
            1
        } else if text[i] == ':' {
            2
        } else if text[i] == '"' {
            3
        } else if text[i] == '/' {
            4
        } else if text[i] == '\\' {
            5
        } else if text[i] == '|' {
            6
        } else if text[i] == '?' {
            7
        } else {
            8
        };
        assert(reserved[k] == text[i]);
    }
}

/// Whether a text does not end with what a program appends to its titles.
pub open spec fn ends_with_no_program(title: Seq<char>) -> bool {
    &&& !ends_with(title, " - Google Chrome"@)
    &&& !ends_with(title, " - Mozilla Firefox"@)
    &&& !ends_with(title, " - Microsoft Edge"@)
    &&& !ends_with(title, " \u{2013} Mozilla Firefox"@)
    &&& !ends_with(title, " - Visual Studio Code"@)
    &&& !ends_with(title, " - Discord"@)
}

proof fn lemma_ends_otherwise(text: Seq<char>, suffix: Seq<char>, part: Seq<char>, k: int)
    requires
        0 < k <= suffix.len(),
        k <= part.len(),
        suffix[suffix.len() - k] != part[part.len() - k],
    ensures
        !ends_with(text + suffix, part),
{
    let whole = text + suffix;
    if ends_with(whole, part) {
        let end = whole.subrange(whole.len() - part.len(), whole.len() as int);
        assert(end[part.len() - k] == whole[whole.len() - k]);
        assert(whole[whole.len() - k] == suffix[suffix.len() - k]);
    }
}

proof fn lemma_stripped_once(text: Seq<char>, suffix: Seq<char>)
    requires
        suffix.len() > 0,
        !ends_with(text, suffix),
    ensures
        trim_end_matches(text + suffix, suffix) == text,
{
    nothing_is_left_to_strip(text, suffix);
}

/// A game is named after the title of its window: a title without white space
/// around it, and without the name of a program at its end, gives its own name, as
/// far as that can stand in a file name. With the name of a program behind it, it
/// gives the same.
pub proof fn program_names_are_left_out(title: Seq<char>)
    requires
        title.len() > 0,
        !is_space(title.first()),
        !is_space(title.last()),
        ends_with_no_program(title),
    ensures
        window_name(title) == sanitized(title),
        window_name(title + " - Google Chrome"@) == sanitized(title),
        window_name(title + " - Mozilla Firefox"@) == sanitized(title),
        window_name(title + " - Microsoft Edge"@) == sanitized(title),
        window_name(title + " \u{2013} Mozilla Firefox"@) == sanitized(title),
        window_name(title + " - Visual Studio Code"@) == sanitized(title),
        window_name(title + " - Discord"@) == sanitized(title),
{
    reveal_strlit(" - Google Chrome");
    reveal_strlit(" - Mozilla Firefox");
    reveal_strlit(" - Microsoft Edge");
    reveal_strlit(" \u{2013} Mozilla Firefox");
    reveal_strlit(" - Visual Studio Code");
    reveal_strlit(" - Discord");
    let chrome = " - Google Chrome"@;
    let firefox = " - Mozilla Firefox"@;
    let edge = " - Microsoft Edge"@;
    let fox = " \u{2013} Mozilla Firefox"@;
    let code = " - Visual Studio Code"@;
    let discord = " - Discord"@;
    trimmed_texts_stay(title);
    trimmed_texts_stay(title + chrome);
    trimmed_texts_stay(title + firefox);
    trimmed_texts_stay(title + edge);
    trimmed_texts_stay(title + fox);
    trimmed_texts_stay(title + code);
    trimmed_texts_stay(title + discord);
    lemma_stripped_once(title, chrome);
    lemma_stripped_once(title, firefox);
    lemma_stripped_once(title, edge);
    lemma_stripped_once(title, fox);
    lemma_stripped_once(title, code);
    lemma_stripped_once(title, discord);
    lemma_ends_otherwise(title, firefox, chrome, 1);
    lemma_ends_otherwise(title, edge, chrome, 2);
    lemma_ends_otherwise(title, edge, firefox, 1);
    lemma_ends_otherwise(title, fox, chrome, 1);
    lemma_ends_otherwise(title, fox, firefox, 17);
    lemma_ends_otherwise(title, fox, edge, 1);
    lemma_ends_otherwise(title, code, chrome, 2);
    lemma_ends_otherwise(title, code, firefox, 1);
    lemma_ends_otherwise(title, code, edge, 2);
    lemma_ends_otherwise(title, code, fox, 1);
    lemma_ends_otherwise(title, discord, chrome, 1);
    lemma_ends_otherwise(title, discord, firefox, 1);
    lemma_ends_otherwise(title, discord, edge, 1);
    lemma_ends_otherwise(title, discord, fox, 1);
    lemma_ends_otherwise(title, discord, code, 1);
    assert(sanitized(title).len() == title.len());
}

/// In a name that is not that of a clip, the game is what stands before the first
/// digit, or all of the name where it has none.
pub proof fn other_names_are_cut_at_the_first_digit(front: Seq<char>, rest: Seq<char>)
    requires
        forall|i: int| 0 <= i < front.len() ==> (#[trigger] front[i] < '0' || front[i] > '9'),
        rest.len() > 0 ==> '0' <= rest[0] <= '9',
        !is_clip_name(front + rest),
    ensures
        game_of(front + rest) == trimmed(front),
{
    lemma_until_digit(front + rest, 0, front.len() as int);
    assert((front + rest).take(front.len() as int) =~= front);
}

proof fn lemma_until_digit(text: Seq<char>, from: int, at: int)
    requires
        0 <= from <= at <= text.len(),
        forall|i: int| from <= i < at ==> (#[trigger] text[i] < '0' || text[i] > '9'),
        at < text.len() ==> '0' <= text[at] <= '9',
    ensures
        until_digit(text, from) == at,
    decreases at - from,
{
    if from < at {
        lemma_until_digit(text, from + 1, at);
    }
}

/// A file is named as a clip if and only if it is called after some text, a space,
/// a date, a time and `.DVR.mp4`, each number of the date and the time with as many
/// digits as `YYYY.MM.DD - HH.MM.SS.ff` has.
pub proof fn clips_are_named_by_date_and_time(file_name: Seq<char>)
    ensures
        is_clip_name(file_name) <==> {
            let at = file_name.len() - 32;
            &&& at >= 1
            &&& file_name[at - 1] == ' '
            &&& forall|i: int|
                #![trigger file_name[at + i]]
                (0 <= i < 4 || 5 <= i < 7 || 8 <= i < 10 || 13 <= i < 15 || 16 <= i < 18 || 19 <= i
                    < 21 || 22 <= i < 24) ==> '0' <= file_name[at + i] <= '9'
            &&& file_name[at + 4] == '.' && file_name[at + 7] == '.'
            &&& file_name[at + 10] == ' ' && file_name[at + 11] == '-' && file_name[at + 12] == ' '
            &&& file_name[at + 15] == '.' && file_name[at + 18] == '.' && file_name[at + 21] == '.'
            &&& file_name.skip(at + 24) == seq!['.', 'D', 'V', 'R', '.', 'm', 'p', '4']
        },
{
    reveal_strlit(".DVR.mp4");
    assert(".DVR.mp4"@ =~= seq!['.', 'D', 'V', 'R', '.', 'm', 'p', '4']);
    let at = file_name.len() - 32;
    if at >= 1 {
        let stamp = file_name.subrange(at, at + 24);
        assert forall|i: int| 0 <= i < 24 implies #[trigger] stamp[i] == file_name[at + i] by {}
        if is_clip_stamp(stamp) {
            assert(stamp[4] == '.' && stamp[7] == '.' && stamp[10] == ' ' && stamp[11] == '-'
                && stamp[12] == ' ' && stamp[15] == '.' && stamp[18] == '.' && stamp[21] == '.');
            assert forall|i: int|
                #![trigger file_name[at + i]]
                (0 <= i < 4 || 5 <= i < 7 || 8 <= i < 10 || 13 <= i < 15 || 16 <= i < 18 || 19 <= i
                    < 21 || 22 <= i < 24) implies '0' <= file_name[at + i] <= '9' by {
                assert(stamp[i] == file_name[at + i]);
            }
        }
    }
}

} // verus!
