//! Text as a sequence of characters.
use vstd::prelude::*;

verus! {

/// `String::push` appends one character to the end of the string.
pub assume_specification[ String::push ](s: &mut String, c: char)
    ensures
        final(s)@ == old(s)@.push(c),
;

/// The characters of `s`, in order.
pub fn chars_of(s: &str) -> (chars: Vec<char>)
    ensures
        chars@ == s@,
{
    let mut chars: Vec<char> = Vec::new();
    for c in it: s.chars()
        invariant
            it.seq() == s@,
            chars@ == s@.take(it.index() as int),
    {
        chars.push(c);
        assert(s@.take(it.index() + 1) =~= s@.take(it.index() as int).push(c));
    }
    assert(s@.take(s@.len() as int) =~= s@);
    chars
}

/// The string made of the characters from `lo` up to `hi`.
pub fn string_between(chars: &Vec<char>, lo: usize, hi: usize) -> (s: String)
    requires
        lo <= hi <= chars@.len(),
    ensures
        s@ == chars@.subrange(lo as int, hi as int),
{
    let mut s = String::new();
    let mut i: usize = lo;
    while i < hi
        invariant
            lo <= i <= hi <= chars@.len(),
            s@ == chars@.subrange(lo as int, i as int),
        decreases hi - i,
    {
        s.push(chars[i]);
        i += 1;
        assert(chars@.subrange(lo as int, i as int) =~= chars@.subrange(lo as int, i - 1).push(
            chars@[i - 1],
        ));
    }
    s
}

/// The string made of `chars`.
pub fn string_of(chars: &Vec<char>) -> (s: String)
    ensures
        s@ == chars@,
{
    let s = string_between(chars, 0, chars.len());
    assert(chars@.subrange(0, chars@.len() as int) =~= chars@);
    s
}

/// Whether two texts are the same, character by character.
pub fn same_text(a: &str, b: &str) -> (same: bool)
    ensures
        same == (a@ == b@),
{
    a.to_owned() == b.to_owned()
}

/// Whether `part` stands in `text` at position `i`.
pub open spec fn stands_at(text: Seq<char>, part: Seq<char>, i: int) -> bool {
    &&& 0 <= i <= text.len() - part.len()
    &&& text.subrange(i, i + part.len()) == part
}

/// Whether `part` stands anywhere in `text`.
pub open spec fn contains_text(text: Seq<char>, part: Seq<char>) -> bool {
    exists|i: int| stands_at(text, part, i)
}

/// Whether `text` begins with `part`.
pub open spec fn begins_with(text: Seq<char>, part: Seq<char>) -> bool {
    stands_at(text, part, 0)
}

/// Whether `text` ends with `part`.
pub open spec fn ends_with(text: Seq<char>, part: Seq<char>) -> bool {
    stands_at(text, part, text.len() - part.len())
}

/// Whether `part` stands in `text` at position `i`, where `text` is long enough.
fn part_at(text: &Vec<char>, part: &Vec<char>, i: usize) -> (found: bool)
    requires
        i + part@.len() <= text@.len(),
    ensures
        found == stands_at(text@, part@, i as int),
{
    let len: usize = text.len();
    let mut k: usize = 0;
    while k < part.len()
        invariant
            k <= part@.len(),
            len == text@.len(),
            i + part@.len() <= len,
            forall|j: int| 0 <= j < k ==> text@[i + j] == #[trigger] part@[j],
        decreases part@.len() - k,
    {
        if text[i + k] != part[k] {
            assert(text@.subrange(i as int, i + part@.len())[k as int] != part@[k as int]);
            return false;
        }
        k += 1;
    }
    assert(text@.subrange(i as int, i + part@.len()) =~= part@);
    true
}

/// Whether `part` stands anywhere in `text`.
pub fn has_text(text: &str, part: &str) -> (found: bool)
    ensures
        found == contains_text(text@, part@),
{
    let text_chars = chars_of(text);
    let part_chars = chars_of(part);
    if part_chars.len() > text_chars.len() {
        return false;
    }
    let last: usize = text_chars.len() - part_chars.len();
    let mut i: usize = 0;
    while i <= last
        invariant
            text_chars@ == text@,
            part_chars@ == part@,
            last == text@.len() - part@.len(),
            i <= last + 1,
            forall|j: int| 0 <= j < i ==> !#[trigger] stands_at(text@, part@, j),
        decreases last + 1 - i,
    {
        if part_at(&text_chars, &part_chars, i) {
            return true;
        }
        if i == last {
            return false;
        }
        i += 1;
    }
    false
}

/// What is left of `text` without `part` at its beginning, where it begins so.
pub fn without_prefix(text: &str, part: &str) -> (rest: Option<String>)
    ensures
        match rest {
            Some(rest) => begins_with(text@, part@) && rest@ == text@.skip(part@.len() as int),
            None => !begins_with(text@, part@),
        },
{
    let text_chars = chars_of(text);
    let part_chars = chars_of(part);
    if part_chars.len() <= text_chars.len() && part_at(&text_chars, &part_chars, 0) {
        let rest = string_between(&text_chars, part_chars.len(), text_chars.len());
        assert(rest@ =~= text@.skip(part@.len() as int));
        Some(rest)
    } else {
        None
    }
}

/// Whether a character has the Unicode property White_Space.
pub open spec fn is_space(c: char) -> bool {
    let code = c as u32;
    ||| 0x09 <= code <= 0x0D
    ||| code == 0x20
    ||| code == 0x85
    ||| code == 0xA0
    ||| code == 0x1680
    ||| 0x2000 <= code <= 0x200A
    ||| code == 0x2028
    ||| code == 0x2029
    ||| code == 0x202F
    ||| code == 0x205F
    ||| code == 0x3000
}

/// Whether a character is white space.
pub fn is_white_space(c: char) -> (space: bool)
    ensures
        space == is_space(c),
{
    let code: u32 = c as u32;
    (0x09 <= code && code <= 0x0D) || code == 0x20 || code == 0x85 || code == 0xA0 || code == 0x1680
        || (0x2000 <= code && code <= 0x200A) || code == 0x2028 || code == 0x2029 || code == 0x202F
        || code == 0x205F || code == 0x3000
}

/// `text` without the white space at its beginning.
pub open spec fn trim_start(text: Seq<char>) -> Seq<char>
    decreases text.len(),
{
    if text.len() > 0 && is_space(text.first()) {
        trim_start(text.drop_first())
    } else {
        text
    }
}

/// `text` without the white space at its end.
pub open spec fn trim_end(text: Seq<char>) -> Seq<char>
    decreases text.len(),
{
    if text.len() > 0 && is_space(text.last()) {
        trim_end(text.drop_last())
    } else {
        text
    }
}

/// `text` without the white space at both ends.
pub open spec fn trimmed(text: Seq<char>) -> Seq<char> {
    trim_end(trim_start(text))
}

/// The text without the white space at both ends.
pub fn trim(text: &str) -> (rest: String)
    ensures
        rest@ == trimmed(text@),
{
    let chars = chars_of(text);
    let mut lo: usize = 0;
    assert(text@.skip(0) =~= text@);
    while lo < chars.len() && is_white_space(chars[lo])
        invariant
            chars@ == text@,
            lo <= chars@.len(),
            trim_start(text@) == trim_start(text@.skip(lo as int)),
        decreases chars@.len() - lo,
    {
        assert(text@.skip(lo as int).drop_first() =~= text@.skip(lo + 1));
        lo += 1;
    }
    let ghost front = text@.skip(lo as int);
    assert(trim_start(text@) == front) by {
        if front.len() > 0 {
            assert(front.first() == chars@[lo as int]);
        }
    }
    let mut hi: usize = chars.len();
    assert(text@.subrange(lo as int, hi as int) =~= front);
    while hi > lo && is_white_space(chars[hi - 1])
        invariant
            chars@ == text@,
            lo <= hi <= chars@.len(),
            trim_end(front) == trim_end(text@.subrange(lo as int, hi as int)),
        decreases hi,
    {
        assert(text@.subrange(lo as int, hi as int).drop_last() =~= text@.subrange(
            lo as int,
            hi - 1,
        ));
        hi -= 1;
    }
    string_between(&chars, lo, hi)
}

/// `text` without `part` at its end, taken away as often as it stands there.
pub open spec fn trim_end_matches(text: Seq<char>, part: Seq<char>) -> Seq<char>
    decreases text.len(),
{
    if part.len() > 0 && ends_with(text, part) {
        trim_end_matches(text.take(text.len() - part.len()), part)
    } else {
        text
    }
}

/// The text without `part` at its end, taken away as often as it stands there.
pub fn strip_end(text: String, part: &str) -> (rest: String)
    ensures
        rest@ == trim_end_matches(text@, part@),
{
    let chars = chars_of(text.as_str());
    let part_chars = chars_of(part);
    let n: usize = part_chars.len();
    if n == 0 {
        return text;
    }
    let mut rest = chars;
    while n <= rest.len()
        invariant
            part_chars@ == part@,
            n == part@.len(),
            n > 0,
            trim_end_matches(text@, part@) == trim_end_matches(rest@, part@),
        ensures
            rest@ == trim_end_matches(text@, part@),
        decreases rest@.len(),
    {
        let at: usize = rest.len() - n;
        if !part_at(&rest, &part_chars, at) {
            break ;
        }
        assert(rest@.subrange(0, at as int) =~= rest@.take(at as int));
        rest.truncate(at);
    }
    string_of(&rest)
}

/// The last line of `text`. Lines end in a line feed, which a carriage return
/// may stand before; the last one may do without.
pub open spec fn last_line(text: Seq<char>) -> Option<Seq<char>> {
    if text.len() == 0 {
        None
    } else if text.last() != '\n' {
        Some(behind_last_feed(text))
    } else if text.len() > 1 && text[text.len() - 2] == '\r' {
        Some(behind_last_feed(text.take(text.len() - 2)))
    } else {
        Some(behind_last_feed(text.take(text.len() - 1)))
    }
}

/// What stands in `text` behind the last line feed.
pub open spec fn behind_last_feed(text: Seq<char>) -> Seq<char>
    decreases text.len(),
{
    if text.len() == 0 || text.last() == '\n' {
        Seq::empty()
    } else {
        behind_last_feed(text.drop_last()).push(text.last())
    }
}

proof fn lemma_behind_last_feed(text: Seq<char>, at: int)
    requires
        0 <= at <= text.len(),
        at > 0 ==> text[at - 1] == '\n',
        forall|i: int| at <= i < text.len() ==> text[i] != '\n',
    ensures
        behind_last_feed(text) == text.skip(at),
    decreases text.len(),
{
    if text.len() > at {
        lemma_behind_last_feed(text.drop_last(), at);
        assert(text.skip(at) =~= text.drop_last().skip(at).push(text.last()));
    } else {
        assert(text.skip(at) =~= Seq::empty());
    }
}

/// The last line of the text, without its end.
pub fn final_line(text: &str) -> (line: Option<String>)
    ensures
        line.deep_view() == last_line(text@),
{
    let chars = chars_of(text);
    if chars.len() == 0 {
        return None;
    }
    let mut end: usize = chars.len();
    if chars[end - 1] == '\n' {
        end -= 1;
        if end > 0 && chars[end - 1] == '\r' {
            end -= 1;
        }
    }
    let mut start: usize = end;
    while start > 0 && chars[start - 1] != '\n'
        invariant
            chars@ == text@,
            start <= end <= chars@.len(),
            forall|i: int| start <= i < end ==> chars@[i] != '\n',
        decreases start,
    {
        start -= 1;
    }
    let line = string_between(&chars, start, end);
    proof {
        let shown = text@.take(end as int);
        lemma_behind_last_feed(shown, start as int);
        assert(shown.skip(start as int) =~= text@.subrange(start as int, end as int));
        if end == text@.len() {
            assert(shown =~= text@);
        }
    }
    Some(line)
}

/// The first line of `text`.
pub open spec fn first_line(text: Seq<char>) -> Option<Seq<char>> {
    if text.len() == 0 {
        None
    } else {
        let end = until_feed(text, 0);
        if end < text.len() && end > 0 && text[end - 1] == '\r' {
            Some(text.take(end - 1))
        } else {
            Some(text.take(end))
        }
    }
}

/// Where the first line feed at `from` or later stands, or the end of `text`.
pub open spec fn until_feed(text: Seq<char>, from: int) -> int
    decreases text.len() - from,
{
    if from >= text.len() || text[from] == '\n' {
        from
    } else {
        until_feed(text, from + 1)
    }
}

/// The first line of the text, without its end.
pub fn initial_line(text: &str) -> (line: Option<String>)
    ensures
        line.deep_view() == first_line(text@),
{
    let chars = chars_of(text);
    if chars.len() == 0 {
        return None;
    }
    let mut end: usize = 0;
    while end < chars.len() && chars[end] != '\n'
        invariant
            chars@ == text@,
            end <= chars@.len(),
            until_feed(text@, 0) == until_feed(text@, end as int),
        decreases chars@.len() - end,
    {
        end += 1;
    }
    let stop: usize = if end < chars.len() && end > 0 && chars[end - 1] == '\r' {
        end - 1
    } else {
        end
    };
    let line = string_between(&chars, 0, stop);
    assert(text@.subrange(0, stop as int) =~= text@.take(stop as int));
    Some(line)
}

/// The text with `to` in place of every `from`.
pub fn replace_char(text: &str, from: char, to: char) -> (replaced: String)
    ensures
        replaced@ == text@.map_values(
            |c: char|
                if c == from {
                    to
                } else {
                    c
                },
        ),
{
    let ghost swap = |c: char|
        if c == from {
            to
        } else {
            c
        };
    let chars = chars_of(text);
    let mut replaced = String::new();
    let mut i: usize = 0;
    while i < chars.len()
        invariant
            chars@ == text@,
            i <= chars@.len(),
            replaced@ == text@.take(i as int).map_values(swap),
            swap == (|c: char|
                if c == from {
                    to
                } else {
                    c
                }),
        decreases chars@.len() - i,
    {
        let c: char = chars[i];
        replaced.push(
            if c == from {
                to
            } else {
                c
            },
        );
        i += 1;
        assert(replaced@ =~= text@.take(i as int).map_values(swap));
    }
    assert(text@.take(text@.len() as int) =~= text@);
    replaced
}

/// The text without the characters `unwanted`.
pub fn remove_char(text: &str, unwanted: char) -> (rest: String)
    ensures
        rest@ == text@.filter(|c: char| c != unwanted),
{
    let ghost keep = |c: char| c != unwanted;
    let chars = chars_of(text);
    let mut rest = String::new();
    let mut i: usize = 0;
    assert(text@.take(0).filter(keep) =~= Seq::empty()) by {
        reveal(Seq::filter);
    }
    while i < chars.len()
        invariant
            chars@ == text@,
            i <= chars@.len(),
            keep == (|c: char| c != unwanted),
            rest@ == text@.take(i as int).filter(keep),
        decreases chars@.len() - i,
    {
        proof {
            reveal(Seq::filter);
            assert(text@.take(i + 1).drop_last() =~= text@.take(i as int));
            assert(text@.take(i + 1).last() == chars@[i as int]);
        }
        if chars[i] != unwanted {
            rest.push(chars[i]);
        }
        i += 1;
    }
    assert(text@.take(text@.len() as int) =~= text@);
    rest
}

/// Appends a text to a list of texts.
pub fn push_text(list: &mut Vec<String>, text: &str)
    ensures
        final(list).deep_view() == old(list).deep_view().push(text@),
{
    let ghost before = list.deep_view();
    list.push(text.to_owned());
    assert(list.deep_view() =~= before.push(text@));
}

/// A text contains another if and only if the other stands in it between two
/// texts, and begins or ends with it if and only if one of these is empty.
pub proof fn parts_stand_between_texts(text: Seq<char>, part: Seq<char>)
    ensures
        contains_text(text, part) <==> exists|a: Seq<char>, b: Seq<char>|
            text == #[trigger] (a + part + b),
        begins_with(text, part) <==> exists|b: Seq<char>| text == #[trigger] (part + b),
        ends_with(text, part) <==> exists|a: Seq<char>| text == #[trigger] (a + part),
{
    let n = part.len() as int;
    if contains_text(text, part) {
        let i = choose|i: int| stands_at(text, part, i);
        assert(text =~= text.take(i) + part + text.skip(i + n));
    }
    if exists|a: Seq<char>, b: Seq<char>| text == #[trigger] (a + part + b) {
        let (a, b): (Seq<char>, Seq<char>) = choose|a: Seq<char>, b: Seq<char>|
            text == #[trigger] (a + part + b);
        assert(text.subrange(a.len() as int, a.len() + n) =~= part);
        assert(stands_at(text, part, a.len() as int));
    }
    if begins_with(text, part) {
        assert(text =~= part + text.skip(n));
    }
    if exists|b: Seq<char>| text == #[trigger] (part + b) {
        assert(text.subrange(0, n) =~= part);
    }
    if ends_with(text, part) {
        assert(text =~= text.take(text.len() - n) + part);
    }
    if exists|a: Seq<char>| text == #[trigger] (a + part) {
        assert(text.subrange(text.len() - n, text.len() as int) =~= part);
    }
}

/// Among the characters of ASCII, the tabulator, the line feed and what stands
/// between them and the carriage return, and the space, are white space.
pub proof fn printed_characters_are_no_white_space(c: char)
    requires
        c as u32 <= 0x7F,
    ensures
        is_space(c) <==> c == ' ' || 9 <= c as u32 <= 13,
{
}

proof fn lemma_trim_start(text: Seq<char>)
    ensures
        ({
            let rest = trim_start(text);
            let n = text.len() - rest.len();
            &&& 0 <= n
            &&& rest == text.skip(n)
            &&& forall|i: int| 0 <= i < n ==> is_space(#[trigger] text[i])
            &&& rest.len() > 0 ==> !is_space(rest.first())
        }),
    decreases text.len(),
{
    if text.len() > 0 && is_space(text.first()) {
        let shorter = text.drop_first();
        lemma_trim_start(shorter);
        let n = text.len() - trim_start(text).len();
        assert(trim_start(text) =~= text.skip(n));
        assert forall|i: int| 0 <= i < n implies is_space(#[trigger] text[i]) by {
            if i > 0 {
                assert(shorter[i - 1] == text[i]);
            }
        }
    } else {
        assert(text =~= text.skip(0));
    }
}

proof fn lemma_trim_end(text: Seq<char>)
    ensures
        ({
            let rest = trim_end(text);
            &&& rest.len() <= text.len()
            &&& rest == text.take(rest.len() as int)
            &&& forall|i: int| rest.len() <= i < text.len() ==> is_space(#[trigger] text[i])
            &&& rest.len() > 0 ==> !is_space(rest.last())
        }),
    decreases text.len(),
{
    if text.len() > 0 && is_space(text.last()) {
        let shorter = text.drop_last();
        lemma_trim_end(shorter);
        assert(trim_end(text) =~= text.take(trim_end(text).len() as int));
        assert forall|i: int| trim_end(text).len() <= i < text.len() implies is_space(
            #[trigger] text[i],
        ) by {
            if i < text.len() - 1 {
                assert(shorter[i] == text[i]);
            }
        }
    } else {
        assert(text =~= text.take(text.len() as int));
    }
}

/// Trimming takes away white space at both ends, all of it and nothing else: what
/// is left stands in the text from some position on, only white space stands
/// before and behind it, and it neither begins nor ends with white space.
pub proof fn trimming_takes_all_white_space_at_the_ends(text: Seq<char>)
    ensures
        exists|from: int, to: int|
            {
                &&& 0 <= from <= to <= text.len()
                &&& trimmed(text) == #[trigger] text.subrange(from, to)
                &&& forall|i: int| 0 <= i < from ==> is_space(#[trigger] text[i])
                &&& forall|i: int| to <= i < text.len() ==> is_space(#[trigger] text[i])
            },
        trimmed(text).len() > 0 ==> !is_space(trimmed(text).first()) && !is_space(
            trimmed(text).last(),
        ),
        trimmed(text).len() == 0 <==> forall|i: int|
            0 <= i < text.len() ==> is_space(#[trigger] text[i]),
{
    let front = trim_start(text);
    let rest = trimmed(text);
    lemma_trim_start(text);
    lemma_trim_end(front);
    let from = text.len() - front.len();
    let to = from + rest.len();
    assert(rest =~= text.subrange(from, to));
    assert forall|i: int| to <= i < text.len() implies is_space(#[trigger] text[i]) by {
        assert(text[i] == front[i - from]);
    }
    if rest.len() > 0 {
        assert(rest.first() == front.first());
        assert(rest.first() == text[from]);
    }
}

/// A text that neither begins nor ends with white space is not trimmed.
pub proof fn trimmed_texts_stay(text: Seq<char>)
    requires
        text.len() > 0 ==> !is_space(text.first()) && !is_space(text.last()),
    ensures
        trimmed(text) == text,
{
}

/// What is taken away at the end of a text is taken away as often as it stands
/// there: once more at the end makes no difference, and none is left.
pub proof fn nothing_is_left_to_strip(text: Seq<char>, part: Seq<char>)
    requires
        part.len() > 0,
    ensures
        trim_end_matches(text + part, part) == trim_end_matches(text, part),
        forall|a: Seq<char>| trim_end_matches(text, part) != #[trigger] (a + part),
        (forall|a: Seq<char>| text != #[trigger] (a + part)) ==> trim_end_matches(text, part)
            == text,
    decreases text.len(),
{
    let longer = text + part;
    assert(longer.subrange(text.len() as int, longer.len() as int) =~= part);
    assert(longer.take(text.len() as int) =~= text);
    if ends_with(text, part) {
        let shorter = text.take(text.len() - part.len());
        nothing_is_left_to_strip(shorter, part);
        assert(text =~= shorter + part);
    } else {
        parts_stand_between_texts(text, part);
    }
}

/// The last line of an output is what stands behind its last line feed, whether
/// or not another one, or a carriage return and a line feed, end it.
pub proof fn last_lines_stand_behind_the_last_feed(front: Seq<char>, line: Seq<char>)
    requires
        forall|i: int| 0 <= i < line.len() ==> #[trigger] line[i] != '\n',
        line.len() > 0 ==> line.last() != '\r',
        front.len() > 0 ==> front.last() == '\n',
    ensures
        line.len() > 0 ==> last_line(front + line) == Some(line),
        last_line(front + line + seq!['\n']) == Some(line),
        last_line(front + line + seq!['\r', '\n']) == Some(line),
        last_line(Seq::empty()) is None,
{
    let text = front + line;
    lemma_behind_last_feed(text, front.len() as int);
    assert(text.skip(front.len() as int) =~= line);
    assert((text + seq!['\n']).take(text.len() as int) =~= text);
    assert((text + seq!['\r', '\n']).take(text.len() as int) =~= text);
    if line.len() == 0 && front.len() > 0 {
        assert((text + seq!['\n'])[text.len() - 1] == '\n');
    }
    if line.len() > 0 {
        assert((text + seq!['\n'])[text.len() - 1] == line.last());
    }
}

proof fn lemma_until_feed(text: Seq<char>, from: int, at: int)
    requires
        0 <= from <= at <= text.len(),
        forall|i: int| from <= i < at ==> #[trigger] text[i] != '\n',
        at < text.len() ==> text[at] == '\n',
    ensures
        until_feed(text, from) == at,
    decreases at - from,
{
    if from < at {
        lemma_until_feed(text, from + 1, at);
    }
}

/// The first line of a listing is what stands before its first line feed, without
/// a carriage return before that.
pub proof fn first_lines_stand_before_the_first_feed(line: Seq<char>, rest: Seq<char>)
    requires
        forall|i: int| 0 <= i < line.len() ==> #[trigger] line[i] != '\n',
        line.len() > 0 ==> line.last() != '\r',
    ensures
        line.len() > 0 ==> first_line(line) == Some(line),
        first_line(line + seq!['\n'] + rest) == Some(line),
        first_line(line + seq!['\r', '\n'] + rest) == Some(line),
        first_line(Seq::empty()) is None,
{
    let n = line.len() as int;
    lemma_until_feed(line, 0, n);
    lemma_until_feed(line + seq!['\n'] + rest, 0, n);
    lemma_until_feed(line + seq!['\r', '\n'] + rest, 0, n + 1);
    assert(line.take(n) =~= line);
    assert((line + seq!['\n'] + rest).take(n) =~= line);
    assert((line + seq!['\r', '\n'] + rest).take(n) =~= line);
}

/// Beyond ASCII, white space is what Unicode says it is.
pub proof fn other_white_space_is_that_of_unicode(c: char)
    requires
        c as u32 > 0x7F,
    ensures
        is_space(c) <==> seq![
            0x85u32,
            0xA0,
            0x1680,
            0x2000,
            0x2001,
            0x2002,
            0x2003,
            0x2004,
            0x2005,
            0x2006,
            0x2007,
            0x2008,
            0x2009,
            0x200A,
            0x2028,
            0x2029,
            0x202F,
            0x205F,
            0x3000,
        ].contains(c as u32),
{
    let code = c as u32;
    let spaces = seq![
        0x85u32,
        0xA0,
        0x1680,
        0x2000,
        0x2001,
        0x2002,
        0x2003,
        0x2004,
        0x2005,
        0x2006,
        0x2007,
        0x2008,
        0x2009,
        0x200A,
        0x2028,
        0x2029,
        0x202F,
        0x205F,
        0x3000,
    ];
    if is_space(c) {
        let k: int = if code == 0x85 {
            0
        } else if code == 0xA0 {
            1
        } else if code == 0x1680 {
            2
        } else if code <= 0x200A {
            3 + (code - 0x2000)
        } else if code == 0x2028 {
            14
        } else if code == 0x2029 {
            15
        } else if code == 0x202F {
            16
        } else if code == 0x205F {
            17
        } else {
            18
        };
        assert(spaces[k] == code);
    }
}

/// A text without a line feed is its only line, whatever it ends in.
pub proof fn texts_without_a_feed_are_one_line(text: Seq<char>)
    requires
        text.len() > 0,
        forall|i: int| 0 <= i < text.len() ==> #[trigger] text[i] != '\n',
    ensures
        first_line(text) == Some(text),
        last_line(text) == Some(text),
{
    lemma_until_feed(text, 0, text.len() as int);
    lemma_behind_last_feed(text, 0);
    assert(text.take(text.len() as int) =~= text);
    assert(text.skip(0) =~= text);
}

} // verus!
