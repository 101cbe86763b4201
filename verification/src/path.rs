//! Paths and file names as text, in the way of Windows.
//!
//! A path may begin with a prefix: a drive, a server and a share behind two
//! separators, or a device. Behind it come, separated, the components. A path that
//! begins with `\\?\` is verbatim: only the backslash separates its components,
//! and a dot is one of them.
use vstd::prelude::*;

use crate::text::{chars_of, push_text, string_between};

verus! {

/// Whether a character separates the parts of a path.
pub open spec fn is_separator(c: char) -> bool {
    c == '/' || c == '\\'
}

/// Whether a character separates the parts of a path, which may be verbatim.
pub open spec fn divides(verbatim: bool, c: char) -> bool {
    c == '\\' || (!verbatim && c == '/')
}

/// Whether a text begins with the letter of a drive and a colon.
pub open spec fn begins_with_drive(text: Seq<char>) -> bool {
    text.len() >= 2 && text[1] == ':' && ('a' <= text[0] <= 'z' || 'A' <= text[0] <= 'Z')
}

/// Whether a path is verbatim.
pub open spec fn is_verbatim(path: Seq<char>) -> bool {
    &&& path.len() >= 4
    &&& path[0] == '\\' && path[1] == '\\' && path[2] == '?' && path[3] == '\\'
}

/// Whether a verbatim path names a server and a share, as in
/// `\\?\UNC\server\share`.
pub open spec fn is_verbatim_share(path: Seq<char>) -> bool {
    &&& is_verbatim(path) && path.len() >= 8
    &&& path[4] == 'U' && path[5] == 'N' && path[6] == 'C' && is_separator(path[7])
}

/// Whether a verbatim path begins with a drive, as in `\\?\C:`.
pub open spec fn is_verbatim_drive(path: Seq<char>) -> bool {
    &&& is_verbatim(path) && begins_with_drive(path.skip(4))
    &&& path.len() == 6 || is_separator(path[6])
}

/// Whether a path names a device, as in `\\.\COM1`.
pub open spec fn is_device(path: Seq<char>) -> bool {
    &&& path.len() >= 4
    &&& is_separator(path[0]) && is_separator(path[1])
    &&& path[2] == '.' && is_separator(path[3])
}

/// Where the first separator at `from` or later stands, or the end of `path`.
pub open spec fn until_separator(path: Seq<char>, verbatim: bool, from: int) -> int
    decreases path.len() - from,
{
    if from >= path.len() || divides(verbatim, path[from]) {
        from
    } else {
        until_separator(path, verbatim, from + 1)
    }
}

/// The length of the prefix of a path: `C:`, or `\\server\share` with both
/// names, or that of a device or a verbatim path, with as many names as there are.
pub open spec fn prefix_len(path: Seq<char>) -> int {
    if begins_with_drive(path) {
        2
    } else if is_verbatim_share(path) {
        let server = until_separator(path, true, 8);
        let share = until_separator(path, true, server + 1);
        if share > server + 1 {
            share
        } else {
            server
        }
    } else if is_verbatim_drive(path) {
        6
    } else if is_verbatim(path) {
        until_separator(path, true, 4)
    } else if is_device(path) {
        until_separator(path, false, 4)
    } else if path.len() >= 2 && is_separator(path[0]) && is_separator(path[1]) {
        let server = until_separator(path, false, 2);
        let share = until_separator(path, false, server + 1);
        if server > 2 && share > server + 1 {
            share
        } else {
            0
        }
    } else {
        0
    }
}

/// Whether a separator stands behind the prefix of a path.
pub open spec fn has_root(path: Seq<char>) -> bool {
    path.len() > prefix_len(path) && is_separator(path[prefix_len(path)])
}

/// The components of a verbatim path from `from` on, behind `parts`.
pub open spec fn gathered(parts: Seq<Seq<char>>, path: Seq<char>, from: int) -> Seq<Seq<char>>
    decreases path.len() + 1 - from,
{
    if from >= path.len() {
        parts
    } else {
        let end = until_separator(path, true, from);
        proof {
            until_separator_advances(path, true, from);
        }
        let next = if end > from {
            parts.push(path.subrange(from, end))
        } else {
            parts
        };
        gathered(next, path, end + 1)
    }
}

/// Where a component leads from the directory that `parts` lead to: a dot leads
/// nowhere, two dots lead out of a directory with a name, and no further.
pub open spec fn led_by(parts: Seq<Seq<char>>, part: Seq<char>) -> Seq<Seq<char>> {
    if part.len() == 0 || part == seq!['.'] {
        parts
    } else if part == seq!['.', '.'] {
        if parts.len() > 0 && parts.last() != seq!['.'] && parts.last() != seq!['.', '.'] {
            parts.drop_last()
        } else {
            parts
        }
    } else {
        parts.push(part)
    }
}

/// Where the components of `name` from `from` on lead from the directory that
/// `parts` lead to.
pub open spec fn followed(parts: Seq<Seq<char>>, name: Seq<char>, from: int) -> Seq<Seq<char>>
    decreases name.len() + 1 - from,
{
    if from >= name.len() {
        parts
    } else {
        let end = until_separator(name, false, from);
        proof {
            until_separator_advances(name, false, from);
        }
        followed(led_by(parts, name.subrange(from, end)), name, end + 1)
    }
}

/// The components of a path as text, each behind a separator.
pub open spec fn written(parts: Seq<Seq<char>>) -> Seq<char>
    decreases parts.len(),
{
    if parts.len() == 0 {
        Seq::empty()
    } else {
        written(parts.drop_last()) + seq!['\\'] + parts.last()
    }
}

/// What a verbatim directory and a name without a prefix make together. The name
/// is followed component by component, as nothing else would read its dots and
/// slashes.
pub open spec fn joined_verbatim(dir: Seq<char>, name: Seq<char>) -> Seq<char> {
    let prefix = prefix_len(dir);
    let start = if has_root(name) {
        Seq::empty()
    } else {
        gathered(Seq::empty(), dir, prefix + 1)
    };
    let parts = followed(start, name, 0);
    dir.take(prefix) + if parts.len() == 0 && (has_root(dir) || has_root(name)) {
        seq!['\\']
    } else {
        written(parts)
    }
}

/// What a directory and a name make together. A name that has a prefix is taken
/// as it is. From a verbatim directory a name is followed. A name that only has a
/// root takes the place of all but the prefix of the directory. Any other is put
/// behind the directory, with a separator where the directory does not end in
/// one; the current directory of a drive, such as `C:`, takes none.
pub open spec fn joined(dir: Seq<char>, name: Seq<char>) -> Seq<char> {
    if prefix_len(name) > 0 {
        name
    } else if is_verbatim(dir) && name.len() > 0 {
        joined_verbatim(dir, name)
    } else if has_root(name) {
        dir.take(prefix_len(dir)) + name
    } else if dir.len() == 0 || is_separator(dir.last()) || (dir.len() == 2 && begins_with_drive(
        dir,
    )) {
        dir + name
    } else {
        dir + "\\"@ + name
    }
}

/// Whether a character separates the parts of a path.
fn separates(c: char) -> (separator: bool)
    ensures
        separator == is_separator(c),
{
    c == '/' || c == '\\'
}

/// Whether a character separates the parts of a path, which may be verbatim.
fn cuts(verbatim: bool, c: char) -> (separator: bool)
    ensures
        separator == divides(verbatim, c),
{
    c == '\\' || (!verbatim && c == '/')
}

/// Whether a text begins with a drive from `from` on.
fn has_drive(chars: &Vec<char>, from: usize) -> (drive: bool)
    requires
        from <= chars@.len(),
    ensures
        drive == begins_with_drive(chars@.skip(from as int)),
{
    chars.len() - from >= 2 && chars[from + 1] == ':' && (('a' <= chars[from] && chars[from]
        <= 'z') || ('A' <= chars[from] && chars[from] <= 'Z'))
}

/// Whether a path is verbatim.
fn has_verbatim(chars: &Vec<char>) -> (verbatim: bool)
    ensures
        verbatim == is_verbatim(chars@),
{
    chars.len() >= 4 && chars[0] == '\\' && chars[1] == '\\' && chars[2] == '?' && chars[3]
        == '\\'
}

/// A separator that is looked for from a position on is not found before it, nor
/// behind the end.
pub proof fn until_separator_advances(path: Seq<char>, verbatim: bool, from: int)
    ensures
        from <= until_separator(path, verbatim, from),
        from <= path.len() ==> until_separator(path, verbatim, from) <= path.len(),
    decreases path.len() - from,
{
    if from < path.len() && !divides(verbatim, path[from]) {
        until_separator_advances(path, verbatim, from + 1);
    }
}

proof fn lemma_until_separator(path: Seq<char>, verbatim: bool, from: int)
    requires
        0 <= from <= path.len(),
    ensures
        from <= until_separator(path, verbatim, from) <= path.len(),
        until_separator(path, verbatim, from) < path.len() ==> divides(
            verbatim,
            path[until_separator(path, verbatim, from)],
        ),
        forall|i: int|
            from <= i < until_separator(path, verbatim, from) ==> !divides(
                verbatim,
                #[trigger] path[i],
            ),
    decreases path.len() - from,
{
    if from < path.len() && !divides(verbatim, path[from]) {
        lemma_until_separator(path, verbatim, from + 1);
    }
}

proof fn lemma_prefix_len(path: Seq<char>)
    ensures
        0 <= prefix_len(path) <= path.len(),
{
    let verbatim = is_verbatim(path);
    let from: int = if is_verbatim_share(path) {
        8
    } else if verbatim || is_device(path) {
        4
    } else {
        2
    };
    if path.len() >= from {
        lemma_until_separator(path, verbatim, from);
        let server = until_separator(path, verbatim, from);
        if server < path.len() {
            lemma_until_separator(path, verbatim, server + 1);
        }
    }
}

/// Where the first separator at `from` or later stands.
fn separator_from(chars: &Vec<char>, verbatim: bool, from: usize) -> (at: usize)
    requires
        from <= chars@.len(),
    ensures
        at == until_separator(chars@, verbatim, from as int),
        from <= at <= chars@.len(),
{
    let mut at: usize = from;
    while at < chars.len() && !cuts(verbatim, chars[at])
        invariant
            from <= at <= chars@.len(),
            until_separator(chars@, verbatim, from as int) == until_separator(
                chars@,
                verbatim,
                at as int,
            ),
        decreases chars@.len() - at,
    {
        at += 1;
    }
    at
}

/// The length of the prefix of a path.
fn prefix_of(chars: &Vec<char>) -> (len: usize)
    ensures
        len == prefix_len(chars@),
        len <= chars@.len(),
{
    assert(chars@.skip(0) =~= chars@);
    if has_drive(chars, 0) {
        return 2;
    }
    if chars.len() < 2 || !separates(chars[0]) || !separates(chars[1]) {
        return 0;
    }
    if has_verbatim(chars) {
        if chars.len() >= 8 && chars[4] == 'U' && chars[5] == 'N' && chars[6] == 'C' && separates(
            chars[7],
        ) {
            let server: usize = separator_from(chars, true, 8);
            if server == chars.len() {
                return server;
            }
            let share: usize = separator_from(chars, true, server + 1);
            return if share > server + 1 {
                share
            } else {
                server
            };
        }
        if has_drive(chars, 4) && (chars.len() == 6 || separates(chars[6])) {
            return 6;
        }
        return separator_from(chars, true, 4);
    }
    if chars.len() >= 4 && chars[2] == '.' && separates(chars[3]) {
        return separator_from(chars, false, 4);
    }
    let server: usize = separator_from(chars, false, 2);
    if server == 2 || server == chars.len() {
        return 0;
    }
    let share: usize = separator_from(chars, false, server + 1);
    if share > server + 1 {
        share
    } else {
        0
    }
}

/// The components of a verbatim path from `from` on.
fn parts_from(chars: &Vec<char>, from: usize) -> (parts: Vec<String>)
    ensures
        parts.deep_view() == gathered(Seq::empty(), chars@, from as int),
{
    let mut parts: Vec<String> = Vec::new();
    let mut at: usize = from;
    assert(parts.deep_view() =~= Seq::<Seq<char>>::empty());
    while at < chars.len()
        invariant
            gathered(Seq::empty(), chars@, from as int) == gathered(
                parts.deep_view(),
                chars@,
                at as int,
            ),
        decreases chars@.len() - at,
    {
        let end: usize = separator_from(chars, true, at);
        if end > at {
            let part = string_between(chars, at, end);
            push_text(&mut parts, part.as_str());
        }
        if end == chars.len() {
            assert(gathered(parts.deep_view(), chars@, end + 1) == parts.deep_view());
            return parts;
        }
        at = end + 1;
    }
    parts
}

/// Whether a component is made of dots that lead elsewhere.
fn is_dots(part: &str) -> (dots: bool)
    ensures
        dots == (part@ == seq!['.'] || part@ == seq!['.', '.']),
{
    let chars = chars_of(part);
    assert(chars@ == seq!['.'] <==> chars@.len() == 1 && chars@[0] == '.') by {
        if chars@.len() == 1 && chars@[0] == '.' {
            assert(chars@ =~= seq!['.']);
        }
    }
    assert(chars@ == seq!['.', '.'] <==> chars@.len() == 2 && chars@[0] == '.' && chars@[1] == '.')
        by {
        if chars@.len() == 2 && chars@[0] == '.' && chars@[1] == '.' {
            assert(chars@ =~= seq!['.', '.']);
        }
    }
    (chars.len() == 1 && chars[0] == '.') || (chars.len() == 2 && chars[0] == '.' && chars[1]
        == '.')
}

/// Follows one component.
fn follow(parts: &mut Vec<String>, part: &str)
    ensures
        final(parts).deep_view() == led_by(old(parts).deep_view(), part@),
{
    let ghost before = parts.deep_view();
    let len: usize = part.unicode_len();
    if len == 0 {
        return;
    }
    if !is_dots(part) {
        push_text(parts, part);
        return;
    }
    if len == 2 && parts.len() > 0 && !is_dots(parts[parts.len() - 1].as_str()) {
        let _ = parts.pop();
        assert(parts.deep_view() =~= before.drop_last());
    }
}

/// Follows the components of a name.
fn follow_all(parts: &mut Vec<String>, chars: &Vec<char>)
    ensures
        final(parts).deep_view() == followed(old(parts).deep_view(), chars@, 0),
{
    let ghost start = parts.deep_view();
    let mut at: usize = 0;
    while at < chars.len()
        invariant
            start == old(parts).deep_view(),
            followed(start, chars@, 0) == followed(parts.deep_view(), chars@, at as int),
        decreases chars@.len() - at,
    {
        let end: usize = separator_from(chars, false, at);
        let part = string_between(chars, at, end);
        follow(parts, part.as_str());
        if end == chars.len() {
            assert(followed(parts.deep_view(), chars@, end + 1) == parts.deep_view());
            return;
        }
        at = end + 1;
    }
}

/// Appends the components of a path.
fn append_parts(path: &mut String, parts: &Vec<String>)
    ensures
        final(path)@ == old(path)@ + written(parts.deep_view()),
{
    let ghost before = path@;
    let ghost all = parts.deep_view();
    let mut i: usize = 0;
    assert(path@ =~= before + written(all.take(0)));
    while i < parts.len()
        invariant
            i <= parts@.len(),
            all == parts.deep_view(),
            path@ == before + written(all.take(i as int)),
        decreases parts@.len() - i,
    {
        path.push('\\');
        path.append(parts[i].as_str());
        i += 1;
        assert(all.take(i as int).drop_last() =~= all.take(i - 1));
        assert(all.take(i as int).last() == parts@[i - 1]@);
        assert(path@ =~= before + written(all.take(i as int)));
    }
    assert(all.take(i as int) =~= all);
}

/// What a verbatim directory and a name without a prefix make together.
fn join_verbatim(dir: &Vec<char>, name: &Vec<char>) -> (path: String)
    requires
        name@.len() > 0,
        prefix_len(name@) == 0,
    ensures
        path@ == joined_verbatim(dir@, name@),
{
    let prefix: usize = prefix_of(dir);
    let rooted: bool = separates(name[0]);
    let mut parts: Vec<String> = if rooted || prefix == dir.len() {
        Vec::new()
    } else {
        parts_from(dir, prefix + 1)
    };
    assert(rooted || prefix == dir@.len() ==> parts.deep_view() =~= Seq::<Seq<char>>::empty());
    follow_all(&mut parts, name);
    let mut path = string_between(dir, 0, prefix);
    assert(path@ =~= dir@.take(prefix as int));
    if parts.len() == 0 && (rooted || (prefix < dir.len() && separates(dir[prefix]))) {
        path.push('\\');
        assert(path@ =~= dir@.take(prefix as int) + seq!['\\']);
    } else {
        append_parts(&mut path, &parts);
    }
    path
}

/// What a directory and a name make together.
pub fn join_path(dir: &str, name: &str) -> (path: String)
    ensures
        path@ == joined(dir@, name@),
{
    let name_chars = chars_of(name);
    if prefix_of(&name_chars) > 0 {
        return name.to_owned();
    }
    let chars = chars_of(dir);
    if has_verbatim(&chars) && name_chars.len() > 0 {
        return join_verbatim(&chars, &name_chars);
    }
    if name_chars.len() > 0 && separates(name_chars[0]) {
        let prefix: usize = prefix_of(&chars);
        let mut path = string_between(&chars, 0, prefix);
        assert(path@ =~= dir@.take(prefix as int));
        path.append(name);
        return path;
    }
    let len: usize = chars.len();
    assert(chars@.skip(0) =~= chars@);
    let complete: bool = len == 0 || separates(chars[len - 1]) || (len == 2 && has_drive(
        &chars,
        0,
    ));
    let mut path = dir.to_owned();
    if !complete {
        path.append("\\");
    }
    path.append(name);
    path
}

/// Whether the first component of a path is the current directory.
pub open spec fn starts_here(path: Seq<char>) -> bool {
    let p = prefix_len(path);
    &&& p < path.len() && path[p] == '.'
    &&& p + 1 == path.len() || is_separator(path[p + 1])
}

/// The length of what stands before the components that can be taken away from
/// the end of a path: its prefix, and the root or the current directory.
pub open spec fn fixed_len(path: Seq<char>) -> int {
    if has_root(path) || starts_here(path) {
        prefix_len(path) + 1
    } else {
        prefix_len(path)
    }
}

/// Where the component starts that ends at `end`: behind the last separator from
/// `from` on, or at `from`.
pub open spec fn component_start(path: Seq<char>, from: int, end: int) -> int
    decreases end - from,
{
    if end <= from {
        from
    } else if divides(is_verbatim(path), path[end - 1]) {
        end
    } else {
        component_start(path, from, end - 1)
    }
}

/// Whether there is no component from `start` to `end`: nothing, or a dot in a
/// path that is not verbatim.
pub open spec fn is_void(path: Seq<char>, start: int, end: int) -> bool {
    start == end || (start + 1 == end && path[start] == '.' && !is_verbatim(path))
}

/// Where a component ends that starts at `start`, with the separator that stands
/// before it taken away.
pub open spec fn before_component(from: int, start: int) -> int {
    if start > from {
        start - 1
    } else {
        from
    }
}

/// Where the last component before `end` ends, at `from` where there is none.
pub open spec fn component_end(path: Seq<char>, from: int, end: int) -> int
    decreases end - from,
{
    if end <= from {
        from
    } else {
        let start = component_start(path, from, end);
        let rest = before_component(from, start);
        if is_void(path, start, end) && rest < end {
            component_end(path, from, rest)
        } else {
            end
        }
    }
}

/// The last component of a path: where it starts and where it ends.
pub open spec fn last_component(path: Seq<char>) -> Option<(int, int)> {
    let from = fixed_len(path);
    let end = component_end(path, from, path.len() as int);
    if end > from {
        Some((component_start(path, from, end), end))
    } else {
        None
    }
}

/// The name of the file at a path, empty where the path names no file, such as
/// one that ends in `..`.
pub open spec fn file_name(path: Seq<char>) -> Seq<char> {
    match last_component(path) {
        Some((start, end)) => {
            let name = path.subrange(start, end);
            if name == seq!['.'] || name == seq!['.', '.'] {
                Seq::empty()
            } else {
                name
            }
        },
        None => Seq::empty(),
    }
}

/// The directory that a path is in. A root or a prefix is in none.
pub open spec fn parent(path: Seq<char>) -> Option<Seq<char>> {
    let from = fixed_len(path);
    match last_component(path) {
        Some((start, _)) => Some(
            path.take(component_end(path, from, before_component(from, start))),
        ),
        None => if prefix_len(path) == 0 && starts_here(path) {
            Some(Seq::empty())
        } else {
            None
        },
    }
}

proof fn lemma_component_start(path: Seq<char>, from: int, end: int)
    requires
        0 <= from <= end <= path.len(),
    ensures
        from <= component_start(path, from, end) <= end,
        forall|i: int|
            component_start(path, from, end) <= i < end ==> !divides(
                is_verbatim(path),
                #[trigger] path[i],
            ),
    decreases end - from,
{
    if end > from && !divides(is_verbatim(path), path[end - 1]) {
        lemma_component_start(path, from, end - 1);
    }
}

/// Where the component starts that ends at `end`.
fn start_of_component(chars: &Vec<char>, from: usize, end: usize) -> (start: usize)
    requires
        from <= end <= chars@.len(),
    ensures
        start == component_start(chars@, from as int, end as int),
        from <= start <= end,
{
    let verbatim: bool = has_verbatim(chars);
    let mut start: usize = end;
    while start > from && !cuts(verbatim, chars[start - 1])
        invariant
            verbatim == is_verbatim(chars@),
            from <= start <= end <= chars@.len(),
            component_start(chars@, from as int, end as int) == component_start(
                chars@,
                from as int,
                start as int,
            ),
        decreases start,
    {
        start -= 1;
    }
    start
}

/// Where the last component before `end` ends.
fn end_of_component(chars: &Vec<char>, from: usize, end: usize) -> (last: usize)
    requires
        from <= end <= chars@.len(),
    ensures
        last == component_end(chars@, from as int, end as int),
        from <= last <= end,
{
    let verbatim: bool = has_verbatim(chars);
    let mut last: usize = end;
    while last > from
        invariant
            verbatim == is_verbatim(chars@),
            from <= last <= end <= chars@.len(),
            component_end(chars@, from as int, end as int) == component_end(
                chars@,
                from as int,
                last as int,
            ),
        decreases last,
    {
        let start: usize = start_of_component(chars, from, last);
        let void: bool = start == last || (start + 1 == last && chars[start] == '.' && !verbatim);
        if !void {
            return last;
        }
        let rest: usize = if start > from {
            start - 1
        } else {
            from
        };
        last = rest;
    }
    last
}

/// The length of what stands before the components of a path.
fn fixed_of(chars: &Vec<char>) -> (len: usize)
    ensures
        len == fixed_len(chars@),
        len <= chars@.len(),
{
    let prefix: usize = prefix_of(chars);
    if prefix == chars.len() {
        return prefix;
    }
    let root: bool = separates(chars[prefix]);
    let here: bool = chars[prefix] == '.' && (chars.len() - prefix == 1 || separates(
        chars[prefix + 1],
    ));
    if root || here {
        prefix + 1
    } else {
        prefix
    }
}

/// The directory that a path is in.
pub fn parent_of(path: &str) -> (dir: Option<String>)
    ensures
        dir.deep_view() == parent(path@),
{
    let chars = chars_of(path);
    let from: usize = fixed_of(&chars);
    let end: usize = end_of_component(&chars, from, chars.len());
    if end > from {
        let start: usize = start_of_component(&chars, from, end);
        let rest: usize = if start > from {
            start - 1
        } else {
            from
        };
        let last: usize = end_of_component(&chars, from, rest);
        assert(path@.subrange(0, last as int) =~= path@.take(last as int));
        return Some(string_between(&chars, 0, last));
    }
    if from == 1 && chars[0] == '.' {
        Some(String::new())
    } else {
        None
    }
}

/// The path of another file in the directory that a path is in.
pub fn parent_joined(old_path: &str, name: &str) -> (path: Option<String>)
    ensures
        path.deep_view() == match parent(old_path@) {
            Some(dir) => Some(joined(dir, name@)),
            None => None,
        },
{
    match parent_of(old_path) {
        Some(dir) => Some(join_path(dir.as_str(), name)),
        None => None,
    }
}

/// The name of the file at a path.
pub fn file_name_of(path: &str) -> (name: String)
    ensures
        name@ == file_name(path@),
{
    let chars = chars_of(path);
    let from: usize = fixed_of(&chars);
    let end: usize = end_of_component(&chars, from, chars.len());
    if end == from {
        return String::new();
    }
    let start: usize = start_of_component(&chars, from, end);
    let name = string_between(&chars, start, end);
    if is_dots(name.as_str()) {
        String::new()
    } else {
        name
    }
}

/// A file name has no separators of its path. So it has no backslash, and a slash
/// only where the path is verbatim.
pub proof fn file_names_have_no_separators(path: Seq<char>, i: int)
    requires
        0 <= i < file_name(path).len(),
    ensures
        !divides(is_verbatim(path), file_name(path)[i]),
{
    lemma_prefix_len(path);
    let from = fixed_len(path);
    lemma_component_end(path, from, path.len() as int);
    let end = component_end(path, from, path.len() as int);
    lemma_component_start(path, from, end);
}

proof fn lemma_component_end(path: Seq<char>, from: int, end: int)
    requires
        0 <= from <= end <= path.len(),
    ensures
        from <= component_end(path, from, end) <= end,
    decreases end - from,
{
    if end > from {
        lemma_component_start(path, from, end);
        let start = component_start(path, from, end);
        let rest = before_component(from, start);
        if is_void(path, start, end) && rest < end {
            lemma_component_end(path, from, rest);
        }
    }
}

/// Where the extension of a file name is split off: at the last dot among the
/// first `n` characters, if that is not the first character of the name.
pub open spec fn split_at(name: Seq<char>, n: nat) -> Option<int>
    decreases n,
{
    if n <= 1 {
        None
    } else if name[n - 1] == '.' {
        Some(n - 1)
    } else {
        split_at(name, (n - 1) as nat)
    }
}

/// The name of the file at a path without its extension.
pub open spec fn file_stem(path: Seq<char>) -> Seq<char> {
    let name = file_name(path);
    match split_at(name, name.len()) {
        Some(dot) => name.take(dot),
        None => name,
    }
}

/// The extension of the file at a path.
pub open spec fn file_extension(path: Seq<char>) -> Seq<char> {
    let name = file_name(path);
    match split_at(name, name.len()) {
        Some(dot) => name.skip(dot + 1),
        None => Seq::empty(),
    }
}

/// The stem and the extension of the file at a path.
pub fn split_file_name(path: &str) -> (parts: (String, String))
    ensures
        parts.0@ == file_stem(path@),
        parts.1@ == file_extension(path@),
{
    let name = file_name_of(path);
    let chars = chars_of(name.as_str());
    let mut n: usize = chars.len();
    while n > 1 && chars[n - 1] != '.'
        invariant
            chars@ == name@,
            n <= chars@.len(),
            split_at(name@, name@.len()) == split_at(name@, n as nat),
        decreases n,
    {
        n -= 1;
    }
    if n <= 1 {
        (name, String::new())
    } else {
        let stem = string_between(&chars, 0, n - 1);
        let ext = string_between(&chars, n, chars.len());
        assert(stem@ =~= name@.take(n - 1));
        assert(ext@ =~= name@.skip(n as int));
        (stem, ext)
    }
}

proof fn lemma_until_in_sum(p: Seq<char>, q: Seq<char>, from: int)
    requires
        0 <= from <= p.len(),
    ensures
        until_separator(p + q, false, from) == if until_separator(p, false, from) < p.len() {
            until_separator(p, false, from)
        } else {
            p.len() + until_separator(q, false, 0)
        },
    decreases p.len() - from,
{
    if from == p.len() {
        lemma_until_behind(p, q, 0);
    } else {
        assert((p + q)[from] == p[from]);
        if !is_separator(p[from]) {
            lemma_until_in_sum(p, q, from + 1);
        }
    }
}

proof fn lemma_until_behind(p: Seq<char>, q: Seq<char>, j: int)
    requires
        0 <= j,
    ensures
        until_separator(p + q, false, p.len() + j) == p.len() + until_separator(q, false, j),
    decreases q.len() - j,
{
    if j < q.len() {
        assert((p + q)[p.len() + j] == q[j]);
        if !is_separator(q[j]) {
            lemma_until_behind(p, q, j + 1);
        }
    }
}

proof fn lemma_followed_behind(parts: Seq<Seq<char>>, p: Seq<char>, q: Seq<char>, j: int)
    requires
        0 <= j,
    ensures
        followed(parts, p + q, p.len() + j) == followed(parts, q, j),
    decreases q.len() + 1 - j,
{
    if j < q.len() {
        lemma_until_behind(p, q, j);
        lemma_until_separator(q, false, j);
        let end = until_separator(q, false, j);
        assert((p + q).subrange(p.len() + j, p.len() + end) =~= q.subrange(j, end));
        lemma_followed_behind(led_by(parts, q.subrange(j, end)), p, q, end + 1);
    }
}

proof fn lemma_followed_without_dots(parts: Seq<Seq<char>>, name: Seq<char>, from: int)
    requires
        0 <= from,
        forall|i: int| from <= i < name.len() ==> #[trigger] name[i] != '.',
    ensures
        followed(parts, name, from) == parts + followed(Seq::empty(), name, from),
    decreases name.len() + 1 - from,
{
    if from < name.len() {
        lemma_until_separator(name, false, from);
        let end = until_separator(name, false, from);
        let part = name.subrange(from, end);
        if part.len() > 0 {
            assert(part[0] == name[from]);
            assert(seq!['.'][0] == '.' && seq!['.', '.'][0] == '.');
        }
        let next = led_by(parts, part);
        let first = led_by(Seq::empty(), part);
        lemma_followed_without_dots(next, name, end + 1);
        lemma_followed_without_dots(first, name, end + 1);
        assert(next =~= parts + first);
        assert(next + followed(Seq::empty(), name, end + 1) =~= parts + (first + followed(
            Seq::empty(),
            name,
            end + 1,
        )));
    } else {
        assert(parts + Seq::<Seq<char>>::empty() =~= parts);
    }
}

/// Where the components of `front` lead but for the last, and the last.
spec fn led_before(parts: Seq<Seq<char>>, front: Seq<char>, from: int) -> (
    Seq<Seq<char>>,
    Seq<char>,
)
    decreases front.len() + 1 - from,
{
    let end = until_separator(front, false, from);
    proof {
        until_separator_advances(front, false, from);
    }
    if from >= front.len() || end >= front.len() {
        (parts, front.subrange(from, front.len() as int))
    } else {
        led_before(led_by(parts, front.subrange(from, end)), front, end + 1)
    }
}

/// Whether a text can stand around a number in the name of a file: the number is
/// in brackets, and no dot follows that of the extension.
pub open spec fn is_around_number(front: Seq<char>, back: Seq<char>) -> bool {
    &&& front.len() >= 2 && front.last() == '('
    &&& back.len() >= 1 && back[0] == ')'
    &&& back.len() >= 2 ==> back[1] == '.'
    &&& forall|i: int| 2 <= i < back.len() ==> #[trigger] back[i] != '.'
}

/// Whether a text has no separators.
spec fn is_undivided(text: Seq<char>) -> bool {
    forall|i: int| 0 <= i < text.len() ==> !is_separator(#[trigger] text[i])
}

proof fn lemma_until_around(front: Seq<char>, a: Seq<char>, back: Seq<char>, from: int)
    requires
        is_undivided(a),
        0 <= from <= front.len(),
    ensures
        until_separator(front + (a + back), false, from) == if until_separator(front, false, from)
            < front.len() {
            until_separator(front, false, from)
        } else {
            front.len() + a.len() + until_separator(back, false, 0)
        },
{
    lemma_until_separator(a, false, 0);
    lemma_until_in_sum(a, back, 0);
    lemma_until_in_sum(front, a + back, from);
}

proof fn lemma_followed_around(
    parts: Seq<Seq<char>>,
    front: Seq<char>,
    a: Seq<char>,
    back: Seq<char>,
    from: int,
)
    requires
        is_around_number(front, back),
        is_undivided(a),
        0 <= from < front.len(),
    ensures
        ({
            let k = until_separator(back, false, 0);
            let (before, first) = led_before(parts, front, from);
            followed(parts, front + (a + back), from) == before.push(first + a + back.take(k))
                + followed(Seq::empty(), back, k + 1)
        }),
    decreases front.len() - from,
{
    let text = front + (a + back);
    let k = until_separator(back, false, 0);
    let e = until_separator(front, false, from);
    lemma_until_separator(front, false, from);
    lemma_until_separator(back, false, 0);
    lemma_until_around(front, a, back, from);
    let end = until_separator(text, false, from);
    let part = text.subrange(from, end);
    if e < front.len() {
        assert(front[e] != '(');
        assert(part =~= front.subrange(from, e));
        lemma_followed_around(led_by(parts, part), front, a, back, e + 1);
    } else {
        let first = front.subrange(from, front.len() as int);
        assert(part =~= first + a + back.take(k));
        assert(part[front.len() - 1 - from] == '(');
        assert(part != seq!['.']) by {
            assert(seq!['.'].len() == 1 && seq!['.'][0] == '.');
        }
        assert(part != seq!['.', '.']) by {
            assert(forall|i: int| 0 <= i < 2 ==> seq!['.', '.'][i] == '.');
        }
        let next = parts.push(part);
        assert((front + a) + back =~= text);
        lemma_followed_behind(next, front + a, back, k + 1);
        assert(k >= 1);
        assert(back.len() >= 2 ==> k >= 2);
        lemma_followed_without_dots(next, back, k + 1);
    }
}

proof fn lemma_written_sum(a: Seq<Seq<char>>, b: Seq<Seq<char>>)
    ensures
        written(a + b) == written(a) + written(b),
    decreases b.len(),
{
    if b.len() == 0 {
        assert(a + b =~= a);
        assert(written(a) + written(b) =~= written(a));
    } else {
        lemma_written_sum(a, b.drop_last());
        assert((a + b).drop_last() =~= a + b.drop_last());
        assert(written(a + b) =~= written(a) + written(b));
    }
}

proof fn lemma_prefix_around(front: Seq<char>, a: Seq<char>, b: Seq<char>, back: Seq<char>)
    requires
        is_around_number(front, back),
        is_undivided(a),
        is_undivided(b),
    ensures
        prefix_len(front + (a + back)) > 0 <==> prefix_len(front + (b + back)) > 0,
{
    let x = front + (a + back);
    let y = front + (b + back);
    assert(forall|i: int| 0 <= i < front.len() ==> x[i] == front[i] && y[i] == front[i]);
    assert(x[front.len() - 1] == '(' && y[front.len() - 1] == '(');
    until_separator_advances(x, true, 4);
    until_separator_advances(y, true, 4);
    until_separator_advances(x, true, 8);
    until_separator_advances(y, true, 8);
    until_separator_advances(x, false, 4);
    until_separator_advances(y, false, 4);
    until_separator_advances(x, true, until_separator(x, true, 8) + 1);
    until_separator_advances(y, true, until_separator(y, true, 8) + 1);
    if is_separator(front[0]) && is_separator(front[1]) {
        assert(front.len() >= 3);
        assert(is_verbatim(x) == is_verbatim(y)) by {
            assert(front.len() == 3 ==> x[2] == '(' && y[2] == '(');
        }
        assert(is_device(x) == is_device(y)) by {
            assert(front.len() == 3 ==> x[2] == '(' && y[2] == '(');
        }
        let s = until_separator(front, false, 2);
        let k = until_separator(back, false, 0);
        lemma_until_separator(front, false, 2);
        lemma_until_separator(back, false, 0);
        lemma_until_around(front, a, back, 2);
        lemma_until_around(front, b, back, 2);
        if s < front.len() {
            assert(front[s] != '(');
            lemma_until_around(front, a, back, s + 1);
            lemma_until_around(front, b, back, s + 1);
            lemma_until_separator(front, false, s + 1);
        } else {
            assert((front + a) + back =~= x);
            assert((front + b) + back =~= y);
            lemma_until_behind(front + a, back, k + 1);
            lemma_until_behind(front + b, back, k + 1);
        }
    }
}

proof fn lemma_same_middle(front: Seq<char>, a: Seq<char>, b: Seq<char>, back: Seq<char>)
    requires
        front + a + back == front + b + back,
    ensures
        a == b,
{
    assert((front + a + back).len() == front.len() + a.len() + back.len());
    assert((front + b + back).len() == front.len() + b.len() + back.len());
    assert forall|i: int| 0 <= i < a.len() implies a[i] == b[i] by {
        assert((front + a + back)[front.len() + i] == a[i]);
        assert((front + b + back)[front.len() + i] == b[i]);
    }
    assert(a =~= b);
}

/// Names that differ in a number in brackets, behind which at most an extension
/// follows, make different paths in every directory.
pub proof fn numbers_keep_paths_apart(
    dir: Seq<char>,
    front: Seq<char>,
    a: Seq<char>,
    b: Seq<char>,
    back: Seq<char>,
)
    requires
        is_around_number(front, back),
        forall|i: int| 0 <= i < a.len() ==> !is_separator(#[trigger] a[i]),
        forall|i: int| 0 <= i < b.len() ==> !is_separator(#[trigger] b[i]),
        joined(dir, front + a + back) == joined(dir, front + b + back),
    ensures
        a == b,
{
    let x = front + a + back;
    let y = front + b + back;
    assert(x =~= front + (a + back));
    assert(y =~= front + (b + back));
    lemma_prefix_around(front, a, b, back);
    lemma_prefix_len(x);
    lemma_prefix_len(y);
    assert(x[0] == front[0] && y[0] == front[0]);
    if prefix_len(x) > 0 {
        lemma_same_middle(front, a, b, back);
    } else if is_verbatim(dir) {
        let start = if has_root(x) {
            Seq::empty()
        } else {
            gathered(Seq::empty(), dir, prefix_len(dir) + 1)
        };
        let k = until_separator(back, false, 0);
        let (before, first) = led_before(start, front, 0);
        let rest = followed(Seq::empty(), back, k + 1);
        let ahead = dir.take(prefix_len(dir)) + written(before) + seq!['\\'] + first;
        let behind = back.take(k) + written(rest);
        assert forall|c: Seq<char>| is_undivided(c) implies dir.take(prefix_len(dir)) + written(
            #[trigger] followed(start, front + (c + back), 0),
        ) == ahead + c + behind && followed(start, front + (c + back), 0).len() > 0 by {
            lemma_followed_around(start, front, c, back, 0);
            let named = before.push(first + c + back.take(k));
            lemma_written_sum(named, rest);
            assert(named.drop_last() =~= before);
            assert(dir.take(prefix_len(dir)) + written(named + rest) =~= ahead + c + behind);
        }
        assert(joined(dir, x) == ahead + a + behind);
        assert(joined(dir, y) == ahead + b + behind);
        lemma_same_middle(ahead, a, b, behind);
    } else {
        let sep = "\\"@;
        if has_root(x) {
            assert(joined(dir, x) =~= (dir.take(prefix_len(dir)) + front) + a + back);
            assert(joined(dir, y) =~= (dir.take(prefix_len(dir)) + front) + b + back);
            lemma_same_middle(dir.take(prefix_len(dir)) + front, a, b, back);
        } else if joined(dir, x) == dir + x {
            assert(joined(dir, x) =~= (dir + front) + a + back);
            assert(joined(dir, y) =~= (dir + front) + b + back);
            lemma_same_middle(dir + front, a, b, back);
        } else {
            assert(joined(dir, x) =~= (dir + sep + front) + a + back);
            assert(joined(dir, y) =~= (dir + sep + front) + b + back);
            lemma_same_middle(dir + sep + front, a, b, back);
        }
    }
}

/// A separator is found where the first one from a position on stands.
pub proof fn the_first_separator_is_found(path: Seq<char>, from: int, at: int)
    requires
        0 <= from <= at <= path.len(),
        forall|i: int| from <= i < at ==> #[trigger] path[i] != '/' && path[i] != '\\',
        at < path.len() ==> path[at] == '/' || path[at] == '\\',
    ensures
        until_separator(path, false, from) == at,
        until_separator(path, true, from) >= at,
        at < path.len() && path[at] == '\\' ==> until_separator(path, true, from) == at,
    decreases at - from,
{
    if from < at {
        the_first_separator_is_found(path, from + 1, at);
    } else {
        until_separator_advances(path, true, from);
    }
}

/// The name of a file is its stem and its extension, with the last dot between them.
/// A name with no dot but at its beginning is all stem.
pub proof fn names_are_made_of_stem_and_extension(path: Seq<char>)
    ensures
        ({
            let name = file_name(path);
            let stem = file_stem(path);
            let ext = file_extension(path);
            ||| {
                &&& name == stem + seq!['.'] + ext
                &&& stem.len() > 0
                &&& forall|i: int| 0 <= i < ext.len() ==> #[trigger] ext[i] != '.'
            }
            ||| {
                &&& name == stem
                &&& ext.len() == 0
                &&& forall|i: int| 1 <= i < name.len() ==> #[trigger] name[i] != '.'
            }
        }),
{
    let name = file_name(path);
    lemma_split_at_last_dot(name, name.len());
    if let Some(dot) = split_at(name, name.len()) {
        assert(name =~= name.take(dot) + seq!['.'] + name.skip(dot + 1));
        let ext = name.skip(dot + 1);
        assert forall|i: int| 0 <= i < ext.len() implies #[trigger] ext[i] != '.' by {
            assert(ext[i] == name[dot + 1 + i]);
        }
    }
}

proof fn lemma_split_at_last_dot(name: Seq<char>, n: nat)
    requires
        n <= name.len(),
    ensures
        match split_at(name, n) {
            Some(dot) => {
                &&& 0 < dot < n
                &&& name[dot] == '.'
                &&& forall|i: int| dot < i < n ==> #[trigger] name[i] != '.'
            },
            None => forall|i: int| 1 <= i < n ==> #[trigger] name[i] != '.',
        },
    decreases n,
{
    if n > 1 && name[n - 1] != '.' {
        lemma_split_at_last_dot(name, (n - 1) as nat);
    }
}

/// Whether a text can name a file in a directory: it is no dots that lead elsewhere,
/// and has no separator and no colon.
pub open spec fn is_plain(name: Seq<char>) -> bool {
    &&& name.len() > 0
    &&& name != seq!['.'] && name != seq!['.', '.']
    &&& forall|i: int|
        0 <= i < name.len() ==> #[trigger] name[i] != '/' && name[i] != '\\' && name[i] != ':'
}

proof fn lemma_plain_has_no_prefix(name: Seq<char>)
    requires
        is_plain(name),
    ensures
        prefix_len(name) == 0,
        !has_root(name),
{
    assert(name[0] != '/' && name[0] != '\\');
    if name.len() >= 2 {
        assert(name[1] != ':');
    }
}

/// A file in a directory is put behind it, and behind one separator: the one that
/// the directory ends in, or else a backslash. The current directory of a drive, and
/// no directory, need none.
pub proof fn files_are_put_behind_their_directory(dir: Seq<char>, name: Seq<char>)
    requires
        is_plain(name),
        !is_verbatim(dir),
    ensures
        joined(dir, name) == if dir.len() == 0 || dir.last() == '/' || dir.last() == '\\' || (
        dir.len() == 2 && begins_with_drive(dir)) {
            dir + name
        } else {
            dir + seq!['\\'] + name
        },
{
    lemma_plain_has_no_prefix(name);
    reveal_strlit("\\");
    assert("\\"@ =~= seq!['\\']);
}

proof fn lemma_component_starts_at(path: Seq<char>, from: int, end: int, at: int)
    requires
        0 <= from <= at <= end <= path.len(),
        at == from || divides(is_verbatim(path), path[at - 1]),
        forall|i: int| at <= i < end ==> !divides(is_verbatim(path), #[trigger] path[i]),
    ensures
        component_start(path, from, end) == at,
    decreases end - at,
{
    if at < end {
        lemma_component_starts_at(path, from, end - 1, at);
    }
}

proof fn lemma_joined_parts(dir: Seq<char>, name: Seq<char>)
    requires
        is_plain(name),
        dir.len() == 0 || (dir[0] != '/' && dir[0] != '\\'),
    ensures
        ({
            let path = joined(dir, name);
            let at = path.len() - name.len();
            &&& !is_verbatim(path)
            &&& path.skip(at) == name
            &&& dir.len() <= at <= dir.len() + 1
            &&& path.take(dir.len() as int) == dir
            &&& fixed_len(path) <= at
            &&& fixed_len(path) == at || is_separator(path[at - 1])
            &&& last_component(path) == Some((at, path.len() as int))
            &&& fixed_len(path) <= dir.len()
        }),
{
    let path = joined(dir, name);
    let at = path.len() - name.len();
    files_are_put_behind_their_directory(dir, name);
    assert(path.skip(at) =~= name);
    assert(path.take(dir.len() as int) =~= dir);
    assert(forall|i: int| 0 <= i < name.len() ==> path[at + i] == name[i]);
    assert(forall|i: int| 0 <= i < dir.len() ==> path[i] == dir[i]);
    assert(name[0] != '/' && name[0] != '\\');
    if name.len() >= 2 {
        assert(name[1] != ':');
    }
    assert(begins_with_drive(path) == begins_with_drive(dir));
    let prefix = prefix_len(path);
    assert(prefix == if begins_with_drive(dir) {
        2int
    } else {
        0int
    });
    let from = fixed_len(path);
    if from == at + 1 {
        assert(starts_here(path));
        assert(path[at] == '.');
        if name.len() == 1 {
            assert(name =~= seq!['.']);
        } else {
            assert(path[at + 1] == name[1]);
        }
    }
    assert(from <= at);
    assert forall|i: int| at <= i < path.len() implies !divides(false, #[trigger] path[i]) by {
        assert(path[i] == name[i - at]);
    }
    if from < at && !is_separator(path[at - 1]) {
        assert(at == dir.len());
        assert(dir.last() == path[at - 1]);
    }
    lemma_component_starts_at(path, from, path.len() as int, at);
    assert(name != seq!['.']);
    if name.len() == 1 && name[0] == '.' {
        assert(name =~= seq!['.']);
    }
    assert(!is_void(path, at, path.len() as int));
    if from == dir.len() + 1 {
        assert(at == dir.len() + 1);
        assert(path[dir.len() as int] == '\\');
    }
}

/// A file in a directory has the name that it was given there, whether the directory
/// is on a drive or below the current one.
pub proof fn files_keep_their_name_in_a_directory(dir: Seq<char>, name: Seq<char>)
    requires
        is_plain(name),
        dir.len() == 0 || (dir[0] != '/' && dir[0] != '\\'),
    ensures
        file_name(joined(dir, name)) == name,
{
    lemma_joined_parts(dir, name);
    let path = joined(dir, name);
    let at = path.len() - name.len();
    assert(path.subrange(at, path.len() as int) =~= path.skip(at));
}

/// A file in a directory is in that directory, if it is written without a separator
/// or a dot at its end.
pub proof fn files_are_in_their_directory(dir: Seq<char>, name: Seq<char>)
    requires
        is_plain(name),
        dir.len() > 0,
        dir[0] != '/' && dir[0] != '\\',
        dir.last() != '/' && dir.last() != '\\' && dir.last() != '.',
    ensures
        parent(joined(dir, name)) == Some(dir),
{
    lemma_joined_parts(dir, name);
    let path = joined(dir, name);
    let from = fixed_len(path);
    let at = path.len() - name.len();
    let rest = before_component(from, at);
    assert(path[dir.len() - 1] == dir.last());
    if rest > from {
        assert(rest == dir.len());
        lemma_component_start(path, from, rest);
        let start = component_start(path, from, rest);
        assert(!divides(false, path[rest - 1]));
        lemma_component_start(path, from, rest - 1);
        assert(start < rest);
        assert(!is_void(path, start, rest));
        assert(component_end(path, from, rest) == rest);
    } else {
        assert(rest == from);
        assert(from == dir.len());
    }
    assert(path.take(dir.len() as int) =~= dir);
}

/// Renaming a file leaves it where it is, and gives it the new name.
pub proof fn renamed_files_have_their_new_name(old_path: Seq<char>, name: Seq<char>)
    requires
        is_plain(name),
        parent(old_path) matches Some(dir) && (dir.len() == 0 || (dir[0] != '/' && dir[0] != '\\')),
    ensures
        file_name(joined(parent(old_path)->0, name)) == name,
{
    files_keep_their_name_in_a_directory(parent(old_path)->0, name);
}

/// A drive is the prefix of a path that begins with one, and a server and a share
/// are that of one that begins with both.
pub proof fn drives_and_shares_are_prefixes(
    letter: char,
    server: Seq<char>,
    share: Seq<char>,
    rest: Seq<char>,
)
    requires
        'a' <= letter <= 'z' || 'A' <= letter <= 'Z',
        is_plain(server),
        is_plain(share),
        server != seq!['?'],
        rest.len() > 0 ==> rest[0] == '\\',
    ensures
        prefix_len(seq![letter, ':'] + rest) == 2,
        prefix_len(seq!['\\', '\\'] + server + seq!['\\'] + share + rest) == 3 + server.len()
            + share.len(),
{
    let drive = seq![letter, ':'] + rest;
    assert(drive[0] == letter && drive[1] == ':');
    let path = seq!['\\', '\\'] + server + seq!['\\'] + share + rest;
    let s = 2 + server.len() as int;
    let e = s + 1 + share.len() as int;
    assert(path[0] == '\\' && path[1] == '\\' && path[s] == '\\');
    assert forall|i: int| 2 <= i < s implies #[trigger] path[i] != '/' && path[i] != '\\' by {
        assert(path[i] == server[i - 2]);
    }
    assert forall|i: int| s < i < e implies #[trigger] path[i] != '/' && path[i] != '\\' by {
        assert(path[i] == share[i - s - 1]);
    }
    if e < path.len() {
        assert(path[e] == rest[0]);
    }
    the_first_separator_is_found(path, 2, s);
    the_first_separator_is_found(path, s + 1, e);
    if is_verbatim(path) {
        assert(path[2] == server[0] && path[3] == '\\');
        assert(s == 3);
        assert(server =~= seq!['?']);
    }
    if is_device(path) {
        assert(path[2] == server[0]);
        assert(s == 3);
        assert(server =~= seq!['.']);
    }
}

/// A name that leads into a directory and two dots that lead out of it again lead
/// nowhere, and a dot never leads anywhere. Where there is no directory with a name
/// to leave, two dots lead nowhere either.
pub proof fn two_dots_lead_out_again(parts: Seq<Seq<char>>, name: Seq<char>)
    requires
        name.len() > 0,
        name != seq!['.'],
        name != seq!['.', '.'],
    ensures
        led_by(parts, name) == parts.push(name),
        led_by(led_by(parts, name), seq!['.', '.']) == parts,
        led_by(parts, seq!['.']) == parts,
        led_by(parts, Seq::empty()) == parts,
        led_by(Seq::empty(), seq!['.', '.']) == Seq::<Seq<char>>::empty(),
        led_by(parts.push(seq!['.']), seq!['.', '.']) == parts.push(seq!['.']),
        led_by(parts.push(seq!['.', '.']), seq!['.', '.']) == parts.push(seq!['.', '.']),
{
    assert(seq!['.'].len() == 1);
    assert(seq!['.', '.'].len() == 2);
    assert(parts.push(name).drop_last() =~= parts);
}

proof fn lemma_first_part_is_followed(parts: Seq<Seq<char>>, part: Seq<char>, c: char, rest: Seq<char>)
    requires
        forall|i: int| 0 <= i < part.len() ==> #[trigger] part[i] != '/' && part[i] != '\\',
        c == '/' || c == '\\',
    ensures
        followed(parts, part + seq![c] + rest, 0) == followed(led_by(parts, part), rest, 0),
        followed(parts, part, 0) == led_by(parts, part),
{
    let path = part + seq![c] + rest;
    let n = part.len() as int;
    assert(path[n] == c);
    assert forall|i: int| 0 <= i < n implies #[trigger] path[i] != '/' && path[i] != '\\' by {
        assert(path[i] == part[i]);
    }
    the_first_separator_is_found(path, 0, n);
    the_first_separator_is_found(part, 0, n);
    assert(path.subrange(0, n) =~= part);
    assert(part.subrange(0, n) =~= part);
    assert((part + seq![c]) + rest =~= path);
    lemma_followed_behind(led_by(parts, part), part + seq![c], rest, 0);
    if n > 0 {
        assert(followed(led_by(parts, part), part, n + 1) == led_by(parts, part));
    }
}

/// The components of a name are followed one after the other, whichever separator
/// stands between them.
pub proof fn components_are_followed_in_turn(
    parts: Seq<Seq<char>>,
    first: Seq<char>,
    c: char,
    rest: Seq<char>,
)
    requires
        forall|i: int| 0 <= i < first.len() ==> #[trigger] first[i] != '/' && first[i] != '\\',
        c == '/' || c == '\\',
    ensures
        followed(parts, first, 0) == led_by(parts, first),
        followed(parts, first + seq![c] + rest, 0) == followed(led_by(parts, first), rest, 0),
{
    lemma_first_part_is_followed(parts, first, c, rest);
}

proof fn lemma_gathered_is_written(parts: Seq<Seq<char>>, path: Seq<char>, from: int)
    requires
        0 < from < path.len(),
        path[from] != '\\',
        path.last() != '\\',
        forall|i: int|
            from <= i < path.len() - 1 && #[trigger] path[i] == '\\' ==> path[i + 1] != '\\',
    ensures
        written(gathered(parts, path, from)) == written(parts) + seq!['\\'] + path.skip(from),
    decreases path.len() - from,
{
    lemma_until_separator(path, true, from);
    let end = until_separator(path, true, from);
    let part = path.subrange(from, end);
    let next = parts.push(part);
    assert(next.drop_last() =~= parts);
    assert(end > from);
    if end < path.len() {
        assert(path[end] == '\\');
        lemma_gathered_is_written(next, path, end + 1);
        assert(path.skip(from) =~= part + seq!['\\'] + path.skip(end + 1));
        assert(written(gathered(parts, path, from)) =~= written(parts) + seq!['\\'] + path.skip(
            from,
        ));
    } else {
        assert(gathered(next, path, end + 1) == next);
        assert(path.skip(from) =~= part);
    }
}

/// A file in a verbatim directory is put behind it, and behind one backslash, where
/// the directory is written without needless ones.
pub proof fn files_are_put_behind_verbatim_directories(dir: Seq<char>, name: Seq<char>)
    requires
        is_plain(name),
        is_verbatim(dir),
        prefix_len(dir) + 1 < dir.len(),
        dir.last() != '\\',
        forall|i: int|
            prefix_len(dir) <= i < dir.len() - 1 && #[trigger] dir[i] == '\\' ==> dir[i + 1]
                != '\\',
        dir[prefix_len(dir)] == '\\',
    ensures
        joined(dir, name) == dir + seq!['\\'] + name,
{
    lemma_plain_has_no_prefix(name);
    lemma_prefix_len(dir);
    let prefix = prefix_len(dir);
    let start = gathered(Seq::empty(), dir, prefix + 1);
    lemma_gathered_is_written(Seq::empty(), dir, prefix + 1);
    lemma_first_part_is_followed(start, name, '/', Seq::empty());
    let parts = start.push(name);
    assert(followed(start, name, 0) == parts);
    assert(parts.drop_last() =~= start);
    assert(dir.take(prefix) + seq!['\\'] + dir.skip(prefix + 1) =~= dir);
    assert(joined(dir, name) =~= dir + seq!['\\'] + name);
}

/// A name with a drive is taken as it is, whatever the directory. One that begins
/// with a single separator takes the place of all but the prefix of a directory that
/// is not verbatim.
pub proof fn drives_and_roots_are_not_put_behind(
    dir: Seq<char>,
    letter: char,
    c: char,
    rest: Seq<char>,
)
    requires
        'a' <= letter <= 'z' || 'A' <= letter <= 'Z',
        c == '/' || c == '\\',
        rest.len() == 0 || (rest[0] != '/' && rest[0] != '\\' && rest[0] != ':'),
    ensures
        joined(dir, seq![letter, ':'] + rest) == seq![letter, ':'] + rest,
        !is_verbatim(dir) ==> joined(dir, seq![c] + rest) == dir.take(prefix_len(dir)) + (seq![c]
            + rest),
{
    let drive = seq![letter, ':'] + rest;
    assert(drive[0] == letter && drive[1] == ':');
    let rooted = seq![c] + rest;
    assert(rooted[0] == c);
    if rest.len() > 0 {
        assert(rooted[1] == rest[0]);
    }
    assert(prefix_len(rooted) == 0);
    assert(has_root(rooted));
}

/// Nothing is above a root, a drive or no path at all. A file that is named without
/// a directory is in the current one.
pub proof fn nothing_is_above_a_root(letter: char, c: char, name: Seq<char>)
    requires
        'a' <= letter <= 'z' || 'A' <= letter <= 'Z',
        c == '/' || c == '\\',
        is_plain(name),
    ensures
        parent(seq![c]) is None,
        parent(seq![letter, ':']) is None,
        parent(seq![letter, ':', c]) is None,
        parent(seq![letter, ':', '.']) is None,
        parent(Seq::empty()) is None,
        parent(name) == Some(Seq::<char>::empty()),
        parent(seq!['.']) == Some(Seq::<char>::empty()),
{
    let drive = seq![letter, ':'];
    let root = seq![letter, ':', c];
    let here = seq![letter, ':', '.'];
    assert(drive[0] == letter && drive[1] == ':');
    assert(root[0] == letter && root[1] == ':' && root[2] == c);
    assert(here[0] == letter && here[1] == ':' && here[2] == '.');
    assert(seq![c][0] == c);
    assert(seq!['.'][0] == '.');
    assert(prefix_len(seq![c]) == 0);
    lemma_joined_parts(Seq::empty(), name);
    files_are_put_behind_their_directory(Seq::empty(), name);
    assert(Seq::<char>::empty() + name =~= name);
    assert(fixed_len(name) == 0);
    assert(name.take(0) =~= Seq::empty());
}

/// The prefix of a verbatim path is a drive, or a server and a share behind `UNC`,
/// or else its first name; that of a path to a device is the name of the device.
pub proof fn verbatim_paths_have_prefixes(
    letter: char,
    server: Seq<char>,
    share: Seq<char>,
    device: Seq<char>,
    rest: Seq<char>,
)
    requires
        'a' <= letter <= 'z' || 'A' <= letter <= 'Z',
        is_plain(server),
        is_plain(share),
        is_plain(device),
        device != seq!['U', 'N', 'C'],
        rest.len() > 0 ==> rest[0] == '\\',
    ensures
        prefix_len(seq!['\\', '\\', '?', '\\', letter, ':'] + rest) == 6,
        prefix_len(
            seq!['\\', '\\', '?', '\\', 'U', 'N', 'C', '\\'] + server + seq!['\\'] + share + rest,
        ) == 9 + server.len() + share.len(),
        prefix_len(seq!['\\', '\\', '?', '\\'] + device + rest) == 4 + device.len(),
        prefix_len(seq!['\\', '\\', '.', '\\'] + device + rest) == 4 + device.len(),
        prefix_len(seq!['\\', '\\', '?', '\\']) == 4,
        prefix_len(seq!['\\', '\\', '.', '\\']) == 4,
{
    let drive = seq!['\\', '\\', '?', '\\', letter, ':'] + rest;
    assert(drive[0] == '\\' && drive[1] == '\\' && drive[2] == '?' && drive[3] == '\\' && drive[4]
        == letter && drive[5] == ':');
    assert(drive.skip(4)[0] == letter && drive.skip(4)[1] == ':');
    if rest.len() > 0 {
        assert(drive[6] == rest[0]);
    }
    let path = seq!['\\', '\\', '?', '\\', 'U', 'N', 'C', '\\'] + server + seq!['\\'] + share + rest;
    let s = 8 + server.len() as int;
    let e = s + 1 + share.len() as int;
    assert(path[0] == '\\' && path[1] == '\\' && path[2] == '?' && path[3] == '\\' && path[4] == 'U'
        && path[5] == 'N' && path[6] == 'C' && path[7] == '\\' && path[s] == '\\');
    assert forall|i: int| 8 <= i < s implies #[trigger] path[i] != '/' && path[i] != '\\' by {
        assert(path[i] == server[i - 8]);
    }
    assert forall|i: int| s < i < e implies #[trigger] path[i] != '/' && path[i] != '\\' by {
        assert(path[i] == share[i - s - 1]);
    }
    if e < path.len() {
        assert(path[e] == rest[0]);
    }
    the_first_separator_is_found(path, 8, s);
    the_first_separator_is_found(path, s + 1, e);
    until_separator_advances(path, true, s + 1);
    let named = seq!['\\', '\\', '?', '\\'] + device + rest;
    let other = seq!['\\', '\\', '.', '\\'] + device + rest;
    let d = 4 + device.len() as int;
    assert(named[0] == '\\' && named[1] == '\\' && named[2] == '?' && named[3] == '\\');
    assert(other[0] == '\\' && other[1] == '\\' && other[2] == '.' && other[3] == '\\');
    assert forall|i: int| 4 <= i < d implies #[trigger] named[i] != '/' && named[i] != '\\'
        && named[i] != ':' by {
        assert(named[i] == device[i - 4]);
    }
    assert forall|i: int| 4 <= i < d implies #[trigger] other[i] != '/' && other[i] != '\\' by {
        assert(other[i] == device[i - 4]);
    }
    if d < named.len() {
        assert(named[d] == rest[0] && other[d] == rest[0]);
    }
    the_first_separator_is_found(named, 4, d);
    the_first_separator_is_found(other, 4, d);
    until_separator_advances(named, true, 4);
    if is_verbatim_share(named) {
        if d > 7 {
            assert(named[7] != '\\');
        }
        assert(device.len() == 3) by {
            if device.len() < 3 {
                assert(named[d] == '\\');
            }
        }
        assert(device =~= seq!['U', 'N', 'C']) by {
            assert(named[4] == device[0] && named[5] == device[1] && named[6] == device[2]);
        }
    }
    if is_verbatim_drive(named) {
        assert(named.skip(4)[1] == named[5]);
        if d > 5 {
            assert(named[5] != ':');
        } else {
            assert(named[5] == rest[0]);
        }
    }
}

} // verus!
