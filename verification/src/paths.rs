//! File names and extensions in paths, by the rules of Unix and of Windows.

use crate::text::{chars_of, text_between};
use vstd::prelude::*;

verus! {

/// `std::path::MAIN_SEPARATOR`, the separator of the platform. What it is rests on the
/// machine.
#[verifier::external_body]
fn main_separator() -> (c: char) {
    std::path::MAIN_SEPARATOR
}

/// Whether paths here go by the rules of Windows. That rests on the machine.
pub(crate) fn is_windows() -> (windows: bool) {
    main_separator() == '\\'
}

pub open spec fn is_separator(c: char, windows: bool) -> bool {
    c == '/' || (windows && c == '\\')
}

pub open spec fn is_drive_letter(c: char) -> bool {
    ('a' <= c && c <= 'z') || ('A' <= c && c <= 'Z')
}

/// The first separator from `at` on, or the length of the path.
pub open spec fn next_separator(path: Seq<char>, at: int, windows: bool) -> int
    decreases path.len() - at,
{
    if at >= path.len() || is_separator(path[at], windows) {
        at
    } else {
        next_separator(path, at + 1, windows)
    }
}

/// How long the drive or the network share is that a path begins with.
pub open spec fn prefix_length(path: Seq<char>, windows: bool) -> int {
    if !windows || path.len() < 2 {
        0
    } else if is_drive_letter(path[0]) && path[1] == ':' {
        2
    } else if is_separator(path[0], windows) && is_separator(path[1], windows) {
        let server = next_separator(path, 2, windows);
        let share = next_separator(path, server + 1, windows);
        if 2 < server && server + 1 < share && share <= path.len() {
            share
        } else {
            0
        }
    } else {
        0
    }
}

/// Where the last component of a path begins that does not end in a separator.
pub open spec fn component_start(path: Seq<char>, windows: bool) -> nat
    decreases path.len(),
{
    if path.len() == 0 || is_separator(path.last(), windows) {
        path.len()
    } else {
        component_start(path.drop_last(), windows)
    }
}

/// The last component of a path without a prefix, if it names a file. Separators at the end
/// and components of one dot count for nothing, but for a leading one.
pub open spec fn last_name(path: Seq<char>, windows: bool) -> Option<Seq<char>>
    decreases path.len(),
{
    if path.len() == 0 {
        None
    } else if is_separator(path.last(), windows) {
        last_name(path.drop_last(), windows)
    } else {
        let start = component_start(path, windows) as int;
        let name = path.skip(start);
        if !(0 <= start < path.len()) {
            None
        } else if name == seq!['.'] {
            if start == 0 {
                None
            } else {
                last_name(path.take(start), windows)
            }
        } else if name == seq!['.', '.'] {
            None
        } else {
            Some(name)
        }
    }
}

/// The file that a path names, if it names one.
pub open spec fn file_name_in(path: Seq<char>, windows: bool) -> Option<Seq<char>> {
    last_name(path.skip(prefix_length(path, windows)), windows)
}

/// The position of the last dot, -1 where there is none.
pub open spec fn last_dot(name: Seq<char>) -> int
    decreases name.len(),
{
    if name.len() == 0 || name.last() == '.' {
        name.len() - 1
    } else {
        last_dot(name.drop_last())
    }
}

/// What follows the last dot of a file's name, unless the name begins with it.
pub open spec fn name_extension(name: Seq<char>) -> Option<Seq<char>> {
    if last_dot(name) > 0 {
        Some(name.skip(last_dot(name) + 1))
    } else {
        None
    }
}

/// The extension of the file that a path names.
pub open spec fn extension_in(path: Seq<char>, windows: bool) -> Option<Seq<char>> {
    match file_name_in(path, windows) {
        Some(name) => name_extension(name),
        None => None,
    }
}

pub open spec fn optional_text(text: Option<String>) -> Option<Seq<char>> {
    match text {
        Some(t) => Some(t@),
        None => None,
    }
}

fn separates(c: char, windows: bool) -> (b: bool)
    ensures
        b == is_separator(c, windows),
{
    c == '/' || (windows && c == '\\')
}

fn find_separator(path: &[char], from: usize, windows: bool) -> (at: usize)
    requires
        from <= path@.len(),
    ensures
        from <= at <= path@.len(),
        at == next_separator(path@, from as int, windows),
{
    let mut at: usize = from;
    while at < path.len() && !separates(path[at], windows)
        invariant
            from <= at <= path@.len(),
            next_separator(path@, from as int, windows) == next_separator(
                path@,
                at as int,
                windows,
            ),
        decreases path@.len() - at,
    {
        at = at + 1;
    }
    at
}

fn prefix_of(path: &[char], windows: bool) -> (n: usize)
    ensures
        n <= path@.len(),
        n == prefix_length(path@, windows),
{
    if !windows || path.len() < 2 {
        return 0;
    }
    let c = path[0];
    if (('a' <= c && c <= 'z') || ('A' <= c && c <= 'Z')) && path[1] == ':' {
        return 2;
    }
    if !separates(c, windows) || !separates(path[1], windows) {
        return 0;
    }
    let server: usize = find_separator(path, 2, windows);
    if server >= path.len() {
        return 0;
    }
    let share: usize = find_separator(path, server + 1, windows);
    if 2 < server && server + 1 < share {
        share
    } else {
        0
    }
}

fn start_of_component(path: &[char], from: usize, end: usize, windows: bool) -> (start: usize)
    requires
        from <= end <= path@.len(),
    ensures
        from <= start <= end,
        start - from == component_start(path@.subrange(from as int, end as int), windows),
{
    let mut start: usize = end;
    while start > from && !separates(path[start - 1], windows)
        invariant
            from <= start <= end <= path@.len(),
            component_start(path@.subrange(from as int, end as int), windows) == component_start(
                path@.subrange(from as int, start as int),
                windows,
            ),
        decreases start,
    {
        assert(path@.subrange(from as int, start as int).drop_last() =~= path@.subrange(
            from as int,
            start - 1,
        ));
        start = start - 1;
    }
    start
}

/// The file that a path names, if it names one.
pub fn file_name_of(path: &str, windows: bool) -> (name: Option<String>)
    ensures
        optional_text(name) == file_name_in(path@, windows),
{
    let chars = chars_of(path);
    let from: usize = prefix_of(&chars, windows);
    let mut end: usize = chars.len();
    let ghost body = path@.skip(from as int);
    assert(chars@.subrange(from as int, end as int) =~= body);
    while end > from
        invariant
            from <= end <= chars@.len(),
            chars@ == path@,
            body == path@.skip(from as int),
            from == prefix_length(path@, windows),
            last_name(body, windows) == last_name(
                chars@.subrange(from as int, end as int),
                windows,
            ),
        decreases end,
    {
        let ghost part = chars@.subrange(from as int, end as int);
        if separates(chars[end - 1], windows) {
            assert(part.drop_last() =~= chars@.subrange(from as int, end - 1));
            end = end - 1;
        } else {
            let start: usize = start_of_component(&chars, from, end, windows);
            proof {
                lemma_component_is_short(part, windows);
            }
            let ghost name = part.skip(start - from);
            assert(name =~= chars@.subrange(start as int, end as int));
            if end - start == 1 && chars[start] == '.' {
                assert(name =~= seq!['.']);
                if start == from {
                    return None;
                }
                assert(part.take(start - from) =~= chars@.subrange(from as int, start as int));
                end = start;
            } else if end - start == 2 && chars[start] == '.' && chars[start + 1] == '.' {
                assert(name =~= seq!['.', '.']);
                return None;
            } else {
                assert(name != seq!['.']) by {
                    if name == seq!['.'] {
                        assert(name.len() == 1 && name[0] == '.');
                    }
                }
                assert(name != seq!['.', '.']) by {
                    if name == seq!['.', '.'] {
                        assert(name.len() == 2 && name[0] == '.' && name[1] == '.');
                    }
                }
                return Some(text_between(&chars, start, end));
            }
        }
    }
    None
}

/// A component that does not end in a separator is not empty.
proof fn lemma_component_is_short(path: Seq<char>, windows: bool)
    requires
        path.len() > 0,
        !is_separator(path.last(), windows),
    ensures
        component_start(path, windows) < path.len(),
{
    lemma_component_start(path.drop_last(), windows);
}

proof fn lemma_component_start(path: Seq<char>, windows: bool)
    ensures
        component_start(path, windows) <= path.len(),
    decreases path.len(),
{
    if path.len() > 0 && !is_separator(path.last(), windows) {
        lemma_component_start(path.drop_last(), windows);
    }
}

/// The extension of the file that a path names.
pub fn extension_of(path: &str, windows: bool) -> (extension: Option<String>)
    ensures
        optional_text(extension) == extension_in(path@, windows),
{
    match file_name_of(path, windows) {
        Some(name) => {
            let chars = chars_of(name.as_str());
            let size: usize = chars.len();
            let mut at: usize = size;
            assert(name@.take(at as int) =~= name@);
            while at > 0 && chars[at - 1] != '.'
                invariant
                    at <= size == chars@.len(),
                    chars@ == name@,
                    last_dot(name@) == last_dot(name@.take(at as int)),
                decreases at,
            {
                assert(name@.take(at as int).drop_last() =~= name@.take(at - 1));
                at = at - 1;
            }
            if at > 1 {
                let extension = text_between(&chars, at, size);
                assert(extension@ =~= name@.skip(at as int));
                Some(extension)
            } else {
                None
            }
        },
        None => None,
    }
}

} // verus!
