//! Text in terms of its characters.
//!
//! Contracts speak of `Seq<char>`, the view of `str` and `String`.

use vstd::prelude::*;
use vstd::utf8::{decode_utf8, is_ascii_chars, valid_utf8};

verus! {

/// `String::push` appends one character.
pub assume_specification[ String::push ](text: &mut String, c: char)
    ensures
        final(text)@ == old(text)@.push(c),
;

/// A text in lower case by the rules of Unicode.
pub uninterp spec fn unicode_lower(text: Seq<char>) -> Seq<char>;

/// `str::to_lowercase`. A text of ASCII characters alone only has its capitals changed.
/// Which lower-case forms Unicode gives other characters is left unsaid.
#[verifier::external_body]
pub(crate) fn to_lowercase(text: &str) -> (low: String)
    ensures
        low@ == unicode_lower(text@),
        is_ascii_chars(text@) ==> low@ == lowered(text@),
{
    text.to_lowercase()
}

/// Bytes read as UTF-8 with replacement characters for what is not.
pub uninterp spec fn lossy_text(bytes: Seq<u8>) -> Seq<char>;

/// `String::from_utf8_lossy`. Valid UTF-8 is decoded as it is. Where the replacement
/// characters stand in other input is left unsaid.
#[verifier::external_body]
pub(crate) fn from_utf8_lossy(bytes: &[u8]) -> (text: String)
    ensures
        text@ == lossy_text(bytes@),
        valid_utf8(bytes@) ==> text@ == decode_utf8(bytes@),
{
    String::from_utf8_lossy(bytes).into_owned()
}

/// `std::str::from_utf8`: the text that valid UTF-8 encodes, and nothing for other bytes.
#[verifier::external_body]
pub(crate) fn from_utf8(bytes: &[u8]) -> (text: Option<String>)
    ensures
        match text {
            Some(t) => valid_utf8(bytes@) && t@ == decode_utf8(bytes@),
            None => !valid_utf8(bytes@),
        },
{
    std::str::from_utf8(bytes).ok().map(str::to_string)
}

/// The views of a sequence of strings.
pub open spec fn texts(items: Seq<String>) -> Seq<Seq<char>> {
    items.map_values(|s: String| s@)
}

/// One text when `condition` holds, none otherwise.
pub open spec fn only_if(condition: bool, text: Seq<char>) -> Seq<Seq<char>> {
    if condition {
        seq![text]
    } else {
        Seq::empty()
    }
}

pub open spec fn is_upper(c: char) -> bool {
    'A' <= c <= 'Z'
}

pub open spec fn is_lower(c: char) -> bool {
    'a' <= c <= 'z'
}

pub open spec fn is_digit(c: char) -> bool {
    '0' <= c <= '9'
}

pub open spec fn is_alphanumeric(c: char) -> bool {
    is_upper(c) || is_lower(c) || is_digit(c)
}

pub open spec fn is_hex_digit(c: char) -> bool {
    is_digit(c) || 'a' <= c <= 'f' || 'A' <= c <= 'F'
}

/// Unicode white space.
pub open spec fn is_white(c: char) -> bool {
    ||| '\u{9}' <= c <= '\u{d}'
    ||| c == ' '
    ||| c == '\u{85}'
    ||| c == '\u{a0}'
    ||| c == '\u{1680}'
    ||| '\u{2000}' <= c <= '\u{200a}'
    ||| c == '\u{2028}'
    ||| c == '\u{2029}'
    ||| c == '\u{202f}'
    ||| c == '\u{205f}'
    ||| c == '\u{3000}'
}

/// An ASCII capital in lower case; any other character as it is.
pub open spec fn lower_char(c: char) -> char {
    if is_upper(c) {
        ((c as u32 + 32) as u32) as char
    } else {
        c
    }
}

pub open spec fn lowered(s: Seq<char>) -> Seq<char> {
    Seq::new(s.len(), |i: int| lower_char(s[i]))
}

/// `needle` stands in `s` from position `at` on.
pub open spec fn occurs_at(s: Seq<char>, needle: Seq<char>, at: int) -> bool {
    0 <= at && at + needle.len() <= s.len() && s.subrange(at, at + needle.len()) == needle
}

pub open spec fn contains_text(s: Seq<char>, needle: Seq<char>) -> bool {
    exists|at: int| #[trigger] occurs_at(s, needle, at)
}

/// Some text of `items` contains `needle`.
pub open spec fn any_contains(items: Seq<Seq<char>>, needle: Seq<char>) -> bool {
    exists|i: int| 0 <= i < items.len() && contains_text(#[trigger] items[i], needle)
}

pub open spec fn begins_with(s: Seq<char>, prefix: Seq<char>) -> bool {
    occurs_at(s, prefix, 0)
}

pub open spec fn finishes_with(s: Seq<char>, suffix: Seq<char>) -> bool {
    occurs_at(s, suffix, s.len() - suffix.len())
}

/// `s` without the characters of `drop` that it starts with.
pub open spec fn without_leading(s: Seq<char>, drop: spec_fn(char) -> bool) -> Seq<char>
    decreases s.len(),
{
    if s.len() > 0 && drop(s[0]) {
        without_leading(s.skip(1), drop)
    } else {
        s
    }
}

/// `s` without the characters of `drop` that it ends with.
pub open spec fn without_trailing(s: Seq<char>, drop: spec_fn(char) -> bool) -> Seq<char>
    decreases s.len(),
{
    if s.len() > 0 && drop(s.last()) {
        without_trailing(s.drop_last(), drop)
    } else {
        s
    }
}

/// `s` without the white space around it.
pub open spec fn trimmed(s: Seq<char>) -> Seq<char> {
    without_trailing(without_leading(s, |c: char| is_white(c)), |c: char| is_white(c))
}

/// The position of the first `c` in `s`, or the length of `s`.
pub open spec fn first_of(s: Seq<char>, c: char) -> int
    decreases s.len(),
{
    if s.len() == 0 || s[0] == c {
        0
    } else {
        1 + first_of(s.skip(1), c)
    }
}

/// The pieces of `s` between the separators.
pub open spec fn split_by(s: Seq<char>, separator: char) -> Seq<Seq<char>>
    decreases s.len(),
{
    if s.len() == 0 {
        seq![Seq::<char>::empty()]
    } else {
        let rest = split_by(s.drop_last(), separator);
        if s.last() == separator {
            rest.push(Seq::<char>::empty())
        } else {
            rest.update(rest.len() - 1, rest.last().push(s.last()))
        }
    }
}

/// `s` with every `from` replaced by `to`.
pub open spec fn replaced(s: Seq<char>, from: char, to: char) -> Seq<char> {
    Seq::new(s.len(), |i: int| if s[i] == from {
        to
    } else {
        s[i]
    })
}

/// The texts one after another with `separator` between them.
pub open spec fn joined(items: Seq<Seq<char>>, separator: Seq<char>) -> Seq<char>
    decreases items.len(),
{
    if items.len() == 0 {
        Seq::empty()
    } else if items.len() == 1 {
        items[0]
    } else {
        joined(items.drop_last(), separator) + separator + items.last()
    }
}

pub open spec fn digit_char(d: nat) -> char {
    ((48 + d) as u32) as char
}

/// The decimal digits of `n`.
pub open spec fn decimal(n: nat) -> Seq<char>
    decreases n,
{
    if n < 10 {
        seq![digit_char(n)]
    } else {
        decimal(n / 10).push(digit_char(n % 10))
    }
}

/// Every character of `s` is a decimal digit.
pub open spec fn all_digits(s: Seq<char>) -> bool {
    forall|i: int| 0 <= i < s.len() ==> is_digit(#[trigger] s[i])
}

/// The number that the digits of `s` write.
pub open spec fn digits_value(s: Seq<char>) -> nat
    decreases s.len(),
{
    if s.len() == 0 {
        0
    } else {
        digits_value(s.drop_last()) * 10 + (s.last() as nat - 48) as nat
    }
}

/// The digits of a number text after an optional plus sign.
pub open spec fn unsigned_body(s: Seq<char>) -> Seq<char> {
    if s.len() > 0 && s[0] == '+' {
        s.skip(1)
    } else {
        s
    }
}

/// The number that `s` writes, if it writes one of at most `limit`.
pub open spec fn parsed_unsigned(s: Seq<char>, limit: nat) -> Option<nat> {
    let body = unsigned_body(s);
    if body.len() > 0 && all_digits(body) && digits_value(body) <= limit {
        Some(digits_value(body))
    } else {
        None
    }
}

pub proof fn lemma_texts_push(items: Seq<String>, s: String)
    ensures
        texts(items.push(s)) == texts(items).push(s@),
{
    assert(texts(items.push(s)) =~= texts(items).push(s@));
}

/// The characters of a text.
pub fn chars_of(s: &str) -> (chars: Vec<char>)
    ensures
        chars@ == s@,
{
    let mut chars: Vec<char> = Vec::new();
    for c in it: s.chars()
        invariant
            it.seq() == s@,
            chars@ == s@.take(it.index() as int),
    {
        chars.push(c);
        assert(s@.take(it.index() + 1) =~= s@.take(it.index() as int).push(c));
    }
    assert(s@.take(s@.len() as int) =~= s@);
    chars
}

/// The text that a slice of characters spells.
pub fn text_of(chars: &[char]) -> (s: String)
    ensures
        s@ == chars@,
{
    let mut s = String::new();
    let mut i: usize = 0;
    while i < chars.len()
        invariant
            i <= chars@.len(),
            s@ == chars@.take(i as int),
        decreases chars@.len() - i,
    {
        s.push(chars[i]);
        assert(chars@.take(i + 1) =~= chars@.take(i as int).push(chars@[i as int]));
        i = i + 1;
    }
    assert(chars@.take(i as int) =~= chars@);
    s
}

/// The text of `chars[from..to]`.
pub fn text_between(chars: &[char], from: usize, to: usize) -> (s: String)
    requires
        from <= to <= chars@.len(),
    ensures
        s@ == chars@.subrange(from as int, to as int),
{
    let mut s = String::new();
    let mut i: usize = from;
    while i < to
        invariant
            from <= i <= to <= chars@.len(),
            s@ == chars@.subrange(from as int, i as int),
        decreases to - i,
    {
        s.push(chars[i]);
        assert(chars@.subrange(from as int, i + 1) =~= chars@.subrange(from as int, i as int).push(
            chars@[i as int],
        ));
        i = i + 1;
    }
    s
}

/// The characters of `chars[from..to]`.
pub fn chars_between(chars: &[char], from: usize, to: usize) -> (part: Vec<char>)
    requires
        from <= to <= chars@.len(),
    ensures
        part@ == chars@.subrange(from as int, to as int),
{
    let mut part: Vec<char> = Vec::new();
    let mut i: usize = from;
    while i < to
        invariant
            from <= i <= to <= chars@.len(),
            part@ == chars@.subrange(from as int, i as int),
        decreases to - i,
    {
        part.push(chars[i]);
        assert(chars@.subrange(from as int, i + 1) =~= chars@.subrange(from as int, i as int).push(
            chars@[i as int],
        ));
        i = i + 1;
    }
    part
}

/// Appends a text to a list.
pub fn push_text(items: &mut Vec<String>, s: String)
    ensures
        texts(final(items)@) == texts(old(items)@).push(s@),
        final(items)@ == old(items)@.push(s),
{
    proof {
        lemma_texts_push(items@, s);
    }
    items.push(s);
}

/// Appends `label` to a list when `condition` holds.
pub fn push_when(items: &mut Vec<String>, condition: bool, label: &str)
    ensures
        texts(final(items)@) == texts(old(items)@) + only_if(condition, label@),
{
    if condition {
        push_text(items, label.to_owned());
        assert(texts(old(items)@) + only_if(condition, label@) =~= texts(old(items)@).push(label@));
    } else {
        assert(texts(old(items)@) + only_if(condition, label@) =~= texts(old(items)@));
    }
}

/// A copy of a list of texts.
pub fn copy_texts(items: &[String]) -> (copy: Vec<String>)
    ensures
        texts(copy@) == texts(items@),
        copy@.len() == items@.len(),
{
    let mut copy: Vec<String> = Vec::new();
    let mut i: usize = 0;
    while i < items.len()
        invariant
            i <= items@.len(),
            texts(copy@) == texts(items@).take(i as int),
            copy@.len() == i,
        decreases items@.len() - i,
    {
        push_text(&mut copy, items[i].clone());
        assert(texts(items@).take(i + 1) =~= texts(items@).take(i as int).push(
            items@[i as int]@,
        ));
        i = i + 1;
    }
    assert(texts(items@).take(i as int) =~= texts(items@));
    copy
}

/// The two texts hold the same characters.
pub fn same_text(a: &str, b: &str) -> (same: bool)
    ensures
        same == (a@ == b@),
{
    let left = chars_of(a);
    let right = chars_of(b);
    same_chars(&left, &right)
}

pub fn same_chars(left: &[char], right: &[char]) -> (same: bool)
    ensures
        same == (left@ == right@),
{
    if left.len() != right.len() {
        return false;
    }
    let mut i: usize = 0;
    while i < left.len()
        invariant
            i <= left@.len(),
            left@.len() == right@.len(),
            forall|k: int| 0 <= k < i ==> left@[k] == right@[k],
        decreases left@.len() - i,
    {
        if left[i] != right[i] {
            return false;
        }
        i = i + 1;
    }
    assert(left@ =~= right@);
    true
}

/// Some text of the list is `wanted`.
pub fn list_contains(items: &[String], wanted: &str) -> (found: bool)
    ensures
        found == texts(items@).contains(wanted@),
{
    let mut i: usize = 0;
    while i < items.len()
        invariant
            i <= items@.len(),
            forall|k: int| 0 <= k < i ==> texts(items@)[k] != wanted@,
        decreases items@.len() - i,
    {
        if same_text(items[i].as_str(), wanted) {
            assert(texts(items@)[i as int] == wanted@);
            return true;
        }
        i = i + 1;
    }
    false
}

pub fn lower_one(c: char) -> (l: char)
    ensures
        l == lower_char(c),
{
    if 'A' <= c && c <= 'Z' {
        let code: u8 = c as u8;
        assert(code == c as u32);
        (code + 32) as char
    } else {
        c
    }
}

pub fn lower_chars(chars: &[char]) -> (low: Vec<char>)
    ensures
        low@ == lowered(chars@),
{
    let mut low: Vec<char> = Vec::new();
    let mut i: usize = 0;
    while i < chars.len()
        invariant
            i <= chars@.len(),
            low@ == lowered(chars@).take(i as int),
        decreases chars@.len() - i,
    {
        low.push(lower_one(chars[i]));
        assert(lowered(chars@).take(i + 1) =~= lowered(chars@).take(i as int).push(
            lower_char(chars@[i as int]),
        ));
        i = i + 1;
    }
    assert(lowered(chars@).take(i as int) =~= lowered(chars@));
    low
}

/// The text with its ASCII capitals in lower case.
pub fn lower(s: &str) -> (low: String)
    ensures
        low@ == lowered(s@),
{
    let chars = chars_of(s);
    let low = lower_chars(&chars);
    text_of(&low)
}

/// `needle` stands in `chars` from position `at` on.
pub fn stands_at(chars: &[char], needle: &[char], at: usize) -> (b: bool)
    ensures
        b == occurs_at(chars@, needle@, at as int),
{
    if at > chars.len() || needle.len() > chars.len() - at {
        return false;
    }
    let end: usize = at + needle.len();
    let mut j: usize = 0;
    while j < needle.len()
        invariant
            j <= needle@.len(),
            end == at + needle@.len() <= chars@.len(),
            forall|k: int| 0 <= k < j ==> chars@[at + k] == needle@[k],
        decreases needle@.len() - j,
    {
        if chars[at + j] != needle[j] {
            assert(chars@.subrange(at as int, at + needle@.len())[j as int] != needle@[j as int]);
            return false;
        }
        j = j + 1;
    }
    assert(chars@.subrange(at as int, at + needle@.len()) =~= needle@);
    true
}

/// The first position at which `needle` stands in `chars`.
pub fn find_chars(chars: &[char], needle: &[char]) -> (at: Option<usize>)
    ensures
        match at {
            Some(i) => occurs_at(chars@, needle@, i as int) && forall|k: int|
                0 <= k < i ==> !occurs_at(chars@, needle@, k),
            None => forall|k: int| !occurs_at(chars@, needle@, k),
        },
{
    if needle.len() > chars.len() {
        return None;
    }
    let last: usize = chars.len() - needle.len();
    let mut i: usize = 0;
    while i <= last
        invariant
            i <= last + 1,
            last == chars@.len() - needle@.len(),
            forall|k: int| 0 <= k < i ==> !occurs_at(chars@, needle@, k),
        ensures
            forall|k: int| 0 <= k <= last ==> !occurs_at(chars@, needle@, k),
        decreases last + 1 - i,
    {
        if stands_at(chars, needle, i) {
            return Some(i);
        }
        if i == last {
            break;
        }
        i = i + 1;
    }
    None
}

pub fn has_chars(chars: &[char], needle: &[char]) -> (b: bool)
    ensures
        b == contains_text(chars@, needle@),
{
    match find_chars(chars, needle) {
        Some(i) => {
            assert(occurs_at(chars@, needle@, i as int));
            true
        },
        None => false,
    }
}

/// The text contains `needle`.
pub fn has_text(s: &str, needle: &str) -> (b: bool)
    ensures
        b == contains_text(s@, needle@),
{
    let chars = chars_of(s);
    let part = chars_of(needle);
    has_chars(&chars, &part)
}

/// Some text of the list contains `needle`.
pub fn any_has(items: &[String], needle: &str) -> (b: bool)
    ensures
        b == any_contains(texts(items@), needle@),
{
    let part = chars_of(needle);
    let mut i: usize = 0;
    while i < items.len()
        invariant
            i <= items@.len(),
            part@ == needle@,
            forall|k: int| 0 <= k < i ==> !contains_text(#[trigger] texts(items@)[k], needle@),
        decreases items@.len() - i,
    {
        let chars = chars_of(items[i].as_str());
        if has_chars(&chars, &part) {
            assert(contains_text(texts(items@)[i as int], needle@));
            return true;
        }
        i = i + 1;
    }
    false
}

pub fn starts_with(s: &str, prefix: &str) -> (b: bool)
    ensures
        b == begins_with(s@, prefix@),
{
    let chars = chars_of(s);
    let part = chars_of(prefix);
    stands_at(&chars, &part, 0)
}

pub fn ends_with(s: &str, suffix: &str) -> (b: bool)
    ensures
        b == finishes_with(s@, suffix@),
{
    let chars = chars_of(s);
    let part = chars_of(suffix);
    if part.len() > chars.len() {
        false
    } else {
        stands_at(&chars, &part, chars.len() - part.len())
    }
}

pub fn white(c: char) -> (b: bool)
    ensures
        b == is_white(c),
{
    ('\u{9}' <= c && c <= '\u{d}') || c == ' ' || c == '\u{85}' || c == '\u{a0}' || c == '\u{1680}'
        || ('\u{2000}' <= c && c <= '\u{200a}') || c == '\u{2028}' || c == '\u{2029}' || c
        == '\u{202f}' || c == '\u{205f}' || c == '\u{3000}'
}

/// The characters without the white space before them.
pub fn trim_start_chars(chars: &[char]) -> (t: Vec<char>)
    ensures
        t@ == without_leading(chars@, |c: char| is_white(c)),
{
    let ghost drop = |c: char| is_white(c);
    let mut from: usize = 0;
    assert(chars@.skip(0) =~= chars@);
    while from < chars.len() && white(chars[from])
        invariant
            from <= chars@.len(),
            drop == (|c: char| is_white(c)),
            without_leading(chars@, drop) == without_leading(chars@.skip(from as int), drop),
        decreases chars@.len() - from,
    {
        assert(chars@.skip(from as int).skip(1) =~= chars@.skip(from + 1));
        from = from + 1;
    }
    let t = chars_between(chars, from, chars.len());
    assert(t@ =~= chars@.skip(from as int));
    t
}

/// The characters without the white space around them.
pub fn trim_chars(chars: &[char]) -> (t: Vec<char>)
    ensures
        t@ == trimmed(chars@),
{
    let ghost drop = |c: char| is_white(c);
    let mut from: usize = 0;
    assert(chars@.skip(0) =~= chars@);
    while from < chars.len() && white(chars[from])
        invariant
            from <= chars@.len(),
            drop == (|c: char| is_white(c)),
            without_leading(chars@, drop) == without_leading(chars@.skip(from as int), drop),
        decreases chars@.len() - from,
    {
        assert(chars@.skip(from as int).skip(1) =~= chars@.skip(from + 1));
        from = from + 1;
    }
    let ghost body = chars@.skip(from as int);
    assert(without_leading(chars@, drop) == body);
    let mut to: usize = chars.len();
    assert(body.take(to - from) =~= body);
    while to > from && white(chars[to - 1])
        invariant
            from <= to <= chars@.len(),
            drop == (|c: char| is_white(c)),
            body == chars@.skip(from as int),
            without_trailing(body, drop) == without_trailing(body.take(to - from), drop),
        decreases to,
    {
        assert(body.take(to - from).last() == chars@[to - 1]);
        assert(body.take(to - from).drop_last() =~= body.take(to - 1 - from));
        to = to - 1;
    }
    assert(without_trailing(body, drop) == body.take(to - from)) by {
        if to > from {
            assert(body.take(to - from).last() == chars@[to - 1]);
        }
    }
    let mut t: Vec<char> = Vec::new();
    let mut i: usize = from;
    while i < to
        invariant
            from <= i <= to <= chars@.len(),
            t@ == chars@.subrange(from as int, i as int),
        decreases to - i,
    {
        t.push(chars[i]);
        assert(chars@.subrange(from as int, i + 1) =~= chars@.subrange(from as int, i as int).push(
            chars@[i as int],
        ));
        i = i + 1;
    }
    assert(t@ =~= body.take(to - from));
    t
}

/// The text without the white space around it.
pub fn trim(s: &str) -> (t: String)
    ensures
        t@ == trimmed(s@),
{
    let chars = chars_of(s);
    let t = trim_chars(&chars);
    text_of(&t)
}

pub proof fn lemma_split_nonempty(s: Seq<char>, separator: char)
    ensures
        split_by(s, separator).len() >= 1,
    decreases s.len(),
{
    if s.len() > 0 {
        lemma_split_nonempty(s.drop_last(), separator);
    }
}

/// The pieces between the separators.
pub fn split_chars(chars: &[char], separator: char) -> (pieces: Vec<String>)
    ensures
        texts(pieces@) == split_by(chars@, separator),
        pieces@.len() >= 1,
{
    let mut pieces: Vec<String> = Vec::new();
    let mut piece = String::new();
    let mut i: usize = 0;
    assert(texts(pieces@).push(piece@) =~= seq![Seq::<char>::empty()]);
    while i < chars.len()
        invariant
            i <= chars@.len(),
            texts(pieces@).push(piece@) == split_by(chars@.take(i as int), separator),
        decreases chars@.len() - i,
    {
        let c = chars[i];
        let ghost before = texts(pieces@).push(piece@);
        assert(chars@.take(i + 1).drop_last() =~= chars@.take(i as int));
        assert(chars@.take(i + 1).last() == c);
        if c == separator {
            push_text(&mut pieces, piece);
            piece = String::new();
            assert(texts(pieces@).push(piece@) =~= before.push(Seq::<char>::empty()));
        } else {
            piece.push(c);
            assert(texts(pieces@).push(piece@) =~= before.update(
                before.len() - 1,
                before.last().push(c),
            ));
        }
        i = i + 1;
    }
    assert(chars@.take(i as int) =~= chars@);
    push_text(&mut pieces, piece);
    pieces
}

/// The pieces of the text between the separators.
pub fn split(s: &str, separator: char) -> (pieces: Vec<String>)
    ensures
        texts(pieces@) == split_by(s@, separator),
        pieces@.len() >= 1,
{
    let chars = chars_of(s);
    split_chars(&chars, separator)
}

/// The text with every `from` replaced by `to`.
pub fn replace_char(s: &str, from: char, to: char) -> (r: String)
    ensures
        r@ == replaced(s@, from, to),
{
    let chars = chars_of(s);
    let mut r = String::new();
    let mut i: usize = 0;
    while i < chars.len()
        invariant
            i <= chars@.len(),
            chars@ == s@,
            r@ == replaced(s@, from, to).take(i as int),
        decreases chars@.len() - i,
    {
        let c = chars[i];
        r.push(if c == from { to } else { c });
        assert(replaced(s@, from, to).take(i + 1) =~= replaced(s@, from, to).take(i as int).push(
            replaced(s@, from, to)[i as int],
        ));
        i = i + 1;
    }
    assert(replaced(s@, from, to).take(i as int) =~= replaced(s@, from, to));
    r
}

/// The texts one after another with `separator` between them.
pub fn join(items: &[String], separator: &str) -> (r: String)
    ensures
        r@ == joined(texts(items@), separator@),
{
    let mut r = String::new();
    let mut i: usize = 0;
    while i < items.len()
        invariant
            i <= items@.len(),
            r@ == joined(texts(items@).take(i as int), separator@),
        decreases items@.len() - i,
    {
        let ghost before = texts(items@).take(i as int);
        let ghost after = texts(items@).take(i + 1);
        assert(after.drop_last() =~= before);
        assert(after.last() == items@[i as int]@);
        if i == 0 {
            r = items[i].clone();
        } else {
            r.append(separator);
            r.append(items[i].as_str());
        }
        i = i + 1;
    }
    assert(texts(items@).take(i as int) =~= texts(items@));
    r
}

/// The decimal digits of a number.
pub fn wide_decimal_text(n: u128) -> (s: String)
    ensures
        s@ == decimal(n as nat),
    decreases n,
{
    let digit: u8 = (n % 10) as u8;
    let c = (48 + digit) as char;
    assert(c == digit_char((n % 10) as nat));
    if n < 10 {
        let mut s = String::new();
        s.push(c);
        assert(s@ =~= decimal(n as nat));
        s
    } else {
        let mut s = wide_decimal_text(n / 10);
        s.push(c);
        s
    }
}

pub fn decimal_text(n: u64) -> (s: String)
    ensures
        s@ == decimal(n as nat),
{
    wide_decimal_text(n as u128)
}

/// The first position from `from` on at which `needle` stands in `s`, or the length of `s`.
pub open spec fn index_from(s: Seq<char>, needle: Seq<char>, from: int) -> int
    decreases s.len() - from,
{
    if from < 0 || from >= s.len() {
        s.len() as int
    } else if occurs_at(s, needle, from) {
        from
    } else {
        index_from(s, needle, from + 1)
    }
}

/// The part of `s` before the first `needle`, all of it where there is none.
pub open spec fn before_first(s: Seq<char>, needle: Seq<char>) -> Seq<char> {
    s.take(index_from(s, needle, 0))
}

/// The texts without repetitions, in order of their first occurrence.
pub open spec fn distinct(items: Seq<Seq<char>>) -> Seq<Seq<char>>
    decreases items.len(),
{
    if items.len() == 0 {
        Seq::empty()
    } else {
        let before = distinct(items.drop_last());
        if before.contains(items.last()) {
            before
        } else {
            before.push(items.last())
        }
    }
}

/// The part of the text before the first `needle`.
pub fn text_before(s: &str, needle: &str) -> (head: String)
    ensures
        head@ == before_first(s@, needle@),
{
    let chars = chars_of(s);
    let part = chars_of(needle);
    let mut i: usize = 0;
    while i < chars.len()
        invariant
            i <= chars@.len(),
            chars@ == s@,
            part@ == needle@,
            index_from(s@, needle@, 0) == index_from(s@, needle@, i as int),
        decreases chars@.len() - i,
    {
        if stands_at(&chars, &part, i) {
            let head = text_between(&chars, 0, i);
            assert(head@ =~= s@.take(i as int));
            return head;
        }
        i = i + 1;
    }
    assert(s@.take(i as int) =~= s@);
    text_of(&chars)
}

/// The texts without repetitions, in order of their first occurrence.
pub fn distinct_texts(items: &[String]) -> (kept: Vec<String>)
    ensures
        texts(kept@) == distinct(texts(items@)),
{
    let mut kept: Vec<String> = Vec::new();
    let mut i: usize = 0;
    assert(texts(kept@) =~= Seq::empty());
    while i < items.len()
        invariant
            i <= items@.len(),
            texts(kept@) == distinct(texts(items@).take(i as int)),
        decreases items@.len() - i,
    {
        assert(texts(items@).take(i + 1).drop_last() =~= texts(items@).take(i as int));
        assert(texts(items@).take(i + 1).last() == items@[i as int]@);
        if !list_contains(&kept, items[i].as_str()) {
            push_text(&mut kept, items[i].clone());
        }
        i = i + 1;
    }
    assert(texts(items@).take(i as int) =~= texts(items@));
    kept
}

/// Two texts one after the other.
pub fn concat2(a: &str, b: &str) -> (s: String)
    ensures
        s@ == a@ + b@,
{
    let mut s = a.to_owned();
    s.append(b);
    s
}

pub fn concat3(a: &str, b: &str, c: &str) -> (s: String)
    ensures
        s@ == a@ + b@ + c@,
{
    let mut s = a.to_owned();
    s.append(b);
    s.append(c);
    s
}

pub proof fn lemma_digits_monotone(s: Seq<char>, k: int)
    requires
        0 <= k <= s.len(),
        all_digits(s),
    ensures
        digits_value(s.take(k)) <= digits_value(s),
    decreases s.len() - k,
{
    if k < s.len() {
        lemma_digits_monotone(s, k + 1);
        assert(s.take(k + 1).drop_last() =~= s.take(k));
    } else {
        assert(s.take(k) =~= s);
    }
}

/// The number that the characters write, if it is one of at most `limit`.
pub fn parse_unsigned(chars: &[char], limit: u64) -> (n: Option<u64>)
    ensures
        match n {
            Some(v) => parsed_unsigned(chars@, limit as nat) == Some(v as nat),
            None => parsed_unsigned(chars@, limit as nat) is None,
        },
{
    let start: usize = if chars.len() > 0 && chars[0] == '+' {
        1
    } else {
        0
    };
    let ghost body = unsigned_body(chars@);
    assert(body =~= chars@.skip(start as int));
    if start == chars.len() {
        return None;
    }
    let mut value: u128 = 0;
    let mut i: usize = start;
    while i < chars.len()
        invariant
            start <= i <= chars@.len(),
            body == chars@.skip(start as int),
            body == unsigned_body(chars@),
            value == digits_value(body.take(i - start)),
            value <= limit,
            forall|k: int| 0 <= k < i - start ==> is_digit(#[trigger] body[k]),
        decreases chars@.len() - i,
    {
        let c = chars[i];
        assert(body[i - start] == c);
        if c < '0' || c > '9' {
            assert(!is_digit(body[i - start]));
            return None;
        }
        let digit: u8 = c as u8;
        assert(body.take(i + 1 - start).drop_last() =~= body.take(i - start));
        assert(body.take(i + 1 - start).last() == c);
        value = value * 10 + (digit - 48) as u128;
        if value > limit as u128 {
            proof {
                if all_digits(body) {
                    lemma_digits_monotone(body, i + 1 - start);
                }
            }
            return None;
        }
        i = i + 1;
    }
    assert(body.take(i - start) =~= body);
    Some(value as u64)
}

/// A text without the separator is one piece, also behind another text and a separator.
pub proof fn lemma_split_piece(before: Seq<char>, separator: char, piece: Seq<char>)
    requires
        !piece.contains(separator),
    ensures
        split_by(before.push(separator) + piece, separator) == split_by(before, separator).push(
            piece,
        ),
        split_by(piece, separator) == seq![piece],
    decreases piece.len(),
{
    let whole = before.push(separator) + piece;
    if piece.len() == 0 {
        assert(whole =~= before.push(separator));
        assert(whole.drop_last() =~= before);
        assert(piece =~= Seq::empty());
    } else {
        let front = piece.drop_last();
        assert(!front.contains(separator)) by {
            if front.contains(separator) {
                let i = choose|i: int| 0 <= i < front.len() && front[i] == separator;
                assert(piece[i] == separator);
            }
        }
        lemma_split_piece(before, separator, front);
        assert(piece.last() == piece[piece.len() - 1]);
        assert(piece.contains(piece.last()));
        assert(whole.drop_last() =~= before.push(separator) + front);
        assert(whole.last() == piece.last());
        let rest = split_by(before, separator).push(front);
        assert(rest.update(rest.len() - 1, front.push(piece.last())) =~= split_by(
            before,
            separator,
        ).push(piece)) by {
            assert(front.push(piece.last()) =~= piece);
        }
        assert(seq![front].update(0, front.push(piece.last())) =~= seq![piece]) by {
            assert(front.push(piece.last()) =~= piece);
        }
    }
}

/// A text that neither starts nor ends with white space.
pub proof fn lemma_trimmed(s: Seq<char>)
    requires
        s.len() > 0,
        !is_white(s[0]),
        !is_white(s.last()),
    ensures
        trimmed(s) == s,
{
    let drop = |c: char| is_white(c);
    assert(!drop(s[0]) && !drop(s.last()));
    assert(without_leading(s, drop) == s);
    assert(without_trailing(s, drop) == s);
}

/// The decimal digits of a number write that number.
pub proof fn lemma_decimal(n: nat)
    ensures
        decimal(n).len() > 0,
        all_digits(decimal(n)),
        digits_value(decimal(n)) == n,
    decreases n,
{
    if n < 10 {
        let s = seq![digit_char(n)];
        assert(s.drop_last() =~= Seq::empty());
        assert(s.last() == digit_char(n));
        assert(digits_value(s.drop_last()) == 0);
    } else {
        lemma_decimal(n / 10);
        let front = decimal(n / 10);
        let s = front.push(digit_char(n % 10));
        assert(s.drop_last() =~= front);
        assert forall|i: int| 0 <= i < s.len() implies is_digit(#[trigger] s[i]) by {
            if i < front.len() {
                assert(s[i] == front[i]);
            }
        }
    }
}

/// `s` without the characters `c` that it starts with.
pub open spec fn without_start(s: Seq<char>, c: char) -> Seq<char>
    decreases s.len(),
{
    if s.len() > 0 && s[0] == c {
        without_start(s.skip(1), c)
    } else {
        s
    }
}

/// `s` without the characters `c` that it ends with.
pub open spec fn without_end(s: Seq<char>, c: char) -> Seq<char>
    decreases s.len(),
{
    if s.len() > 0 && s.last() == c {
        without_end(s.drop_last(), c)
    } else {
        s
    }
}

/// `s` without the characters `c` around it.
pub open spec fn without_around(s: Seq<char>, c: char) -> Seq<char> {
    without_end(without_start(s, c), c)
}

/// The part of `s` behind the first `c`.
pub open spec fn behind_first(s: Seq<char>, c: char) -> Seq<char> {
    s.skip(first_of(s, c) + 1)
}

pub proof fn lemma_first_of(s: Seq<char>, c: char)
    ensures
        0 <= first_of(s, c) <= s.len(),
        first_of(s, c) < s.len() <==> s.contains(c),
        first_of(s, c) < s.len() ==> s[first_of(s, c)] == c,
        forall|k: int| 0 <= k < first_of(s, c) ==> s[k] != c,
    decreases s.len(),
{
    if s.len() > 0 && s[0] != c {
        let rest = s.skip(1);
        lemma_first_of(rest, c);
        assert forall|k: int| 0 <= k < first_of(s, c) implies s[k] != c by {
            if k > 0 {
                assert(rest[k - 1] == s[k]);
            }
        }
        if first_of(s, c) < s.len() {
            assert(s[first_of(s, c)] == rest[first_of(rest, c)]);
        } else if s.contains(c) {
            let k = choose|k: int| 0 <= k < s.len() && s[k] == c;
            assert(rest[k - 1] == c);
        }
    } else if s.len() > 0 {
        assert(s[0] == c);
    }
}

/// The position of the first `c`, or the number of characters.
pub fn find_char(chars: &[char], c: char) -> (at: usize)
    ensures
        at == first_of(chars@, c),
        at <= chars@.len(),
        at < chars@.len() ==> chars@[at as int] == c,
{
    let mut i: usize = 0;
    assert(chars@.skip(0) =~= chars@);
    while i < chars.len() && chars[i] != c
        invariant
            i <= chars@.len(),
            first_of(chars@, c) == i + first_of(chars@.skip(i as int), c),
        decreases chars@.len() - i,
    {
        assert(chars@.skip(i as int).skip(1) =~= chars@.skip(i + 1));
        i = i + 1;
    }
    i
}

/// The characters without the `c` before them.
pub fn strip_start(chars: &[char], c: char) -> (t: Vec<char>)
    ensures
        t@ == without_start(chars@, c),
{
    let mut from: usize = 0;
    assert(chars@.skip(0) =~= chars@);
    while from < chars.len() && chars[from] == c
        invariant
            from <= chars@.len(),
            without_start(chars@, c) == without_start(chars@.skip(from as int), c),
        decreases chars@.len() - from,
    {
        assert(chars@.skip(from as int).skip(1) =~= chars@.skip(from + 1));
        from = from + 1;
    }
    let t = chars_between(chars, from, chars.len());
    assert(t@ =~= chars@.skip(from as int));
    t
}

/// The characters without the `c` after them.
pub fn strip_end(chars: &[char], c: char) -> (t: Vec<char>)
    ensures
        t@ == without_end(chars@, c),
{
    let mut to: usize = chars.len();
    assert(chars@.take(to as int) =~= chars@);
    while to > 0 && chars[to - 1] == c
        invariant
            to <= chars@.len(),
            without_end(chars@, c) == without_end(chars@.take(to as int), c),
        decreases to,
    {
        assert(chars@.take(to as int).last() == chars@[to - 1]);
        assert(chars@.take(to as int).drop_last() =~= chars@.take(to - 1));
        to = to - 1;
    }
    let t = chars_between(chars, 0, to);
    assert(t@ =~= chars@.take(to as int));
    proof {
        if to > 0 {
            assert(t@.last() == chars@[to - 1]);
        }
    }
    t
}

/// The characters without the `c` around them.
pub fn strip_around(chars: &[char], c: char) -> (t: Vec<char>)
    ensures
        t@ == without_around(chars@, c),
{
    let body = strip_start(chars, c);
    strip_end(&body, c)
}

/// The texts that are not empty.
pub open spec fn not_empty(items: Seq<Seq<char>>) -> Seq<Seq<char>>
    decreases items.len(),
{
    if items.len() == 0 {
        Seq::empty()
    } else if items.last().len() == 0 {
        not_empty(items.drop_last())
    } else {
        not_empty(items.drop_last()).push(items.last())
    }
}

/// A line end behind a carriage return takes it along.
pub open spec fn without_return(line: Seq<char>) -> Seq<char> {
    if line.len() > 0 && line.last() == '\r' {
        line.drop_last()
    } else {
        line
    }
}

/// The lines of a text: what stands before each line feed, without the carriage return
/// before it, and what stands behind the last one, if anything does.
pub open spec fn lines_of(s: Seq<char>) -> Seq<Seq<char>> {
    let pieces = split_by(s, '\n');
    let ended = Seq::new((pieces.len() - 1) as nat, |i: int| without_return(pieces[i]));
    if pieces.last().len() == 0 {
        ended
    } else {
        ended.push(pieces.last())
    }
}

/// The lines of a text.
pub fn lines(s: &str) -> (r: Vec<String>)
    ensures
        texts(r@) == lines_of(s@),
{
    let pieces = split(s, '\n');
    let ghost views = texts(pieces@);
    let ghost ended = Seq::new((views.len() - 1) as nat, |i: int| without_return(views[i]));
    let mut r: Vec<String> = Vec::new();
    let last: usize = pieces.len() - 1;
    let mut i: usize = 0;
    assert(texts(r@) =~= ended.take(0));
    while i < last
        invariant
            i <= last,
            last == pieces@.len() - 1,
            views == texts(pieces@),
            ended == Seq::new((views.len() - 1) as nat, |k: int| without_return(views[k])),
            texts(r@) == ended.take(i as int),
        decreases last - i,
    {
        let chars = chars_of(pieces[i].as_str());
        let size: usize = chars.len();
        assert(chars@ == views[i as int]);
        let line = if size > 0 && chars[size - 1] == '\r' {
            let cut = text_between(&chars, 0, size - 1);
            assert(cut@ =~= chars@.drop_last());
            cut
        } else {
            text_of(&chars)
        };
        assert(line@ == without_return(views[i as int]));
        push_text(&mut r, line);
        assert(ended.take(i + 1) =~= ended.take(i as int).push(ended[i as int]));
        i = i + 1;
    }
    assert(ended.take(i as int) =~= ended);
    let tail = chars_of(pieces[last].as_str());
    assert(tail@ == views.last());
    if tail.len() > 0 {
        push_text(&mut r, text_of(&tail));
    }
    r
}

} // verus!
