//! What of a rule text the YARA compiler quotes, hands on as text or reads in.
//!
//! A rule can write any byte into a string by an escape such as `\xff`. In a pattern that is
//! what escapes are for. A metadata string, though, is reported as text, and other strings can
//! come up in a message of the compiler, cut to its buffer. The outside crate takes both for
//! UTF-8. This module follows the compiler's lexer through comments, regular expressions and
//! strings, and refuses a text where that would fail. It also tells which files a rule text
//! reads in.

use crate::bytes::{append_bytes, copy_range};
use crate::paths::{is_separator, optional_text};
use crate::text::{
    chars_between, chars_of, find_char, first_of, from_utf8, push_text, same_text, text_of, texts,
};
use vstd::prelude::*;
use vstd::utf8::{encode_utf8, valid_utf8};

verus! {

/// A message that quotes the name of a module cuts it to this many bytes.
pub const MODULE_CUT: usize = 255;

/// A message that quotes a string of a condition cuts it to this many bytes.
pub const LITERAL_CUT: usize = 489;

/// A message that quotes the name of a file cuts it to this many bytes.
pub const FILE_CUT: usize = 466;

/// How deep files that are read in can read in further ones.
pub const READ_IN_DEPTH: usize = 16;

/// What a rule's string stands for.
#[derive(Debug, Clone, Copy, PartialEq, Eq, Structural)]
pub enum StringRole {
    /// What is searched for.
    Pattern,
    /// The right side of a comparison.
    Operand,
    /// A metadata string.
    Metadata,
    /// Any other string, such as the name of a module or an argument.
    Loose,
    /// The name of a file that is read in.
    FileName,
    /// The text cannot be that of a rule.
    Broken,
}

/// Where in a rule text a reader is.
#[derive(Debug, Clone, Copy, PartialEq, Eq, Structural)]
pub enum Place {
    Code,
    /// Behind a slash, which begins a comment or a regular expression.
    Slash,
    LineComment,
    BlockComment,
    /// Behind an asterisk in a comment.
    Asterisk,
    Regex,
    RegexEscape,
    Text,
    TextEscape,
    /// Behind the `\x` of an escape.
    ByteEscape,
    /// Behind the first digit of an escape.
    ByteDigit,
    Name,
}

/// What a reader knows of the text behind it.
#[derive(Debug)]
pub struct RuleReader {
    pub place: Place,
    pub role: StringRole,
    /// The text outside comments, strings and regular expressions: a quote stands for a
    /// string, a slash for a regular expression and a line break for a comment.
    pub code: Vec<char>,
    /// What the string holds so far.
    pub bytes: Vec<u8>,
    /// The first digit of an escape.
    pub digit: u8,
    /// The name of a file so far.
    pub name: Vec<char>,
    /// The text is refused.
    pub refused: bool,
}

pub struct ReaderView {
    pub place: Place,
    pub role: StringRole,
    pub code: Seq<char>,
    pub bytes: Seq<u8>,
    pub digit: u8,
    pub name: Seq<char>,
    pub refused: bool,
}

impl View for RuleReader {
    type V = ReaderView;

    open spec fn view(&self) -> ReaderView {
        ReaderView {
            place: self.place,
            role: self.role,
            code: self.code@,
            bytes: self.bytes@,
            digit: self.digit,
            name: self.name@,
            refused: self.refused,
        }
    }
}

pub open spec fn is_blank(c: char) -> bool {
    c == ' ' || c == '\t' || c == '\n' || c == '\r'
}

/// The character can stand in a name.
pub open spec fn is_name_char(c: char) -> bool {
    ('a' <= c && c <= 'z') || ('A' <= c && c <= 'Z') || ('0' <= c && c <= '9') || c == '_'
}

/// How long a text is without the blanks at its end.
pub open spec fn unpadded(code: Seq<char>) -> nat
    decreases code.len(),
{
    if code.len() > 0 && is_blank(code.last()) {
        unpadded(code.drop_last())
    } else {
        code.len()
    }
}

/// How long a text is without the name at its end.
pub open spec fn unnamed(code: Seq<char>) -> nat
    decreases code.len(),
{
    if code.len() > 0 && is_name_char(code.last()) {
        unnamed(code.drop_last())
    } else {
        code.len()
    }
}

pub open spec fn ends_in(code: Seq<char>, word: Seq<char>) -> bool {
    code.len() >= word.len() && code.skip(code.len() - word.len()) == word
}

/// The name at the end of the text is that of a pattern.
pub open spec fn names_pattern(code: Seq<char>) -> bool {
    let named = code.take(unpadded(code) as int);
    let at = unnamed(named);
    at > 0 && named[at - 1] == '$'
}

/// The text ends in the keyword that reads in another file.
pub open spec fn ends_in_file_keyword(code: Seq<char>) -> bool {
    ends_in(code, "de"@) && ends_in(code.take(code.len() - 2), "inclu"@)
}

/// A character that can stand before a keyword without being one with it.
pub open spec fn parts_words(c: char) -> bool {
    !is_name_char(c) && c != '$' && c != '#' && c != '@' && c != '!'
}

/// Between the keyword that reads in another file and the file's name stand spaces or
/// tabulators, and the keyword is a word of its own.
pub open spec fn reads_file(code: Seq<char>, end: int) -> bool {
    &&& end < code.len()
    &&& forall|k: int| end <= k < code.len() ==> (#[trigger] code[k] == ' ' || code[k] == '\t')
    &&& end == 7 || (end > 7 && parts_words(code[end - 8]))
}

/// The text ends in an operator that compares strings.
pub open spec fn ends_in_operator(code: Seq<char>) -> bool {
    ends_in(code, "contains"@) || ends_in(code, "startswith"@) || ends_in(code, "endswith"@)
        || ends_in(code, "iequals"@)
}

/// What the string stands for that begins behind this code.
pub open spec fn role_behind(code: Seq<char>) -> StringRole {
    let end = unpadded(code) as int;
    let before = code.take(end);
    if ends_in_file_keyword(before) {
        if reads_file(code, end) {
            StringRole::FileName
        } else {
            StringRole::Broken
        }
    } else if end > 0 && code[end - 1] == '=' {
        if end > 1 && (code[end - 2] == '=' || code[end - 2] == '!' || code[end - 2] == '<'
            || code[end - 2] == '>') {
            StringRole::Operand
        } else if names_pattern(code.take(end - 1)) {
            StringRole::Pattern
        } else {
            StringRole::Metadata
        }
    } else if ends_in_operator(before) {
        StringRole::Operand
    } else {
        StringRole::Loose
    }
}

/// What of some bytes C takes for a text: what stands before the first zero.
pub open spec fn until_zero(bytes: Seq<u8>) -> Seq<u8>
    decreases bytes.len(),
{
    if bytes.len() == 0 {
        bytes
    } else if until_zero(bytes.drop_last()).len() < bytes.len() - 1 {
        until_zero(bytes.drop_last())
    } else if bytes.last() == 0 {
        bytes.drop_last()
    } else {
        bytes
    }
}

/// Cut to `length` bytes, the text is still one.
pub open spec fn cuts_well(bytes: Seq<u8>, length: nat) -> bool {
    bytes.len() > length ==> valid_utf8(bytes.take(length as int))
}

/// What is reported or quoted of a string of this role is text.
pub open spec fn is_presentable(role: StringRole, bytes: Seq<u8>) -> bool {
    let shown = until_zero(bytes);
    match role {
        StringRole::Metadata => valid_utf8(shown),
        StringRole::Loose => valid_utf8(shown) && cuts_well(shown, MODULE_CUT as nat) && cuts_well(
            shown,
            LITERAL_CUT as nat,
        ),
        StringRole::FileName => valid_utf8(shown) && cuts_well(shown, FILE_CUT as nat),
        _ => true,
    }
}

/// The value of a hexadecimal digit.
pub open spec fn digit_value(c: char) -> Option<u8> {
    if '0' <= c && c <= '9' {
        Some((c as u32 - '0' as u32) as u8)
    } else if 'a' <= c && c <= 'f' {
        Some((c as u32 - 'a' as u32 + 10) as u8)
    } else if 'A' <= c && c <= 'F' {
        Some((c as u32 - 'A' as u32 + 10) as u8)
    } else {
        None
    }
}

/// What an escape of one character stands for.
pub open spec fn escaped_byte(c: char) -> Option<u8> {
    if c == 't' {
        Some(9)
    } else if c == 'n' {
        Some(10)
    } else if c == 'r' {
        Some(13)
    } else if c == '"' {
        Some(34)
    } else if c == '\\' {
        Some(92)
    } else {
        None
    }
}

/// A reader before a text.
pub open spec fn unread() -> ReaderView {
    ReaderView {
        place: Place::Code,
        role: StringRole::Loose,
        code: Seq::empty(),
        bytes: Seq::empty(),
        digit: 0,
        name: Seq::empty(),
        refused: false,
    }
}

/// A reader in a string that holds more bytes.
pub open spec fn lengthened(r: ReaderView, more: Seq<u8>) -> ReaderView {
    ReaderView { place: Place::Text, bytes: r.bytes + more, ..r }
}

/// A reader that is back in code, where `mark` stands for what it has passed.
pub open spec fn returned(r: ReaderView, mark: char) -> ReaderView {
    ReaderView { place: Place::Code, code: r.code.push(mark), ..r }
}

/// A reader behind a string.
pub open spec fn closed_string(r: ReaderView, bytes: Seq<u8>) -> ReaderView {
    ReaderView {
        refused: r.refused || !is_presentable(r.role, bytes),
        ..returned(r, '"')
    }
}

/// A reader that has passed one more character.
pub open spec fn advanced(r: ReaderView, c: char) -> ReaderView {
    match r.place {
        Place::Code => if c == '/' {
            ReaderView { place: Place::Slash, ..r }
        } else if c == '"' {
            let role = role_behind(r.code);
            ReaderView {
                place: if role == StringRole::FileName {
                    Place::Name
                } else {
                    Place::Text
                },
                role,
                bytes: Seq::empty(),
                name: Seq::empty(),
                refused: r.refused || role == StringRole::Broken,
                ..r
            }
        } else {
            returned(r, c)
        },
        Place::Slash => if c == '/' {
            ReaderView { place: Place::LineComment, ..r }
        } else if c == '*' {
            ReaderView { place: Place::BlockComment, ..r }
        } else if c == '\\' {
            ReaderView { place: Place::RegexEscape, ..r }
        } else {
            ReaderView { place: Place::Regex, ..r }
        },
        Place::LineComment => if c == '\n' {
            returned(r, '\n')
        } else {
            r
        },
        Place::BlockComment => if c == '*' {
            ReaderView { place: Place::Asterisk, ..r }
        } else {
            r
        },
        Place::Asterisk => if c == '/' {
            returned(r, '\n')
        } else if c == '*' {
            r
        } else {
            ReaderView { place: Place::BlockComment, ..r }
        },
        Place::Regex => if c == '/' {
            returned(r, '/')
        } else if c == '\\' {
            ReaderView { place: Place::RegexEscape, ..r }
        } else {
            r
        },
        Place::RegexEscape => ReaderView { place: Place::Regex, ..r },
        Place::Text => if c == '"' {
            closed_string(r, r.bytes)
        } else if c == '\\' {
            ReaderView { place: Place::TextEscape, ..r }
        } else {
            lengthened(r, encode_utf8(seq![c]))
        },
        Place::TextEscape => if c == 'x' {
            ReaderView { place: Place::ByteEscape, ..r }
        } else {
            match escaped_byte(c) {
                Some(b) => lengthened(r, seq![b]),
                None => lengthened(r, Seq::empty()),
            }
        },
        Place::ByteEscape => match digit_value(c) {
            Some(v) => ReaderView { place: Place::ByteDigit, digit: v, ..r },
            None => lengthened(r, Seq::empty()),
        },
        Place::ByteDigit => match digit_value(c) {
            Some(v) => lengthened(r, seq![(16 * r.digit + v) as u8]),
            None => lengthened(r, Seq::empty()),
        },
        Place::Name => if c == '"' {
            closed_string(r, encode_utf8(r.name))
        } else {
            ReaderView { name: r.name.push(c), ..r }
        },
    }
}

/// A reader that has passed a text.
pub open spec fn reader_behind(text: Seq<char>) -> ReaderView
    decreases text.len(),
{
    if text.len() == 0 {
        unread()
    } else {
        advanced(reader_behind(text.drop_last()), text.last())
    }
}

/// The text can be handed to the compiler: it holds no NUL, and what is reported or quoted of
/// its strings is text.
pub open spec fn is_compilable(text: Seq<char>) -> bool {
    !text.contains('\0') && !reader_behind(text).refused
}

fn name_char(c: char) -> (b: bool)
    ensures
        b == is_name_char(c),
{
    ('a' <= c && c <= 'z') || ('A' <= c && c <= 'Z') || ('0' <= c && c <= '9') || c == '_'
}

/// How long the first `end` characters are without the blanks at their end.
fn end_of_code(code: &[char], end: usize) -> (n: usize)
    requires
        end <= code@.len(),
    ensures
        n <= end,
        n == unpadded(code@.take(end as int)),
{
    let mut n: usize = end;
    while n > 0 && (code[n - 1] == ' ' || code[n - 1] == '\t' || code[n - 1] == '\n' || code[n - 1]
        == '\r')
        invariant
            n <= end <= code@.len(),
            unpadded(code@.take(end as int)) == unpadded(code@.take(n as int)),
        decreases n,
    {
        assert(code@.take(n as int).drop_last() =~= code@.take(n - 1));
        n = n - 1;
    }
    n
}

/// How long the first `end` characters are without the name at their end.
fn end_before_name(code: &[char], end: usize) -> (n: usize)
    requires
        end <= code@.len(),
    ensures
        n <= end,
        n == unnamed(code@.take(end as int)),
{
    let mut n: usize = end;
    while n > 0 && name_char(code[n - 1])
        invariant
            n <= end <= code@.len(),
            unnamed(code@.take(end as int)) == unnamed(code@.take(n as int)),
        decreases n,
    {
        assert(code@.take(n as int).drop_last() =~= code@.take(n - 1));
        n = n - 1;
    }
    n
}

/// Whether the first `end` characters end in a word.
fn ends_in_word(code: &[char], end: usize, word: &str) -> (b: bool)
    requires
        end <= code@.len(),
    ensures
        b == ends_in(code@.take(end as int), word@),
{
    let letters = chars_of(word);
    if letters.len() > end {
        return false;
    }
    let start: usize = end - letters.len();
    let ghost tail = code@.take(end as int).skip(start as int);
    let mut i: usize = 0;
    while i < letters.len()
        invariant
            i <= letters@.len(),
            letters@ == word@,
            start + letters@.len() == end,
            end <= code@.len(),
            tail == code@.take(end as int).skip(start as int),
            forall|k: int| 0 <= k < i ==> tail[k] == #[trigger] word@[k],
        decreases letters@.len() - i,
    {
        assert(tail[i as int] == code@[start + i]);
        if code[start + i] != letters[i] {
            assert(tail[i as int] != word@[i as int]);
            return false;
        }
        i = i + 1;
    }
    assert(tail =~= word@);
    true
}

fn file_name_follows(code: &[char], end: usize) -> (b: bool)
    requires
        7 <= end <= code@.len(),
    ensures
        b == reads_file(code@, end as int),
{
    let mut k: usize = end;
    while k < code.len()
        invariant
            end <= k <= code@.len(),
            forall|j: int| end <= j < k ==> (#[trigger] code@[j] == ' ' || code@[j] == '\t'),
        decreases code@.len() - k,
    {
        if code[k] != ' ' && code[k] != '\t' {
            return false;
        }
        k = k + 1;
    }
    if end == code.len() {
        return false;
    }
    if end == 7 {
        return true;
    }
    let c = code[end - 8];
    !name_char(c) && c != '$' && c != '#' && c != '@' && c != '!'
}

fn string_role(code: &[char]) -> (role: StringRole)
    ensures
        role == role_behind(code@),
{
    assert(code@.take(code@.len() as int) =~= code@);
    let end: usize = end_of_code(code, code.len());
    if ends_in_word(code, end, "de") {
        proof {
            reveal_strlit("de");
            reveal_strlit("inclu");
            assert(code@.take(end as int).take(end - 2) =~= code@.take(end - 2));
        }
        if ends_in_word(code, end - 2, "inclu") {
            return if file_name_follows(code, end) {
                StringRole::FileName
            } else {
                StringRole::Broken
            };
        }
    }
    if end > 0 && code[end - 1] == '=' {
        if end > 1 && (code[end - 2] == '=' || code[end - 2] == '!' || code[end - 2] == '<'
            || code[end - 2] == '>') {
            return StringRole::Operand;
        }
        let padded: usize = end_of_code(code, end - 1);
        let at: usize = end_before_name(code, padded);
        assert(code@.take(end - 1).take(padded as int) =~= code@.take(padded as int));
        return if at > 0 && code[at - 1] == '$' {
            StringRole::Pattern
        } else {
            StringRole::Metadata
        };
    }
    if ends_in_word(code, end, "contains") || ends_in_word(code, end, "startswith")
        || ends_in_word(code, end, "endswith") || ends_in_word(code, end, "iequals") {
        StringRole::Operand
    } else {
        StringRole::Loose
    }
}

/// How long the text is that C takes some bytes for.
fn shown_length(bytes: &[u8]) -> (n: usize)
    ensures
        n <= bytes@.len(),
        bytes@.take(n as int) == until_zero(bytes@),
{
    let mut n: usize = 0;
    assert(bytes@.take(0) =~= Seq::empty());
    while n < bytes.len()
        invariant
            n <= bytes@.len(),
            until_zero(bytes@.take(n as int)) == bytes@.take(n as int),
        decreases bytes@.len() - n,
    {
        assert(bytes@.take(n + 1).drop_last() =~= bytes@.take(n as int));
        if bytes[n] == 0 {
            proof {
                lemma_until_zero_stays(bytes@, n + 1);
            }
            return n;
        }
        n = n + 1;
    }
    assert(bytes@.take(n as int) =~= bytes@);
    n
}

/// What stands behind a zero counts for nothing.
proof fn lemma_until_zero_stays(bytes: Seq<u8>, upto: int)
    requires
        0 < upto <= bytes.len(),
        until_zero(bytes.take(upto)).len() < upto,
    ensures
        until_zero(bytes) == until_zero(bytes.take(upto)),
    decreases bytes.len() - upto,
{
    if upto < bytes.len() {
        assert(bytes.take(upto + 1).drop_last() =~= bytes.take(upto));
        lemma_until_zero_stays(bytes, upto + 1);
    } else {
        assert(bytes.take(upto) =~= bytes);
    }
}

fn cut_is_text(bytes: &[u8], size: usize, length: usize) -> (b: bool)
    requires
        size <= bytes@.len(),
    ensures
        b == cuts_well(bytes@.take(size as int), length as nat),
{
    if size <= length {
        return true;
    }
    let part = copy_range(bytes, 0, length);
    assert(part@ =~= bytes@.take(size as int).take(length as int));
    from_utf8(&part).is_some()
}

fn can_be_presented(role: StringRole, bytes: &[u8]) -> (b: bool)
    ensures
        b == is_presentable(role, bytes@),
{
    match role {
        StringRole::Metadata | StringRole::Loose | StringRole::FileName => {},
        _ => {
            return true;
        },
    }
    let size: usize = shown_length(bytes);
    let shown = copy_range(bytes, 0, size);
    assert(shown@ =~= bytes@.take(size as int));
    if from_utf8(&shown).is_none() {
        return false;
    }
    match role {
        StringRole::Loose => cut_is_text(bytes, size, MODULE_CUT) && cut_is_text(
            bytes,
            size,
            LITERAL_CUT,
        ),
        StringRole::FileName => cut_is_text(bytes, size, FILE_CUT),
        _ => true,
    }
}

fn value_of_digit(c: char) -> (v: Option<u8>)
    ensures
        v == digit_value(c),
        v matches Some(d) ==> d < 16,
{
    if '0' <= c && c <= '9' {
        Some((c as u32 - '0' as u32) as u8)
    } else if 'a' <= c && c <= 'f' {
        Some((c as u32 - 'a' as u32 + 10) as u8)
    } else if 'A' <= c && c <= 'F' {
        Some((c as u32 - 'A' as u32 + 10) as u8)
    } else {
        None
    }
}

fn byte_of_escape(c: char) -> (b: Option<u8>)
    ensures
        b == escaped_byte(c),
{
    if c == 't' {
        Some(9)
    } else if c == 'n' {
        Some(10)
    } else if c == 'r' {
        Some(13)
    } else if c == '"' {
        Some(34)
    } else if c == '\\' {
        Some(92)
    } else {
        None
    }
}

impl RuleReader {
    fn fresh() -> (reader: RuleReader)
        ensures
            reader@ == unread(),
            reader.digit < 16,
    {
        let reader = RuleReader {
            place: Place::Code,
            role: StringRole::Loose,
            code: Vec::new(),
            bytes: Vec::new(),
            digit: 0,
            name: Vec::new(),
            refused: false,
        };
        assert(reader@.code =~= Seq::<char>::empty());
        assert(reader@.bytes =~= Seq::<u8>::empty());
        assert(reader@.name =~= Seq::<char>::empty());
        reader
    }

    fn lengthen(&mut self, more: &[u8])
        ensures
            final(self)@ == lengthened(old(self)@, more@),
            final(self).digit == old(self).digit,
    {
        self.place = Place::Text;
        append_bytes(&mut self.bytes, more);
    }

    fn lengthen_by(&mut self, b: Option<u8>)
        ensures
            final(self)@ == lengthened(
                old(self)@,
                match b {
                    Some(v) => seq![v],
                    None => Seq::empty(),
                },
            ),
            final(self).digit == old(self).digit,
    {
        self.place = Place::Text;
        let ghost before = self.bytes@;
        match b {
            Some(v) => {
                self.bytes.push(v);
                assert(self.bytes@ =~= before + seq![v]);
            },
            None => {
                assert(self.bytes@ =~= before + Seq::<u8>::empty());
            },
        }
    }

    fn give_back(&mut self, mark: char)
        ensures
            final(self)@ == returned(old(self)@, mark),
            final(self).digit == old(self).digit,
    {
        self.place = Place::Code;
        self.code.push(mark);
    }

    fn close(&mut self, presentable: bool)
        requires
            presentable == is_presentable(
                old(self).role,
                if old(self).place == Place::Name {
                    encode_utf8(old(self).name@)
                } else {
                    old(self).bytes@
                },
            ),
        ensures
            final(self)@ == closed_string(
                old(self)@,
                if old(self).place == Place::Name {
                    encode_utf8(old(self).name@)
                } else {
                    old(self).bytes@
                },
            ),
            final(self).digit == old(self).digit,
    {
        self.refused = self.refused || !presentable;
        self.give_back('"');
    }

    fn advance_in_text(&mut self, c: char)
        requires
            old(self).digit < 16,
            old(self).place == Place::Text || old(self).place == Place::TextEscape || old(
                self,
            ).place == Place::ByteEscape || old(self).place == Place::ByteDigit || old(self).place
                == Place::Name,
        ensures
            final(self)@ == advanced(old(self)@, c),
            final(self).digit < 16,
    {
        match self.place {
            Place::Text => if c == '"' {
                let presentable = can_be_presented(self.role, &self.bytes);
                self.close(presentable);
            } else if c == '\\' {
                self.place = Place::TextEscape;
            } else {
                let mut one = String::new();
                one.push(c);
                assert(one@ =~= seq![c]);
                self.lengthen(one.as_str().as_bytes());
            },
            Place::TextEscape => if c == 'x' {
                self.place = Place::ByteEscape;
            } else {
                self.lengthen_by(byte_of_escape(c));
            },
            Place::ByteEscape => match value_of_digit(c) {
                Some(v) => {
                    self.digit = v;
                    self.place = Place::ByteDigit;
                },
                None => self.lengthen_by(None),
            },
            Place::ByteDigit => match value_of_digit(c) {
                Some(v) => {
                    let b: u8 = 16 * self.digit + v;
                    self.lengthen_by(Some(b));
                },
                None => self.lengthen_by(None),
            },
            _ => if c == '"' {
                let name = text_of(&self.name);
                let presentable = can_be_presented(self.role, name.as_str().as_bytes());
                self.close(presentable);
            } else {
                self.name.push(c);
            },
        }
    }

    fn advance(&mut self, c: char)
        requires
            old(self).digit < 16,
        ensures
            final(self)@ == advanced(old(self)@, c),
            final(self).digit < 16,
    {
        match self.place {
            Place::Code => if c == '/' {
                self.place = Place::Slash;
            } else if c == '"' {
                let role = string_role(&self.code);
                self.place = if role == StringRole::FileName {
                    Place::Name
                } else {
                    Place::Text
                };
                self.role = role;
                self.bytes = Vec::new();
                self.name = Vec::new();
                self.refused = self.refused || role == StringRole::Broken;
                assert(self@.bytes =~= Seq::<u8>::empty());
                assert(self@.name =~= Seq::<char>::empty());
            } else {
                self.give_back(c);
            },
            Place::Slash => {
                self.place = if c == '/' {
                    Place::LineComment
                } else if c == '*' {
                    Place::BlockComment
                } else if c == '\\' {
                    Place::RegexEscape
                } else {
                    Place::Regex
                };
            },
            Place::LineComment => if c == '\n' {
                self.give_back('\n');
            },
            Place::BlockComment => if c == '*' {
                self.place = Place::Asterisk;
            },
            Place::Asterisk => if c == '/' {
                self.give_back('\n');
            } else if c != '*' {
                self.place = Place::BlockComment;
            },
            Place::Regex => if c == '/' {
                self.give_back('/');
            } else if c == '\\' {
                self.place = Place::RegexEscape;
            },
            Place::RegexEscape => {
                self.place = Place::Regex;
            },
            _ => self.advance_in_text(c),
        }
    }
}

/// A reader that has passed a text, unless the text holds a NUL.
fn read_through(text: &str) -> (reader: Option<RuleReader>)
    ensures
        reader is None <==> text@.contains('\0'),
        reader matches Some(r) ==> r@ == reader_behind(text@),
{
    let chars = chars_of(text);
    let mut reader = RuleReader::fresh();
    assert(text@.take(0) =~= Seq::empty());
    let mut i: usize = 0;
    while i < chars.len()
        invariant
            i <= chars@.len(),
            chars@ == text@,
            reader.digit < 16,
            reader@ == reader_behind(text@.take(i as int)),
            forall|k: int| 0 <= k < i ==> #[trigger] text@[k] != '\0',
        decreases chars@.len() - i,
    {
        let c = chars[i];
        if c == '\0' {
            assert(text@[i as int] == '\0');
            return None;
        }
        assert(text@.take(i + 1).drop_last() =~= text@.take(i as int));
        assert(text@.take(i + 1).last() == c);
        reader.advance(c);
        i = i + 1;
    }
    assert(text@.take(i as int) =~= text@);
    Some(reader)
}

/// Whether a rule text can be handed to the compiler.
pub fn can_be_compiled(text: &str) -> (b: bool)
    ensures
        b == is_compilable(text@),
{
    match read_through(text) {
        Some(reader) => !reader.refused,
        None => false,
    }
}

/// The text can be read in by another: it can be handed to the compiler, and does not end in
/// the middle of a string, a regular expression or a comment that goes on.
pub open spec fn is_readable_in(text: Seq<char>) -> bool {
    is_compilable(text) && (reader_behind(text).place == Place::Code || reader_behind(text).place
        == Place::LineComment)
}

/// Whether a text can be read in by another.
pub fn can_be_read_in(text: &str) -> (b: bool)
    ensures
        b == is_readable_in(text@),
{
    match read_through(text) {
        Some(reader) => !reader.refused && (reader.place == Place::Code || reader.place
            == Place::LineComment),
        None => false,
    }
}

/// The names of the files that a text reads in, in order.
pub open spec fn files_named(text: Seq<char>) -> Seq<Seq<char>>
    decreases text.len(),
{
    if text.len() == 0 {
        Seq::empty()
    } else {
        let reader = reader_behind(text.drop_last());
        let before = files_named(text.drop_last());
        if reader.place == Place::Name && text.last() == '"' {
            before.push(reader.name)
        } else {
            before
        }
    }
}

/// The name of a file does not depend on where it is read.
pub open spec fn is_absolute(name: Seq<char>, windows: bool) -> bool {
    if windows {
        name.len() > 2 && name[1] == ':' && (name[2] == '/' || name[2] == '\\')
    } else {
        name.len() > 0 && name[0] == '/'
    }
}

/// The directory of a path, with the separator at its end; nothing where there is none.
pub open spec fn directory_of(path: Seq<char>, windows: bool) -> Seq<char>
    decreases path.len(),
{
    if path.len() == 0 || is_separator(path.last(), windows) {
        path
    } else {
        directory_of(path.drop_last(), windows)
    }
}

/// A text with the names of the files that it reads in taken from a directory.
pub open spec fn resolved(text: Seq<char>, directory: Seq<char>, windows: bool) -> Seq<char>
    decreases text.len(),
{
    if text.len() == 0 {
        Seq::empty()
    } else {
        let reader = reader_behind(text.drop_last());
        let before = resolved(text.drop_last(), directory, windows);
        if reader.place != Place::Name {
            before.push(text.last())
        } else if text.last() == '"' {
            if is_absolute(reader.name, windows) {
                (before + reader.name).push('"')
            } else {
                (before + directory + reader.name).push('"')
            }
        } else {
            before
        }
    }
}

/// A file that rule texts can read in, under the path by which they do.
#[derive(Debug, Clone, PartialEq, Eq)]
pub struct ReadInFile {
    pub path: String,
    pub text: String,
}

pub open spec fn file_pairs(files: Seq<ReadInFile>) -> Seq<(Seq<char>, Seq<char>)> {
    files.map_values(|f: ReadInFile| (f.path@, f.text@))
}

/// The text of the file under a path: that of the first.
pub open spec fn text_under(files: Seq<(Seq<char>, Seq<char>)>, path: Seq<char>) -> Option<
    Seq<char>,
>
    decreases files.len(),
{
    if files.len() == 0 {
        None
    } else if files[0].0 == path {
        Some(files[0].1)
    } else {
        text_under(files.skip(1), path)
    }
}

/// The text of the file under a path.
pub fn find_file(files: &[ReadInFile], path: &str) -> (text: Option<String>)
    ensures
        optional_text(text) == text_under(file_pairs(files@), path@),
{
    let ghost all = file_pairs(files@);
    let mut i: usize = 0;
    assert(all.skip(0) =~= all);
    while i < files.len()
        invariant
            i <= files@.len(),
            all == file_pairs(files@),
            text_under(all, path@) == text_under(all.skip(i as int), path@),
        decreases files@.len() - i,
    {
        assert(all.skip(i as int)[0] == (files@[i as int].path@, files@[i as int].text@));
        if same_text(files[i].path.as_str(), path) {
            return Some(files[i].text.clone());
        }
        assert(all.skip(i as int).skip(1) =~= all.skip(i + 1));
        i = i + 1;
    }
    None
}

/// The first characters up to a NUL, which ends a text for the compiler.
pub open spec fn until_nul(text: Seq<char>) -> Seq<char> {
    text.take(first_of(text, '\0'))
}

/// A file that is read in, as the compiler has it: up to a NUL, and with the names of further
/// files taken from its directory.
pub fn read_in(path: &str, text: &str, windows: bool) -> (file: ReadInFile)
    ensures
        file.path@ == path@,
        file.text@ == resolved(until_nul(text@), directory_of(path@, windows), windows),
{
    let whole = chars_of(text);
    let size: usize = find_char(&whole, '\0');
    let chars = chars_between(&whole, 0, size);
    let ghost body = until_nul(text@);
    assert(chars@ =~= body);
    let letters = chars_of(path);
    let mut end: usize = letters.len();
    assert(letters@.take(end as int) =~= path@);
    while end > 0 && !(letters[end - 1] == '/' || (windows && letters[end - 1] == '\\'))
        invariant
            end <= letters@.len(),
            letters@ == path@,
            directory_of(path@, windows) == directory_of(path@.take(end as int), windows),
        decreases end,
    {
        assert(path@.take(end as int).drop_last() =~= path@.take(end - 1));
        end = end - 1;
    }
    let directory = chars_between(&letters, 0, end);
    assert(directory@ =~= directory_of(path@, windows));
    let mut reader = RuleReader::fresh();
    let mut out: Vec<char> = Vec::new();
    let mut i: usize = 0;
    assert(body.take(0) =~= Seq::empty());
    assert(out@ =~= resolved(body.take(0), directory@, windows));
    while i < chars.len()
        invariant
            i <= chars@.len(),
            chars@ == body,
            reader.digit < 16,
            reader@ == reader_behind(body.take(i as int)),
            out@ == resolved(body.take(i as int), directory@, windows),
        decreases chars@.len() - i,
    {
        let c = chars[i];
        let ghost shorter = body.take(i as int);
        assert(body.take(i + 1).drop_last() =~= shorter);
        assert(body.take(i + 1).last() == c);
        let ghost before = out@;
        if reader.place != Place::Name {
            out.push(c);
        } else if c == '"' {
            let size: usize = reader.name.len();
            let absolute = if windows {
                size > 2 && reader.name[1] == ':' && (reader.name[2] == '/' || reader.name[2]
                    == '\\')
            } else {
                size > 0 && reader.name[0] == '/'
            };
            if !absolute {
                append_chars(&mut out, &directory);
            }
            append_chars(&mut out, &reader.name);
            out.push('"');
        }
        reader.advance(c);
        i = i + 1;
    }
    assert(body.take(i as int) =~= body);
    ReadInFile { path: path.to_string(), text: text_of(&out) }
}

/// The names among `names` that are not known, each once, in order.
pub open spec fn unknown_among(names: Seq<Seq<char>>, known: Seq<Seq<char>>) -> Seq<Seq<char>>
    decreases names.len(),
{
    if names.len() == 0 {
        Seq::empty()
    } else {
        let before = unknown_among(names.drop_last(), known);
        if known.contains(names.last()) || before.contains(names.last()) {
            before
        } else {
            before.push(names.last())
        }
    }
}

/// The names of the files that texts read in, text by text.
pub open spec fn all_files_named(sources: Seq<Seq<char>>) -> Seq<Seq<char>>
    decreases sources.len(),
{
    if sources.len() == 0 {
        Seq::empty()
    } else {
        all_files_named(sources.drop_last()) + files_named(sources.last())
    }
}

fn names_in(text: &str) -> (names: Vec<String>)
    ensures
        texts(names@) == files_named(text@),
{
    let chars = chars_of(text);
    let mut reader = RuleReader::fresh();
    let mut names: Vec<String> = Vec::new();
    let mut i: usize = 0;
    assert(text@.take(0) =~= Seq::empty());
    assert(texts(names@) =~= Seq::empty());
    while i < chars.len()
        invariant
            i <= chars@.len(),
            chars@ == text@,
            reader.digit < 16,
            reader@ == reader_behind(text@.take(i as int)),
            texts(names@) == files_named(text@.take(i as int)),
        decreases chars@.len() - i,
    {
        let c = chars[i];
        assert(text@.take(i + 1).drop_last() =~= text@.take(i as int));
        assert(text@.take(i + 1).last() == c);
        if reader.place == Place::Name && c == '"' {
            push_text(&mut names, text_of(&reader.name));
        }
        reader.advance(c);
        i = i + 1;
    }
    assert(text@.take(i as int) =~= text@);
    names
}

fn holds_text(items: &[String], text: &str) -> (b: bool)
    ensures
        b == texts(items@).contains(text@),
{
    let mut i: usize = 0;
    while i < items.len()
        invariant
            i <= items@.len(),
            forall|k: int| 0 <= k < i ==> texts(items@)[k] != text@,
        decreases items@.len() - i,
    {
        assert(texts(items@)[i as int] == items@[i as int]@);
        if same_text(items[i].as_str(), text) {
            return true;
        }
        i = i + 1;
    }
    false
}

/// The files that have yet to be read for some rule texts: those that the texts read in and
/// that are not known.
pub fn files_to_read(sources: &[String], known: &[String]) -> (names: Vec<String>)
    ensures
        texts(names@) == unknown_among(all_files_named(texts(sources@)), texts(known@)),
{
    let ghost all = texts(sources@);
    let mut names: Vec<String> = Vec::new();
    let mut i: usize = 0;
    assert(all.take(0) =~= Seq::empty());
    assert(texts(names@) =~= Seq::empty());
    while i < sources.len()
        invariant
            i <= sources@.len(),
            all == texts(sources@),
            texts(names@) == unknown_among(all_files_named(all.take(i as int)), texts(known@)),
        decreases sources@.len() - i,
    {
        assert(all.take(i + 1).drop_last() =~= all.take(i as int));
        assert(all.take(i + 1).last() == sources@[i as int]@);
        let more = names_in(sources[i].as_str());
        let ghost before = all_files_named(all.take(i as int));
        let ghost added = texts(more@);
        let mut j: usize = 0;
        assert(before + added.take(0) =~= before);
        while j < more.len()
            invariant
                j <= more@.len(),
                added == texts(more@),
                texts(names@) == unknown_among(before + added.take(j as int), texts(known@)),
            decreases more@.len() - j,
        {
            let ghost longer = before + added.take(j + 1);
            assert(longer.drop_last() =~= before + added.take(j as int));
            assert(longer.last() == more@[j as int]@);
            if !holds_text(known, more[j].as_str()) && !holds_text(&names, more[j].as_str()) {
                push_text(&mut names, more[j].clone());
            }
            j = j + 1;
        }
        assert(before + added.take(j as int) =~= before + added);
        i = i + 1;
    }
    assert(all.take(i as int) =~= all);
    names
}

fn append_chars(out: &mut Vec<char>, more: &[char])
    ensures
        final(out)@ == old(out)@ + more@,
{
    let mut i: usize = 0;
    assert(out@ + more@.take(0) =~= out@);
    while i < more.len()
        invariant
            i <= more@.len(),
            out@ == old(out)@ + more@.take(i as int),
        decreases more@.len() - i,
    {
        out.push(more[i]);
        assert(more@.take(i + 1) =~= more@.take(i as int).push(more@[i as int]));
        i = i + 1;
    }
    assert(more@.take(i as int) =~= more@);
}

} // verus!
