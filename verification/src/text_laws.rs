//! What searching, splitting, trimming and writing of texts and bytes must do.

use crate::bytes::{
    holds_narrow, holds_wide, letters_at, same_letter, u16_at, u16_bytes, u32_at, u32_bytes, wide,
    wide_at,
};
use crate::text::{
    begins_with, contains_text, decimal, distinct, finishes_with, index_from, is_digit, is_white,
    joined, lemma_decimal, lemma_split_nonempty, lowered, occurs_at, parsed_unsigned, replaced,
    split_by, trimmed, unsigned_body, without_leading, without_trailing,
};
use vstd::prelude::*;
use vstd::utf8::encode_utf8;

verus! {

/// A text stands in every text that is made around it, and at its start and its end where
/// nothing is put before it or behind it.
pub proof fn law_text_is_found_inside(a: Seq<char>, needle: Seq<char>, b: Seq<char>)
    ensures
        contains_text(a + needle + b, needle),
        begins_with(needle + b, needle),
        finishes_with(a + needle, needle),
{
    let s = a + needle + b;
    assert(s.subrange(a.len() as int, (a.len() + needle.len()) as int) =~= needle);
    assert(occurs_at(s, needle, a.len() as int));
    assert((needle + b).subrange(0, needle.len() as int) =~= needle);
    let t = a + needle;
    assert(t.subrange(t.len() - needle.len(), t.len() as int) =~= needle);
}

/// A text that stands in another is a part of it.
pub proof fn law_found_text_is_a_part(s: Seq<char>, needle: Seq<char>) -> (parts: (
    Seq<char>,
    Seq<char>,
))
    requires
        contains_text(s, needle),
    ensures
        s == parts.0 + needle + parts.1,
{
    let at = choose|at: int| #[trigger] occurs_at(s, needle, at);
    let a = s.take(at);
    let b = s.skip(at + needle.len());
    assert(s =~= a + needle + b) by {
        assert forall|k: int| 0 <= k < needle.len() implies #[trigger] s[at + k] == needle[k] by {
            assert(s.subrange(at, at + needle.len())[k] == s[at + k]);
        }
        assert forall|i: int| at <= i < at + needle.len() implies s[i] == (a + needle + b)[i] by {
            assert(s[at + (i - at)] == needle[i - at]);
        }
    }
    (a, b)
}

/// Text that is put around another one hides nothing that stands in it.
pub proof fn law_more_text_hides_nothing(a: Seq<char>, s: Seq<char>, b: Seq<char>, needle: Seq<char>)
    requires
        contains_text(s, needle),
    ensures
        contains_text(a + s + b, needle),
{
    let (x, y) = law_found_text_is_a_part(s, needle);
    law_text_is_found_inside(a + x, needle, y + b);
    assert(a + s + b =~= (a + x) + needle + (y + b));
}

/// The first place where a text stands: nowhere before it does it stand, and it is the length
/// of the whole where it stands nowhere.
pub proof fn law_first_place_is_first(s: Seq<char>, needle: Seq<char>, from: int)
    requires
        0 <= from,
        needle.len() > 0,
    ensures
        ({
            let at = index_from(s, needle, from);
            &&& at <= s.len()
            &&& at < s.len() ==> from <= at && at + needle.len() <= s.len() && s.subrange(
                at,
                at + needle.len(),
            ) == needle
            &&& forall|k: int|
                from <= k && k + needle.len() <= s.len() && k < at ==> #[trigger] s.subrange(
                    k,
                    k + needle.len(),
                ) != needle
        }),
    decreases s.len() - from,
{
    if from < s.len() && !occurs_at(s, needle, from) {
        law_first_place_is_first(s, needle, from + 1);
    }
}

/// Small letters stand for capitals and small letters; everything else stays.
pub proof fn law_lowering_changes_capitals_alone(s: Seq<char>)
    ensures
        lowered(s).len() == s.len(),
        lowered(lowered(s)) == lowered(s),
        forall|i: int|
            0 <= i < s.len() ==> if 'A' <= s[i] <= 'Z' {
                #[trigger] lowered(s)[i] as u32 == s[i] as u32 + 32
            } else {
                lowered(s)[i] == s[i]
            },
{
    assert(lowered(lowered(s)) =~= lowered(s));
}

/// What is trimmed neither begins nor ends with white space, and only white space is cut.
pub proof fn law_trimming_cuts_white_space_alone(a: Seq<char>, body: Seq<char>, b: Seq<char>)
    requires
        forall|i: int| 0 <= i < a.len() ==> is_white(#[trigger] a[i]),
        forall|i: int| 0 <= i < b.len() ==> is_white(#[trigger] b[i]),
        body.len() > 0,
        !is_white(body[0]),
        !is_white(body.last()),
    ensures
        trimmed(a + body + b) == body,
{
    let drop = |c: char| is_white(c);
    lemma_leading(a, body + b);
    assert(a + (body + b) =~= a + body + b);
    lemma_trailing(body, b);
}

proof fn lemma_leading(a: Seq<char>, rest: Seq<char>)
    requires
        forall|i: int| 0 <= i < a.len() ==> is_white(#[trigger] a[i]),
        rest.len() > 0,
        !is_white(rest[0]),
    ensures
        without_leading(a + rest, |c: char| is_white(c)) == rest,
    decreases a.len(),
{
    let drop = |c: char| is_white(c);
    if a.len() == 0 {
        assert(a + rest =~= rest);
        assert(!drop(rest[0]));
    } else {
        let tail = a.skip(1);
        assert forall|i: int| 0 <= i < tail.len() implies is_white(#[trigger] tail[i]) by {
            assert(tail[i] == a[i + 1]);
        }
        lemma_leading(tail, rest);
        assert((a + rest)[0] == a[0]);
        assert(drop(a[0]));
        assert((a + rest).skip(1) =~= tail + rest);
    }
}

proof fn lemma_trailing(body: Seq<char>, b: Seq<char>)
    requires
        forall|i: int| 0 <= i < b.len() ==> is_white(#[trigger] b[i]),
        body.len() > 0,
        !is_white(body.last()),
    ensures
        without_trailing(body + b, |c: char| is_white(c)) == body,
    decreases b.len(),
{
    let drop = |c: char| is_white(c);
    if b.len() == 0 {
        assert(body + b =~= body);
        assert(!drop(body.last()));
    } else {
        assert(is_white(b[b.len() - 1]));
        lemma_trailing(body, b.drop_last());
        assert((body + b).last() == b.last());
        assert(drop(b.last()));
        assert((body + b).drop_last() =~= body + b.drop_last());
    }
}

/// The pieces between separators hold none, and joined by it they give the whole again.
pub proof fn law_split_pieces_join_again(s: Seq<char>, separator: char)
    ensures
        joined(split_by(s, separator), seq![separator]) == s,
        forall|i: int|
            0 <= i < split_by(s, separator).len() ==> !(#[trigger] split_by(
                s,
                separator,
            )[i]).contains(separator),
    decreases s.len(),
{
    let pieces = split_by(s, separator);
    if s.len() == 0 {
        assert(s =~= Seq::empty());
        assert(!Seq::<char>::empty().contains(separator));
    } else {
        let front = s.drop_last();
        let c = s.last();
        let rest = split_by(front, separator);
        law_split_pieces_join_again(front, separator);
        lemma_split_nonempty(front, separator);
        let n = rest.len() - 1;
        assert(s =~= front.push(c));
        if c == separator {
            assert(pieces == rest.push(Seq::<char>::empty()));
            assert(pieces.drop_last() =~= rest);
            assert(pieces.last() =~= Seq::<char>::empty());
            assert(joined(pieces, seq![separator]) =~= front + seq![separator]
                + Seq::<char>::empty());
            assert forall|i: int| 0 <= i < pieces.len() implies !(#[trigger] pieces[i]).contains(
                separator,
            ) by {
                if i < rest.len() {
                    assert(pieces[i] == rest[i]);
                }
            }
        } else {
            let longer = rest[n].push(c);
            assert(pieces == rest.update(n, longer));
            assert forall|i: int| 0 <= i < pieces.len() implies !(#[trigger] pieces[i]).contains(
                separator,
            ) by {
                if i == n {
                    assert(!rest[n].contains(separator));
                    vstd::seq_lib::lemma_seq_contains_after_push(rest[n], c, separator);
                } else {
                    assert(pieces[i] == rest[i]);
                }
            }
            if n == 0 {
                assert(joined(rest, seq![separator]) == rest[0]);
            } else {
                assert(pieces.drop_last() =~= rest.drop_last());
                assert(joined(pieces, seq![separator]) =~= joined(rest, seq![separator]).push(c));
            }
        }
    }
}

/// A character is put in the place of another one, everywhere and nowhere else.
pub proof fn law_replacing_changes_one_character(s: Seq<char>, from: char, to: char)
    ensures
        replaced(s, from, to).len() == s.len(),
        forall|i: int|
            0 <= i < s.len() ==> #[trigger] replaced(s, from, to)[i] == if s[i] == from {
                to
            } else {
                s[i]
            },
        from != to ==> !replaced(s, from, to).contains(from),
{
    let r = replaced(s, from, to);
    if from != to && r.contains(from) {
        let i = r.index_of(from);
        assert(r[i] == from);
    }
}

/// A number as text reads back as the number, up to the limit and not beyond; signs other than
/// a plus and other characters are not read.
pub proof fn law_number_reads_back(n: nat, limit: nat)
    ensures
        parsed_unsigned(decimal(n), limit) == if n <= limit {
            Some(n)
        } else {
            None
        },
        parsed_unsigned(seq!['+'] + decimal(n), limit) == parsed_unsigned(decimal(n), limit),
        parsed_unsigned(seq!['-'] + decimal(n), limit) is None,
        parsed_unsigned(Seq::empty(), limit) is None,
{
    lemma_decimal(n);
    let d = decimal(n);
    assert(is_digit(d[0]));
    assert(unsigned_body(d) == d);
    let plus = seq!['+'] + d;
    assert(plus.skip(1) =~= d);
    let minus = seq!['-'] + d;
    assert(minus[0] == '-');
    assert(!is_digit(minus[0]));
}

/// What repeats is dropped and nothing else: the texts are the same, none occurs twice, and
/// distinct ones are left as they are.
pub proof fn law_distinct_texts_are_kept(items: Seq<Seq<char>>, text: Seq<char>)
    ensures
        distinct(items).contains(text) == items.contains(text),
        distinct(items).no_duplicates(),
        items.no_duplicates() ==> distinct(items) == items,
    decreases items.len(),
{
    if items.len() > 0 {
        let front = items.drop_last();
        let before = distinct(front);
        law_distinct_texts_are_kept(front, text);
        law_distinct_texts_are_kept(front, items.last());
        assert(items =~= front.push(items.last()));
        vstd::seq_lib::lemma_seq_contains_after_push(front, items.last(), text);
        vstd::seq_lib::lemma_seq_contains_after_push(before, items.last(), text);
        if items.no_duplicates() {
            assert(front.no_duplicates());
            if front.contains(items.last()) {
                let k = front.index_of(items.last());
                assert(items[k] == items[items.len() - 1]);
            }
        }
    } else {
        assert(items =~= Seq::empty());
    }
}

/// The letters are equal but for the case of ASCII letters.
pub open spec fn alike(a: u8, b: u8) -> bool {
    a == b || (65 <= a <= 90 && b == a + 32) || (65 <= b <= 90 && a == b + 32)
}

/// A text is found in bytes wherever its own bytes stand, in any letter case.
pub proof fn law_narrow_text_is_found(
    head: Seq<u8>,
    shown: Seq<u8>,
    tail: Seq<u8>,
    text: Seq<char>,
)
    requires
        shown.len() == encode_utf8(text).len(),
        shown.len() > 0,
        forall|k: int| 0 <= k < shown.len() ==> alike(#[trigger] shown[k], encode_utf8(text)[k]),
    ensures
        holds_narrow(head + shown + tail, text),
{
    let needle = encode_utf8(text);
    let data = head + shown + tail;
    let at = head.len() as int;
    assert forall|k: int| 0 <= k < needle.len() implies same_letter(
        #[trigger] data[at + k],
        needle[k],
    ) by {
        assert(data[at + k] == shown[k]);
        assert(alike(shown[k], needle[k]));
    }
    assert(letters_at(data, needle, at));
}

/// Where a text is found in bytes, its own bytes stand, in some letter case.
pub proof fn law_found_narrow_text_stands(data: Seq<u8>, text: Seq<char>) -> (at: int)
    requires
        holds_narrow(data, text),
    ensures
        0 <= at && at + encode_utf8(text).len() <= data.len(),
        encode_utf8(text).len() > 0,
        forall|k: int|
            0 <= k < encode_utf8(text).len() ==> alike(
                #[trigger] data[at + k],
                encode_utf8(text)[k],
            ),
{
    let needle = encode_utf8(text);
    let at = choose|at: int| #[trigger] letters_at(data, needle, at);
    assert forall|k: int| 0 <= k < needle.len() implies alike(
        #[trigger] data[at + k],
        needle[k],
    ) by {
        assert(same_letter(data[at + k], needle[k]));
    }
    at
}

/// Bytes that are put around others hide no text that is found in them.
pub proof fn law_more_bytes_hide_nothing(a: Seq<u8>, data: Seq<u8>, b: Seq<u8>, text: Seq<char>)
    requires
        holds_narrow(data, text),
    ensures
        holds_narrow(a + data + b, text),
{
    let at = law_found_narrow_text_stands(data, text);
    let needle = encode_utf8(text);
    let whole = a + data + b;
    let there = a.len() + at;
    assert forall|k: int| 0 <= k < needle.len() implies same_letter(
        #[trigger] whole[there + k],
        needle[k],
    ) by {
        assert(whole[there + k] == data[at + k]);
        assert(alike(data[at + k], needle[k]));
    }
    assert(letters_at(whole, needle, there));
}

/// A text in two-byte units is found wherever its units stand.
pub proof fn law_wide_text_is_found(head: Seq<u8>, tail: Seq<u8>, text: Seq<char>)
    requires
        wide(text).len() > 0,
    ensures
        holds_wide(head + wide(text) + tail, text),
{
    let needle = wide(text);
    let data = head + needle + tail;
    let at = head.len() as int;
    assert forall|k: int| 0 <= k < needle.len() implies #[trigger] data[at + k] == needle[k] by {}
    assert(wide_at(data, needle, at));
}

/// A field that is written in little-endian order reads back, wherever it stands.
pub proof fn law_fields_read_back(head: Seq<u8>, tail: Seq<u8>, short: nat, long: nat)
    requires
        short <= 0xffff,
        long <= 0xffff_ffff,
    ensures
        u16_at(head + u16_bytes(short) + tail, head.len() as int) == short,
        u32_at(head + u32_bytes(long) + tail, head.len() as int) == long,
{
    let at = head.len() as int;
    let a = head + u16_bytes(short) + tail;
    assert(a[at] == u16_bytes(short)[0] && a[at + 1] == u16_bytes(short)[1]);
    let b = head + u32_bytes(long) + tail;
    let low = long % 0x10000;
    let high = long / 0x10000;
    assert(b[at] == u16_bytes(low)[0]);
    assert(b[at + 1] == u16_bytes(low)[1]);
    assert(b[at + 2] == u16_bytes(high)[0]);
    assert(b[at + 3] == u16_bytes(high)[1]);
}

} // verus!
