//! Byte buffers: searches that ignore ASCII case, wide (UTF-16LE) text, and
//! little-endian fields.

use vstd::prelude::*;
use vstd::utf8::{char_is_scalar, encode_utf8};

verus! {

/// An ASCII capital in lower case; any other byte as it is.
pub open spec fn lower_byte(b: u8) -> u8 {
    if 65 <= b <= 90 {
        (b + 32) as u8
    } else {
        b
    }
}

/// The bytes are equal but for ASCII case.
pub open spec fn same_letter(a: u8, b: u8) -> bool {
    lower_byte(a) == lower_byte(b)
}

/// `needle` stands in `data` at `at`, byte for byte.
pub open spec fn bytes_at(data: Seq<u8>, needle: Seq<u8>, at: int) -> bool {
    0 <= at && at + needle.len() <= data.len() && data.subrange(at, at + needle.len()) == needle
}

/// `needle` stands in `data` at `at`, but for ASCII case.
pub open spec fn letters_at(data: Seq<u8>, needle: Seq<u8>, at: int) -> bool {
    0 <= at && at + needle.len() <= data.len() && forall|k: int|
        0 <= k < needle.len() ==> same_letter(#[trigger] data[at + k], needle[k])
}

/// `data` holds the non-empty `needle`, but for ASCII case.
pub open spec fn holds_letters(data: Seq<u8>, needle: Seq<u8>) -> bool {
    needle.len() > 0 && exists|at: int| #[trigger] letters_at(data, needle, at)
}

/// `data` holds the UTF-8 bytes of a text, but for ASCII case.
pub open spec fn holds_narrow(data: Seq<u8>, text: Seq<char>) -> bool {
    holds_letters(data, encode_utf8(text))
}

/// The UTF-16 code units of a character.
pub open spec fn char_units(c: char) -> Seq<u16> {
    let code = c as u32;
    if code < 0x10000 {
        seq![code as u16]
    } else {
        seq![
            (0xD800 + (code - 0x10000) / 0x400) as u16,
            (0xDC00 + (code - 0x10000) % 0x400) as u16,
        ]
    }
}

/// The UTF-16 code units of a text.
pub open spec fn text_units(s: Seq<char>) -> Seq<u16>
    decreases s.len(),
{
    if s.len() == 0 {
        Seq::empty()
    } else {
        text_units(s.drop_last()) + char_units(s.last())
    }
}

/// Code units in little-endian byte order.
pub open spec fn unit_bytes(units: Seq<u16>) -> Seq<u8> {
    Seq::new(
        2 * units.len(),
        |i: int|
            if i % 2 == 0 {
                (units[i / 2] % 256) as u8
            } else {
                (units[i / 2] / 256) as u8
            },
    )
}

/// The UTF-16LE bytes of a text.
pub open spec fn wide(s: Seq<char>) -> Seq<u8> {
    unit_bytes(text_units(s))
}

/// The UTF-16LE bytes of a text stand in `data` at `at`, the low byte of each unit
/// but for ASCII case, the high byte as it is.
pub open spec fn wide_at(data: Seq<u8>, encoded: Seq<u8>, at: int) -> bool {
    0 <= at && at + encoded.len() <= data.len() && forall|k: int|
        0 <= k < encoded.len() ==> if k % 2 == 0 {
            same_letter(#[trigger] data[at + k], encoded[k])
        } else {
            data[at + k] == encoded[k]
        }
}

/// `data` holds the UTF-16LE bytes of a non-empty text, but for ASCII case.
pub open spec fn holds_wide(data: Seq<u8>, text: Seq<char>) -> bool {
    wide(text).len() > 0 && exists|at: int| #[trigger] wide_at(data, wide(text), at)
}

/// The little-endian 16-bit field at `at`.
pub open spec fn u16_at(data: Seq<u8>, at: int) -> nat {
    (data[at] + 0x100 * data[at + 1]) as nat
}

/// The little-endian 32-bit field at `at`.
pub open spec fn u32_at(data: Seq<u8>, at: int) -> nat {
    u16_at(data, at) + 0x10000 * u16_at(data, at + 2)
}

/// The two bytes of a little-endian 16-bit field.
pub open spec fn u16_bytes(v: nat) -> Seq<u8> {
    seq![(v % 256) as u8, (v / 256 % 256) as u8]
}

/// The four bytes of a little-endian 32-bit field.
pub open spec fn u32_bytes(v: nat) -> Seq<u8> {
    u16_bytes(v % 0x10000) + u16_bytes(v / 0x10000)
}

/// The eight bytes of a little-endian 64-bit field.
pub open spec fn u64_bytes(v: nat) -> Seq<u8> {
    u32_bytes(v % 0x1_0000_0000) + u32_bytes(v / 0x1_0000_0000)
}

/// `count` zero bytes.
pub open spec fn zeros(count: nat) -> Seq<u8> {
    Seq::new(count, |i: int| 0u8)
}

/// `data` with `part` written over it at `at`.
pub open spec fn overwritten(data: Seq<u8>, at: int, part: Seq<u8>) -> Seq<u8> {
    Seq::new(
        data.len(),
        |i: int|
            if at <= i < at + part.len() {
                part[i - at]
            } else {
                data[i]
            },
    )
}

pub proof fn lemma_joined(a: Seq<u8>, b: Seq<u8>, c: Seq<u8>)
    ensures
        (a + b) + c == a + (b + c),
{
    assert((a + b) + c =~= a + (b + c));
}

/// A field that lies in the first part of a buffer.
pub proof fn lemma_field_left(x: Seq<u8>, y: Seq<u8>, at: int)
    requires
        0 <= at,
        at + 4 <= x.len(),
    ensures
        u32_at(x + y, at) == u32_at(x, at),
{
}

/// A field that lies in the second part of a buffer.
pub proof fn lemma_field_right(x: Seq<u8>, y: Seq<u8>, at: int)
    requires
        0 <= at,
        at + 4 <= y.len(),
    ensures
        u32_at(x + y, x.len() + at) == u32_at(y, at),
{
}

pub proof fn lemma_u64_len(v: nat)
    ensures
        u64_bytes(v).len() == 8,
{
    assert(u32_bytes(v % 0x1_0000_0000).len() == 4);
    assert(u32_bytes(v / 0x1_0000_0000).len() == 4);
}

/// Reading a 32-bit field gives back the number that was written.
pub proof fn lemma_field_value(v: nat)
    requires
        v < 0x1_0000_0000,
    ensures
        u32_at(u32_bytes(v), 0) == v,
        u32_bytes(v).len() == 4,
{
}

pub fn lower_byte_of(b: u8) -> (l: u8)
    ensures
        l == lower_byte(b),
{
    if 65 <= b && b <= 90 {
        b + 32
    } else {
        b
    }
}

/// `needle` stands in `data` at `at`.
pub fn has_bytes_at(data: &[u8], needle: &[u8], at: usize) -> (b: bool)
    ensures
        b == bytes_at(data@, needle@, at as int),
{
    if at > data.len() || needle.len() > data.len() - at {
        return false;
    }
    let end: usize = at + needle.len();
    let mut j: usize = 0;
    while j < needle.len()
        invariant
            j <= needle@.len(),
            end == at + needle@.len() <= data@.len(),
            forall|k: int| 0 <= k < j ==> data@[at + k] == needle@[k],
        decreases needle@.len() - j,
    {
        if data[at + j] != needle[j] {
            assert(data@.subrange(at as int, at + needle@.len())[j as int] != needle@[j as int]);
            return false;
        }
        j = j + 1;
    }
    assert(data@.subrange(at as int, at + needle@.len()) =~= needle@);
    true
}

/// `data` holds the non-empty `needle`, but for ASCII case.
pub fn has_letters(data: &[u8], needle: &[u8]) -> (b: bool)
    ensures
        b == holds_letters(data@, needle@),
{
    if needle.len() == 0 || needle.len() > data.len() {
        return false;
    }
    let last: usize = data.len() - needle.len();
    let size: usize = needle.len();
    let mut i: usize = 0;
    loop
        invariant
            i <= last,
            size == needle@.len(),
            last + size == data@.len(),
            last + size <= usize::MAX,
            size > 0,
            forall|k: int| 0 <= k < i ==> !letters_at(data@, needle@, k),
        ensures
            forall|k: int| 0 <= k <= last ==> !letters_at(data@, needle@, k),
        decreases last - i,
    {
        let mut j: usize = 0;
        while j < size && lower_byte_of(data[i + j]) == lower_byte_of(needle[j])
            invariant
                j <= size,
                size == needle@.len(),
                i <= last,
                last + size == data@.len(),
                last + size <= usize::MAX,
                forall|k: int| 0 <= k < j ==> same_letter(#[trigger] data@[i + k], needle@[k]),
            decreases size - j,
        {
            j = j + 1;
        }
        if j == size {
            assert(letters_at(data@, needle@, i as int));
            return true;
        }
        assert(!letters_at(data@, needle@, i as int)) by {
            assert(!same_letter(data@[i + j], needle@[j as int]));
        }
        if i == last {
            break;
        }
        i = i + 1;
    }
    false
}

/// `data` holds a text, but for ASCII case.
pub fn has_narrow(data: &[u8], text: &str) -> (b: bool)
    ensures
        b == holds_narrow(data@, text@),
{
    has_letters(data, text.as_bytes())
}

/// The UTF-16LE bytes of a text.
pub fn wide_bytes(text: &str) -> (encoded: Vec<u8>)
    ensures
        encoded@ == wide(text@),
{
    let mut encoded: Vec<u8> = Vec::new();
    assert(encoded@ =~= unit_bytes(text_units(text@.take(0))));
    for c in it: text.chars()
        invariant
            it.seq() == text@,
            encoded@ == unit_bytes(text_units(text@.take(it.index() as int))),
    {
        let ghost before = text_units(text@.take(it.index() as int));
        assert(text@.take(it.index() + 1).drop_last() =~= text@.take(it.index() as int));
        assert(text@.take(it.index() + 1).last() == c);
        let code: u32 = c as u32;
        proof {
            char_is_scalar(c);
        }
        if code < 0x10000 {
            encoded.push((code % 256) as u8);
            encoded.push((code / 256) as u8);
            assert(encoded@ =~= unit_bytes(before + char_units(c)));
        } else {
            let high: u32 = 0xD800 + (code - 0x10000) / 0x400;
            let low: u32 = 0xDC00 + (code - 0x10000) % 0x400;
            assert(high < 0xDC00 && low < 0xE000);
            encoded.push((high % 256) as u8);
            encoded.push((high / 256) as u8);
            encoded.push((low % 256) as u8);
            encoded.push((low / 256) as u8);
            assert(encoded@ =~= unit_bytes(before + char_units(c)));
        }
    }
    assert(text@.take(text@.len() as int) =~= text@);
    encoded
}

/// The byte at offset `k` of wide text is `b`, the low byte of a unit but for ASCII case.
fn same_wide_byte(k: usize, a: u8, b: u8) -> (same: bool)
    ensures
        same == (if k % 2 == 0 {
            same_letter(a, b)
        } else {
            a == b
        }),
{
    if k % 2 == 0 {
        lower_byte_of(a) == lower_byte_of(b)
    } else {
        a == b
    }
}

/// `data` holds the UTF-16LE bytes of a text, but for ASCII case.
pub fn has_wide(data: &[u8], text: &str) -> (b: bool)
    ensures
        b == holds_wide(data@, text@),
{
    let encoded = wide_bytes(text);
    if encoded.len() == 0 || encoded.len() > data.len() {
        return false;
    }
    let last: usize = data.len() - encoded.len();
    let size: usize = encoded.len();
    let mut i: usize = 0;
    loop
        invariant
            i <= last,
            size == encoded@.len(),
            encoded@ == wide(text@),
            last + size == data@.len(),
            last + size <= usize::MAX,
            size > 0,
            forall|k: int| 0 <= k < i ==> !wide_at(data@, encoded@, k),
        ensures
            forall|k: int| 0 <= k <= last ==> !wide_at(data@, encoded@, k),
        decreases last - i,
    {
        let mut j: usize = 0;
        while j < size && same_wide_byte(j, data[i + j], encoded[j])
            invariant
                j <= size,
                size == encoded@.len(),
                i <= last,
                last + size == data@.len(),
                last + size <= usize::MAX,
                forall|k: int|
                    0 <= k < j ==> if k % 2 == 0 {
                        same_letter(#[trigger] data@[i + k], encoded@[k])
                    } else {
                        data@[i + k] == encoded@[k]
                    },
            decreases size - j,
        {
            j = j + 1;
        }
        if j == size {
            assert(wide_at(data@, encoded@, i as int));
            return true;
        }
        assert(!wide_at(data@, encoded@, i as int)) by {
            let b = data@[i + j];
        }
        if i == last {
            break;
        }
        i = i + 1;
    }
    false
}

/// The little-endian 16-bit field at `at`.
pub fn read_u16(data: &[u8], at: usize) -> (v: u16)
    requires
        at + 2 <= data@.len(),
    ensures
        v == u16_at(data@, at as int),
{
    data[at] as u16 + 0x100 * (data[at + 1] as u16)
}

/// The little-endian 32-bit field at `at`.
pub fn read_u32(data: &[u8], at: usize) -> (v: u32)
    requires
        at + 4 <= data@.len(),
    ensures
        v == u32_at(data@, at as int),
{
    let size: usize = data.len();
    assert(at + 2 <= size);
    read_u16(data, at) as u32 + 0x10000 * (read_u16(data, at + 2) as u32)
}

/// Writes `part` over `data` at `at`.
pub fn write_bytes(data: &mut Vec<u8>, at: usize, part: &[u8])
    requires
        at + part@.len() <= old(data)@.len(),
    ensures
        final(data)@ == overwritten(old(data)@, at as int, part@),
{
    let mut j: usize = 0;
    let size: usize = data.len();
    assert(data@ =~= overwritten(data@, at as int, part@.take(0)));
    while j < part.len()
        invariant
            j <= part@.len(),
            size == data@.len(),
            old(data)@.len() == size,
            at + part@.len() <= size,
            data@ == overwritten(old(data)@, at as int, part@.take(j as int)),
        decreases part@.len() - j,
    {
        let b: u8 = part[j];
        data.set(at + j, b);
        assert(data@ =~= overwritten(old(data)@, at as int, part@.take(j + 1)));
        j = j + 1;
    }
    assert(part@.take(j as int) =~= part@);
}

pub fn bytes_of_u16(v: u16) -> (r: Vec<u8>)
    ensures
        r@ == u16_bytes(v as nat),
{
    let mut r: Vec<u8> = Vec::new();
    r.push((v % 256) as u8);
    r.push((v / 256) as u8);
    assert(r@ =~= u16_bytes(v as nat));
    r
}

pub fn bytes_of_u32(v: u32) -> (r: Vec<u8>)
    ensures
        r@ == u32_bytes(v as nat),
{
    let mut r: Vec<u8> = bytes_of_u16((v % 0x10000) as u16);
    let mut high: Vec<u8> = bytes_of_u16((v / 0x10000) as u16);
    r.append(&mut high);
    r
}

pub fn bytes_of_u64(v: u64) -> (r: Vec<u8>)
    ensures
        r@ == u64_bytes(v as nat),
{
    let mut r: Vec<u8> = bytes_of_u32((v % 0x1_0000_0000) as u32);
    let mut high: Vec<u8> = bytes_of_u32((v / 0x1_0000_0000) as u32);
    r.append(&mut high);
    r
}

/// Appends `part` to `data`.
pub fn append_bytes(data: &mut Vec<u8>, part: &[u8])
    ensures
        final(data)@ == old(data)@ + part@,
{
    let mut j: usize = 0;
    assert(data@ =~= data@ + part@.take(0));
    while j < part.len()
        invariant
            j <= part@.len(),
            data@ == old(data)@ + part@.take(j as int),
        decreases part@.len() - j,
    {
        data.push(part[j]);
        assert(data@ =~= old(data)@ + part@.take(j + 1));
        j = j + 1;
    }
    assert(part@.take(j as int) =~= part@);
}

/// Appends a little-endian 16-bit field.
pub fn append_u16(data: &mut Vec<u8>, v: u16)
    ensures
        final(data)@ == old(data)@ + u16_bytes(v as nat),
{
    let field = bytes_of_u16(v);
    append_bytes(data, &field);
}

/// Appends a little-endian 32-bit field.
pub fn append_u32(data: &mut Vec<u8>, v: u32)
    ensures
        final(data)@ == old(data)@ + u32_bytes(v as nat),
{
    let field = bytes_of_u32(v);
    append_bytes(data, &field);
}

/// Appends a little-endian 64-bit field.
pub fn append_u64(data: &mut Vec<u8>, v: u64)
    ensures
        final(data)@ == old(data)@ + u64_bytes(v as nat),
{
    let field = bytes_of_u64(v);
    append_bytes(data, &field);
}

/// Appends `count` zero bytes.
pub fn append_zeros(data: &mut Vec<u8>, count: usize)
    ensures
        final(data)@ == old(data)@ + zeros(count as nat),
{
    let field: Vec<u8> = vec![0u8; count];
    assert(field@ =~= zeros(count as nat));
    append_bytes(data, &field);
}

/// A copy of `data[from..to]`.
pub fn copy_range(data: &[u8], from: usize, to: usize) -> (r: Vec<u8>)
    requires
        from <= to <= data@.len(),
    ensures
        r@ == data@.subrange(from as int, to as int),
{
    let mut r: Vec<u8> = Vec::new();
    let mut i: usize = from;
    while i < to
        invariant
            from <= i <= to <= data@.len(),
            r@ == data@.subrange(from as int, i as int),
        decreases to - i,
    {
        r.push(data[i]);
        assert(data@.subrange(from as int, i + 1) =~= data@.subrange(from as int, i as int).push(
            data@[i as int],
        ));
        i = i + 1;
    }
    r
}

} // verus!
