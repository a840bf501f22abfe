//! Header fields of archives, COFF objects, PE images and Mach-O binaries that the `goblin`
//! crate computes with unchecked. An image whose fields leave the range of these computations
//! is never handed to the crate.

use crate::bytes::{bytes_at, copy_range, has_bytes_at, read_u16, read_u32, u16_at, u32_at};
use crate::text::{
    chars_between, chars_of, from_utf8, is_white, parse_unsigned, parsed_unsigned, white,
    without_trailing,
};
use vstd::prelude::*;
use vstd::utf8::{decode_utf8, valid_utf8};

verus! {

/// The size of the header of an archive's member.
pub const MEMBER_HEADER: usize = 60;

/// The load command that gives the entry point.
pub const ENTRY_COMMAND: u32 = 0x8000_0028;

pub const SEGMENT_COMMAND: u32 = 1;

pub const LONG_SEGMENT_COMMAND: u32 = 0x19;

/// The first bytes of an archive, `!<arch>` and a line break.
pub open spec fn archive_magic() -> Seq<u8> {
    seq![0x21u8, 0x3C, 0x61, 0x72, 0x63, 0x68, 0x3E, 0x0A]
}

/// `count` slashes, padded by spaces to the length of a member's name.
pub open spec fn slashes(count: int) -> Seq<u8> {
    Seq::new(
        16,
        |i: int|
            if i < count {
                0x2Fu8
            } else {
                0x20u8
            },
    )
}

/// The number in a field of an archive: digits, with a plus sign or not, and white space
/// behind them.
pub open spec fn field_number(field: Seq<u8>) -> Option<nat> {
    if valid_utf8(field) {
        parsed_unsigned(
            without_trailing(decode_utf8(field), |c: char| is_white(c)),
            usize::MAX as nat,
        )
    } else {
        None
    }
}

/// The second index of an archive counts its members from one.
pub open spec fn counts_from_one(index: Seq<u8>) -> bool {
    let members = u32_at(index, 0) as int;
    let base = 8 + 4 * members;
    forall|k: int|
        0 <= k < u32_at(index, base - 4) && base + 2 * k + 2 <= index.len()
            ==> #[trigger] u16_at(index, base + 2 * k) != 0
}

/// From `offset` on, where `indexes` indexes have come up, the table of long names is not
/// empty and the second index counts from one.
pub open spec fn members_fit(data: Seq<u8>, offset: nat, indexes: nat) -> bool
    decreases
            (if offset < data.len() {
                data.len() - offset
            } else {
                0
            }),
{
    let at = (offset + offset % 2) as int;
    if offset + 1 >= data.len() || at + MEMBER_HEADER > data.len() {
        true
    } else {
        let field = data.subrange(at + 48, at + 58);
        let body = at + MEMBER_HEADER;
        match field_number(field) {
            None => true,
            Some(size) => {
                let index = bytes_at(data, slashes(1), at);
                &&& bytes_at(data, slashes(2), at) ==> size > 0
                &&& index && indexes == 1 && body + size <= data.len() ==> counts_from_one(
                    data.subrange(body, body + size),
                )
                &&& members_fit(
                    data,
                    (body + size) as nat,
                    if index {
                        indexes + 1
                    } else {
                        indexes
                    },
                )
            },
        }
    }
}

/// The fields of an archive are in range.
pub open spec fn archive_fits(data: Seq<u8>) -> bool {
    bytes_at(data, archive_magic(), 0) ==> members_fit(data, 8, 0)
}

/// A COFF object holds a string table that is at least as long as the field that gives its
/// length, or none.
pub open spec fn coff_fits(data: Seq<u8>) -> bool {
    let machine = u16_at(data, 0);
    let symbols = u32_at(data, 8);
    let strings = symbols + 18 * u32_at(data, 12);
    data.len() >= 20 && (machine == 0x14C || machine == 0x8664 || machine == 0xAA64) && symbols != 0
        && strings + 4 <= data.len() ==> u32_at(data, strings as int) >= 4
}

/// The sections of a PE image end at addresses of 32 bits.
pub open spec fn pe_fits(data: Seq<u8>) -> bool {
    let header = u32_at(data, 0x3C) as int;
    let count = u16_at(data, header + 6);
    let table = header + 24 + u16_at(data, header + 20);
    data.len() >= 0x40 && u16_at(data, 0) == 0x5A4D && header + 24 <= data.len() ==> forall|k: int|
        0 <= k < count && table + 40 * k + 40 <= data.len() ==> #[trigger] section_fits(
            data,
            table + 40 * k,
        )
}

/// Address and size in a section header add up to an address of 32 bits.
pub open spec fn section_fits(data: Seq<u8>, at: int) -> bool {
    u32_at(data, at + 12) + u32_at(data, at + 8) <= u32::MAX
}

/// The number in four bytes, the lowest first or last.
pub open spec fn word_at(data: Seq<u8>, at: int, little: bool) -> nat {
    if little {
        u32_at(data, at)
    } else {
        (data[at] * 0x100_0000 + data[at + 1] * 0x1_0000 + data[at + 2] * 0x100 + data[at
            + 3]) as nat
    }
}

/// The number in eight bytes, the lowest first or last.
pub open spec fn long_at(data: Seq<u8>, at: int, little: bool) -> nat {
    if little {
        word_at(data, at, little) + 0x1_0000_0000 * word_at(data, at + 4, little)
    } else {
        0x1_0000_0000 * word_at(data, at, little) + word_at(data, at + 4, little)
    }
}

/// What a Mach-O binary's entry point is computed from: where it lies in the file, and address
/// and place in the file of the text segment.
#[derive(Debug, Clone, Copy)]
pub struct EntryFields {
    pub entry: Option<u64>,
    pub text: Option<(u64, u64)>,
}

pub open spec fn text_segment_name() -> Seq<u8> {
    seq![0x5Fu8, 0x5F, 0x54, 0x45, 0x58, 0x54, 0]
}

/// The fields with those of one more load command. The first of a kind counts.
pub open spec fn fields_with(fields: EntryFields, data: Seq<u8>, at: int, little: bool) -> EntryFields {
    let kind = word_at(data, at, little);
    if kind == ENTRY_COMMAND && fields.entry is None && at + 16 <= data.len() {
        EntryFields { entry: Some(long_at(data, at + 8, little) as u64), ..fields }
    } else if kind == SEGMENT_COMMAND && fields.text is None && at + 36 <= data.len() && bytes_at(
        data,
        text_segment_name(),
        at + 8,
    ) {
        let text = (
            word_at(data, at + 24, little) as u64,
            word_at(data, at + 32, little) as u64,
        );
        EntryFields { text: Some(text), ..fields }
    } else if kind == LONG_SEGMENT_COMMAND && fields.text is None && at + 48 <= data.len()
        && bytes_at(data, text_segment_name(), at + 8) {
        let text = (
            long_at(data, at + 24, little) as u64,
            long_at(data, at + 40, little) as u64,
        );
        EntryFields { text: Some(text), ..fields }
    } else {
        fields
    }
}

/// The fields that the `left` load commands from `at` on give.
pub open spec fn commands_give(
    fields: EntryFields,
    data: Seq<u8>,
    at: nat,
    left: nat,
    little: bool,
) -> EntryFields
    decreases left,
{
    if left == 0 || at + 8 > data.len() {
        fields
    } else {
        commands_give(
            fields_with(fields, data, at as int, little),
            data,
            at + word_at(data, at as int + 4, little),
            (left - 1) as nat,
            little,
        )
    }
}

/// The entry point's address is in range.
pub open spec fn entry_fits(fields: EntryFields) -> bool {
    match (fields.entry, fields.text) {
        (Some(entry), Some((address, place))) => place <= address && address - place + entry
            <= u64::MAX,
        _ => true,
    }
}

/// The fields of a Mach-O binary are in range, if its load commands can lie in it at all.
pub open spec fn mach_fits(data: Seq<u8>) -> bool {
    let magic = word_at(data, 0, false);
    let little = magic == 0xCEFA_EDFE || magic == 0xCFFA_EDFE;
    let long = magic == 0xFEED_FACF || magic == 0xCFFA_EDFE;
    let short = magic == 0xFEED_FACE || magic == 0xCEFA_EDFE;
    let count = word_at(data, 16, little);
    let size = word_at(data, 20, little);
    data.len() >= 32 && (long || short) && count <= size / 8 && size <= data.len() ==> entry_fits(
        commands_give(
            EntryFields { entry: None, text: None },
            data,
            if long {
                32
            } else {
                28
            },
            count,
            little,
        ),
    )
}

/// The fields that an image's parser computes with are in range.
pub open spec fn fields_fit(data: Seq<u8>) -> bool {
    archive_fits(data) && coff_fits(data) && pe_fits(data) && mach_fits(data)
}

/// The number in a field of an archive.
fn number_in(field: &[u8]) -> (n: Option<u64>)
    ensures
        n matches Some(v) ==> field_number(field@) == Some(v as nat),
        n is None ==> field_number(field@) is None,
{
    let chars = match from_utf8(field) {
        Some(text) => chars_of(text.as_str()),
        None => return None,
    };
    let ghost drop = |c: char| is_white(c);
    let mut end: usize = chars.len();
    assert(chars@.take(end as int) =~= chars@);
    while end > 0 && white(chars[end - 1])
        invariant
            end <= chars@.len(),
            drop == (|c: char| is_white(c)),
            without_trailing(chars@, drop) == without_trailing(chars@.take(end as int), drop),
        decreases end,
    {
        assert(chars@.take(end as int).drop_last() =~= chars@.take(end - 1));
        end = end - 1;
    }
    let body = chars_between(&chars, 0, end);
    assert(body@ =~= chars@.take(end as int));
    parse_unsigned(&body, usize::MAX as u64)
}

fn index_counts_from_one(index: &[u8]) -> (b: bool)
    requires
        index@.len() >= 4,
    ensures
        b == counts_from_one(index@),
{
    let members: u64 = read_u32(index, 0) as u64;
    let base: u64 = 8 + 4 * members;
    if base > index.len() as u64 {
        return true;
    }
    let first: usize = base as usize;
    let symbols: usize = read_u32(index, first - 4) as usize;
    let mut k: usize = 0;
    while k < symbols && k < index.len() && first + 2 <= index.len() && 2 * (k as u64) <= (index.len() - first - 2) as u64
        invariant
            k <= index@.len(),
            first == 8 + 4 * u32_at(index@, 0),
            first <= index@.len(),
            symbols == u32_at(index@, first - 4),
            forall|j: int| 0 <= j < k ==> #[trigger] u16_at(index@, first + 2 * j) != 0,
        decreases index@.len() - k,
    {
        if read_u16(index, first + 2 * k) == 0 {
            assert(u16_at(index@, first + 2 * k) == 0);
            return false;
        }
        k = k + 1;
    }
    true
}

fn archive_in_range(data: &[u8]) -> (b: bool)
    ensures
        b == members_fit(data@, 8, 0),
{
    let one: [u8; 16] = [
        0x2F, 0x20, 0x20, 0x20, 0x20, 0x20, 0x20, 0x20, 0x20, 0x20, 0x20, 0x20, 0x20, 0x20, 0x20,
        0x20,
    ];
    let two: [u8; 16] = [
        0x2F, 0x2F, 0x20, 0x20, 0x20, 0x20, 0x20, 0x20, 0x20, 0x20, 0x20, 0x20, 0x20, 0x20, 0x20,
        0x20,
    ];
    assert(one@ =~= slashes(1));
    assert(two@ =~= slashes(2));
    let size: usize = data.len();
    let mut offset: usize = 8;
    let mut indexes: usize = 0;
    while offset < size && size - offset > 1
        invariant
            size == data@.len(),
            one@ == slashes(1),
            two@ == slashes(2),
            indexes <= offset,
            members_fit(data@, 8, 0) == members_fit(data@, offset as nat, indexes as nat),
        decreases size + 1 - offset,
    {
        let at: usize = offset + offset % 2;
        if size - at < MEMBER_HEADER {
            return true;
        }
        let field = copy_range(data, at + 48, at + 58);
        let length: u64 = match number_in(&field) {
            Some(n) => n,
            None => return true,
        };
        let body: usize = at + MEMBER_HEADER;
        let is_index = has_bytes_at(data, &one, at);
        if has_bytes_at(data, &two, at) && length == 0 {
            return false;
        }
        if length > (size - body) as u64 {
            proof {
                assert(members_fit(
                    data@,
                    (body + length) as nat,
                    if is_index {
                        (indexes + 1) as nat
                    } else {
                        indexes as nat
                    },
                ));
            }
            return true;
        }
        let end: usize = body + length as usize;
        if is_index && indexes == 1 && length >= 4 {
            let index = copy_range(data, body, end);
            if !index_counts_from_one(&index) {
                return false;
            }
        }
        if is_index {
            indexes = indexes + 1;
        }
        offset = end;
    }
    true
}

fn coff_in_range(data: &[u8]) -> (b: bool)
    ensures
        b == coff_fits(data@),
{
    if data.len() < 20 {
        return true;
    }
    let machine: u16 = read_u16(data, 0);
    let symbols: u64 = read_u32(data, 8) as u64;
    if (machine != 0x14C && machine != 0x8664 && machine != 0xAA64) || symbols == 0 {
        return true;
    }
    let strings: u64 = symbols + 18 * (read_u32(data, 12) as u64);
    if strings + 4 > data.len() as u64 {
        return true;
    }
    read_u32(data, strings as usize) >= 4
}

/// Whether the fields of a PE image are in range.
pub fn pe_in_range(data: &[u8]) -> (b: bool)
    ensures
        b == pe_fits(data@),
{
    let size: usize = data.len();
    if size < 0x40 || read_u16(data, 0) != 0x5A4D {
        return true;
    }
    let start: u64 = read_u32(data, 0x3C) as u64;
    if start + 24 > size as u64 {
        return true;
    }
    let header: usize = start as usize;
    let count: u64 = read_u16(data, header + 6) as u64;
    let table: u64 = start + 24 + read_u16(data, header + 20) as u64;
    let mut k: u64 = 0;
    while k < count
        invariant
            size == data@.len(),
            header == u32_at(data@, 0x3C),
            header + 24 <= size,
            count == u16_at(data@, header + 6),
            count <= u16::MAX,
            table == header + 24 + u16_at(data@, header + 20),
            table <= 0x2_0000_0000,
            size >= 0x40,
            u16_at(data@, 0) == 0x5A4D,
            k <= count,
            forall|j: int|
                0 <= j < k && table + 40 * j + 40 <= data@.len() ==> #[trigger] section_fits(
                    data@,
                    table + 40 * j,
                ),
        decreases count - k,
    {
        let place: u64 = table + 40 * k;
        if place + 40 > size as u64 {
            return true;
        }
        let at: usize = place as usize;
        let address: u32 = read_u32(data, at + 12);
        let length: u32 = read_u32(data, at + 8);
        if length > u32::MAX - address {
            assert(!section_fits(data@, table + 40 * k));
            return false;
        }
        k = k + 1;
    }
    true
}

fn read_word(data: &[u8], at: usize, little: bool) -> (v: u32)
    requires
        at + 4 <= data@.len(),
    ensures
        v == word_at(data@, at as int, little),
{
    if little {
        read_u32(data, at)
    } else {
        data[at] as u32 * 0x100_0000 + data[at + 1] as u32 * 0x1_0000 + data[at + 2] as u32 * 0x100
            + data[at + 3] as u32
    }
}

fn read_long(data: &[u8], at: usize, little: bool) -> (v: u64)
    requires
        at + 8 <= data@.len(),
    ensures
        v == long_at(data@, at as int, little),
{
    let size: usize = data.len();
    assert(at + 8 <= size);
    let first: u64 = read_word(data, at, little) as u64;
    let second: u64 = read_word(data, at + 4, little) as u64;
    if little {
        first + 0x1_0000_0000 * second
    } else {
        0x1_0000_0000 * first + second
    }
}

fn note_command(fields: EntryFields, data: &[u8], at: usize, little: bool) -> (next: EntryFields)
    requires
        at + 8 <= data@.len(),
    ensures
        next == fields_with(fields, data@, at as int, little),
{
    let kind: u32 = read_word(data, at, little);
    let left: usize = data.len() - at;
    let name: [u8; 7] = [0x5F, 0x5F, 0x54, 0x45, 0x58, 0x54, 0];
    assert(name@ =~= text_segment_name());
    let mut next = fields;
    if kind == ENTRY_COMMAND && fields.entry.is_none() && left >= 16 {
        next.entry = Some(read_long(data, at + 8, little));
    } else if kind == SEGMENT_COMMAND && fields.text.is_none() && left >= 36 && has_bytes_at(
        data,
        &name,
        at + 8,
    ) {
        let address: u64 = read_word(data, at + 24, little) as u64;
        let place: u64 = read_word(data, at + 32, little) as u64;
        next.text = Some((address, place));
    } else if kind == LONG_SEGMENT_COMMAND && fields.text.is_none() && left >= 48 && has_bytes_at(
        data,
        &name,
        at + 8,
    ) {
        let address: u64 = read_long(data, at + 24, little);
        let place: u64 = read_long(data, at + 40, little);
        next.text = Some((address, place));
    }
    next
}

fn entry_fields(data: &[u8], start: usize, count: u32, little: bool) -> (fields: EntryFields)
    ensures
        fields == commands_give(
            EntryFields { entry: None, text: None },
            data@,
            start as nat,
            count as nat,
            little,
        ),
{
    let ghost none = EntryFields { entry: None, text: None };
    let mut fields = EntryFields { entry: None, text: None };
    let mut at: usize = start;
    let mut left: u32 = count;
    while left > 0
        invariant
            none == (EntryFields { entry: None, text: None }),
            commands_give(none, data@, start as nat, count as nat, little) == commands_give(
                fields,
                data@,
                at as nat,
                left as nat,
                little,
            ),
        decreases left,
    {
        if at > data.len() || data.len() - at < 8 {
            return fields;
        }
        let step: u32 = read_word(data, at + 4, little);
        let next = note_command(fields, data, at, little);
        let ghost after = commands_give(
            next,
            data@,
            (at + step) as nat,
            (left - 1) as nat,
            little,
        );
        assert(commands_give(fields, data@, at as nat, left as nat, little) == after);
        fields = next;
        left = left - 1;
        if step as u64 > (data.len() - at) as u64 {
            return fields;
        }
        at = at + step as usize;
    }
    fields
}

/// Whether the fields of a Mach-O binary are in range.
pub fn mach_in_range(data: &[u8]) -> (b: bool)
    ensures
        b == mach_fits(data@),
{
    if data.len() < 32 {
        return true;
    }
    let magic: u32 = read_word(data, 0, false);
    let little = magic == 0xCEFA_EDFE || magic == 0xCFFA_EDFE;
    let long = magic == 0xFEED_FACF || magic == 0xCFFA_EDFE;
    let short = magic == 0xFEED_FACE || magic == 0xCEFA_EDFE;
    if !long && !short {
        return true;
    }
    let start: usize = if long {
        32
    } else {
        28
    };
    let count: u32 = read_word(data, 16, little);
    let size: u32 = read_word(data, 20, little);
    if count > size / 8 || size as u64 > data.len() as u64 {
        return true;
    }
    let fields = entry_fields(data, start, count, little);
    match (fields.entry, fields.text) {
        (Some(entry), Some((address, place))) => place <= address && address - place <= u64::MAX
            - entry,
        _ => true,
    }
}

/// Whether the fields that an image's parser computes with are in range.
pub fn in_range(data: &[u8]) -> (b: bool)
    ensures
        b == fields_fit(data@),
{
    let magic: [u8; 8] = [0x21, 0x3C, 0x61, 0x72, 0x63, 0x68, 0x3E, 0x0A];
    assert(magic@ =~= archive_magic());
    if has_bytes_at(data, &magic, 0) && !archive_in_range(data) {
        return false;
    }
    coff_in_range(data) && pe_in_range(data) && mach_in_range(data)
}

} // verus!
