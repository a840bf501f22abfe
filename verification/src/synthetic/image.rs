//! Assembling an image from a template.

use crate::bytes::{append_bytes, append_u16, append_u32, append_u64, append_zeros, write_bytes};
use crate::bytes::{lemma_field_left, lemma_field_right, lemma_field_value};
use crate::bytes::{lemma_joined, lemma_u64_len};
use crate::bytes::{bytes_at, overwritten, u16_bytes, u32_at, u32_bytes, u64_bytes, zeros};
use crate::synthetic::imports::{address_end, address_start, import_blob, table_len};
use crate::synthetic::imports::{build_import_blob, lemma_blob_len, lemma_take_next, ImportTable};
use crate::synthetic::rng::{advanced, drawn, mixed_after, mixed_noise, noise, noise_draws};
use crate::synthetic::rng::{seeded, state_after, Rng};
use crate::synthetic::template::{aligned, raw_at, raw_end, raw_size, rva_at, rva_end};
use crate::synthetic::template::{section_plans, Fill, PeTemplate, SectionPlan, SectionSpec};
use crate::synthetic::template::{TemplatePlan, TimestampMode};
use crate::synthetic::template::{FILE_ALIGNMENT, HEADER_SIZE, SECTION_ALIGNMENT};
use vstd::prelude::*;
use vstd::utf8::{encode_utf8, is_ascii_chars_encode_utf8};

verus! {

/// Stands in every synthetic image.
pub const SYNTHETIC_MARKER: &'static str = "HELIOSAV-SYNTHETIC-CORPUS-NOT-MALWARE";

pub const DOS_STUB: &'static str = "This program cannot be run in DOS mode.\r\r\n$";

pub const IMAGE_BASE: u64 = 0x1400_0000;

/// The one-byte instruction at the entry point.
pub const RET: u8 = 0xC3;

pub open spec fn marker_bytes() -> Seq<u8> {
    encode_utf8(SYNTHETIC_MARKER@)
}

/// The words of readable filler.
pub open spec fn filler_word(index: nat) -> Seq<char> {
    if index == 0 {
        "kernel32 "@
    } else if index == 1 {
        "stdcall "@
    } else if index == 2 {
        "offset "@
    } else if index == 3 {
        "lea eax "@
    } else {
        ".debug "@
    }
}

/// The word that the next draw picks, cut to `size` bytes.
pub open spec fn picked_word(state: u64, size: nat) -> Seq<u8> {
    let word = encode_utf8(filler_word((drawn(state) % 5) as nat));
    if word.len() <= size {
        word
    } else {
        word.take(size as int)
    }
}

pub proof fn lemma_filler_word(index: nat)
    ensures
        0 < encode_utf8(filler_word(index)).len() <= 9,
{
    reveal_strlit("kernel32 ");
    reveal_strlit("stdcall ");
    reveal_strlit("offset ");
    reveal_strlit("lea eax ");
    reveal_strlit(".debug ");
    is_ascii_chars_encode_utf8(filler_word(index));
}

/// `size` bytes of readable filler.
pub open spec fn filler(state: u64, size: nat) -> Seq<u8>
    decreases size,
{
    if size == 0 {
        Seq::empty()
    } else {
        proof {
            lemma_filler_word((drawn(state) % 5) as nat);
        }
        let word = picked_word(state, size);
        word + filler(advanced(state), (size - word.len()) as nat)
    }
}

/// The state after `size` bytes of readable filler.
pub open spec fn filler_after(state: u64, size: nat) -> u64
    decreases size,
{
    if size == 0 {
        state
    } else {
        proof {
            lemma_filler_word((drawn(state) % 5) as nat);
        }
        let word = picked_word(state, size);
        filler_after(advanced(state), (size - word.len()) as nat)
    }
}

/// The bytes that a section is filled with.
pub open spec fn section_content(section: SectionPlan, state: u64) -> Seq<u8> {
    match section.fill {
        Fill::Zeros => zeros(section.virtual_size),
        Fill::Random => noise(state, section.virtual_size),
        Fill::Mixed(hundredths) => mixed_noise(state, hundredths, section.virtual_size),
        Fill::Ascii => filler(state, section.virtual_size),
    }
}

/// The state after a section was filled.
pub open spec fn section_after(section: SectionPlan, state: u64) -> u64 {
    match section.fill {
        Fill::Zeros => state,
        Fill::Random => state_after(state, noise_draws(section.virtual_size)),
        Fill::Mixed(hundredths) => mixed_after(state, hundredths, section.virtual_size),
        Fill::Ascii => filler_after(state, section.virtual_size),
    }
}

/// The state after the given sections were filled.
pub open spec fn sections_after(sections: Seq<SectionPlan>, state: u64) -> u64
    decreases sections.len(),
{
    if sections.len() == 0 {
        state
    } else {
        section_after(sections.last(), sections_after(sections.drop_last(), state))
    }
}

/// A TLS directory in an image whose second section is loaded at `rva`.
pub open spec fn tls_directory(rva: nat) -> Seq<u8> {
    let base = IMAGE_BASE as nat + rva;
    tls_fields(base + 0x440, base + 0x480, base + 0x420, base + 0x400)
}

pub open spec fn tls_fields(start: nat, end: nat, index: nat, callbacks: nat) -> Seq<u8> {
    u64_bytes(start) + u64_bytes(end) + u64_bytes(index) + u64_bytes(callbacks) + u64_bytes(0)
        + u32_bytes(0)
}

/// Section content with the entry code and the marker written over its head.
pub open spec fn with_entry(body: Seq<u8>) -> Seq<u8> {
    overwritten(overwritten(body, 0, seq![RET]), 16, marker_bytes())
}

/// The second section carries the import table and the TLS directory.
pub open spec fn with_tables(plan: TemplatePlan, body: Seq<u8>) -> Seq<u8> {
    let rva = rva_at(plan.sections, 1);
    let imported = if plan.has_imports() {
        overwritten(body, 0, import_blob(plan.imports, rva))
    } else {
        body
    };
    if plan.has_tls() {
        overwritten(imported, 0x800, tls_directory(rva))
    } else {
        imported
    }
}

/// The bytes of section `i`.
pub open spec fn section_bytes(plan: TemplatePlan, seed: u64, i: int) -> Seq<u8> {
    let drawn = section_content(
        plan.sections[i],
        sections_after(plan.sections.take(i), seeded(seed)),
    );
    let tabled = if i == 1 {
        with_tables(plan, drawn)
    } else {
        drawn
    };
    if i == plan.entry_section() {
        with_entry(tabled)
    } else {
        tabled
    }
}

/// The first `n` sections, each padded to the bytes that it takes in the file.
pub open spec fn section_area(plan: TemplatePlan, seed: u64, n: nat) -> Seq<u8>
    decreases n,
{
    if n == 0 {
        Seq::empty()
    } else {
        section_area(plan, seed, (n - 1) as nat) + section_bytes(plan, seed, n - 1) + zeros(
            (raw_size(plan.sections[n - 1]) - plan.sections[n - 1].virtual_size) as nat,
        )
    }
}

pub open spec fn timestamp_of(mode: TimestampMode) -> nat {
    match mode {
        TimestampMode::Recent => 1_750_000_000,
        TimestampMode::Zero => 0,
        TimestampMode::Ancient => 100_000_000,
        TimestampMode::Future => 3_500_000_000,
    }
}

/// The DOS header and its stub, which end where the PE signature stands.
pub open spec fn dos_part() -> Seq<u8> {
    seq![0x4Du8, 0x5A] + u16_bytes(0x90) + u16_bytes(3) + zeros(18) + u16_bytes(0x40) + zeros(34)
        + u32_bytes(0x80) + encode_utf8(DOS_STUB@) + zeros(
        (64 - encode_utf8(DOS_STUB@).len()) as nat,
    )
}

/// The PE signature and the COFF header.
pub open spec fn coff_fields(sections: nat, timestamp: nat) -> Seq<u8> {
    seq![0x50u8, 0x45, 0, 0] + u16_bytes(0x8664) + u16_bytes(sections) + u32_bytes(timestamp)
        + zeros(8) + u16_bytes(240) + u16_bytes(0x22)
}

pub open spec fn coff_part(plan: TemplatePlan) -> Seq<u8> {
    coff_fields(plan.sections.len(), timestamp_of(plan.timestamp_mode))
}

/// The standard fields of the optional header.
pub open spec fn standard_fields(code: nat, data: nat, entry: nat, code_rva: nat) -> Seq<u8> {
    u16_bytes(0x20B) + seq![14u8, 0] + u32_bytes(code) + u32_bytes(data) + u32_bytes(0)
        + u32_bytes(entry) + u32_bytes(code_rva)
}

pub open spec fn standard_part(plan: TemplatePlan) -> Seq<u8> {
    standard_fields(
        raw_size(plan.sections[0]),
        (raw_end(plan.sections) - raw_at(plan.sections, 1)) as nat,
        rva_at(plan.sections, plan.entry_section()),
        rva_at(plan.sections, 0),
    )
}

/// The fields of the optional header that describe the loaded image.
pub open spec fn loading_fields(image_size: nat, subsystem: nat) -> Seq<u8> {
    u64_bytes(IMAGE_BASE as nat) + u32_bytes(SECTION_ALIGNMENT as nat) + u32_bytes(
        FILE_ALIGNMENT as nat,
    ) + u16_bytes(6) + u16_bytes(0) + u16_bytes(6) + u16_bytes(0) + u32_bytes(HEADER_SIZE as nat)
        + u32_bytes(0) + u32_bytes(image_size) + u16_bytes(subsystem) + u16_bytes(0x160)
        + u64_bytes(0x100_000) + u64_bytes(0x1000) + u64_bytes(0x100_000)
        + u64_bytes(0x1000) + zeros(12) + u32_bytes(16)
}

pub open spec fn loading_part(plan: TemplatePlan) -> Seq<u8> {
    loading_fields(rva_end(plan.sections), plan.subsystem as nat)
}

/// One entry of the data directory.
pub open spec fn directory(present: bool, rva: nat, size: nat) -> Seq<u8> {
    if present {
        u32_bytes(rva) + u32_bytes(size)
    } else {
        zeros(8)
    }
}

/// The data directory: imports second, TLS tenth, address tables thirteenth.
pub open spec fn directory_fields(imports: Seq<u8>, tls: Seq<u8>, addresses: Seq<u8>) -> Seq<u8> {
    zeros(8) + imports + zeros(56) + tls + zeros(16) + addresses + zeros(24)
}

pub open spec fn directory_part(plan: TemplatePlan) -> Seq<u8> {
    let rva = rva_at(plan.sections, 1);
    directory_fields(
        directory(plan.has_imports(), rva, table_len(plan.imports)),
        directory(plan.has_tls(), rva + 0x800, 44),
        directory(
            plan.has_imports(),
            rva + address_start(plan.imports),
            (address_end(plan.imports) - address_start(plan.imports)) as nat,
        ),
    )
}

/// A section name in its eight-byte field.
pub open spec fn name_field(name: Seq<char>) -> Seq<u8> {
    let encoded = encode_utf8(name);
    if encoded.len() >= 8 {
        encoded.take(8)
    } else {
        encoded + zeros((8 - encoded.len()) as nat)
    }
}

/// The fields of a section header.
pub open spec fn header_fields(
    name: Seq<char>,
    virtual_size: nat,
    rva: nat,
    raw_room: nat,
    raw_offset: nat,
    characteristics: nat,
) -> Seq<u8> {
    name_field(name) + u32_bytes(virtual_size) + u32_bytes(rva) + u32_bytes(raw_room) + u32_bytes(
        raw_offset,
    ) + zeros(12) + u32_bytes(characteristics)
}

/// The section header of section `i`.
pub open spec fn section_header(sections: Seq<SectionPlan>, i: int) -> Seq<u8> {
    header_fields(
        sections[i].name,
        sections[i].virtual_size,
        rva_at(sections, i),
        raw_size(sections[i]),
        raw_at(sections, i),
        sections[i].characteristics as nat,
    )
}

/// The headers of the first `n` sections.
pub open spec fn section_headers(sections: Seq<SectionPlan>, n: nat) -> Seq<u8>
    decreases n,
{
    if n == 0 {
        Seq::empty()
    } else {
        section_headers(sections, (n - 1) as nat) + section_header(sections, n - 1)
    }
}

/// All headers, padded to where the first section starts.
pub open spec fn image_head(plan: TemplatePlan) -> Seq<u8> {
    dos_part() + coff_part(plan) + standard_part(plan) + loading_part(plan) + directory_part(plan)
        + section_headers(plan.sections, plan.sections.len()) + zeros(
        (HEADER_SIZE - 392 - 40 * plan.sections.len()) as nat,
    )
}

/// The image of a template and a seed: headers, sections and an overlay of noise.
pub open spec fn pe_image(plan: TemplatePlan, seed: u64) -> Seq<u8> {
    image_head(plan) + section_area(plan, seed, plan.sections.len()) + noise(
        sections_after(plan.sections, seeded(seed)),
        plan.overlay_bytes,
    )
}

pub proof fn lemma_filler_len(state: u64, size: nat)
    ensures
        filler(state, size).len() == size,
    decreases size,
{
    if size > 0 {
        lemma_filler_word((drawn(state) % 5) as nat);
        let word = picked_word(state, size);
        lemma_filler_len(advanced(state), (size - word.len()) as nat);
    }
}

pub proof fn lemma_content_len(section: SectionPlan, state: u64)
    ensures
        section_content(section, state).len() == section.virtual_size,
{
    if section.fill is Ascii {
        lemma_filler_len(state, section.virtual_size);
    }
}

pub proof fn lemma_section_len(plan: TemplatePlan, seed: u64, i: int)
    ensures
        section_bytes(plan, seed, i).len() == plan.sections[i].virtual_size,
{
    lemma_content_len(plan.sections[i], sections_after(plan.sections.take(i), seeded(seed)));
}

/// Sections take no more room in the file than in memory.
#[verifier::spinoff_prover]
#[verifier::rlimit(60)]
pub proof fn lemma_raw_below_rva(sections: Seq<SectionPlan>)
    ensures
        raw_end(sections) + 0xC00 <= rva_end(sections),
    decreases sections.len(),
{
    if sections.len() > 0 {
        lemma_raw_below_rva(sections.drop_last());
    }
}

/// Offsets and addresses grow from section to section.
pub proof fn lemma_ends_grow(sections: Seq<SectionPlan>, i: int)
    requires
        0 <= i <= sections.len(),
    ensures
        raw_at(sections, i) <= raw_end(sections),
        rva_at(sections, i) <= rva_end(sections),
        i < sections.len() ==> rva_at(sections, i) + aligned(sections[i].virtual_size, 0x1000)
            <= rva_end(sections),
        i < sections.len() ==> raw_at(sections, i) + raw_size(sections[i]) <= raw_end(sections),
        i < sections.len() ==> sections[i].virtual_size <= raw_size(sections[i]),
        i < sections.len() ==> raw_size(sections[i]) <= aligned(sections[i].virtual_size, 0x1000),
    decreases sections.len() - i,
{
    if i < sections.len() {
        lemma_ends_grow(sections, i + 1);
        lemma_take_next(sections, i);
    } else {
        assert(sections.take(i) =~= sections);
    }
}

/// Addresses, offsets and sizes of the sections.
struct Layout {
    rvas: Vec<u32>,
    raw_offsets: Vec<u32>,
    raw_sizes: Vec<u32>,
    rva_end: u32,
    raw_end: u32,
}

impl Layout {
    spec fn of(self, sections: Seq<SectionPlan>) -> bool {
        &&& self.rvas@.len() == sections.len()
        &&& self.raw_offsets@.len() == sections.len()
        &&& self.raw_sizes@.len() == sections.len()
        &&& forall|i: int|
            0 <= i < sections.len() ==> #[trigger] self.rvas@[i] == rva_at(sections, i)
        &&& forall|i: int|
            0 <= i < sections.len() ==> #[trigger] self.raw_offsets@[i] == raw_at(sections, i)
        &&& forall|i: int|
            0 <= i < sections.len() ==> #[trigger] self.raw_sizes@[i] == raw_size(sections[i])
        &&& self.rva_end == rva_end(sections)
        &&& self.raw_end == raw_end(sections)
    }
}

/// The least multiple of `step` that is at least `n` and not zero.
fn align_up(n: u32, step: u32) -> (r: u32)
    requires
        step == 0x200 || step == 0x1000,
        aligned(n as nat, step as nat) <= u32::MAX,
    ensures
        r == aligned(n as nat, step as nat),
{
    if n == 0 {
        step
    } else if step == 0x200 {
        (n - 1) / 0x200 * 0x200 + 0x200
    } else {
        (n - 1) / 0x1000 * 0x1000 + 0x1000
    }
}

fn lay_out(sections: &[SectionSpec]) -> (layout: Layout)
    requires
        rva_end(section_plans(sections@)) <= u32::MAX,
    ensures
        layout.of(section_plans(sections@)),
{
    let ghost plans = section_plans(sections@);
    let mut rvas: Vec<u32> = Vec::new();
    let mut raw_offsets: Vec<u32> = Vec::new();
    let mut raw_sizes: Vec<u32> = Vec::new();
    let mut rva: u32 = SECTION_ALIGNMENT;
    let mut raw: u32 = HEADER_SIZE as u32;
    let mut i: usize = 0;
    assert(plans.take(0) =~= Seq::empty());
    while i < sections.len()
        invariant
            i <= sections@.len(),
            plans == section_plans(sections@),
            rva_end(plans) <= u32::MAX,
            rva == rva_at(plans, i as int),
            raw == raw_at(plans, i as int),
            rvas@.len() == i,
            raw_offsets@.len() == i,
            raw_sizes@.len() == i,
            forall|k: int| 0 <= k < i ==> #[trigger] rvas@[k] == rva_at(plans, k),
            forall|k: int| 0 <= k < i ==> #[trigger] raw_offsets@[k] == raw_at(plans, k),
            forall|k: int| 0 <= k < i ==> #[trigger] raw_sizes@[k] == raw_size(plans[k]),
        decreases sections@.len() - i,
    {
        proof {
            lemma_ends_grow(plans, i as int);
            lemma_take_next(plans, i as int);
            lemma_raw_below_rva(plans);
        }
        assert(plans[i as int] == sections@[i as int]@);
        let size: u32 = sections[i].virtual_size as u32;
        let raw_room: u32 = align_up(size, FILE_ALIGNMENT);
        rvas.push(rva);
        raw_offsets.push(raw);
        raw_sizes.push(raw_room);
        rva = rva + align_up(size, SECTION_ALIGNMENT);
        raw = raw + raw_room;
        i = i + 1;
    }
    assert(plans.take(i as int) =~= plans);
    Layout { rvas, raw_offsets, raw_sizes, rva_end: rva, raw_end: raw }
}

/// A word of readable filler.
fn filler_text(index: u64) -> (word: &'static str)
    requires
        index < 5,
    ensures
        word@ == filler_word(index as nat),
{
    if index == 0 {
        "kernel32 "
    } else if index == 1 {
        "stdcall "
    } else if index == 2 {
        "offset "
    } else if index == 3 {
        "lea eax "
    } else {
        ".debug "
    }
}

/// `size` bytes of readable filler.
fn filler_bytes(rng: &mut Rng, size: usize) -> (bytes: Vec<u8>)
    ensures
        bytes@ == filler(old(rng).state, size as nat),
        final(rng).state == filler_after(old(rng).state, size as nat),
{
    let mut bytes: Vec<u8> = Vec::new();
    let ghost whole = filler(rng.state, size as nat);
    let ghost end = filler_after(rng.state, size as nat);
    assert(bytes@ + whole =~= whole);
    while bytes.len() < size
        invariant
            bytes@.len() <= size,
            bytes@ + filler(rng.state, (size - bytes@.len()) as nat) == whole,
            filler_after(rng.state, (size - bytes@.len()) as nat) == end,
        decreases size - bytes@.len(),
    {
        let room: usize = size - bytes.len();
        let ghost state = rng.state;
        let ghost before = bytes@;
        proof {
            lemma_filler_word((drawn(state) % 5) as nat);
        }
        let index: u64 = rng.next_u64() % 5;
        let word = filler_text(index).as_bytes();
        if word.len() <= room {
            append_bytes(&mut bytes, word);
        } else {
            append_bytes(&mut bytes, &word[0..room]);
            assert(word@.subrange(0, room as int) =~= word@.take(room as int));
        }
        let ghost picked = picked_word(state, room as nat);
        assert(bytes@ == before + picked);
        assert(filler(state, room as nat) == picked + filler(
            advanced(state),
            (room - picked.len()) as nat,
        ));
        assert(size - bytes@.len() == room - picked.len());
        assert(bytes@ + filler(rng.state, (size - bytes@.len()) as nat) =~= before + filler(
            state,
            room as nat,
        ));
    }
    assert(bytes@ + filler(rng.state, 0) =~= bytes@);
    bytes
}

/// The bytes that a section is filled with.
fn section_body(section: &SectionSpec, rng: &mut Rng) -> (body: Vec<u8>)
    ensures
        body@ == section_content(section@, old(rng).state),
        final(rng).state == section_after(section@, old(rng).state),
{
    let size: usize = section.virtual_size;
    match section.fill {
        Fill::Zeros => {
            let mut body: Vec<u8> = Vec::new();
            append_zeros(&mut body, size);
            assert(body@ =~= zeros(size as nat));
            body
        },
        Fill::Random => rng.fill_bytes(size),
        Fill::Mixed(hundredths) => rng.mixed_bytes(hundredths, size),
        Fill::Ascii => filler_bytes(rng, size),
    }
}

pub fn timestamp_value(mode: TimestampMode) -> (t: u32)
    ensures
        t == timestamp_of(mode),
{
    match mode {
        TimestampMode::Recent => 1_750_000_000,
        TimestampMode::Zero => 0,
        TimestampMode::Ancient => 100_000_000,
        TimestampMode::Future => 3_500_000_000,
    }
}

/// Appends the DOS header and its stub.
fn append_dos(out: &mut Vec<u8>)
    ensures
        final(out)@ == old(out)@ + dos_part(),
        dos_part().len() == 128,
{
    proof {
        reveal_strlit("This program cannot be run in DOS mode.\r\r\n$");
        is_ascii_chars_encode_utf8(DOS_STUB@);
    }
    let stub = DOS_STUB.as_bytes();
    out.push(0x4D);
    out.push(0x5A);
    append_u16(out, 0x90);
    append_u16(out, 3);
    append_zeros(out, 18);
    append_u16(out, 0x40);
    append_zeros(out, 34);
    append_u32(out, 0x80);
    append_bytes(out, stub);
    append_zeros(out, 64 - stub.len());
    assert(out@ =~= old(out)@ + dos_part());
}

/// Appends the PE signature and the COFF header.
fn append_coff(out: &mut Vec<u8>, template: &PeTemplate)
    requires
        template@.sections.len() <= 15,
    ensures
        final(out)@ == old(out)@ + coff_part(template@),
{
    let count: usize = template.sections.len();
    assert(count == template@.sections.len());
    out.push(0x50);
    out.push(0x45);
    out.push(0);
    out.push(0);
    append_u16(out, 0x8664);
    append_u16(out, count as u16);
    append_u32(out, timestamp_value(template.timestamp_mode));
    append_zeros(out, 8);
    append_u16(out, 240);
    append_u16(out, 0x22);
    assert(out@ =~= old(out)@ + coff_part(template@));
}

/// Appends the standard fields of the optional header.
fn append_standard(out: &mut Vec<u8>, template: &PeTemplate, layout: &Layout)
    requires
        1 <= template@.sections.len(),
        layout.of(template@.sections),
    ensures
        final(out)@ == old(out)@ + standard_part(template@),
{
    let ghost sections = template@.sections;
    let count: usize = template.sections.len();
    assert(count == sections.len());
    let entry: usize = if template.entry_in_last_section {
        count - 1
    } else {
        0
    };
    proof {
        lemma_take_next(sections, 0);
        assert(sections.take(0) =~= Seq::empty());
        lemma_ends_grow(sections, 1);
    }
    append_u16(out, 0x20B);
    out.push(14);
    out.push(0);
    append_u32(out, layout.raw_sizes[0]);
    append_u32(out, layout.raw_end - layout.raw_offsets[0] - layout.raw_sizes[0]);
    append_u32(out, 0);
    append_u32(out, layout.rvas[entry]);
    append_u32(out, layout.rvas[0]);
    assert(out@ =~= old(out)@ + standard_part(template@));
}

/// Appends the fields of the optional header that describe the loaded image.
fn append_loading(out: &mut Vec<u8>, template: &PeTemplate, layout: &Layout)
    requires
        layout.of(template@.sections),
    ensures
        final(out)@ == old(out)@ + loading_part(template@),
{
    append_u64(out, IMAGE_BASE);
    append_u32(out, SECTION_ALIGNMENT);
    append_u32(out, FILE_ALIGNMENT);
    append_u16(out, 6);
    append_u16(out, 0);
    append_u16(out, 6);
    append_u16(out, 0);
    append_u32(out, HEADER_SIZE as u32);
    append_u32(out, 0);
    append_u32(out, layout.rva_end);
    append_u16(out, template.subsystem);
    append_u16(out, 0x160);
    append_u64(out, 0x100_000);
    append_u64(out, 0x1000);
    append_u64(out, 0x100_000);
    append_u64(out, 0x1000);
    append_zeros(out, 12);
    append_u32(out, 16);
    assert(out@ =~= old(out)@ + loading_part(template@));
}

/// Appends one entry of the data directory.
fn append_directory(out: &mut Vec<u8>, entry: Option<(u32, u32)>)
    ensures
        final(out)@ == old(out)@ + (match entry {
            Some((rva, size)) => directory(true, rva as nat, size as nat),
            None => zeros(8),
        }),
{
    match entry {
        Some((rva, size)) => {
            append_u32(out, rva);
            append_u32(out, size);
            assert(out@ =~= old(out)@ + directory(true, rva as nat, size as nat));
        },
        None => {
            append_zeros(out, 8);
        },
    }
}

/// The table that the import directory describes.
spec fn table_of(table: Option<ImportTable>, plan: TemplatePlan) -> bool {
    let rva = rva_at(plan.sections, 1);
    match table {
        Some(t) => plan.has_imports() && t.blob@ == import_blob(plan.imports, rva)
            && t.directory_size == table_len(plan.imports) && t.address_rva == rva + address_start(
            plan.imports,
        ) && t.address_size == address_end(plan.imports) - address_start(plan.imports),
        None => !plan.has_imports(),
    }
}

/// Appends the data directory.
fn append_directories(
    out: &mut Vec<u8>,
    template: &PeTemplate,
    layout: &Layout,
    table: &Option<ImportTable>,
)
    requires
        template@.fits(),
        layout.of(template@.sections),
        table_of(*table, template@),
    ensures
        final(out)@ == old(out)@ + directory_part(template@),
{
    let ghost plan = template@;
    let mut import_entry: Option<(u32, u32)> = None;
    let mut address_entry: Option<(u32, u32)> = None;
    let mut tls_entry: Option<(u32, u32)> = None;
    if let Some(t) = table {
        import_entry = Some((layout.rvas[1], t.directory_size));
        address_entry = Some((t.address_rva, t.address_size));
    }
    let count: usize = template.sections.len();
    assert(count == plan.sections.len());
    if template.tls_present && count >= 2 {
        proof {
            lemma_ends_grow(plan.sections, 1);
        }
        tls_entry = Some((layout.rvas[1] + 0x800, 44));
    }
    append_zeros(out, 8);
    append_directory(out, import_entry);
    append_zeros(out, 56);
    append_directory(out, tls_entry);
    append_zeros(out, 16);
    append_directory(out, address_entry);
    append_zeros(out, 24);
    assert(out@ =~= old(out)@ + directory_part(plan));
}

/// Appends a section name in its eight-byte field.
fn append_name(out: &mut Vec<u8>, name: &str)
    ensures
        final(out)@ == old(out)@ + name_field(name@),
{
    let encoded = name.as_bytes();
    if encoded.len() >= 8 {
        append_bytes(out, &encoded[0..8]);
        assert(encoded@.subrange(0, 8) =~= encoded@.take(8));
    } else {
        append_bytes(out, encoded);
        append_zeros(out, 8 - encoded.len());
        assert(out@ =~= old(out)@ + name_field(name@));
    }
}

/// Appends one section header.
fn append_header(
    out: &mut Vec<u8>,
    section: &SectionSpec,
    rva: u32,
    raw_room: u32,
    raw_offset: u32,
)
    requires
        section.virtual_size <= u32::MAX,
    ensures
        final(out)@ == old(out)@ + header_fields(
            section.name@,
            section.virtual_size as nat,
            rva as nat,
            raw_room as nat,
            raw_offset as nat,
            section.characteristics as nat,
        ),
{
    let mut header: Vec<u8> = Vec::new();
    append_name(&mut header, section.name);
    assert(Seq::<u8>::empty() + name_field(section.name@) =~= name_field(section.name@));
    append_u32(&mut header, section.virtual_size as u32);
    append_u32(&mut header, rva);
    append_u32(&mut header, raw_room);
    append_u32(&mut header, raw_offset);
    append_zeros(&mut header, 12);
    append_u32(&mut header, section.characteristics);
    append_bytes(out, &header);
}

/// Appends the section table.
fn append_section_headers(out: &mut Vec<u8>, sections: &[SectionSpec], layout: &Layout)
    requires
        rva_end(section_plans(sections@)) <= u32::MAX,
        layout.of(section_plans(sections@)),
    ensures
        final(out)@ == old(out)@ + section_headers(section_plans(sections@), sections@.len()),
{
    let ghost plans = section_plans(sections@);
    let mut i: usize = 0;
    assert(out@ =~= old(out)@ + section_headers(plans, 0));
    while i < sections.len()
        invariant
            i <= sections@.len(),
            plans == section_plans(sections@),
            rva_end(plans) <= u32::MAX,
            layout.of(plans),
            out@ == old(out)@ + section_headers(plans, i as nat),
        decreases sections@.len() - i,
    {
        proof {
            lemma_ends_grow(plans, i as int);
        }
        assert(plans[i as int] == sections@[i as int]@);
        append_header(
            out,
            &sections[i],
            layout.rvas[i],
            layout.raw_sizes[i],
            layout.raw_offsets[i],
        );
        proof {
            lemma_joined(
                old(out)@,
                section_headers(plans, i as nat),
                section_header(plans, i as int),
            );
        }
        i = i + 1;
    }
}

proof fn lemma_coff_len(sections: nat, timestamp: nat)
    ensures
        coff_fields(sections, timestamp).len() == 24,
{
}

proof fn lemma_standard_len(code: nat, data: nat, entry: nat, code_rva: nat)
    ensures
        standard_fields(code, data, entry, code_rva).len() == 24,
{
}

proof fn lemma_loading_len(image_size: nat, subsystem: nat)
    ensures
        loading_fields(image_size, subsystem).len() == 88,
{
}

proof fn lemma_directory_len(imports: Seq<u8>, tls: Seq<u8>, addresses: Seq<u8>)
    requires
        imports.len() == 8,
        tls.len() == 8,
        addresses.len() == 8,
    ensures
        directory_fields(imports, tls, addresses).len() == 128,
{
}

proof fn lemma_header_len(
    name: Seq<char>,
    virtual_size: nat,
    rva: nat,
    raw_room: nat,
    raw_offset: nat,
    characteristics: nat,
)
    ensures
        header_fields(name, virtual_size, rva, raw_room, raw_offset, characteristics).len() == 40,
{
}

proof fn lemma_section_header_len(sections: Seq<SectionPlan>, i: int)
    ensures
        section_header(sections, i).len() == 40,
{
    lemma_header_len(
        sections[i].name,
        sections[i].virtual_size,
        rva_at(sections, i),
        raw_size(sections[i]),
        raw_at(sections, i),
        sections[i].characteristics as nat,
    );
}

pub proof fn lemma_section_headers_len(sections: Seq<SectionPlan>, n: nat)
    ensures
        section_headers(sections, n).len() == 40 * n,
    decreases n,
{
    if n > 0 {
        lemma_section_headers_len(sections, (n - 1) as nat);
        lemma_section_header_len(sections, n - 1);
    }
}

proof fn lemma_dos_len()
    ensures
        dos_part().len() == 128,
{
    reveal_strlit("This program cannot be run in DOS mode.\r\r\n$");
    is_ascii_chars_encode_utf8(DOS_STUB@);
}

/// The lengths of the parts of the headers.
pub proof fn lemma_part_lens(plan: TemplatePlan)
    ensures
        dos_part().len() == 128,
        coff_part(plan).len() == 24,
        standard_part(plan).len() == 24,
        loading_part(plan).len() == 88,
        directory_part(plan).len() == 128,
{
    lemma_dos_len();
    lemma_coff_len(plan.sections.len(), timestamp_of(plan.timestamp_mode));
    lemma_standard_len(
        raw_size(plan.sections[0]),
        (raw_end(plan.sections) - raw_at(plan.sections, 1)) as nat,
        rva_at(plan.sections, plan.entry_section()),
        rva_at(plan.sections, 0),
    );
    lemma_loading_len(rva_end(plan.sections), plan.subsystem as nat);
    let rva = rva_at(plan.sections, 1);
    lemma_directory_len(
        directory(plan.has_imports(), rva, table_len(plan.imports)),
        directory(plan.has_tls(), rva + 0x800, 44),
        directory(
            plan.has_imports(),
            rva + address_start(plan.imports),
            (address_end(plan.imports) - address_start(plan.imports)) as nat,
        ),
    );
}

/// All headers.
fn build_head(template: &PeTemplate, layout: &Layout, table: &Option<ImportTable>) -> (head: Vec<
    u8,
>)
    requires
        template@.fits(),
        layout.of(template@.sections),
        table_of(*table, template@),
    ensures
        head@ == image_head(template@),
{
    let mut head: Vec<u8> = Vec::new();
    append_dos(&mut head);
    assert(Seq::<u8>::empty() + dos_part() =~= dos_part());
    append_coff(&mut head, template);
    append_standard(&mut head, template, layout);
    append_loading(&mut head, template, layout);
    append_directories(&mut head, template, layout, table);
    append_section_headers(&mut head, &template.sections, layout);
    let count: usize = template.sections.len();
    assert(count == template@.sections.len());
    append_zeros(&mut head, HEADER_SIZE - 392 - 40 * count);
    head
}

proof fn lemma_tls_len(start: nat, end: nat, index: nat, callbacks: nat)
    ensures
        tls_fields(start, end, index, callbacks).len() == 44,
{
    lemma_u64_len(start);
    lemma_u64_len(end);
    lemma_u64_len(index);
    lemma_u64_len(callbacks);
    lemma_u64_len(0);
    lemma_six(
        u64_bytes(start),
        u64_bytes(end),
        u64_bytes(index),
        u64_bytes(callbacks),
        u64_bytes(0),
        u32_bytes(0),
    );
}

proof fn lemma_six(a: Seq<u8>, b: Seq<u8>, c: Seq<u8>, d: Seq<u8>, e: Seq<u8>, f: Seq<u8>)
    ensures
        (a + b + c + d + e + f).len() == a.len() + b.len() + c.len() + d.len() + e.len() + f.len(),
{
}

/// The TLS directory of an image whose second section is loaded at `rva`.
fn tls_bytes(rva: u32) -> (bytes: Vec<u8>)
    ensures
        bytes@ == tls_directory(rva as nat),
        bytes@.len() == 44,
{
    let base: u64 = IMAGE_BASE + rva as u64;
    let mut bytes: Vec<u8> = Vec::new();
    append_u64(&mut bytes, base + 0x440);
    assert(Seq::<u8>::empty() + u64_bytes((base + 0x440) as nat) =~= u64_bytes(
        (base + 0x440) as nat,
    ));
    append_u64(&mut bytes, base + 0x480);
    append_u64(&mut bytes, base + 0x420);
    append_u64(&mut bytes, base + 0x400);
    append_u64(&mut bytes, 0);
    append_u32(&mut bytes, 0);
    proof {
        lemma_tls_len(
            (base + 0x440) as nat,
            (base + 0x480) as nat,
            (base + 0x420) as nat,
            (base + 0x400) as nat,
        );
    }
    bytes
}

pub proof fn lemma_marker()
    ensures
        marker_bytes().len() == 37,
{
    reveal_strlit("HELIOSAV-SYNTHETIC-CORPUS-NOT-MALWARE");
    is_ascii_chars_encode_utf8(SYNTHETIC_MARKER@);
}

/// Writes the tables into the second section and the entry code into its section.
fn finish_body(
    body: &mut Vec<u8>,
    template: &PeTemplate,
    i: usize,
    rva: u32,
    table: &Option<ImportTable>,
)
    requires
        template@.fits(),
        i < template@.sections.len(),
        rva == rva_at(template@.sections, i as int),
        table_of(*table, template@),
        old(body)@.len() == template@.sections[i as int].virtual_size,
    ensures
        final(body)@ == ({
            let tabled = if i == 1 {
                with_tables(template@, old(body)@)
            } else {
                old(body)@
            };
            if i == template@.entry_section() {
                with_entry(tabled)
            } else {
                tabled
            }
        }),
{
    let ghost plan = template@;
    let count: usize = template.sections.len();
    assert(count == plan.sections.len());
    if i == 1 {
        if let Some(t) = table {
            proof {
                lemma_blob_len(plan.imports, rva as nat);
            }
            write_bytes(body, 0, &t.blob);
        }
        if template.tls_present {
            let tls = tls_bytes(rva);
            write_bytes(body, 0x800, &tls);
        }
    }
    let entry: usize = if template.entry_in_last_section {
        count - 1
    } else {
        0
    };
    if i == entry {
        proof {
            lemma_marker();
        }
        let mut code: Vec<u8> = Vec::new();
        code.push(RET);
        assert(code@ =~= seq![RET]);
        write_bytes(body, 0, &code);
        write_bytes(body, 16, SYNTHETIC_MARKER.as_bytes());
    }
}

/// The import table of a template, where it has one.
fn import_table(template: &PeTemplate, layout: &Layout) -> (table: Option<ImportTable>)
    requires
        template@.fits(),
        layout.of(template@.sections),
    ensures
        table_of(table, template@),
{
    let ghost plan = template@;
    let count: usize = template.sections.len();
    assert(count == plan.sections.len());
    let libraries: usize = template.imports.len();
    assert(libraries == plan.imports.len());
    if libraries > 0 && count >= 2 {
        proof {
            lemma_ends_grow(plan.sections, 1);
        }
        Some(build_import_blob(&template.imports, layout.rvas[1]))
    } else {
        None
    }
}

/// Appends the sections of a template to its headers.
fn append_sections(
    image: &mut Vec<u8>,
    rng: &mut Rng,
    template: &PeTemplate,
    layout: &Layout,
    table: &Option<ImportTable>,
    Ghost(seed): Ghost<u64>,
)
    requires
        template@.fits(),
        layout.of(template@.sections),
        table_of(*table, template@),
        old(rng).state == seeded(seed),
    ensures
        final(image)@ == old(image)@ + section_area(template@, seed, template@.sections.len()),
        final(rng).state == sections_after(template@.sections, seeded(seed)),
{
    let ghost plan = template@;
    let ghost head = image@;
    assert(image@ =~= head + section_area(plan, seed, 0));
    let count: usize = template.sections.len();
    let mut i: usize = 0;
    assert(plan.sections.take(0) =~= Seq::empty());
    while i < count
        invariant
            i <= count == plan.sections.len(),
            plan == template@,
            plan.fits(),
            layout.of(plan.sections),
            table_of(*table, plan),
            rng.state == sections_after(plan.sections.take(i as int), seeded(seed)),
            image@ == head + section_area(plan, seed, i as nat),
        decreases count - i,
    {
        proof {
            lemma_take_next(plan.sections, i as int);
            lemma_ends_grow(plan.sections, i as int);
            lemma_content_len(plan.sections[i as int], rng.state);
        }
        assert(plan.sections[i as int] == template.sections@[i as int]@);
        let mut body = section_body(&template.sections[i], rng);
        finish_body(&mut body, template, i, layout.rvas[i], table);
        assert(body@ == section_bytes(plan, seed, i as int));
        proof {
            lemma_section_len(plan, seed, i as int);
        }
        append_bytes(image, &body);
        append_zeros(image, layout.raw_sizes[i] as usize - body.len());
        assert(image@ =~= head + section_area(plan, seed, (i + 1) as nat));
        i = i + 1;
    }
    assert(plan.sections.take(i as int) =~= plan.sections);
}

/// One inert image of a template: a deterministic function of template and seed.
pub fn build_pe(template: &PeTemplate, seed: u64) -> (image: Vec<u8>)
    requires
        template@.fits(),
    ensures
        image@ == pe_image(template@, seed),
{
    let mut rng = Rng::new(seed);
    let layout = lay_out(&template.sections);
    let table = import_table(template, &layout);
    let mut image = build_head(template, &layout, &table);
    append_sections(&mut image, &mut rng, template, &layout, &table, Ghost(seed));
    let overlay = rng.fill_bytes(template.overlay_bytes);
    append_bytes(&mut image, &overlay);
    image
}

/// Where the entry address stands in an image.
pub open spec fn entry_field() -> int {
    168
}

/// Where the header of section `i` stands in an image.
pub open spec fn header_at(i: int) -> int {
    392 + 40 * i
}

proof fn lemma_area(plan: TemplatePlan, seed: u64, n: nat, i: int)
    requires
        0 <= i < n <= plan.sections.len(),
    ensures
        section_area(plan, seed, n).len() + HEADER_SIZE == raw_at(plan.sections, n as int),
        bytes_at(
            section_area(plan, seed, n),
            section_bytes(plan, seed, i),
            raw_at(plan.sections, i) - HEADER_SIZE,
        ),
    decreases n,
{
    let last = n - 1;
    let before = section_area(plan, seed, last as nat);
    let area = section_area(plan, seed, n);
    let body = section_bytes(plan, seed, i);
    lemma_take_next(plan.sections, last);
    lemma_section_len(plan, seed, last);
    lemma_section_len(plan, seed, i);
    lemma_ends_grow(plan.sections, last);
    if last == 0 {
        assert(plan.sections.take(0) =~= Seq::empty());
    } else if i < last {
        lemma_area(plan, seed, last as nat, i);
    } else {
        lemma_area(plan, seed, last as nat, last - 1);
    }
    let start = raw_at(plan.sections, i) - HEADER_SIZE;
    if i < last {
        assert(area.subrange(start, start + body.len()) =~= before.subrange(
            start,
            start + body.len(),
        ));
    } else {
        assert(start == before.len());
        assert(area.subrange(start, start + body.len()) =~= body);
    }
}

proof fn lemma_standard_entry(code: nat, data: nat, entry: nat, code_rva: nat)
    requires
        entry < 0x1_0000_0000,
    ensures
        u32_at(standard_fields(code, data, entry, code_rva), 16) == entry,
{
    let before = u16_bytes(0x20B) + seq![14u8, 0] + u32_bytes(code) + u32_bytes(data) + u32_bytes(0);
    assert(before.len() == 16);
    lemma_field_value(entry);
    lemma_field_left(before + u32_bytes(entry), u32_bytes(code_rva), 16);
    lemma_field_right(before, u32_bytes(entry), 0);
}

proof fn lemma_header_values(
    name: Seq<char>,
    virtual_size: nat,
    rva: nat,
    raw_room: nat,
    raw_offset: nat,
    characteristics: nat,
)
    requires
        rva < 0x1_0000_0000,
        raw_offset < 0x1_0000_0000,
    ensures
        u32_at(
            header_fields(name, virtual_size, rva, raw_room, raw_offset, characteristics),
            12,
        ) == rva,
        u32_at(
            header_fields(name, virtual_size, rva, raw_room, raw_offset, characteristics),
            20,
        ) == raw_offset,
{
    let a = name_field(name) + u32_bytes(virtual_size);
    let b = a + u32_bytes(rva);
    let c = b + u32_bytes(raw_room);
    let d = c + u32_bytes(raw_offset);
    let e = d + zeros(12);
    assert(a.len() == 12 && b.len() == 16 && c.len() == 20 && d.len() == 24 && e.len() == 36);
    lemma_field_value(rva);
    lemma_field_value(raw_offset);
    lemma_field_right(a, u32_bytes(rva), 0);
    lemma_field_left(b, u32_bytes(raw_room), 12);
    lemma_field_left(c, u32_bytes(raw_offset), 12);
    lemma_field_left(d, zeros(12), 12);
    lemma_field_left(e, u32_bytes(characteristics), 12);
    lemma_field_right(c, u32_bytes(raw_offset), 0);
    lemma_field_left(d, zeros(12), 20);
    lemma_field_left(e, u32_bytes(characteristics), 20);
}

proof fn lemma_section_table(sections: Seq<SectionPlan>, n: nat, i: int)
    requires
        0 <= i < n <= sections.len(),
        rva_end(sections) <= u32::MAX,
    ensures
        u32_at(section_headers(sections, n), 40 * i + 12) == rva_at(sections, i),
        u32_at(section_headers(sections, n), 40 * i + 20) == raw_at(sections, i),
    decreases n,
{
    let before = section_headers(sections, (n - 1) as nat);
    let last = section_header(sections, n - 1);
    lemma_section_headers_len(sections, (n - 1) as nat);
    lemma_section_header_len(sections, n - 1);
    if i == n - 1 {
        lemma_ends_grow(sections, i);
        lemma_raw_below_rva(sections);
        lemma_header_values(
            sections[i].name,
            sections[i].virtual_size,
            rva_at(sections, i),
            raw_size(sections[i]),
            raw_at(sections, i),
            sections[i].characteristics as nat,
        );
        lemma_field_right(before, last, 12);
        lemma_field_right(before, last, 20);
    } else {
        lemma_section_table(sections, (n - 1) as nat, i);
        lemma_field_left(before, last, 40 * i + 12);
        lemma_field_left(before, last, 40 * i + 20);
    }
}

/// Fields of headers that are put together from six parts.
proof fn lemma_parts(
    dos: Seq<u8>,
    coff: Seq<u8>,
    standard: Seq<u8>,
    loading: Seq<u8>,
    directories: Seq<u8>,
    table: Seq<u8>,
    rest: Seq<u8>,
    at: int,
)
    requires
        dos.len() == 128,
        coff.len() == 24,
        standard.len() == 24,
        loading.len() == 88,
        directories.len() == 128,
        0 <= at,
        at + 4 <= table.len(),
    ensures
        ({
            let head = dos + coff + standard + loading + directories + table + rest;
            &&& head[0] == dos[0]
            &&& head[1] == dos[1]
            &&& head.subrange(128, 132) == coff.take(4)
            &&& u32_at(head, 168) == u32_at(standard, 16)
            &&& u32_at(head, 392 + at) == u32_at(table, at)
        }),
{
    let a = dos + coff;
    let b = a + standard;
    let c = b + loading;
    let d = c + directories;
    let e = d + table;
    let head = e + rest;
    lemma_field_right(a, standard, 16);
    lemma_field_left(b, loading, 168);
    lemma_field_left(c, directories, 168);
    lemma_field_left(d, table, 168);
    lemma_field_left(e, rest, 168);
    lemma_field_right(d, table, at);
    lemma_field_left(e, rest, 392 + at);
    assert(head.subrange(128, 132) =~= coff.take(4));
}

proof fn lemma_signatures(sections: nat, timestamp: nat)
    ensures
        dos_part()[0] == 0x4D,
        dos_part()[1] == 0x5A,
        coff_fields(sections, timestamp).take(4) == seq![0x50u8, 0x45, 0, 0],
{
    assert(coff_fields(sections, timestamp).take(4) =~= seq![0x50u8, 0x45, 0, 0]);
}

/// What the headers say of section `i`, in which the entry point stands.
#[verifier::opaque]
spec fn head_says(head: Seq<u8>, i: int, rva: nat, raw: nat) -> bool {
    &&& head.len() == HEADER_SIZE
    &&& head[0] == 0x4D
    &&& head[1] == 0x5A
    &&& bytes_at(head, seq![0x50u8, 0x45, 0, 0], 0x80)
    &&& u32_at(head, entry_field()) == rva
    &&& u32_at(head, header_at(i) + 12) == rva
    &&& u32_at(head, header_at(i) + 20) == raw
}

/// Headers that are put together from parts say what the parts say.
proof fn lemma_parts_say(
    dos: Seq<u8>,
    coff: Seq<u8>,
    standard: Seq<u8>,
    loading: Seq<u8>,
    directories: Seq<u8>,
    table: Seq<u8>,
    rest: Seq<u8>,
    i: int,
    rva: nat,
    raw: nat,
)
    requires
        dos.len() == 128,
        coff.len() == 24,
        standard.len() == 24,
        loading.len() == 88,
        directories.len() == 128,
        392 + table.len() + rest.len() == HEADER_SIZE,
        0 <= i,
        40 * i + 40 <= table.len(),
        dos[0] == 0x4D,
        dos[1] == 0x5A,
        coff.take(4) == seq![0x50u8, 0x45, 0, 0],
        u32_at(standard, 16) == rva,
        u32_at(table, 40 * i + 12) == rva,
        u32_at(table, 40 * i + 20) == raw,
    ensures
        head_says(
            dos + coff + standard + loading + directories + table + rest,
            i,
            rva,
            raw,
        ),
{
    reveal(head_says);
    lemma_parts(dos, coff, standard, loading, directories, table, rest, 40 * i + 12);
    lemma_parts(dos, coff, standard, loading, directories, table, rest, 40 * i + 20);
}

#[verifier::spinoff_prover]
proof fn lemma_table_says(plan: TemplatePlan, i: int)
    requires
        plan.fits(),
        i == plan.entry_section(),
    ensures
        0 <= i < plan.sections.len(),
        section_headers(plan.sections, plan.sections.len()).len() == 40 * plan.sections.len(),
        u32_at(section_headers(plan.sections, plan.sections.len()), 40 * i + 12) == rva_at(
            plan.sections,
            i,
        ),
        u32_at(section_headers(plan.sections, plan.sections.len()), 40 * i + 20) == raw_at(
            plan.sections,
            i,
        ),
{
    lemma_section_headers_len(plan.sections, plan.sections.len());
    lemma_section_table(plan.sections, plan.sections.len(), i);
}

#[verifier::spinoff_prover]
proof fn lemma_standard_says(plan: TemplatePlan)
    requires
        plan.fits(),
    ensures
        u32_at(standard_part(plan), 16) == rva_at(plan.sections, plan.entry_section()),
{
    lemma_ends_grow(plan.sections, plan.entry_section());
    lemma_standard_entry(
        raw_size(plan.sections[0]),
        (raw_end(plan.sections) - raw_at(plan.sections, 1)) as nat,
        rva_at(plan.sections, plan.entry_section()),
        rva_at(plan.sections, 0),
    );
}

#[verifier::spinoff_prover]
#[verifier::rlimit(60)]
proof fn lemma_head_fields(plan: TemplatePlan, i: int)
    requires
        plan.fits(),
        i == plan.entry_section(),
    ensures
        head_says(
            image_head(plan),
            i,
            rva_at(plan.sections, i),
            raw_at(plan.sections, i),
        ),
{
    let count = plan.sections.len();
    lemma_part_lens(plan);
    lemma_table_says(plan, i);
    lemma_standard_says(plan);
    lemma_signatures(count, timestamp_of(plan.timestamp_mode));
    lemma_parts_say(
        dos_part(),
        coff_part(plan),
        standard_part(plan),
        loading_part(plan),
        directory_part(plan),
        section_headers(plan.sections, count),
        zeros((HEADER_SIZE - 392 - 40 * count) as nat),
        i,
        rva_at(plan.sections, i),
        raw_at(plan.sections, i),
    );
}

/// The entry code and the marker in section content.
proof fn lemma_entry_bytes(plan: TemplatePlan, seed: u64)
    requires
        plan.fits(),
    ensures
        section_bytes(plan, seed, plan.entry_section())[0] == RET,
        section_bytes(plan, seed, plan.entry_section()).subrange(16, 53) == marker_bytes(),
{
    let e = plan.entry_section();
    lemma_marker();
    lemma_section_len(plan, seed, e);
    assert(section_bytes(plan, seed, e).subrange(16, 53) =~= marker_bytes());
}

/// The first of three parts of a buffer.
proof fn lemma_first_part(head: Seq<u8>, area: Seq<u8>, overlay: Seq<u8>, at: int)
    requires
        head.len() == 0x400,
        0 <= at,
        at + 4 <= 0x400,
    ensures
        u32_at(head + area + overlay, at) == u32_at(head, at),
        (head + area + overlay).subrange(0x80, 0x84) == head.subrange(0x80, 0x84),
        (head + area + overlay)[0] == head[0],
        (head + area + overlay)[1] == head[1],
        (head + area + overlay).len() == 0x400 + area.len() + overlay.len(),
{
    assert((head + area + overlay).subrange(0x80, 0x84) =~= head.subrange(0x80, 0x84));
}

/// Where a part stands in a buffer that is put together from three.
proof fn lemma_inside(head: Seq<u8>, area: Seq<u8>, overlay: Seq<u8>, body: Seq<u8>, at: int)
    requires
        bytes_at(area, body, at),
        body.len() >= 53,
    ensures
        (head + area + overlay)[head.len() + at] == body[0],
        (head + area + overlay).subrange(head.len() + at + 16, head.len() + at + 53)
            == body.subrange(16, 53),
{
    let image = head + area + overlay;
    let start = head.len() + at;
    assert forall|k: int| 0 <= k < body.len() implies image[start + k] == body[k] by {
        assert(area.subrange(at, at + body.len())[k] == area[at + k]);
    }
    assert(image[start + 0] == body[0]);
    assert forall|k: int| 0 <= k < 37 implies #[trigger] image[start + 16 + k]
        == body[16 + k] by {
        assert(image[start + (16 + k)] == body[16 + k]);
    }
    assert(image.subrange(start + 16, start + 53) =~= body.subrange(16, 53));
}

/// The image is marked and inert: it carries the DOS and PE signatures, its entry
/// address is that of section `i`, the first byte of that section in the file is a
/// `RET`, and the marker stands sixteen bytes after it.
pub open spec fn is_inert(image: Seq<u8>, i: int) -> bool {
    let start = u32_at(image, header_at(i) + 20) as int;
    &&& image[0] == 0x4D
    &&& image[1] == 0x5A
    &&& bytes_at(image, seq![0x50u8, 0x45, 0, 0], 0x80)
    &&& u32_at(image, entry_field()) == u32_at(image, header_at(i) + 12)
    &&& start < image.len()
    &&& image[start] == RET
    &&& bytes_at(image, marker_bytes(), start + 16)
}

/// An image with such headers and the entry section in its place is inert.
proof fn lemma_inert(
    head: Seq<u8>,
    area: Seq<u8>,
    overlay: Seq<u8>,
    body: Seq<u8>,
    i: int,
    rva: nat,
    raw: nat,
)
    requires
        0 <= i < 15,
        head_says(head, i, rva, raw),
        bytes_at(area, body, raw - HEADER_SIZE),
        body.len() >= 53,
        body[0] == RET,
        body.subrange(16, 53) == marker_bytes(),
    ensures
        is_inert(head + area + overlay, i),
{
    reveal(head_says);
    lemma_marker();
    lemma_first_part(head, area, overlay, entry_field());
    lemma_first_part(head, area, overlay, header_at(i) + 12);
    lemma_first_part(head, area, overlay, header_at(i) + 20);
    lemma_inside(head, area, overlay, body, raw - HEADER_SIZE);
}

/// Every image is marked and inert, whatever the template and the seed.
pub proof fn law_images_are_inert(plan: TemplatePlan, seed: u64)
    requires
        plan.fits(),
    ensures
        is_inert(pe_image(plan, seed), plan.entry_section()),
{
    let e = plan.entry_section();
    let count = plan.sections.len();
    lemma_head_fields(plan, e);
    lemma_area(plan, seed, count, e);
    lemma_section_len(plan, seed, e);
    lemma_entry_bytes(plan, seed);
    lemma_inert(
        image_head(plan),
        section_area(plan, seed, count),
        noise(sections_after(plan.sections, seeded(seed)), plan.overlay_bytes),
        section_bytes(plan, seed, e),
        e,
        rva_at(plan.sections, e),
        raw_at(plan.sections, e),
    );
}

} // verus!
