//! What the analysis must tell of the headers and sections of an image.

use crate::bytes::u32_at;
use crate::heuristic::analysis::{
    certificate_anomaly, certificate_notes, chain_indicators, elf_indicators, embedded_image,
    embedded_image_at, entry_covered, explained, header_notes, is_rwx_protection, is_rwx_segment,
    is_wx, linker_text, mach_indicators, overlay_span, pdb_path_of, pe_indicators, raw_end,
    raw_indicators, section_notes, section_title, segment_notes, ReadingView, ReadingsView,
};
use crate::heuristic::context::{anomaly_score, combination_score};
use crate::heuristic::image_laws::{lemma_holds_if, lemma_holds_joined, lemma_merged_holds};
use crate::heuristic::rulebook::{descriptions_of, lowered_all, static_hits, static_rules};
use crate::objects::{
    ElfLayoutView, MachLayoutView, OptionalHeader, PeLayoutView, SectionView, SegmentFacts,
};
use crate::score::Score;
use crate::text::{decimal, only_if};
use crate::unpacking::unpacking_indicators;
use crate::unpacking_laws::is_image;
use vstd::prelude::*;

verus! {

/// The parts of the indicators of a PE image, in their order.
spec fn pe_part(
    k: int,
    data: Seq<u8>,
    image: PeLayoutView,
    header: Option<OptionalHeader>,
    readings: ReadingsView,
    now: u64,
) -> Seq<Seq<char>> {
    if k == 0 {
        only_if(
            anomaly_score(linker_text(header), pdb_path_of(data), image.timestamp, now).units
                >= Score::of_hundredths(25).units,
            "compiler_toolchain_anomaly"@,
        )
    } else if k == 1 {
        only_if(
            readings.profile.units >= Score::of_hundredths(55).units,
            "flat_high_entropy_payload"@,
        )
    } else if k == 2 {
        only_if(image.sections.len() > 10, "many_sections: "@ + decimal(image.sections.len()))
    } else if k == 3 {
        section_notes(image.sections, readings.sections, data.len(), 0)
    } else if k == 4 {
        header_notes(header, image.timestamp, now)
    } else if k == 5 {
        only_if(
            combination_score(lowered_all(image.imports)).units >= Score::of_hundredths(20).units,
            "api_context_combo"@,
        )
    } else if k == 6 {
        chain_indicators(lowered_all(image.imports), data, image.libraries)
    } else if k == 7 {
        certificate_notes(header, data.len())
    } else if k == 8 {
        only_if(embedded_image(data), "embedded_pe_payload"@)
    } else if k == 9 {
        only_if(
            overlay_span(image.sections, data.len()) is Some && readings.overlay.units
                >= Score::of_ratio(735, 100).units,
            "encrypted_overlay_payload"@,
        )
    } else {
        only_if(
            image.entry != 0 && !entry_covered(image.sections, image.entry),
            "entry_point_anomaly"@,
        )
    }
}

#[verifier::opaque]
spec fn joined(part: spec_fn(int) -> Seq<Seq<char>>, n: int) -> Seq<Seq<char>>
    decreases n,
{
    if n <= 1 {
        part(0)
    } else {
        joined(part, n - 1) + part(n - 1)
    }
}

proof fn lemma_joined_holds(part: spec_fn(int) -> Seq<Seq<char>>, n: int, k: int, t: Seq<char>)
    requires
        0 <= k < n,
        part(k).contains(t),
    ensures
        joined(part, n).contains(t),
    decreases n,
{
    reveal_with_fuel(joined, 2);
    if n > 1 {
        lemma_holds_joined(joined(part, n - 1), part(n - 1), t);
        if k < n - 1 {
            lemma_joined_holds(part, n - 1, k, t);
        }
    }
}

proof fn lemma_pe_part_told(
    k: int,
    data: Seq<u8>,
    image: PeLayoutView,
    header: Option<OptionalHeader>,
    readings: ReadingsView,
    now: u64,
    t: Seq<char>,
)
    requires
        0 <= k < 11,
        pe_part(k, data, image, header, readings, now).contains(t),
    ensures
        pe_indicators(data, image, header, readings, now).contains(t),
{
    let part = |k: int| pe_part(k, data, image, header, readings, now);
    lemma_joined_holds(part, 11, k, t);
    reveal_with_fuel(joined, 12);
}

/// The chains that the lower-case imports, the bytes and the libraries show are told of a PE
/// image.
pub proof fn law_chains_of_an_image_are_told(
    data: Seq<u8>,
    image: PeLayoutView,
    header: Option<OptionalHeader>,
    readings: ReadingsView,
    now: u64,
    label: Seq<char>,
)
    requires
        chain_indicators(lowered_all(image.imports), data, image.libraries).contains(label),
    ensures
        pe_indicators(data, image, header, readings, now).contains(label),
{
    lemma_pe_part_told(6, data, image, header, readings, now, label);
}

/// More than ten sections are told, with their number.
pub proof fn law_many_sections_are_told(
    data: Seq<u8>,
    image: PeLayoutView,
    header: Option<OptionalHeader>,
    readings: ReadingsView,
    now: u64,
)
    requires
        image.sections.len() > 10,
    ensures
        pe_indicators(data, image, header, readings, now).contains(
            "many_sections: "@ + decimal(image.sections.len()),
        ),
{
    let t = "many_sections: "@ + decimal(image.sections.len());
    lemma_holds_if(true, t);
    lemma_pe_part_told(2, data, image, header, readings, now, t);
}

/// A flat and very high entropy is told.
pub proof fn law_flat_entropy_is_told(
    data: Seq<u8>,
    image: PeLayoutView,
    header: Option<OptionalHeader>,
    readings: ReadingsView,
    now: u64,
)
    requires
        readings.profile.units >= Score::of_hundredths(55).units,
    ensures
        pe_indicators(data, image, header, readings, now).contains("flat_high_entropy_payload"@),
{
    lemma_holds_if(true, "flat_high_entropy_payload"@);
    lemma_pe_part_told(1, data, image, header, readings, now, "flat_high_entropy_payload"@);
}

/// Code that runs before the entry point is told.
pub proof fn law_early_code_is_told(
    data: Seq<u8>,
    image: PeLayoutView,
    header: OptionalHeader,
    readings: ReadingsView,
    now: u64,
    size: u32,
)
    requires
        header.tls_size == Some(size),
        size > 0,
    ensures
        pe_indicators(data, image, Some(header), readings, now).contains("tls_callbacks"@),
{
    let t = "tls_callbacks"@;
    lemma_holds_if(true, t);
    assert(header_notes(Some(header), image.timestamp, now)[0] == t);
    lemma_pe_part_told(4, data, image, Some(header), readings, now, t);
}

/// A stamp that is zero, more than thirty days ahead or more than twenty years back is told.
pub proof fn law_odd_stamps_are_told(
    data: Seq<u8>,
    image: PeLayoutView,
    header: OptionalHeader,
    readings: ReadingsView,
    now: u64,
)
    requires
        image.timestamp == 0 || image.timestamp > now + 30 * 24 * 3600 || now > image.timestamp + 20
            * 365 * 24 * 3600,
    ensures
        pe_indicators(data, image, Some(header), readings, now).contains(
            "timestamp_anomaly: "@ + decimal(image.timestamp as nat),
        ),
{
    let t = "timestamp_anomaly: "@ + decimal(image.timestamp as nat);
    let notes = header_notes(Some(header), image.timestamp, now);
    assert(notes.last() == t);
    assert(notes[notes.len() - 1] == t);
    lemma_pe_part_told(4, data, image, Some(header), readings, now, t);
}

/// A certificate table that runs over the end of the file is told as truncated, and one that
/// does not but whose size is no multiple of eight as unaligned.
pub proof fn law_certificate_faults_are_told(
    data: Seq<u8>,
    image: PeLayoutView,
    header: OptionalHeader,
    readings: ReadingsView,
    now: u64,
    start: u32,
    table: u32,
)
    requires
        header.certificates == Some((start, table)),
    ensures
        table > 0 && start + table > data.len() ==> pe_indicators(
            data,
            image,
            Some(header),
            readings,
            now,
        ).contains("signature:mismatch:certificate_table_truncated"@),
        table % 8 != 0 && start + table <= data.len() ==> pe_indicators(
            data,
            image,
            Some(header),
            readings,
            now,
        ).contains("signature:mismatch:certificate_table_unaligned"@),
        table % 8 == 0 && start + table <= data.len() ==> certificate_notes(
            Some(header),
            data.len(),
        ).len() == 0,
{
    let notes = certificate_notes(Some(header), data.len());
    if table > 0 && start + table > data.len() {
        assert(notes[0] == "signature:mismatch:certificate_table_truncated"@);
        lemma_pe_part_told(7, data, image, Some(header), readings, now, notes[0]);
    }
    if table % 8 != 0 && start + table <= data.len() {
        assert(notes[0] == "signature:mismatch:certificate_table_unaligned"@);
        lemma_pe_part_told(7, data, image, Some(header), readings, now, notes[0]);
    }
}

/// An image inside another file is told, wherever it lies.
pub proof fn law_embedded_image_is_told(
    head: Seq<u8>,
    inner: Seq<u8>,
    offset: int,
    tail: Seq<u8>,
    image: PeLayoutView,
    header: Option<OptionalHeader>,
    readings: ReadingsView,
    now: u64,
)
    requires
        head.len() > 0,
        is_image(inner, offset),
        inner.len() + tail.len() > 0x40,
    ensures
        embedded_image(head + inner + tail),
        pe_indicators(head + inner + tail, image, header, readings, now).contains(
            "embedded_pe_payload"@,
        ),
{
    let data = head + inner + tail;
    let at = head.len() as int;
    assert(data[at] == inner[0]);
    assert(data[at + 1] == inner[1]);
    assert(data[at + 0x3c] == inner[0x3c]);
    assert(data[at + 0x3d] == inner[0x3d]);
    assert(data[at + 0x3e] == inner[0x3e]);
    assert(data[at + 0x3f] == inner[0x3f]);
    assert(data[at + offset] == inner[offset]);
    assert(data[at + offset + 1] == inner[offset + 1]);
    assert(data[at + offset + 2] == inner[offset + 2]);
    assert(data[at + offset + 3] == inner[offset + 3]);
    assert(u32_at(data, at + 0x3c) == offset);
    assert(embedded_image_at(data, at));
    lemma_holds_if(true, "embedded_pe_payload"@);
    lemma_pe_part_told(8, data, image, header, readings, now, "embedded_pe_payload"@);
}

proof fn lemma_raw_end_bound(sections: Seq<SectionView>, end: nat)
    requires
        forall|i: int|
            0 <= i < sections.len() ==> (#[trigger] sections[i]).raw_pointer + sections[i].raw_size
                <= end,
    ensures
        raw_end(sections) <= end,
    decreases sections.len(),
{
    if sections.len() > 0 {
        let front = sections.drop_last();
        assert forall|i: int| 0 <= i < front.len() implies (#[trigger] front[i]).raw_pointer
            + front[i].raw_size <= end by {
            assert(front[i] == sections[i]);
        }
        lemma_raw_end_bound(front, end);
        assert(sections.last() == sections[sections.len() - 1]);
    }
}

/// A mebibyte or more behind all the sections is told where its entropy is that of encrypted
/// data.
pub proof fn law_encrypted_overlay_is_told(
    data: Seq<u8>,
    image: PeLayoutView,
    header: Option<OptionalHeader>,
    readings: ReadingsView,
    now: u64,
    end: nat,
)
    requires
        forall|i: int|
            0 <= i < image.sections.len() ==> (#[trigger] image.sections[i]).raw_pointer
                + image.sections[i].raw_size <= end,
        end + 1024 * 1024 <= data.len(),
        readings.overlay.units >= Score::of_ratio(735, 100).units,
    ensures
        pe_indicators(data, image, header, readings, now).contains("encrypted_overlay_payload"@),
{
    lemma_raw_end_bound(image.sections, end);
    lemma_holds_if(true, "encrypted_overlay_payload"@);
    lemma_pe_part_told(9, data, image, header, readings, now, "encrypted_overlay_payload"@);
}

/// The section has raw data inside the file, with an entropy above seven and a half.
pub open spec fn reads_high(
    section: SectionView,
    readings: Seq<ReadingView>,
    i: int,
    size: nat,
) -> bool {
    &&& section.raw_size > 0
    &&& section.raw_pointer + section.raw_size <= size
    &&& i < readings.len()
    &&& readings[i].value.units > Score::of_ratio(75, 10).units
}

proof fn lemma_wx_noted(
    sections: Seq<SectionView>,
    readings: Seq<ReadingView>,
    size: nat,
    from: int,
    at: int,
)
    requires
        0 <= from <= at < sections.len(),
        forall|i: int| 0 <= i <= at ==> !reads_high(#[trigger] sections[i], readings, i, size),
        is_wx(sections[at].characteristics),
    ensures
        section_notes(sections, readings, size, from).contains(
            "wx_section: "@ + section_title(sections[at]),
        ),
    decreases at - from,
{
    let t = "wx_section: "@ + section_title(sections[at]);
    assert(!reads_high(sections[from], readings, from, size));
    let own = only_if(
        is_wx(sections[from].characteristics),
        "wx_section: "@ + section_title(sections[from]),
    );
    let rest = section_notes(sections, readings, size, from + 1);
    lemma_holds_joined(own, rest, t);
    if from == at {
        lemma_holds_if(true, t);
    } else {
        lemma_wx_noted(sections, readings, size, from + 1, at);
    }
    assert(section_notes(sections, readings, size, from) == own + rest);
}

proof fn lemma_high_noted(
    sections: Seq<SectionView>,
    readings: Seq<ReadingView>,
    size: nat,
    from: int,
    at: int,
)
    requires
        0 <= from <= at < sections.len(),
        forall|i: int| 0 <= i < at ==> !reads_high(#[trigger] sections[i], readings, i, size),
        reads_high(sections[at], readings, at, size),
    ensures
        section_notes(sections, readings, size, from).contains(
            "high_section_entropy: "@ + readings[at].text + " (section "@ + section_title(
                sections[at],
            ) + ")"@,
        ),
    decreases at - from,
{
    let t = "high_section_entropy: "@ + readings[at].text + " (section "@ + section_title(
        sections[at],
    ) + ")"@;
    if from == at {
        assert(section_notes(sections, readings, size, from)[0] == t);
    } else {
        assert(!reads_high(sections[from], readings, from, size));
        let own = only_if(
            is_wx(sections[from].characteristics),
            "wx_section: "@ + section_title(sections[from]),
        );
        let rest = section_notes(sections, readings, size, from + 1);
        lemma_holds_joined(own, rest, t);
        lemma_high_noted(sections, readings, size, from + 1, at);
        assert(section_notes(sections, readings, size, from) == own + rest);
    }
}

/// A section that may be written and executed is told by its name, unless one before it or
/// itself reads high.
pub proof fn law_writable_code_is_told(
    data: Seq<u8>,
    image: PeLayoutView,
    header: Option<OptionalHeader>,
    readings: ReadingsView,
    now: u64,
    at: int,
)
    requires
        0 <= at < image.sections.len(),
        image.sections[at].characteristics & 0x8000_0000u32 != 0,
        image.sections[at].characteristics & 0x2000_0000u32 != 0,
        forall|i: int|
            0 <= i <= at ==> !reads_high(
                #[trigger] image.sections[i],
                readings.sections,
                i,
                data.len(),
            ),
    ensures
        pe_indicators(data, image, header, readings, now).contains(
            "wx_section: "@ + section_title(image.sections[at]),
        ),
{
    let t = "wx_section: "@ + section_title(image.sections[at]);
    lemma_wx_noted(image.sections, readings.sections, data.len(), 0, at);
    lemma_pe_part_told(3, data, image, header, readings, now, t);
}

/// The first section that reads high is told, with its reading and its name.
pub proof fn law_high_section_is_told(
    data: Seq<u8>,
    image: PeLayoutView,
    header: Option<OptionalHeader>,
    readings: ReadingsView,
    now: u64,
    at: int,
)
    requires
        0 <= at < image.sections.len(),
        reads_high(image.sections[at], readings.sections, at, data.len()),
        forall|i: int|
            0 <= i < at ==> !reads_high(
                #[trigger] image.sections[i],
                readings.sections,
                i,
                data.len(),
            ),
    ensures
        pe_indicators(data, image, header, readings, now).contains(
            "high_section_entropy: "@ + readings.sections[at].text + " (section "@ + section_title(
                image.sections[at],
            ) + ")"@,
        ),
{
    let t = "high_section_entropy: "@ + readings.sections[at].text + " (section "@ + section_title(
        image.sections[at],
    ) + ")"@;
    lemma_high_noted(image.sections, readings.sections, data.len(), 0, at);
    lemma_pe_part_told(3, data, image, header, readings, now, t);
}

proof fn lemma_first_segment_noted(segments: Seq<SegmentFacts>, from: int, at: int)
    requires
        0 <= from <= at < segments.len(),
        is_rwx_segment(segments[at]),
        forall|i: int| 0 <= i < at ==> !is_rwx_segment(#[trigger] segments[i]),
    ensures
        segment_notes(segments, from) == seq![
            "unsafe_segment_flags: phdr "@ + decimal(segments[at].kind as nat),
        ],
    decreases at - from,
{
    if from < at {
        lemma_first_segment_noted(segments, from + 1, at);
    }
}

/// The first segment of an ELF image that may be read, written and executed is told.
pub proof fn law_unsafe_segment_is_told(image: ElfLayoutView, at: int)
    requires
        0 <= at < image.segments.len(),
        image.segments[at].flags & 4u32 != 0,
        image.segments[at].flags & 2u32 != 0,
        image.segments[at].flags & 1u32 != 0,
        forall|i: int|
            0 <= i < at ==> (#[trigger] image.segments[i]).flags & 4u32 == 0
                || image.segments[i].flags & 2u32 == 0 || image.segments[i].flags & 1u32 == 0,
    ensures
        elf_indicators(image).contains(
            "unsafe_segment_flags: phdr "@ + decimal(image.segments[at].kind as nat),
        ),
{
    let t = "unsafe_segment_flags: phdr "@ + decimal(image.segments[at].kind as nat);
    assert forall|i: int| 0 <= i < at implies !is_rwx_segment(#[trigger] image.segments[i]) by {}
    lemma_first_segment_noted(image.segments, 0, at);
    assert(elf_indicators(image)[0] == t);
}

/// A segment of a Mach-O binary that may be read, written and executed is told, and more than
/// five libraries are.
pub proof fn law_mach_notes_are_told(image: MachLayoutView, at: int)
    requires
        0 <= at < image.protections.len(),
    ensures
        image.protections[at] & 1u32 != 0 && image.protections[at] & 2u32 != 0
            && image.protections[at] & 4u32 != 0 ==> mach_indicators(image).contains(
            "unsafe_segment_flags"@,
        ),
        image.library_count > 5 ==> mach_indicators(image).contains(
            "many_deps: "@ + decimal(image.library_count as nat),
        ),
{
    let notes = mach_indicators(image);
    if image.protections[at] & 1u32 != 0 && image.protections[at] & 2u32 != 0
        && image.protections[at] & 4u32 != 0 {
        assert(is_rwx_protection(image.protections[at]));
        assert(notes[0] == "unsafe_segment_flags"@);
    }
    if image.library_count > 5 {
        assert(notes[notes.len() - 1] == "many_deps: "@ + decimal(image.library_count as nat));
    }
}

/// Whatever is told of an image stays in what the analysis answers, beside the descriptions
/// of the rules that fire.
pub proof fn law_indicators_stay_in_the_answer(indicators: Seq<Seq<char>>, t: Seq<char>)
    requires
        indicators.contains(t),
    ensures
        explained(indicators).contains(t),
{
    lemma_merged_holds(
        indicators,
        descriptions_of(static_hits(static_rules(), lowered_all(indicators))),
        t,
    );
}

/// What unpacking tells of a file is told before its format is known.
pub proof fn law_unpacking_is_told_first(data: Seq<u8>, t: Seq<char>)
    requires
        unpacking_indicators(data).contains(t),
    ensures
        raw_indicators(data).contains(t),
{
    let fault: Seq<Seq<char>> = match certificate_anomaly(data) {
        Some(f) => seq![f],
        None => Seq::empty(),
    };
    lemma_holds_joined(unpacking_indicators(data), fault, t);
}

} // verus!
