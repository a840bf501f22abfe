//! What the memory of a program must be searched for.

use crate::memory_snapshot::{
    best_confidence, candidate_at, candidates_from, candidates_with, corroborated, count_rebuilt,
    executable_protection, image_end, image_start, mapped_image, marked_candidate, observed_ip,
    read_length, region_suspect, report_status, section_address, section_size,
    writable_executable_protection, CandidateView, RegionInfo,
};
use crate::score::Score;
use vstd::prelude::*;

verus! {

/// Pages run code by the four protections that let them, unless they are guard pages; two of
/// the four let them be written too.
pub proof fn law_protections_let_code_run(protect: u32)
    ensures
        executable_protection(protect) <==> protect & 0x100u32 == 0 && (protect & 0xffu32 == 0x10
            || protect & 0xffu32 == 0x20 || protect & 0xffu32 == 0x40 || protect & 0xffu32
            == 0x80),
        writable_executable_protection(protect) <==> protect & 0x100u32 == 0 && (protect & 0xffu32
            == 0x40 || protect & 0xffu32 == 0x80),
        writable_executable_protection(protect) ==> executable_protection(protect),
{
}

/// Private memory that runs code is suspect, images only where they can be written; memory
/// that is not committed or runs nothing never is.
pub proof fn law_regions_are_suspected(r: RegionInfo)
    ensures
        r.state == 0x1000 && r.kind == 0x2_0000 ==> (region_suspect(r) <==> executable_protection(
            r.protect,
        )),
        r.state == 0x1000 && r.kind == 0x100_0000 ==> (region_suspect(r)
            <==> writable_executable_protection(r.protect)),
        r.state != 0x1000 || !executable_protection(r.protect) ==> !region_suspect(r),
        r.kind != 0x2_0000 && r.kind != 0x100_0000 ==> !region_suspect(r),
{
}

/// What is read of a region is no more than it has, than four mebibytes, and than is left of
/// thirty-two; and it is as much as these allow.
pub proof fn law_reads_are_bounded(size: u64, captured: u64)
    requires
        captured <= 32 * 1024 * 1024,
    ensures
        read_length(size, captured) <= size,
        read_length(size, captured) <= 4 * 1024 * 1024,
        read_length(size, captured) + captured <= 32 * 1024 * 1024,
        read_length(size, captured) == size || read_length(size, captured) == 4 * 1024 * 1024
            || read_length(size, captured) + captured == 32 * 1024 * 1024,
{
}

proof fn lemma_candidate_found(
    bytes: Seq<u8>,
    from: int,
    at: int,
    region_base: u64,
    image_region: bool,
    found: nat,
)
    requires
        0 <= from <= at < bytes.len(),
        marked_candidate(bytes, at, region_base, image_region) is Some,
        forall|k: int|
            0 <= k < at ==> marked_candidate(bytes, k, region_base, image_region) is None,
        found == 0,
    ensures
        candidates_from(bytes, from, region_base, image_region, found).len() > 0,
        candidates_from(bytes, from, region_base, image_region, found)[0] == marked_candidate(
            bytes,
            at,
            region_base,
            image_region,
        )->0,
    decreases at - from,
{
    if from < at {
        assert(marked_candidate(bytes, from, region_base, image_region) is None);
        lemma_candidate_found(bytes, from + 1, at, region_base, image_region, found);
    }
}

/// The first image in a region that has valid headers is a candidate, at its place, whatever
/// stands before it.
pub proof fn law_first_image_is_a_candidate(
    bytes: Seq<u8>,
    at: int,
    region_base: u64,
    image_region: bool,
)
    requires
        0 <= at,
        at + 0x40 <= bytes.len(),
        bytes[at] == 0x4D,
        bytes[at + 1] == 0x5A,
        candidate_at(bytes, at, region_base, image_region) is Some,
        forall|k: int|
            0 <= k < at && bytes[k] == 0x4D && bytes[k + 1] == 0x5A ==> candidate_at(
                bytes,
                k,
                region_base,
                image_region,
            ) is None,
    ensures
        candidates_from(bytes, 0, region_base, image_region, 0).len() > 0,
        candidates_from(bytes, 0, region_base, image_region, 0)[0] == candidate_at(
            bytes,
            at,
            region_base,
            image_region,
        )->0,
        candidate_at(bytes, at, region_base, image_region)->0.region_base == region_base,
        candidate_at(bytes, at, region_base, image_region)->0.entry_point_address == region_base
            + at + candidate_at(bytes, at, region_base, image_region)->0.entry_point_rva,
        candidate_at(bytes, at, region_base, image_region)->0.entry_point_rva < candidate_at(
            bytes,
            at,
            region_base,
            image_region,
        )->0.image_size,
{
    assert forall|k: int| 0 <= k < at implies marked_candidate(
        bytes,
        k,
        region_base,
        image_region,
    ) is None by {}
    lemma_candidate_found(bytes, 0, at, region_base, image_region, 0);
}

proof fn lemma_observed(c: CandidateView, ips: Seq<u64>, from: int, at: int)
    requires
        0 <= from <= at < ips.len(),
        image_start(c) <= ips[at] < image_end(c),
    ensures
        observed_ip(c, ips, from) is Some,
        image_start(c) <= observed_ip(c, ips, from)->0 < image_end(c),
    decreases at - from,
{
    if from < at && !(image_start(c) <= ips[from] < image_end(c)) {
        lemma_observed(c, ips, from + 1, at);
    }
}

proof fn lemma_unobserved(c: CandidateView, ips: Seq<u64>, from: int)
    requires
        forall|i: int| 0 <= i < ips.len() ==> !(image_start(c) <= #[trigger] ips[i] < image_end(c)),
    ensures
        observed_ip(c, ips, from) is None,
    decreases ips.len() - from,
{
    if 0 <= from < ips.len() {
        lemma_unobserved(c, ips, from + 1);
    }
}

/// A thread that runs in a candidate's image raises the confidence in it, and nothing lowers
/// it; a thread elsewhere tells nothing.
pub proof fn law_running_code_is_evidence(c: CandidateView, ips: Seq<u64>, at: int)
    requires
        c.confidence <= 100,
        c.entry_point_address >= c.entry_point_rva,
        c.entry_point_address - c.entry_point_rva + c.image_size <= 0xffff_ffff_ffff_ffff,
    ensures
        ({
            let start = c.entry_point_address - c.entry_point_rva;
            let end = start + c.image_size;
            let later = corroborated(c, ips);
            &&& c.confidence <= later.confidence <= 100
            &&& 0 <= at < ips.len() && start <= ips[at] < end && c.confidence < 100
                ==> later.confidence > c.confidence && later.observed_execution_address is Some
                && start <= later.observed_execution_address->0 < end
            &&& c.reconstruction_verified && c.confidence < 100 ==> later.confidence > c.confidence
            &&& (forall|i: int| 0 <= i < ips.len() ==> !(start <= #[trigger] ips[i] < end))
                && !c.reconstruction_verified ==> later == c
        }),
{
    let start = c.entry_point_address - c.entry_point_rva;
    let end = start + c.image_size;
    assert(image_start(c) == start && image_end(c) == end);
    if 0 <= at < ips.len() && start <= ips[at] < end {
        lemma_observed(c, ips, 0, at);
    }
    if observed_ip(c, ips, 0) is Some {
        lemma_observed_lies(c, ips, 0);
    }
    if forall|i: int| 0 <= i < ips.len() ==> !(start <= #[trigger] ips[i] < end) {
        lemma_unobserved(c, ips, 0);
    }
}

proof fn lemma_observed_lies(c: CandidateView, ips: Seq<u64>, from: int)
    requires
        observed_ip(c, ips, from) is Some,
    ensures
        image_start(c) <= observed_ip(c, ips, from)->0 < image_end(c),
    decreases ips.len() - from,
{
    if 0 <= from < ips.len() && !(image_start(c) <= ips[from] < image_end(c)) {
        lemma_observed_lies(c, ips, from + 1);
    }
}

/// The confidence of a report is that of one of the candidates, and none has a higher one.
pub proof fn law_best_confidence_is_best(candidates: Seq<CandidateView>, k: int)
    requires
        0 <= k < candidates.len(),
    ensures
        best_confidence(candidates).units >= Score::of_hundredths(
            candidates[k].confidence as nat,
        ).units,
        exists|i: int|
            0 <= i < candidates.len() && best_confidence(candidates) == Score::of_hundredths(
                (#[trigger] candidates[i]).confidence as nat,
            ),
    decreases candidates.len(),
{
    let front = candidates.drop_last();
    let last = candidates.len() - 1;
    if front.len() > 0 {
        let j = if k < last {
            k
        } else {
            0
        };
        law_best_confidence_is_best(front, j);
        assert(front[j] == candidates[j]);
        let i = choose|i: int|
            0 <= i < front.len() && best_confidence(front) == Score::of_hundredths(
                (#[trigger] front[i]).confidence as nat,
            );
        if best_confidence(candidates) == best_confidence(front) {
            assert(candidates[i] == front[i]);
        } else {
            assert(best_confidence(candidates) == Score::of_hundredths(
                candidates[last].confidence as nat,
            ));
        }
    } else {
        assert(best_confidence(front) == Score::zero());
        assert(best_confidence(candidates).units == Score::of_hundredths(
            candidates[last].confidence as nat,
        ).units);
        assert(best_confidence(candidates) == Score::of_hundredths(
            candidates[last].confidence as nat,
        ));
    }
}

/// What is known stays, and a new candidate is added where its place and entry point are not
/// known yet and there is room.
pub proof fn law_candidates_are_added_once(known: Seq<CandidateView>, c: CandidateView)
    ensures
        candidates_with(known, seq![c]) == if exists|i: int|
            0 <= i < known.len() && (#[trigger] known[i]).region_base == c.region_base
                && known[i].header_offset == c.header_offset && known[i].entry_point_address
                == c.entry_point_address {
            known
        } else {
            known.push(c)
        },
{
    assert(seq![c].drop_last() =~= Seq::<CandidateView>::empty());
    assert(candidates_with(known, seq![c].drop_last()) == known);
}

/// A candidate whose image was rebuilt makes the report one of recovery; without any candidate
/// it is one of none.
pub proof fn law_reports_tell_what_was_found(candidates: Seq<CandidateView>)
    ensures
        (exists|i: int|
            0 <= i < candidates.len() && (#[trigger] candidates[i]).reconstruction_verified)
            ==> report_status(candidates.len(), count_rebuilt(candidates))
            == "recovered_candidate"@,
        candidates.len() > 0 && (forall|i: int|
            0 <= i < candidates.len() ==> !(#[trigger] candidates[i]).reconstruction_verified)
            ==> report_status(candidates.len(), count_rebuilt(candidates)) == "candidate"@,
        candidates.len() == 0 ==> report_status(candidates.len(), count_rebuilt(candidates))
            == "no_candidate"@,
{
    lemma_rebuilt(candidates);
}

proof fn lemma_rebuilt(candidates: Seq<CandidateView>)
    ensures
        count_rebuilt(candidates) > 0 <==> exists|i: int|
            0 <= i < candidates.len() && (#[trigger] candidates[i]).reconstruction_verified,
    decreases candidates.len(),
{
    if candidates.len() > 0 {
        let front = candidates.drop_last();
        let last = candidates.len() - 1;
        lemma_rebuilt(front);
        if count_rebuilt(front) > 0 {
            let i = choose|i: int|
                0 <= i < front.len() && (#[trigger] front[i]).reconstruction_verified;
            assert(candidates[i].reconstruction_verified);
        }
        if candidates[last].reconstruction_verified {
            assert(count_rebuilt(candidates) > 0);
        }
        if exists|i: int|
            0 <= i < candidates.len() && (#[trigger] candidates[i]).reconstruction_verified {
            let i = choose|i: int|
                0 <= i < candidates.len() && (#[trigger] candidates[i]).reconstruction_verified;
            if i < last {
                assert(front[i].reconstruction_verified);
            }
        }
    }
}

/// A rebuilt image holds the captured bytes of its headers and sections in their places and
/// zero elsewhere.
pub proof fn law_rebuilt_images_hold_what_was_captured(
    bytes: Seq<u8>,
    offset: int,
    headers_size: int,
    table: int,
    count: int,
    image_size: nat,
    i: int,
    k: int,
)
    requires
        0 <= k < image_size,
    ensures
        ({
            let image = mapped_image(bytes, offset, headers_size, table, count, image_size);
            &&& image.len() == image_size
            &&& k < headers_size ==> image[k] == bytes[offset + k]
            &&& 0 <= i < count && section_address(bytes, table, i) <= k < section_address(
                bytes,
                table,
                i,
            ) + section_size(bytes, table, i) ==> image[k] == bytes[offset + k]
            &&& k >= headers_size && (forall|j: int|
                0 <= j < count ==> !(#[trigger] section_address(bytes, table, j) <= k
                    < section_address(bytes, table, j) + section_size(bytes, table, j)))
                ==> image[k] == 0
        }),
{
}

} // verus!
