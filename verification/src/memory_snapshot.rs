//! Bounded memory evidence for sandboxed unpacking.
//!
//! This is a recovery evidence layer, not a debugger or a dumper. It looks for
//! structurally valid PE headers in a bounded amount of captured memory and reports
//! candidate image bases and entry points. Nothing recovered is executed or kept.

use crate::bytes::{read_u16, read_u32, u16_at, u32_at};
use crate::score::Score;
use crate::text::{concat2, decimal, decimal_text, only_if, push_text, push_when, texts};
use crate::unpacking::{has_pe_signature, pe_signature_at};
use vstd::prelude::*;

verus! {

pub const MAX_CAPTURE_BYTES: u64 = 0x200_0000;

pub const MAX_REGION_BYTES: u64 = 0x40_0000;

pub const MAX_QUERY_REGIONS: u32 = 32_768;

pub const MAX_EXECUTABLE_REGIONS: u32 = 96;

pub const MAX_CANDIDATES: usize = 32;

pub const MAX_CANDIDATES_PER_REGION: usize = 8;

pub const MAX_IMAGE_SIZE: u32 = 0x2000_0000;

pub const MAX_RECONSTRUCTED_IMAGE_BYTES: u32 = 0x100_0000;

pub const MEM_COMMIT: u32 = 0x1000;

pub const MEM_PRIVATE: u32 = 0x2_0000;

pub const MEM_IMAGE: u32 = 0x100_0000;

pub const PAGE_MASK: u32 = 0xff;

pub const PAGE_GUARD: u32 = 0x100;

/// A summary of what memory snapshots found. The status is one of `not_available`,
/// `no_candidate`, `candidate` and `recovered_candidate`. A missing candidate is no
/// evidence that a protected sample is benign.
#[derive(Debug)]
pub struct SandboxUnpackingReport {
    pub status: String,
    pub regions_scanned: u32,
    pub executable_regions: u32,
    pub candidate_images: u32,
    pub recovered_entry_points: u32,
    pub observed_execution_points: u32,
    pub snapshot_rounds: u32,
    pub triggered_snapshots: u32,
    pub adaptive_timeout_ms: u64,
    pub bytes_captured: u64,
    pub truncated: bool,
    pub confidence: Score,
    pub candidates: Vec<MemoryImageCandidate>,
    pub notes: Vec<String>,
}

/// A PE image found in executable memory: metadata only, no raw bytes.
#[derive(Debug, Clone, PartialEq, Eq)]
pub struct MemoryImageCandidate {
    pub region_base: u64,
    pub header_offset: u32,
    pub image_base: u64,
    pub image_size: u32,
    pub entry_point_rva: u32,
    pub entry_point_address: u64,
    pub observed_execution_address: Option<u64>,
    pub reconstruction_verified: bool,
    pub source: String,
    pub confidence: u8,
}

pub struct CandidateView {
    pub region_base: u64,
    pub header_offset: u32,
    pub image_base: u64,
    pub image_size: u32,
    pub entry_point_rva: u32,
    pub entry_point_address: u64,
    pub observed_execution_address: Option<u64>,
    pub reconstruction_verified: bool,
    pub source: Seq<char>,
    pub confidence: u8,
}

impl View for MemoryImageCandidate {
    type V = CandidateView;

    open spec fn view(&self) -> CandidateView {
        CandidateView {
            region_base: self.region_base,
            header_offset: self.header_offset,
            image_base: self.image_base,
            image_size: self.image_size,
            entry_point_rva: self.entry_point_rva,
            entry_point_address: self.entry_point_address,
            observed_execution_address: self.observed_execution_address,
            reconstruction_verified: self.reconstruction_verified,
            source: self.source@,
            confidence: self.confidence,
        }
    }
}

pub open spec fn candidate_views(candidates: Seq<MemoryImageCandidate>) -> Seq<CandidateView> {
    candidates.map_values(|c: MemoryImageCandidate| c@)
}

impl SandboxUnpackingReport {
    /// Nothing was scanned; the only note says why.
    pub open spec fn is_empty_report(&self, status: Seq<char>, reason: Seq<char>) -> bool {
        &&& self.status@ == status
        &&& self.regions_scanned == 0
        &&& self.executable_regions == 0
        &&& self.candidate_images == 0
        &&& self.recovered_entry_points == 0
        &&& self.observed_execution_points == 0
        &&& self.snapshot_rounds == 0
        &&& self.triggered_snapshots == 0
        &&& self.adaptive_timeout_ms == 0
        &&& self.bytes_captured == 0
        &&& !self.truncated
        &&& self.confidence == Score::zero()
        &&& self.candidates@.len() == 0
        &&& texts(self.notes@) == seq![reason]
    }

    fn empty(status: &str, reason: String) -> (report: Self)
        ensures
            report.is_empty_report(status@, reason@),
    {
        let mut notes: Vec<String> = Vec::new();
        assert(texts(notes@) =~= Seq::empty());
        push_text(&mut notes, reason);
        SandboxUnpackingReport {
            status: status.to_owned(),
            regions_scanned: 0,
            executable_regions: 0,
            candidate_images: 0,
            recovered_entry_points: 0,
            observed_execution_points: 0,
            snapshot_rounds: 0,
            triggered_snapshots: 0,
            adaptive_timeout_ms: 0,
            bytes_captured: 0,
            truncated: false,
            confidence: Score { units: 0 },
            candidates: Vec::new(),
            notes,
        }
    }

    /// The report of a snapshot that could not be taken.
    pub fn unavailable(reason: String) -> (report: Self)
        ensures
            report.is_empty_report("not_available"@, reason@),
    {
        Self::empty("not_available", reason)
    }

    /// The report of a snapshot that found nothing.
    pub fn no_candidate(reason: String) -> (report: Self)
        ensures
            report.is_empty_report("no_candidate"@, reason@),
    {
        Self::empty("no_candidate", reason)
    }
}

impl Default for SandboxUnpackingReport {
    fn default() -> (report: Self)
        ensures
            report.is_empty_report("not_available"@, "memory snapshot was not started"@),
    {
        SandboxUnpackingReport::unavailable("memory snapshot was not started".to_owned())
    }
}

/// Snapshots need an application container.
pub struct MemorySnapshotCollector;

impl MemorySnapshotCollector {
    pub fn unavailable() -> (report: SandboxUnpackingReport)
        ensures
            report.is_empty_report(
                "not_available"@,
                "memory snapshot requires Windows AppContainer"@,
            ),
    {
        SandboxUnpackingReport::unavailable(
            "memory snapshot requires Windows AppContainer".to_owned(),
        )
    }
}

pub open spec fn executable_protection(protect: u32) -> bool {
    let base = protect & PAGE_MASK;
    (base == 0x10 || base == 0x20 || base == 0x40 || base == 0x80) && protect & PAGE_GUARD == 0
}

pub open spec fn writable_executable_protection(protect: u32) -> bool {
    let base = protect & PAGE_MASK;
    (base == 0x40 || base == 0x80) && protect & PAGE_GUARD == 0
}

/// The page protection lets code run, and the page is no guard page.
pub fn is_executable(protect: u32) -> (b: bool)
    ensures
        b == executable_protection(protect),
{
    let base: u32 = protect & PAGE_MASK;
    (base == 0x10 || base == 0x20 || base == 0x40 || base == 0x80) && protect & PAGE_GUARD == 0
}

/// The page protection lets code be written and run, and the page is no guard page.
pub fn is_writable_executable(protect: u32) -> (b: bool)
    ensures
        b == writable_executable_protection(protect),
{
    let base: u32 = protect & PAGE_MASK;
    (base == 0x40 || base == 0x80) && protect & PAGE_GUARD == 0
}

/// The virtual size of section `i`, at least one.
pub open spec fn section_size(bytes: Seq<u8>, table: int, i: int) -> int {
    let size = u32_at(bytes, table + 40 * i + 8);
    if size == 0 {
        1
    } else {
        size as int
    }
}

pub open spec fn section_address(bytes: Seq<u8>, table: int, i: int) -> int {
    u32_at(bytes, table + 40 * i + 12) as int
}

/// The first `count` sections lie inside an image of `image_size` bytes.
pub open spec fn sections_fit(bytes: Seq<u8>, table: int, count: int, image_size: int) -> bool {
    forall|i: int|
        0 <= i < count ==> #[trigger] section_address(bytes, table, i) < image_size
            && section_address(bytes, table, i) + section_size(bytes, table, i) <= image_size
}

/// The first `count` sections of the image at `offset` lie inside the captured bytes.
pub open spec fn sections_captured(bytes: Seq<u8>, offset: int, table: int, count: int) -> bool {
    forall|i: int|
        0 <= i < count ==> offset + #[trigger] section_address(bytes, table, i) + section_size(
            bytes,
            table,
            i,
        ) <= bytes.len()
}

/// The image byte `k` comes from the headers or from one of the first `count` sections.
pub open spec fn image_byte_mapped(
    bytes: Seq<u8>,
    headers_size: int,
    table: int,
    count: int,
    k: int,
) -> bool {
    k < headers_size || exists|i: int|
        0 <= i < count && #[trigger] section_address(bytes, table, i) <= k < section_address(
            bytes,
            table,
            i,
        ) + section_size(bytes, table, i)
}

/// The image that headers and sections map: what is not mapped is zero.
pub open spec fn mapped_image(
    bytes: Seq<u8>,
    offset: int,
    headers_size: int,
    table: int,
    count: int,
    image_size: nat,
) -> Seq<u8> {
    Seq::new(
        image_size,
        |k: int|
            if image_byte_mapped(bytes, headers_size, table, count, k) {
                bytes[offset + k]
            } else {
                0
            },
    )
}

pub open spec fn starts_with_mz(image: Seq<u8>) -> bool {
    image.len() >= 2 && image[0] == 0x4D && image[1] == 0x5A
}

/// The little-endian 64-bit field at `at`.
pub open spec fn u64_at(data: Seq<u8>, at: int) -> nat {
    u32_at(data, at) + 0x1_0000_0000 * u32_at(data, at + 4)
}

pub open spec fn preferred_base(bytes: Seq<u8>, optional: int) -> Option<u64> {
    if u16_at(bytes, optional) == 0x10b {
        Some(u32_at(bytes, optional + 28) as u64)
    } else if u16_at(bytes, optional) == 0x20b {
        Some(u64_at(bytes, optional + 24) as u64)
    } else {
        None
    }
}

/// The headers of an image at `offset` are complete and consistent.
pub open spec fn headers_valid(bytes: Seq<u8>, offset: int) -> bool {
    let n = bytes.len();
    let pe = offset + u32_at(bytes, offset + 0x3c);
    let count = u16_at(bytes, pe + 6) as int;
    let optional_size = u16_at(bytes, pe + 20) as int;
    let optional = pe + 24;
    let table = optional + optional_size;
    let entry = u32_at(bytes, optional + 16);
    let image_size = u32_at(bytes, optional + 56);
    let headers_size = u32_at(bytes, optional + 60);
    &&& offset + 0x40 <= n
    &&& pe_signature_at(bytes, pe)
    &&& pe + 24 <= n
    &&& 1 <= count <= 96
    &&& optional_size >= 64
    &&& table + 40 * count <= n
    &&& preferred_base(bytes, optional) is Some
    &&& 0 < image_size <= MAX_IMAGE_SIZE
    &&& entry < image_size
    &&& 0 < headers_size <= image_size
    &&& offset + headers_size <= n
    &&& sections_fit(bytes, table, count, image_size as int)
}

/// The image at `offset` can be rebuilt from the captured bytes and starts as an image does.
/// Images that are too large are not rebuilt but taken at their word.
pub open spec fn image_rebuilt(bytes: Seq<u8>, offset: int) -> bool {
    let pe = offset + u32_at(bytes, offset + 0x3c);
    let count = u16_at(bytes, pe + 6) as int;
    let optional = pe + 24;
    let table = optional + u16_at(bytes, pe + 20);
    let image_size = u32_at(bytes, optional + 56);
    let headers_size = u32_at(bytes, optional + 60) as int;
    sections_captured(bytes, offset, table, count) && (image_size > MAX_RECONSTRUCTED_IMAGE_BYTES
        || starts_with_mz(mapped_image(bytes, offset, headers_size, table, count, image_size)))
}

/// The candidate that an image at `offset` of a region makes, if its headers are valid and
/// its addresses exist.
pub open spec fn candidate_at(
    bytes: Seq<u8>,
    offset: int,
    region_base: u64,
    image_region: bool,
) -> Option<CandidateView> {
    let pe = offset + u32_at(bytes, offset + 0x3c);
    let optional = pe + 24;
    let entry = u32_at(bytes, optional + 16);
    if headers_valid(bytes, offset) && region_base + offset + entry <= u64::MAX {
        Some(
            CandidateView {
                region_base,
                header_offset: (offset % 0x1_0000_0000) as u32,
                image_base: preferred_base(bytes, optional).unwrap(),
                image_size: u32_at(bytes, optional + 56) as u32,
                entry_point_rva: entry as u32,
                entry_point_address: (region_base + offset + entry) as u64,
                observed_execution_address: None,
                reconstruction_verified: image_rebuilt(bytes, offset),
                source: if image_region {
                    "mapped_image"@
                } else {
                    "private_executable_memory"@
                },
                confidence: if image_region {
                    82
                } else {
                    74
                },
            },
        )
    } else {
        None
    }
}

fn read_u64(data: &[u8], at: usize) -> (v: u64)
    requires
        at + 8 <= data@.len(),
    ensures
        v == u64_at(data@, at as int),
{
    let size: usize = data.len();
    assert(at + 4 <= size);
    read_u32(data, at) as u64 + 0x1_0000_0000 * (read_u32(data, at + 4) as u64)
}

/// Rebuilds a mapped image in memory and tells whether it starts as an image does. The
/// image is dropped at once.
pub fn reconstruct_image_in_memory(
    bytes: &[u8],
    offset: usize,
    headers_size: usize,
    section_table: usize,
    section_count: usize,
    image_size: usize,
) -> (b: bool)
    requires
        offset + headers_size <= bytes@.len(),
        headers_size <= image_size,
        section_count <= 96,
        section_table + 40 * section_count <= bytes@.len(),
        sections_fit(bytes@, section_table as int, section_count as int, image_size as int),
        sections_captured(bytes@, offset as int, section_table as int, section_count as int),
    ensures
        b == starts_with_mz(
            mapped_image(
                bytes@,
                offset as int,
                headers_size as int,
                section_table as int,
                section_count as int,
                image_size as nat,
            ),
        ),
{
    let size: usize = bytes.len();
    let mut image: Vec<u8> = vec![0u8;image_size];
    let mut k: usize = 0;
    while k < headers_size
        invariant
            k <= headers_size <= image_size == image@.len(),
            offset + headers_size <= bytes@.len() == size,
            forall|j: int|
                0 <= j < image_size ==> #[trigger] image@[j] == (if j < k {
                    bytes@[offset + j]
                } else {
                    0
                }),
        decreases headers_size - k,
    {
        let b: u8 = bytes[offset + k];
        image.set(k, b);
        k = k + 1;
    }
    let ghost table = section_table as int;
    let mut index: usize = 0;
    assert(image@ =~= mapped_image(
        bytes@,
        offset as int,
        headers_size as int,
        table,
        0,
        image_size as nat,
    ));
    while index < section_count
        invariant
            index <= section_count <= 96,
            table == section_table,
            section_table + 40 * section_count <= bytes@.len() == size,
            image@.len() == image_size,
            sections_fit(bytes@, table, section_count as int, image_size as int),
            sections_captured(bytes@, offset as int, table, section_count as int),
            image@ == mapped_image(
                bytes@,
                offset as int,
                headers_size as int,
                table,
                index as int,
                image_size as nat,
            ),
        decreases section_count - index,
    {
        let section: usize = section_table + 40 * index;
        let declared: u32 = read_u32(bytes, section + 8);
        let length: usize = if declared == 0 {
            1
        } else {
            declared as usize
        };
        let start: usize = read_u32(bytes, section + 12) as usize;
        assert(start == section_address(bytes@, table, index as int));
        assert(length == section_size(bytes@, table, index as int));
        let ghost before = image@;
        let mut k: usize = 0;
        while k < length
            invariant
                k <= length,
                start + length <= image_size == image@.len(),
                offset + start + length <= bytes@.len() == size,
                before.len() == image_size,
                forall|j: int|
                    0 <= j < image_size ==> #[trigger] image@[j] == (if start <= j < start + k {
                        bytes@[offset + j]
                    } else {
                        before[j]
                    }),
            decreases length - k,
        {
            let b: u8 = bytes[offset + start + k];
            image.set(start + k, b);
            k = k + 1;
        }
        proof {
            let wanted = mapped_image(
                bytes@,
                offset as int,
                headers_size as int,
                table,
                index + 1,
                image_size as nat,
            );
            assert forall|j: int| 0 <= j < image_size implies image@[j] == wanted[j] by {
                lemma_mapped_step(bytes@, headers_size as int, table, index as int, j);
            }
            assert(image@ =~= wanted);
        }
        index = index + 1;
    }
    image.len() >= 2 && image[0] == 0x4D && image[1] == 0x5A
}

/// One more section maps its own bytes beside those mapped before.
proof fn lemma_mapped_step(bytes: Seq<u8>, headers_size: int, table: int, count: int, k: int)
    requires
        0 <= count,
    ensures
        image_byte_mapped(bytes, headers_size, table, count + 1, k) == (image_byte_mapped(
            bytes,
            headers_size,
            table,
            count,
            k,
        ) || section_address(bytes, table, count) <= k < section_address(bytes, table, count)
            + section_size(bytes, table, count)),
{
    if image_byte_mapped(bytes, headers_size, table, count + 1, k) && k >= headers_size {
        let i = choose|i: int|
            0 <= i < count + 1 && #[trigger] section_address(bytes, table, i) <= k
                < section_address(bytes, table, i) + section_size(bytes, table, i);
        assert(i == count || i < count);
    }
}

/// Checks the sections of an image: `None` where one leaves the image, otherwise whether
/// all of them were captured.
fn check_sections(
    bytes: &[u8],
    offset: usize,
    table: usize,
    count: usize,
    image_size: u32,
) -> (r: Option<bool>)
    requires
        count <= 96,
        table + 40 * count <= bytes@.len(),
    ensures
        match r {
            Some(captured) => sections_fit(bytes@, table as int, count as int, image_size as int)
                && captured == sections_captured(
                bytes@,
                offset as int,
                table as int,
                count as int,
            ),
            None => !sections_fit(bytes@, table as int, count as int, image_size as int),
        },
{
    let size: usize = bytes.len();
    let mut captured = true;
    let mut index: usize = 0;
    while index < count
        invariant
            index <= count <= 96,
            table + 40 * count <= bytes@.len() == size,
            sections_fit(bytes@, table as int, index as int, image_size as int),
            captured == sections_captured(bytes@, offset as int, table as int, index as int),
        decreases count - index,
    {
        let section: usize = table + 40 * index;
        let declared: u32 = read_u32(bytes, section + 8);
        let length: u64 = if declared == 0 {
            1
        } else {
            declared as u64
        };
        let start: u64 = read_u32(bytes, section + 12) as u64;
        assert(start == section_address(bytes@, table as int, index as int));
        assert(length == section_size(bytes@, table as int, index as int));
        if start >= image_size as u64 || start + length > image_size as u64 {
            return None;
        }
        let here = offset as u128 + start as u128 + length as u128 <= size as u128;
        proof {
            if !here {
                assert(!sections_captured(bytes@, offset as int, table as int, index + 1));
            }
        }
        captured = captured && here;
        index = index + 1;
    }
    Some(captured)
}

/// The candidate that an image at `offset` of a captured region makes.
pub fn parse_pe_candidate(bytes: &[u8], offset: usize, region_base: u64, image_region: bool) -> (
    candidate: Option<MemoryImageCandidate>)
    ensures
        match candidate {
            Some(c) => candidate_at(bytes@, offset as int, region_base, image_region) == Some(c@),
            None => candidate_at(bytes@, offset as int, region_base, image_region) is None,
        },
{
    let size: usize = bytes.len();
    if size < 0x40 || offset > size - 0x40 {
        return None;
    }
    let n: u64 = size as u64;
    let lfanew: u64 = read_u32(bytes, offset + 0x3c) as u64;
    if lfanew > n - offset as u64 {
        return None;
    }
    let pe: u64 = offset as u64 + lfanew;
    if n - pe < 24 || !has_pe_signature(bytes, pe) {
        return None;
    }
    let count: usize = read_u16(bytes, pe as usize + 6) as usize;
    let optional_size: u64 = read_u16(bytes, pe as usize + 20) as u64;
    if count < 1 || count > 96 || optional_size < 64 {
        return None;
    }
    let optional: usize = pe as usize + 24;
    if optional_size > n - optional as u64 || 40 * (count as u64) > n - optional as u64
        - optional_size {
        return None;
    }
    let table: usize = optional + optional_size as usize;
    let magic: u16 = read_u16(bytes, optional);
    let image_base: u64 = if magic == 0x10b {
        read_u32(bytes, optional + 28) as u64
    } else if magic == 0x20b {
        read_u64(bytes, optional + 24)
    } else {
        return None;
    };
    let entry_rva: u32 = read_u32(bytes, optional + 16);
    let image_size: u32 = read_u32(bytes, optional + 56);
    let headers_size: u32 = read_u32(bytes, optional + 60);
    if image_size == 0 || image_size > MAX_IMAGE_SIZE || entry_rva >= image_size {
        return None;
    }
    if headers_size == 0 || headers_size > image_size || headers_size as u64 > n - offset as u64 {
        return None;
    }
    let captured = match check_sections(bytes, offset, table, count, image_size) {
        Some(c) => c,
        None => {
            return None;
        },
    };
    let verified = captured && (image_size > MAX_RECONSTRUCTED_IMAGE_BYTES
        || reconstruct_image_in_memory(
        bytes,
        offset,
        headers_size as usize,
        table,
        count,
        image_size as usize,
    ));
    let address: u128 = region_base as u128 + offset as u128 + entry_rva as u128;
    if address > u64::MAX as u128 {
        return None;
    }
    Some(
        MemoryImageCandidate {
            region_base,
            header_offset: (offset as u64 % 0x1_0000_0000) as u32,
            image_base,
            image_size,
            entry_point_rva: entry_rva,
            entry_point_address: address as u64,
            observed_execution_address: None,
            reconstruction_verified: verified,
            source: if image_region {
                "mapped_image".to_owned()
            } else {
                "private_executable_memory".to_owned()
            },
            confidence: if image_region {
                82
            } else {
                74
            },
        },
    )
}

/// The candidate of an image that starts at `offset` with the DOS signature.
pub open spec fn marked_candidate(
    bytes: Seq<u8>,
    offset: int,
    region_base: u64,
    image_region: bool,
) -> Option<CandidateView> {
    if 0 <= offset && offset + 0x40 <= bytes.len() && bytes[offset] == 0x4D && bytes[offset + 1]
        == 0x5A {
        candidate_at(bytes, offset, region_base, image_region)
    } else {
        None
    }
}

/// The candidates from `offset` on, up to the limit; `found` of them were before it.
pub open spec fn candidates_from(
    bytes: Seq<u8>,
    offset: int,
    region_base: u64,
    image_region: bool,
    found: nat,
) -> Seq<CandidateView>
    decreases bytes.len() - offset,
{
    if offset < 0 || offset >= bytes.len() || found >= MAX_CANDIDATES_PER_REGION {
        Seq::empty()
    } else {
        match marked_candidate(bytes, offset, region_base, image_region) {
            Some(c) => seq![c] + candidates_from(
                bytes,
                offset + 1,
                region_base,
                image_region,
                found + 1,
            ),
            None => candidates_from(bytes, offset + 1, region_base, image_region, found),
        }
    }
}

/// The candidates of a captured region, in order.
pub fn find_pe_candidates(bytes: &[u8], region_base: u64, image_region: bool) -> (candidates: Vec<
    MemoryImageCandidate,
>)
    ensures
        candidate_views(candidates@) == candidates_from(bytes@, 0, region_base, image_region, 0),
        candidates@.len() <= MAX_CANDIDATES_PER_REGION,
{
    let size: usize = bytes.len();
    let ghost wanted = candidates_from(bytes@, 0, region_base, image_region, 0);
    let mut candidates: Vec<MemoryImageCandidate> = Vec::new();
    let mut offset: usize = 0;
    assert(candidate_views(candidates@) + wanted =~= wanted);
    while offset < size && candidates.len() < MAX_CANDIDATES_PER_REGION
        invariant
            offset <= size == bytes@.len(),
            candidates@.len() <= MAX_CANDIDATES_PER_REGION,
            candidate_views(candidates@) + candidates_from(
                bytes@,
                offset as int,
                region_base,
                image_region,
                candidates@.len() as nat,
            ) == wanted,
        decreases size - offset,
    {
        let ghost before = candidate_views(candidates@);
        if size >= 0x40 && offset <= size - 0x40 && bytes[offset] == 0x4D && bytes[offset + 1]
            == 0x5A {
            if let Some(candidate) = parse_pe_candidate(bytes, offset, region_base, image_region) {
                let ghost rest = candidates_from(
                    bytes@,
                    offset + 1,
                    region_base,
                    image_region,
                    candidates@.len() as nat + 1,
                );
                candidates.push(candidate);
                assert(candidate_views(candidates@) =~= before.push(candidate@));
                assert(before + (seq![candidate@] + rest) =~= before.push(candidate@) + rest);
            }
        }
        offset = offset + 1;
    }
    assert(candidate_views(candidates@) + Seq::<CandidateView>::empty() =~= candidate_views(
        candidates@,
    ));
    candidates
}

/// What the collector knows so far.
#[derive(Debug)]
pub struct CollectorState {
    pub regions_scanned: u32,
    pub executable_regions: u32,
    pub bytes_captured: u64,
    pub snapshot_rounds: u32,
    pub triggered_snapshots: u32,
    pub adaptive_timeout_ms: u64,
    pub truncated: bool,
    pub candidates: Vec<MemoryImageCandidate>,
    pub thread_ips: Vec<u64>,
    pub read_failures: u32,
}

/// A region of the observed process as the operating system describes it.
#[derive(Debug, Clone, Copy)]
pub struct RegionInfo {
    pub base: u64,
    pub size: u64,
    pub state: u32,
    pub kind: u32,
    pub protect: u32,
}

/// What to do about a region.
#[derive(Debug, Clone, Copy, PartialEq, Eq, Structural)]
pub enum RegionStep {
    /// End the round.
    Stop,
    /// Go on at the next address.
    Skip { next: u64 },
    /// Read `length` bytes at the region's base, hand them in, then go on at `next`.
    Read { next: u64, length: u64 },
}

pub open spec fn saturating_next(n: u32) -> u32 {
    if n == u32::MAX {
        n
    } else {
        (n + 1) as u32
    }
}

fn next_count(n: u32) -> (m: u32)
    ensures
        m == saturating_next(n),
{
    if n == u32::MAX {
        n
    } else {
        n + 1
    }
}

/// A committed, executable region that is private, or a mapped image that is writable too.
pub open spec fn region_suspect(r: RegionInfo) -> bool {
    r.state == MEM_COMMIT && executable_protection(r.protect) && (r.kind == MEM_PRIVATE || (r.kind
        == MEM_IMAGE && writable_executable_protection(r.protect)))
}

pub open spec fn smaller(a: u64, b: u64) -> u64 {
    if a < b {
        a
    } else {
        b
    }
}

/// How much of a region is read, given what was captured before.
pub open spec fn read_length(size: u64, captured: u64) -> u64 {
    smaller(smaller(size, MAX_REGION_BYTES), (MAX_CAPTURE_BYTES - captured) as u64)
}

/// The candidate is of the same place and entry point as one that is known.
pub open spec fn known_candidate(known: Seq<CandidateView>, c: CandidateView) -> bool {
    exists|i: int|
        0 <= i < known.len() && (#[trigger] known[i]).region_base == c.region_base
            && known[i].header_offset == c.header_offset && known[i].entry_point_address
            == c.entry_point_address
}

/// The candidates after those of a region were added, up to the limit.
pub open spec fn candidates_with(known: Seq<CandidateView>, new: Seq<CandidateView>) -> Seq<
    CandidateView,
>
    decreases new.len(),
{
    if new.len() == 0 {
        known
    } else {
        let before = candidates_with(known, new.drop_last());
        if known_candidate(before, new.last()) || (before.len() > known.len() && before.len()
            >= MAX_CANDIDATES) {
            before
        } else {
            before.push(new.last())
        }
    }
}

impl CollectorState {
    /// The collector before its first round.
    pub fn new(adaptive_timeout_ms: u64) -> (state: Self)
        ensures
            state.regions_scanned == 0,
            state.executable_regions == 0,
            state.bytes_captured == 0,
            state.snapshot_rounds == 0,
            state.triggered_snapshots == 0,
            state.adaptive_timeout_ms == adaptive_timeout_ms,
            !state.truncated,
            state.candidates@.len() == 0,
            state.thread_ips@.len() == 0,
            state.read_failures == 0,
    {
        CollectorState {
            regions_scanned: 0,
            executable_regions: 0,
            bytes_captured: 0,
            snapshot_rounds: 0,
            triggered_snapshots: 0,
            adaptive_timeout_ms,
            truncated: false,
            candidates: Vec::new(),
            thread_ips: Vec::new(),
            read_failures: 0,
        }
    }

    /// The parts of the state that region handling never touches are as they were.
    pub open spec fn keeps_frame(&self, later: &CollectorState) -> bool {
        &&& later.snapshot_rounds == self.snapshot_rounds
        &&& later.triggered_snapshots == self.triggered_snapshots
        &&& later.adaptive_timeout_ms == self.adaptive_timeout_ms
        &&& later.thread_ips == self.thread_ips
    }

    /// A budget is used up.
    pub open spec fn exhausted(&self) -> bool {
        ||| self.regions_scanned >= MAX_QUERY_REGIONS
        ||| self.executable_regions >= MAX_EXECUTABLE_REGIONS
        ||| self.bytes_captured >= MAX_CAPTURE_BYTES
    }

    /// Counts a round, and tells how many milliseconds later the next one is due.
    pub fn start_round(&mut self, triggered: bool) -> (delay_ms: u64)
        ensures
            final(self).snapshot_rounds == saturating_next(old(self).snapshot_rounds),
            final(self).triggered_snapshots == (if triggered {
                saturating_next(old(self).triggered_snapshots)
            } else {
                old(self).triggered_snapshots
            }),
            *final(self) == (CollectorState {
                snapshot_rounds: final(self).snapshot_rounds,
                triggered_snapshots: final(self).triggered_snapshots,
                ..*old(self)
            }),
            delay_ms == (if triggered {
                60u64
            } else {
                220
            }),
    {
        self.snapshot_rounds = next_count(self.snapshot_rounds);
        if triggered {
            self.triggered_snapshots = next_count(self.triggered_snapshots);
            60
        } else {
            220
        }
    }

    /// Tells whether regions are to be looked at in this round. A collector that used up its
    /// regions is truncated.
    pub fn begin_scan(&mut self) -> (go: bool)
        ensures
            go == !(old(self).truncated || old(self).regions_scanned >= MAX_QUERY_REGIONS),
            *final(self) == (CollectorState {
                truncated: old(self).truncated || old(self).regions_scanned >= MAX_QUERY_REGIONS,
                ..*old(self)
            }),
    {
        if self.truncated || self.regions_scanned >= MAX_QUERY_REGIONS {
            self.truncated = true;
            false
        } else {
            true
        }
    }

    /// Another region may be looked at.
    pub fn wants_region(&self) -> (b: bool)
        ensures
            b == !self.exhausted(),
    {
        self.regions_scanned < MAX_QUERY_REGIONS && self.executable_regions < MAX_EXECUTABLE_REGIONS
            && self.bytes_captured < MAX_CAPTURE_BYTES
    }

    /// Decides what to do about the region at `address`, `None` where there is none.
    pub fn consider_region(&mut self, address: u64, region: Option<RegionInfo>) -> (step:
        RegionStep)
        requires
            !old(self).exhausted(),
        ensures
            match region {
                Some(r) => if r.size == 0 {
                    step == RegionStep::Stop && *final(self) == *old(self)
                } else {
                    let next = if address + r.size > u64::MAX {
                        u64::MAX
                    } else {
                        (address + r.size) as u64
                    };
                    &&& *final(self) == (CollectorState {
                        regions_scanned: saturating_next(old(self).regions_scanned),
                        executable_regions: if next > address && region_suspect(r) {
                            saturating_next(old(self).executable_regions)
                        } else {
                            old(self).executable_regions
                        },
                        ..*old(self)
                    })
                    &&& step == (if next <= address {
                        RegionStep::Stop
                    } else if region_suspect(r) {
                        RegionStep::Read { next, length: read_length(r.size, old(self).bytes_captured) }
                    } else {
                        RegionStep::Skip { next }
                    })
                },
                None => step == RegionStep::Stop && *final(self) == *old(self),
            },
    {
        let r = match region {
            Some(r) => r,
            None => {
                return RegionStep::Stop;
            },
        };
        if r.size == 0 {
            return RegionStep::Stop;
        }
        self.regions_scanned = next_count(self.regions_scanned);
        let next: u64 = if r.size > u64::MAX - address {
            u64::MAX
        } else {
            address + r.size
        };
        if next <= address {
            return RegionStep::Stop;
        }
        let mapped = r.kind == MEM_IMAGE && is_writable_executable(r.protect);
        if r.state != MEM_COMMIT || !is_executable(r.protect) || (r.kind != MEM_PRIVATE && !mapped) {
            return RegionStep::Skip { next };
        }
        self.executable_regions = next_count(self.executable_regions);
        let remaining: u64 = MAX_CAPTURE_BYTES - self.bytes_captured;
        let capped: u64 = if r.size < MAX_REGION_BYTES {
            r.size
        } else {
            MAX_REGION_BYTES
        };
        let length: u64 = if capped < remaining {
            capped
        } else {
            remaining
        };
        RegionStep::Read { next, length }
    }

    /// Takes in what was read of a region; tells whether the round goes on. A read that failed
    /// or brought less than a header counts as a failure.
    pub fn absorb_region(&mut self, region: RegionInfo, length: u64, bytes: &[u8]) -> (go: bool)
        requires
            bytes@.len() <= length,
            old(self).bytes_captured + length <= MAX_CAPTURE_BYTES,
        ensures
            old(self).keeps_frame(final(self)),
            final(self).regions_scanned == old(self).regions_scanned,
            final(self).executable_regions == old(self).executable_regions,
            if bytes@.len() < 0x40 {
                &&& go
                &&& final(self).read_failures == saturating_next(old(self).read_failures)
                &&& final(self).bytes_captured == old(self).bytes_captured
                &&& final(self).truncated == old(self).truncated
                &&& final(self).candidates == old(self).candidates
            } else {
                &&& final(self).read_failures == old(self).read_failures
                &&& final(self).bytes_captured == old(self).bytes_captured + bytes@.len()
                &&& candidate_views(final(self).candidates@) == candidates_with(
                    candidate_views(old(self).candidates@),
                    candidates_from(bytes@, 0, region.base, region.kind == MEM_IMAGE, 0),
                )
                &&& go == !(region.size > length || final(self).bytes_captured >= MAX_CAPTURE_BYTES)
                &&& final(self).truncated == (old(self).truncated || !go || (
                final(self).candidates@.len() > old(self).candidates@.len()
                    && final(self).candidates@.len() >= MAX_CANDIDATES))
            },
    {
        if bytes.len() < 0x40 {
            self.read_failures = next_count(self.read_failures);
            return true;
        }
        self.bytes_captured = self.bytes_captured + bytes.len() as u64;
        let found = find_pe_candidates(bytes, region.base, region.kind == MEM_IMAGE);
        let full = self.add_candidates(found);
        if full {
            self.truncated = true;
        }
        if region.size > length || self.bytes_captured >= MAX_CAPTURE_BYTES {
            self.truncated = true;
            false
        } else {
            true
        }
    }

    /// Adds the candidates that are new, up to the limit; tells whether adding reached it.
    fn add_candidates(&mut self, found: Vec<MemoryImageCandidate>) -> (full: bool)
        ensures
            candidate_views(final(self).candidates@) == candidates_with(
                candidate_views(old(self).candidates@),
                candidate_views(found@),
            ),
            full == (final(self).candidates@.len() > old(self).candidates@.len()
                && final(self).candidates@.len() >= MAX_CANDIDATES),
            *final(self) == (CollectorState { candidates: final(self).candidates, ..*old(self) }),
    {
        let ghost known = candidate_views(self.candidates@);
        let ghost new = candidate_views(found@);
        let start: usize = self.candidates.len();
        let mut full = false;
        let mut i: usize = 0;
        while i < found.len()
            invariant
                i <= found@.len(),
                known == candidate_views(old(self).candidates@),
                new == candidate_views(found@),
                start == old(self).candidates@.len(),
                self.candidates@.len() >= start,
                candidate_views(self.candidates@) == candidates_with(known, new.take(i as int)),
                full == (self.candidates@.len() > start && self.candidates@.len()
                    >= MAX_CANDIDATES),
                *self == (CollectorState { candidates: self.candidates, ..*old(self) }),
            decreases found@.len() - i,
        {
            assert(new.take(i + 1).drop_last() =~= new.take(i as int));
            assert(new.take(i + 1).last() == found@[i as int]@);
            let ghost before = candidate_views(self.candidates@);
            if !full && !self.knows(&found[i]) {
                let c = copy_candidate(&found[i]);
                self.candidates.push(c);
                assert(candidate_views(self.candidates@) =~= before.push(found@[i as int]@));
                if self.candidates.len() >= MAX_CANDIDATES {
                    full = true;
                }
            }
            i = i + 1;
        }
        assert(new.take(i as int) =~= new);
        full
    }

    fn knows(&self, c: &MemoryImageCandidate) -> (b: bool)
        ensures
            b == known_candidate(candidate_views(self.candidates@), c@),
    {
        let ghost views = candidate_views(self.candidates@);
        let mut i: usize = 0;
        while i < self.candidates.len()
            invariant
                i <= self.candidates@.len(),
                views == candidate_views(self.candidates@),
                forall|k: int|
                    0 <= k < i ==> !((#[trigger] views[k]).region_base == c.region_base
                        && views[k].header_offset == c.header_offset && views[k].entry_point_address
                        == c.entry_point_address),
            decreases self.candidates@.len() - i,
        {
            let e = &self.candidates[i];
            assert(views[i as int] == e@);
            if e.region_base == c.region_base && e.header_offset == c.header_offset
                && e.entry_point_address == c.entry_point_address {
                return true;
            }
            i = i + 1;
        }
        false
    }

    /// Ends a round: a collector that used up a budget is truncated.
    pub fn end_scan(&mut self)
        ensures
            *final(self) == (CollectorState {
                truncated: old(self).truncated || old(self).exhausted(),
                ..*old(self)
            }),
    {
        if self.regions_scanned >= MAX_QUERY_REGIONS || self.executable_regions
            >= MAX_EXECUTABLE_REGIONS || self.bytes_captured >= MAX_CAPTURE_BYTES {
            self.truncated = true;
        }
    }

    /// No further round is needed.
    pub fn is_done(&self) -> (b: bool)
        ensures
            b == (self.truncated || self.candidates@.len() >= MAX_CANDIDATES),
    {
        self.truncated || self.candidates.len() >= MAX_CANDIDATES
    }

    /// Notes the instruction pointer of a thread, each once.
    pub fn note_instruction_pointer(&mut self, ip: u64)
        ensures
            final(self).thread_ips@ == (if ip != 0 && !old(self).thread_ips@.contains(ip) {
                old(self).thread_ips@.push(ip)
            } else {
                old(self).thread_ips@
            }),
            *final(self) == (CollectorState { thread_ips: final(self).thread_ips, ..*old(self) }),
    {
        let mut i: usize = 0;
        let mut known = false;
        while i < self.thread_ips.len() && !known
            invariant
                i <= self.thread_ips@.len(),
                *self == *old(self),
                !known ==> forall|k: int| 0 <= k < i ==> self.thread_ips@[k] != ip,
                known ==> self.thread_ips@.contains(ip),
            decreases self.thread_ips@.len() - i,
        {
            if self.thread_ips[i] == ip {
                assert(self.thread_ips@[i as int] == ip);
                known = true;
            }
            i = i + 1;
        }
        if ip != 0 && !known {
            self.thread_ips.push(ip);
        }
    }
}

fn copy_candidate(c: &MemoryImageCandidate) -> (d: MemoryImageCandidate)
    ensures
        d@ == c@,
{
    MemoryImageCandidate {
        region_base: c.region_base,
        header_offset: c.header_offset,
        image_base: c.image_base,
        image_size: c.image_size,
        entry_point_rva: c.entry_point_rva,
        entry_point_address: c.entry_point_address,
        observed_execution_address: c.observed_execution_address,
        reconstruction_verified: c.reconstruction_verified,
        source: c.source.clone(),
        confidence: c.confidence,
    }
}

/// Where the image of a candidate lies in memory.
pub open spec fn image_start(c: CandidateView) -> int {
    if c.entry_point_address < c.entry_point_rva {
        0
    } else {
        c.entry_point_address - c.entry_point_rva
    }
}

pub open spec fn image_end(c: CandidateView) -> int {
    if image_start(c) + c.image_size > u64::MAX {
        u64::MAX as int
    } else {
        image_start(c) + c.image_size
    }
}

/// The first instruction pointer from `i` on that lies in the candidate's image.
pub open spec fn observed_ip(c: CandidateView, ips: Seq<u64>, i: int) -> Option<u64>
    decreases ips.len() - i,
{
    if i < 0 || i >= ips.len() {
        None
    } else if image_start(c) <= ips[i] < image_end(c) {
        Some(ips[i])
    } else {
        observed_ip(c, ips, i + 1)
    }
}

pub open spec fn raised(confidence: u8, by: int) -> u8 {
    if confidence + by > 100 {
        100
    } else {
        (confidence + by) as u8
    }
}

/// A candidate with what the threads say of it, and the confidence that follows.
pub open spec fn corroborated(c: CandidateView, ips: Seq<u64>) -> CandidateView {
    let seen = observed_ip(c, ips, 0);
    let first = if seen is Some {
        raised(c.confidence, 12)
    } else {
        c.confidence
    };
    CandidateView {
        observed_execution_address: if seen is Some {
            seen
        } else {
            c.observed_execution_address
        },
        confidence: if c.reconstruction_verified {
            raised(first, 8)
        } else {
            first
        },
        ..c
    }
}

pub open spec fn count_observed(candidates: Seq<CandidateView>, ips: Seq<u64>) -> nat
    decreases candidates.len(),
{
    if candidates.len() == 0 {
        0
    } else {
        count_observed(candidates.drop_last(), ips) + (if observed_ip(candidates.last(), ips, 0)
            is Some {
            1nat
        } else {
            0
        })
    }
}

pub open spec fn count_rebuilt(candidates: Seq<CandidateView>) -> nat
    decreases candidates.len(),
{
    if candidates.len() == 0 {
        0
    } else {
        count_rebuilt(candidates.drop_last()) + (if candidates.last().reconstruction_verified {
            1nat
        } else {
            0
        })
    }
}

/// The highest confidence, as a score.
pub open spec fn best_confidence(candidates: Seq<CandidateView>) -> Score
    decreases candidates.len(),
{
    if candidates.len() == 0 {
        Score::zero()
    } else {
        best_confidence(candidates.drop_last()).greater(
            Score::of_hundredths(candidates.last().confidence as nat),
        )
    }
}

pub open spec fn report_status(candidates: nat, rebuilt: nat) -> Seq<char> {
    if candidates == 0 {
        "no_candidate"@
    } else if rebuilt > 0 {
        "recovered_candidate"@
    } else {
        "candidate"@
    }
}

pub open spec fn report_notes(
    truncated: bool,
    failures: u32,
    observed: nat,
    rebuilt: nat,
    candidates: nat,
) -> Seq<Seq<char>> {
    Seq::<Seq<char>>::empty() + only_if(truncated, "capture_budget_reached"@) + only_if(
        failures > 0,
        "memory_read_failures:"@ + decimal(failures as nat),
    ) + only_if(observed > 0, "thread_instruction_pointer_correlated"@) + only_if(
        rebuilt > 0,
        "pe_image_reconstructed_in_memory_only"@,
    ) + only_if(candidates == 0, "no_structurally_valid_pe_in_executable_memory"@)
}

fn find_observed(c: &MemoryImageCandidate, ips: &[u64]) -> (ip: Option<u64>)
    ensures
        ip == observed_ip(c@, ips@, 0),
{
    let start: u64 = if c.entry_point_address < c.entry_point_rva as u64 {
        0
    } else {
        c.entry_point_address - c.entry_point_rva as u64
    };
    let end: u64 = if c.image_size as u64 > u64::MAX - start {
        u64::MAX
    } else {
        start + c.image_size as u64
    };
    let mut i: usize = 0;
    while i < ips.len()
        invariant
            i <= ips@.len(),
            start == image_start(c@),
            end == image_end(c@),
            observed_ip(c@, ips@, 0) == observed_ip(c@, ips@, i as int),
        decreases ips@.len() - i,
    {
        if start <= ips[i] && ips[i] < end {
            return Some(ips[i]);
        }
        i = i + 1;
    }
    None
}

fn raise(confidence: u8, by: u8) -> (r: u8)
    requires
        by <= 100,
    ensures
        r == raised(confidence, by as int),
{
    if confidence as u16 + by as u16 > 100 {
        100
    } else {
        confidence + by
    }
}

proof fn lemma_counts_bounded(candidates: Seq<CandidateView>, ips: Seq<u64>)
    ensures
        count_observed(candidates, ips) <= candidates.len(),
        count_rebuilt(candidates) <= candidates.len(),
    decreases candidates.len(),
{
    if candidates.len() > 0 {
        lemma_counts_bounded(candidates.drop_last(), ips);
    }
}

impl CollectorState {
    /// The report that the collector ends with.
    pub fn into_report(self) -> (report: SandboxUnpackingReport)
        requires
            self.candidates@.len() <= u32::MAX,
        ensures
            ({
                let ips = self.thread_ips@;
                let found = candidate_views(self.candidates@);
                let observed = count_observed(found, ips);
                let rebuilt = count_rebuilt(found);
                let judged = found.map_values(|c: CandidateView| corroborated(c, ips));
                &&& report.status@ == report_status(found.len(), rebuilt)
                &&& report.regions_scanned == self.regions_scanned
                &&& report.executable_regions == self.executable_regions
                &&& report.candidate_images == found.len()
                &&& report.recovered_entry_points == rebuilt
                &&& report.observed_execution_points == observed
                &&& report.snapshot_rounds == self.snapshot_rounds
                &&& report.triggered_snapshots == self.triggered_snapshots
                &&& report.adaptive_timeout_ms == self.adaptive_timeout_ms
                &&& report.bytes_captured == self.bytes_captured
                &&& report.truncated == self.truncated
                &&& report.confidence == best_confidence(judged)
                &&& candidate_views(report.candidates@) == judged
                &&& texts(report.notes@) == report_notes(
                    self.truncated,
                    self.read_failures,
                    observed,
                    rebuilt,
                    found.len(),
                )
            }),
    {
        let ghost ips = self.thread_ips@;
        let ghost found = candidate_views(self.candidates@);
        let ghost judged = found.map_values(|c: CandidateView| corroborated(c, ips));
        let mut candidates: Vec<MemoryImageCandidate> = Vec::new();
        let mut observed: u32 = 0;
        let mut rebuilt: u32 = 0;
        let mut confidence = Score { units: 0 };
        let mut i: usize = 0;
        assert(candidate_views(candidates@) =~= judged.take(0));
        while i < self.candidates.len()
            invariant
                i <= self.candidates@.len() <= u32::MAX,
                ips == self.thread_ips@,
                found == candidate_views(self.candidates@),
                judged == found.map_values(|c: CandidateView| corroborated(c, ips)),
                candidate_views(candidates@) == judged.take(i as int),
                observed == count_observed(found.take(i as int), ips),
                rebuilt == count_rebuilt(found.take(i as int)),
                observed <= i,
                rebuilt <= i,
                confidence == best_confidence(judged.take(i as int)),
            decreases self.candidates@.len() - i,
        {
            assert(found.take(i + 1).drop_last() =~= found.take(i as int));
            assert(judged.take(i + 1).drop_last() =~= judged.take(i as int));
            let mut c = copy_candidate(&self.candidates[i]);
            assert(found.take(i + 1).last() == c@);
            let ghost before = c@;
            if let Some(ip) = find_observed(&c, &self.thread_ips) {
                c.observed_execution_address = Some(ip);
                c.confidence = raise(c.confidence, 12);
                observed = observed + 1;
            }
            if c.reconstruction_verified {
                c.confidence = raise(c.confidence, 8);
                rebuilt = rebuilt + 1;
            }
            assert(c@ == corroborated(before, ips));
            assert(judged.take(i + 1).last() == c@);
            confidence = confidence.max(Score::hundredths(c.confidence as u64));
            let ghost listed = candidate_views(candidates@);
            candidates.push(c);
            assert(candidate_views(candidates@) =~= listed.push(c@));
            assert(judged.take(i + 1) =~= judged.take(i as int).push(c@));
            i = i + 1;
        }
        assert(found.take(i as int) =~= found);
        assert(judged.take(i as int) =~= judged);
        let status = if candidates.len() == 0 {
            "no_candidate"
        } else if rebuilt > 0 {
            "recovered_candidate"
        } else {
            "candidate"
        };
        let mut notes: Vec<String> = Vec::new();
        assert(texts(notes@) =~= Seq::empty());
        push_when(&mut notes, self.truncated, "capture_budget_reached");
        let count = decimal_text(self.read_failures as u64);
        let failures = concat2("memory_read_failures:", count.as_str());
        push_when(&mut notes, self.read_failures > 0, failures.as_str());
        push_when(&mut notes, observed > 0, "thread_instruction_pointer_correlated");
        push_when(&mut notes, rebuilt > 0, "pe_image_reconstructed_in_memory_only");
        push_when(
            &mut notes,
            candidates.len() == 0,
            "no_structurally_valid_pe_in_executable_memory",
        );
        SandboxUnpackingReport {
            status: status.to_owned(),
            regions_scanned: self.regions_scanned,
            executable_regions: self.executable_regions,
            candidate_images: candidates.len() as u32,
            recovered_entry_points: rebuilt,
            observed_execution_points: observed,
            snapshot_rounds: self.snapshot_rounds,
            triggered_snapshots: self.triggered_snapshots,
            adaptive_timeout_ms: self.adaptive_timeout_ms,
            bytes_captured: self.bytes_captured,
            truncated: self.truncated,
            confidence,
            candidates,
            notes,
        }
    }
}

} // verus!
