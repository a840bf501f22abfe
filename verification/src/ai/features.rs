//! The features that a model is fed: numbers drawn from a bounded sample of a file.
//!
//! Entropies and the logarithms of a file's size are measured by the caller; everything
//! else is counted here.

use vstd::prelude::*;
use vstd::utf8::encode_utf8;

use crate::ai::ensemble::whole;
use crate::bytes::append_bytes;
use crate::clock::now_seconds;
use crate::digest::{sha256, sha256_of};
use crate::objects::{
    elf_layout, format_of, mach_layout, mach_of, object_format, optional_header, parsed_elf,
    parsed_optional_header, pe_layout, pe_of, ObjectFormat, OptionalHeader, PeLayout,
    SectionView,
};
use crate::score::{
    add_up, lemma_ratio_whole, lemma_rounded_small, sum_terms, Score, ONE_UNITS, TERM_LIMIT,
};
use crate::text::{
    begins_with, chars_between, chars_of, lower, lowered, parse_unsigned, parsed_unsigned,
    same_text, starts_with, texts, trim, trimmed,
};

verus! {

/// A sample is shorter than this, which no machine's memory reaches.
pub const SAMPLE_LIMIT: u64 = 0x7F_FFFF_FFFF_FFFF;

/// A file is large from this size on.
pub const LARGE_FILE_BYTES: u64 = 1_048_576;

/// The length of the windows at the two ends of a sample.
pub const WINDOW_BYTES: usize = 4096;

/// How many entries a cache of features holds before it is emptied.
pub const MAX_CACHED_FEATURES: usize = 1024;

/// How odd a link time is: one without a time or with one in the future, three quarters for
/// one of twenty years ago and more.
pub open spec fn timestamp_score(timestamp: u32, now: u64) -> Score {
    let ahead = now + 2_592_000;
    let behind = now - 630_720_000;
    if timestamp == 0 || timestamp > ahead {
        Score::one()
    } else if timestamp < behind {
        Score::of_hundredths(75)
    } else {
        Score::zero()
    }
}

pub fn timestamp_anomaly_score_at(timestamp: u32, now: u64) -> (score: Score)
    ensures
        score == timestamp_score(timestamp, now),
        score.in_unit(),
{
    if timestamp == 0 {
        return Score { units: ONE_UNITS };
    }
    let ahead: u64 = if now <= u64::MAX - 2_592_000 {
        now + 2_592_000
    } else {
        u64::MAX
    };
    let behind: u64 = if now >= 630_720_000 {
        now - 630_720_000
    } else {
        0
    };
    if timestamp as u64 > ahead {
        return Score { units: ONE_UNITS };
    }
    if (timestamp as u64) < behind {
        return Score::hundredths(75);
    }
    Score { units: 0 }
}

/// How odd a link time is now.
pub fn timestamp_anomaly_score(timestamp: u32) -> (score: Score)
    ensures
        exists|now: u64| score == #[trigger] timestamp_score(timestamp, now),
{
    let seconds: i64 = now_seconds();
    let now: u64 = if seconds >= 0 {
        seconds as u64
    } else {
        0
    };
    timestamp_anomaly_score_at(timestamp, now)
}

/// The FNV-1a hash of some bytes.
pub open spec fn fnv_hash(bytes: Seq<u8>) -> u64
    decreases bytes.len(),
{
    if bytes.len() == 0 {
        14_695_981_039_346_656_037u64
    } else {
        (fnv_hash(bytes.drop_last()) ^ (bytes.last() as u64)).wrapping_mul(1_099_511_628_211u64)
    }
}

/// The bucket of a name, which case and white space around it do not change.
pub open spec fn bucket_of(name: Seq<char>, buckets: usize) -> usize {
    let hash = fnv_hash(encode_utf8(lowered(trimmed(name)))) as usize;
    if buckets == 0 {
        0
    } else {
        hash % buckets
    }
}

pub fn stable_bucket(value: &str, bucket_count: usize) -> (bucket: usize)
    ensures
        bucket == bucket_of(value@, bucket_count),
        bucket_count > 0 ==> bucket < bucket_count,
{
    let name = lower(trim(value).as_str());
    let bytes = name.as_str().as_bytes();
    let mut hash: u64 = 14_695_981_039_346_656_037;
    let mut i: usize = 0;
    while i < bytes.len()
        invariant
            i <= bytes@.len(),
            hash == fnv_hash(bytes@.take(i as int)),
        decreases bytes@.len() - i,
    {
        assert(bytes@.take(i + 1).drop_last() =~= bytes@.take(i as int));
        hash = (hash ^ (bytes[i] as u64)).wrapping_mul(1_099_511_628_211);
        i = i + 1;
    }
    assert(bytes@.take(i as int) =~= bytes@);
    if bucket_count == 0 {
        0
    } else {
        let wide: usize = #[verifier::truncate]
        (hash as usize);
        wide % bucket_count
    }
}

/// A byte that a readable string is made of.
pub open spec fn is_string_byte(b: u8) -> bool {
    32 <= b <= 126
}

/// How many string bytes in a row end before `at`.
pub open spec fn run_before(blob: Seq<u8>, at: int) -> nat
    decreases at,
{
    if at <= 0 || at > blob.len() || !is_string_byte(blob[at - 1]) {
        0
    } else {
        1 + run_before(blob, at - 1)
    }
}

/// How many strings of four and more bytes end at one of the first `upto` bytes.
pub open spec fn strings_ended(blob: Seq<u8>, upto: int) -> nat
    decreases upto,
{
    if upto <= 0 {
        0
    } else {
        strings_ended(blob, upto - 1) + (if !is_string_byte(blob[upto - 1]) && run_before(
            blob,
            upto - 1,
        ) >= 4 {
            1nat
        } else {
            0
        })
    }
}

/// How many readable strings of four and more bytes there are.
pub open spec fn string_count(blob: Seq<u8>) -> nat {
    strings_ended(blob, blob.len() as int) + (if run_before(blob, blob.len() as int) >= 4 {
        1nat
    } else {
        0
    })
}

pub fn count_printable_strings(blob: &[u8]) -> (count: usize)
    ensures
        count == string_count(blob@),
{
    let mut count: usize = 0;
    let mut run: usize = 0;
    let mut i: usize = 0;
    while i < blob.len()
        invariant
            i <= blob@.len(),
            run == run_before(blob@, i as int),
            count == strings_ended(blob@, i as int),
            count + run <= i,
        decreases blob@.len() - i,
    {
        if 32 <= blob[i] && blob[i] <= 126 {
            run = run + 1;
        } else {
            if run >= 4 {
                count = count + 1;
            }
            run = 0;
        }
        i = i + 1;
    }
    if run >= 4 {
        count = count + 1;
    }
    count
}

/// How many of the bytes are readable or white space.
pub open spec fn printable_count(blob: Seq<u8>) -> nat
    decreases blob.len(),
{
    if blob.len() == 0 {
        0
    } else {
        printable_count(blob.drop_last()) + (if is_printable(blob.last()) {
            1nat
        } else {
            0
        })
    }
}

pub open spec fn is_printable(b: u8) -> bool {
    33 <= b <= 126 || b == 9 || b == 10 || b == 12 || b == 13 || b == 32
}

/// How often a byte occurs.
pub open spec fn byte_count(blob: Seq<u8>, b: u8) -> nat
    decreases blob.len(),
{
    if blob.len() == 0 {
        0
    } else {
        byte_count(blob.drop_last(), b) + (if blob.last() == b {
            1nat
        } else {
            0
        })
    }
}

pub open spec fn byte_sum(blob: Seq<u8>) -> nat
    decreases blob.len(),
{
    if blob.len() == 0 {
        0
    } else {
        byte_sum(blob.drop_last()) + blob.last() as nat
    }
}

/// How many of the byte values below `upto` occur.
pub open spec fn distinct_below(blob: Seq<u8>, upto: int) -> nat
    decreases upto,
{
    if upto <= 0 {
        0
    } else {
        distinct_below(blob, upto - 1) + (if byte_count(blob, (upto - 1) as u8) > 0 {
            1nat
        } else {
            0
        })
    }
}

/// What is counted in a sample.
struct Tally {
    counts: Vec<u64>,
    printable: u64,
    sum: u64,
    distinct: u64,
}

spec fn tallies(blob: Seq<u8>, tally: Tally) -> bool {
    &&& tally.counts@.len() == 256
    &&& forall|b: u8| tally.counts@[b as int] == #[trigger] byte_count(blob, b)
    &&& tally.printable == printable_count(blob)
    &&& tally.sum == byte_sum(blob)
    &&& tally.distinct == distinct_below(blob, 256)
}

fn zero_counts() -> (counts: Vec<u64>)
    ensures
        counts@.len() == 256,
        forall|i: int| 0 <= i < 256 ==> counts@[i] == 0,
{
    let mut counts: Vec<u64> = Vec::new();
    let mut i: usize = 0;
    while i < 256
        invariant
            i <= 256,
            counts@.len() == i,
            forall|k: int| 0 <= k < i ==> counts@[k] == 0,
        decreases 256 - i,
    {
        counts.push(0);
        i = i + 1;
    }
    counts
}

fn tally_of(blob: &[u8]) -> (tally: Tally)
    requires
        blob@.len() < SAMPLE_LIMIT,
    ensures
        tallies(blob@, tally),
        tally.printable <= blob@.len(),
        tally.counts@[0] <= blob@.len(),
        tally.sum <= 255 * blob@.len(),
        tally.distinct <= 256,
{
    let mut counts: Vec<u64> = zero_counts();
    let mut printable: u64 = 0;
    let mut sum: u64 = 0;
    let mut i: usize = 0;
    while i < blob.len()
        invariant
            i <= blob@.len() < SAMPLE_LIMIT,
            counts@.len() == 256,
            forall|b: u8| counts@[b as int] == #[trigger] byte_count(blob@.take(i as int), b),
            forall|k: int| 0 <= k < 256 ==> #[trigger] counts@[k] <= i,
            printable == printable_count(blob@.take(i as int)),
            printable <= i,
            sum == byte_sum(blob@.take(i as int)),
            sum <= 255 * i,
        decreases blob@.len() - i,
    {
        let ghost next = blob@.take(i + 1);
        assert(next.drop_last() =~= blob@.take(i as int));
        let b: u8 = blob[i];
        let at: usize = b as usize;
        let ghost before = counts@;
        assert(counts@[b as int] == byte_count(blob@.take(i as int), b));
        assert(counts@[at as int] <= i);
        let more: u64 = counts[at] + 1;
        counts.set(at, more);
        assert forall|c: u8| counts@[c as int] == #[trigger] byte_count(next, c) by {
            assert(before[c as int] == byte_count(blob@.take(i as int), c));
        }
        if (33 <= b && b <= 126) || b == 9 || b == 10 || b == 12 || b == 13 || b == 32 {
            printable = printable + 1;
        }
        sum = sum + b as u64;
        i = i + 1;
    }
    assert(blob@.take(i as int) =~= blob@);
    let mut distinct: u64 = 0;
    let mut k: usize = 0;
    while k < 256
        invariant
            k <= 256,
            counts@.len() == 256,
            forall|b: u8| counts@[b as int] == #[trigger] byte_count(blob@, b),
            distinct == distinct_below(blob@, k as int),
            distinct <= k,
        decreases 256 - k,
    {
        assert(counts@[k as int] == byte_count(blob@, k as u8));
        if counts[k] > 0 {
            distinct = distinct + 1;
        }
        k = k + 1;
    }
    Tally { counts, printable, sum, distinct }
}

/// A number as a share of another, at most all of it.
pub open spec fn share(n: nat, of: nat) -> Score {
    if n >= of {
        Score::one()
    } else {
        Score::of_ratio(n, of)
    }
}

fn share_of(n: usize, of: u64) -> (score: Score)
    requires
        0 < of < 0x1_0000_0000,
    ensures
        score == share(n as nat, of as nat),
        score.in_unit(),
{
    if n as u64 >= of {
        Score { units: ONE_UNITS }
    } else {
        Score::ratio(n as u64, of)
    }
}

/// A section has data, and all of it lies in the sample.
pub open spec fn has_data(section: SectionView, size: nat) -> bool {
    section.raw_size > 0 && section.raw_pointer + section.raw_size <= size
}

/// Where the sections lie whose data is in the sample, as starts and ends.
pub open spec fn section_ranges(sections: Seq<SectionView>, size: nat) -> Seq<(int, int)>
    decreases sections.len(),
{
    if sections.len() == 0 {
        Seq::empty()
    } else {
        let before = section_ranges(sections.drop_last(), size);
        let s = sections.last();
        if has_data(s, size) {
            before.push((s.raw_pointer as int, s.raw_pointer + s.raw_size))
        } else {
            before
        }
    }
}

pub open spec fn int_ranges(ranges: Seq<(usize, usize)>) -> Seq<(int, int)> {
    ranges.map_values(|r: (usize, usize)| (r.0 as int, r.1 as int))
}

/// Where the sections of a PE image lie whose data is in the sample. Other samples have
/// none.
pub open spec fn sample_sections(blob: Seq<u8>) -> Seq<(int, int)> {
    match format_of(blob) {
        Ok(ObjectFormat::Pe) => match pe_of(blob) {
            Some(image) => section_ranges(image.sections, blob.len()),
            None => Seq::empty(),
        },
        _ => Seq::empty(),
    }
}

fn readable_sections(image: &PeLayout, size: usize) -> (ranges: Vec<(usize, usize)>)
    ensures
        int_ranges(ranges@) == section_ranges(image@.sections, size as nat),
{
    let mut ranges: Vec<(usize, usize)> = Vec::new();
    let ghost all = image@.sections;
    let mut i: usize = 0;
    assert(int_ranges(ranges@) =~= section_ranges(all.take(0), size as nat));
    while i < image.sections.len()
        invariant
            i <= image.sections@.len(),
            all == image@.sections,
            int_ranges(ranges@) == section_ranges(all.take(i as int), size as nat),
        decreases image.sections@.len() - i,
    {
        assert(all.take(i + 1).drop_last() =~= all.take(i as int));
        assert(all.take(i + 1).last() == image.sections@[i as int]@);
        let start: u64 = image.sections[i].raw_pointer as u64;
        let length: u64 = image.sections[i].raw_size as u64;
        let end: u64 = start + length;
        if length > 0 && end <= size as u64 {
            let range: (usize, usize) = (start as usize, end as usize);
            assert(int_ranges(ranges@.push(range)) =~= int_ranges(ranges@).push(
                (range.0 as int, range.1 as int),
            ));
            ranges.push(range);
        }
        i = i + 1;
    }
    assert(all.take(i as int) =~= all);
    ranges
}

/// Where to measure the entropy of a sample's sections.
pub fn measured_sections(blob: &[u8]) -> (ranges: Vec<(usize, usize)>)
    ensures
        int_ranges(ranges@) == sample_sections(blob@),
{
    let none: Vec<(usize, usize)> = Vec::new();
    assert(int_ranges(none@) =~= Seq::empty());
    match object_format(blob) {
        Ok(ObjectFormat::Pe) => match pe_layout(blob) {
            Some(image) => readable_sections(&image, blob.len()),
            None => none,
        },
        _ => none,
    }
}

/// Where to measure the entropy of one end of a sample.
pub fn window_range(size: usize, head: bool) -> (range: (usize, usize))
    ensures
        range.0 <= range.1 <= size,
        range.1 - range.0 == (if size < WINDOW_BYTES {
            size
        } else {
            WINDOW_BYTES
        }),
        head ==> range.0 == 0,
        !head ==> range.1 == size,
{
    let length: usize = if size < WINDOW_BYTES {
        size
    } else {
        WINDOW_BYTES
    };
    if head {
        (0, length)
    } else {
        (size - length, size)
    }
}

/// What the caller has measured for the basic features.
#[derive(Debug, Clone, Copy)]
pub struct BaseReadings {
    /// How much of the file the sample is.
    pub coverage: Score,
    /// The entropy of the first section that has data, as a share of the highest.
    pub section_entropy: Score,
    /// The entropy of the sample, as a share of the highest.
    pub entropy: Score,
}

pub open spec fn has_tls(header: Option<OptionalHeader>) -> bool {
    match header {
        Some(h) => match h.tls_size {
            Some(size) => size > 0,
            None => false,
        },
        None => false,
    }
}

pub open spec fn flag(set: bool) -> Score {
    if set {
        Score::one()
    } else {
        Score::zero()
    }
}

fn flag_score(set: bool) -> (score: Score)
    ensures
        score == flag(set),
        score.in_unit(),
{
    if set {
        Score { units: ONE_UNITS }
    } else {
        Score { units: 0 }
    }
}

/// The features of an executable image: sections, imports, thread-local storage, link time
/// and the entropy of the first section.
pub open spec fn image_features(blob: Seq<u8>, section_entropy: Score, now: u64) -> Seq<Score> {
    let nothing = seq![
        Score::zero(),
        Score::zero(),
        Score::zero(),
        Score::zero(),
        Score::zero(),
    ];
    match format_of(blob) {
        Ok(ObjectFormat::Pe) => match pe_of(blob) {
            Some(image) => seq![
                share(image.sections.len(), 32),
                share(image.imports.len(), 256),
                flag(has_tls(parsed_optional_header(blob))),
                if parsed_optional_header(blob) is Some {
                    timestamp_score(image.timestamp, now)
                } else {
                    Score::zero()
                },
                if section_ranges(image.sections, blob.len()).len() > 0 {
                    section_entropy.lesser(Score::one())
                } else {
                    Score::zero()
                },
            ],
            None => nothing,
        },
        Ok(ObjectFormat::Elf) => match parsed_elf(blob) {
            Some(image) => seq![
                share(image.section_count as nat, 64),
                share(image.library_count as nat, 128),
                Score::zero(),
                Score::zero(),
                Score::zero(),
            ],
            None => nothing,
        },
        Ok(ObjectFormat::Mach) => match mach_of(blob) {
            Some(image) => seq![
                share(image.protections.len(), 32),
                share(image.library_count as nat, 128),
                Score::zero(),
                Score::zero(),
                Score::zero(),
            ],
            None => nothing,
        },
        _ => nothing,
    }
}

fn image_part(blob: &[u8], section_entropy: Score, now: u64) -> (part: [Score; 5])
    ensures
        part@ == image_features(blob@, section_entropy, now),
        forall|i: int| 0 <= i < 5 ==> (#[trigger] part@[i]).in_unit(),
{
    let zero = Score { units: 0 };
    let one = Score { units: ONE_UNITS };
    match object_format(blob) {
        Ok(ObjectFormat::Pe) => if let Some(image) = pe_layout(blob) {
            let header = optional_header(blob);
            let tls = match &header {
                Some(h) => match h.tls_size {
                    Some(size) => size > 0,
                    None => false,
                },
                None => false,
            };
            let linked = match &header {
                Some(_) => timestamp_anomaly_score_at(image.timestamp, now),
                None => zero,
            };
            let ranges = readable_sections(&image, blob.len());
            assert(ranges@.len() == int_ranges(ranges@).len());
            let entropy = if ranges.len() > 0 {
                section_entropy.min(one)
            } else {
                zero
            };
            assert(image@.sections.len() == image.sections@.len());
            assert(image@.imports.len() == image.imports@.len());
            let part = [
                share_of(image.sections.len(), 32),
                share_of(image.imports.len(), 256),
                flag_score(tls),
                linked,
                entropy,
            ];
            assert(part@ =~= image_features(blob@, section_entropy, now));
            return part;
        },
        Ok(ObjectFormat::Elf) => if let Some(image) = elf_layout(blob) {
            let part = [
                share_of(image.section_count, 64),
                share_of(image.library_count, 128),
                zero,
                zero,
                zero,
            ];
            assert(part@ =~= image_features(blob@, section_entropy, now));
            return part;
        },
        Ok(ObjectFormat::Mach) => if let Some(image) = mach_layout(blob) {
            let part = [
                share_of(image.protections.len(), 32),
                share_of(image.library_count, 128),
                zero,
                zero,
                zero,
            ];
            assert(part@ =~= image_features(blob@, section_entropy, now));
            return part;
        },
        _ => {},
    }
    let part = [zero, zero, zero, zero, zero];
    assert(part@ =~= image_features(blob@, section_entropy, now));
    part
}

pub open spec fn at_least_one(n: nat) -> nat {
    if n == 0 {
        1
    } else {
        n
    }
}

/// The twelve basic features of a sample, in their canonical order.
pub open spec fn base_features(
    blob: Seq<u8>,
    file_size: u64,
    readings: BaseReadings,
    now: u64,
) -> Seq<Score> {
    let image = image_features(blob, readings.section_entropy, now);
    let size = at_least_one(blob.len());
    seq![
        readings.coverage,
        image[0],
        image[1],
        image[2],
        image[3],
        image[4],
        Score::of_counts(printable_count(blob), size),
        Score::of_counts(byte_count(blob, 0), size),
        Score::of_ratio(distinct_below(blob, 256), 256),
        Score::of_counts(byte_sum(blob), size).quotient(whole(255)),
        readings.entropy,
        flag(file_size > LARGE_FILE_BYTES),
    ]
}

/// The features of a sample of a file at time `now`, in seconds since the epoch.
pub fn extract_features_at(
    blob: &[u8],
    file_size: u64,
    readings: &BaseReadings,
    now: u64,
) -> (features: [Score; 12])
    requires
        blob@.len() < SAMPLE_LIMIT,
    ensures
        features@ == base_features(blob@, file_size, *readings, now),
        forall|i: int|
            0 <= i < 12 && readings.coverage.in_unit() && readings.entropy.in_unit()
                && blob@.len() <= 0x1_0000 ==> (#[trigger] features@[i]).in_unit(),
        features@[1].in_unit(),
        features@[2].in_unit(),
{
    let part = image_part(blob, readings.section_entropy, now);
    let tally = tally_of(blob);
    let length: usize = blob.len();
    let size: u64 = if length == 0 {
        1
    } else {
        length as u64
    };
    assert(tally.counts@[0u8 as int] == byte_count(blob@, 0u8));
    let printable = Score::counts(tally.printable, size);
    let nulls = Score::counts(tally.counts[0], size);
    let distinct = Score::ratio(tally.distinct, 256);
    let mean = Score::counts(tally.sum, size);
    proof {
        if blob@.len() <= 0x1_0000 {
            lemma_rounded_small(tally.sum as nat);
            lemma_rounded_small(size as nat);
            lemma_ratio_whole(tally.sum as nat, size as nat, 255);
            lemma_ratio_whole(mean.units as nat, (255 * ONE_UNITS) as nat, 1);
        }
    }
    let byte = mean.divided(Score { units: 255 * ONE_UNITS });
    let features = [
        readings.coverage,
        part[0],
        part[1],
        part[2],
        part[3],
        part[4],
        printable,
        nulls,
        distinct,
        byte,
        readings.entropy,
        flag_score(file_size > LARGE_FILE_BYTES),
    ];
    assert(features@ =~= base_features(blob@, file_size, *readings, now));
    features
}

/// The place of a basic feature in the canonical order.
pub open spec fn canonical_index(name: Seq<char>) -> Option<usize> {
    if name == "coverage"@ {
        Some(0)
    } else if name == "section_count"@ {
        Some(1)
    } else if name == "import_count"@ {
        Some(2)
    } else if name == "tls_present"@ {
        Some(3)
    } else if name == "timestamp"@ {
        Some(4)
    } else if name == "timestamp_anomaly"@ {
        Some(4)
    } else if name == "section_entropy"@ {
        Some(5)
    } else if name == "printable_ratio"@ {
        Some(6)
    } else if name == "null_ratio"@ {
        Some(7)
    } else if name == "distinct_byte_ratio"@ {
        Some(8)
    } else if name == "mean_byte"@ {
        Some(9)
    } else if name == "entropy_norm"@ {
        Some(10)
    } else if name == "large_flag"@ {
        Some(11)
    } else {
        None
    }
}

pub fn canonical_feature_index(name: &str) -> (index: Option<usize>)
    ensures
        index == canonical_index(name@),
        index matches Some(i) ==> i < 12,
{
    if same_text(name, "coverage") {
        Some(0)
    } else if same_text(name, "section_count") {
        Some(1)
    } else if same_text(name, "import_count") {
        Some(2)
    } else if same_text(name, "tls_present") {
        Some(3)
    } else if same_text(name, "timestamp") {
        Some(4)
    } else if same_text(name, "timestamp_anomaly") {
        Some(4)
    } else if same_text(name, "section_entropy") {
        Some(5)
    } else if same_text(name, "printable_ratio") {
        Some(6)
    } else if same_text(name, "null_ratio") {
        Some(7)
    } else if same_text(name, "distinct_byte_ratio") {
        Some(8)
    } else if same_text(name, "mean_byte") {
        Some(9)
    } else if same_text(name, "entropy_norm") {
        Some(10)
    } else if same_text(name, "large_flag") {
        Some(11)
    } else {
        None
    }
}

/// What a named feature is drawn from.
#[derive(Debug, Clone, Copy, PartialEq, Eq, Structural)]
pub enum FeatureSource {
    /// One of the basic features.
    Base(usize),
    FileSize,
    StringCount,
    RawEntropy,
    FileSizeLog,
    FileSizeMebibytes,
    SectionCountRaw,
    ImportCountRaw,
    MaxSectionEntropy,
    MeanSectionEntropy,
    FirstSectionEntropy,
    HeadEntropy,
    TailEntropy,
    EntropyByFileSize,
    EntropyByStringCount,
    FileSizeByStringCount,
    LibraryDensity,
    SymbolDensity,
    ImportDensity,
    EntropyByImportDensity,
    StringCountByImportDensity,
    /// How much of the sample is a byte value.
    ByteShare(usize),
    /// Whether a library of the image falls into a bucket.
    LibraryBucket(usize),
    /// Whether an imported symbol falls into a bucket.
    SymbolBucket(usize),
    Unknown,
}

/// The number behind a prefix.
pub open spec fn numbered(name: Seq<char>, prefix: Seq<char>) -> Option<nat> {
    if begins_with(name, prefix) {
        parsed_unsigned(name.skip(prefix.len() as int), usize::MAX as nat)
    } else {
        None
    }
}

/// The number of a byte value: behind the longer prefix where the name has it, else behind
/// the shorter one.
pub open spec fn byte_number(name: Seq<char>) -> Option<nat> {
    if begins_with(name, "bytehist_"@) {
        numbered(name, "bytehist_"@)
    } else {
        numbered(name, "byte_"@)
    }
}

/// What a tidied feature name stands for.
pub open spec fn source_of(name: Seq<char>) -> FeatureSource {
    if canonical_index(name) is Some {
        FeatureSource::Base(canonical_index(name)->0)
    } else if name == "entropy"@ {
        FeatureSource::Base(10)
    } else if name == "filesize"@ {
        FeatureSource::FileSize
    } else if name == "stringcount"@ {
        FeatureSource::StringCount
    } else if name == "entropy_raw"@ || name == "byte_entropy"@ {
        FeatureSource::RawEntropy
    } else if name == "file_size_log10"@ || name == "filesize_log10"@ {
        FeatureSource::FileSizeLog
    } else if name == "file_size_mb"@ || name == "filesize_mb"@ {
        FeatureSource::FileSizeMebibytes
    } else if name == "section_count_raw"@ {
        FeatureSource::SectionCountRaw
    } else if name == "import_count_raw"@ {
        FeatureSource::ImportCountRaw
    } else if name == "max_section_entropy"@ {
        FeatureSource::MaxSectionEntropy
    } else if name == "mean_section_entropy"@ {
        FeatureSource::MeanSectionEntropy
    } else if name == "section_entropy_raw"@ || name == "first_section_entropy"@ {
        FeatureSource::FirstSectionEntropy
    } else if name == "head_entropy"@ {
        FeatureSource::HeadEntropy
    } else if name == "tail_entropy"@ || name == "pe_overlay_entropy"@ {
        FeatureSource::TailEntropy
    } else if name == "derived_entropy_filesize_product"@ {
        FeatureSource::EntropyByFileSize
    } else if name == "derived_entropy_stringcount_product"@ {
        FeatureSource::EntropyByStringCount
    } else if name == "derived_filesize_stringcount_product"@ {
        FeatureSource::FileSizeByStringCount
    } else if name == "derived_dll_hash_density"@ {
        FeatureSource::LibraryDensity
    } else if name == "derived_api_hash_density"@ {
        FeatureSource::SymbolDensity
    } else if name == "derived_hash_density"@ {
        FeatureSource::ImportDensity
    } else if name == "derived_entropy_hash_density"@ {
        FeatureSource::EntropyByImportDensity
    } else if name == "derived_stringcount_hash_density"@ {
        FeatureSource::StringCountByImportDensity
    } else if byte_number(name) is Some {
        FeatureSource::ByteShare(byte_number(name)->0 as usize)
    } else if numbered(name, "dllhash_"@) is Some {
        FeatureSource::LibraryBucket(numbered(name, "dllhash_"@)->0 as usize)
    } else if numbered(name, "apihash_"@) is Some {
        FeatureSource::SymbolBucket(numbered(name, "apihash_"@)->0 as usize)
    } else {
        FeatureSource::Unknown
    }
}

fn number_behind(name: &str, prefix: &str) -> (n: Option<usize>)
    ensures
        n matches Some(v) ==> numbered(name@, prefix@) == Some(v as nat),
        n is None <==> numbered(name@, prefix@) is None,
{
    if !starts_with(name, prefix) {
        return None;
    }
    let chars = chars_of(name);
    let start: usize = prefix.unicode_len();
    let tail = chars_between(&chars, start, chars.len());
    assert(tail@ =~= name@.skip(prefix@.len() as int));
    match parse_unsigned(&tail, usize::MAX as u64) {
        Some(v) => Some(v as usize),
        None => None,
    }
}

/// What a tidied feature name stands for.
pub fn feature_source(name: &str) -> (source: FeatureSource)
    ensures
        source == source_of(name@),
        source matches FeatureSource::Base(i) ==> i < 12,
{
    let index = canonical_feature_index(name);
    if let Some(i) = index {
        return FeatureSource::Base(i);
    }
    if same_text(name, "entropy") {
        FeatureSource::Base(10)
    } else if same_text(name, "filesize") {
        FeatureSource::FileSize
    } else if same_text(name, "stringcount") {
        FeatureSource::StringCount
    } else if same_text(name, "entropy_raw") || same_text(name, "byte_entropy") {
        FeatureSource::RawEntropy
    } else if same_text(name, "file_size_log10") || same_text(name, "filesize_log10") {
        FeatureSource::FileSizeLog
    } else if same_text(name, "file_size_mb") || same_text(name, "filesize_mb") {
        FeatureSource::FileSizeMebibytes
    } else if same_text(name, "section_count_raw") {
        FeatureSource::SectionCountRaw
    } else if same_text(name, "import_count_raw") {
        FeatureSource::ImportCountRaw
    } else if same_text(name, "max_section_entropy") {
        FeatureSource::MaxSectionEntropy
    } else if same_text(name, "mean_section_entropy") {
        FeatureSource::MeanSectionEntropy
    } else if same_text(name, "section_entropy_raw") || same_text(name, "first_section_entropy") {
        FeatureSource::FirstSectionEntropy
    } else if same_text(name, "head_entropy") {
        FeatureSource::HeadEntropy
    } else if same_text(name, "tail_entropy") || same_text(name, "pe_overlay_entropy") {
        FeatureSource::TailEntropy
    } else if same_text(name, "derived_entropy_filesize_product") {
        FeatureSource::EntropyByFileSize
    } else if same_text(name, "derived_entropy_stringcount_product") {
        FeatureSource::EntropyByStringCount
    } else if same_text(name, "derived_filesize_stringcount_product") {
        FeatureSource::FileSizeByStringCount
    } else if same_text(name, "derived_dll_hash_density") {
        FeatureSource::LibraryDensity
    } else if same_text(name, "derived_api_hash_density") {
        FeatureSource::SymbolDensity
    } else if same_text(name, "derived_hash_density") {
        FeatureSource::ImportDensity
    } else if same_text(name, "derived_entropy_hash_density") {
        FeatureSource::EntropyByImportDensity
    } else if same_text(name, "derived_stringcount_hash_density") {
        FeatureSource::StringCountByImportDensity
    } else {
        numbered_source(name)
    }
}

fn numbered_source(name: &str) -> (source: FeatureSource)
    ensures
        source == (if byte_number(name@) is Some {
            FeatureSource::ByteShare(byte_number(name@)->0 as usize)
        } else if numbered(name@, "dllhash_"@) is Some {
            FeatureSource::LibraryBucket(numbered(name@, "dllhash_"@)->0 as usize)
        } else if numbered(name@, "apihash_"@) is Some {
            FeatureSource::SymbolBucket(numbered(name@, "apihash_"@)->0 as usize)
        } else {
            FeatureSource::Unknown
        }),
{
    let byte = if starts_with(name, "bytehist_") {
        number_behind(name, "bytehist_")
    } else {
        number_behind(name, "byte_")
    };
    if let Some(n) = byte {
        return FeatureSource::ByteShare(n);
    }
    if let Some(n) = number_behind(name, "dllhash_") {
        return FeatureSource::LibraryBucket(n);
    }
    if let Some(n) = number_behind(name, "apihash_") {
        return FeatureSource::SymbolBucket(n);
    }
    FeatureSource::Unknown
}

/// One of the names falls into the bucket.
pub open spec fn bucket_hit(names: Seq<Seq<char>>, buckets: usize, bucket: int) -> bool {
    exists|i: int| 0 <= i < names.len() && bucket_of(#[trigger] names[i], buckets) == bucket
}

/// How many of the buckets below `upto` a name falls into.
pub open spec fn hits_below(names: Seq<Seq<char>>, buckets: usize, upto: int) -> nat
    decreases upto,
{
    if upto <= 0 {
        0
    } else {
        hits_below(names, buckets, upto - 1) + (if bucket_hit(names, buckets, upto - 1) {
            1nat
        } else {
            0
        })
    }
}

/// The buckets that some names fall into.
struct Buckets {
    hit: Vec<bool>,
    count: u64,
}

spec fn buckets_hold(b: Buckets, names: Seq<Seq<char>>, buckets: usize) -> bool {
    &&& b.hit@.len() == buckets
    &&& forall|k: int| 0 <= k < buckets ==> #[trigger] b.hit@[k] == bucket_hit(names, buckets, k)
    &&& b.count == hits_below(names, buckets, buckets as int)
    &&& b.count <= buckets
}

fn buckets_of(names: &[String], buckets: usize) -> (b: Buckets)
    requires
        0 < buckets <= 1024,
    ensures
        buckets_hold(b, texts(names@), buckets),
{
    let ghost all = texts(names@);
    let mut hit: Vec<bool> = Vec::new();
    let mut k: usize = 0;
    while k < buckets
        invariant
            k <= buckets,
            hit@.len() == k,
            forall|j: int| 0 <= j < k ==> !(#[trigger] hit@[j]),
        decreases buckets - k,
    {
        hit.push(false);
        k = k + 1;
    }
    let mut i: usize = 0;
    assert forall|j: int| 0 <= j < buckets implies #[trigger] hit@[j] == bucket_hit(
        all.take(0),
        buckets,
        j,
    ) by {}
    while i < names.len()
        invariant
            i <= names@.len(),
            all == texts(names@),
            0 < buckets,
            hit@.len() == buckets,
            forall|j: int|
                0 <= j < buckets ==> #[trigger] hit@[j] == bucket_hit(
                    all.take(i as int),
                    buckets,
                    j,
                ),
        decreases names@.len() - i,
    {
        let at: usize = stable_bucket(names[i].as_str(), buckets);
        let ghost before = hit@;
        hit.set(at, true);
        let ghost now = all.take(i + 1);
        assert forall|j: int| 0 <= j < buckets implies #[trigger] hit@[j] == bucket_hit(
            now,
            buckets,
            j,
        ) by {
            let old_names = all.take(i as int);
            assert(before[j] == bucket_hit(old_names, buckets, j));
            assert(now[i as int] == names@[i as int]@);
            if bucket_hit(old_names, buckets, j) {
                let w = choose|w: int|
                    0 <= w < old_names.len() && bucket_of(#[trigger] old_names[w], buckets) == j;
                assert(now[w] == old_names[w]);
            }
            if bucket_hit(now, buckets, j) {
                let w = choose|w: int|
                    0 <= w < now.len() && bucket_of(#[trigger] now[w], buckets) == j;
                if w < i {
                    assert(old_names[w] == now[w]);
                }
            }
        }
        i = i + 1;
    }
    assert(all.take(i as int) =~= all);
    let mut count: u64 = 0;
    let mut n: usize = 0;
    while n < buckets
        invariant
            n <= buckets <= 1024,
            hit@.len() == buckets,
            forall|j: int| 0 <= j < buckets ==> #[trigger] hit@[j] == bucket_hit(all, buckets, j),
            count == hits_below(all, buckets, n as int),
            count <= n,
        decreases buckets - n,
    {
        if hit[n] {
            count = count + 1;
        }
        n = n + 1;
    }
    Buckets { hit, count }
}

/// What the caller has measured for the named features.
#[derive(Debug, Clone)]
pub struct NamedReadings {
    /// The entropy of the sample.
    pub entropy: Score,
    /// The entropy of each section that has data.
    pub sections: Vec<Score>,
    /// The entropy at the start of the sample.
    pub head: Score,
    /// The entropy at the end of the sample.
    pub tail: Score,
    /// The logarithm of the file's size as a share of that of 128 MiB.
    pub file_size: Score,
    /// The decimal logarithm of the file's size.
    pub file_size_log: Score,
}

impl NamedReadings {
    /// The readings are of the size that measurements have.
    pub open spec fn plausible(self) -> bool {
        &&& self.file_size.in_unit()
        &&& self.sections@.len() <= 0x10_0000
        &&& forall|i: int|
            0 <= i < self.sections@.len() ==> (#[trigger] self.sections@[i]).units <= TERM_LIMIT
    }
}

/// The library and the name of each symbol that a PE image imports.
pub open spec fn import_names(blob: Seq<u8>) -> (Seq<Seq<char>>, Seq<Seq<char>>) {
    match format_of(blob) {
        Ok(ObjectFormat::Pe) => match pe_of(blob) {
            Some(image) => (image.import_sources, image.imports),
            None => (Seq::empty(), Seq::empty()),
        },
        _ => (Seq::empty(), Seq::empty()),
    }
}

pub open spec fn largest(list: Seq<Score>) -> Score
    decreases list.len(),
{
    if list.len() == 0 {
        Score::zero()
    } else {
        largest(list.drop_last()).greater(list.last())
    }
}

pub open spec fn mean_of(list: Seq<Score>) -> Score {
    if list.len() == 0 {
        Score::zero()
    } else {
        sum_terms(list).quotient(whole(list.len()))
    }
}

/// How much of the sample is a byte value. A count stops at 2^24, where single precision
/// stops counting.
pub open spec fn byte_share(blob: Seq<u8>, value: int) -> Score {
    if 0 <= value < 256 {
        let count = byte_count(blob, value as u8);
        let counted = if count < 0x100_0000 {
            count
        } else {
            0x100_0000
        };
        Score::of_counts(counted, at_least_one(blob.len()))
    } else {
        Score::zero()
    }
}

/// The value of a named feature.
pub open spec fn feature_value(
    source: FeatureSource,
    blob: Seq<u8>,
    file_size: u64,
    base: Seq<Score>,
    readings: NamedReadings,
) -> Score {
    let libraries = import_names(blob).0;
    let symbols = import_names(blob).1;
    let library_hits = hits_below(libraries, 256, 256);
    let symbol_hits = hits_below(symbols, 1024, 1024);
    let strings = share(string_count(blob), 64);
    let density = Score::of_ratio(library_hits + symbol_hits, 1280);
    match source {
        FeatureSource::Base(i) => base[i as int],
        FeatureSource::FileSize => readings.file_size,
        FeatureSource::StringCount => strings,
        FeatureSource::RawEntropy => readings.entropy,
        FeatureSource::FileSizeLog => readings.file_size_log,
        FeatureSource::FileSizeMebibytes => Score::of_mebibytes(file_size as nat),
        FeatureSource::SectionCountRaw => Score { units: (base[1].units * 32) as u128 },
        FeatureSource::ImportCountRaw => Score { units: (base[2].units * 256) as u128 },
        FeatureSource::MaxSectionEntropy => largest(readings.sections@),
        FeatureSource::MeanSectionEntropy => mean_of(readings.sections@),
        FeatureSource::FirstSectionEntropy => if readings.sections@.len() > 0 {
            readings.sections@[0]
        } else {
            Score::zero()
        },
        FeatureSource::HeadEntropy => readings.head,
        FeatureSource::TailEntropy => readings.tail,
        FeatureSource::EntropyByFileSize => base[10].product(readings.file_size),
        FeatureSource::EntropyByStringCount => base[10].product(strings),
        FeatureSource::FileSizeByStringCount => readings.file_size.product(strings),
        FeatureSource::LibraryDensity => Score::of_ratio(library_hits, 256),
        FeatureSource::SymbolDensity => Score::of_ratio(symbol_hits, 1024),
        FeatureSource::ImportDensity => density,
        FeatureSource::EntropyByImportDensity => base[10].product(density),
        FeatureSource::StringCountByImportDensity => strings.product(density),
        FeatureSource::ByteShare(n) => byte_share(blob, n as int),
        FeatureSource::LibraryBucket(n) => flag(n < 256 && bucket_hit(libraries, 256, n as int)),
        FeatureSource::SymbolBucket(n) => flag(n < 1024 && bucket_hit(symbols, 1024, n as int)),
        FeatureSource::Unknown => Score::zero(),
    }
}

/// The features that a model asks for by name, in its order. Case and white space around a
/// name do not matter, and an unknown name is zero.
pub open spec fn named_features(
    names: Seq<Seq<char>>,
    blob: Seq<u8>,
    file_size: u64,
    base: Seq<Score>,
    readings: NamedReadings,
) -> Seq<Score> {
    Seq::new(
        names.len(),
        |i: int|
            feature_value(source_of(lowered(trimmed(names[i]))), blob, file_size, base, readings),
    )
}

fn largest_of(list: &[Score]) -> (top: Score)
    ensures
        top == largest(list@),
{
    let mut top = Score { units: 0 };
    let mut i: usize = 0;
    while i < list.len()
        invariant
            i <= list@.len(),
            top == largest(list@.take(i as int)),
        decreases list@.len() - i,
    {
        assert(list@.take(i + 1).drop_last() =~= list@.take(i as int));
        top = top.max(list[i]);
        i = i + 1;
    }
    assert(list@.take(i as int) =~= list@);
    top
}

fn mean_score(list: &[Score]) -> (mean: Score)
    requires
        list@.len() <= 0x10_0000,
        forall|i: int| 0 <= i < list@.len() ==> (#[trigger] list@[i]).units <= TERM_LIMIT,
    ensures
        mean == mean_of(list@),
{
    let count: usize = list.len();
    if count == 0 {
        return Score { units: 0 };
    }
    let divisor = Score { units: count as u128 * ONE_UNITS };
    assert(divisor == whole(list@.len()));
    add_up(list).divided(divisor)
}

/// What all named features of a sample are drawn from.
struct FeatureFacts {
    libraries: Buckets,
    symbols: Buckets,
    strings: Score,
    counts: Vec<u64>,
    size: u64,
}

spec fn facts_hold(facts: FeatureFacts, blob: Seq<u8>) -> bool {
    &&& buckets_hold(facts.libraries, import_names(blob).0, 256)
    &&& buckets_hold(facts.symbols, import_names(blob).1, 1024)
    &&& facts.strings == share(string_count(blob), 64)
    &&& facts.strings.in_unit()
    &&& facts.counts@.len() == 256
    &&& forall|b: u8| facts.counts@[b as int] == #[trigger] byte_count(blob, b)
    &&& facts.size == at_least_one(blob.len())
}

fn gather_facts(blob: &[u8]) -> (facts: FeatureFacts)
    requires
        blob@.len() < SAMPLE_LIMIT,
    ensures
        facts_hold(facts, blob@),
{
    let mut sources: Vec<String> = Vec::new();
    let mut imports: Vec<String> = Vec::new();
    assert(texts(sources@) =~= Seq::empty());
    if let Ok(ObjectFormat::Pe) = object_format(blob) {
        if let Some(image) = pe_layout(blob) {
            sources = image.import_sources;
            imports = image.imports;
        }
    }
    assert(texts(sources@) == import_names(blob@).0);
    assert(texts(imports@) == import_names(blob@).1);
    let tally = tally_of(blob);
    let length: usize = blob.len();
    FeatureFacts {
        libraries: buckets_of(&sources, 256),
        symbols: buckets_of(&imports, 1024),
        strings: share_of(count_printable_strings(blob), 64),
        counts: tally.counts,
        size: if length == 0 {
            1
        } else {
            length as u64
        },
    }
}

fn share_of_byte(facts: &FeatureFacts, value: usize, Ghost(blob): Ghost<Seq<u8>>) -> (score: Score)
    requires
        facts_hold(*facts, blob),
    ensures
        score == byte_share(blob, value as int),
{
    if value >= 256 {
        return Score { units: 0 };
    }
    assert(facts.counts@[(value as u8) as int] == byte_count(blob, value as u8));
    let count: u64 = facts.counts[value];
    let counted: u64 = if count < 0x100_0000 {
        count
    } else {
        0x100_0000
    };
    Score::counts(counted, facts.size)
}

fn value_of_source(
    source: FeatureSource,
    facts: &FeatureFacts,
    file_size: u64,
    base: &[Score; 12],
    readings: &NamedReadings,
    Ghost(blob): Ghost<Seq<u8>>,
) -> (score: Score)
    requires
        facts_hold(*facts, blob),
        readings.plausible(),
        base@[1].in_unit(),
        base@[2].in_unit(),
        base@[10].in_unit(),
        source matches FeatureSource::Base(i) ==> i < 12,
    ensures
        score == feature_value(source, blob, file_size, base@, *readings),
{
    let density = Score::ratio(facts.libraries.count + facts.symbols.count, 1280);
    match source {
        FeatureSource::Base(i) => base[i],
        FeatureSource::FileSize => readings.file_size,
        FeatureSource::StringCount => facts.strings,
        FeatureSource::RawEntropy => readings.entropy,
        FeatureSource::FileSizeLog => readings.file_size_log,
        FeatureSource::FileSizeMebibytes => Score::mebibytes(file_size),
        FeatureSource::SectionCountRaw => Score { units: base[1].units * 32 },
        FeatureSource::ImportCountRaw => Score { units: base[2].units * 256 },
        FeatureSource::MaxSectionEntropy => largest_of(&readings.sections),
        FeatureSource::MeanSectionEntropy => mean_score(&readings.sections),
        FeatureSource::FirstSectionEntropy => if readings.sections.len() > 0 {
            readings.sections[0]
        } else {
            Score { units: 0 }
        },
        FeatureSource::HeadEntropy => readings.head,
        FeatureSource::TailEntropy => readings.tail,
        FeatureSource::EntropyByFileSize => base[10].times(readings.file_size),
        FeatureSource::EntropyByStringCount => base[10].times(facts.strings),
        FeatureSource::FileSizeByStringCount => readings.file_size.times(facts.strings),
        FeatureSource::LibraryDensity => Score::ratio(facts.libraries.count, 256),
        FeatureSource::SymbolDensity => Score::ratio(facts.symbols.count, 1024),
        FeatureSource::ImportDensity => density,
        FeatureSource::EntropyByImportDensity => base[10].times(density),
        FeatureSource::StringCountByImportDensity => facts.strings.times(density),
        FeatureSource::ByteShare(n) => share_of_byte(facts, n, Ghost(blob)),
        FeatureSource::LibraryBucket(n) => flag_score(n < 256 && facts.libraries.hit[n]),
        FeatureSource::SymbolBucket(n) => flag_score(n < 1024 && facts.symbols.hit[n]),
        FeatureSource::Unknown => Score { units: 0 },
    }
}

/// The features that a model asks for by name, in its order.
pub fn extract_named_features(
    blob: &[u8],
    file_size: u64,
    names: &[String],
    base: &[Score; 12],
    readings: &NamedReadings,
) -> (features: Vec<Score>)
    requires
        blob@.len() < SAMPLE_LIMIT,
        readings.plausible(),
        base@[1].in_unit(),
        base@[2].in_unit(),
        base@[10].in_unit(),
    ensures
        features@ == named_features(texts(names@), blob@, file_size, base@, *readings),
{
    let facts = gather_facts(blob);
    let mut features: Vec<Score> = Vec::new();
    let ghost all = named_features(texts(names@), blob@, file_size, base@, *readings);
    let mut i: usize = 0;
    while i < names.len()
        invariant
            i <= names@.len(),
            all == named_features(texts(names@), blob@, file_size, base@, *readings),
            features@ == all.take(i as int),
            facts_hold(facts, blob@),
            readings.plausible(),
            base@[1].in_unit(),
            base@[2].in_unit(),
            base@[10].in_unit(),
        decreases names@.len() - i,
    {
        let name = lower(trim(names[i].as_str()).as_str());
        let source = feature_source(name.as_str());
        let value = value_of_source(source, &facts, file_size, base, readings, Ghost(blob@));
        assert(texts(names@)[i as int] == names@[i as int]@);
        assert(value == all[i as int]);
        features.push(value);
        assert(all.take(i + 1) =~= all.take(i as int).push(all[i as int]));
        i = i + 1;
    }
    assert(all.take(i as int) =~= all);
    features
}

/// The products among the named features are the products of the features they name.
pub proof fn law_derived_features_are_products(
    blob: Seq<u8>,
    file_size: u64,
    base: Seq<Score>,
    readings: NamedReadings,
)
    ensures
        ({
            let value = |source: FeatureSource|
                feature_value(source, blob, file_size, base, readings);
            &&& value(FeatureSource::EntropyByFileSize) == value(FeatureSource::Base(10)).product(
                value(FeatureSource::FileSize),
            )
            &&& value(FeatureSource::EntropyByStringCount) == value(
                FeatureSource::Base(10),
            ).product(value(FeatureSource::StringCount))
            &&& value(FeatureSource::FileSizeByStringCount) == value(
                FeatureSource::FileSize,
            ).product(value(FeatureSource::StringCount))
        }),
{
}

/// The mapping of the basic features to the names that a model asks for: an exact name has
/// its value, any other is zero.
pub open spec fn mapped_features(names: Option<Seq<Seq<char>>>, base: Seq<Score>) -> Seq<Score> {
    match names {
        Some(list) => Seq::new(
            list.len(),
            |i: int|
                if canonical_index(list[i]) is Some && list[i] != "timestamp_anomaly"@ {
                    base[canonical_index(list[i])->0 as int]
                } else {
                    Score::zero()
                },
        ),
        None => base,
    }
}

/// The basic features in the order that a model asks for.
pub fn apply_feature_mapping(feature_map: &Option<Vec<String>>, base: &[Score; 12]) -> (features:
    Vec<Score>)
    ensures
        features@ == mapped_features(
            match *feature_map {
                Some(names) => Some(texts(names@)),
                None => None,
            },
            base@,
        ),
{
    let mut features: Vec<Score> = Vec::new();
    let mut i: usize = 0;
    match feature_map {
        Some(names) => {
            let ghost all = mapped_features(Some(texts(names@)), base@);
            while i < names.len()
                invariant
                    i <= names@.len(),
                    all == mapped_features(Some(texts(names@)), base@),
                    features@ == all.take(i as int),
                decreases names@.len() - i,
            {
                let name = names[i].as_str();
                assert(texts(names@)[i as int] == name@);
                let value = match canonical_feature_index(name) {
                    Some(at) => if same_text(name, "timestamp_anomaly") {
                        Score { units: 0 }
                    } else {
                        base[at]
                    },
                    None => Score { units: 0 },
                };
                assert(value == all[i as int]);
                features.push(value);
                assert(all.take(i + 1) =~= all.take(i as int).push(all[i as int]));
                i = i + 1;
            }
            assert(all.take(i as int) =~= all);
        },
        None => {
            while i < 12
                invariant
                    i <= 12,
                    features@ == base@.take(i as int),
                decreases 12 - i,
            {
                features.push(base[i]);
                assert(base@.take(i + 1) =~= base@.take(i as int).push(base@[i as int]));
                i = i + 1;
            }
            assert(base@.take(i as int) =~= base@);
        },
    }
    features
}

/// What tells a sample apart in a cache of features.
#[derive(Debug, Clone, PartialEq, Eq)]
pub struct FeatureCacheKey {
    pub sample_sha256: Vec<u8>,
    pub file_size: u64,
}

pub fn feature_cache_key(blob: &[u8], file_size: u64) -> (key: FeatureCacheKey)
    ensures
        key.sample_sha256@ == sha256_of(blob@),
        key.file_size == file_size,
{
    FeatureCacheKey { sample_sha256: sha256(blob), file_size }
}

/// The bytes that tell a feature map apart: each tidied name and a zero byte behind it.
pub open spec fn map_bytes(names: Seq<Seq<char>>) -> Seq<u8>
    decreases names.len(),
{
    if names.len() == 0 {
        Seq::empty()
    } else {
        map_bytes(names.drop_last()) + encode_utf8(lowered(trimmed(names.last()))) + seq![0u8]
    }
}

/// The digest of a feature map.
pub fn feature_map_digest(names: &[String]) -> (digest: Vec<u8>)
    ensures
        digest@ == sha256_of(map_bytes(texts(names@))),
        digest@.len() == 32,
{
    let mut bytes: Vec<u8> = Vec::new();
    let ghost all = texts(names@);
    let mut i: usize = 0;
    assert(bytes@ =~= map_bytes(all.take(0)));
    while i < names.len()
        invariant
            i <= names@.len(),
            all == texts(names@),
            bytes@ == map_bytes(all.take(i as int)),
        decreases names@.len() - i,
    {
        assert(all.take(i + 1).drop_last() =~= all.take(i as int));
        assert(all.take(i + 1).last() == names@[i as int]@);
        let name = lower(trim(names[i].as_str()).as_str());
        append_bytes(&mut bytes, name.as_str().as_bytes());
        let ghost before = bytes@;
        bytes.push(0);
        assert(bytes@ =~= before + seq![0u8]);
        i = i + 1;
    }
    assert(all.take(i as int) =~= all);
    sha256(&bytes)
}

/// A cache of features is emptied once it holds more than it may.
pub fn cache_overflows(entries: usize) -> (b: bool)
    ensures
        b == (entries > MAX_CACHED_FEATURES),
{
    entries > MAX_CACHED_FEATURES
}

} // verus!
