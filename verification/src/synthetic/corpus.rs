//! Corpora of synthetic images: where they may be written, what they hold and how they
//! are recorded.

use crate::digest::{hex, hex_text, sha256, sha256_of};
use crate::order::{sorted_set, sorted_set_of};
use crate::rollback::{quote, quoted};
use crate::score::Score;
use crate::synthetic::image::{build_pe, pe_image, SYNTHETIC_MARKER};
use crate::synthetic::template::{family_plan, family_template, PeTemplate, TemplatePlan};
use crate::text::{begins_with, chars_of, concat2, concat3, decimal, decimal_text, lower_chars};
use crate::text::{lowered, push_text, same_text, stands_at, text_between, text_of, texts};
use crate::text::{chars_between, occurs_at, without_trailing};
use vstd::prelude::*;

verus! {

/// One sample of a corpus, as the manifest lists it.
#[derive(Debug)]
pub struct CorpusRecord {
    pub path: String,
    pub label: Score,
    pub family: String,
    pub seed: u64,
    pub sha256: String,
    pub size: usize,
}

pub struct RecordView {
    pub path: Seq<char>,
    pub label: Score,
    pub family: Seq<char>,
    pub seed: u64,
    pub sha256: Seq<char>,
    pub size: nat,
}

impl View for CorpusRecord {
    type V = RecordView;

    open spec fn view(&self) -> RecordView {
        RecordView {
            path: self.path@,
            label: self.label,
            family: self.family@,
            seed: self.seed,
            sha256: self.sha256@,
            size: self.size as nat,
        }
    }
}

/// How many samples of a family there are.
#[derive(Debug)]
pub struct FamilyCount {
    pub family: String,
    pub count: usize,
}

#[derive(Debug)]
pub struct CorpusSummary {
    pub generator: &'static str,
    pub safety_marker: String,
    pub entry_stub: &'static str,
    pub output_root: String,
    pub sample_count: usize,
    /// By family name, in order.
    pub family_counts: Vec<FamilyCount>,
    pub seed: u64,
}

/// A sample: its record and its bytes.
#[derive(Debug)]
pub struct Sample {
    pub record: CorpusRecord,
    pub image: Vec<u8>,
}

pub struct SampleView {
    pub record: RecordView,
    pub image: Seq<u8>,
}

impl View for Sample {
    type V = SampleView;

    open spec fn view(&self) -> SampleView {
        SampleView { record: self.record@, image: self.image@ }
    }
}

pub open spec fn sample_views(samples: Seq<Sample>) -> Seq<SampleView> {
    samples.map_values(|s: Sample| s@)
}

/// A corpus that can be written below its root.
#[derive(Debug)]
pub struct Corpus {
    pub root: String,
    pub samples: Vec<Sample>,
    pub summary: CorpusSummary,
}

/// Why no corpus was made, with the samples that were made before.
#[derive(Debug)]
pub struct Refusal {
    pub message: String,
    pub samples: Vec<Sample>,
}

/// A path without the verbatim prefixes that it starts with.
pub open spec fn without_verbatim(path: Seq<char>) -> Seq<char>
    decreases path.len(),
{
    if begins_with(path, "\\\\?\\"@) && path.len() >= 4 {
        without_verbatim(path.skip(4))
    } else {
        path
    }
}

/// A path below one of the protected system locations.
pub open spec fn is_protected(path: Seq<char>) -> bool {
    let low = lowered(path);
    ||| begins_with(low, "c:\\windows"@)
    ||| begins_with(low, "c:\\program files"@)
    ||| begins_with(low, "c:\\programdata"@)
    ||| begins_with(low, "c:\\users\\default"@)
}

/// A drive root: a colon after at most one single-byte character, before any number of
/// backslashes.
pub open spec fn is_drive_root(path: Seq<char>) -> bool {
    let body = without_trailing(path, |c: char| c == '\\');
    ||| body == seq![':']
    ||| body.len() == 2 && body[0] < '\u{80}' && body[1] == ':'
}

/// What a resolved path is as a corpus output: the path to use, or why it is refused.
pub open spec fn output_root(resolved: Seq<char>) -> Result<Seq<char>, Seq<char>> {
    let path = without_verbatim(resolved);
    if is_protected(path) {
        Err("refusing to write corpus under protected location: "@ + path)
    } else if is_drive_root(path) {
        Err("refusing to use a drive root as corpus output: "@ + path)
    } else {
        Ok(path)
    }
}

/// The path without the verbatim prefixes that it starts with.
fn strip_verbatim(path: &[char]) -> (r: Vec<char>)
    ensures
        r@ == without_verbatim(path@),
{
    proof {
        reveal_strlit("\\\\?\\");
    }
    let prefix = chars_of("\\\\?\\");
    let mut from: usize = 0;
    let size: usize = path.len();
    assert(path@.skip(0) =~= path@);
    while stands_at(path, &prefix, from)
        invariant
            from <= size == path@.len(),
            prefix@ == "\\\\?\\"@,
            prefix@.len() == 4,
            without_verbatim(path@.skip(from as int)) == without_verbatim(path@),
        ensures
            !occurs_at(path@, prefix@, from as int),
        decreases size - from,
    {
        assert(path@.skip(from as int).subrange(0, 4) =~= path@.subrange(
            from as int,
            from + 4,
        ));
        assert(path@.skip(from as int).skip(4) =~= path@.skip(from + 4));
        from = from + 4;
    }
    let r = chars_between(path, from, size);
    assert(r@ =~= path@.skip(from as int));
    proof {
        if r@.len() >= 4 {
            assert(r@.subrange(0, 4) =~= path@.subrange(from as int, from + 4));
        }
    }
    r
}

/// The path starts with one of the protected prefixes, whatever their case.
fn protected(path: &[char]) -> (b: bool)
    ensures
        b == is_protected(path@),
{
    let low = lower_chars(path);
    let windows = chars_of("c:\\windows");
    let programs = chars_of("c:\\program files");
    let data = chars_of("c:\\programdata");
    let template = chars_of("c:\\users\\default");
    stands_at(&low, &windows, 0) || stands_at(&low, &programs, 0) || stands_at(&low, &data, 0)
        || stands_at(&low, &template, 0)
}

fn drive_root(path: &[char]) -> (b: bool)
    ensures
        b == is_drive_root(path@),
{
    let ghost drop = |c: char| c == '\\';
    let mut to: usize = path.len();
    assert(path@.take(to as int) =~= path@);
    while to > 0 && path[to - 1] == '\\'
        invariant
            to <= path@.len(),
            drop == (|c: char| c == '\\'),
            without_trailing(path@.take(to as int), drop) == without_trailing(path@, drop),
        decreases to,
    {
        assert(path@.take(to as int).last() == path@[to - 1]);
        assert(path@.take(to as int).drop_last() =~= path@.take(to - 1));
        to = to - 1;
    }
    let ghost body = path@.take(to as int);
    assert(without_trailing(path@, drop) == body) by {
        if to > 0 {
            assert(body.last() == path@[to - 1]);
        }
    }
    if to == 1 {
        assert(path[0] == ':' ==> body =~= seq![':']);
        path[0] == ':'
    } else if to == 2 {
        assert(body.len() == 2 && body[0] == path@[0] && body[1] == path@[1]);
        path[0] < '\u{80}' && path[1] == ':'
    } else {
        false
    }
}

/// Refuses protected system locations and drive roots as corpus outputs.
///
/// The caller resolves the path; where that fails it is taken as it is.
pub fn validate_output_root(resolved: &str) -> (r: Result<String, String>)
    ensures
        match r {
            Ok(path) => output_root(resolved@) == Ok::<Seq<char>, Seq<char>>(path@),
            Err(message) => output_root(resolved@) == Err::<Seq<char>, Seq<char>>(message@),
        },
{
    let chars = chars_of(resolved);
    let path = strip_verbatim(&chars);
    let shown = text_of(&path);
    if protected(&path) {
        return Err(
            concat2("refusing to write corpus under protected location: ", shown.as_str()),
        );
    }
    if drive_root(&path) {
        return Err(concat2("refusing to use a drive root as corpus output: ", shown.as_str()));
    }
    Ok(shown)
}

/// What is to be done with the directory of samples before a corpus is written.
#[derive(Debug, Clone, Copy, PartialEq, Eq, Structural)]
pub enum Preparation {
    /// It holds files that must not be replaced.
    Refuse,
    /// Remove it with all it holds, and make it anew.
    Replace,
    /// Make it where it is missing.
    Create,
}

/// A directory that holds files is replaced only when `force` says so.
pub fn prepare_samples(exists: bool, occupied: bool, force: bool) -> (p: Preparation)
    ensures
        p == Preparation::Refuse <==> exists && occupied && !force,
        p == Preparation::Replace <==> exists && force,
{
    if exists && occupied && !force {
        Preparation::Refuse
    } else if exists && force {
        Preparation::Replace
    } else {
        Preparation::Create
    }
}

/// What is said of a directory that must not be replaced.
pub fn occupied_message(samples: &str) -> (m: String)
    ensures
        m@ == samples@ + " is not empty; pass force to regenerate"@,
{
    concat2(samples, " is not empty; pass force to regenerate")
}

/// The seed of sample `index`.
pub open spec fn local_seed(seed: u64, index: u64) -> u64 {
    seed.wrapping_mul(1_000_003).wrapping_add(index.wrapping_mul(7)).wrapping_add(11)
}

/// A number in at least six digits.
pub open spec fn six_digits(n: nat) -> Seq<char> {
    let digits = decimal(n);
    if digits.len() >= 6 {
        digits
    } else {
        Seq::new((6 - digits.len()) as nat, |i: int| '0') + digits
    }
}

/// The file name of a sample.
pub open spec fn sample_name(family: Seq<char>, index: nat, digest: Seq<char>) -> Seq<char> {
    family + "_"@ + six_digits(index) + "_"@ + digest.take(12) + ".bin"@
}

/// Sample `index` of a corpus.
pub open spec fn sample(plan: TemplatePlan, family: Seq<char>, seed: u64, index: nat) -> SampleView {
    let own_seed = local_seed(seed, index as u64);
    let image = pe_image(plan, own_seed);
    let digest = hex_text(sha256_of(image));
    SampleView {
        record: RecordView {
            path: "samples/"@ + sample_name(family, index, digest),
            label: plan.label,
            family,
            seed: own_seed,
            sha256: digest,
            size: image.len(),
        },
        image,
    }
}

/// `n` samples of one family, the first of them sample `start` of the corpus.
pub open spec fn family_samples(
    plan: TemplatePlan,
    family: Seq<char>,
    seed: u64,
    start: nat,
    n: nat,
) -> Seq<SampleView> {
    Seq::new(n, |i: int| sample(plan, family, seed, (start + i) as nat))
}

pub open spec fn is_known(family: Seq<char>) -> bool {
    family_plan(family) is Some
}

/// The samples of the families up to the first one that is not known.
pub open spec fn corpus_samples(counts: Seq<(Seq<char>, nat)>, seed: u64) -> Seq<SampleView>
    decreases counts.len(),
{
    if counts.len() == 0 {
        Seq::empty()
    } else {
        let before = corpus_samples(counts.drop_last(), seed);
        let (family, n) = counts.last();
        if !all_known(counts) {
            before
        } else {
            before + family_samples(family_plan(family)->0, family, seed, before.len(), n)
        }
    }
}

pub open spec fn all_known(counts: Seq<(Seq<char>, nat)>) -> bool {
    forall|i: int| 0 <= i < counts.len() ==> is_known(#[trigger] counts[i].0)
}

/// The first family that is not known.
pub open spec fn first_unknown(counts: Seq<(Seq<char>, nat)>) -> Seq<char>
    decreases counts.len(),
{
    if counts.len() == 0 {
        Seq::empty()
    } else if !is_known(counts[0].0) {
        counts[0].0
    } else {
        first_unknown(counts.skip(1))
    }
}

pub open spec fn total(counts: Seq<(Seq<char>, nat)>) -> nat
    decreases counts.len(),
{
    if counts.len() == 0 {
        0
    } else {
        total(counts.drop_last()) + counts.last().1
    }
}

pub open spec fn count_views(counts: Seq<(&str, usize)>) -> Seq<(Seq<char>, nat)> {
    counts.map_values(|c: (&str, usize)| (c.0@, c.1 as nat))
}

/// What is said of a family that is not known.
pub open spec fn unknown_family(family: Seq<char>) -> Seq<char> {
    "unknown family "@ + quoted(family)
        + "; known: [\"benign_like\", \"packed_like\", \"api_heavy_like\", \"stealth_like\", \"credential_stealer_like\", \"downloader_like\", \"ransomware_like\"]"@
}

/// How often a name occurs.
pub open spec fn occurrences(items: Seq<Seq<char>>, name: Seq<char>) -> nat
    decreases items.len(),
{
    if items.len() == 0 {
        0
    } else {
        occurrences(items.drop_last(), name) + if items.last() == name {
            1nat
        } else {
            0nat
        }
    }
}

pub open spec fn sample_families(samples: Seq<SampleView>) -> Seq<Seq<char>> {
    samples.map_values(|s: SampleView| s.record.family)
}

/// The counted names.
pub open spec fn counted_names(counts: Seq<FamilyCount>) -> Seq<Seq<char>> {
    counts.map_values(|c: FamilyCount| c.family@)
}

/// Every family that occurs, in order, with how often it does.
pub open spec fn is_tally(counts: Seq<FamilyCount>, families: Seq<Seq<char>>) -> bool {
    &&& sorted_set_of(counted_names(counts), families)
    &&& forall|i: int|
        0 <= i < counts.len() ==> (#[trigger] counts[i]).count == occurrences(
            families,
            counts[i].family@,
        )
}

/// A number in at least six digits.
fn six_digit_text(n: u64) -> (s: String)
    ensures
        s@ == six_digits(n as nat),
{
    let digits = chars_of(decimal_text(n).as_str());
    let mut s = String::new();
    let mut missing: usize = if digits.len() >= 6 {
        0
    } else {
        6 - digits.len()
    };
    let ghost all = missing;
    assert(s@ =~= Seq::new(0, |i: int| '0'));
    while missing > 0
        invariant
            missing <= all,
            s@ == Seq::new((all - missing) as nat, |i: int| '0'),
        decreases missing,
    {
        s.push('0');
        missing = missing - 1;
        assert(s@ =~= Seq::new((all - missing) as nat, |i: int| '0'));
    }
    let text = concat2(s.as_str(), text_of(&digits).as_str());
    assert(text@ =~= six_digits(n as nat));
    text
}

/// Sample `index` of a corpus.
pub fn make_sample(template: &PeTemplate, family: &str, seed: u64, index: u64) -> (s: Sample)
    requires
        template@.fits(),
    ensures
        s@ == sample(template@, family@, seed, index as nat),
{
    let own_seed: u64 = seed.wrapping_mul(1_000_003).wrapping_add(index.wrapping_mul(7)).wrapping_add(
        11,
    );
    let image = build_pe(template, own_seed);
    let digest_bytes = sha256(&image);
    let digest = hex(&digest_bytes);
    let digest_chars = chars_of(digest.as_str());
    let short = text_between(&digest_chars, 0, 12);
    assert(short@ =~= digest@.take(12));
    let mut name = family.to_owned();
    name.append("_");
    name.append(six_digit_text(index).as_str());
    name.append("_");
    name.append(short.as_str());
    name.append(".bin");
    let path = concat2("samples/", name.as_str());
    let size: usize = image.len();
    Sample {
        record: CorpusRecord {
            path,
            label: template.label,
            family: family.to_owned(),
            seed: own_seed,
            sha256: digest,
            size,
        },
        image,
    }
}

/// How often a name occurs.
fn count_name(items: &[String], name: &str) -> (n: usize)
    ensures
        n == occurrences(texts(items@), name@),
{
    let mut n: usize = 0;
    let mut i: usize = 0;
    while i < items.len()
        invariant
            i <= items@.len(),
            n <= i,
            n == occurrences(texts(items@).take(i as int), name@),
        decreases items@.len() - i,
    {
        assert(texts(items@).take(i + 1).drop_last() =~= texts(items@).take(i as int));
        assert(texts(items@).take(i + 1).last() == items@[i as int]@);
        if same_text(items[i].as_str(), name) {
            n = n + 1;
        }
        i = i + 1;
    }
    assert(texts(items@).take(i as int) =~= texts(items@));
    n
}

/// The families of the samples.
fn families_of(samples: &[Sample]) -> (families: Vec<String>)
    ensures
        texts(families@) == sample_families(sample_views(samples@)),
{
    let ghost wanted = sample_families(sample_views(samples@));
    let mut families: Vec<String> = Vec::new();
    let mut i: usize = 0;
    assert(texts(families@) =~= wanted.take(0));
    while i < samples.len()
        invariant
            i <= samples@.len(),
            wanted == sample_families(sample_views(samples@)),
            texts(families@) == wanted.take(i as int),
        decreases samples@.len() - i,
    {
        push_text(&mut families, samples[i].record.family.clone());
        assert(wanted.take(i + 1) =~= wanted.take(i as int).push(wanted[i as int]));
        i = i + 1;
    }
    assert(wanted.take(i as int) =~= wanted);
    families
}

/// Every family that occurs, in order, with how often it does.
fn tally(families: &[String]) -> (counts: Vec<FamilyCount>)
    ensures
        is_tally(counts@, texts(families@)),
{
    let names = sorted_set(families);
    let mut counts: Vec<FamilyCount> = Vec::new();
    let mut i: usize = 0;
    assert(counted_names(counts@) =~= texts(names@).take(0));
    while i < names.len()
        invariant
            i <= names@.len(),
            counted_names(counts@) == texts(names@).take(i as int),
            counts@.len() == i,
            forall|k: int|
                0 <= k < i ==> (#[trigger] counts@[k]).count == occurrences(
                    texts(families@),
                    counts@[k].family@,
                ),
        decreases names@.len() - i,
    {
        let count: usize = count_name(families, names[i].as_str());
        let ghost before = counts@;
        let entry = FamilyCount { family: names[i].clone(), count };
        counts.push(entry);
        assert(counted_names(counts@) =~= counted_names(before).push(names@[i as int]@));
        assert(texts(names@).take(i + 1) =~= texts(names@).take(i as int).push(
            names@[i as int]@,
        ));
        i = i + 1;
    }
    assert(texts(names@).take(i as int) =~= texts(names@));
    counts
}

proof fn lemma_total_grows(counts: Seq<(Seq<char>, nat)>, i: int)
    requires
        0 <= i <= counts.len(),
    ensures
        total(counts.take(i)) <= total(counts),
    decreases counts.len() - i,
{
    if i < counts.len() {
        lemma_total_grows(counts, i + 1);
        assert(counts.take(i + 1).drop_last() =~= counts.take(i));
    } else {
        assert(counts.take(i) =~= counts);
    }
}

/// The first family that is not known stands behind known ones only.
proof fn lemma_first_unknown(counts: Seq<(Seq<char>, nat)>, i: int)
    requires
        0 <= i < counts.len(),
        all_known(counts.take(i)),
        !is_known(counts[i].0),
    ensures
        first_unknown(counts) == counts[i].0,
        !all_known(counts),
    decreases i,
{
    if i > 0 {
        assert(counts.take(i)[0] == counts[0]);
        assert forall|k: int| 0 <= k < i - 1 implies is_known(
            #[trigger] counts.skip(1).take(i - 1)[k].0,
        ) by {
            assert(counts.skip(1).take(i - 1)[k] == counts.take(i)[k + 1]);
        }
        assert(counts.skip(1)[i - 1] == counts[i]);
        lemma_first_unknown(counts.skip(1), i - 1);
    }
}

/// Behind a family that is not known no samples are made.
proof fn lemma_stops(counts: Seq<(Seq<char>, nat)>, seed: u64, i: int, k: int)
    requires
        0 <= i < k <= counts.len(),
        !is_known(counts[i].0),
    ensures
        corpus_samples(counts.take(k), seed) == corpus_samples(counts.take(i), seed),
    decreases k,
{
    assert(counts.take(k).drop_last() =~= counts.take(k - 1));
    assert(counts.take(k)[i] == counts[i]);
    if k - 1 > i {
        lemma_stops(counts, seed, i, k - 1);
    }
}

/// The samples of a corpus, and the first family that is not known, if there is one.
fn make_samples(counts: &[(&str, usize)], seed: u64) -> (r: (Vec<Sample>, Option<String>))
    requires
        total(count_views(counts@)) <= u64::MAX,
    ensures
        sample_views(r.0@) == corpus_samples(count_views(counts@), seed),
        match r.1 {
            None => all_known(count_views(counts@)),
            Some(family) => !all_known(count_views(counts@)) && family@ == first_unknown(
                count_views(counts@),
            ),
        },
{
    let ghost plans = count_views(counts@);
    let mut samples: Vec<Sample> = Vec::new();
    let mut index: u64 = 0;
    let mut i: usize = 0;
    assert(sample_views(samples@) =~= Seq::empty());
    assert(plans.take(0) =~= Seq::empty());
    while i < counts.len()
        invariant
            i <= counts@.len(),
            plans == count_views(counts@),
            total(plans) <= u64::MAX,
            index == total(plans.take(i as int)),
            samples@.len() == index,
            all_known(plans.take(i as int)),
            sample_views(samples@) == corpus_samples(plans.take(i as int), seed),
        decreases counts@.len() - i,
    {
        let (family, count) = counts[i];
        assert(plans[i as int] == (family@, count as nat));
        proof {
            lemma_total_grows(plans, i + 1);
            assert(plans.take(i + 1).drop_last() =~= plans.take(i as int));
        }
        match family_template(family) {
            None => {
                proof {
                    lemma_first_unknown(plans, i as int);
                    lemma_stops(plans, seed, i as int, plans.len() as int);
                    assert(plans.take(plans.len() as int) =~= plans);
                }
                return (samples, Some(family.to_owned()));
            },
            Some(template) => {
                let ghost start = index as nat;
                let ghost before = sample_views(samples@);
                let mut done: usize = 0;
                assert(sample_views(samples@) =~= before + family_samples(
                    template@,
                    family@,
                    seed,
                    start,
                    0,
                ));
                while done < count
                    invariant
                        done <= count,
                        index == start + done,
                        start + count <= u64::MAX,
                        samples@.len() == index,
                        template@.fits(),
                        sample_views(samples@) == before + family_samples(
                            template@,
                            family@,
                            seed,
                            start,
                            done as nat,
                        ),
                    decreases count - done,
                {
                    let made = make_sample(&template, family, seed, index);
                    let ghost held = sample_views(samples@);
                    let ghost one = made@;
                    samples.push(made);
                    assert(sample_views(samples@) =~= held.push(one));
                    index = index + 1;
                    done = done + 1;
                    assert(sample_views(samples@) =~= before + family_samples(
                        template@,
                        family@,
                        seed,
                        start,
                        done as nat,
                    ));
                }
                assert forall|k: int| 0 <= k < i + 1 implies is_known(
                    #[trigger] plans.take(i + 1)[k].0,
                ) by {
                    if k < i {
                        assert(plans.take(i as int)[k] == plans.take(i + 1)[k]);
                    }
                }
                assert(plans.take(i + 1).last() == plans[i as int]);
            },
        }
        i = i + 1;
    }
    assert(plans.take(i as int) =~= plans);
    (samples, None)
}

/// A corpus below a root that the caller has resolved.
///
/// The samples follow from the counts and the seed alone. A root that must not be
/// written to is refused before anything is made, a family that is not known after the
/// samples of the families before it.
pub fn generate_corpus(resolved: &str, counts: &[(&str, usize)], seed: u64) -> (r: Result<
    Corpus,
    Refusal,
>)
    requires
        total(count_views(counts@)) <= u64::MAX,
    ensures
        r is Ok <==> output_root(resolved@) is Ok && all_known(count_views(counts@)),
        match r {
            Ok(corpus) => {
                &&& output_root(resolved@) == Ok::<Seq<char>, Seq<char>>(corpus.root@)
                &&& sample_views(corpus.samples@) == corpus_samples(count_views(counts@), seed)
                &&& corpus.summary.generator@ == "heliosav_engine::layers::synthetic"@
                &&& corpus.summary.safety_marker@ == SYNTHETIC_MARKER@
                &&& corpus.summary.entry_stub@ == "single RET (0xC3)"@
                &&& corpus.summary.output_root@ == corpus.root@
                &&& corpus.summary.sample_count == corpus.samples@.len()
                &&& is_tally(
                    corpus.summary.family_counts@,
                    sample_families(sample_views(corpus.samples@)),
                )
                &&& corpus.summary.seed == seed
            },
            Err(refusal) => match output_root(resolved@) {
                Err(message) => refusal.message@ == message && refusal.samples@.len() == 0,
                Ok(_) => refusal.message@ == unknown_family(first_unknown(count_views(counts@)))
                    && sample_views(refusal.samples@) == corpus_samples(
                    count_views(counts@),
                    seed,
                ),
            },
        },
{
    let root = match validate_output_root(resolved) {
        Ok(path) => path,
        Err(message) => {
            return Err(Refusal { message, samples: Vec::new() });
        },
    };
    let (samples, unknown) = make_samples(counts, seed);
    if let Some(family) = unknown {
        let shown = quote(family.as_str());
        let message = concat3(
            "unknown family ",
            shown.as_str(),
            "; known: [\"benign_like\", \"packed_like\", \"api_heavy_like\", \"stealth_like\", \"credential_stealer_like\", \"downloader_like\", \"ransomware_like\"]",
        );
        return Err(Refusal { message, samples });
    }
    let families = families_of(&samples);
    let family_counts = tally(&families);
    let summary = CorpusSummary {
        generator: "heliosav_engine::layers::synthetic",
        safety_marker: SYNTHETIC_MARKER.to_owned(),
        entry_stub: "single RET (0xC3)",
        output_root: root.clone(),
        sample_count: samples.len(),
        family_counts,
        seed,
    };
    Ok(Corpus { root, samples, summary })
}

} // verus!
