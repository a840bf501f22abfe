//! Matching files against the hashes of a database.

use crate::digest::{hex, hex_text, md5, md5_of, sha1, sha1_of, sha256, sha256_of, sha512};
use crate::digest::sha512_of;
use crate::hash::columns::{db_entries, is_fuzzy_algorithm, names_fuzzy, normalize_hash};
use crate::hash::columns::{normalized_hash, DbEntryView, HashDbEntry};
use crate::hash::error::HashError;
use crate::hash::fuzzy::{fuzzy_signature, ssdeep_hash_bytes, FUZZY_CONTENT_LIMIT};
use crate::hash::similarity::{fuzzy_algorithm_name, fuzzy_name, fuzzy_similarity};
use crate::hash::similarity::{normalize_fuzzy_hash, normalized_fuzzy, similarity};
use crate::hash::similarity::FUZZY_MATCH_THRESHOLD;
use crate::text::{copy_texts, list_contains, push_text, same_text, texts, trim, trimmed};
use dashmap::DashMap;
use std::collections::hash_map::RandomState;
use vstd::prelude::*;

verus! {

/// A map that is shared between threads.
#[verifier::external_type_specification]
#[verifier::external_body]
#[verifier::reject_recursive_types(K)]
#[verifier::reject_recursive_types(V)]
#[verifier::reject_recursive_types(S)]
pub struct ExDashMap<K, V, S>(dashmap::DashMap<K, V, S>);

/// What an exact hash stands for: whether it is malicious, and where it comes from.
pub type ExactView = (bool, Seq<Seq<char>>);

/// The hashes that a map holds, with what each stands for.
pub uninterp spec fn exact_entries(map: DashMap<String, (bool, Vec<String>), RandomState>) -> Map<
    Seq<char>,
    ExactView,
>;

/// No hashes.
pub open spec fn no_hashes() -> Map<Seq<char>, ExactView> {
    Map::empty()
}

/// `DashMap::new`: a map without entries.
#[verifier::external_body]
fn new_map() -> (fresh: DashMap<String, (bool, Vec<String>), RandomState>)
    ensures
        exact_entries(fresh) == no_hashes(),
{
    DashMap::new()
}

/// `DashMap::get`: a copy of what is stored under the key, if anything is.
#[verifier::external_body]
fn map_get(map: &DashMap<String, (bool, Vec<String>), RandomState>, key: &str) -> (found: Option<
    (bool, Vec<String>),
>)
    ensures
        match found {
            Some(entry) => exact_entries(*map).contains_key(key@) && exact_entries(*map)[key@] == (
                entry.0,
                texts(entry.1@),
            ),
            None => !exact_entries(*map).contains_key(key@),
        },
{
    map.get(key).map(|entry| entry.value().clone())
}

/// `DashMap::insert`: the key stands for the value, whatever it stood for before, and
/// nothing else changes.
#[verifier::external_body]
fn map_insert(
    map: &mut DashMap<String, (bool, Vec<String>), RandomState>,
    key: String,
    value: (bool, Vec<String>),
)
    ensures
        exact_entries(*final(map)) == exact_entries(*old(map)).insert(
            key@,
            (value.0, texts(value.1@)),
        ),
{
    let _ = map.insert(key, value);
}

/// `DashMap::len`: the number of keys.
#[verifier::external_body]
fn map_len(map: &DashMap<String, (bool, Vec<String>), RandomState>) -> (n: usize)
    ensures
        n == exact_entries(*map).len(),
{
    map.len()
}

/// A fuzzy signature of a database.
#[derive(Debug)]
pub struct FuzzyEntry {
    pub signature: String,
    pub is_malicious: bool,
    pub label: String,
    pub algorithm: String,
    pub sources: Vec<String>,
}

#[verifier::ext_equal]
pub struct FuzzyEntryView {
    pub signature: Seq<char>,
    pub is_malicious: bool,
    pub label: Seq<char>,
    pub algorithm: Seq<char>,
    pub sources: Seq<Seq<char>>,
}

impl View for FuzzyEntry {
    type V = FuzzyEntryView;

    open spec fn view(&self) -> FuzzyEntryView {
        FuzzyEntryView {
            signature: self.signature@,
            is_malicious: self.is_malicious,
            label: self.label@,
            algorithm: self.algorithm@,
            sources: texts(self.sources@),
        }
    }
}

pub open spec fn fuzzy_views(entries: Seq<FuzzyEntry>) -> Seq<FuzzyEntryView> {
    entries.map_values(|e: FuzzyEntry| e@)
}

/// What a file was matched by.
#[derive(Debug)]
pub struct HashMatch {
    pub label: String,
    pub hash: String,
    pub algorithm: String,
    pub similarity: u8,
    /// The distinct sources that the hash comes from.
    pub sources: Vec<String>,
}

#[verifier::ext_equal]
pub struct MatchView {
    pub label: Seq<char>,
    pub hash: Seq<char>,
    pub algorithm: Seq<char>,
    pub similarity: u8,
    pub sources: Seq<Seq<char>>,
}

impl View for HashMatch {
    type V = MatchView;

    open spec fn view(&self) -> MatchView {
        MatchView {
            label: self.label@,
            hash: self.hash@,
            algorithm: self.algorithm@,
            similarity: self.similarity,
            sources: texts(self.sources@),
        }
    }
}

/// The sources with one more, unless it is blank or already there.
pub open spec fn with_source(sources: Seq<Seq<char>>, source: Seq<char>) -> Seq<Seq<char>> {
    let name = trimmed(source);
    if name.len() == 0 || sources.contains(name) {
        sources
    } else {
        sources.push(name)
    }
}

pub open spec fn with_sources(sources: Seq<Seq<char>>, more: Seq<Seq<char>>) -> Seq<Seq<char>>
    decreases more.len(),
{
    if more.len() == 0 {
        sources
    } else {
        with_source(with_sources(sources, more.drop_last()), more.last())
    }
}

/// The exact hashes with one more. A hash that is malicious in one source stays so.
pub open spec fn with_exact(
    exact: Map<Seq<char>, ExactView>,
    hash: Seq<char>,
    is_malicious: bool,
    source: Seq<char>,
) -> Map<Seq<char>, ExactView> {
    let known: ExactView = if exact.contains_key(hash) {
        exact[hash]
    } else {
        (false, Seq::empty())
    };
    exact.insert(hash, (known.0 || is_malicious, with_source(known.1, source)))
}

/// The position of the signature, or the number of entries.
pub open spec fn fuzzy_position(
    entries: Seq<FuzzyEntryView>,
    algorithm: Seq<char>,
    signature: Seq<char>,
) -> int
    decreases entries.len(),
{
    if entries.len() == 0 || (entries[0].algorithm == algorithm && entries[0].signature
        == signature) {
        0
    } else {
        1 + fuzzy_position(entries.skip(1), algorithm, signature)
    }
}

/// The entry together with what another source says of the same signature.
pub open spec fn joined_entry(entry: FuzzyEntryView, incoming: FuzzyEntryView) -> FuzzyEntryView {
    FuzzyEntryView {
        is_malicious: entry.is_malicious || incoming.is_malicious,
        sources: with_sources(entry.sources, incoming.sources),
        ..entry
    }
}

/// The fuzzy signatures with one more.
pub open spec fn with_fuzzy(entries: Seq<FuzzyEntryView>, incoming: FuzzyEntryView) -> Seq<
    FuzzyEntryView,
> {
    let at = fuzzy_position(entries, incoming.algorithm, incoming.signature);
    if at < entries.len() {
        entries.update(at, joined_entry(entries[at], incoming))
    } else {
        entries.push(incoming)
    }
}

/// The hashes of a database by their kind.
pub struct HashMatcher {
    pub hashes: DashMap<String, (bool, Vec<String>), RandomState>,
    pub fuzzy_hashes: Vec<FuzzyEntry>,
    pub label: String,
}

#[verifier::ext_equal]
pub struct MatcherView {
    pub exact: Map<Seq<char>, ExactView>,
    pub fuzzy: Seq<FuzzyEntryView>,
    pub label: Seq<char>,
}

impl View for HashMatcher {
    type V = MatcherView;

    open spec fn view(&self) -> MatcherView {
        MatcherView {
            exact: exact_entries(self.hashes),
            fuzzy: fuzzy_views(self.fuzzy_hashes@),
            label: self.label@,
        }
    }
}

impl MatcherView {
    pub open spec fn empty(label: Seq<char>) -> MatcherView {
        MatcherView { exact: Map::empty(), fuzzy: Seq::empty(), label }
    }

    pub open spec fn add_exact(
        self,
        hash: Seq<char>,
        is_malicious: bool,
        source: Seq<char>,
    ) -> MatcherView {
        MatcherView { exact: with_exact(self.exact, hash, is_malicious, source), ..self }
    }

    pub open spec fn add_fuzzy(
        self,
        signature: Seq<char>,
        is_malicious: bool,
        source: Seq<char>,
    ) -> MatcherView {
        MatcherView {
            fuzzy: with_fuzzy(
                self.fuzzy,
                FuzzyEntryView {
                    signature,
                    is_malicious,
                    label: self.label,
                    algorithm: fuzzy_name(signature),
                    sources: seq![source],
                },
            ),
            ..self
        }
    }

    /// A hash of either kind, going by its form; what is neither changes nothing.
    pub open spec fn add_any(self, hash: Seq<char>, is_malicious: bool) -> MatcherView {
        if normalized_hash(hash) is Some {
            self.add_exact(normalized_hash(hash)->0, is_malicious, self.label)
        } else if normalized_fuzzy(hash) is Some {
            self.add_fuzzy(normalized_fuzzy(hash)->0, is_malicious, self.label)
        } else {
            self
        }
    }

    pub open spec fn add_all(self, hashes: Seq<(Seq<char>, bool)>) -> MatcherView
        decreases hashes.len(),
    {
        if hashes.len() == 0 {
            self
        } else {
            self.add_all(hashes.drop_last()).add_any(hashes.last().0, hashes.last().1)
        }
    }

    /// A row of a database, whose algorithm tells the kind of its hash.
    pub open spec fn add_record(self, entry: DbEntryView) -> MatcherView {
        if names_fuzzy(entry.algorithm) {
            match normalized_fuzzy(entry.hash) {
                Some(signature) => self.add_fuzzy(signature, entry.is_malicious, entry.source),
                None => self,
            }
        } else {
            match normalized_hash(entry.hash) {
                Some(hash) => self.add_exact(hash, entry.is_malicious, entry.source),
                None => self,
            }
        }
    }

    pub open spec fn add_records(self, entries: Seq<DbEntryView>) -> MatcherView
        decreases entries.len(),
    {
        if entries.len() == 0 {
            self
        } else {
            self.add_records(entries.drop_last()).add_record(entries.last())
        }
    }

    pub open spec fn add_signatures(self, entries: Seq<(Seq<char>, bool)>) -> MatcherView
        decreases entries.len(),
    {
        if entries.len() == 0 {
            self
        } else {
            let before = self.add_signatures(entries.drop_last());
            match normalized_fuzzy(entries.last().0) {
                Some(signature) => before.add_fuzzy(signature, entries.last().1, self.label),
                None => before,
            }
        }
    }
}

/// The row holds a hash of its algorithm.
pub open spec fn is_valid_record(entry: DbEntryView) -> bool {
    if names_fuzzy(entry.algorithm) {
        normalized_fuzzy(entry.hash) is Some
    } else {
        normalized_hash(entry.hash) is Some
    }
}

/// The number of rows that hold a hash of their algorithm.
pub open spec fn valid_records(entries: Seq<DbEntryView>) -> nat
    decreases entries.len(),
{
    if entries.len() == 0 {
        0
    } else {
        valid_records(entries.drop_last()) + if is_valid_record(entries.last()) {
            1nat
        } else {
            0nat
        }
    }
}

pub open spec fn valid_signatures(entries: Seq<(Seq<char>, bool)>) -> nat
    decreases entries.len(),
{
    if entries.len() == 0 {
        0
    } else {
        valid_signatures(entries.drop_last()) + if normalized_fuzzy(entries.last().0) is Some {
            1nat
        } else {
            0nat
        }
    }
}

pub open spec fn pair_views(pairs: Seq<(String, bool)>) -> Seq<(Seq<char>, bool)> {
    pairs.map_values(|p: (String, bool)| (p.0@, p.1))
}

/// The rows with a source in place of blank ones.
pub open spec fn with_default(entries: Seq<DbEntryView>, source: Seq<char>) -> Seq<DbEntryView> {
    entries.map_values(
        |e: DbEntryView|
            if trimmed(e.source).len() == 0 {
                DbEntryView { source, ..e }
            } else {
                e
            },
    )
}

/// Gives rows without a source the one they were read from.
pub fn with_default_source(entries: Vec<HashDbEntry>, source: &str) -> (r: Vec<HashDbEntry>)
    ensures
        db_entries(r@) == with_default(db_entries(entries@), source@),
{
    let ghost given = db_entries(entries@);
    let ghost wanted = with_default(given, source@);
    let mut entries = entries;
    let size: usize = entries.len();
    let mut i: usize = 0;
    while i < size
        invariant
            i <= size == entries@.len(),
            given.len() == size,
            wanted == with_default(given, source@),
            forall|k: int| 0 <= k < i ==> (#[trigger] entries@[k])@ == wanted[k],
            forall|k: int| i <= k < size ==> (#[trigger] entries@[k])@ == given[k],
        decreases size - i,
    {
        assert(entries@[i as int]@ == given[i as int]);
        if trim(entries[i].source.as_str()).as_str().unicode_len() == 0 {
            let named = HashDbEntry {
                hash: entries[i].hash.clone(),
                algorithm: entries[i].algorithm.clone(),
                is_malicious: entries[i].is_malicious,
                source: source.to_owned(),
            };
            assert(named@ =~= wanted[i as int]);
            entries.set(i, named);
        }
        i = i + 1;
    }
    assert(db_entries(entries@) =~= wanted);
    entries
}

/// Adds a source, unless it is blank or already there.
fn merge_sources(sources: &mut Vec<String>, source: &str)
    ensures
        texts(final(sources)@) == with_source(texts(old(sources)@), source@),
{
    let name = trim(source);
    if name.as_str().unicode_len() > 0 && !list_contains(sources, name.as_str()) {
        push_text(sources, name);
    }
}

/// Adds a signature, or what it says to the entry of the same signature.
fn merge_fuzzy_entry(entries: &mut Vec<FuzzyEntry>, incoming: FuzzyEntry)
    ensures
        fuzzy_views(final(entries)@) == with_fuzzy(fuzzy_views(old(entries)@), incoming@),
{
    let ghost views = fuzzy_views(entries@);
    let mut i: usize = 0;
    assert(views.skip(0) =~= views);
    while i < entries.len()
        invariant
            i <= entries@.len(),
            *entries == *old(entries),
            views == fuzzy_views(entries@),
            fuzzy_position(views, incoming@.algorithm, incoming@.signature) == i + fuzzy_position(
                views.skip(i as int),
                incoming@.algorithm,
                incoming@.signature,
            ),
        decreases entries@.len() - i,
    {
        assert(views.skip(i as int)[0] == entries@[i as int]@);
        if same_text(entries[i].algorithm.as_str(), incoming.algorithm.as_str()) && same_text(
            entries[i].signature.as_str(),
            incoming.signature.as_str(),
        ) {
            let mut sources = copy_texts(&entries[i].sources);
            let ghost known = texts(sources@);
            let ghost more = texts(incoming.sources@);
            let mut j: usize = 0;
            while j < incoming.sources.len()
                invariant
                    j <= incoming.sources@.len(),
                    more == texts(incoming.sources@),
                    texts(sources@) == with_sources(known, more.take(j as int)),
                decreases incoming.sources@.len() - j,
            {
                assert(more.take(j + 1).drop_last() =~= more.take(j as int));
                assert(more.take(j + 1).last() == incoming.sources@[j as int]@);
                merge_sources(&mut sources, incoming.sources[j].as_str());
                j = j + 1;
            }
            assert(more.take(j as int) =~= more);
            let merged = FuzzyEntry {
                signature: entries[i].signature.clone(),
                is_malicious: entries[i].is_malicious || incoming.is_malicious,
                label: entries[i].label.clone(),
                algorithm: entries[i].algorithm.clone(),
                sources,
            };
            assert(merged@ =~= joined_entry(views[i as int], incoming@));
            let ghost one = merged@;
            entries.set(i, merged);
            assert(fuzzy_views(entries@) =~= views.update(i as int, one));
            return;
        }
        assert(views.skip(i as int).skip(1) =~= views.skip(i + 1));
        i = i + 1;
    }
    let ghost one = incoming@;
    entries.push(incoming);
    assert(fuzzy_views(entries@) =~= views.push(one));
}

/// The exact hashes of some content, the strongest first.
pub open spec fn content_hashes(content: Seq<u8>) -> Seq<Seq<char>> {
    seq![
        hex_text(sha512_of(content)),
        hex_text(sha256_of(content)),
        hex_text(sha1_of(content)),
        hex_text(md5_of(content)),
    ]
}

/// The exact hashes of some content, the strongest first.
pub fn compute_exact_hashes(content: &[u8]) -> (hashes: Vec<String>)
    ensures
        texts(hashes@) == content_hashes(content@),
        hashes@.len() == 4,
{
    let mut hashes: Vec<String> = Vec::new();
    hashes.push(hex(&sha512(content)));
    hashes.push(hex(&sha256(content)));
    hashes.push(hex(&sha1(content)));
    hashes.push(hex(&md5(content)));
    assert(texts(hashes@) =~= content_hashes(content@));
    hashes
}

/// The fuzzy signature of some content.
pub fn calculate_fuzzy_hash(content: &[u8]) -> (signature: String)
    requires
        content@.len() <= FUZZY_CONTENT_LIMIT,
    ensures
        signature@ == fuzzy_signature(content@),
{
    ssdeep_hash_bytes(content)
}

/// The hash is listed as malicious.
pub open spec fn lists_malicious(exact: Map<Seq<char>, ExactView>, hash: Seq<char>) -> bool {
    exact.contains_key(hash) && exact[hash].0
}

/// The position of the first hash that is listed as malicious, or the number of hashes.
pub open spec fn first_malicious(exact: Map<Seq<char>, ExactView>, hashes: Seq<Seq<char>>) -> int
    decreases hashes.len(),
{
    if hashes.len() == 0 || lists_malicious(exact, hashes[0]) {
        0
    } else {
        1 + first_malicious(exact, hashes.skip(1))
    }
}

/// How alike a malicious entry is to a signature; none where it is not alike enough.
pub open spec fn entry_similarity(entry: FuzzyEntryView, signature: Seq<char>) -> nat {
    let score = similarity(signature, entry.signature);
    if entry.is_malicious && score >= FUZZY_MATCH_THRESHOLD {
        score
    } else {
        0
    }
}

/// The first of the malicious entries that are most alike to a signature, with how alike
/// it is.
pub open spec fn best_match(entries: Seq<FuzzyEntryView>, signature: Seq<char>) -> Option<
    (int, nat),
>
    decreases entries.len(),
{
    if entries.len() == 0 {
        None
    } else {
        let before = best_match(entries.drop_last(), signature);
        let score = entry_similarity(entries.last(), signature);
        let least = match before {
            Some((_, best)) => best,
            None => 0,
        };
        if score > least {
            Some((entries.len() - 1, score))
        } else {
            before
        }
    }
}

/// What some content is matched by: an exact hash that is listed as malicious, else the
/// malicious signature that is most alike.
pub open spec fn content_match(matcher: MatcherView, content: Seq<u8>) -> Option<MatchView> {
    let hashes = content_hashes(content);
    let at = first_malicious(matcher.exact, hashes);
    let signature = fuzzy_signature(content);
    if at < hashes.len() {
        Some(
            MatchView {
                label: matcher.label,
                hash: hashes[at],
                algorithm: "exact"@,
                similarity: 100,
                sources: matcher.exact[hashes[at]].1,
            },
        )
    } else {
        match best_match(matcher.fuzzy, signature) {
            Some((i, score)) => Some(
                MatchView {
                    label: matcher.fuzzy[i].label,
                    hash: signature,
                    algorithm: matcher.fuzzy[i].algorithm,
                    similarity: score as u8,
                    sources: matcher.fuzzy[i].sources,
                },
            ),
            None => None,
        }
    }
}

/// What a batch says of one file.
#[derive(Debug, Clone, Copy, PartialEq, Eq, Structural)]
pub enum BatchVerdict {
    Clean,
    Malicious,
    Unknown,
}

/// Some hash of the content is listed.
pub open spec fn is_listed(exact: Map<Seq<char>, ExactView>, hashes: Seq<Seq<char>>) -> bool {
    exists|i: int| 0 <= i < hashes.len() && exact.contains_key(#[trigger] hashes[i])
}

/// Content is malicious where anything matches it, clean where one of its hashes is listed
/// and none of them as malicious; a fuzzy signature never makes it clean.
pub open spec fn content_verdict(matcher: MatcherView, content: Seq<u8>) -> BatchVerdict {
    if content_match(matcher, content) is Some {
        BatchVerdict::Malicious
    } else if is_listed(matcher.exact, content_hashes(content)) {
        BatchVerdict::Clean
    } else {
        BatchVerdict::Unknown
    }
}

impl HashMatcher {
    /// A matcher with the given hashes, each with whether it is malicious.
    pub fn new(initial_hashes: Option<Vec<(String, bool)>>) -> (matcher: HashMatcher)
        ensures
            matcher@ == MatcherView::empty("hash"@).add_all(
                match initial_hashes {
                    Some(hashes) => pair_views(hashes@),
                    None => Seq::empty(),
                },
            ),
    {
        HashMatcher::new_with_label(initial_hashes, "hash".to_owned())
    }

    /// A matcher whose matches carry a label.
    pub fn new_with_label(initial_hashes: Option<Vec<(String, bool)>>, label: String) -> (matcher:
        HashMatcher)
        ensures
            matcher@ == MatcherView::empty(label@).add_all(
                match initial_hashes {
                    Some(hashes) => pair_views(hashes@),
                    None => Seq::empty(),
                },
            ),
    {
        let mut matcher = HashMatcher { hashes: new_map(), fuzzy_hashes: Vec::new(), label };
        assert(matcher@ =~= MatcherView::empty(label@));
        if let Some(hashes) = initial_hashes {
            matcher.load_hashes(hashes);
        }
        matcher
    }

    /// Adds an exact hash.
    fn insert_exact(&mut self, hash: String, is_malicious: bool, source: &str)
        ensures
            final(self)@ == old(self)@.add_exact(hash@, is_malicious, source@),
    {
        let known = match map_get(&self.hashes, hash.as_str()) {
            Some(entry) => entry,
            None => {
                let none: Vec<String> = Vec::new();
                assert(texts(none@) =~= Seq::empty());
                (false, none)
            },
        };
        let mut sources = known.1;
        merge_sources(&mut sources, source);
        map_insert(&mut self.hashes, hash, (known.0 || is_malicious, sources));
        assert(self@ =~= old(self)@.add_exact(hash@, is_malicious, source@));
    }

    /// Adds a fuzzy signature.
    fn insert_fuzzy(&mut self, signature: String, is_malicious: bool, source: &str)
        ensures
            final(self)@ == old(self)@.add_fuzzy(signature@, is_malicious, source@),
    {
        let mut sources: Vec<String> = Vec::new();
        sources.push(source.to_owned());
        assert(texts(sources@) =~= seq![source@]);
        let entry = FuzzyEntry {
            algorithm: fuzzy_algorithm_name(signature.as_str()),
            signature,
            is_malicious,
            label: self.label.clone(),
            sources,
        };
        merge_fuzzy_entry(&mut self.fuzzy_hashes, entry);
        assert(self@ =~= old(self)@.add_fuzzy(signature@, is_malicious, source@));
    }

    /// Adds hashes of either kind; what is neither an exact hash nor a fuzzy signature is
    /// skipped.
    pub fn load_hashes(&mut self, entries: Vec<(String, bool)>)
        ensures
            final(self)@ == old(self)@.add_all(pair_views(entries@)),
    {
        let ghost views = pair_views(entries@);
        let label = self.label.clone();
        let mut i: usize = 0;
        while i < entries.len()
            invariant
                i <= entries@.len(),
                views == pair_views(entries@),
                label@ == self@.label,
                self@ == old(self)@.add_all(views.take(i as int)),
            decreases entries@.len() - i,
        {
            assert(views.take(i + 1).drop_last() =~= views.take(i as int));
            let entry = &entries[i];
            assert(views.take(i + 1).last() == (entry.0@, entry.1));
            match normalize_hash(entry.0.as_str()) {
                Ok(hash) => {
                    self.insert_exact(hash, entry.1, label.as_str());
                },
                Err(_) => {
                    if let Ok(signature) = normalize_fuzzy_hash(entry.0.as_str()) {
                        self.insert_fuzzy(signature, entry.1, label.as_str());
                    }
                },
            }
            i = i + 1;
        }
        assert(views.take(i as int) =~= views);
    }

    /// Adds the rows of a database and returns how many of them hold a hash of their
    /// algorithm.
    pub fn load_records(&mut self, entries: Vec<HashDbEntry>) -> (loaded: usize)
        ensures
            final(self)@ == old(self)@.add_records(db_entries(entries@)),
            loaded == valid_records(db_entries(entries@)),
    {
        let ghost views = db_entries(entries@);
        let mut loaded: usize = 0;
        let mut i: usize = 0;
        while i < entries.len()
            invariant
                i <= entries@.len(),
                loaded <= i,
                views == db_entries(entries@),
                self@ == old(self)@.add_records(views.take(i as int)),
                loaded == valid_records(views.take(i as int)),
            decreases entries@.len() - i,
        {
            assert(views.take(i + 1).drop_last() =~= views.take(i as int));
            let entry = &entries[i];
            assert(views.take(i + 1).last() == entry@);
            if is_fuzzy_algorithm(entry.algorithm.as_str()) {
                if let Ok(signature) = normalize_fuzzy_hash(entry.hash.as_str()) {
                    self.insert_fuzzy(signature, entry.is_malicious, entry.source.as_str());
                    loaded = loaded + 1;
                }
            } else if let Ok(hash) = normalize_hash(entry.hash.as_str()) {
                self.insert_exact(hash, entry.is_malicious, entry.source.as_str());
                loaded = loaded + 1;
            }
            i = i + 1;
        }
        assert(views.take(i as int) =~= views);
        loaded
    }

    /// Adds fuzzy signatures and returns how many of the texts are one.
    pub fn load_fuzzy_hashes(&mut self, entries: Vec<(String, bool)>) -> (loaded: usize)
        ensures
            final(self)@ == old(self)@.add_signatures(pair_views(entries@)),
            loaded == valid_signatures(pair_views(entries@)),
    {
        let ghost views = pair_views(entries@);
        let label = self.label.clone();
        let mut loaded: usize = 0;
        let mut i: usize = 0;
        while i < entries.len()
            invariant
                i <= entries@.len(),
                loaded <= i,
                views == pair_views(entries@),
                label@ == old(self)@.label,
                self@ == old(self)@.add_signatures(views.take(i as int)),
                loaded == valid_signatures(views.take(i as int)),
            decreases entries@.len() - i,
        {
            assert(views.take(i + 1).drop_last() =~= views.take(i as int));
            let entry = &entries[i];
            assert(views.take(i + 1).last() == (entry.0@, entry.1));
            if let Ok(signature) = normalize_fuzzy_hash(entry.0.as_str()) {
                self.insert_fuzzy(signature, entry.1, label.as_str());
                loaded = loaded + 1;
            }
            i = i + 1;
        }
        assert(views.take(i as int) =~= views);
        loaded
    }

    /// Replaces all hashes by the rows of a database. A database without a valid hash
    /// replaces nothing.
    pub fn replace_records(&mut self, entries: Vec<HashDbEntry>) -> (r: Result<usize, HashError>)
        ensures
            match r {
                Ok(loaded) => {
                    &&& loaded == valid_records(db_entries(entries@))
                    &&& loaded > 0
                    &&& final(self)@ == MatcherView::empty(old(self)@.label).add_records(
                        db_entries(entries@),
                    )
                },
                Err(HashError::EmptyDatabase) => valid_records(db_entries(entries@)) == 0
                    && *final(self) == *old(self),
                Err(_) => false,
            },
    {
        let mut replacement = HashMatcher {
            hashes: new_map(),
            fuzzy_hashes: Vec::new(),
            label: self.label.clone(),
        };
        assert(replacement@ =~= MatcherView::empty(self@.label));
        let loaded: usize = replacement.load_records(entries);
        if loaded == 0 {
            return Err(HashError::EmptyDatabase);
        }
        *self = replacement;
        Ok(loaded)
    }

    /// The number of hashes of both kinds.
    pub fn entry_count(&self) -> (n: usize)
        requires
            self@.exact.len() + self@.fuzzy.len() <= usize::MAX,
        ensures
            n == self@.exact.len() + self@.fuzzy.len(),
    {
        map_len(&self.hashes) + self.fuzzy_hashes.len()
    }

    /// The first hash that is listed as malicious, with its sources.
    fn find_malicious(&self, hashes: &[String]) -> (found: Option<(usize, Vec<String>)>)
        ensures
            match found {
                Some((at, sources)) => at < hashes@.len() && at == first_malicious(
                    self@.exact,
                    texts(hashes@),
                ) && texts(sources@) == self@.exact[texts(hashes@)[at as int]].1,
                None => first_malicious(self@.exact, texts(hashes@)) == hashes@.len(),
            },
    {
        let ghost views = texts(hashes@);
        let mut i: usize = 0;
        assert(views.skip(0) =~= views);
        while i < hashes.len()
            invariant
                i <= hashes@.len(),
                views == texts(hashes@),
                first_malicious(self@.exact, views) == i + first_malicious(
                    self@.exact,
                    views.skip(i as int),
                ),
            decreases hashes@.len() - i,
        {
            assert(views.skip(i as int)[0] == hashes@[i as int]@);
            if let Some(entry) = map_get(&self.hashes, hashes[i].as_str()) {
                if entry.0 {
                    return Some((i, entry.1));
                }
            }
            assert(views.skip(i as int).skip(1) =~= views.skip(i + 1));
            i = i + 1;
        }
        None
    }

    /// The malicious signature that is most alike.
    fn find_alike(&self, signature: &str) -> (found: Option<(usize, u8)>)
        ensures
            match found {
                Some((at, score)) => at < self@.fuzzy.len() && best_match(
                    self@.fuzzy,
                    signature@,
                ) == Some((at as int, score as nat)),
                None => best_match(self@.fuzzy, signature@) is None,
            },
    {
        let ghost views = self@.fuzzy;
        let mut found: Option<(usize, u8)> = None;
        let mut i: usize = 0;
        while i < self.fuzzy_hashes.len()
            invariant
                i <= self.fuzzy_hashes@.len(),
                views == self@.fuzzy,
                match found {
                    Some((at, score)) => at < i && best_match(
                        views.take(i as int),
                        signature@,
                    ) == Some((at as int, score as nat)),
                    None => best_match(views.take(i as int), signature@) is None,
                },
            decreases self.fuzzy_hashes@.len() - i,
        {
            assert(views.take(i + 1).drop_last() =~= views.take(i as int));
            assert(views.take(i + 1).last() == self.fuzzy_hashes@[i as int]@);
            let entry = &self.fuzzy_hashes[i];
            if entry.is_malicious {
                let score: u8 = fuzzy_similarity(signature, entry.signature.as_str());
                if score >= FUZZY_MATCH_THRESHOLD {
                    let better = match found {
                        Some((_, best)) => score > best,
                        None => true,
                    };
                    if better {
                        found = Some((i, score));
                    }
                }
            }
            i = i + 1;
        }
        assert(views.take(i as int) =~= views);
        found
    }

    /// What the content of a file is matched by.
    pub fn match_file(&self, content: &[u8]) -> (found: Option<HashMatch>)
        requires
            content@.len() <= FUZZY_CONTENT_LIMIT,
        ensures
            match found {
                Some(m) => content_match(self@, content@) == Some(m@),
                None => content_match(self@, content@) is None,
            },
    {
        let hashes = compute_exact_hashes(content);
        if let Some((at, sources)) = self.find_malicious(&hashes) {
            assert(texts(hashes@)[at as int] == hashes@[at as int]@);
            let found = HashMatch {
                label: self.label.clone(),
                hash: hashes[at].clone(),
                algorithm: "exact".to_owned(),
                similarity: 100,
                sources,
            };
            assert(found@ =~= content_match(self@, content@)->0);
            return Some(found);
        }
        if self.fuzzy_hashes.len() == 0 {
            assert(self@.fuzzy.len() == 0);
            return None;
        }
        let signature = ssdeep_hash_bytes(content);
        match self.find_alike(signature.as_str()) {
            Some((at, similarity)) => {
                let entry = &self.fuzzy_hashes[at];
                assert(self@.fuzzy[at as int] == entry@);
                let found = HashMatch {
                    label: entry.label.clone(),
                    hash: signature,
                    algorithm: entry.algorithm.clone(),
                    similarity,
                    sources: copy_texts(&entry.sources),
                };
                assert(found@ =~= content_match(self@, content@)->0);
                Some(found)
            },
            None => None,
        }
    }

    /// Some hash is listed.
    fn lists_any(&self, hashes: &[String]) -> (b: bool)
        ensures
            b == is_listed(self@.exact, texts(hashes@)),
    {
        let mut i: usize = 0;
        while i < hashes.len()
            invariant
                i <= hashes@.len(),
                forall|k: int|
                    0 <= k < i ==> !self@.exact.contains_key(#[trigger] texts(hashes@)[k]),
            decreases hashes@.len() - i,
        {
            assert(texts(hashes@)[i as int] == hashes@[i as int]@);
            if map_get(&self.hashes, hashes[i].as_str()).is_some() {
                return true;
            }
            i = i + 1;
        }
        false
    }

    /// What a batch says of the content of a file.
    pub fn classify_content(&self, content: &[u8]) -> (v: BatchVerdict)
        requires
            content@.len() <= FUZZY_CONTENT_LIMIT,
        ensures
            v == content_verdict(self@, content@),
    {
        if self.match_file(content).is_some() {
            return BatchVerdict::Malicious;
        }
        let hashes = compute_exact_hashes(content);
        if self.lists_any(&hashes) {
            BatchVerdict::Clean
        } else {
            BatchVerdict::Unknown
        }
    }

    /// Sorts files by what is said of each. A file that could not be read is unknown.
    pub fn match_batch(&self, files: Vec<(String, Option<Vec<u8>>)>) -> (r: HashBatchResult)
        requires
            forall|i: int|
                0 <= i < files@.len() && (#[trigger] files@[i]).1 is Some
                    ==> files@[i].1->0@.len() <= FUZZY_CONTENT_LIMIT,
        ensures
            texts(r.clean@) == files_with(self@, files@, BatchVerdict::Clean),
            texts(r.malicious@) == files_with(self@, files@, BatchVerdict::Malicious),
            texts(r.unknown@) == files_with(self@, files@, BatchVerdict::Unknown),
    {
        let mut verdicts: Vec<(String, BatchVerdict)> = Vec::new();
        let mut i: usize = 0;
        while i < files.len()
            invariant
                i <= files@.len(),
                forall|k: int|
                    0 <= k < files@.len() && (#[trigger] files@[k]).1 is Some
                        ==> files@[k].1->0@.len() <= FUZZY_CONTENT_LIMIT,
                verdicts@.len() == i,
                forall|v: BatchVerdict| #[trigger]
                    paths_with(verdicts@, v) == files_with(self@, files@.take(i as int), v),
            decreases files@.len() - i,
        {
            assert(files@.take(i + 1).drop_last() =~= files@.take(i as int));
            assert(files@.take(i + 1).last() == files@[i as int]);
            let file = &files[i];
            let path = file.0.clone();
            let verdict = match &file.1 {
                Some(content) => self.classify_content(content),
                None => BatchVerdict::Unknown,
            };
            let ghost before = verdicts@;
            verdicts.push((path, verdict));
            assert(verdicts@.drop_last() =~= before);
            assert forall|v: BatchVerdict| #[trigger]
                paths_with(verdicts@, v) == files_with(self@, files@.take(i + 1), v) by {
                assert(paths_with(before, v) == files_with(self@, files@.take(i as int), v));
            }
            i = i + 1;
        }
        assert(files@.take(i as int) =~= files@);
        sort_verdicts(&verdicts)
    }
}

/// The files of which a verdict is said, in order.
pub open spec fn paths_with(
    verdicts: Seq<(String, BatchVerdict)>,
    verdict: BatchVerdict,
) -> Seq<Seq<char>>
    decreases verdicts.len(),
{
    if verdicts.len() == 0 {
        Seq::empty()
    } else {
        let before = paths_with(verdicts.drop_last(), verdict);
        if verdicts.last().1 == verdict {
            before.push(verdicts.last().0@)
        } else {
            before
        }
    }
}

/// Sorts files by the verdict on each.
pub fn sort_verdicts(verdicts: &[(String, BatchVerdict)]) -> (r: HashBatchResult)
    ensures
        texts(r.clean@) == paths_with(verdicts@, BatchVerdict::Clean),
        texts(r.malicious@) == paths_with(verdicts@, BatchVerdict::Malicious),
        texts(r.unknown@) == paths_with(verdicts@, BatchVerdict::Unknown),
{
    let mut clean: Vec<String> = Vec::new();
    let mut malicious: Vec<String> = Vec::new();
    let mut unknown: Vec<String> = Vec::new();
    let mut i: usize = 0;
    assert(texts(clean@) =~= Seq::empty());
    assert(texts(malicious@) =~= Seq::empty());
    assert(texts(unknown@) =~= Seq::empty());
    while i < verdicts.len()
        invariant
            i <= verdicts@.len(),
            texts(clean@) == paths_with(verdicts@.take(i as int), BatchVerdict::Clean),
            texts(malicious@) == paths_with(verdicts@.take(i as int), BatchVerdict::Malicious),
            texts(unknown@) == paths_with(verdicts@.take(i as int), BatchVerdict::Unknown),
        decreases verdicts@.len() - i,
    {
        assert(verdicts@.take(i + 1).drop_last() =~= verdicts@.take(i as int));
        assert(verdicts@.take(i + 1).last() == verdicts@[i as int]);
        let path = verdicts[i].0.clone();
        match verdicts[i].1 {
            BatchVerdict::Clean => push_text(&mut clean, path),
            BatchVerdict::Malicious => push_text(&mut malicious, path),
            BatchVerdict::Unknown => push_text(&mut unknown, path),
        }
        i = i + 1;
    }
    assert(verdicts@.take(i as int) =~= verdicts@);
    HashBatchResult { clean, malicious, unknown }
}

/// The files of a batch by what is said of them.
#[derive(Debug)]
pub struct HashBatchResult {
    pub clean: Vec<String>,
    pub malicious: Vec<String>,
    pub unknown: Vec<String>,
}

/// What is said of a file; one that could not be read is unknown.
pub open spec fn file_verdict(matcher: MatcherView, content: Option<Vec<u8>>) -> BatchVerdict {
    match content {
        Some(bytes) => content_verdict(matcher, bytes@),
        None => BatchVerdict::Unknown,
    }
}

/// The files of which a verdict is said, in order.
pub open spec fn files_with(
    matcher: MatcherView,
    files: Seq<(String, Option<Vec<u8>>)>,
    verdict: BatchVerdict,
) -> Seq<Seq<char>>
    decreases files.len(),
{
    if files.len() == 0 {
        Seq::empty()
    } else {
        let before = files_with(matcher, files.drop_last(), verdict);
        if file_verdict(matcher, files.last().1) == verdict {
            before.push(files.last().0@)
        } else {
            before
        }
    }
}

proof fn lemma_first_malicious(exact: Map<Seq<char>, ExactView>, hashes: Seq<Seq<char>>)
    ensures
        0 <= first_malicious(exact, hashes) <= hashes.len(),
        first_malicious(exact, hashes) < hashes.len() ==> lists_malicious(
            exact,
            hashes[first_malicious(exact, hashes)],
        ),
        forall|k: int|
            0 <= k < first_malicious(exact, hashes) ==> !lists_malicious(
                exact,
                #[trigger] hashes[k],
            ),
    decreases hashes.len(),
{
    if hashes.len() > 0 && !lists_malicious(exact, hashes[0]) {
        lemma_first_malicious(exact, hashes.skip(1));
        assert forall|k: int| 0 <= k < first_malicious(exact, hashes) implies !lists_malicious(
            exact,
            #[trigger] hashes[k],
        ) by {
            if k > 0 {
                assert(hashes.skip(1)[k - 1] == hashes[k]);
            }
        }
    }
}

proof fn lemma_best_match(entries: Seq<FuzzyEntryView>, signature: Seq<char>)
    ensures
        best_match(entries, signature) matches Some((i, score)) ==> 0 <= i < entries.len()
            && entries[i].is_malicious && score == similarity(signature, entries[i].signature)
            && score >= FUZZY_MATCH_THRESHOLD,
        forall|k: int|
            0 <= k < entries.len() ==> (best_match(entries, signature) matches Some((i, score)) ==>
                entry_similarity(#[trigger] entries[k], signature) <= score),
        best_match(entries, signature) is None ==> forall|k: int|
            0 <= k < entries.len() ==> entry_similarity(#[trigger] entries[k], signature) == 0,
    decreases entries.len(),
{
    if entries.len() > 0 {
        let front = entries.drop_last();
        lemma_best_match(front, signature);
        assert forall|k: int| 0 <= k < entries.len() implies (best_match(
            entries,
            signature,
        ) matches Some((i, score)) ==> entry_similarity(#[trigger] entries[k], signature)
            <= score) by {
            if k < front.len() {
                assert(front[k] == entries[k]);
            }
        }
        assert(best_match(entries, signature) is None ==> forall|k: int|
            0 <= k < front.len() ==> front[k] == entries[k]);
    }
}

proof fn lemma_fuzzy_position(
    entries: Seq<FuzzyEntryView>,
    algorithm: Seq<char>,
    signature: Seq<char>,
)
    ensures
        0 <= fuzzy_position(entries, algorithm, signature) <= entries.len(),
    decreases entries.len(),
{
    if entries.len() > 0 {
        lemma_fuzzy_position(entries.skip(1), algorithm, signature);
    }
}

/// A row of a database is where an exact hash comes from.
pub open spec fn row_gives_exact(entries: Seq<DbEntryView>, hash: Seq<char>) -> bool {
    exists|i: int|
        0 <= i < entries.len() && !names_fuzzy((#[trigger] entries[i]).algorithm)
            && normalized_hash(entries[i].hash) == Some(hash)
}

/// A row of a database is where a signature comes from.
pub open spec fn row_gives_fuzzy(entries: Seq<DbEntryView>, signature: Seq<char>) -> bool {
    exists|i: int|
        0 <= i < entries.len() && names_fuzzy((#[trigger] entries[i]).algorithm)
            && normalized_fuzzy(entries[i].hash) == Some(signature)
}

/// A matcher that was filled from a database alone holds what the database gives and nothing
/// else: something if a row is valid, and never more than there are valid rows.
pub proof fn law_database_gives_all_entries(label: Seq<char>, entries: Seq<DbEntryView>)
    ensures
        ({
            let filled = MatcherView::empty(label).add_records(entries);
            let count = filled.exact.len() + filled.fuzzy.len();
            &&& filled.exact.dom().finite()
            &&& count <= valid_records(entries)
            &&& valid_records(entries) > 0 ==> count > 0
            &&& forall|hash: Seq<char>| #[trigger]
                filled.exact.contains_key(hash) ==> row_gives_exact(entries, hash)
            &&& forall|k: int|
                0 <= k < filled.fuzzy.len() ==> row_gives_fuzzy(
                    entries,
                    (#[trigger] filled.fuzzy[k]).signature,
                )
        }),
    decreases entries.len(),
{
    let filled = MatcherView::empty(label).add_records(entries);
    if entries.len() > 0 {
        let front = entries.drop_last();
        let row = entries.last();
        let before = MatcherView::empty(label).add_records(front);
        law_database_gives_all_entries(label, front);
        assert(row == entries[entries.len() - 1]);
        assert forall|hash: Seq<char>| row_gives_exact(front, hash) implies row_gives_exact(
            entries,
            hash,
        ) by {
            let i = choose|i: int|
                0 <= i < front.len() && !names_fuzzy((#[trigger] front[i]).algorithm)
                    && normalized_hash(front[i].hash) == Some(hash);
            assert(entries[i] == front[i]);
        }
        assert forall|text: Seq<char>| row_gives_fuzzy(front, text) implies row_gives_fuzzy(
            entries,
            text,
        ) by {
            let i = choose|i: int|
                0 <= i < front.len() && names_fuzzy((#[trigger] front[i]).algorithm)
                    && normalized_fuzzy(front[i].hash) == Some(text);
            assert(entries[i] == front[i]);
        }
        if names_fuzzy(row.algorithm) {
            if let Some(signature) = normalized_fuzzy(row.hash) {
                lemma_fuzzy_position(before.fuzzy, fuzzy_name(signature), signature);
                assert(names_fuzzy(entries[entries.len() - 1].algorithm));
                assert(row_gives_fuzzy(entries, signature));
                assert(filled == before.add_fuzzy(signature, row.is_malicious, row.source));
            } else {
                assert(filled == before);
            }
        } else {
            if let Some(hash) = normalized_hash(row.hash) {
                assert(!names_fuzzy(entries[entries.len() - 1].algorithm));
                assert(row_gives_exact(entries, hash));
                assert(filled == before.add_exact(hash, row.is_malicious, row.source));
                assert(filled.exact.dom() =~= before.exact.dom().insert(hash));
            } else {
                assert(filled == before);
            }
        }
        assert forall|hash: Seq<char>| #[trigger]
            filled.exact.contains_key(hash) implies row_gives_exact(entries, hash) by {
            if before.exact.contains_key(hash) {
                assert(row_gives_exact(front, hash));
            }
        }
        assert forall|k: int| 0 <= k < filled.fuzzy.len() implies row_gives_fuzzy(
            entries,
            (#[trigger] filled.fuzzy[k]).signature,
        ) by {
            if k < before.fuzzy.len() {
                assert(filled.fuzzy[k].signature == before.fuzzy[k].signature);
                assert(row_gives_fuzzy(front, before.fuzzy[k].signature));
            }
        }
    }
}

/// A fuzzy signature never makes content clean: without a listed exact hash it is either
/// malicious or unknown.
pub proof fn law_fuzzy_never_clears(matcher: MatcherView, content: Seq<u8>)
    requires
        !is_listed(matcher.exact, content_hashes(content)),
    ensures
        content_verdict(matcher, content) != BatchVerdict::Clean,
{
}

/// Content that a hash lists as malicious is malicious, whatever else is listed.
pub proof fn law_listed_malicious_is_found(matcher: MatcherView, content: Seq<u8>, i: int)
    requires
        0 <= i < 4,
        lists_malicious(matcher.exact, content_hashes(content)[i]),
    ensures
        content_match(matcher, content) is Some,
        content_match(matcher, content)->0.similarity == 100,
        content_verdict(matcher, content) == BatchVerdict::Malicious,
{
    lemma_first_malicious(matcher.exact, content_hashes(content));
}

/// What is matched by a signature is matched by a malicious one that is alike enough, and
/// none is more alike.
pub proof fn law_best_match_is_best(
    entries: Seq<FuzzyEntryView>,
    signature: Seq<char>,
    k: int,
)
    requires
        0 <= k < entries.len(),
        entries[k].is_malicious,
        similarity(signature, entries[k].signature) >= FUZZY_MATCH_THRESHOLD,
    ensures
        best_match(entries, signature) matches Some((i, score)) && 0 <= i < entries.len()
            && entries[i].is_malicious && score >= similarity(signature, entries[k].signature),
{
    lemma_best_match(entries, signature);
    assert(entry_similarity(entries[k], signature) == similarity(signature, entries[k].signature));
}

/// A hash stays malicious whatever is added after it.
pub proof fn law_malicious_stays(
    exact: Map<Seq<char>, ExactView>,
    hash: Seq<char>,
    other: Seq<char>,
    is_malicious: bool,
    source: Seq<char>,
)
    requires
        lists_malicious(exact, hash),
    ensures
        lists_malicious(with_exact(exact, other, is_malicious, source), hash),
{
}

/// The sources of a hash are distinct, however many rows list it.
pub proof fn law_sources_are_distinct(sources: Seq<Seq<char>>, source: Seq<char>)
    requires
        sources.no_duplicates(),
    ensures
        with_source(sources, source).no_duplicates(),
{
    let more = with_source(sources, source);
    assert forall|i: int, j: int| 0 <= i < more.len() && 0 <= j < more.len() && i != j implies more[i]
        != more[j] by {
        if more.len() > sources.len() {
            if i == sources.len() {
                assert(sources.contains(sources[j]));
            } else if j == sources.len() {
                assert(sources.contains(sources[i]));
            }
        }
    }
}

} // verus!
