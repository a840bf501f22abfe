//! A bounded store of scan evidence, least recently used entries leaving first.

use crate::clock::now_nanos;
use crate::digest::{sha256, sha256_of};
use crate::text::{copy_texts, same_text, texts};
use vstd::prelude::*;

verus! {

/// Layer switches and versions that the meaning of stored evidence depends on.
#[derive(Debug, Clone, Copy, PartialEq, Eq, Structural)]
pub struct ScanContext {
    pub yara_enabled: bool,
    pub heuristic_enabled: bool,
    pub ai_enabled: bool,
    pub sandbox_enabled: bool,
    pub ai_threshold_bits: u32,
    pub sandbox_timeout_ms: u64,
    /// The versions of the evidence-producing layers: a reloaded rule set or model must
    /// not reuse what an earlier one said.
    pub rules_version: u64,
    pub yara_version: u64,
    pub ai_model_version: u64,
    pub sandbox_policy_version: u64,
}

impl ScanContext {
    pub open spec fn plain() -> ScanContext {
        ScanContext {
            yara_enabled: false,
            heuristic_enabled: false,
            ai_enabled: false,
            sandbox_enabled: false,
            ai_threshold_bits: 0,
            sandbox_timeout_ms: 0,
            rules_version: 0,
            yara_version: 0,
            ai_model_version: 0,
            sandbox_policy_version: 0,
        }
    }
}

impl Default for ScanContext {
    fn default() -> (context: ScanContext)
        ensures
            context == ScanContext::plain(),
    {
        ScanContext {
            yara_enabled: false,
            heuristic_enabled: false,
            ai_enabled: false,
            sandbox_enabled: false,
            ai_threshold_bits: 0,
            sandbox_timeout_ms: 0,
            rules_version: 0,
            yara_version: 0,
            ai_model_version: 0,
            sandbox_policy_version: 0,
        }
    }
}

/// What the layers said of one file. Scores are carried by the bits of their
/// single-precision form.
#[derive(Debug)]
pub struct ScanResult {
    pub path: String,
    pub malicious: bool,
    pub summary: String,
    pub context: ScanContext,
    pub heuristic_score: Option<u32>,
    pub ai_score: Option<u32>,
    /// Model, weight and score of each part of the ensemble.
    pub ai_components: Vec<(String, u32, u32)>,
    pub yara_matches: Vec<String>,
    pub behavior_score: Option<u32>,
    pub sequence_matches: Option<Vec<String>>,
}

#[verifier::ext_equal]
pub struct ResultView {
    pub path: Seq<char>,
    pub malicious: bool,
    pub summary: Seq<char>,
    pub context: ScanContext,
    pub heuristic_score: Option<u32>,
    pub ai_score: Option<u32>,
    pub ai_components: Seq<(Seq<char>, u32, u32)>,
    pub yara_matches: Seq<Seq<char>>,
    pub behavior_score: Option<u32>,
    pub sequence_matches: Option<Seq<Seq<char>>>,
}

pub open spec fn component_views(parts: Seq<(String, u32, u32)>) -> Seq<(Seq<char>, u32, u32)> {
    parts.map_values(|p: (String, u32, u32)| (p.0@, p.1, p.2))
}

impl View for ScanResult {
    type V = ResultView;

    open spec fn view(&self) -> ResultView {
        ResultView {
            path: self.path@,
            malicious: self.malicious,
            summary: self.summary@,
            context: self.context,
            heuristic_score: self.heuristic_score,
            ai_score: self.ai_score,
            ai_components: component_views(self.ai_components@),
            yara_matches: texts(self.yara_matches@),
            behavior_score: self.behavior_score,
            sequence_matches: match self.sequence_matches {
                Some(matches) => Some(texts(matches@)),
                None => None,
            },
        }
    }
}

impl ScanResult {
    /// A copy of the result.
    pub fn duplicate(&self) -> (copy: ScanResult)
        ensures
            copy@ == self@,
    {
        let mut ai_components: Vec<(String, u32, u32)> = Vec::new();
        let mut i: usize = 0;
        assert(component_views(ai_components@) =~= component_views(self.ai_components@).take(0));
        while i < self.ai_components.len()
            invariant
                i <= self.ai_components@.len(),
                component_views(ai_components@) == component_views(self.ai_components@).take(
                    i as int,
                ),
            decreases self.ai_components@.len() - i,
        {
            let part = &self.ai_components[i];
            let ghost before = component_views(ai_components@);
            ai_components.push((part.0.clone(), part.1, part.2));
            assert(component_views(ai_components@) =~= before.push((part.0@, part.1, part.2)));
            assert(component_views(self.ai_components@).take(i + 1) =~= component_views(
                self.ai_components@,
            ).take(i as int).push((part.0@, part.1, part.2)));
            i = i + 1;
        }
        assert(component_views(self.ai_components@).take(i as int) =~= component_views(
            self.ai_components@,
        ));
        ScanResult {
            path: self.path.clone(),
            malicious: self.malicious,
            summary: self.summary.clone(),
            context: self.context,
            heuristic_score: self.heuristic_score,
            ai_score: self.ai_score,
            ai_components,
            yara_matches: copy_texts(&self.yara_matches),
            behavior_score: self.behavior_score,
            sequence_matches: match &self.sequence_matches {
                Some(matches) => Some(copy_texts(matches)),
                None => None,
            },
        }
    }
}

/// What tells one state of a file from another. A path alone does not: an executable can
/// be replaced under the same name.
#[derive(Debug, Clone, Copy)]
pub struct FileFingerprint {
    /// Nanoseconds from the Unix epoch to the last change, where the file system has it.
    pub modified: Option<i128>,
    pub size: u64,
    pub content_hash: Option<[u8; 32]>,
}

fn same_hash(a: &[u8; 32], b: &[u8; 32]) -> (same: bool)
    ensures
        same == (a == b),
{
    let mut i: usize = 0;
    while i < 32
        invariant
            i <= 32,
            forall|k: int| 0 <= k < i ==> a@[k] == b@[k],
        decreases 32 - i,
    {
        if a[i] != b[i] {
            assert(a@[i as int] != b@[i as int]);
            return false;
        }
        i = i + 1;
    }
    assert(a@ =~= b@);
    assert(a =~= b);
    true
}

fn same_time(a: Option<i128>, b: Option<i128>) -> (same: bool)
    ensures
        same == (a == b),
{
    match (a, b) {
        (None, None) => true,
        (Some(x), Some(y)) => x == y,
        _ => false,
    }
}

impl FileFingerprint {
    /// Size and time of the last change agree.
    pub open spec fn agrees(self, other: FileFingerprint) -> bool {
        self.modified == other.modified && self.size == other.size
    }

    /// The fingerprint that a file's metadata gives.
    pub fn from_metadata(modified: Option<i128>, size: u64) -> (f: FileFingerprint)
        ensures
            f.modified == modified,
            f.size == size,
            f.content_hash is None,
    {
        FileFingerprint { modified, size, content_hash: None }
    }

    /// The fingerprint of a file whose content was read between two looks at its
    /// metadata, if the two agree: a file that changed while it was read has none.
    pub fn from_content(before: FileFingerprint, after: FileFingerprint, content: &[u8]) -> (f:
        Option<FileFingerprint>)
        ensures
            match f {
                Some(found) => {
                    &&& before.agrees(after)
                    &&& found.agrees(after)
                    &&& found.content_hash is Some
                    &&& found.content_hash->0@ == sha256_of(content@)
                },
                None => !before.agrees(after),
            },
    {
        if !before.same_metadata(after) {
            return None;
        }
        let digest = sha256(content);
        let mut hash: [u8; 32] = [0; 32];
        let mut i: usize = 0;
        while i < 32
            invariant
                i <= 32,
                digest@.len() == 32,
                forall|k: int| 0 <= k < i ==> hash@[k] == digest@[k],
            decreases 32 - i,
        {
            hash[i] = digest[i];
            i = i + 1;
        }
        assert(hash@ =~= digest@);
        Some(
            FileFingerprint {
                modified: after.modified,
                size: after.size,
                content_hash: Some(hash),
            },
        )
    }

    pub fn same_metadata(&self, other: FileFingerprint) -> (same: bool)
        ensures
            same == self.agrees(other),
    {
        same_time(self.modified, other.modified) && self.size == other.size
    }

    /// The fingerprints are equal.
    pub fn same(&self, other: &FileFingerprint) -> (same: bool)
        ensures
            same == (*self == *other),
    {
        if !self.same_metadata(*other) {
            return false;
        }
        match (&self.content_hash, &other.content_hash) {
            (None, None) => true,
            (Some(a), Some(b)) => same_hash(a, b),
            _ => false,
        }
    }
}

/// A stored result.
#[derive(Debug)]
pub struct CacheEntry {
    /// When the entry was last used, and which use of the cache that was.
    pub time: u128,
    pub count: u64,
    pub result: ScanResult,
    pub fingerprint: Option<FileFingerprint>,
    pub generation: u64,
    pub policy_epoch: u64,
    pub decision_generation: u64,
}

#[verifier::ext_equal]
pub struct EntryView {
    pub time: u128,
    pub count: u64,
    pub result: ResultView,
    pub fingerprint: Option<FileFingerprint>,
    pub generation: u64,
    pub policy_epoch: u64,
    pub decision_generation: u64,
}

impl View for CacheEntry {
    type V = EntryView;

    open spec fn view(&self) -> EntryView {
        EntryView {
            time: self.time,
            count: self.count,
            result: self.result@,
            fingerprint: self.fingerprint,
            generation: self.generation,
            policy_epoch: self.policy_epoch,
            decision_generation: self.decision_generation,
        }
    }
}

pub open spec fn entry_views(entries: Seq<CacheEntry>) -> Seq<EntryView> {
    entries.map_values(|e: CacheEntry| e@)
}

/// The entry was used after `time` and `count`.
pub open spec fn used_after(entry: EntryView, time: u128, count: u64) -> bool {
    time < entry.time || (time == entry.time && count < entry.count)
}

/// The position of the entry of a path, or the number of entries.
pub open spec fn position(entries: Seq<EntryView>, path: Seq<char>) -> int
    decreases entries.len(),
{
    if entries.len() == 0 || entries[0].result.path == path {
        0
    } else {
        1 + position(entries.skip(1), path)
    }
}

pub open spec fn holds_path(entries: Seq<EntryView>, path: Seq<char>) -> bool {
    position(entries, path) < entries.len()
}

/// The entries without that of a path.
pub open spec fn without_path(entries: Seq<EntryView>, path: Seq<char>) -> Seq<EntryView> {
    if holds_path(entries, path) {
        entries.remove(position(entries, path))
    } else {
        entries
    }
}

/// Where an entry of the given use stands: behind those that were not used after it.
pub open spec fn place(entries: Seq<EntryView>, time: u128, count: u64) -> int
    decreases entries.len(),
{
    if entries.len() > 0 && used_after(entries.last(), time, count) {
        place(entries.drop_last(), time, count)
    } else {
        entries.len() as int
    }
}

/// The entries with one more in its place.
pub open spec fn with_entry(entries: Seq<EntryView>, entry: EntryView) -> Seq<EntryView> {
    entries.insert(place(entries, entry.time, entry.count), entry)
}

/// The entry as of a new use.
pub open spec fn reused(entry: EntryView, time: u128, count: u64) -> EntryView {
    EntryView { time, count, ..entry }
}

/// Results by path, the least recently used first.
#[derive(Debug)]
pub struct ScanCache {
    pub entries: Vec<CacheEntry>,
    pub max_size: usize,
    pub counter: u64,
    pub generation: u64,
    pub decision_generation: u64,
}

#[verifier::ext_equal]
pub struct CacheView {
    pub entries: Seq<EntryView>,
    pub max_size: usize,
    pub counter: u64,
    pub generation: u64,
    pub decision_generation: u64,
}

impl View for ScanCache {
    type V = CacheView;

    open spec fn view(&self) -> CacheView {
        CacheView {
            entries: entry_views(self.entries@),
            max_size: self.max_size,
            counter: self.counter,
            generation: self.generation,
            decision_generation: self.decision_generation,
        }
    }
}

/// No two entries are of one path.
pub open spec fn distinct_paths(entries: Seq<EntryView>) -> bool {
    forall|i: int, j: int|
        0 <= i < j < entries.len() ==> (#[trigger] entries[i]).result.path != (
        #[trigger] entries[j]).result.path
}

/// No entry stands before one that was used earlier.
pub open spec fn in_order(entries: Seq<EntryView>) -> bool {
    forall|i: int, j: int|
        0 <= i < j < entries.len() ==> !used_after(
            #[trigger] entries[i],
            (#[trigger] entries[j]).time,
            entries[j].count,
        )
}

impl CacheView {
    /// One entry to a path, in order of use, and no more than the cache may hold.
    pub open spec fn valid(self) -> bool {
        &&& distinct_paths(self.entries)
        &&& in_order(self.entries)
        &&& 1 <= self.max_size
        &&& self.entries.len() <= self.max_size
    }

    /// The entry of a path.
    pub open spec fn entry(self, path: Seq<char>) -> EntryView {
        self.entries[position(self.entries, path)]
    }

    /// An entry of the path was stored under the current generations.
    pub open spec fn is_current(self, path: Seq<char>) -> bool {
        &&& holds_path(self.entries, path)
        &&& self.entry(path).generation == self.generation
        &&& self.entry(path).decision_generation == self.decision_generation
    }

    /// An entry of the path was stored for the same file under the same generation,
    /// policy and, where one is expected, context.
    pub open spec fn is_evidence(
        self,
        path: Seq<char>,
        fingerprint: FileFingerprint,
        policy_epoch: u64,
        expected: Option<ScanContext>,
    ) -> bool {
        &&& holds_path(self.entries, path)
        &&& self.entry(path).generation == self.generation
        &&& self.entry(path).policy_epoch == policy_epoch
        &&& self.entry(path).fingerprint == Some(fingerprint)
        &&& expected matches Some(context) ==> self.entry(path).result.context == context
    }

    pub open spec fn with_entries(self, entries: Seq<EntryView>) -> CacheView {
        CacheView { entries, ..self }
    }

    /// The entry of the path is gone.
    pub open spec fn forgotten(self, path: Seq<char>) -> CacheView {
        self.with_entries(without_path(self.entries, path))
    }

    /// The entry of the path has been used at `now`.
    pub open spec fn touched(self, path: Seq<char>, now: u128) -> CacheView {
        CacheView {
            entries: with_entry(
                without_path(self.entries, path),
                reused(self.entry(path), now, self.counter),
            ),
            counter: self.counter.wrapping_add(1),
            ..self
        }
    }

    /// A result has been stored at `now`; where that makes one entry too many, the least
    /// recently used one is gone.
    pub open spec fn stored(
        self,
        result: ResultView,
        fingerprint: Option<FileFingerprint>,
        policy_epoch: u64,
        now: u128,
    ) -> CacheView {
        let entry = EntryView {
            time: now,
            count: self.counter,
            result,
            fingerprint,
            generation: self.generation,
            policy_epoch,
            decision_generation: self.decision_generation,
        };
        let entries = with_entry(without_path(self.entries, result.path), entry);
        CacheView {
            entries: if entries.len() > self.max_size {
                entries.skip(1)
            } else {
                entries
            },
            counter: self.counter.wrapping_add(1),
            ..self
        }
    }
}

pub proof fn lemma_position(entries: Seq<EntryView>, path: Seq<char>)
    ensures
        0 <= position(entries, path) <= entries.len(),
        holds_path(entries, path) ==> entries[position(entries, path)].result.path == path,
        forall|k: int|
            0 <= k < position(entries, path) ==> (#[trigger] entries[k]).result.path != path,
    decreases entries.len(),
{
    if entries.len() > 0 && entries[0].result.path != path {
        lemma_position(entries.skip(1), path);
        assert forall|k: int| 0 <= k < position(entries, path) implies (
        #[trigger] entries[k]).result.path != path by {
            if k > 0 {
                assert(entries.skip(1)[k - 1] == entries[k]);
            }
        }
    }
}

/// The first entry of a path is the one at its position.
pub proof fn lemma_position_is(entries: Seq<EntryView>, path: Seq<char>, i: int)
    requires
        0 <= i <= entries.len(),
        i < entries.len() ==> entries[i].result.path == path,
        forall|k: int| 0 <= k < i ==> (#[trigger] entries[k]).result.path != path,
    ensures
        position(entries, path) == i,
{
    lemma_position(entries, path);
    let found = position(entries, path);
    if found < i {
        assert(entries[found].result.path != path);
    }
    if found > i {
        assert(entries[i].result.path != path);
    }
}

pub proof fn lemma_without_path(entries: Seq<EntryView>, path: Seq<char>)
    requires
        distinct_paths(entries),
        in_order(entries),
    ensures
        distinct_paths(without_path(entries, path)),
        in_order(without_path(entries, path)),
        forall|k: int|
            0 <= k < without_path(entries, path).len() ==> (#[trigger] without_path(
                entries,
                path,
            )[k]).result.path != path,
        without_path(entries, path).len() == entries.len() - if holds_path(entries, path) {
            1int
        } else {
            0int
        },
{
    lemma_position(entries, path);
    let at = position(entries, path);
    let rest = without_path(entries, path);
    if holds_path(entries, path) {
        assert forall|k: int| 0 <= k < rest.len() implies (#[trigger] rest[k]).result.path
            != path by {
            let from = if k < at {
                k
            } else {
                k + 1
            };
            assert(rest[k] == entries[from]);
            if from > at {
                assert(entries[at].result.path != entries[from].result.path);
            }
        }
        assert forall|i: int, j: int| 0 <= i < j < rest.len() implies (#[trigger] rest[i]).result.path
            != (#[trigger] rest[j]).result.path && !used_after(
            rest[i],
            rest[j].time,
            rest[j].count,
        ) by {
            let from_i = if i < at {
                i
            } else {
                i + 1
            };
            let from_j = if j < at {
                j
            } else {
                j + 1
            };
            assert(rest[i] == entries[from_i] && rest[j] == entries[from_j]);
        }
    }
}

pub proof fn lemma_place(entries: Seq<EntryView>, time: u128, count: u64)
    requires
        in_order(entries),
    ensures
        0 <= place(entries, time, count) <= entries.len(),
        forall|k: int|
            0 <= k < place(entries, time, count) ==> !used_after(
                #[trigger] entries[k],
                time,
                count,
            ),
        forall|k: int|
            place(entries, time, count) <= k < entries.len() ==> used_after(
                #[trigger] entries[k],
                time,
                count,
            ),
    decreases entries.len(),
{
    if entries.len() > 0 && used_after(entries.last(), time, count) {
        let front = entries.drop_last();
        assert forall|i: int, j: int| 0 <= i < j < front.len() implies !used_after(
            #[trigger] front[i],
            (#[trigger] front[j]).time,
            front[j].count,
        ) by {
            assert(front[i] == entries[i] && front[j] == entries[j]);
        }
        lemma_place(front, time, count);
        assert forall|k: int| 0 <= k < place(entries, time, count) implies !used_after(
            #[trigger] entries[k],
            time,
            count,
        ) by {
            assert(front[k] == entries[k]);
        }
        assert forall|k: int| place(entries, time, count) <= k < entries.len() implies used_after(
            #[trigger] entries[k],
            time,
            count,
        ) by {
            if k < front.len() {
                assert(front[k] == entries[k]);
            }
        }
    } else if entries.len() > 0 {
        assert forall|k: int| 0 <= k < entries.len() implies !used_after(
            #[trigger] entries[k],
            time,
            count,
        ) by {
            if k < entries.len() - 1 {
                assert(!used_after(entries[k], entries.last().time, entries.last().count));
            }
        }
    }
}

pub proof fn lemma_with_entry(entries: Seq<EntryView>, entry: EntryView)
    requires
        distinct_paths(entries),
        in_order(entries),
        forall|k: int|
            0 <= k < entries.len() ==> (#[trigger] entries[k]).result.path != entry.result.path,
    ensures
        distinct_paths(with_entry(entries, entry)),
        in_order(with_entry(entries, entry)),
        with_entry(entries, entry).len() == entries.len() + 1,
        0 <= place(entries, entry.time, entry.count) <= entries.len(),
{
    let at = place(entries, entry.time, entry.count);
    let more = with_entry(entries, entry);
    lemma_place(entries, entry.time, entry.count);
    assert forall|i: int, j: int| 0 <= i < j < more.len() implies (#[trigger] more[i]).result.path
        != (#[trigger] more[j]).result.path && !used_after(
        more[i],
        more[j].time,
        more[j].count,
    ) by {
        if i < at {
            assert(more[i] == entries[i]);
        } else if i > at {
            assert(more[i] == entries[i - 1]);
        }
        if j < at {
            assert(more[j] == entries[j]);
        } else if j > at {
            assert(more[j] == entries[j - 1]);
        }
    }
}

pub proof fn lemma_skip_first(entries: Seq<EntryView>)
    requires
        distinct_paths(entries),
        in_order(entries),
        entries.len() > 0,
    ensures
        distinct_paths(entries.skip(1)),
        in_order(entries.skip(1)),
{
    let rest = entries.skip(1);
    assert forall|i: int, j: int| 0 <= i < j < rest.len() implies (#[trigger] rest[i]).result.path
        != (#[trigger] rest[j]).result.path && !used_after(
        rest[i],
        rest[j].time,
        rest[j].count,
    ) by {
        assert(rest[i] == entries[i + 1] && rest[j] == entries[j + 1]);
    }
}

impl ScanCache {
    /// An empty cache for at most `max_size` entries, and at least one.
    pub fn new(max_size: usize) -> (cache: ScanCache)
        ensures
            cache@.valid(),
            cache@.entries.len() == 0,
            cache.max_size == (if max_size == 0 {
                1
            } else {
                max_size
            }),
            cache.counter == 0,
            cache.generation == 0,
            cache.decision_generation == 0,
    {
        ScanCache {
            entries: Vec::new(),
            max_size: if max_size == 0 {
                1
            } else {
                max_size
            },
            counter: 0,
            generation: 0,
            decision_generation: 0,
        }
    }

    pub fn len(&self) -> (n: usize)
        ensures
            n == self@.entries.len(),
    {
        self.entries.len()
    }

    pub fn is_empty(&self) -> (b: bool)
        ensures
            b == (self@.entries.len() == 0),
    {
        self.entries.len() == 0
    }

    /// The position of the entry of a path, or the number of entries.
    fn find(&self, path: &str) -> (at: usize)
        ensures
            at == position(self@.entries, path@),
            at <= self@.entries.len(),
    {
        let mut i: usize = 0;
        while i < self.entries.len()
            invariant
                i <= self.entries@.len(),
                forall|k: int|
                    0 <= k < i ==> (#[trigger] self@.entries[k]).result.path != path@,
            decreases self.entries@.len() - i,
        {
            if same_text(self.entries[i].result.path.as_str(), path) {
                assert(self@.entries[i as int].result.path == path@);
                proof {
                    lemma_position_is(self@.entries, path@, i as int);
                }
                return i;
            }
            assert(self@.entries[i as int].result.path != path@);
            i = i + 1;
        }
        proof {
            lemma_position_is(self@.entries, path@, i as int);
        }
        i
    }

    /// Puts an entry of the current use into its place.
    fn insert(&mut self, entry: CacheEntry)
        requires
            in_order(old(self)@.entries),
        ensures
            final(self)@ == old(self)@.with_entries(with_entry(old(self)@.entries, entry@)),
    {
        let ghost before = self@.entries;
        proof {
            lemma_place(before, entry.time, entry.count);
        }
        let mut at: usize = self.entries.len();
        assert(before.take(at as int) =~= before);
        while at > 0 && (entry.time < self.entries[at - 1].time || (entry.time
            == self.entries[at - 1].time && entry.count < self.entries[at - 1].count))
            invariant
                at <= self.entries@.len(),
                before == self@.entries,
                *self == *old(self),
                place(before, entry.time, entry.count) == place(
                    before.take(at as int),
                    entry.time,
                    entry.count,
                ),
            decreases at,
        {
            assert(before.take(at as int).last() == self.entries@[at - 1]@);
            assert(before.take(at as int).drop_last() =~= before.take(at - 1));
            at = at - 1;
        }
        proof {
            if at > 0 {
                assert(before.take(at as int).last() == self.entries@[at - 1]@);
            }
        }
        assert(at == place(before, entry.time, entry.count));
        let ghost one = entry@;
        let ghost raw = self.entries@;
        self.entries.insert(at, entry);
        assert(entry_views(self.entries@) =~= before.insert(at as int, one));
    }

    /// Takes the entry of a path out, where there is one.
    fn take(&mut self, path: &str) -> (entry: Option<CacheEntry>)
        requires
            old(self)@.valid(),
        ensures
            final(self)@ == old(self)@.forgotten(path@),
            match entry {
                Some(e) => holds_path(old(self)@.entries, path@) && e@ == old(self)@.entry(path@),
                None => !holds_path(old(self)@.entries, path@),
            },
    {
        let at: usize = self.find(path);
        if at < self.entries.len() {
            let ghost before = self@.entries;
            let entry = self.entries.remove(at);
            assert(entry_views(self.entries@) =~= before.remove(at as int));
            Some(entry)
        } else {
            None
        }
    }

    /// The number of this use of the cache.
    fn next_count(&mut self) -> (count: u64)
        ensures
            count == old(self).counter,
            final(self).counter == old(self).counter.wrapping_add(1),
            final(self).entries == old(self).entries,
            final(self).max_size == old(self).max_size,
            final(self).generation == old(self).generation,
            final(self).decision_generation == old(self).decision_generation,
    {
        let count: u64 = self.counter;
        self.counter = count.wrapping_add(1);
        count
    }

    /// The result stored for a path, used at `now`.
    ///
    /// An entry of an earlier generation is dropped.
    pub fn get_at(&mut self, path: &str, now: u128) -> (found: Option<ScanResult>)
        requires
            old(self)@.valid(),
        ensures
            final(self)@.valid(),
            if old(self)@.is_current(path@) {
                &&& found is Some
                &&& found->0@ == old(self)@.entry(path@).result
                &&& final(self)@ == old(self)@.touched(path@, now)
            } else {
                &&& found is None
                &&& final(self)@ == old(self)@.forgotten(path@)
            },
    {
        let ghost before = self@;
        proof {
            lemma_without_path(before.entries, path@);
            lemma_position(before.entries, path@);
        }
        match self.take(path) {
            None => None,
            Some(mut entry) => {
                if entry.generation != self.generation || entry.decision_generation
                    != self.decision_generation {
                    return None;
                }
                let result = entry.result.duplicate();
                entry.time = now;
                entry.count = self.next_count();
                proof {
                    lemma_with_entry(self@.entries, entry@);
                    assert(entry@ =~= reused(before.entry(path@), now, before.counter));
                }
                self.insert(entry);
                assert(self@ =~= before.touched(path@, now));
                Some(result)
            },
        }
    }

    /// The result stored for a path, which thereby becomes the most recently used one.
    pub fn get(&mut self, path: &str) -> (found: Option<ScanResult>)
        requires
            old(self)@.valid(),
        ensures
            final(self)@.valid(),
            if old(self)@.is_current(path@) {
                &&& found is Some
                &&& found->0@ == old(self)@.entry(path@).result
                &&& exists|now: u128| final(self)@ == #[trigger] old(self)@.touched(path@, now)
            } else {
                &&& found is None
                &&& final(self)@ == old(self)@.forgotten(path@)
            },
    {
        let now: u128 = now_nanos();
        self.get_at(path, now)
    }


    /// The result stored for a path, used at `now`, if it was stored for the same file
    /// and policy, for the context where one is expected, and under the current decision
    /// generation where that is required.
    ///
    /// Evidence that only an earlier decision was made of stays stored; any other entry
    /// that does not match is dropped.
    pub fn get_matching_at(
        &mut self,
        path: &str,
        fingerprint: FileFingerprint,
        policy_epoch: u64,
        require_current_decision: bool,
        expected: Option<ScanContext>,
        now: u128,
    ) -> (found: Option<ScanResult>)
        requires
            old(self)@.valid(),
        ensures
            final(self)@.valid(),
            matched(
                old(self)@,
                path@,
                fingerprint,
                policy_epoch,
                require_current_decision,
                expected,
                found,
            ),
            final(self)@ == after_matching(
                old(self)@,
                path@,
                fingerprint,
                policy_epoch,
                expected,
                now,
            ),
    {
        let ghost before = self@;
        proof {
            lemma_without_path(before.entries, path@);
            lemma_position(before.entries, path@);
        }
        match self.take(path) {
            None => None,
            Some(mut entry) => {
                let context_matches = match expected {
                    Some(context) => entry.result.context == context,
                    None => true,
                };
                let same_file = match &entry.fingerprint {
                    Some(stored) => stored.same(&fingerprint),
                    None => false,
                };
                let file_matches = entry.generation == self.generation && entry.policy_epoch
                    == policy_epoch && same_file && context_matches;
                assert(file_matches == before.is_evidence(
                    path@,
                    fingerprint,
                    policy_epoch,
                    expected,
                ));
                if !file_matches {
                    return None;
                }
                let decided = entry.decision_generation == self.decision_generation;
                let result = if !require_current_decision || decided {
                    Some(entry.result.duplicate())
                } else {
                    None
                };
                entry.time = now;
                entry.count = self.next_count();
                proof {
                    lemma_with_entry(self@.entries, entry@);
                    assert(entry@ =~= reused(before.entry(path@), now, before.counter));
                }
                self.insert(entry);
                assert(self@ =~= before.touched(path@, now));
                result
            },
        }
    }

    fn get_matching_for_policy(
        &mut self,
        path: &str,
        fingerprint: FileFingerprint,
        policy_epoch: u64,
        require_current_decision: bool,
        expected: Option<ScanContext>,
    ) -> (found: Option<ScanResult>)
        requires
            old(self)@.valid(),
        ensures
            final(self)@.valid(),
            matched(
                old(self)@,
                path@,
                fingerprint,
                policy_epoch,
                require_current_decision,
                expected,
                found,
            ),
            exists|now: u128|
                final(self)@ == #[trigger] after_matching(
                    old(self)@,
                    path@,
                    fingerprint,
                    policy_epoch,
                    expected,
                    now,
                ),
    {
        let now: u128 = now_nanos();
        self.get_matching_at(
            path,
            fingerprint,
            policy_epoch,
            require_current_decision,
            expected,
            now,
        )
    }

    /// The result for a path if it was stored for the same file.
    pub fn get_fresh(&mut self, path: &str, fingerprint: FileFingerprint) -> (found: Option<
        ScanResult,
    >)
        requires
            old(self)@.valid(),
        ensures
            final(self)@.valid(),
            matched(old(self)@, path@, fingerprint, 0, true, None, found),
            exists|now: u128|
                final(self)@ == #[trigger] after_matching(
                    old(self)@,
                    path@,
                    fingerprint,
                    0,
                    None,
                    now,
                ),
    {
        self.get_matching_for_policy(path, fingerprint, 0, true, None)
    }

    /// The result for a path if file and policy are unchanged.
    pub fn get_fresh_for_policy(&mut self, path: &str, fingerprint: FileFingerprint, policy_epoch: u64) -> (found: Option<
        ScanResult,
    >)
        requires
            old(self)@.valid(),
        ensures
            final(self)@.valid(),
            matched(old(self)@, path@, fingerprint, policy_epoch, true, None, found),
            exists|now: u128|
                final(self)@ == #[trigger] after_matching(
                    old(self)@,
                    path@,
                    fingerprint,
                    policy_epoch,
                    None,
                    now,
                ),
    {
        self.get_matching_for_policy(path, fingerprint, policy_epoch, true, None)
    }

    /// The result for a path if file, policy and context are unchanged.
    pub fn get_fresh_for_policy_with_context(&mut self, path: &str, fingerprint: FileFingerprint, policy_epoch: u64,
        context: ScanContext) -> (found: Option<
        ScanResult,
    >)
        requires
            old(self)@.valid(),
        ensures
            final(self)@.valid(),
            matched(old(self)@, path@, fingerprint, policy_epoch, true, Some(context), found),
            exists|now: u128|
                final(self)@ == #[trigger] after_matching(
                    old(self)@,
                    path@,
                    fingerprint,
                    policy_epoch,
                    Some(context),
                    now,
                ),
    {
        self.get_matching_for_policy(path, fingerprint, policy_epoch, true, Some(context))
    }

    /// What the layers said of a path, also under an earlier decision generation, if file
    /// and policy are unchanged.
    pub fn get_evidence_for_policy(&mut self, path: &str, fingerprint: FileFingerprint, policy_epoch: u64) -> (found: Option<
        ScanResult,
    >)
        requires
            old(self)@.valid(),
        ensures
            final(self)@.valid(),
            matched(old(self)@, path@, fingerprint, policy_epoch, false, None, found),
            exists|now: u128|
                final(self)@ == #[trigger] after_matching(
                    old(self)@,
                    path@,
                    fingerprint,
                    policy_epoch,
                    None,
                    now,
                ),
    {
        self.get_matching_for_policy(path, fingerprint, policy_epoch, false, None)
    }

    /// What the layers said of a path, also under an earlier decision generation, if
    /// file, policy and context are unchanged.
    pub fn get_evidence_for_policy_with_context(&mut self, path: &str, fingerprint: FileFingerprint, policy_epoch: u64,
        context: ScanContext) -> (found: Option<
        ScanResult,
    >)
        requires
            old(self)@.valid(),
        ensures
            final(self)@.valid(),
            matched(old(self)@, path@, fingerprint, policy_epoch, false, Some(context), found),
            exists|now: u128|
                final(self)@ == #[trigger] after_matching(
                    old(self)@,
                    path@,
                    fingerprint,
                    policy_epoch,
                    Some(context),
                    now,
                ),
    {
        self.get_matching_for_policy(path, fingerprint, policy_epoch, false, Some(context))
    }

    /// An entry of the current generation with this size and time of change is stored.
    ///
    /// The content is not compared: this only spares hashing files that have no entry.
    pub fn has_metadata_candidate(&self, path: &str, fingerprint: FileFingerprint) -> (b: bool)
        ensures
            b == (holds_path(self@.entries, path@) && self@.entry(path@).generation
                == self@.generation && self@.entry(path@).fingerprint is Some && self@.entry(
                path@,
            ).fingerprint->0.agrees(fingerprint)),
    {
        let at: usize = self.find(path);
        if at < self.entries.len() {
            assert(self@.entries[at as int] == self.entries@[at as int]@);
            let entry = &self.entries[at];
            entry.generation == self.generation && match &entry.fingerprint {
                Some(stored) => stored.same_metadata(fingerprint),
                None => false,
            }
        } else {
            false
        }
    }

    /// Stores a result as of `now`, in place of the one of the same path.
    pub fn put_at(
        &mut self,
        result: ScanResult,
        fingerprint: Option<FileFingerprint>,
        policy_epoch: u64,
        now: u128,
    )
        requires
            old(self)@.valid(),
        ensures
            final(self)@.valid(),
            final(self)@ == old(self)@.stored(result@, fingerprint, policy_epoch, now),
    {
        let ghost before = self@;
        proof {
            lemma_without_path(before.entries, result.path@);
            lemma_position(before.entries, result.path@);
        }
        let path = result.path.clone();
        let gone = self.take(path.as_str());
        let count: u64 = self.next_count();
        let entry = CacheEntry {
            time: now,
            count,
            result,
            fingerprint,
            generation: self.generation,
            policy_epoch,
            decision_generation: self.decision_generation,
        };
        proof {
            lemma_with_entry(self@.entries, entry@);
        }
        self.insert(entry);
        if self.entries.len() > self.max_size {
            let ghost full = self@.entries;
            proof {
                lemma_skip_first(full);
            }
            let oldest = self.entries.remove(0);
            assert(entry_views(self.entries@) =~= full.skip(1));
        }
        assert(self@ =~= before.stored(result@, fingerprint, policy_epoch, now));
    }

    fn put_with_fingerprint_and_policy(
        &mut self,
        result: ScanResult,
        fingerprint: Option<FileFingerprint>,
        policy_epoch: u64,
    )
        requires
            old(self)@.valid(),
        ensures
            final(self)@.valid(),
            exists|now: u128|
                final(self)@ == #[trigger] old(self)@.stored(
                    result@,
                    fingerprint,
                    policy_epoch,
                    now,
                ),
    {
        let now: u128 = now_nanos();
        self.put_at(result, fingerprint, policy_epoch, now);
    }

    /// Stores a result in place of the one of the same path.
    pub fn put(&mut self, result: ScanResult)
        requires
            old(self)@.valid(),
        ensures
            final(self)@.valid(),
            exists|now: u128| final(self)@ == #[trigger] old(self)@.stored(result@, None, 0, now),
    {
        self.put_with_fingerprint_and_policy(result, None, 0);
    }

    /// Stores a result with the fingerprint of the file that was scanned.
    pub fn put_fresh(&mut self, result: ScanResult, fingerprint: FileFingerprint)
        requires
            old(self)@.valid(),
        ensures
            final(self)@.valid(),
            exists|now: u128|
                final(self)@ == #[trigger] old(self)@.stored(result@, Some(fingerprint), 0, now),
    {
        self.put_with_fingerprint_and_policy(result, Some(fingerprint), 0);
    }

    /// Stores a result with the fingerprint of the file and the policy it was made under.
    pub fn put_fresh_for_policy(
        &mut self,
        result: ScanResult,
        fingerprint: FileFingerprint,
        policy_epoch: u64,
    )
        requires
            old(self)@.valid(),
        ensures
            final(self)@.valid(),
            exists|now: u128|
                final(self)@ == #[trigger] old(self)@.stored(
                    result@,
                    Some(fingerprint),
                    policy_epoch,
                    now,
                ),
    {
        self.put_with_fingerprint_and_policy(result, Some(fingerprint), policy_epoch);
    }

    /// Stores a result as one of the given context.
    pub fn put_fresh_for_policy_with_context(
        &mut self,
        result: ScanResult,
        fingerprint: FileFingerprint,
        policy_epoch: u64,
        context: ScanContext,
    )
        requires
            old(self)@.valid(),
        ensures
            final(self)@.valid(),
            exists|now: u128|
                final(self)@ == #[trigger] old(self)@.stored(
                    in_context(result@, context),
                    Some(fingerprint),
                    policy_epoch,
                    now,
                ),
    {
        let mut result = result;
        let ghost given = result@;
        result.context = context;
        assert(result@ =~= in_context(given, context));
        self.put_with_fingerprint_and_policy(result, Some(fingerprint), policy_epoch);
    }

    /// Drops the entry of a path.
    pub fn invalidate_path(&mut self, path: &str)
        requires
            old(self)@.valid(),
        ensures
            final(self)@.valid(),
            final(self)@ == old(self)@.forgotten(path@),
    {
        proof {
            lemma_without_path(self@.entries, path@);
        }
        let gone = self.take(path);
    }

    /// Drops every entry.
    pub fn clear(&mut self)
        requires
            old(self)@.valid(),
        ensures
            final(self)@.valid(),
            final(self)@ == old(self)@.emptied(),
    {
        self.entries = Vec::new();
        self.generation = self.generation.wrapping_add(1);
        self.decision_generation = self.decision_generation.wrapping_add(1);
        assert(self@ =~= old(self)@.emptied());
    }

    /// Makes every decision an earlier one and keeps the evidence.
    pub fn invalidate_decisions(&mut self)
        requires
            old(self)@.valid(),
        ensures
            final(self)@.valid(),
            final(self)@ == old(self)@.redecided(),
    {
        self.decision_generation = self.decision_generation.wrapping_add(1);
        assert(self@ =~= old(self)@.redecided());
    }

    /// Drops every entry: rules, models or engine have changed.
    pub fn invalidate_context(&mut self)
        requires
            old(self)@.valid(),
        ensures
            final(self)@.valid(),
            final(self)@ == old(self)@.emptied(),
    {
        self.clear();
    }
}

/// The result as one of the given context.
pub open spec fn in_context(result: ResultView, context: ScanContext) -> ResultView {
    ResultView { context, ..result }
}

impl CacheView {
    /// No entries, and the next generation of both kinds.
    pub open spec fn emptied(self) -> CacheView {
        CacheView {
            entries: Seq::empty(),
            generation: self.generation.wrapping_add(1),
            decision_generation: self.decision_generation.wrapping_add(1),
            ..self
        }
    }

    /// The next decision generation.
    pub open spec fn redecided(self) -> CacheView {
        CacheView { decision_generation: self.decision_generation.wrapping_add(1), ..self }
    }

    /// The clock has not been set back behind a use of the cache.
    pub open spec fn not_ahead_of(self, now: u128) -> bool {
        forall|k: int|
            0 <= k < self.entries.len() ==> !used_after(
                #[trigger] self.entries[k],
                now,
                self.counter,
            )
    }
}

/// What a search for matching evidence finds.
pub open spec fn matched(
    cache: CacheView,
    path: Seq<char>,
    fingerprint: FileFingerprint,
    policy_epoch: u64,
    require_current_decision: bool,
    expected: Option<ScanContext>,
    found: Option<ScanResult>,
) -> bool {
    if cache.is_evidence(path, fingerprint, policy_epoch, expected) && (!require_current_decision
        || cache.entry(path).decision_generation == cache.decision_generation) {
        found is Some && found->0@ == cache.entry(path).result
    } else {
        found is None
    }
}

/// The cache after such a search at `now`.
pub open spec fn after_matching(
    cache: CacheView,
    path: Seq<char>,
    fingerprint: FileFingerprint,
    policy_epoch: u64,
    expected: Option<ScanContext>,
    now: u128,
) -> CacheView {
    if cache.is_evidence(path, fingerprint, policy_epoch, expected) {
        cache.touched(path, now)
    } else {
        cache.forgotten(path)
    }
}

/// What has been stored for a path is what the next search for it finds, and it counts as
/// evidence for the file, the policy and the context that it was stored with.
pub proof fn law_stored_result_is_found(
    cache: CacheView,
    result: ResultView,
    fingerprint: FileFingerprint,
    policy_epoch: u64,
    now: u128,
)
    requires
        cache.valid(),
        cache.not_ahead_of(now),
    ensures
        ({
            let after = cache.stored(result, Some(fingerprint), policy_epoch, now);
            &&& after.is_current(result.path)
            &&& after.entry(result.path).result == result
            &&& after.is_evidence(result.path, fingerprint, policy_epoch, Some(result.context))
        }),
{
    lemma_stored_last(cache, result, Some(fingerprint), policy_epoch, now);
    let after = cache.stored(result, Some(fingerprint), policy_epoch, now);
    lemma_position_is(after.entries, result.path, after.entries.len() - 1);
}

/// The stored entry stands last.
proof fn lemma_stored_last(
    cache: CacheView,
    result: ResultView,
    fingerprint: Option<FileFingerprint>,
    policy_epoch: u64,
    now: u128,
)
    requires
        cache.valid(),
        cache.not_ahead_of(now),
    ensures
        ({
            let after = cache.stored(result, fingerprint, policy_epoch, now);
            let rest = without_path(cache.entries, result.path);
            let entry = EntryView {
                time: now,
                count: cache.counter,
                result,
                fingerprint,
                generation: cache.generation,
                policy_epoch,
                decision_generation: cache.decision_generation,
            };
            &&& after.entries.len() > 0
            &&& after.entries == if rest.len() == cache.max_size {
                rest.skip(1).push(entry)
            } else {
                rest.push(entry)
            }
            &&& forall|k: int|
                0 <= k < after.entries.len() - 1 ==> (#[trigger] after.entries[k]).result.path
                    != result.path
        }),
{
    let rest = without_path(cache.entries, result.path);
    lemma_without_path(cache.entries, result.path);
    lemma_position(cache.entries, result.path);
    lemma_place(rest, now, cache.counter);
    let at = position(cache.entries, result.path);
    assert forall|k: int| 0 <= k < rest.len() implies !used_after(
        #[trigger] rest[k],
        now,
        cache.counter,
    ) by {
        if holds_path(cache.entries, result.path) {
            let from = if k < at {
                k
            } else {
                k + 1
            };
            assert(rest[k] == cache.entries[from]);
        }
    }
    assert(place(rest, now, cache.counter) == rest.len()) by {
        if place(rest, now, cache.counter) < rest.len() {
            assert(used_after(rest[place(rest, now, cache.counter)], now, cache.counter));
        }
    }
    let after = cache.stored(result, fingerprint, policy_epoch, now);
    let entry = EntryView {
        time: now,
        count: cache.counter,
        result,
        fingerprint,
        generation: cache.generation,
        policy_epoch,
        decision_generation: cache.decision_generation,
    };
    assert(with_entry(rest, entry) =~= rest.push(entry));
    if rest.len() == cache.max_size {
        assert(rest.push(entry).skip(1) =~= rest.skip(1).push(entry));
    }
}

/// A full cache makes room for a new path by dropping the least recently used entry, and
/// no other.
pub proof fn law_least_recently_used_leaves(
    cache: CacheView,
    result: ResultView,
    fingerprint: Option<FileFingerprint>,
    policy_epoch: u64,
    now: u128,
)
    requires
        cache.valid(),
        cache.not_ahead_of(now),
        cache.entries.len() == cache.max_size,
        !holds_path(cache.entries, result.path),
    ensures
        ({
            let after = cache.stored(result, fingerprint, policy_epoch, now).entries;
            &&& after.len() == cache.max_size
            &&& after.drop_last() == cache.entries.skip(1)
            &&& after.last().result == result
        }),
{
    lemma_stored_last(cache, result, fingerprint, policy_epoch, now);
    let after = cache.stored(result, fingerprint, policy_epoch, now).entries;
    assert(after.drop_last() =~= cache.entries.skip(1));
}

/// Using an entry makes it the most recently used one.
pub proof fn law_use_promotes(cache: CacheView, path: Seq<char>, now: u128)
    requires
        cache.valid(),
        cache.not_ahead_of(now),
        holds_path(cache.entries, path),
    ensures
        cache.touched(path, now).entries == without_path(cache.entries, path).push(
            reused(cache.entry(path), now, cache.counter),
        ),
{
    let rest = without_path(cache.entries, path);
    let at = position(cache.entries, path);
    lemma_without_path(cache.entries, path);
    lemma_position(cache.entries, path);
    lemma_place(rest, now, cache.counter);
    assert(place(rest, now, cache.counter) == rest.len()) by {
        let place = place(rest, now, cache.counter);
        if place < rest.len() {
            assert(used_after(rest[place], now, cache.counter));
            let from = if place < at {
                place
            } else {
                place + 1
            };
            assert(rest[place] == cache.entries[from]);
        }
    }
    assert(cache.touched(path, now).entries =~= rest.push(
        reused(cache.entry(path), now, cache.counter),
    ));
}

/// Evidence of a file that has been replaced, or of another policy or context, is neither
/// reused nor kept: the search that does not match drops it.
pub proof fn law_mismatch_is_dropped(
    cache: CacheView,
    path: Seq<char>,
    fingerprint: FileFingerprint,
    policy_epoch: u64,
    expected: Option<ScanContext>,
    now: u128,
)
    requires
        cache.valid(),
        holds_path(cache.entries, path),
        cache.entry(path).fingerprint != Some(fingerprint) || cache.entry(path).policy_epoch
            != policy_epoch || (expected is Some && cache.entry(path).result.context
            != expected->0),
    ensures
        !cache.is_evidence(path, fingerprint, policy_epoch, expected),
        !holds_path(
            after_matching(cache, path, fingerprint, policy_epoch, expected, now).entries,
            path,
        ),
{
    let rest = without_path(cache.entries, path);
    lemma_without_path(cache.entries, path);
    lemma_position(rest, path);
}

/// After the context has been invalidated nothing that was stored before is found.
pub proof fn law_invalidated_context_is_empty(
    cache: CacheView,
    path: Seq<char>,
    fingerprint: FileFingerprint,
    policy_epoch: u64,
    expected: Option<ScanContext>,
)
    ensures
        !cache.emptied().is_current(path),
        !cache.emptied().is_evidence(path, fingerprint, policy_epoch, expected),
{
    lemma_position(cache.emptied().entries, path);
}

/// Invalidating the decisions takes the final result of every current entry away, and no
/// evidence.
pub proof fn law_evidence_survives_decisions(
    cache: CacheView,
    path: Seq<char>,
    fingerprint: FileFingerprint,
    policy_epoch: u64,
    expected: Option<ScanContext>,
)
    ensures
        cache.is_current(path) ==> !cache.redecided().is_current(path),
        cache.redecided().is_evidence(path, fingerprint, policy_epoch, expected)
            == cache.is_evidence(path, fingerprint, policy_epoch, expected),
        cache.redecided().entry(path) == cache.entry(path),
{
}

} // verus!
