//! Ordered behaviour signatures: strict ones match contiguous events, tolerant ones match
//! in order with unrelated events in between.

use crate::behavior::{kind_label, BehaviorEventKind};
use crate::text::same_text;
use vstd::prelude::*;

verus! {

#[derive(Debug)]
pub struct SequenceSignature {
    pub name: String,
    pub pattern: Vec<BehaviorEventKind>,
    /// Tolerant signatures are correlation rather than contiguous evidence.
    pub tolerant: bool,
}

pub struct SignatureView {
    pub name: Seq<char>,
    pub pattern: Seq<BehaviorEventKind>,
    pub tolerant: bool,
}

impl View for SequenceSignature {
    type V = SignatureView;

    open spec fn view(&self) -> SignatureView {
        SignatureView { name: self.name@, pattern: self.pattern@, tolerant: self.tolerant }
    }
}

pub open spec fn signature_views(signatures: Seq<SequenceSignature>) -> Seq<SignatureView> {
    signatures.map_values(|s: SequenceSignature| s@)
}

#[derive(Debug)]
pub struct SequenceMatch {
    pub signature_name: String,
    pub matched_at: usize,
    pub tolerant: bool,
}

pub struct MatchView {
    pub signature_name: Seq<char>,
    pub matched_at: nat,
    pub tolerant: bool,
}

impl View for SequenceMatch {
    type V = MatchView;

    open spec fn view(&self) -> MatchView {
        MatchView {
            signature_name: self.signature_name@,
            matched_at: self.matched_at as nat,
            tolerant: self.tolerant,
        }
    }
}

pub open spec fn match_views(matches: Seq<SequenceMatch>) -> Seq<MatchView> {
    matches.map_values(|m: SequenceMatch| m@)
}

pub struct SequenceMatcher {
    pub signatures: Vec<SequenceSignature>,
}

pub open spec fn signature(
    name: Seq<char>,
    tolerant: bool,
    pattern: Seq<BehaviorEventKind>,
) -> SignatureView {
    SignatureView { name, pattern, tolerant }
}

/// The built-in signatures.
pub open spec fn default_signatures() -> Seq<SignatureView> {
    seq![
        signature(
            "process_injection_chain"@,
            false,
            seq![
                BehaviorEventKind::ProcessCreate,
                BehaviorEventKind::SuspiciousApiCall,
                BehaviorEventKind::ProcessInject,
            ],
        ),
        signature(
            "persistence_chain"@,
            false,
            seq![
                BehaviorEventKind::RegistryWrite,
                BehaviorEventKind::FileWrite,
                BehaviorEventKind::ProcessCreate,
            ],
        ),
        signature(
            "network_dropper"@,
            false,
            seq![
                BehaviorEventKind::FileWrite,
                BehaviorEventKind::NetworkConnect,
            ],
        ),
        signature(
            "credential_theft_chain"@,
            false,
            seq![
                BehaviorEventKind::ProcessCreate,
                BehaviorEventKind::CredentialAccess,
                BehaviorEventKind::NetworkConnect,
            ],
        ),
        signature(
            "silverfox_attack_chain"@,
            false,
            seq![
                BehaviorEventKind::ProcessCreate,
                BehaviorEventKind::SuspiciousApiCall,
                BehaviorEventKind::FileWrite,
                BehaviorEventKind::RegistryWrite,
                BehaviorEventKind::NetworkConnect,
            ],
        ),
        signature(
            "silverfox_ctf_inject_selfdelete"@,
            false,
            seq![
                BehaviorEventKind::FileWrite,
                BehaviorEventKind::RegistryWrite,
                BehaviorEventKind::ProcessCreate,
                BehaviorEventKind::SuspiciousApiCall,
                BehaviorEventKind::FileWrite,
            ],
        ),
        signature(
            "ransomware_impact_chain"@,
            false,
            seq![
                BehaviorEventKind::FileWrite,
                BehaviorEventKind::BackupDeletion,
                BehaviorEventKind::RansomwareEncryption,
            ],
        ),
        signature(
            "service_persistence_chain"@,
            false,
            seq![
                BehaviorEventKind::ServiceTampering,
                BehaviorEventKind::SuspiciousPersistence,
                BehaviorEventKind::ProcessCreate,
            ],
        ),
        signature(
            "loader_module_codeexec_chain"@,
            true,
            seq![
                BehaviorEventKind::ProcessCreate,
                BehaviorEventKind::SuspiciousModuleLoad,
                BehaviorEventKind::SuspiciousApiCall,
                BehaviorEventKind::ProcessInject,
            ],
        ),
        signature(
            "credential_exfil_chain"@,
            true,
            seq![
                BehaviorEventKind::CredentialAccess,
                BehaviorEventKind::SuspiciousApiCall,
                BehaviorEventKind::NetworkConnect,
            ],
        ),
        signature(
            "dropper_c2_persist_chain"@,
            true,
            seq![
                BehaviorEventKind::ProcessCreate,
                BehaviorEventKind::FileWrite,
                BehaviorEventKind::NetworkConnect,
                BehaviorEventKind::RegistryWrite,
            ],
        ),
        signature(
            "implant_post_injection_persistence"@,
            true,
            seq![
                BehaviorEventKind::ProcessInject,
                BehaviorEventKind::FileWrite,
                BehaviorEventKind::SuspiciousPersistence,
            ],
        ),
        signature(
            "module_abuse_service_persist"@,
            true,
            seq![
                BehaviorEventKind::SuspiciousModuleLoad,
                BehaviorEventKind::ServiceTampering,
                BehaviorEventKind::ProcessCreate,
            ],
        ),
        signature(
            "inject_browser_exfil_chain"@,
            true,
            seq![
                BehaviorEventKind::ProcessInject,
                BehaviorEventKind::CredentialAccess,
                BehaviorEventKind::NetworkConnect,
            ],
        ),
    ]
}

/// The pattern stands in the events from `start` on, without a gap.
pub open spec fn stands_from(
    events: Seq<BehaviorEventKind>,
    pattern: Seq<BehaviorEventKind>,
    start: int,
) -> bool {
    0 <= start && start + pattern.len() <= events.len() && events.subrange(
        start,
        start + pattern.len(),
    ) == pattern
}

/// The first position from `start` on at which a non-empty pattern stands.
pub open spec fn strict_position(
    events: Seq<BehaviorEventKind>,
    pattern: Seq<BehaviorEventKind>,
    start: int,
) -> Option<nat>
    decreases events.len() - start,
{
    if start < 0 || start >= events.len() || pattern.len() == 0 {
        None
    } else if stands_from(events, pattern, start) {
        Some(start as nat)
    } else {
        strict_position(events, pattern, start + 1)
    }
}

/// The first event of a kind from `from` on.
pub open spec fn next_of_kind(
    events: Seq<BehaviorEventKind>,
    kind: BehaviorEventKind,
    from: int,
) -> Option<int>
    decreases events.len() - from,
{
    if from < 0 || from >= events.len() {
        None
    } else if events[from] == kind {
        Some(from)
    } else {
        next_of_kind(events, kind, from + 1)
    }
}

/// The steps of the pattern from `step` on follow the event at `previous`: each is the next
/// event of its kind, with at most `max_gap` other events before it, and it lies among the
/// `max_span` events from `start` on.
pub open spec fn follows(
    events: Seq<BehaviorEventKind>,
    pattern: Seq<BehaviorEventKind>,
    step: int,
    start: int,
    previous: int,
    max_gap: nat,
    max_span: nat,
) -> bool
    decreases pattern.len() - step,
{
    if step >= pattern.len() {
        true
    } else {
        match next_of_kind(events, pattern[step], previous + 1) {
            Some(p) => p - previous - 1 <= max_gap && p - start + 1 <= max_span && follows(
                events,
                pattern,
                step + 1,
                start,
                p,
                max_gap,
                max_span,
            ),
            None => false,
        }
    }
}

/// A chain starts at `start` and spans at most `max_span` events.
pub open spec fn chain_starts(
    events: Seq<BehaviorEventKind>,
    pattern: Seq<BehaviorEventKind>,
    start: int,
    max_gap: nat,
    max_span: nat,
) -> bool {
    pattern.len() >= 1 && max_span >= 1 && events[start] == pattern[0] && follows(
        events,
        pattern,
        1,
        start,
        start,
        max_gap,
        max_span,
    )
}

/// The first position from `start` on at which a chain starts.
pub open spec fn tolerant_position(
    events: Seq<BehaviorEventKind>,
    pattern: Seq<BehaviorEventKind>,
    start: int,
    max_gap: nat,
    max_span: nat,
) -> Option<nat>
    decreases events.len() - start,
{
    if start < 0 || start >= events.len() {
        None
    } else if chain_starts(events, pattern, start, max_gap, max_span) {
        Some(start as nat)
    } else {
        tolerant_position(events, pattern, start + 1, max_gap, max_span)
    }
}

/// The matches of the strict signatures, in signature order.
pub open spec fn strict_matches(
    signatures: Seq<SignatureView>,
    events: Seq<BehaviorEventKind>,
) -> Seq<MatchView>
    decreases signatures.len(),
{
    if signatures.len() == 0 {
        Seq::empty()
    } else {
        let before = strict_matches(signatures.drop_last(), events);
        let s = signatures.last();
        match strict_position(events, s.pattern, 0) {
            Some(at) => if s.tolerant {
                before
            } else {
                before.push(
                    MatchView { signature_name: s.name, matched_at: at, tolerant: false },
                )
            },
            None => before,
        }
    }
}

/// The matches of the tolerant signatures, in signature order.
pub open spec fn tolerant_matches(
    signatures: Seq<SignatureView>,
    events: Seq<BehaviorEventKind>,
    max_gap: nat,
    max_span: nat,
) -> Seq<MatchView>
    decreases signatures.len(),
{
    if signatures.len() == 0 {
        Seq::empty()
    } else {
        let before = tolerant_matches(signatures.drop_last(), events, max_gap, max_span);
        let s = signatures.last();
        match tolerant_position(events, s.pattern, 0, max_gap, max_span) {
            Some(at) => if s.tolerant {
                before.push(
                    MatchView { signature_name: s.name, matched_at: at, tolerant: true },
                )
            } else {
                before
            },
            None => before,
        }
    }
}

/// The name belongs to a built-in tolerant chain.
pub open spec fn tolerant_name(name: Seq<char>) -> bool {
    name == "loader_module_codeexec_chain"@ || name == "credential_exfil_chain"@ || name == "dropper_c2_persist_chain"@ || name == "implant_post_injection_persistence"@ || name == "module_abuse_service_persist"@ || name == "inject_browser_exfil_chain"@
}

/// The steps of a built-in chain.
pub open spec fn chain_steps(name: Seq<char>) -> Option<Seq<BehaviorEventKind>> {
    if name == "process_injection_chain"@ {
        Some(
            seq![
                BehaviorEventKind::ProcessCreate,
                BehaviorEventKind::SuspiciousApiCall,
                BehaviorEventKind::ProcessInject,
            ],
        )
    } else if name == "persistence_chain"@ {
        Some(
            seq![
                BehaviorEventKind::RegistryWrite,
                BehaviorEventKind::FileWrite,
                BehaviorEventKind::ProcessCreate,
            ],
        )
    } else if name == "network_dropper"@ {
        Some(
            seq![
                BehaviorEventKind::FileWrite,
                BehaviorEventKind::NetworkConnect,
            ],
        )
    } else if name == "credential_theft_chain"@ {
        Some(
            seq![
                BehaviorEventKind::ProcessCreate,
                BehaviorEventKind::CredentialAccess,
                BehaviorEventKind::NetworkConnect,
            ],
        )
    } else if name == "silverfox_attack_chain"@ {
        Some(
            seq![
                BehaviorEventKind::ProcessCreate,
                BehaviorEventKind::SuspiciousApiCall,
                BehaviorEventKind::FileWrite,
                BehaviorEventKind::RegistryWrite,
                BehaviorEventKind::NetworkConnect,
            ],
        )
    } else if name == "silverfox_ctf_inject_selfdelete"@ {
        Some(
            seq![
                BehaviorEventKind::FileWrite,
                BehaviorEventKind::RegistryWrite,
                BehaviorEventKind::ProcessCreate,
                BehaviorEventKind::SuspiciousApiCall,
                BehaviorEventKind::FileWrite,
            ],
        )
    } else if name == "ransomware_impact_chain"@ {
        Some(
            seq![
                BehaviorEventKind::FileWrite,
                BehaviorEventKind::BackupDeletion,
                BehaviorEventKind::RansomwareEncryption,
            ],
        )
    } else if name == "service_persistence_chain"@ {
        Some(
            seq![
                BehaviorEventKind::ServiceTampering,
                BehaviorEventKind::SuspiciousPersistence,
                BehaviorEventKind::ProcessCreate,
            ],
        )
    } else if name == "loader_module_codeexec_chain"@ {
        Some(
            seq![
                BehaviorEventKind::ProcessCreate,
                BehaviorEventKind::SuspiciousModuleLoad,
                BehaviorEventKind::SuspiciousApiCall,
                BehaviorEventKind::ProcessInject,
            ],
        )
    } else if name == "credential_exfil_chain"@ {
        Some(
            seq![
                BehaviorEventKind::CredentialAccess,
                BehaviorEventKind::SuspiciousApiCall,
                BehaviorEventKind::NetworkConnect,
            ],
        )
    } else if name == "dropper_c2_persist_chain"@ {
        Some(
            seq![
                BehaviorEventKind::ProcessCreate,
                BehaviorEventKind::FileWrite,
                BehaviorEventKind::NetworkConnect,
                BehaviorEventKind::RegistryWrite,
            ],
        )
    } else if name == "implant_post_injection_persistence"@ {
        Some(
            seq![
                BehaviorEventKind::ProcessInject,
                BehaviorEventKind::FileWrite,
                BehaviorEventKind::SuspiciousPersistence,
            ],
        )
    } else if name == "module_abuse_service_persist"@ {
        Some(
            seq![
                BehaviorEventKind::SuspiciousModuleLoad,
                BehaviorEventKind::ServiceTampering,
                BehaviorEventKind::ProcessCreate,
            ],
        )
    } else if name == "inject_browser_exfil_chain"@ {
        Some(
            seq![
                BehaviorEventKind::ProcessInject,
                BehaviorEventKind::CredentialAccess,
                BehaviorEventKind::NetworkConnect,
            ],
        )
    } else {
        None
    }
}

pub open spec fn step_labels(steps: Seq<BehaviorEventKind>) -> Seq<Seq<char>> {
    steps.map_values(|k: BehaviorEventKind| kind_label(k))
}

fn pattern2(a: BehaviorEventKind, b: BehaviorEventKind) -> (p: Vec<BehaviorEventKind>)
    ensures
        p@ == seq![a, b],
{
    let mut p: Vec<BehaviorEventKind> = Vec::new();
    p.push(a);
    p.push(b);
    p
}

fn pattern3(a: BehaviorEventKind, b: BehaviorEventKind, c: BehaviorEventKind) -> (p: Vec<
    BehaviorEventKind,
>)
    ensures
        p@ == seq![a, b, c],
{
    let mut p = pattern2(a, b);
    p.push(c);
    p
}

fn pattern4(
    a: BehaviorEventKind,
    b: BehaviorEventKind,
    c: BehaviorEventKind,
    d: BehaviorEventKind,
) -> (p: Vec<BehaviorEventKind>)
    ensures
        p@ == seq![a, b, c, d],
{
    let mut p = pattern3(a, b, c);
    p.push(d);
    p
}

fn pattern5(
    a: BehaviorEventKind,
    b: BehaviorEventKind,
    c: BehaviorEventKind,
    d: BehaviorEventKind,
    e: BehaviorEventKind,
) -> (p: Vec<BehaviorEventKind>)
    ensures
        p@ == seq![a, b, c, d, e],
{
    let mut p = pattern4(a, b, c, d);
    p.push(e);
    p
}

fn add_signature(
    signatures: &mut Vec<SequenceSignature>,
    name: &str,
    tolerant: bool,
    pattern: Vec<BehaviorEventKind>,
)
    ensures
        signature_views(final(signatures)@) == signature_views(old(signatures)@).push(
            signature(name@, tolerant, pattern@),
        ),
{
    signatures.push(SequenceSignature { name: name.to_owned(), pattern, tolerant });
    assert(signature_views(signatures@) =~= signature_views(old(signatures)@).push(
        signature(name@, tolerant, pattern@),
    ));
}

impl Default for SequenceMatcher {
    /// The matcher with the built-in signatures.
    fn default() -> (matcher: Self)
        ensures
            signature_views(matcher.signatures@) == default_signatures(),
    {
        let mut signatures: Vec<SequenceSignature> = Vec::new();
        assert(signature_views(signatures@) =~= Seq::empty());
        add_signature(
            &mut signatures,
            "process_injection_chain",
            false,
            pattern3(
                BehaviorEventKind::ProcessCreate,
                BehaviorEventKind::SuspiciousApiCall,
                BehaviorEventKind::ProcessInject,
            ),
        );
        add_signature(
            &mut signatures,
            "persistence_chain",
            false,
            pattern3(
                BehaviorEventKind::RegistryWrite,
                BehaviorEventKind::FileWrite,
                BehaviorEventKind::ProcessCreate,
            ),
        );
        add_signature(
            &mut signatures,
            "network_dropper",
            false,
            pattern2(
                BehaviorEventKind::FileWrite,
                BehaviorEventKind::NetworkConnect,
            ),
        );
        add_signature(
            &mut signatures,
            "credential_theft_chain",
            false,
            pattern3(
                BehaviorEventKind::ProcessCreate,
                BehaviorEventKind::CredentialAccess,
                BehaviorEventKind::NetworkConnect,
            ),
        );
        add_signature(
            &mut signatures,
            "silverfox_attack_chain",
            false,
            pattern5(
                BehaviorEventKind::ProcessCreate,
                BehaviorEventKind::SuspiciousApiCall,
                BehaviorEventKind::FileWrite,
                BehaviorEventKind::RegistryWrite,
                BehaviorEventKind::NetworkConnect,
            ),
        );
        add_signature(
            &mut signatures,
            "silverfox_ctf_inject_selfdelete",
            false,
            pattern5(
                BehaviorEventKind::FileWrite,
                BehaviorEventKind::RegistryWrite,
                BehaviorEventKind::ProcessCreate,
                BehaviorEventKind::SuspiciousApiCall,
                BehaviorEventKind::FileWrite,
            ),
        );
        add_signature(
            &mut signatures,
            "ransomware_impact_chain",
            false,
            pattern3(
                BehaviorEventKind::FileWrite,
                BehaviorEventKind::BackupDeletion,
                BehaviorEventKind::RansomwareEncryption,
            ),
        );
        add_signature(
            &mut signatures,
            "service_persistence_chain",
            false,
            pattern3(
                BehaviorEventKind::ServiceTampering,
                BehaviorEventKind::SuspiciousPersistence,
                BehaviorEventKind::ProcessCreate,
            ),
        );
        add_signature(
            &mut signatures,
            "loader_module_codeexec_chain",
            true,
            pattern4(
                BehaviorEventKind::ProcessCreate,
                BehaviorEventKind::SuspiciousModuleLoad,
                BehaviorEventKind::SuspiciousApiCall,
                BehaviorEventKind::ProcessInject,
            ),
        );
        add_signature(
            &mut signatures,
            "credential_exfil_chain",
            true,
            pattern3(
                BehaviorEventKind::CredentialAccess,
                BehaviorEventKind::SuspiciousApiCall,
                BehaviorEventKind::NetworkConnect,
            ),
        );
        add_signature(
            &mut signatures,
            "dropper_c2_persist_chain",
            true,
            pattern4(
                BehaviorEventKind::ProcessCreate,
                BehaviorEventKind::FileWrite,
                BehaviorEventKind::NetworkConnect,
                BehaviorEventKind::RegistryWrite,
            ),
        );
        add_signature(
            &mut signatures,
            "implant_post_injection_persistence",
            true,
            pattern3(
                BehaviorEventKind::ProcessInject,
                BehaviorEventKind::FileWrite,
                BehaviorEventKind::SuspiciousPersistence,
            ),
        );
        add_signature(
            &mut signatures,
            "module_abuse_service_persist",
            true,
            pattern3(
                BehaviorEventKind::SuspiciousModuleLoad,
                BehaviorEventKind::ServiceTampering,
                BehaviorEventKind::ProcessCreate,
            ),
        );
        add_signature(
            &mut signatures,
            "inject_browser_exfil_chain",
            true,
            pattern3(
                BehaviorEventKind::ProcessInject,
                BehaviorEventKind::CredentialAccess,
                BehaviorEventKind::NetworkConnect,
            ),
        );
        SequenceMatcher { signatures }
    }
}

impl SequenceMatcher {
    pub fn new(signatures: Vec<SequenceSignature>) -> (matcher: Self)
        ensures
            matcher.signatures == signatures,
    {
        SequenceMatcher { signatures }
    }

    /// The signature table.
    pub fn signatures(&self) -> (signatures: &[SequenceSignature])
        ensures
            signatures@ == self.signatures@,
    {
        &self.signatures
    }

    /// Matches the strict signatures against contiguous events.
    pub fn match_sequence(&self, events: &[BehaviorEventKind]) -> (matches: Vec<SequenceMatch>)
        ensures
            match_views(matches@) == strict_matches(signature_views(self.signatures@), events@),
    {
        let ghost views = signature_views(self.signatures@);
        let mut matches: Vec<SequenceMatch> = Vec::new();
        assert(match_views(matches@) =~= Seq::empty());
        let mut i: usize = 0;
        while i < self.signatures.len()
            invariant
                i <= self.signatures@.len(),
                views == signature_views(self.signatures@),
                match_views(matches@) == strict_matches(views.take(i as int), events@),
            decreases self.signatures@.len() - i,
        {
            let s = &self.signatures[i];
            assert(views.take(i + 1).drop_last() =~= views.take(i as int));
            assert(views.take(i + 1).last() == s@);
            if !s.tolerant {
                if let Some(at) = find_subsequence(events, &s.pattern) {
                    let ghost before = match_views(matches@);
                    matches.push(
                        SequenceMatch {
                            signature_name: s.name.clone(),
                            matched_at: at,
                            tolerant: false,
                        },
                    );
                    assert(match_views(matches@) =~= before.push(matches@.last()@));
                }
            }
            i = i + 1;
        }
        assert(views.take(i as int) =~= views);
        matches
    }

    /// Matches the tolerant signatures in order, with at most `max_gap` unrelated events
    /// between consecutive steps and at most `max_span` from the first step to the last.
    pub fn match_sequence_tolerant(
        &self,
        events: &[BehaviorEventKind],
        max_gap: usize,
        max_span: usize,
    ) -> (matches: Vec<SequenceMatch>)
        ensures
            match_views(matches@) == tolerant_matches(
                signature_views(self.signatures@),
                events@,
                max_gap as nat,
                max_span as nat,
            ),
    {
        let ghost views = signature_views(self.signatures@);
        let mut matches: Vec<SequenceMatch> = Vec::new();
        assert(match_views(matches@) =~= Seq::empty());
        let mut i: usize = 0;
        while i < self.signatures.len()
            invariant
                i <= self.signatures@.len(),
                views == signature_views(self.signatures@),
                match_views(matches@) == tolerant_matches(
                    views.take(i as int),
                    events@,
                    max_gap as nat,
                    max_span as nat,
                ),
            decreases self.signatures@.len() - i,
        {
            let s = &self.signatures[i];
            assert(views.take(i + 1).drop_last() =~= views.take(i as int));
            assert(views.take(i + 1).last() == s@);
            if s.tolerant {
                if let Some(at) = find_tolerant_subsequence(events, &s.pattern, max_gap, max_span) {
                    let ghost before = match_views(matches@);
                    matches.push(
                        SequenceMatch {
                            signature_name: s.name.clone(),
                            matched_at: at,
                            tolerant: true,
                        },
                    );
                    assert(match_views(matches@) =~= before.push(matches@.last()@));
                }
            }
            i = i + 1;
        }
        assert(views.take(i as int) =~= views);
        matches
    }
}

fn same_kinds_at(
    events: &[BehaviorEventKind],
    pattern: &[BehaviorEventKind],
    start: usize,
) -> (b: bool)
    ensures
        b == stands_from(events@, pattern@, start as int),
{
    if start > events.len() || pattern.len() > events.len() - start {
        return false;
    }
    let end: usize = start + pattern.len();
    let mut j: usize = 0;
    while j < pattern.len()
        invariant
            j <= pattern@.len(),
            end == start + pattern@.len() <= events@.len(),
            forall|k: int| 0 <= k < j ==> events@[start + k] == pattern@[k],
        decreases pattern@.len() - j,
    {
        if events[start + j] != pattern[j] {
            assert(events@.subrange(start as int, start + pattern@.len())[j as int]
                != pattern@[j as int]);
            return false;
        }
        j = j + 1;
    }
    assert(events@.subrange(start as int, start + pattern@.len()) =~= pattern@);
    true
}

/// The first position at which a non-empty pattern stands in the events.
pub fn find_subsequence(events: &[BehaviorEventKind], pattern: &[BehaviorEventKind]) -> (at: Option<
    usize,
>)
    ensures
        match at {
            Some(i) => strict_position(events@, pattern@, 0) == Some(i as nat),
            None => strict_position(events@, pattern@, 0) is None,
        },
{
    if pattern.len() == 0 {
        return None;
    }
    let mut start: usize = 0;
    while start < events.len()
        invariant
            start <= events@.len(),
            pattern@.len() > 0,
            strict_position(events@, pattern@, 0) == strict_position(events@, pattern@, start as int),
        decreases events@.len() - start,
    {
        if same_kinds_at(events, pattern, start) {
            return Some(start);
        }
        start = start + 1;
    }
    None
}

proof fn lemma_next_of_kind(events: Seq<BehaviorEventKind>, kind: BehaviorEventKind, from: int)
    requires
        0 <= from,
    ensures
        next_of_kind(events, kind, from) matches Some(p) ==> from <= p < events.len(),
    decreases events.len() - from,
{
    if from < events.len() && events[from] != kind {
        lemma_next_of_kind(events, kind, from + 1);
    }
}

/// A chain starts at `start`, where its first step lies.
fn chain_found(
    events: &[BehaviorEventKind],
    pattern: &[BehaviorEventKind],
    start: usize,
    max_gap: usize,
    max_span: usize,
) -> (b: bool)
    requires
        pattern@.len() >= 1,
        start < events@.len(),
        events@[start as int] == pattern@[0],
    ensures
        b == chain_starts(events@, pattern@, start as int, max_gap as nat, max_span as nat),
{
    if max_span == 0 {
        return false;
    }
    if pattern.len() == 1 {
        return true;
    }
    let ghost whole = follows(
        events@,
        pattern@,
        1,
        start as int,
        start as int,
        max_gap as nat,
        max_span as nat,
    );
    let ghost mut previous: int = start as int;
    let mut step: usize = 1;
    let mut gap: usize = 0;
    let size: usize = events.len();
    let mut cursor: usize = start + 1;
    while cursor < size
        invariant
            size == events@.len(),
            1 <= step < pattern@.len(),
            start <= previous < cursor <= events@.len(),
            gap == cursor - previous - 1,
            gap <= max_gap,
            start < events@.len(),
            whole == chain_starts(
                events@,
                pattern@,
                start as int,
                max_gap as nat,
                max_span as nat,
            ),
            whole == follows(
                events@,
                pattern@,
                step as int,
                start as int,
                previous,
                max_gap as nat,
                max_span as nat,
            ),
            next_of_kind(events@, pattern@[step as int], previous + 1) == next_of_kind(
                events@,
                pattern@[step as int],
                cursor as int,
            ),
        decreases events@.len() - cursor,
    {
        proof {
            lemma_next_of_kind(events@, pattern@[step as int], cursor as int);
        }
        if cursor - start >= max_span {
            return false;
        }
        if events[cursor] == pattern[step] {
            step = step + 1;
            gap = 0;
            proof {
                previous = cursor as int;
            }
            if step == pattern.len() {
                assert(follows(
                    events@,
                    pattern@,
                    step as int,
                    start as int,
                    previous,
                    max_gap as nat,
                    max_span as nat,
                ));
                return true;
            }
        } else if gap == max_gap {
            proof {
                lemma_next_of_kind(events@, pattern@[step as int], cursor + 1);
            }
            return false;
        } else {
            gap = gap + 1;
        }
        cursor = cursor + 1;
    }
    false
}

/// The first position at which a tolerant chain starts in the events.
pub fn find_tolerant_subsequence(
    events: &[BehaviorEventKind],
    pattern: &[BehaviorEventKind],
    max_gap: usize,
    max_span: usize,
) -> (at: Option<usize>)
    ensures
        match at {
            Some(i) => tolerant_position(events@, pattern@, 0, max_gap as nat, max_span as nat)
                == Some(i as nat),
            None => tolerant_position(events@, pattern@, 0, max_gap as nat, max_span as nat)
                is None,
        },
{
    let mut start: usize = 0;
    while start < events.len()
        invariant
            start <= events@.len(),
            tolerant_position(events@, pattern@, 0, max_gap as nat, max_span as nat)
                == tolerant_position(
                events@,
                pattern@,
                start as int,
                max_gap as nat,
                max_span as nat,
            ),
        decreases events@.len() - start,
    {
        if pattern.len() >= 1 && events[start] == pattern[0] && chain_found(
            events,
            pattern,
            start,
            max_gap,
            max_span,
        ) {
            return Some(start);
        }
        start = start + 1;
    }
    None
}

/// The name belongs to a built-in tolerant chain.
pub fn is_tolerant_chain(name: &str) -> (b: bool)
    ensures
        b == tolerant_name(name@),
{
    same_text(name, "loader_module_codeexec_chain") || same_text(name, "credential_exfil_chain") || same_text(name, "dropper_c2_persist_chain") || same_text(name, "implant_post_injection_persistence") || same_text(name, "module_abuse_service_persist") || same_text(name, "inject_browser_exfil_chain")
}

/// The labels of the steps of a built-in chain, in chain order.
pub fn chain_step_labels(name: &str) -> (labels: Option<Vec<&'static str>>)
    ensures
        match labels {
            Some(l) => chain_steps(name@) is Some && l@.map_values(|s: &'static str| s@)
                == step_labels(chain_steps(name@).unwrap()),
            None => chain_steps(name@) is None,
        },
{
    let kinds =
    if same_text(name, "process_injection_chain") {
        pattern3(
            BehaviorEventKind::ProcessCreate,
            BehaviorEventKind::SuspiciousApiCall,
            BehaviorEventKind::ProcessInject,
        )
    } else if same_text(name, "persistence_chain") {
        pattern3(
            BehaviorEventKind::RegistryWrite,
            BehaviorEventKind::FileWrite,
            BehaviorEventKind::ProcessCreate,
        )
    } else if same_text(name, "network_dropper") {
        pattern2(
            BehaviorEventKind::FileWrite,
            BehaviorEventKind::NetworkConnect,
        )
    } else if same_text(name, "credential_theft_chain") {
        pattern3(
            BehaviorEventKind::ProcessCreate,
            BehaviorEventKind::CredentialAccess,
            BehaviorEventKind::NetworkConnect,
        )
    } else if same_text(name, "silverfox_attack_chain") {
        pattern5(
            BehaviorEventKind::ProcessCreate,
            BehaviorEventKind::SuspiciousApiCall,
            BehaviorEventKind::FileWrite,
            BehaviorEventKind::RegistryWrite,
            BehaviorEventKind::NetworkConnect,
        )
    } else if same_text(name, "silverfox_ctf_inject_selfdelete") {
        pattern5(
            BehaviorEventKind::FileWrite,
            BehaviorEventKind::RegistryWrite,
            BehaviorEventKind::ProcessCreate,
            BehaviorEventKind::SuspiciousApiCall,
            BehaviorEventKind::FileWrite,
        )
    } else if same_text(name, "ransomware_impact_chain") {
        pattern3(
            BehaviorEventKind::FileWrite,
            BehaviorEventKind::BackupDeletion,
            BehaviorEventKind::RansomwareEncryption,
        )
    } else if same_text(name, "service_persistence_chain") {
        pattern3(
            BehaviorEventKind::ServiceTampering,
            BehaviorEventKind::SuspiciousPersistence,
            BehaviorEventKind::ProcessCreate,
        )
    } else if same_text(name, "loader_module_codeexec_chain") {
        pattern4(
            BehaviorEventKind::ProcessCreate,
            BehaviorEventKind::SuspiciousModuleLoad,
            BehaviorEventKind::SuspiciousApiCall,
            BehaviorEventKind::ProcessInject,
        )
    } else if same_text(name, "credential_exfil_chain") {
        pattern3(
            BehaviorEventKind::CredentialAccess,
            BehaviorEventKind::SuspiciousApiCall,
            BehaviorEventKind::NetworkConnect,
        )
    } else if same_text(name, "dropper_c2_persist_chain") {
        pattern4(
            BehaviorEventKind::ProcessCreate,
            BehaviorEventKind::FileWrite,
            BehaviorEventKind::NetworkConnect,
            BehaviorEventKind::RegistryWrite,
        )
    } else if same_text(name, "implant_post_injection_persistence") {
        pattern3(
            BehaviorEventKind::ProcessInject,
            BehaviorEventKind::FileWrite,
            BehaviorEventKind::SuspiciousPersistence,
        )
    } else if same_text(name, "module_abuse_service_persist") {
        pattern3(
            BehaviorEventKind::SuspiciousModuleLoad,
            BehaviorEventKind::ServiceTampering,
            BehaviorEventKind::ProcessCreate,
        )
    } else if same_text(name, "inject_browser_exfil_chain") {
        pattern3(
            BehaviorEventKind::ProcessInject,
            BehaviorEventKind::CredentialAccess,
            BehaviorEventKind::NetworkConnect,
        )
    } else {
        return None;
    };
    let ghost wanted = step_labels(kinds@);
    let mut labels: Vec<&'static str> = Vec::new();
    let mut i: usize = 0;
    while i < kinds.len()
        invariant
            i <= kinds@.len(),
            wanted == step_labels(kinds@),
            labels@.map_values(|s: &'static str| s@) == wanted.take(i as int),
        decreases kinds@.len() - i,
    {
        let ghost before = labels@.map_values(|s: &'static str| s@);
        labels.push(kinds[i].as_str());
        assert(labels@.map_values(|s: &'static str| s@) =~= before.push(
            kind_label(kinds@[i as int]),
        ));
        assert(wanted.take(i + 1) =~= wanted.take(i as int).push(wanted[i as int]));
        i = i + 1;
    }
    assert(wanted.take(i as int) =~= wanted);
    Some(labels)
}

/// The names of the built-in signatures are distinct.
proof fn lemma_names_distinct()
    ensures
        forall|i: int, j: int|
            0 <= i < j < default_signatures().len() ==> (#[trigger] default_signatures()[i]).name
                != (#[trigger] default_signatures()[j]).name,
{
    reveal_strlit("process_injection_chain");
    reveal_strlit("persistence_chain");
    reveal_strlit("network_dropper");
    reveal_strlit("credential_theft_chain");
    reveal_strlit("silverfox_attack_chain");
    reveal_strlit("silverfox_ctf_inject_selfdelete");
    reveal_strlit("ransomware_impact_chain");
    reveal_strlit("service_persistence_chain");
    reveal_strlit("loader_module_codeexec_chain");
    reveal_strlit("credential_exfil_chain");
    reveal_strlit("dropper_c2_persist_chain");
    reveal_strlit("implant_post_injection_persistence");
    reveal_strlit("module_abuse_service_persist");
    reveal_strlit("inject_browser_exfil_chain");
    assert("process_injection_chain"@.len() != "persistence_chain"@.len());
    assert("process_injection_chain"@.len() != "network_dropper"@.len());
    assert("process_injection_chain"@.len() != "credential_theft_chain"@.len());
    assert("process_injection_chain"@.len() != "silverfox_attack_chain"@.len());
    assert("process_injection_chain"@.len() != "silverfox_ctf_inject_selfdelete"@.len());
    assert("process_injection_chain"@[0] != "ransomware_impact_chain"@[0]);
    assert("process_injection_chain"@.len() != "service_persistence_chain"@.len());
    assert("process_injection_chain"@.len() != "loader_module_codeexec_chain"@.len());
    assert("process_injection_chain"@.len() != "credential_exfil_chain"@.len());
    assert("process_injection_chain"@.len() != "dropper_c2_persist_chain"@.len());
    assert("process_injection_chain"@.len() != "implant_post_injection_persistence"@.len());
    assert("process_injection_chain"@.len() != "module_abuse_service_persist"@.len());
    assert("process_injection_chain"@.len() != "inject_browser_exfil_chain"@.len());
    assert("persistence_chain"@.len() != "network_dropper"@.len());
    assert("persistence_chain"@.len() != "credential_theft_chain"@.len());
    assert("persistence_chain"@.len() != "silverfox_attack_chain"@.len());
    assert("persistence_chain"@.len() != "silverfox_ctf_inject_selfdelete"@.len());
    assert("persistence_chain"@.len() != "ransomware_impact_chain"@.len());
    assert("persistence_chain"@.len() != "service_persistence_chain"@.len());
    assert("persistence_chain"@.len() != "loader_module_codeexec_chain"@.len());
    assert("persistence_chain"@.len() != "credential_exfil_chain"@.len());
    assert("persistence_chain"@.len() != "dropper_c2_persist_chain"@.len());
    assert("persistence_chain"@.len() != "implant_post_injection_persistence"@.len());
    assert("persistence_chain"@.len() != "module_abuse_service_persist"@.len());
    assert("persistence_chain"@.len() != "inject_browser_exfil_chain"@.len());
    assert("network_dropper"@.len() != "credential_theft_chain"@.len());
    assert("network_dropper"@.len() != "silverfox_attack_chain"@.len());
    assert("network_dropper"@.len() != "silverfox_ctf_inject_selfdelete"@.len());
    assert("network_dropper"@.len() != "ransomware_impact_chain"@.len());
    assert("network_dropper"@.len() != "service_persistence_chain"@.len());
    assert("network_dropper"@.len() != "loader_module_codeexec_chain"@.len());
    assert("network_dropper"@.len() != "credential_exfil_chain"@.len());
    assert("network_dropper"@.len() != "dropper_c2_persist_chain"@.len());
    assert("network_dropper"@.len() != "implant_post_injection_persistence"@.len());
    assert("network_dropper"@.len() != "module_abuse_service_persist"@.len());
    assert("network_dropper"@.len() != "inject_browser_exfil_chain"@.len());
    assert("credential_theft_chain"@[0] != "silverfox_attack_chain"@[0]);
    assert("credential_theft_chain"@.len() != "silverfox_ctf_inject_selfdelete"@.len());
    assert("credential_theft_chain"@.len() != "ransomware_impact_chain"@.len());
    assert("credential_theft_chain"@.len() != "service_persistence_chain"@.len());
    assert("credential_theft_chain"@.len() != "loader_module_codeexec_chain"@.len());
    assert("credential_theft_chain"@[11] != "credential_exfil_chain"@[11]);
    assert("credential_theft_chain"@.len() != "dropper_c2_persist_chain"@.len());
    assert("credential_theft_chain"@.len() != "implant_post_injection_persistence"@.len());
    assert("credential_theft_chain"@.len() != "module_abuse_service_persist"@.len());
    assert("credential_theft_chain"@.len() != "inject_browser_exfil_chain"@.len());
    assert("silverfox_attack_chain"@.len() != "silverfox_ctf_inject_selfdelete"@.len());
    assert("silverfox_attack_chain"@.len() != "ransomware_impact_chain"@.len());
    assert("silverfox_attack_chain"@.len() != "service_persistence_chain"@.len());
    assert("silverfox_attack_chain"@.len() != "loader_module_codeexec_chain"@.len());
    assert("silverfox_attack_chain"@[0] != "credential_exfil_chain"@[0]);
    assert("silverfox_attack_chain"@.len() != "dropper_c2_persist_chain"@.len());
    assert("silverfox_attack_chain"@.len() != "implant_post_injection_persistence"@.len());
    assert("silverfox_attack_chain"@.len() != "module_abuse_service_persist"@.len());
    assert("silverfox_attack_chain"@.len() != "inject_browser_exfil_chain"@.len());
    assert("silverfox_ctf_inject_selfdelete"@.len() != "ransomware_impact_chain"@.len());
    assert("silverfox_ctf_inject_selfdelete"@.len() != "service_persistence_chain"@.len());
    assert("silverfox_ctf_inject_selfdelete"@.len() != "loader_module_codeexec_chain"@.len());
    assert("silverfox_ctf_inject_selfdelete"@.len() != "credential_exfil_chain"@.len());
    assert("silverfox_ctf_inject_selfdelete"@.len() != "dropper_c2_persist_chain"@.len());
    assert("silverfox_ctf_inject_selfdelete"@.len() != "implant_post_injection_persistence"@.len());
    assert("silverfox_ctf_inject_selfdelete"@.len() != "module_abuse_service_persist"@.len());
    assert("silverfox_ctf_inject_selfdelete"@.len() != "inject_browser_exfil_chain"@.len());
    assert("ransomware_impact_chain"@.len() != "service_persistence_chain"@.len());
    assert("ransomware_impact_chain"@.len() != "loader_module_codeexec_chain"@.len());
    assert("ransomware_impact_chain"@.len() != "credential_exfil_chain"@.len());
    assert("ransomware_impact_chain"@.len() != "dropper_c2_persist_chain"@.len());
    assert("ransomware_impact_chain"@.len() != "implant_post_injection_persistence"@.len());
    assert("ransomware_impact_chain"@.len() != "module_abuse_service_persist"@.len());
    assert("ransomware_impact_chain"@.len() != "inject_browser_exfil_chain"@.len());
    assert("service_persistence_chain"@.len() != "loader_module_codeexec_chain"@.len());
    assert("service_persistence_chain"@.len() != "credential_exfil_chain"@.len());
    assert("service_persistence_chain"@.len() != "dropper_c2_persist_chain"@.len());
    assert("service_persistence_chain"@.len() != "implant_post_injection_persistence"@.len());
    assert("service_persistence_chain"@.len() != "module_abuse_service_persist"@.len());
    assert("service_persistence_chain"@.len() != "inject_browser_exfil_chain"@.len());
    assert("loader_module_codeexec_chain"@.len() != "credential_exfil_chain"@.len());
    assert("loader_module_codeexec_chain"@.len() != "dropper_c2_persist_chain"@.len());
    assert("loader_module_codeexec_chain"@.len() != "implant_post_injection_persistence"@.len());
    assert("loader_module_codeexec_chain"@[0] != "module_abuse_service_persist"@[0]);
    assert("loader_module_codeexec_chain"@.len() != "inject_browser_exfil_chain"@.len());
    assert("credential_exfil_chain"@.len() != "dropper_c2_persist_chain"@.len());
    assert("credential_exfil_chain"@.len() != "implant_post_injection_persistence"@.len());
    assert("credential_exfil_chain"@.len() != "module_abuse_service_persist"@.len());
    assert("credential_exfil_chain"@.len() != "inject_browser_exfil_chain"@.len());
    assert("dropper_c2_persist_chain"@.len() != "implant_post_injection_persistence"@.len());
    assert("dropper_c2_persist_chain"@.len() != "module_abuse_service_persist"@.len());
    assert("dropper_c2_persist_chain"@.len() != "inject_browser_exfil_chain"@.len());
    assert("implant_post_injection_persistence"@.len() != "module_abuse_service_persist"@.len());
    assert("implant_post_injection_persistence"@.len() != "inject_browser_exfil_chain"@.len());
    assert("module_abuse_service_persist"@.len() != "inject_browser_exfil_chain"@.len());
}

/// The step labels and the tolerance of every built-in signature agree with the table.
pub proof fn law_labels_match_default_signatures(i: int)
    requires
        0 <= i < default_signatures().len(),
    ensures
        chain_steps(default_signatures()[i].name) == Some(default_signatures()[i].pattern),
        tolerant_name(default_signatures()[i].name) == default_signatures()[i].tolerant,
{
    lemma_names_distinct();
    let d = default_signatures();
    assert(forall|j: int| 0 <= j < d.len() && j != i ==> (#[trigger] d[j]).name != d[i].name);
}

/// A strict match always comes from a strict signature, and says so.
pub proof fn law_strict_ignores_tolerant(
    signatures: Seq<SignatureView>,
    events: Seq<BehaviorEventKind>,
    m: MatchView,
)
    requires
        strict_matches(signatures, events).contains(m),
    ensures
        !m.tolerant,
        exists|i: int|
            0 <= i < signatures.len() && !(#[trigger] signatures[i]).tolerant && signatures[i].name
                == m.signature_name && strict_position(events, signatures[i].pattern, 0) == Some(
                m.matched_at,
            ),
    decreases signatures.len(),
{
    let all = strict_matches(signatures, events);
    let k = all.index_of(m);
    let before = strict_matches(signatures.drop_last(), events);
    if k < before.len() {
        assert(before[k] == m);
        law_strict_ignores_tolerant(signatures.drop_last(), events, m);
        let i = choose|i: int|
            0 <= i < signatures.drop_last().len() && !(#[trigger] signatures.drop_last()[i]).tolerant
                && signatures.drop_last()[i].name == m.signature_name && strict_position(
                events,
                signatures.drop_last()[i].pattern,
                0,
            ) == Some(m.matched_at);
        assert(signatures[i] == signatures.drop_last()[i]);
    } else {
        assert(signatures[signatures.len() - 1] == signatures.last());
    }
}

/// A tolerant match always comes from a tolerant signature, and says so.
pub proof fn law_tolerant_ignores_strict(
    signatures: Seq<SignatureView>,
    events: Seq<BehaviorEventKind>,
    max_gap: nat,
    max_span: nat,
    m: MatchView,
)
    requires
        tolerant_matches(signatures, events, max_gap, max_span).contains(m),
    ensures
        m.tolerant,
        exists|i: int|
            0 <= i < signatures.len() && (#[trigger] signatures[i]).tolerant && signatures[i].name
                == m.signature_name && tolerant_position(
                events,
                signatures[i].pattern,
                0,
                max_gap,
                max_span,
            ) == Some(m.matched_at),
    decreases signatures.len(),
{
    let all = tolerant_matches(signatures, events, max_gap, max_span);
    let k = all.index_of(m);
    let before = tolerant_matches(signatures.drop_last(), events, max_gap, max_span);
    if k < before.len() {
        assert(before[k] == m);
        law_tolerant_ignores_strict(signatures.drop_last(), events, max_gap, max_span, m);
        let i = choose|i: int|
            0 <= i < signatures.drop_last().len() && (#[trigger] signatures.drop_last()[i]).tolerant
                && signatures.drop_last()[i].name == m.signature_name && tolerant_position(
                events,
                signatures.drop_last()[i].pattern,
                0,
                max_gap,
                max_span,
            ) == Some(m.matched_at);
        assert(signatures[i] == signatures.drop_last()[i]);
    } else {
        assert(signatures[signatures.len() - 1] == signatures.last());
    }
}

} // verus!
