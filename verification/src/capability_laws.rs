//! What the capabilities of a program must be predicted from.

use crate::heuristic::chain_laws::names;
use crate::heuristic::image_laws::{lemma_holds_if, lemma_holds_joined};
use crate::score::Score;
use crate::static_sandbox::{
    any_begins, ascii_chars, calibrated, capability_list, chain_of, complements, credential_hits,
    evasion_hits, evident, has_dot, injection_hits, injection_weight, is_url_byte, marked,
    network_api, network_weight, persistence_api, persistence_hits, persistence_weight, recon_count,
    recon_weight, scheme_length, share, url_end, url_text, urls_from, weight_if,
};
use crate::text::{begins_with, only_if, without_trailing};
use vstd::prelude::*;

verus! {

/// The texts whose condition holds, in order.
#[verifier::opaque]
spec fn listed(items: Seq<(bool, Seq<char>)>) -> Seq<Seq<char>>
    decreases items.len(),
{
    if items.len() == 0 {
        Seq::empty()
    } else {
        listed(items.drop_last()) + only_if(items.last().0, items.last().1)
    }
}

proof fn lemma_listed_step(items: Seq<(bool, Seq<char>)>, c: bool, t: Seq<char>)
    ensures
        listed(items.push((c, t))) == listed(items) + only_if(c, t),
{
    reveal(listed);
    assert(items.push((c, t)).drop_last() =~= items);
}

proof fn lemma_listed_none()
    ensures
        listed(Seq::<(bool, Seq<char>)>::empty()) == Seq::<Seq<char>>::empty(),
{
    reveal(listed);
}

proof fn lemma_listed_holds(items: Seq<(bool, Seq<char>)>, k: int)
    requires
        0 <= k < items.len(),
        items[k].0,
    ensures
        listed(items).contains(items[k].1),
    decreases items.len(),
{
    reveal(listed);
    let front = items.drop_last();
    let before = listed(front);
    if k == items.len() - 1 {
        assert(listed(items)[before.len() as int] == items[k].1);
    } else {
        assert(front[k] == items[k]);
        lemma_listed_holds(front, k);
        let i = before.index_of(items[k].1);
        assert(listed(items)[i] == items[k].1);
    }
}

spec fn injection_items(imports: Seq<Seq<char>>) -> Seq<(bool, Seq<char>)> {
    Seq::<(bool, Seq<char>)>::empty().push(
        (names(imports, "writeprocessmemory"@), "injection:writeprocessmemory"@),
    ).push((names(imports, "virtualallocex"@), "injection:virtualallocex"@)).push(
        (names(imports, "createremotethread"@), "injection:createremotethread"@),
    ).push((names(imports, "ntmapviewofsection"@), "injection:ntmapviewofsection"@)).push(
        (names(imports, "queueuserapc"@), "injection:queueuserapc"@),
    ).push((names(imports, "setwindowshookex"@), "injection:setwindowshookex"@)).push(
        (names(imports, "rtlcreateuserthread"@), "injection:rtlcreateuserthread"@),
    ).push((names(imports, "zwwritevirtualmemory"@), "injection:zwwritevirtualmemory"@))
}

proof fn lemma_injection_listed(imports: Seq<Seq<char>>)
    ensures
        injection_hits(imports) == listed(injection_items(imports)),
        injection_items(imports).len() == 8,
{
    reveal(names);
    lemma_listed_none();
    let e = Seq::<(bool, Seq<char>)>::empty();
    let a = e.push((names(imports, "writeprocessmemory"@), "injection:writeprocessmemory"@));
    lemma_listed_step(e, a.last().0, a.last().1);
    let b = a.push((names(imports, "virtualallocex"@), "injection:virtualallocex"@));
    lemma_listed_step(a, b.last().0, b.last().1);
    let c = b.push((names(imports, "createremotethread"@), "injection:createremotethread"@));
    lemma_listed_step(b, c.last().0, c.last().1);
    let d = c.push((names(imports, "ntmapviewofsection"@), "injection:ntmapviewofsection"@));
    lemma_listed_step(c, d.last().0, d.last().1);
    let f = d.push((names(imports, "queueuserapc"@), "injection:queueuserapc"@));
    lemma_listed_step(d, f.last().0, f.last().1);
    let g = f.push((names(imports, "setwindowshookex"@), "injection:setwindowshookex"@));
    lemma_listed_step(f, g.last().0, g.last().1);
    let h = g.push((names(imports, "rtlcreateuserthread"@), "injection:rtlcreateuserthread"@));
    lemma_listed_step(g, h.last().0, h.last().1);
    let i = h.push((names(imports, "zwwritevirtualmemory"@), "injection:zwwritevirtualmemory"@));
    lemma_listed_step(h, i.last().0, i.last().1);
}

/// Each function that serves injection is told as a capability where an import names it.
pub proof fn law_injection_capabilities_are_told(imports: Seq<Seq<char>>)
    ensures
        names(imports, "writeprocessmemory"@) ==> injection_hits(imports).contains(
            "injection:writeprocessmemory"@,
        ),
        names(imports, "virtualallocex"@) ==> injection_hits(imports).contains(
            "injection:virtualallocex"@,
        ),
        names(imports, "createremotethread"@) ==> injection_hits(imports).contains(
            "injection:createremotethread"@,
        ),
        names(imports, "ntmapviewofsection"@) ==> injection_hits(imports).contains(
            "injection:ntmapviewofsection"@,
        ),
        names(imports, "queueuserapc"@) ==> injection_hits(imports).contains(
            "injection:queueuserapc"@,
        ),
        names(imports, "setwindowshookex"@) ==> injection_hits(imports).contains(
            "injection:setwindowshookex"@,
        ),
        names(imports, "rtlcreateuserthread"@) ==> injection_hits(imports).contains(
            "injection:rtlcreateuserthread"@,
        ),
        names(imports, "zwwritevirtualmemory"@) ==> injection_hits(imports).contains(
            "injection:zwwritevirtualmemory"@,
        ),
{
    lemma_injection_listed(imports);
    let items = injection_items(imports);
    assert forall|k: int| 0 <= k < 8 && (#[trigger] items[k]).0 implies listed(items).contains(
        items[k].1,
    ) by {
        lemma_listed_holds(items, k);
    }
    assert(items[0].1 == "injection:writeprocessmemory"@);
    assert(items[1].1 == "injection:virtualallocex"@);
    assert(items[2].1 == "injection:createremotethread"@);
    assert(items[3].1 == "injection:ntmapviewofsection"@);
    assert(items[4].1 == "injection:queueuserapc"@);
    assert(items[5].1 == "injection:setwindowshookex"@);
    assert(items[6].1 == "injection:rtlcreateuserthread"@);
    assert(items[7].1 == "injection:zwwritevirtualmemory"@);
}

spec fn persistence_items(d: Seq<u8>) -> Seq<(bool, Seq<char>)> {
    Seq::<(bool, Seq<char>)>::empty().push(
        (marked(d, "currentversion\\run"@), "persistence:currentversion\\run"@),
    ).push(
        (marked(d, "currentversion\\runonce"@), "persistence:currentversion\\runonce"@),
    ).push(
        (marked(d, "schtasks /create"@), "persistence:schtasks /create"@),
    ).push(
        (marked(d, "\\startup\\"@), "persistence:startup\\"@),
    ).push(
        (marked(d, "currentversion\\explorer\\shell folders"@), "persistence:currentversion\\explorer\\shell folders"@),
    )
}

proof fn lemma_persistence_listed(d: Seq<u8>)
    ensures
        persistence_hits(d) == listed(persistence_items(d)),
        persistence_items(d).len() == 5,
{
    lemma_listed_none();
    let list0 = Seq::<(bool, Seq<char>)>::empty();
    let list1 = list0.push((marked(d, "currentversion\\run"@), "persistence:currentversion\\run"@));
    lemma_listed_step(list0, list1.last().0, list1.last().1);
    let list2 = list1.push((marked(d, "currentversion\\runonce"@), "persistence:currentversion\\runonce"@));
    lemma_listed_step(list1, list2.last().0, list2.last().1);
    let list3 = list2.push((marked(d, "schtasks /create"@), "persistence:schtasks /create"@));
    lemma_listed_step(list2, list3.last().0, list3.last().1);
    let list4 = list3.push((marked(d, "\\startup\\"@), "persistence:startup\\"@));
    lemma_listed_step(list3, list4.last().0, list4.last().1);
    let list5 = list4.push((marked(d, "currentversion\\explorer\\shell folders"@), "persistence:currentversion\\explorer\\shell folders"@));
    lemma_listed_step(list4, list5.last().0, list5.last().1);
}

/// Each sign of persistence in the bytes, narrow or wide, is told as a capability.
pub proof fn law_persistence_capabilities_are_told(d: Seq<u8>)
    ensures
        marked(d, "currentversion\\run"@) ==> persistence_hits(d).contains(
            "persistence:currentversion\\run"@,
        ),
        marked(d, "currentversion\\runonce"@) ==> persistence_hits(d).contains(
            "persistence:currentversion\\runonce"@,
        ),
        marked(d, "schtasks /create"@) ==> persistence_hits(d).contains(
            "persistence:schtasks /create"@,
        ),
        marked(d, "\\startup\\"@) ==> persistence_hits(d).contains(
            "persistence:startup\\"@,
        ),
        marked(d, "currentversion\\explorer\\shell folders"@) ==> persistence_hits(d).contains(
            "persistence:currentversion\\explorer\\shell folders"@,
        ),
{
    lemma_persistence_listed(d);
    let items = persistence_items(d);
    assert forall|k: int| 0 <= k < 5 && (#[trigger] items[k]).0 implies listed(items).contains(
        items[k].1,
    ) by {
        lemma_listed_holds(items, k);
    }
    assert(items[0].1 == "persistence:currentversion\\run"@);
    assert(items[1].1 == "persistence:currentversion\\runonce"@);
    assert(items[2].1 == "persistence:schtasks /create"@);
    assert(items[3].1 == "persistence:startup\\"@);
    assert(items[4].1 == "persistence:currentversion\\explorer\\shell folders"@);
}

spec fn credential_items(imports: Seq<Seq<char>>, d: Seq<u8>) -> Seq<(bool, Seq<char>)> {
    Seq::<(bool, Seq<char>)>::empty().push(
        (evident(imports, d, "cryptunprotectdata"@), "credential_access:cryptunprotectdata"@),
    ).push(
        (evident(imports, d, "vaultcli"@), "credential_access:vaultcli"@),
    ).push(
        (evident(imports, d, "login data"@), "credential_access:login data"@),
    ).push(
        (evident(imports, d, "web data"@), "credential_access:web data"@),
    ).push(
        (evident(imports, d, "cookies.sqlite"@), "credential_access:cookies.sqlite"@),
    ).push(
        (evident(imports, d, "lsass"@), "credential_access:lsass"@),
    )
}

proof fn lemma_credential_listed(imports: Seq<Seq<char>>, d: Seq<u8>)
    ensures
        credential_hits(imports, d) == listed(credential_items(imports, d)),
        credential_items(imports, d).len() == 6,
{
    lemma_listed_none();
    let list0 = Seq::<(bool, Seq<char>)>::empty();
    let list1 = list0.push((evident(imports, d, "cryptunprotectdata"@), "credential_access:cryptunprotectdata"@));
    lemma_listed_step(list0, list1.last().0, list1.last().1);
    let list2 = list1.push((evident(imports, d, "vaultcli"@), "credential_access:vaultcli"@));
    lemma_listed_step(list1, list2.last().0, list2.last().1);
    let list3 = list2.push((evident(imports, d, "login data"@), "credential_access:login data"@));
    lemma_listed_step(list2, list3.last().0, list3.last().1);
    let list4 = list3.push((evident(imports, d, "web data"@), "credential_access:web data"@));
    lemma_listed_step(list3, list4.last().0, list4.last().1);
    let list5 = list4.push((evident(imports, d, "cookies.sqlite"@), "credential_access:cookies.sqlite"@));
    lemma_listed_step(list4, list5.last().0, list5.last().1);
    let list6 = list5.push((evident(imports, d, "lsass"@), "credential_access:lsass"@));
    lemma_listed_step(list5, list6.last().0, list6.last().1);
}

/// Each sign of credential access among the imports or in the bytes is told as a capability.
pub proof fn law_credential_capabilities_are_told(imports: Seq<Seq<char>>, d: Seq<u8>)
    ensures
        evident(imports, d, "cryptunprotectdata"@) ==> credential_hits(imports, d).contains(
            "credential_access:cryptunprotectdata"@,
        ),
        evident(imports, d, "vaultcli"@) ==> credential_hits(imports, d).contains(
            "credential_access:vaultcli"@,
        ),
        evident(imports, d, "login data"@) ==> credential_hits(imports, d).contains(
            "credential_access:login data"@,
        ),
        evident(imports, d, "web data"@) ==> credential_hits(imports, d).contains(
            "credential_access:web data"@,
        ),
        evident(imports, d, "cookies.sqlite"@) ==> credential_hits(imports, d).contains(
            "credential_access:cookies.sqlite"@,
        ),
        evident(imports, d, "lsass"@) ==> credential_hits(imports, d).contains(
            "credential_access:lsass"@,
        ),
{
    lemma_credential_listed(imports, d);
    let items = credential_items(imports, d);
    assert forall|k: int| 0 <= k < 6 && (#[trigger] items[k]).0 implies listed(items).contains(
        items[k].1,
    ) by {
        lemma_listed_holds(items, k);
    }
    assert(items[0].1 == "credential_access:cryptunprotectdata"@);
    assert(items[1].1 == "credential_access:vaultcli"@);
    assert(items[2].1 == "credential_access:login data"@);
    assert(items[3].1 == "credential_access:web data"@);
    assert(items[4].1 == "credential_access:cookies.sqlite"@);
    assert(items[5].1 == "credential_access:lsass"@);
}

spec fn evasion_items(imports: Seq<Seq<char>>, d: Seq<u8>) -> Seq<(bool, Seq<char>)> {
    Seq::<(bool, Seq<char>)>::empty().push(
        (evident(imports, d, "isdebuggerpresent"@), "evasion:isdebuggerpresent"@),
    ).push(
        (evident(imports, d, "checkremotedebuggerpresent"@), "evasion:checkremotedebuggerpresent"@),
    ).push(
        (evident(imports, d, "vmwaresvga"@), "evasion:vmwaresvga"@),
    ).push(
        (evident(imports, d, "virtualbox guest additions"@), "evasion:virtualbox guest additions"@),
    ).push(
        (evident(imports, d, "sandboxie"@), "evasion:sandboxie"@),
    ).push(
        (evident(imports, d, "qemu guest"@), "evasion:qemu guest"@),
    ).push(
        (evident(imports, d, "xenservice"@), "evasion:xenservice"@),
    )
}

proof fn lemma_evasion_listed(imports: Seq<Seq<char>>, d: Seq<u8>)
    ensures
        evasion_hits(imports, d) == listed(evasion_items(imports, d)),
        evasion_items(imports, d).len() == 7,
{
    lemma_listed_none();
    let list0 = Seq::<(bool, Seq<char>)>::empty();
    let list1 = list0.push((evident(imports, d, "isdebuggerpresent"@), "evasion:isdebuggerpresent"@));
    lemma_listed_step(list0, list1.last().0, list1.last().1);
    let list2 = list1.push((evident(imports, d, "checkremotedebuggerpresent"@), "evasion:checkremotedebuggerpresent"@));
    lemma_listed_step(list1, list2.last().0, list2.last().1);
    let list3 = list2.push((evident(imports, d, "vmwaresvga"@), "evasion:vmwaresvga"@));
    lemma_listed_step(list2, list3.last().0, list3.last().1);
    let list4 = list3.push((evident(imports, d, "virtualbox guest additions"@), "evasion:virtualbox guest additions"@));
    lemma_listed_step(list3, list4.last().0, list4.last().1);
    let list5 = list4.push((evident(imports, d, "sandboxie"@), "evasion:sandboxie"@));
    lemma_listed_step(list4, list5.last().0, list5.last().1);
    let list6 = list5.push((evident(imports, d, "qemu guest"@), "evasion:qemu guest"@));
    lemma_listed_step(list5, list6.last().0, list6.last().1);
    let list7 = list6.push((evident(imports, d, "xenservice"@), "evasion:xenservice"@));
    lemma_listed_step(list6, list7.last().0, list7.last().1);
}

/// Each sign of evasion among the imports or in the bytes is told as a capability.
pub proof fn law_evasion_capabilities_are_told(imports: Seq<Seq<char>>, d: Seq<u8>)
    ensures
        evident(imports, d, "isdebuggerpresent"@) ==> evasion_hits(imports, d).contains(
            "evasion:isdebuggerpresent"@,
        ),
        evident(imports, d, "checkremotedebuggerpresent"@) ==> evasion_hits(imports, d).contains(
            "evasion:checkremotedebuggerpresent"@,
        ),
        evident(imports, d, "vmwaresvga"@) ==> evasion_hits(imports, d).contains(
            "evasion:vmwaresvga"@,
        ),
        evident(imports, d, "virtualbox guest additions"@) ==> evasion_hits(imports, d).contains(
            "evasion:virtualbox guest additions"@,
        ),
        evident(imports, d, "sandboxie"@) ==> evasion_hits(imports, d).contains(
            "evasion:sandboxie"@,
        ),
        evident(imports, d, "qemu guest"@) ==> evasion_hits(imports, d).contains(
            "evasion:qemu guest"@,
        ),
        evident(imports, d, "xenservice"@) ==> evasion_hits(imports, d).contains(
            "evasion:xenservice"@,
        ),
{
    lemma_evasion_listed(imports, d);
    let items = evasion_items(imports, d);
    assert forall|k: int| 0 <= k < 7 && (#[trigger] items[k]).0 implies listed(items).contains(
        items[k].1,
    ) by {
        lemma_listed_holds(items, k);
    }
    assert(items[0].1 == "evasion:isdebuggerpresent"@);
    assert(items[1].1 == "evasion:checkremotedebuggerpresent"@);
    assert(items[2].1 == "evasion:vmwaresvga"@);
    assert(items[3].1 == "evasion:virtualbox guest additions"@);
    assert(items[4].1 == "evasion:sandboxie"@);
    assert(items[5].1 == "evasion:qemu guest"@);
    assert(items[6].1 == "evasion:xenservice"@);
}

/// Every capability of a family stands in the whole list.
pub proof fn law_capabilities_are_listed(imports: Seq<Seq<char>>, d: Seq<u8>, t: Seq<char>)
    ensures
        injection_hits(imports).contains(t) || persistence_hits(d).contains(t) || credential_hits(
            imports,
            d,
        ).contains(t) || evasion_hits(imports, d).contains(t) ==> capability_list(
            imports,
            d,
        ).contains(t),
        names(imports, "internetopen"@) || names(imports, "winhttpopen"@) || urls_from(
            d,
            0,
            0,
        ).len() > 0 ==> capability_list(imports, d).contains("network:c2_endpoints"@),
        names(imports, "regsetvalueex"@) || names(imports, "schtask"@) ==> capability_list(
            imports,
            d,
        ).contains("persistence:registry_api"@),
        names(imports, "getcomputername"@) || names(imports, "getusername"@) || names(
            imports,
            "getadaptersinfo"@,
        ) ==> capability_list(imports, d).contains("recon:system_discovery"@),
{
    reveal(names);
    let net = only_if(
        urls_from(d, 0, 0).len() > 0 || network_api(imports),
        "network:c2_endpoints"@,
    );
    let registry = only_if(persistence_api(imports), "persistence:registry_api"@);
    let recon = only_if(recon_count(imports) > 0, "recon:system_discovery"@);
    lemma_holds_if(true, "network:c2_endpoints"@);
    lemma_holds_if(true, "persistence:registry_api"@);
    lemma_holds_if(true, "recon:system_discovery"@);
    let i = injection_hits(imports);
    let p = persistence_hits(d);
    let c = credential_hits(imports, d);
    let e = evasion_hits(imports, d);
    lemma_seven_joined(i, p, registry, c, net, e, recon, t);
    lemma_seven_joined(i, p, registry, c, net, e, recon, "network:c2_endpoints"@);
    lemma_seven_joined(i, p, registry, c, net, e, recon, "persistence:registry_api"@);
    lemma_seven_joined(i, p, registry, c, net, e, recon, "recon:system_discovery"@);
}

proof fn lemma_seven_joined(
    a: Seq<Seq<char>>,
    b: Seq<Seq<char>>,
    c: Seq<Seq<char>>,
    d: Seq<Seq<char>>,
    e: Seq<Seq<char>>,
    f: Seq<Seq<char>>,
    g: Seq<Seq<char>>,
    t: Seq<char>,
)
    ensures
        (a + b + c + d + e + f + g).contains(t) <==> a.contains(t) || b.contains(t) || c.contains(
            t,
        ) || d.contains(t) || e.contains(t) || f.contains(t) || g.contains(t),
{
    lemma_holds_joined(a, b, t);
    lemma_holds_joined(a + b, c, t);
    lemma_holds_joined(a + b + c, d, t);
    lemma_holds_joined(a + b + c + d, e, t);
    lemma_holds_joined(a + b + c + d + e, f, t);
    lemma_holds_joined(a + b + c + d + e + f, g, t);
}

/// Injection and persistence beside a channel out are a chain from a score of 0.55 on.
pub proof fn law_three_families_are_a_chain(
    capabilities: Seq<Seq<char>>,
    score: Score,
    injection: Seq<char>,
    persistence: Seq<char>,
    channel: Seq<char>,
)
    requires
        capabilities.contains("injection:"@ + injection),
        capabilities.contains("persistence:"@ + persistence),
        capabilities.contains("network:"@ + channel) || capabilities.contains(
            "credential_access:"@ + channel,
        ),
    ensures
        chain_of(capabilities, score) <==> score.units >= Score::of_hundredths(55).units,
{
    lemma_begins(capabilities, "injection:"@, injection);
    lemma_begins(capabilities, "persistence:"@, persistence);
    if capabilities.contains("network:"@ + channel) {
        lemma_begins(capabilities, "network:"@, channel);
    } else {
        lemma_begins(capabilities, "credential_access:"@, channel);
    }
}

proof fn lemma_begins(items: Seq<Seq<char>>, prefix: Seq<char>, rest: Seq<char>)
    requires
        items.contains(prefix + rest),
    ensures
        any_begins(items, prefix),
{
    let i = items.index_of(prefix + rest);
    assert((prefix + rest).subrange(0, prefix.len() as int) =~= prefix);
    assert(begins_with(items[i], prefix));
}

proof fn lemma_host_end(d: Seq<u8>, at: int, end: int)
    requires
        0 <= at <= end <= d.len(),
        forall|i: int| at <= i < end ==> is_url_byte(#[trigger] d[i]),
        end < d.len() ==> !is_url_byte(d[end]),
    ensures
        url_end(d, at) == end,
    decreases end - at,
{
    if at < end {
        assert(is_url_byte(d[at]));
        lemma_host_end(d, at + 1, end);
    }
}

proof fn lemma_plain_head(d: Seq<u8>, at: int, start: int)
    requires
        0 <= at <= start,
        start + 11 <= d.len(),
        forall|i: int| 0 <= i < start ==> scheme_length(d, i) == 0,
    ensures
        urls_from(d, at, 0) == urls_from(d, start, 0),
    decreases start - at,
{
    if at < start {
        assert(scheme_length(d, at) == 0);
        lemma_plain_head(d, at + 1, start);
    }
}

/// The bytes of a page address: a scheme and a host with a dot in it that ends in no dot.
pub open spec fn is_page_address(address: Seq<u8>, scheme: int) -> bool {
    &&& (scheme == 7 && address.take(7) == seq![0x68u8, 0x74, 0x74, 0x70, 0x3a, 0x2f, 0x2f]) || (
    scheme == 8 && address.take(8) == seq![0x68u8, 0x74, 0x74, 0x70, 0x73, 0x3a, 0x2f, 0x2f])
    &&& address.len() >= scheme + 4
    &&& forall|i: int| scheme <= i < address.len() ==> is_url_byte(#[trigger] address[i])
    &&& exists|i: int| scheme <= i < address.len() && #[trigger] address[i] == 0x2e
    &&& address.last() != 0x2e
}

/// The first page address in a file is found, letter for letter, whatever stands before it
/// that is no address and whatever follows it that cannot belong to one.
pub proof fn law_first_address_is_found(
    head: Seq<u8>,
    address: Seq<u8>,
    scheme: int,
    tail: Seq<u8>,
)
    requires
        is_page_address(address, scheme),
        forall|i: int| 0 <= i < head.len() ==> scheme_length(head + address + tail, i) == 0,
        tail.len() > 0 ==> !is_url_byte(tail[0]),
    ensures
        urls_from(head + address + tail, 0, 0).len() > 0,
        urls_from(head + address + tail, 0, 0)[0] == ascii_chars(address),
{
    let d = head + address + tail;
    let at = head.len() as int;
    let host = at + scheme;
    let end = at + address.len();
    assert forall|i: int| 0 <= i < address.len() implies d[at + i] == #[trigger] address[i] by {}
    let front = address.take(scheme);
    assert forall|i: int| 0 <= i < scheme implies d[at + i] == #[trigger] front[i] by {
        assert(front[i] == address[i]);
    }
    assert(front[0] == d[at] && front[1] == d[at + 1] && front[2] == d[at + 2] && front[3]
        == d[at + 3] && front[4] == d[at + 4] && front[5] == d[at + 5] && front[6] == d[at + 6]);
    if scheme == 8 {
        assert(front[7] == d[at + 7]);
    }
    assert(scheme_length(d, at) == scheme);
    assert forall|i: int| host <= i < end implies is_url_byte(#[trigger] d[i]) by {
        assert(d[i] == address[i - at]);
    }
    if end < d.len() {
        assert(d[end] == tail[0]);
    }
    lemma_host_end(d, host, end);
    lemma_plain_head(d, 0, at);
    let part = d.subrange(host, end);
    let dot = choose|i: int| scheme <= i < address.len() && #[trigger] address[i] == 0x2e;
    assert(part[dot - scheme] == address[dot]);
    assert(has_dot(part));
    assert(d.subrange(at, end) =~= address);
    let text = ascii_chars(address);
    let drop = |c: char| c == '.';
    assert(text.last() == address.last() as char);
    assert(!drop(text.last()));
    assert(without_trailing(text, drop) == text);
    assert(url_text(d, at, end) == text);
}

/// More findings of a family weigh at least as its first: nothing weighs nothing, several
/// weigh the whole of the family.
pub proof fn law_families_weigh(hits: nat, api: bool, urls: nat)
    ensures
        injection_weight(0) == Score::zero(),
        hits >= 2 ==> injection_weight(hits) == Score::of_hundredths(30),
        hits == 1 ==> injection_weight(hits) == share(30, 60),
        persistence_weight(0, false) == Score::zero(),
        network_weight(0, false) == Score::zero(),
        urls > 0 ==> network_weight(urls, api) == Score::of_hundredths(20),
        recon_weight(0) == Score::zero(),
        hits >= 2 ==> recon_weight(hits) == Score::of_hundredths(10),
        weight_if(true, 25) == Score::of_hundredths(25),
        weight_if(false, 25) == Score::zero(),
{
}

/// A prediction never reaches certainty: it stays at 0.95 and below.
pub proof fn law_predictions_stay_below_certainty(weights: Seq<Score>)
    ensures
        calibrated(weights).units <= Score::of_hundredths(95).units,
{
}

/// Where no family has a weight nothing is predicted.
pub proof fn law_no_capability_no_prediction(weights: Seq<Score>)
    requires
        forall|i: int| 0 <= i < weights.len() ==> (#[trigger] weights[i]).units == 0,
    ensures
        calibrated(weights) == Score::zero(),
{
    lemma_nothing_explained(weights);
}

proof fn lemma_nothing_explained(weights: Seq<Score>)
    requires
        forall|i: int| 0 <= i < weights.len() ==> (#[trigger] weights[i]).units == 0,
    ensures
        complements(weights).len() == 0,
    decreases weights.len(),
{
    if weights.len() > 0 {
        let front = weights.drop_last();
        assert(weights[weights.len() - 1].units == 0);
        assert forall|i: int| 0 <= i < front.len() implies (#[trigger] front[i]).units == 0 by {
            assert(front[i] == weights[i]);
        }
        lemma_nothing_explained(front);
    }
}

/// Each family that has a weight counts once towards the bonus, and none that has none.
pub proof fn law_only_shown_families_count(weights: Seq<Score>, w: Score)
    ensures
        w.units > 0 ==> complements(weights.push(w)).len() == complements(weights).len() + 1,
        w.units > 0 ==> complements(weights.push(w)).last() == Score::one().difference(w),
        w.units == 0 ==> complements(weights.push(w)) == complements(weights),
{
    assert(weights.push(w).drop_last() =~= weights);
    assert(weights.push(w).last() == w);
}

} // verus!
