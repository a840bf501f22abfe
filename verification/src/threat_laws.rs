//! What loading indicators and observing endpoints must find.

use crate::calendar::epoch_seconds;
use crate::net::{
    group_at, group_run, group_text, in_network, ip_bits, ip_text, ipv4_text, is_ip_char,
    law_address_is_in_its_network, law_address_reads_back, lemma_ip_text_chars, masked, parsed_ip,
    IpAddress,
};
use crate::order::{
    lemma_less_total, lemma_less_transitive, sorted_set_of, strictly_sorted, text_less,
};
use crate::text::{
    begins_with, decimal, first_of, index_from, is_digit, is_upper, is_white, lemma_decimal,
    lemma_first_of, lemma_split_piece, lemma_trimmed, lower_char, lowered, occurs_at, split_by,
    trimmed, without_end,
};
use crate::threat_intel::{
    all_keys, cidr_text, distinct_records, host_of, identities, identity, indicator_keys_of,
    keyed_hits, last_of, law_network_reads_back, live_networks, live_under, maybe, maybe_ip_text,
    maybe_one, network_hits, normalized_domain, normalized_indicator, observation_parts,
    observed_records, ordered_keys, parsed_cidr, part_keys, parts_keys, row_record, rows_records,
    unbracketed, under_keys, IntelView, IocRow, NetworkView, RecordView,
};
use vstd::prelude::*;

verus! {

/// A sorted set of any texts exists.
pub proof fn law_sorted_set_exists(items: Seq<Seq<char>>) -> (sorted: Seq<Seq<char>>)
    ensures
        sorted_set_of(sorted, items),
    decreases items.len(),
{
    if items.len() == 0 {
        assert(items =~= Seq::empty());
        items
    } else {
        let front = items.drop_last();
        let before = law_sorted_set_exists(front);
        let sorted = lemma_inserted(before, items.last());
        assert(items =~= front.push(items.last()));
        assert forall|t: Seq<char>| #[trigger] sorted.contains(t) <==> items.contains(t) by {
            vstd::seq_lib::lemma_seq_contains_after_push(front, items.last(), t);
        }
        sorted
    }
}

proof fn lemma_inserted(sorted: Seq<Seq<char>>, x: Seq<char>) -> (more: Seq<Seq<char>>)
    requires
        strictly_sorted(sorted),
    ensures
        strictly_sorted(more),
        forall|t: Seq<char>| #[trigger] more.contains(t) <==> sorted.contains(t) || t == x,
    decreases sorted.len(),
{
    if sorted.len() == 0 {
        let more = seq![x];
        assert(more[0] == x);
        more
    } else {
        let last = sorted.last();
        let front = sorted.drop_last();
        assert(sorted =~= front.push(last));
        assert(strictly_sorted(front));
        lemma_less_total(x, last);
        if x == last {
            assert(sorted[sorted.len() - 1] == x);
            sorted
        } else if text_less(last, x) {
            let more = sorted.push(x);
            assert forall|i: int, j: int| 0 <= i < j < more.len() implies text_less(
                #[trigger] more[i],
                #[trigger] more[j],
            ) by {
                if j == sorted.len() {
                    if i < sorted.len() - 1 {
                        assert(text_less(sorted[i], sorted[sorted.len() - 1]));
                        lemma_less_transitive(sorted[i], last, x);
                    }
                }
            }
            assert forall|t: Seq<char>| #[trigger] more.contains(t) <==> sorted.contains(t) || t
                == x by {
                vstd::seq_lib::lemma_seq_contains_after_push(sorted, x, t);
            }
            more
        } else {
            let part = lemma_inserted(front, x);
            let more = part.push(last);
            assert forall|i: int, j: int| 0 <= i < j < more.len() implies text_less(
                #[trigger] more[i],
                #[trigger] more[j],
            ) by {
                if j == part.len() {
                    assert(part.contains(part[i]));
                    if part[i] != x {
                        let k = front.index_of(part[i]);
                        assert(sorted[k] == part[i]);
                        assert(text_less(sorted[k], sorted[sorted.len() - 1]));
                    }
                }
            }
            assert forall|t: Seq<char>| #[trigger] more.contains(t) <==> sorted.contains(t) || t
                == x by {
                vstd::seq_lib::lemma_seq_contains_after_push(part, last, t);
                vstd::seq_lib::lemma_seq_contains_after_push(front, last, t);
            }
            more
        }
    }
}

/// The keys of an observation in order are all of its keys.
proof fn lemma_ordered_keys(observation: Seq<char>)
    ensures
        sorted_set_of(ordered_keys(observation), all_keys(observation)),
{
    let sorted = law_sorted_set_exists(all_keys(observation));
}

/// A record under a key is among the records of that key, unless it has expired.
proof fn lemma_live_under_holds(
    keyed: Seq<(Seq<char>, RecordView)>,
    key: Seq<char>,
    record: RecordView,
    now: int,
)
    requires
        keyed.contains((key, record)),
        !expired(record.expires_at, now),
    ensures
        live_under(keyed, key, now).contains(record),
    decreases keyed.len(),
{
    let k = keyed.index_of((key, record));
    let front = keyed.drop_last();
    let before = live_under(front, key, now);
    let all = live_under(keyed, key, now);
    if k == keyed.len() - 1 {
        assert(all[all.len() - 1] == record);
    } else {
        assert(front[k] == (key, record));
        lemma_live_under_holds(front, key, record, now);
        let m = before.index_of(record);
        assert(all[m] == record);
    }
}

proof fn lemma_keyed_hits_hold(
    intel: IntelView,
    keys: Seq<Seq<char>>,
    key: Seq<char>,
    record: RecordView,
    now: int,
)
    requires
        keys.contains(key),
        intel.keyed.contains((key, record)),
        !expired(record.expires_at, now),
    ensures
        keyed_hits(intel, keys, now).contains(record),
    decreases keys.len(),
{
    let k = keys.index_of(key);
    let front = keys.drop_last();
    let before = keyed_hits(intel, front, now);
    let here = live_under(intel.keyed, keys.last(), now);
    let all = keyed_hits(intel, keys, now);
    if k == keys.len() - 1 {
        lemma_live_under_holds(intel.keyed, key, record, now);
        let m = here.index_of(record);
        assert(all[before.len() + m] == record);
    } else {
        assert(front[k] == key);
        lemma_keyed_hits_hold(intel, front, key, record, now);
        let m = before.index_of(record);
        assert(all[m] == record);
    }
}

proof fn lemma_live_networks_hold(
    networks: Seq<NetworkView>,
    network: NetworkView,
    ip: IpAddress,
    now: int,
)
    requires
        networks.contains(network),
        in_network(ip, network.address, network.prefix as nat),
        !expired(network.record.expires_at, now),
    ensures
        live_networks(networks, ip, now).contains(network.record),
    decreases networks.len(),
{
    let k = networks.index_of(network);
    let front = networks.drop_last();
    let before = live_networks(front, ip, now);
    let all = live_networks(networks, ip, now);
    if k == networks.len() - 1 {
        assert(all[all.len() - 1] == network.record);
    } else {
        assert(front[k] == network);
        lemma_live_networks_hold(front, network, ip, now);
        let m = before.index_of(network.record);
        assert(all[m] == network.record);
    }
}

proof fn lemma_network_hits_hold(
    intel: IntelView,
    keys: Seq<Seq<char>>,
    key: Seq<char>,
    network: NetworkView,
    ip: IpAddress,
    now: int,
)
    requires
        keys.contains(key),
        parsed_ip(key) == Some(ip),
        intel.networks.contains(network),
        in_network(ip, network.address, network.prefix as nat),
        !expired(network.record.expires_at, now),
    ensures
        network_hits(intel, keys, now).contains(network.record),
    decreases keys.len(),
{
    let k = keys.index_of(key);
    let front = keys.drop_last();
    let before = network_hits(intel, front, now);
    let all = network_hits(intel, keys, now);
    if k == keys.len() - 1 {
        lemma_live_networks_hold(intel.networks, network, ip, now);
        let here = live_networks(intel.networks, ip, now);
        let m = here.index_of(network.record);
        assert(all[before.len() + m] == network.record);
    } else {
        assert(front[k] == key);
        lemma_network_hits_hold(intel, front, key, network, ip, now);
        let m = before.index_of(network.record);
        assert(all[m] == network.record);
    }
}

/// What tells a record from others: its source, kind and value, with colons between them.
pub open spec fn told_by(record: RecordView, source: Seq<char>, kind: Seq<char>, value: Seq<char>) -> bool {
    record.source + ":"@ + record.ioc_type + ":"@ + record.value == source + ":"@ + kind + ":"@
        + value
}

/// Of records that are not told apart the first is kept.
proof fn lemma_distinct_holds(records: Seq<RecordView>, record: RecordView)
    requires
        records.contains(record),
    ensures
        exists|i: int|
            0 <= i < distinct_records(records).len() && identity(
                #[trigger] distinct_records(records)[i],
            ) == identity(record),
        (forall|k: int|
            0 <= k < records.len() && identity(#[trigger] records[k]) == identity(record)
                ==> records[k] == record) ==> distinct_records(records).contains(record),
    decreases records.len(),
{
    let k = records.index_of(record);
    let front = records.drop_last();
    let before = distinct_records(front);
    let all = distinct_records(records);
    let last = records.last();
    if k < records.len() - 1 {
        assert(front[k] == record);
        lemma_distinct_holds(front, record);
        let i = choose|i: int|
            0 <= i < before.len() && identity(#[trigger] before[i]) == identity(record);
        assert(all[i] == before[i]);
        if forall|k: int|
            0 <= k < records.len() && identity(#[trigger] records[k]) == identity(record)
                ==> records[k] == record {
            assert forall|k: int|
                0 <= k < front.len() && identity(#[trigger] front[k]) == identity(
                    record,
                ) implies front[k] == record by {
                assert(records[k] == front[k]);
            }
            let j = before.index_of(record);
            assert(all[j] == record);
        }
    } else if identities(before).contains(identity(last)) {
        let i = identities(before).index_of(identity(last));
        assert(identities(before)[i] == identity(before[i]));
        assert(all[i] == before[i]);
        if forall|k: int|
            0 <= k < records.len() && identity(#[trigger] records[k]) == identity(record)
                ==> records[k] == record {
            lemma_distinct_from(front, i);
            let m = front.index_of(before[i]);
            assert(records[m] == before[i]);
        }
    } else {
        assert(all[all.len() - 1] == record);
    }
}

/// What is kept was there.
proof fn lemma_distinct_from(records: Seq<RecordView>, i: int)
    requires
        0 <= i < distinct_records(records).len(),
    ensures
        records.contains(distinct_records(records)[i]),
    decreases records.len(),
{
    let front = records.drop_last();
    let before = distinct_records(front);
    if i < before.len() {
        lemma_distinct_from(front, i);
        let m = front.index_of(before[i]);
        assert(records[m] == before[i]);
    } else {
        assert(records[records.len() - 1] == records.last());
    }
}

/// The point in time lies at or before `now`.
pub open spec fn expired(time: Option<Seq<char>>, now: int) -> bool {
    time matches Some(t) && epoch_seconds(t) matches Some(seconds) && seconds <= now
}

/// The matches hold one that is told from others as this record is.
pub open spec fn finds(matches: Seq<RecordView>, record: RecordView) -> bool {
    exists|k: int|
        0 <= k < matches.len() && told_by(
            #[trigger] matches[k],
            record.source,
            record.ioc_type,
            record.value,
        )
}

/// A record under a key is found by every observation that gives the key.
proof fn lemma_key_finds(
    intel: IntelView,
    observation: Seq<char>,
    key: Seq<char>,
    record: RecordView,
    now: int,
)
    requires
        all_keys(observation).contains(key),
        intel.keyed.contains((key, record)),
        !expired(record.expires_at, now),
    ensures
        finds(observed_records(intel, observation, now), record),
        (intel.networks.len() == 0 && forall|k: int|
            0 <= k < intel.keyed.len() ==> (#[trigger] intel.keyed[k]).1 == record)
            ==> observed_records(intel, observation, now).contains(record),
{
    let keys = ordered_keys(observation);
    lemma_ordered_keys(observation);
    assert(keys.contains(key));
    lemma_keyed_hits_hold(intel, keys, key, record, now);
    let hits = keyed_hits(intel, keys, now);
    let nets = network_hits(intel, keys, now);
    let m = hits.index_of(record);
    assert((hits + nets)[m] == record);
    lemma_distinct_holds(hits + nets, record);
    let i = choose|i: int|
        0 <= i < distinct_records(hits + nets).len() && identity(
            #[trigger] distinct_records(hits + nets)[i],
        ) == identity(record);
    assert(told_by(
        observed_records(intel, observation, now)[i],
        record.source,
        record.ioc_type,
        record.value,
    ));
    if intel.networks.len() == 0 && forall|k: int|
        0 <= k < intel.keyed.len() ==> (#[trigger] intel.keyed[k]).1 == record {
        lemma_no_networks(intel, keys, now);
        lemma_hits_alike(intel, keys, record, now);
        assert(hits + nets =~= hits);
    }
}

proof fn lemma_no_networks(intel: IntelView, keys: Seq<Seq<char>>, now: int)
    requires
        intel.networks.len() == 0,
    ensures
        network_hits(intel, keys, now).len() == 0,
    decreases keys.len(),
{
    if keys.len() > 0 {
        lemma_no_networks(intel, keys.drop_last(), now);
    }
}

proof fn lemma_hits_alike(intel: IntelView, keys: Seq<Seq<char>>, record: RecordView, now: int)
    requires
        forall|k: int| 0 <= k < intel.keyed.len() ==> (#[trigger] intel.keyed[k]).1 == record,
    ensures
        forall|k: int|
            0 <= k < keyed_hits(intel, keys, now).len() ==> #[trigger] keyed_hits(
                intel,
                keys,
                now,
            )[k] == record,
    decreases keys.len(),
{
    if keys.len() > 0 {
        lemma_hits_alike(intel, keys.drop_last(), record, now);
        lemma_under_alike(intel.keyed, keys.last(), record, now);
        let before = keyed_hits(intel, keys.drop_last(), now);
        let here = live_under(intel.keyed, keys.last(), now);
        assert forall|k: int| 0 <= k < (before + here).len() implies #[trigger] (before + here)[k]
            == record by {
            if k < before.len() {
                assert(before[k] == record);
            } else {
                assert(here[k - before.len()] == record);
            }
        }
    }
}

proof fn lemma_under_alike(
    keyed: Seq<(Seq<char>, RecordView)>,
    key: Seq<char>,
    record: RecordView,
    now: int,
)
    requires
        forall|k: int| 0 <= k < keyed.len() ==> (#[trigger] keyed[k]).1 == record,
    ensures
        forall|k: int|
            0 <= k < live_under(keyed, key, now).len() ==> #[trigger] live_under(keyed, key, now)[k]
                == record,
    decreases keyed.len(),
{
    if keyed.len() > 0 {
        let front = keyed.drop_last();
        assert(forall|k: int| 0 <= k < front.len() ==> front[k] == keyed[k]);
        lemma_under_alike(front, key, record, now);
        assert(keyed[keyed.len() - 1] == keyed.last());
    }
}

/// A row that gives a record has it loaded.
proof fn lemma_row_loaded(rows: Seq<IocRow>, i: int, min_confidence: u8, now: int, record: RecordView)
    requires
        0 <= i < rows.len(),
        row_record(rows[i], min_confidence, now) == Some(record),
    ensures
        rows_records(rows, min_confidence, now).contains(record),
    decreases rows.len(),
{
    let front = rows.drop_last();
    let before = rows_records(front, min_confidence, now);
    let all = rows_records(rows, min_confidence, now);
    if i == rows.len() - 1 {
        assert(all[all.len() - 1] == record);
    } else {
        assert(front[i] == rows[i]);
        lemma_row_loaded(front, i, min_confidence, now, record);
        let m = before.index_of(record);
        assert(all[m] == record);
    }
}

/// A record that is added stands under each of its keys, whatever is added behind it.
proof fn lemma_added_under_key(
    intel: IntelView,
    records: Seq<RecordView>,
    record: RecordView,
    key: Seq<char>,
)
    requires
        records.contains(record),
        record.ioc_type != "cidr"@,
        indicator_keys_of(record.value, record.ioc_type).contains(key),
    ensures
        intel.add_all(records).keyed.contains((key, record)),
    decreases records.len(),
{
    let k = records.index_of(record);
    let front = records.drop_last();
    let before = intel.add_all(front);
    let after = intel.add_all(records);
    if k == records.len() - 1 {
        let keys = indicator_keys_of(record.value, record.ioc_type);
        let m = keys.index_of(key);
        assert(under_keys(keys, record)[m] == (key, record));
        assert(after.keyed[before.keyed.len() + m] == (key, record));
    } else {
        assert(front[k] == record);
        lemma_added_under_key(intel, front, record, key);
        let m = before.keyed.index_of((key, record));
        assert(after.keyed[m] == (key, record));
    }
}

proof fn lemma_added_network(
    intel: IntelView,
    records: Seq<RecordView>,
    record: RecordView,
    address: IpAddress,
    prefix: nat,
)
    requires
        records.contains(record),
        record.ioc_type == "cidr"@,
        parsed_cidr(record.value) == Some((address, prefix)),
    ensures
        intel.add_all(records).networks.contains(
            (NetworkView { address, prefix: prefix as u8, record }),
        ),
    decreases records.len(),
{
    let network = NetworkView { address, prefix: prefix as u8, record };
    let k = records.index_of(record);
    let front = records.drop_last();
    let before = intel.add_all(front);
    let after = intel.add_all(records);
    if k == records.len() - 1 {
        assert(after.networks[before.networks.len() as int] == network);
    } else {
        assert(front[k] == record);
        lemma_added_network(intel, front, record, address, prefix);
        let m = before.networks.index_of(network);
        assert(after.networks[m] == network);
    }
}

/// The character neither parts an observation nor stands around what is observed.
pub open spec fn is_plain(c: char) -> bool {
    &&& !is_white(c)
    &&& c != ',' && c != ';' && c != '(' && c != ')' && c != '"' && c != '\''
    &&& c != '[' && c != ']' && c != '{' && c != '}'
}

/// A text of plain characters.
pub open spec fn all_plain(s: Seq<char>) -> bool {
    forall|i: int| 0 <= i < s.len() ==> is_plain(#[trigger] s[i])
}

/// A text of plain characters is observed as a whole.
proof fn lemma_plain_part(s: Seq<char>)
    requires
        all_plain(s),
        s.len() > 0,
    ensures
        observation_parts(s) == seq![s],
        unbracketed(s, true) == s,
        unbracketed(s, false) == s,
        all_keys(s) == part_keys(s),
{
    lemma_one_part(s);
    assert(is_plain(s[0]) && is_plain(s[s.len() - 1]));
    let parts = seq![s];
    assert(parts.drop_last() =~= Seq::empty());
    assert(parts_keys(parts) == parts_keys(parts.drop_last()) + part_keys(s));
    assert(parts_keys(parts.drop_last()) =~= Seq::empty());
    assert(Seq::<Seq<char>>::empty() + part_keys(s) =~= part_keys(s));
}

proof fn lemma_one_part(s: Seq<char>)
    requires
        all_plain(s),
    ensures
        observation_parts(s) == seq![s],
    decreases s.len(),
{
    if s.len() == 0 {
        assert(s =~= Seq::empty());
    } else {
        let front = s.drop_last();
        assert(all_plain(front));
        lemma_one_part(front);
        assert(is_plain(s[s.len() - 1]));
        assert(front.push(s.last()) =~= s);
        assert(seq![front].update(0, front.push(s.last())) =~= seq![s]);
    }
}

/// The confidence of a row suffices, and it has not expired.
pub open spec fn row_counts(row: IocRow, min_confidence: u8, now: int) -> bool {
    &&& row.confidence >= min_confidence
    &&& min_confidence <= 100
    &&& !expired(maybe(row.expires_at), now)
}

/// The record that a row gives of an indicator in its normal form.
pub open spec fn given_record(row: IocRow, value: Seq<char>, kind: Seq<char>) -> RecordView {
    RecordView {
        value,
        ioc_type: kind,
        source: row.source@,
        confidence: if row.confidence > 100 {
            100
        } else {
            row.confidence as u8
        },
        malware: maybe(row.malware),
        tags: maybe(row.tags),
        reference: maybe(row.reference),
        first_seen: maybe(row.first_seen),
        last_seen: maybe(row.last_seen),
        expires_at: maybe(row.expires_at),
    }
}

/// The text is the address of a page: it begins with the scheme, in any letter case.
pub open spec fn is_page(value: Seq<char>) -> bool {
    begins_with(lowered(value), "http://"@) || begins_with(lowered(value), "https://"@)
}

proof fn lemma_page_ends(value: Seq<char>)
    requires
        is_page(value),
        !is_white(value.last()),
    ensures
        trimmed(value) == value,
        value.len() >= 7,
{
    reveal_strlit("http://");
    reveal_strlit("https://");
    let low = lowered(value);
    assert(low[0] == 'h') by {
        if begins_with(low, "http://"@) {
            assert(low.subrange(0, 7)[0] == low[0]);
        } else {
            assert(low.subrange(0, 8)[0] == low[0]);
        }
    }
    assert(!is_white(value[0]));
    lemma_trimmed(value);
}

/// Cutting dots from the end leaves the scheme.
proof fn lemma_page_without_dots(low: Seq<char>)
    requires
        begins_with(low, "http://"@) || begins_with(low, "https://"@),
    ensures
        begins_with(without_end(low, '.'), "http://"@) || begins_with(
            without_end(low, '.'),
            "https://"@,
        ),
    decreases low.len(),
{
    reveal_strlit("http://");
    reveal_strlit("https://");
    if low.len() > 0 && low.last() == '.' {
        let front = low.drop_last();
        if begins_with(low, "http://"@) {
            if low.len() == 7 {
                assert(low.subrange(0, 7)[6] == low.last());
            }
            assert(front.subrange(0, 7) =~= low.subrange(0, 7));
            assert(begins_with(front, "http://"@));
        } else {
            if low.len() == 8 {
                assert(low.subrange(0, 8)[7] == low.last());
            }
            assert(front.subrange(0, 8) =~= low.subrange(0, 8));
            assert(begins_with(front, "https://"@));
        }
        lemma_page_without_dots(front);
    }
}

proof fn lemma_lowered_twice(s: Seq<char>)
    ensures
        lowered(lowered(s)) == lowered(s),
{
    assert(lowered(lowered(s)) =~= lowered(s));
}

proof fn lemma_url_kind()
    ensures
        "url"@ != "ip"@,
        "url"@ != "ipv4"@,
        "url"@ != "ipv6"@,
        "url"@ != "domain"@,
        "url"@ != "cidr"@,
        "url"@ != "network"@,
        trimmed("url"@) == "url"@,
        lowered("url"@) == "url"@,
{
    reveal_strlit("url");
    reveal_strlit("ip");
    reveal_strlit("ipv4");
    reveal_strlit("ipv6");
    reveal_strlit("domain");
    reveal_strlit("cidr");
    reveal_strlit("network");
    assert("url"@[0] == 'u' && "url"@[2] == 'l');
    lemma_trimmed("url"@);
    assert(lowered("url"@) =~= "url"@);
    assert("url"@.len() == 3);
    assert("ip"@.len() == 2 && "ipv4"@.len() == 4 && "ipv6"@.len() == 4 && "domain"@.len() == 6
        && "cidr"@.len() == 4 && "network"@.len() == 7);
}

/// The address of a page in its normal form.
proof fn lemma_page_normal(value: Seq<char>, kind: Seq<char>)
    requires
        is_page(value),
        !is_white(value.last()),
        lowered(trimmed(kind)) == "url"@,
    ensures
        normalized_indicator(value, kind) == Some((without_end(lowered(value), '.'), "url"@)),
{
    lemma_url_kind();
    lemma_page_ends(value);
    lemma_page_without_dots(lowered(value));
}

/// Every row of sufficient confidence that has not expired, of the kind `url` and with the
/// address of a page, is loaded, with all that it says and the address in lower case without
/// dots at its end.
pub proof fn law_page_addresses_are_loaded(
    rows: Seq<IocRow>,
    i: int,
    min_confidence: u8,
    now: int,
)
    requires
        0 <= i < rows.len(),
        row_counts(rows[i], min_confidence, now),
        lowered(trimmed(rows[i].ioc_type@)) == "url"@,
        is_page(rows[i].value@),
        !is_white(rows[i].value@.last()),
    ensures
        rows_records(rows, min_confidence, now).contains(
            given_record(rows[i], without_end(lowered(rows[i].value@), '.'), "url"@),
        ),
{
    let row = rows[i];
    let record = given_record(row, without_end(lowered(row.value@), '.'), "url"@);
    lemma_page_normal(row.value@, row.ioc_type@);
    assert(row_record(row, min_confidence, now)->0 =~= record);
    lemma_row_loaded(rows, i, min_confidence, now, record);
}

/// An address of a page that was loaded is found again: observing it, in any letter case,
/// gives a match of its source, kind and value, as long as the record has not expired.
pub proof fn law_loaded_page_address_is_found(
    intel: IntelView,
    rows: Seq<IocRow>,
    i: int,
    now: int,
    observation: Seq<char>,
    later: int,
)
    requires
        0 <= i < rows.len(),
        row_counts(rows[i], intel.min_confidence, now),
        lowered(trimmed(rows[i].ioc_type@)) == "url"@,
        is_page(rows[i].value@),
        all_plain(rows[i].value@),
        rows[i].value@.last() != '.',
        lowered(observation) == lowered(rows[i].value@),
        all_plain(observation),
        !expired(maybe(rows[i].expires_at), later),
    ensures
        finds(
            observed_records(
                intel.add_all(rows_records(rows, intel.min_confidence, now)),
                observation,
                later,
            ),
            given_record(rows[i], lowered(rows[i].value@), "url"@),
        ),
{
    let row = rows[i];
    let value = row.value@;
    let low = lowered(value);
    let record = given_record(row, low, "url"@);
    let records = rows_records(rows, intel.min_confidence, now);
    let full = intel.add_all(records);
    lemma_page_facts(value, observation);
    law_page_addresses_are_loaded(rows, i, intel.min_confidence, now);
    lemma_url_kind();
    lemma_added_under_key(intel, records, record, low);
    lemma_key_finds(full, observation, low, record, later);
}

/// What a plain address of a page is loaded and looked up by.
proof fn lemma_page_facts(value: Seq<char>, observation: Seq<char>)
    requires
        is_page(value),
        all_plain(value),
        value.last() != '.',
        lowered(observation) == lowered(value),
        all_plain(observation),
    ensures
        !is_white(value.last()),
        without_end(lowered(value), '.') == lowered(value),
        indicator_keys_of(lowered(value), "url"@).contains(lowered(value)),
        all_keys(observation).contains(lowered(value)),
{
    let low = lowered(value);
    lemma_url_kind();
    assert(value.len() > 0) by {
        reveal_strlit("http://");
        reveal_strlit("https://");
        assert(low.len() == value.len());
    }
    let n = value.len() - 1;
    assert(is_plain(value[n]));
    assert(observation.len() == value.len()) by {
        assert(lowered(observation).len() == observation.len());
    }
    assert(is_plain(observation[n]));
    assert(lowered(observation)[n] == lower_char(observation[n]));
    assert(low[n] == lower_char(value[n]));
    assert(low.last() != '.');
    lemma_lowered_twice(value);
    assert(!is_white(low.last()));
    lemma_page_normal(low, "url"@);
    lemma_page_normal(observation, "url"@);
    let host = maybe_one(host_of(low));
    let keys = indicator_keys_of(low, "url"@);
    assert(keys == seq![low] + host);
    assert(keys[0] == low);
    lemma_plain_part(observation);
    let all = part_keys(observation);
    assert(all[0] == low);
}

/// A single row that was loaded into an empty store is what the observation of its address
/// gives.
pub proof fn law_single_page_address_is_given_back(row: IocRow, min_confidence: u8, now: int, later: int)
    requires
        row_counts(row, min_confidence, now),
        lowered(trimmed(row.ioc_type@)) == "url"@,
        is_page(row.value@),
        all_plain(row.value@),
        row.value@.last() != '.',
        !expired(maybe(row.expires_at), later),
    ensures
        rows_records(seq![row], min_confidence, now).len() == 1,
        observed_records(
            IntelView::empty(min_confidence).add_all(
                rows_records(seq![row], min_confidence, now),
            ),
            row.value@,
            later,
        ).contains(given_record(row, lowered(row.value@), "url"@)),
{
    let rows = seq![row];
    let value = row.value@;
    let low = lowered(value);
    let record = given_record(row, low, "url"@);
    let empty = IntelView::empty(min_confidence);
    lemma_page_facts(value, value);
    law_page_addresses_are_loaded(rows, 0, min_confidence, now);
    let records = rows_records(rows, min_confidence, now);
    assert(rows.drop_last() =~= Seq::empty());
    assert(rows_records(rows.drop_last(), min_confidence, now) =~= Seq::empty());
    assert(records.len() <= 1);
    assert(records =~= seq![record]);
    lemma_url_kind();
    let full = empty.add_all(records);
    assert(records.drop_last() =~= Seq::empty());
    assert(empty.add_all(records.drop_last()) == empty);
    assert(full == empty.add(record));
    lemma_added_under_key(empty, records, record, low);
    let keys = indicator_keys_of(low, "url"@);
    assert(full.keyed =~= under_keys(keys, record));
    assert forall|k: int| 0 <= k < full.keyed.len() implies (#[trigger] full.keyed[k]).1
        == record by {
        assert(under_keys(keys, record)[k].1 == record);
    }
    lemma_key_finds(full, value, low, record, later);
}

/// A text of address characters without capitals that does not end in a dot.
spec fn is_low_address(s: Seq<char>) -> bool {
    &&& s.len() > 0
    &&& s.last() != '.'
    &&& forall|i: int| 0 <= i < s.len() ==> is_ip_char(#[trigger] s[i]) && !is_upper(s[i])
}

spec fn no_capitals(s: Seq<char>) -> bool {
    forall|i: int| 0 <= i < s.len() ==> !is_upper(#[trigger] s[i])
}

proof fn lemma_no_capitals(a: Seq<char>, b: Seq<char>)
    requires
        no_capitals(a),
        no_capitals(b),
    ensures
        no_capitals(a + b),
{
    assert forall|i: int| 0 <= i < (a + b).len() implies !is_upper(#[trigger] (a + b)[i]) by {
        if i < a.len() {
            assert((a + b)[i] == a[i]);
        } else {
            assert((a + b)[i] == b[i - a.len()]);
        }
    }
}

proof fn lemma_decimal_low(n: nat)
    ensures
        no_capitals(decimal(n)),
        decimal(n).len() > 0,
        decimal(n).last() != '.',
{
    lemma_decimal(n);
    let s = decimal(n);
    assert(is_digit(s[s.len() - 1]));
    assert forall|i: int| 0 <= i < s.len() implies !is_upper(#[trigger] s[i]) by {
        assert(is_digit(s[i]));
    }
}

proof fn lemma_ipv4_low(v: nat)
    ensures
        no_capitals(ipv4_text(v)),
        ipv4_text(v).len() > 0,
        ipv4_text(v).last() != '.',
{
    reveal_strlit(".");
    let a = decimal(v / 0x100_0000);
    let b = decimal(v / 0x1_0000 % 0x100);
    let c = decimal(v / 0x100 % 0x100);
    let d = decimal(v % 0x100);
    lemma_decimal_low(v / 0x100_0000);
    lemma_decimal_low(v / 0x1_0000 % 0x100);
    lemma_decimal_low(v / 0x100 % 0x100);
    lemma_decimal_low(v % 0x100);
    assert(no_capitals("."@));
    lemma_no_capitals(a, "."@);
    lemma_no_capitals(a + "."@, b);
    lemma_no_capitals(a + "."@ + b, "."@);
    lemma_no_capitals(a + "."@ + b + "."@, c);
    lemma_no_capitals(a + "."@ + b + "."@ + c, "."@);
    lemma_no_capitals(a + "."@ + b + "."@ + c + "."@, d);
}

proof fn lemma_group_low(g: nat)
    ensures
        no_capitals(group_text(g)),
        group_text(g).len() > 0,
        group_text(g).last() != '.',
    decreases g,
{
    if g >= 16 {
        lemma_group_low(g / 16);
        lemma_no_capitals(group_text(g / 16), seq![crate::digest::hex_char(g % 16)]);
        assert(group_text(g) =~= group_text(g / 16) + seq![crate::digest::hex_char(g % 16)]);
    }
}

proof fn lemma_run_low(groups: Seq<nat>, from: int, to: int)
    ensures
        no_capitals(group_run(groups, from, to)),
        from < to ==> group_run(groups, from, to).len() > 0 && group_run(groups, from, to).last()
            != '.',
    decreases to - from,
{
    reveal_strlit(":");
    if from + 1 < to {
        lemma_run_low(groups, from, to - 1);
        lemma_group_low(groups[to - 1]);
        assert(no_capitals(":"@));
        lemma_no_capitals(group_run(groups, from, to - 1), ":"@);
        lemma_no_capitals(group_run(groups, from, to - 1) + ":"@, group_text(groups[to - 1]));
    } else if from < to {
        lemma_group_low(groups[from]);
    }
}

proof fn lemma_ip_low(ip: IpAddress)
    ensures
        is_low_address(ip_text(ip)),
{
    lemma_ip_text_chars(ip);
    match ip {
        IpAddress::V4(v) => {
            lemma_ipv4_low(v as nat);
        },
        IpAddress::V6(v) => {
            let groups = Seq::new(8, |i: int| group_at(v as nat, i));
            let start = crate::net::longest_zeros(groups, 8);
            let run = crate::net::zeros_from(groups, start) as int;
            reveal_strlit("::");
            reveal_strlit("::ffff:");
            assert(no_capitals("::"@));
            assert(no_capitals("::ffff:"@));
            lemma_ipv4_low((0x1_0000 * groups[6] + groups[7]) as nat);
            lemma_no_capitals(
                "::ffff:"@,
                ipv4_text((0x1_0000 * groups[6] + groups[7]) as nat),
            );
            lemma_run_low(groups, 0, start);
            lemma_run_low(groups, start + run, 8);
            lemma_run_low(groups, 0, 8);
            lemma_no_capitals(group_run(groups, 0, start), "::"@);
            lemma_no_capitals(
                group_run(groups, 0, start) + "::"@,
                group_run(groups, start + run, 8),
            );
            if start + run >= 8 {
                assert(group_run(groups, start + run, 8) =~= Seq::empty());
            }
        },
    }
}

proof fn lemma_low_address(s: Seq<char>)
    requires
        is_low_address(s),
    ensures
        all_plain(s),
        trimmed(s) == s,
        lowered(s) == s,
        without_end(s, '.') == s,
{
    assert forall|i: int| 0 <= i < s.len() implies is_plain(#[trigger] s[i]) by {
        assert(is_ip_char(s[i]));
    }
    assert(is_plain(s[0]) && is_plain(s[s.len() - 1]));
    lemma_trimmed(s);
    assert forall|i: int| 0 <= i < s.len() implies lowered(s)[i] == s[i] by {
        assert(!is_upper(s[i]));
    }
    assert(lowered(s) =~= s);
}

/// The kind of an address.
pub open spec fn address_kind(ip: IpAddress) -> Seq<char> {
    match ip {
        IpAddress::V4(_) => "ipv4"@,
        IpAddress::V6(_) => "ipv6"@,
    }
}

proof fn lemma_kinds()
    ensures
        trimmed("ipv4"@) == "ipv4"@,
        lowered("ipv4"@) == "ipv4"@,
        trimmed("ipv6"@) == "ipv6"@,
        lowered("ipv6"@) == "ipv6"@,
        trimmed("domain"@) == "domain"@,
        lowered("domain"@) == "domain"@,
        "ipv4"@ != "cidr"@,
        "ipv6"@ != "cidr"@,
        "ipv4"@ != "url"@,
        "ipv6"@ != "url"@,
        "domain"@ != "cidr"@,
        "domain"@ != "url"@,
        "domain"@ != "ip"@,
        "domain"@ != "ipv4"@,
        "domain"@ != "ipv6"@,
        "cidr"@ != "ip"@,
        "cidr"@ != "url"@,
        "network"@ != "ip"@,
        "network"@ != "ipv4"@,
        "network"@ != "ipv6"@,
        "network"@ != "domain"@,
        "network"@ != "url"@,
{
    reveal_strlit("url");
    reveal_strlit("ip");
    reveal_strlit("ipv4");
    reveal_strlit("ipv6");
    reveal_strlit("domain");
    reveal_strlit("cidr");
    reveal_strlit("network");
    lemma_trimmed("ipv4"@);
    lemma_trimmed("ipv6"@);
    lemma_trimmed("domain"@);
    assert(lowered("ipv4"@) =~= "ipv4"@);
    assert(lowered("ipv6"@) =~= "ipv6"@);
    assert(lowered("domain"@) =~= "domain"@);
    assert("ipv4"@[0] == 'i' && "ipv6"@[0] == 'i' && "cidr"@[0] == 'c');
    assert("url"@.len() == 3 && "ip"@.len() == 2 && "ipv4"@.len() == 4 && "ipv6"@.len() == 4
        && "domain"@.len() == 6 && "cidr"@.len() == 4 && "network"@.len() == 7);
}

/// An address that was loaded is found again: observing it gives a match of its source, kind
/// and value, as long as the record has not expired.
pub proof fn law_loaded_address_is_found(
    intel: IntelView,
    rows: Seq<IocRow>,
    i: int,
    ip: IpAddress,
    now: int,
    later: int,
)
    requires
        0 <= i < rows.len(),
        row_counts(rows[i], intel.min_confidence, now),
        lowered(trimmed(rows[i].ioc_type@)) == "ip"@ || lowered(trimmed(rows[i].ioc_type@))
            == "ipv4"@ || lowered(trimmed(rows[i].ioc_type@)) == "ipv6"@,
        rows[i].value@ == ip_text(ip),
        !expired(maybe(rows[i].expires_at), later),
    ensures
        finds(
            observed_records(
                intel.add_all(rows_records(rows, intel.min_confidence, now)),
                ip_text(ip),
                later,
            ),
            given_record(rows[i], ip_text(ip), address_kind(ip)),
        ),
{
    let row = rows[i];
    let text = ip_text(ip);
    let kind = address_kind(ip);
    let record = given_record(row, text, kind);
    let records = rows_records(rows, intel.min_confidence, now);
    lemma_ip_low(ip);
    lemma_low_address(text);
    law_address_reads_back(ip);
    lemma_kinds();
    assert(normalized_indicator(text, row.ioc_type@) == Some((text, kind)));
    assert(row_record(row, intel.min_confidence, now)->0 =~= record);
    lemma_row_loaded(rows, i, intel.min_confidence, now, record);
    assert(normalized_indicator(text, kind) == Some((text, kind)));
    assert(indicator_keys_of(text, kind) == seq![text]);
    assert(seq![text][0] == text);
    lemma_added_under_key(intel, records, record, text);
    lemma_address_key(ip);
    lemma_key_finds(intel.add_all(records), text, text, record, later);
}

/// An address is looked up by itself.
proof fn lemma_address_key(ip: IpAddress)
    ensures
        all_keys(ip_text(ip)).contains(ip_text(ip)),
{
    let text = ip_text(ip);
    lemma_ip_low(ip);
    lemma_low_address(text);
    law_address_reads_back(ip);
    lemma_plain_part(text);
    let page = match normalized_indicator(text, "url"@) {
        Some((t, _)) => seq![t] + maybe_one(host_of(t)),
        None => Seq::empty(),
    };
    assert(maybe_one(maybe_ip_text(parsed_ip(text))) == seq![text]);
    assert(part_keys(text) == page + seq![text] + maybe_one(host_of(text)));
    assert((page + seq![text] + maybe_one(host_of(text)))[page.len() as int] == text);
}

proof fn lemma_cidr_normal(text: Seq<char>, kind: Seq<char>, network: IpAddress, prefix: nat)
    requires
        lowered(trimmed(kind)) == "cidr"@ || lowered(trimmed(kind)) == "network"@,
        trimmed(text) == text,
        lowered(text) == text,
        without_end(text, '.') == text,
        parsed_cidr(text) == Some((network, prefix)),
    ensures
        normalized_indicator(text, kind) == Some((cidr_text(network, prefix), "cidr"@)),
{
    lemma_kinds();
}

/// The record of a network is found by every address that lies in it.
proof fn lemma_network_finds(full: IntelView, held: NetworkView, seen: IpAddress, later: int)
    requires
        full.networks.contains(held),
        in_network(seen, held.address, held.prefix as nat),
        !expired(held.record.expires_at, later),
    ensures
        finds(observed_records(full, ip_text(seen), later), held.record),
{
    let record = held.record;
    lemma_address_key(seen);
    law_address_reads_back(seen);
    let keys = ordered_keys(ip_text(seen));
    lemma_ordered_keys(ip_text(seen));
    assert(keys.contains(ip_text(seen)));
    lemma_network_hits_hold(full, keys, ip_text(seen), held, seen, later);
    let hits = keyed_hits(full, keys, later);
    let nets = network_hits(full, keys, later);
    let m = nets.index_of(record);
    assert((hits + nets)[hits.len() + m] == record);
    lemma_distinct_holds(hits + nets, record);
    let k = choose|k: int|
        0 <= k < distinct_records(hits + nets).len() && identity(
            #[trigger] distinct_records(hits + nets)[k],
        ) == identity(record);
    assert(told_by(
        observed_records(full, ip_text(seen), later)[k],
        record.source,
        record.ioc_type,
        record.value,
    ));
}

/// A network that was loaded is found by its addresses: observing one that agrees with it in
/// the first bits gives a match of its source, kind and value.
pub proof fn law_loaded_network_is_found(
    intel: IntelView,
    rows: Seq<IocRow>,
    i: int,
    ip: IpAddress,
    prefix: nat,
    seen: IpAddress,
    now: int,
    later: int,
)
    requires
        0 <= i < rows.len(),
        row_counts(rows[i], intel.min_confidence, now),
        lowered(trimmed(rows[i].ioc_type@)) == "cidr"@ || lowered(trimmed(rows[i].ioc_type@))
            == "network"@,
        prefix <= ip_bits(ip),
        rows[i].value@ == ip_text(ip) + "/"@ + decimal(prefix),
        agrees(seen, ip, prefix),
        !expired(maybe(rows[i].expires_at), later),
    ensures
        finds(
            observed_records(
                intel.add_all(rows_records(rows, intel.min_confidence, now)),
                ip_text(seen),
                later,
            ),
            given_record(
                rows[i],
                ip_text(masked(ip, prefix)) + "/"@ + decimal(prefix),
                "cidr"@,
            ),
        ),
{
    let row = rows[i];
    let text = row.value@;
    let network = masked(ip, prefix);
    let shown = cidr_text(network, prefix);
    let record = given_record(row, shown, "cidr"@);
    let records = rows_records(rows, intel.min_confidence, now);
    lemma_cidr_plain(ip, prefix);
    lemma_cidr_normal(text, row.ioc_type@, network, prefix);
    assert(row_record(row, intel.min_confidence, now)->0 =~= record);
    lemma_row_loaded(rows, i, intel.min_confidence, now, record);
    law_network_reads_back(text);
    lemma_added_network(intel, records, record, network, prefix);
    let full = intel.add_all(records);
    let held = NetworkView { address: network, prefix: prefix as u8, record };
    law_address_is_in_its_network(ip, prefix);
    assert(in_network(seen, network, prefix));
    lemma_network_finds(full, held, seen, later);
}

/// Two addresses of one version agree in their first bits.
pub open spec fn agrees(a: IpAddress, b: IpAddress, prefix: nat) -> bool {
    match (a, b) {
        (IpAddress::V4(x), IpAddress::V4(y)) => prefix <= 32 && x as nat
            / vstd::arithmetic::power2::pow2((32 - prefix) as nat) == y as nat
            / vstd::arithmetic::power2::pow2((32 - prefix) as nat),
        (IpAddress::V6(x), IpAddress::V6(y)) => prefix <= 128 && x as nat
            / vstd::arithmetic::power2::pow2((128 - prefix) as nat) == y as nat
            / vstd::arithmetic::power2::pow2((128 - prefix) as nat),
        _ => false,
    }
}

/// A network as text reads back.
proof fn lemma_cidr_plain(ip: IpAddress, prefix: nat)
    requires
        prefix <= ip_bits(ip),
    ensures
        ({
            let text = ip_text(ip) + "/"@ + decimal(prefix);
            &&& trimmed(text) == text
            &&& lowered(text) == text
            &&& without_end(text, '.') == text
            &&& parsed_cidr(text) == Some((masked(ip, prefix), prefix))
        }),
{
    let front = ip_text(ip);
    let digits = decimal(prefix);
    let text = front + "/"@ + digits;
    reveal_strlit("/");
    lemma_ip_low(ip);
    lemma_low_address(front);
    law_address_reads_back(ip);
    lemma_decimal(prefix);
    lemma_decimal_low(prefix);
    let n = front.len() as int;
    assert(text[0] == front[0]);
    assert(is_plain(front[0]));
    assert(is_digit(digits[digits.len() - 1]));
    assert(text.last() == digits.last());
    lemma_trimmed(text);
    assert(text[n] == '/');
    assert forall|k: int| 0 <= k < text.len() implies !is_upper(#[trigger] text[k]) && (k != n ==> text[k]
        != '/') by {
        if k < n {
            assert(text[k] == front[k]);
            assert(is_ip_char(front[k]));
        } else if k > n {
            assert(text[k] == digits[k - n - 1]);
            assert(is_digit(digits[k - n - 1]));
        }
    }
    assert(lowered(text) =~= text);
    lemma_first_of(text, '/');
    assert(text.contains('/'));
    assert(first_of(text, '/') == n);
    assert(text.take(n) =~= front);
    assert(text.skip(n + 1) =~= digits);
    assert(is_digit(digits[0]));
    assert(prefix <= 255);
}

/// One label of a name in lower case: letters and digits, and hyphens inside.
pub open spec fn is_plain_label(s: Seq<char>) -> bool {
    &&& 1 <= s.len() <= 63
    &&& s[0] != '-'
    &&& s.last() != '-'
    &&& forall|i: int|
        0 <= i < s.len() ==> ('a' <= #[trigger] s[i] <= 'z' || '0' <= s[i] <= '9' || s[i] == '-')
}

/// A character of a domain name in lower case.
pub open spec fn is_name_char(c: char) -> bool {
    'a' <= c <= 'z' || '0' <= c <= '9' || c == '-' || c == '.'
}

/// A name of two labels is a domain name, in its normal form.
proof fn lemma_two_labels(host: Seq<char>, top: Seq<char>)
    requires
        is_plain_label(host),
        is_plain_label(top),
    ensures
        ({
            let name = host + seq!['.'] + top;
            &&& forall|i: int| 0 <= i < name.len() ==> is_name_char(#[trigger] name[i])
            &&& all_plain(name)
            &&& trimmed(name) == name
            &&& lowered(name) == name
            &&& without_end(name, '.') == name
            &&& normalized_domain(name) == Some(name)
        }),
{
    let name = host + seq!['.'] + top;
    let n = host.len() as int;
    assert(name[n] == '.');
    assert(name.last() == top.last());
    assert(name[0] == host[0]);
    let t = top[top.len() - 1];
    let h = host[0];
    assert('a' <= t <= 'z' || '0' <= t <= '9');
    assert('a' <= h <= 'z' || '0' <= h <= '9');
    assert forall|i: int| 0 <= i < name.len() implies is_name_char(#[trigger] name[i]) by {
        if i < n {
            assert(name[i] == host[i]);
        } else if i > n {
            assert(name[i] == top[i - n - 1]);
        }
    }
    assert forall|i: int| 0 <= i < name.len() implies is_plain(#[trigger] name[i]) by {
        assert(is_name_char(name[i]));
    }
    assert(is_plain(name[0]) && is_plain(name[name.len() - 1]));
    lemma_trimmed(name);
    assert forall|i: int| 0 <= i < name.len() implies lowered(name)[i] == name[i] by {
        assert(is_name_char(name[i]));
    }
    assert(lowered(name) =~= name);
    assert(!host.contains('.')) by {
        if host.contains('.') {
            let i = host.index_of('.');
            assert('a' <= host[i] <= 'z' || '0' <= host[i] <= '9' || host[i] == '-');
        }
    }
    assert(!top.contains('.')) by {
        if top.contains('.') {
            let i = top.index_of('.');
            assert('a' <= top[i] <= 'z' || '0' <= top[i] <= '9' || top[i] == '-');
        }
    }
    lemma_split_piece(host, '.', top);
    lemma_split_piece(host, '.', host);
    assert(host.push('.') + top =~= name);
    let labels = split_by(name, '.');
    assert(labels =~= seq![host, top]);
    assert forall|i: int| 0 <= i < labels.len() implies crate::threat_intel::is_label(
        #[trigger] labels[i],
    ) by {
        let label = if i == 0 {
            host
        } else {
            top
        };
        assert(labels[i] == label);
        assert forall|k: int| 0 <= k < label.len() implies crate::threat_intel::is_label_char(
            #[trigger] label[k],
        ) by {
            assert('a' <= label[k] <= 'z' || '0' <= label[k] <= '9' || label[k] == '-');
        }
    }
}

proof fn lemma_absent(s: Seq<char>, c: char)
    requires
        forall|i: int| 0 <= i < s.len() ==> #[trigger] s[i] != c,
    ensures
        first_of(s, c) == s.len(),
        last_of(s, c) == -1,
    decreases s.len(),
{
    lemma_first_of(s, c);
    if s.contains(c) {
        let i = s.index_of(c);
        assert(s[i] != c);
    }
    if s.len() > 0 {
        lemma_absent(s.drop_last(), c);
    }
}

proof fn lemma_needle_absent(s: Seq<char>, needle: Seq<char>, from: int)
    requires
        0 <= from,
        needle.len() > 0,
        forall|i: int| 0 <= i < s.len() ==> #[trigger] s[i] != needle[0],
    ensures
        index_from(s, needle, from) == s.len(),
    decreases s.len() - from,
{
    if from < s.len() {
        if occurs_at(s, needle, from) {
            assert(s.subrange(from, from + needle.len())[0] == s[from]);
        }
        lemma_needle_absent(s, needle, from + 1);
    }
}

/// A bare name is its own host.
proof fn lemma_bare_name(name: Seq<char>)
    requires
        forall|i: int| 0 <= i < name.len() ==> is_name_char(#[trigger] name[i]),
        trimmed(name) == name,
        parsed_ip(name) is None,
        normalized_domain(name) == Some(name),
    ensures
        host_of(name) == Some(name),
{
    reveal_strlit("://");
    assert forall|i: int| 0 <= i < name.len() implies #[trigger] name[i] != ':' && name[i] != '/'
        && name[i] != '?' && name[i] != '#' && name[i] != '@' && name[i] != '[' by {
        assert(is_name_char(name[i]));
    }
    lemma_needle_absent(name, "://"@, 0);
    lemma_absent(name, '/');
    lemma_absent(name, '?');
    lemma_absent(name, '#');
    lemma_absent(name, '@');
    lemma_absent(name, ':');
    assert(name.take(name.len() as int) =~= name);
    assert(name.skip(0) =~= name);
}

/// A domain name that was loaded is found again: observing it gives a match of its source,
/// kind and value, as long as the record has not expired.
pub proof fn law_loaded_domain_is_found(
    intel: IntelView,
    rows: Seq<IocRow>,
    i: int,
    host: Seq<char>,
    top: Seq<char>,
    now: int,
    later: int,
)
    requires
        0 <= i < rows.len(),
        row_counts(rows[i], intel.min_confidence, now),
        lowered(trimmed(rows[i].ioc_type@)) == "domain"@,
        is_plain_label(host),
        is_plain_label(top),
        lowered(rows[i].value@) == host + seq!['.'] + top,
        parsed_ip(host + seq!['.'] + top) is None,
        !expired(maybe(rows[i].expires_at), later),
    ensures
        finds(
            observed_records(
                intel.add_all(rows_records(rows, intel.min_confidence, now)),
                host + seq!['.'] + top,
                later,
            ),
            given_record(rows[i], host + seq!['.'] + top, "domain"@),
        ),
{
    let row = rows[i];
    let name = host + seq!['.'] + top;
    let given = row.value@;
    let record = given_record(row, name, "domain"@);
    let records = rows_records(rows, intel.min_confidence, now);
    lemma_two_labels(host, top);
    lemma_kinds();
    assert(given.len() == name.len()) by {
        assert(lowered(given).len() == given.len());
    }
    assert(!is_white(given[0]) && !is_white(given.last())) by {
        assert(lowered(given)[0] == lower_char(given[0]));
        assert(lowered(given)[given.len() - 1] == lower_char(given[given.len() - 1]));
        assert(is_name_char(name[0]) && is_name_char(name[name.len() - 1]));
    }
    lemma_trimmed(given);
    assert(normalized_indicator(given, row.ioc_type@) == Some((name, "domain"@)));
    assert(row_record(row, intel.min_confidence, now)->0 =~= record);
    lemma_row_loaded(rows, i, intel.min_confidence, now, record);
    assert(normalized_indicator(name, "domain"@) == Some((name, "domain"@)));
    assert(indicator_keys_of(name, "domain"@) == seq![name]);
    assert(seq![name][0] == name);
    lemma_added_under_key(intel, records, record, name);
    lemma_bare_name(name);
    lemma_plain_part(name);
    let page = match normalized_indicator(name, "url"@) {
        Some((t, _)) => seq![t] + maybe_one(host_of(t)),
        None => Seq::empty(),
    };
    let address = maybe_one(maybe_ip_text(parsed_ip(name)));
    assert(part_keys(name) == page + address + seq![name]);
    assert((page + address + seq![name])[(page.len() + address.len()) as int] == name);
    lemma_key_finds(intel.add_all(records), name, name, record, later);
}

/// Every match is justified: its record has not expired, and it stands under a key of the
/// observation or is of a network that holds an address among the keys.
pub proof fn law_matches_are_justified(
    intel: IntelView,
    observation: Seq<char>,
    now: int,
    record: RecordView,
)
    requires
        observed_records(intel, observation, now).contains(record),
    ensures
        !expired(record.expires_at, now),
        ({
            ||| exists|key: Seq<char>| #[trigger]
                all_keys(observation).contains(key) && intel.keyed.contains((key, record))
            ||| exists|key: Seq<char>, k: int|
                all_keys(observation).contains(key) && 0 <= k < intel.networks.len()
                    && intel.networks[k].record == record && parsed_ip(key) is Some
                    && #[trigger] agrees_key(
                    key,
                    intel.networks[k].address,
                    intel.networks[k].prefix as nat,
                )
        }),
{
    let keys = ordered_keys(observation);
    lemma_ordered_keys(observation);
    let hits = keyed_hits(intel, keys, now);
    let nets = network_hits(intel, keys, now);
    let kept = distinct_records(hits + nets);
    let i = kept.index_of(record);
    lemma_distinct_from(hits + nets, i);
    let m = (hits + nets).index_of(record);
    if m < hits.len() {
        assert(hits[m] == record);
        lemma_hit_from(intel, keys, now, record);
        let key = choose|key: Seq<char>| #[trigger]
            keys.contains(key) && intel.keyed.contains((key, record));
        assert(all_keys(observation).contains(key));
    } else {
        assert(nets[m - hits.len()] == record);
        lemma_network_hit_from(intel, keys, now, record);
        let (key, k) = choose|key: Seq<char>, k: int|
            keys.contains(key) && 0 <= k < intel.networks.len() && intel.networks[k].record
                == record && parsed_ip(key) is Some && #[trigger] agrees_key(
                key,
                intel.networks[k].address,
                intel.networks[k].prefix as nat,
            );
        assert(all_keys(observation).contains(key));
    }
}

/// The address that a key writes agrees with another in its first bits.
pub open spec fn agrees_key(key: Seq<char>, address: IpAddress, prefix: nat) -> bool {
    parsed_ip(key) matches Some(ip) && agrees(ip, address, prefix)
}

proof fn lemma_under_from(
    keyed: Seq<(Seq<char>, RecordView)>,
    key: Seq<char>,
    now: int,
    record: RecordView,
)
    requires
        live_under(keyed, key, now).contains(record),
    ensures
        keyed.contains((key, record)),
        !expired(record.expires_at, now),
    decreases keyed.len(),
{
    if keyed.len() > 0 {
        let front = keyed.drop_last();
        let before = live_under(front, key, now);
        let all = live_under(keyed, key, now);
        let i = all.index_of(record);
        if i < before.len() {
            assert(before[i] == record);
            lemma_under_from(front, key, now, record);
            let k = front.index_of((key, record));
            assert(keyed[k] == (key, record));
        } else {
            assert(keyed[keyed.len() - 1] == (key, record));
        }
    }
}

proof fn lemma_hit_from(intel: IntelView, keys: Seq<Seq<char>>, now: int, record: RecordView)
    requires
        keyed_hits(intel, keys, now).contains(record),
    ensures
        !expired(record.expires_at, now),
        exists|key: Seq<char>| #[trigger]
            keys.contains(key) && intel.keyed.contains((key, record)),
    decreases keys.len(),
{
    if keys.len() > 0 {
        let front = keys.drop_last();
        let before = keyed_hits(intel, front, now);
        let here = live_under(intel.keyed, keys.last(), now);
        let i = (before + here).index_of(record);
        if i < before.len() {
            assert(before[i] == record);
            lemma_hit_from(intel, front, now, record);
            let key = choose|key: Seq<char>| #[trigger]
                front.contains(key) && intel.keyed.contains((key, record));
            let k = front.index_of(key);
            assert(keys[k] == key);
            assert(keys.contains(key));
        } else {
            assert(here[i - before.len()] == record);
            lemma_under_from(intel.keyed, keys.last(), now, record);
            assert(keys[keys.len() - 1] == keys.last());
            assert(keys.contains(keys.last()));
        }
    }
}

proof fn lemma_network_from(networks: Seq<NetworkView>, ip: IpAddress, now: int, record: RecordView) -> (k:
    int)
    requires
        live_networks(networks, ip, now).contains(record),
    ensures
        0 <= k < networks.len(),
        networks[k].record == record,
        agrees(ip, networks[k].address, networks[k].prefix as nat),
        !expired(record.expires_at, now),
    decreases networks.len(),
{
    if networks.len() == 0 {
        0
    } else {
        let front = networks.drop_last();
        let before = live_networks(front, ip, now);
        let all = live_networks(networks, ip, now);
        let i = all.index_of(record);
        if i < before.len() {
            assert(before[i] == record);
            lemma_network_from(front, ip, now, record)
        } else {
            networks.len() - 1
        }
    }
}

proof fn lemma_network_hit_from(intel: IntelView, keys: Seq<Seq<char>>, now: int, record: RecordView)
    requires
        network_hits(intel, keys, now).contains(record),
    ensures
        !expired(record.expires_at, now),
        exists|key: Seq<char>, k: int|
            keys.contains(key) && 0 <= k < intel.networks.len() && intel.networks[k].record
                == record && parsed_ip(key) is Some && #[trigger] agrees_key(
                key,
                intel.networks[k].address,
                intel.networks[k].prefix as nat,
            ),
    decreases keys.len(),
{
    if keys.len() > 0 {
        let front = keys.drop_last();
        let before = network_hits(intel, front, now);
        let all = network_hits(intel, keys, now);
        let i = all.index_of(record);
        if i < before.len() {
            assert(before[i] == record);
            lemma_network_hit_from(intel, front, now, record);
            let (key, k) = choose|key: Seq<char>, k: int|
                front.contains(key) && 0 <= k < intel.networks.len() && intel.networks[k].record
                    == record && parsed_ip(key) is Some && #[trigger] agrees_key(
                    key,
                    intel.networks[k].address,
                    intel.networks[k].prefix as nat,
                );
            let m = front.index_of(key);
            assert(keys[m] == key);
            assert(keys.contains(key));
        } else {
            let ip = parsed_ip(keys.last())->0;
            let here = live_networks(intel.networks, ip, now);
            assert(here[i - before.len()] == record);
            let k = lemma_network_from(intel.networks, ip, now, record);
            assert(keys[keys.len() - 1] == keys.last());
            assert(keys.contains(keys.last()));
            assert(agrees_key(
                keys.last(),
                intel.networks[k].address,
                intel.networks[k].prefix as nat,
            ));
        }
    }
}

} // verus!
