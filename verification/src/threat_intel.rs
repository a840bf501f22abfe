//! Network indicators of compromise and the observations that match them.
//!
//! Nothing here blocks traffic or asks the network: endpoints that were observed are held
//! against records that are neither expired nor of low confidence.

use crate::calendar::{ahead_of, epoch_seconds, parse_rfc3339_epoch};
use crate::clock::now_seconds;
use crate::net::{in_network, ip_bits, ip_in_network, ip_text, ip_to_text, mask_ip, masked};
use crate::net::{is_ip_char, law_address_is_in_its_network, law_address_reads_back};
use crate::net::{lemma_ip_text_chars, parse_ip, parsed_ip, IpAddress};
use crate::order::{law_sorted_set_unique, sorted_set, sorted_set_of};
use crate::text::{behind_first, begins_with, chars_between, chars_of, concat2, decimal};
use crate::text::{decimal_text, find_char, first_of, index_from, is_alphanumeric};
use crate::text::{is_white, lemma_first_of, list_contains, lower_chars, lowered};
use crate::text::{parse_unsigned, parsed_unsigned, push_text, same_text, split_by};
use crate::text::{split_chars, stands_at, strip_end, text_of, texts, trim_chars, trimmed, white};
use crate::text::{is_digit, lemma_decimal, lemma_trimmed, unsigned_body, without_end};
use vstd::prelude::*;

verus! {

pub const DEFAULT_MIN_CONFIDENCE: u8 = 70;

/// One indicator with what is known of it.
#[derive(Debug)]
pub struct ThreatIntelRecord {
    pub value: String,
    pub ioc_type: String,
    pub source: String,
    pub confidence: u8,
    pub malware: Option<String>,
    pub tags: Option<String>,
    pub reference: Option<String>,
    pub first_seen: Option<String>,
    pub last_seen: Option<String>,
    pub expires_at: Option<String>,
}

#[verifier::ext_equal]
pub struct RecordView {
    pub value: Seq<char>,
    pub ioc_type: Seq<char>,
    pub source: Seq<char>,
    pub confidence: u8,
    pub malware: Option<Seq<char>>,
    pub tags: Option<Seq<char>>,
    pub reference: Option<Seq<char>>,
    pub first_seen: Option<Seq<char>>,
    pub last_seen: Option<Seq<char>>,
    pub expires_at: Option<Seq<char>>,
}

/// A text that may be missing, by its characters.
pub open spec fn maybe(text: Option<String>) -> Option<Seq<char>> {
    match text {
        Some(t) => Some(t@),
        None => None,
    }
}

impl View for ThreatIntelRecord {
    type V = RecordView;

    open spec fn view(&self) -> RecordView {
        RecordView {
            value: self.value@,
            ioc_type: self.ioc_type@,
            source: self.source@,
            confidence: self.confidence,
            malware: maybe(self.malware),
            tags: maybe(self.tags),
            reference: maybe(self.reference),
            first_seen: maybe(self.first_seen),
            last_seen: maybe(self.last_seen),
            expires_at: maybe(self.expires_at),
        }
    }
}

pub open spec fn record_views(records: Seq<ThreatIntelRecord>) -> Seq<RecordView> {
    records.map_values(|r: ThreatIntelRecord| r@)
}

/// A copy of a text that may be missing.
fn copy_maybe(text: &Option<String>) -> (copy: Option<String>)
    ensures
        maybe(copy) == maybe(*text),
{
    match text {
        Some(t) => Some(t.clone()),
        None => None,
    }
}

impl ThreatIntelRecord {
    /// A copy of the record.
    pub fn duplicate(&self) -> (copy: ThreatIntelRecord)
        ensures
            copy@ == self@,
    {
        ThreatIntelRecord {
            value: self.value.clone(),
            ioc_type: self.ioc_type.clone(),
            source: self.source.clone(),
            confidence: self.confidence,
            malware: copy_maybe(&self.malware),
            tags: copy_maybe(&self.tags),
            reference: copy_maybe(&self.reference),
            first_seen: copy_maybe(&self.first_seen),
            last_seen: copy_maybe(&self.last_seen),
            expires_at: copy_maybe(&self.expires_at),
        }
    }
}

/// An observation together with a record that matches it.
#[derive(Debug)]
pub struct ThreatIntelMatch {
    pub observed: String,
    pub record: ThreatIntelRecord,
}

/// What is said of a matching record.
pub open spec fn record_description(record: RecordView) -> Seq<char> {
    let base = record.ioc_type + "="@ + record.value + " source="@ + record.source
        + " confidence="@ + decimal(record.confidence as nat);
    match record.malware {
        Some(malware) => if malware.len() > 0 {
            base + (" malware="@ + malware)
        } else {
            base
        },
        None => base,
    }
}

impl ThreatIntelMatch {
    pub fn description(&self) -> (text: String)
        ensures
            text@ == record_description(self.record@),
    {
        let mut text = self.record.ioc_type.clone();
        text.append("=");
        text.append(self.record.value.as_str());
        text.append(" source=");
        text.append(self.record.source.as_str());
        text.append(" confidence=");
        text.append(decimal_text(self.record.confidence as u64).as_str());
        if let Some(malware) = &self.record.malware {
            if malware.as_str().unicode_len() > 0 {
                text.append(concat2(" malware=", malware.as_str()).as_str());
            }
        }
        text
    }
}

/// A letter, a digit or a hyphen.
pub open spec fn is_label_char(c: char) -> bool {
    is_alphanumeric(c) || c == '-'
}

/// One label of a domain name.
pub open spec fn is_label(s: Seq<char>) -> bool {
    &&& 1 <= s.len() <= 63
    &&& s[0] != '-'
    &&& s.last() != '-'
    &&& forall|i: int| 0 <= i < s.len() ==> is_label_char(#[trigger] s[i])
}

/// At most 253 characters in two or more labels.
pub open spec fn is_domain(s: Seq<char>) -> bool {
    &&& 1 <= s.len() <= 253
    &&& split_by(s, '.').len() >= 2
    &&& forall|i: int| 0 <= i < split_by(s, '.').len() ==> is_label(#[trigger] split_by(s, '.')[i])
}

/// A domain name in lower case, if the text is one.
pub open spec fn normalized_domain(value: Seq<char>) -> Option<Seq<char>> {
    let name = lowered(without_end(trimmed(value), '.'));
    if is_domain(name) {
        Some(name)
    } else {
        None
    }
}

/// The part of a text behind the first `needle`, all of it where there is none.
pub open spec fn behind_text(s: Seq<char>, needle: Seq<char>) -> Seq<char> {
    let at = index_from(s, needle, 0);
    if at < s.len() {
        s.skip(at + needle.len())
    } else {
        s
    }
}

/// The position of the last `c` in `s`, or -1.
pub open spec fn last_of(s: Seq<char>, c: char) -> int
    decreases s.len(),
{
    if s.len() == 0 {
        -1
    } else if s.last() == c {
        s.len() - 1
    } else {
        last_of(s.drop_last(), c)
    }
}

/// The part of an address before its path, query or fragment.
pub open spec fn authority(s: Seq<char>) -> Seq<char> {
    ahead_of(ahead_of(ahead_of(s, '/'), '?'), '#')
}

/// The host of an address without its scheme, path and user.
pub open spec fn bare_host(value: Seq<char>) -> Seq<char> {
    let place = authority(behind_text(trimmed(value), "://"@));
    place.skip(last_of(place, '@') + 1)
}

/// A host without a port behind it.
pub open spec fn without_port(host: Seq<char>) -> Seq<char> {
    let at = last_of(host, ':');
    if at >= 0 && parsed_unsigned(host.skip(at + 1), 65_535) is Some {
        host.take(at)
    } else {
        host
    }
}

/// The address as text, where there is one.
pub open spec fn maybe_ip_text(ip: Option<IpAddress>) -> Option<Seq<char>> {
    match ip {
        Some(a) => Some(ip_text(a)),
        None => None,
    }
}

/// The host that an endpoint names, in its normal form: an address or a domain name.
pub open spec fn host_of(value: Seq<char>) -> Option<Seq<char>> {
    let host = bare_host(value);
    if host.len() > 0 && host[0] == '[' {
        maybe_ip_text(parsed_ip(ahead_of(host.skip(1), ']')))
    } else if parsed_ip(host) is Some {
        maybe_ip_text(parsed_ip(host))
    } else {
        normalized_domain(without_port(host))
    }
}

/// The network that a text writes: an address, a slash and a prefix length.
pub open spec fn parsed_cidr(value: Seq<char>) -> Option<(IpAddress, nat)> {
    let body = trimmed(value);
    let prefix = parsed_unsigned(behind_first(body, '/'), 255);
    if !body.contains('/') {
        None
    } else {
        match (parsed_ip(ahead_of(body, '/')), prefix) {
            (Some(ip), Some(n)) => if n <= ip_bits(ip) {
                Some((masked(ip, n), n))
            } else {
                None
            },
            _ => None,
        }
    }
}

pub open spec fn cidr_text(ip: IpAddress, prefix: nat) -> Seq<char> {
    ip_text(ip) + "/"@ + decimal(prefix)
}

/// An indicator and its kind in their normal forms, if the kind is known and the value is
/// of it.
pub open spec fn normalized_indicator(value: Seq<char>, kind: Seq<char>) -> Option<
    (Seq<char>, Seq<char>),
> {
    let text = without_end(lowered(trimmed(value)), '.');
    let name = lowered(trimmed(kind));
    if name == "ip"@ || name == "ipv4"@ || name == "ipv6"@ {
        match parsed_ip(text) {
            Some(ip) => Some(
                (
                    ip_text(ip),
                    if ip is V4 {
                        "ipv4"@
                    } else {
                        "ipv6"@
                    },
                ),
            ),
            None => None,
        }
    } else if name == "domain"@ {
        match normalized_domain(text) {
            Some(domain) => Some((domain, "domain"@)),
            None => None,
        }
    } else if name == "url"@ && (begins_with(text, "http://"@) || begins_with(text, "https://"@)) {
        Some((text, "url"@))
    } else if name == "cidr"@ || name == "network"@ {
        match parsed_cidr(text) {
            Some((ip, prefix)) => Some((cidr_text(ip, prefix), "cidr"@)),
            None => None,
        }
    } else {
        None
    }
}

/// What a list gains from a text that may be missing.
pub open spec fn maybe_one(text: Option<Seq<char>>) -> Seq<Seq<char>> {
    match text {
        Some(t) => seq![t],
        None => Seq::empty(),
    }
}

/// The keys under which an indicator is found: its value, and for an address of a page
/// also the host.
pub open spec fn indicator_keys_of(value: Seq<char>, kind: Seq<char>) -> Seq<Seq<char>> {
    match normalized_indicator(value, kind) {
        Some((text, name)) => if name == "url"@ {
            seq![text] + maybe_one(host_of(text))
        } else {
            seq![text]
        },
        None => Seq::empty(),
    }
}

/// What stands between the parts of an observation.
pub open spec fn is_break(c: char) -> bool {
    is_white(c) || c == ',' || c == ';' || c == '(' || c == ')' || c == '"' || c == '\''
}

/// The parts of an observation between breaks.
pub open spec fn observation_parts(s: Seq<char>) -> Seq<Seq<char>>
    decreases s.len(),
{
    if s.len() == 0 {
        seq![Seq::<char>::empty()]
    } else {
        let rest = observation_parts(s.drop_last());
        if is_break(s.last()) {
            rest.push(Seq::<char>::empty())
        } else {
            rest.update(rest.len() - 1, rest.last().push(s.last()))
        }
    }
}

pub open spec fn is_square(c: char) -> bool {
    c == '[' || c == ']'
}

pub open spec fn is_bracket(c: char) -> bool {
    is_square(c) || c == '{' || c == '}'
}

/// A text without the brackets around it: square ones, and curly ones where `curly` says
/// so.
pub open spec fn unbracketed(s: Seq<char>, curly: bool) -> Seq<char> {
    unbracketed_end(unbracketed_start(s, curly), curly)
}

pub open spec fn drops(c: char, curly: bool) -> bool {
    if curly {
        is_bracket(c)
    } else {
        is_square(c)
    }
}

pub open spec fn unbracketed_start(s: Seq<char>, curly: bool) -> Seq<char>
    decreases s.len(),
{
    if s.len() > 0 && drops(s[0], curly) {
        unbracketed_start(s.skip(1), curly)
    } else {
        s
    }
}

pub open spec fn unbracketed_end(s: Seq<char>, curly: bool) -> Seq<char>
    decreases s.len(),
{
    if s.len() > 0 && drops(s.last(), curly) {
        unbracketed_end(s.drop_last(), curly)
    } else {
        s
    }
}

/// The keys that one part of an observation gives.
pub open spec fn part_keys(part: Seq<char>) -> Seq<Seq<char>> {
    let token = unbracketed(part, true);
    let page = match normalized_indicator(token, "url"@) {
        Some((text, _)) => seq![text] + maybe_one(host_of(text)),
        None => Seq::empty(),
    };
    if token.len() == 0 {
        Seq::empty()
    } else {
        page + maybe_one(maybe_ip_text(parsed_ip(unbracketed(token, false)))) + maybe_one(
            host_of(token),
        )
    }
}

pub open spec fn parts_keys(parts: Seq<Seq<char>>) -> Seq<Seq<char>>
    decreases parts.len(),
{
    if parts.len() == 0 {
        Seq::empty()
    } else {
        parts_keys(parts.drop_last()) + part_keys(parts.last())
    }
}

/// The keys that an observation is looked up by.
pub open spec fn all_keys(observation: Seq<char>) -> Seq<Seq<char>> {
    parts_keys(observation_parts(observation))
}

fn valid_label(label: &str) -> (b: bool)
    ensures
        b == is_label(label@),
{
    let chars = chars_of(label);
    let size: usize = chars.len();
    if size == 0 || size > 63 || chars[0] == '-' || chars[size - 1] == '-' {
        return false;
    }
    let mut i: usize = 0;
    while i < size
        invariant
            i <= size == chars@.len(),
            chars@ == label@,
            forall|k: int| 0 <= k < i ==> is_label_char(#[trigger] label@[k]),
        decreases size - i,
    {
        let c = chars[i];
        if !(('A' <= c && c <= 'Z') || ('a' <= c && c <= 'z') || ('0' <= c && c <= '9') || c
            == '-') {
            assert(!is_label_char(label@[i as int]));
            return false;
        }
        i = i + 1;
    }
    true
}

fn valid_domain(chars: &[char]) -> (b: bool)
    ensures
        b == is_domain(chars@),
{
    if chars.len() == 0 || chars.len() > 253 {
        return false;
    }
    let labels = split_chars(chars, '.');
    if labels.len() < 2 {
        return false;
    }
    let mut i: usize = 0;
    while i < labels.len()
        invariant
            i <= labels@.len(),
            texts(labels@) == split_by(chars@, '.'),
            forall|k: int| 0 <= k < i ==> is_label(#[trigger] split_by(chars@, '.')[k]),
        decreases labels@.len() - i,
    {
        assert(texts(labels@)[i as int] == labels@[i as int]@);
        if !valid_label(labels[i].as_str()) {
            assert(!is_label(split_by(chars@, '.')[i as int]));
            return false;
        }
        i = i + 1;
    }
    true
}

/// A domain name in lower case, if the characters are one.
fn domain_of(chars: &[char]) -> (domain: Option<String>)
    ensures
        maybe(domain) == normalized_domain(chars@),
{
    let body = trim_chars(chars);
    let bare = strip_end(&body, '.');
    let name = lower_chars(&bare);
    if valid_domain(&name) {
        Some(text_of(&name))
    } else {
        None
    }
}

pub fn normalize_domain(value: &str) -> (domain: Option<String>)
    ensures
        maybe(domain) == normalized_domain(value@),
{
    let chars = chars_of(value);
    domain_of(&chars)
}

fn before_char(chars: &[char], c: char) -> (head: Vec<char>)
    ensures
        head@ == ahead_of(chars@, c),
{
    let at: usize = find_char(chars, c);
    let head = chars_between(chars, 0, at);
    assert(head@ =~= ahead_of(chars@, c));
    head
}

/// The part of a text behind the first `needle`, all of it where there is none.
fn behind_needle(chars: &[char], needle: &[char]) -> (rest: Vec<char>)
    requires
        needle@.len() > 0,
    ensures
        rest@ == behind_text(chars@, needle@),
{
    let size: usize = chars.len();
    let mut i: usize = 0;
    while i < size
        invariant
            i <= size == chars@.len(),
            needle@.len() > 0,
            index_from(chars@, needle@, 0) == index_from(chars@, needle@, i as int),
        decreases size - i,
    {
        if stands_at(chars, needle, i) {
            let rest = chars_between(chars, i + needle.len(), size);
            assert(rest@ =~= chars@.skip(i + needle@.len()));
            return rest;
        }
        i = i + 1;
    }
    let rest = chars_between(chars, 0, size);
    assert(rest@ =~= chars@);
    rest
}

/// One more than the position of the last `c`, zero where there is none.
fn after_last(chars: &[char], c: char) -> (at: usize)
    ensures
        at == last_of(chars@, c) + 1,
        at <= chars@.len(),
{
    let mut to: usize = chars.len();
    assert(chars@.take(to as int) =~= chars@);
    while to > 0 && chars[to - 1] != c
        invariant
            to <= chars@.len(),
            last_of(chars@, c) == last_of(chars@.take(to as int), c),
        decreases to,
    {
        assert(chars@.take(to as int).last() == chars@[to - 1]);
        assert(chars@.take(to as int).drop_last() =~= chars@.take(to - 1));
        to = to - 1;
    }
    proof {
        if to > 0 {
            assert(chars@.take(to as int).last() == chars@[to - 1]);
        }
    }
    to
}

fn host_without_extras(chars: &[char]) -> (host: Vec<char>)
    ensures
        host@ == bare_host(chars@),
{
    let body = trim_chars(chars);
    proof {
        reveal_strlit("://");
    }
    let mark = chars_of("://");
    let rest = behind_needle(&body, &mark);
    let no_path = before_char(&rest, '/');
    let no_query = before_char(&no_path, '?');
    let place = before_char(&no_query, '#');
    let at: usize = after_last(&place, '@');
    let host = chars_between(&place, at, place.len());
    assert(host@ =~= place@.skip(last_of(place@, '@') + 1));
    host
}

fn text_of_ip(ip: Option<IpAddress>) -> (text: Option<String>)
    ensures
        maybe(text) == maybe_ip_text(ip),
{
    match ip {
        Some(a) => Some(ip_to_text(a)),
        None => None,
    }
}

/// The host that an endpoint names.
fn host_of_chars(chars: &[char]) -> (host: Option<String>)
    ensures
        maybe(host) == host_of(chars@),
{
    let host = host_without_extras(chars);
    if host.len() > 0 && host[0] == '[' {
        let rest = chars_between(&host, 1, host.len());
        assert(rest@ =~= host@.skip(1));
        let inner = before_char(&rest, ']');
        return text_of_ip(parse_ip(text_of(&inner).as_str()));
    }
    let ip = parse_ip(text_of(&host).as_str());
    if ip.is_some() {
        return text_of_ip(ip);
    }
    let at: usize = after_last(&host, ':');
    if at > 0 {
        let port = chars_between(&host, at, host.len());
        assert(port@ =~= host@.skip(at as int));
        if parse_unsigned(&port, 65_535).is_some() {
            let bare = chars_between(&host, 0, at - 1);
            assert(bare@ =~= host@.take(at - 1));
            return domain_of(&bare);
        }
    }
    domain_of(&host)
}

/// The host that an endpoint names, in its normal form.
pub fn endpoint_host(value: &str) -> (host: Option<String>)
    ensures
        maybe(host) == host_of(value@),
{
    let chars = chars_of(value);
    host_of_chars(&chars)
}

/// The network that the characters write.
fn cidr_of(chars: &[char]) -> (network: Option<(IpAddress, u8)>)
    ensures
        match network {
            Some((ip, prefix)) => parsed_cidr(chars@) == Some((ip, prefix as nat)),
            None => parsed_cidr(chars@) is None,
        },
{
    let body = trim_chars(chars);
    proof {
        lemma_first_of(body@, '/');
    }
    let at: usize = find_char(&body, '/');
    if at == body.len() {
        return None;
    }
    let front = chars_between(&body, 0, at);
    assert(front@ =~= ahead_of(body@, '/'));
    let back = chars_between(&body, at + 1, body.len());
    assert(back@ =~= behind_first(body@, '/'));
    match (parse_ip(text_of(&front).as_str()), parse_unsigned(&back, 255)) {
        (Some(ip), Some(n)) => {
            let bits: u64 = match ip {
                IpAddress::V4(_) => 32,
                IpAddress::V6(_) => 128,
            };
            if n > bits {
                return None;
            }
            let prefix: u8 = n as u8;
            Some((mask_ip(ip, prefix), prefix))
        },
        _ => None,
    }
}

/// The network that a text writes.
pub fn parse_cidr(value: &str) -> (network: Option<(IpAddress, u8)>)
    ensures
        match network {
            Some((ip, prefix)) => parsed_cidr(value@) == Some((ip, prefix as nat)),
            None => parsed_cidr(value@) is None,
        },
{
    let chars = chars_of(value);
    cidr_of(&chars)
}

/// The texts of a pair that may be missing.
pub open spec fn maybe_pair(pair: Option<(String, String)>) -> Option<(Seq<char>, Seq<char>)> {
    match pair {
        Some((a, b)) => Some((a@, b@)),
        None => None,
    }
}

/// An indicator and its kind in their normal forms.
pub fn normalize_indicator(value: &str, kind: &str) -> (pair: Option<(String, String)>)
    ensures
        maybe_pair(pair) == normalized_indicator(value@, kind@),
{
    let chars = chars_of(value);
    let body = trim_chars(&chars);
    let low = lower_chars(&body);
    let text = strip_end(&low, '.');
    let kind_chars = chars_of(kind);
    let kind_body = trim_chars(&kind_chars);
    let kind_low = lower_chars(&kind_body);
    let kind_text = text_of(&kind_low);
    let name = kind_text.as_str();
    if same_text(name, "ip") || same_text(name, "ipv4") || same_text(name, "ipv6") {
        return match parse_ip(text_of(&text).as_str()) {
            Some(ip) => {
                let shown = match ip {
                    IpAddress::V4(_) => "ipv4".to_owned(),
                    IpAddress::V6(_) => "ipv6".to_owned(),
                };
                Some((ip_to_text(ip), shown))
            },
            None => None,
        };
    }
    if same_text(name, "domain") {
        return match domain_of(&text) {
            Some(domain) => Some((domain, "domain".to_owned())),
            None => None,
        };
    }
    if same_text(name, "url") {
        let plain = chars_of("http://");
        let secure = chars_of("https://");
        if stands_at(&text, &plain, 0) || stands_at(&text, &secure, 0) {
            return Some((text_of(&text), "url".to_owned()));
        }
    }
    if same_text(name, "cidr") || same_text(name, "network") {
        return match cidr_of(&text) {
            Some((ip, prefix)) => {
                let mut shown = ip_to_text(ip);
                shown.append("/");
                shown.append(decimal_text(prefix as u64).as_str());
                Some((shown, "cidr".to_owned()))
            },
            None => None,
        };
    }
    proof {
        reveal_strlit("url");
        reveal_strlit("cidr");
        reveal_strlit("network");
    }
    None
}

/// Appends a text that may be missing.
fn push_maybe(items: &mut Vec<String>, text: Option<String>)
    ensures
        texts(final(items)@) == texts(old(items)@) + maybe_one(maybe(text)),
{
    match text {
        Some(t) => {
            push_text(items, t);
            assert(texts(items@) =~= texts(old(items)@) + seq![t@]);
        },
        None => {
            assert(texts(items@) =~= texts(old(items)@) + Seq::<Seq<char>>::empty());
        },
    }
}

/// The keys under which an indicator is found.
pub fn indicator_keys(value: &str, kind: &str) -> (keys: Vec<String>)
    ensures
        texts(keys@) == indicator_keys_of(value@, kind@),
{
    let mut keys: Vec<String> = Vec::new();
    assert(texts(keys@) =~= Seq::empty());
    if let Some((text, name)) = normalize_indicator(value, kind) {
        let page = same_text(name.as_str(), "url");
        let host = if page {
            endpoint_host(text.as_str())
        } else {
            None
        };
        push_text(&mut keys, text);
        assert(texts(keys@) =~= seq![text@]);
        if page {
            push_maybe(&mut keys, host);
        }
    }
    keys
}

fn dropped(c: char, curly: bool) -> (b: bool)
    ensures
        b == drops(c, curly),
{
    c == '[' || c == ']' || (curly && (c == '{' || c == '}'))
}

/// The characters without the brackets around them.
fn unbracket(chars: &[char], curly: bool) -> (bare: Vec<char>)
    ensures
        bare@ == unbracketed(chars@, curly),
{
    let mut from: usize = 0;
    assert(chars@.skip(0) =~= chars@);
    while from < chars.len() && dropped(chars[from], curly)
        invariant
            from <= chars@.len(),
            unbracketed_start(chars@, curly) == unbracketed_start(
                chars@.skip(from as int),
                curly,
            ),
        decreases chars@.len() - from,
    {
        assert(chars@.skip(from as int).skip(1) =~= chars@.skip(from + 1));
        from = from + 1;
    }
    let ghost body = chars@.skip(from as int);
    let mut to: usize = chars.len();
    assert(body.take(to - from) =~= body);
    while to > from && dropped(chars[to - 1], curly)
        invariant
            from <= to <= chars@.len(),
            body == chars@.skip(from as int),
            unbracketed_end(body, curly) == unbracketed_end(body.take(to - from), curly),
        decreases to,
    {
        assert(body.take(to - from).last() == chars@[to - 1]);
        assert(body.take(to - from).drop_last() =~= body.take(to - 1 - from));
        to = to - 1;
    }
    let bare = chars_between(chars, from, to);
    assert(bare@ =~= body.take(to - from));
    proof {
        if to > from {
            assert(body.take(to - from).last() == chars@[to - 1]);
        }
    }
    bare
}

/// Appends the keys that one part of an observation gives.
fn push_part_keys(keys: &mut Vec<String>, part: &[char])
    ensures
        texts(final(keys)@) == texts(old(keys)@) + part_keys(part@),
{
    let token = unbracket(part, true);
    if token.len() == 0 {
        assert(texts(keys@) =~= texts(old(keys)@) + Seq::<Seq<char>>::empty());
        return;
    }
    let ghost before = texts(keys@);
    let token_text = text_of(&token);
    let ghost mut page: Seq<Seq<char>> = Seq::empty();
    if let Some((text, _)) = normalize_indicator(token_text.as_str(), "url") {
        let host = endpoint_host(text.as_str());
        proof {
            page = seq![text@] + maybe_one(maybe(host));
        }
        push_text(keys, text);
        push_maybe(keys, host);
        assert(texts(keys@) =~= before + page);
    }
    assert(texts(keys@) =~= before + page);
    let bare = unbracket(&token, false);
    let ip = text_of_ip(parse_ip(text_of(&bare).as_str()));
    let host = host_of_chars(&token);
    push_maybe(keys, ip);
    push_maybe(keys, host);
    assert(texts(keys@) =~= before + (page + maybe_one(maybe(ip)) + maybe_one(maybe(host))));
}

fn breaks(c: char) -> (b: bool)
    ensures
        b == is_break(c),
{
    white(c) || c == ',' || c == ';' || c == '(' || c == ')' || c == '"' || c == '\''
}

proof fn lemma_parts_some(s: Seq<char>)
    ensures
        observation_parts(s).len() >= 1,
    decreases s.len(),
{
    if s.len() > 0 {
        lemma_parts_some(s.drop_last());
    }
}

proof fn lemma_parts_keys_push(parts: Seq<Seq<char>>, part: Seq<char>)
    ensures
        parts_keys(parts.push(part)) == parts_keys(parts) + part_keys(part),
{
    assert(parts.push(part).drop_last() =~= parts);
    assert(parts.push(part).last() == part);
}

/// The keys that an observation is looked up by, in order and each once.
pub fn observation_keys(observation: &str) -> (keys: Vec<String>)
    ensures
        sorted_set_of(texts(keys@), all_keys(observation@)),
{
    let chars = chars_of(observation);
    let mut found: Vec<String> = Vec::new();
    let mut part: Vec<char> = Vec::new();
    let ghost mut done: Seq<Seq<char>> = Seq::empty();
    let mut i: usize = 0;
    assert(done.push(part@) =~= observation_parts(chars@.take(0)));
    assert(texts(found@) =~= parts_keys(done));
    while i < chars.len()
        invariant
            i <= chars@.len(),
            done.push(part@) == observation_parts(chars@.take(i as int)),
            texts(found@) == parts_keys(done),
        decreases chars@.len() - i,
    {
        let c = chars[i];
        let ghost before = done.push(part@);
        assert(chars@.take(i + 1).drop_last() =~= chars@.take(i as int));
        assert(chars@.take(i + 1).last() == c);
        if breaks(c) {
            push_part_keys(&mut found, &part);
            proof {
                lemma_parts_keys_push(done, part@);
                done = done.push(part@);
            }
            part = Vec::new();
            assert(done.push(part@) =~= before.push(Seq::<char>::empty()));
        } else {
            part.push(c);
            assert(done.push(part@) =~= before.update(
                before.len() - 1,
                before.last().push(c),
            ));
        }
        i = i + 1;
    }
    assert(chars@.take(i as int) =~= chars@);
    proof {
        lemma_parts_keys_push(done, part@);
    }
    push_part_keys(&mut found, &part);
    sorted_set(&found)
}

/// One row of an indicator database, as it stands there.
#[derive(Debug)]
pub struct IocRow {
    pub value: String,
    pub ioc_type: String,
    pub source: String,
    pub confidence: i64,
    pub first_seen: Option<String>,
    pub last_seen: Option<String>,
    pub expires_at: Option<String>,
    pub malware: Option<String>,
    pub tags: Option<String>,
    pub reference: Option<String>,
}

/// The point in time lies at or before `now`.
pub open spec fn has_passed(time: Option<Seq<char>>, now: int) -> bool {
    match time {
        Some(t) => match epoch_seconds(t) {
            Some(seconds) => seconds <= now,
            None => false,
        },
        None => false,
    }
}

/// A confidence in percent.
pub open spec fn percent(confidence: int) -> int {
    if confidence < 0 {
        0
    } else if confidence > 100 {
        100
    } else {
        confidence
    }
}

/// The record of a row, if its confidence suffices, it has not expired and its value is
/// one of its kind.
pub open spec fn row_record(row: IocRow, min_confidence: u8, now: int) -> Option<RecordView> {
    if percent(row.confidence as int) < min_confidence || has_passed(maybe(row.expires_at), now) {
        None
    } else {
        match normalized_indicator(row.value@, row.ioc_type@) {
            Some((value, ioc_type)) => Some(
                RecordView {
                    value,
                    ioc_type,
                    source: row.source@,
                    confidence: percent(row.confidence as int) as u8,
                    malware: maybe(row.malware),
                    tags: maybe(row.tags),
                    reference: maybe(row.reference),
                    first_seen: maybe(row.first_seen),
                    last_seen: maybe(row.last_seen),
                    expires_at: maybe(row.expires_at),
                },
            ),
            None => None,
        }
    }
}

pub open spec fn rows_records(rows: Seq<IocRow>, min_confidence: u8, now: int) -> Seq<RecordView>
    decreases rows.len(),
{
    if rows.len() == 0 {
        Seq::empty()
    } else {
        let before = rows_records(rows.drop_last(), min_confidence, now);
        match row_record(rows.last(), min_confidence, now) {
            Some(record) => before.push(record),
            None => before,
        }
    }
}

fn passed(time: &Option<String>, now: i64) -> (b: bool)
    ensures
        b == has_passed(maybe(*time), now as int),
{
    match time {
        Some(t) => match parse_rfc3339_epoch(t.as_str()) {
            Some(seconds) => seconds <= now as i128,
            None => false,
        },
        None => false,
    }
}

/// The record of a row.
fn record_of_row(row: &IocRow, min_confidence: u8, now: i64) -> (record: Option<ThreatIntelRecord>)
    ensures
        match record {
            Some(r) => row_record(*row, min_confidence, now as int) == Some(r@),
            None => row_record(*row, min_confidence, now as int) is None,
        },
{
    let confidence: u8 = if row.confidence < 0 {
        0
    } else if row.confidence > 100 {
        100
    } else {
        row.confidence as u8
    };
    if confidence < min_confidence || passed(&row.expires_at, now) {
        return None;
    }
    match normalize_indicator(row.value.as_str(), row.ioc_type.as_str()) {
        Some((value, ioc_type)) => {
            let record = ThreatIntelRecord {
                value,
                ioc_type,
                source: row.source.clone(),
                confidence,
                malware: copy_maybe(&row.malware),
                tags: copy_maybe(&row.tags),
                reference: copy_maybe(&row.reference),
                first_seen: copy_maybe(&row.first_seen),
                last_seen: copy_maybe(&row.last_seen),
                expires_at: copy_maybe(&row.expires_at),
            };
            assert(record@ =~= row_record(*row, min_confidence, now as int)->0);
            Some(record)
        },
        None => None,
    }
}

/// The records of the rows of an indicator database.
pub fn read_iocs_from_rows(rows: &[IocRow], min_confidence: u8, now: i64) -> (records: Vec<
    ThreatIntelRecord,
>)
    ensures
        record_views(records@) == rows_records(rows@, min_confidence, now as int),
{
    let mut records: Vec<ThreatIntelRecord> = Vec::new();
    let mut i: usize = 0;
    assert(record_views(records@) =~= Seq::empty());
    while i < rows.len()
        invariant
            i <= rows@.len(),
            record_views(records@) == rows_records(
                rows@.take(i as int),
                min_confidence,
                now as int,
            ),
        decreases rows@.len() - i,
    {
        assert(rows@.take(i + 1).drop_last() =~= rows@.take(i as int));
        assert(rows@.take(i + 1).last() == rows@[i as int]);
        if let Some(record) = record_of_row(&rows[i], min_confidence, now) {
            let ghost before = record_views(records@);
            let ghost one = record@;
            records.push(record);
            assert(record_views(records@) =~= before.push(one));
        }
        i = i + 1;
    }
    assert(rows@.take(i as int) =~= rows@);
    records
}

/// A record under a key.
#[derive(Debug)]
pub struct KeyedRecord {
    pub key: String,
    pub record: ThreatIntelRecord,
}

/// A record of a whole network.
#[derive(Debug)]
pub struct ThreatIntelNetwork {
    pub address: IpAddress,
    pub prefix: u8,
    pub record: ThreatIntelRecord,
}

pub struct NetworkView {
    pub address: IpAddress,
    pub prefix: u8,
    pub record: RecordView,
}

pub open spec fn keyed_views(items: Seq<KeyedRecord>) -> Seq<(Seq<char>, RecordView)> {
    items.map_values(|k: KeyedRecord| (k.key@, k.record@))
}

pub open spec fn network_view(n: ThreatIntelNetwork) -> NetworkView {
    NetworkView { address: n.address, prefix: n.prefix, record: n.record@ }
}

pub open spec fn network_views(items: Seq<ThreatIntelNetwork>) -> Seq<NetworkView> {
    items.map_values(|n: ThreatIntelNetwork| network_view(n))
}

/// The records that observations are held against.
pub struct ThreatIntelMatcher {
    pub keyed: Vec<KeyedRecord>,
    pub networks: Vec<ThreatIntelNetwork>,
    pub min_confidence: u8,
}

#[verifier::ext_equal]
pub struct IntelView {
    pub keyed: Seq<(Seq<char>, RecordView)>,
    pub networks: Seq<NetworkView>,
    pub min_confidence: u8,
}

impl View for ThreatIntelMatcher {
    type V = IntelView;

    open spec fn view(&self) -> IntelView {
        IntelView {
            keyed: keyed_views(self.keyed@),
            networks: network_views(self.networks@),
            min_confidence: self.min_confidence,
        }
    }
}

/// The record under each of the keys.
pub open spec fn under_keys(keys: Seq<Seq<char>>, record: RecordView) -> Seq<
    (Seq<char>, RecordView),
> {
    keys.map_values(|k: Seq<char>| (k, record))
}

impl IntelView {
    pub open spec fn empty(min_confidence: u8) -> IntelView {
        IntelView { keyed: Seq::empty(), networks: Seq::empty(), min_confidence }
    }

    /// One more record: a network as such, any other under its keys.
    pub open spec fn add(self, record: RecordView) -> IntelView {
        if record.ioc_type == "cidr"@ {
            match parsed_cidr(record.value) {
                Some((address, prefix)) => IntelView {
                    networks: self.networks.push(
                        NetworkView { address, prefix: prefix as u8, record },
                    ),
                    ..self
                },
                None => self,
            }
        } else {
            IntelView {
                keyed: self.keyed + under_keys(
                    indicator_keys_of(record.value, record.ioc_type),
                    record,
                ),
                ..self
            }
        }
    }

    pub open spec fn add_all(self, records: Seq<RecordView>) -> IntelView
        decreases records.len(),
    {
        if records.len() == 0 {
            self
        } else {
            self.add_all(records.drop_last()).add(records.last())
        }
    }
}

pub open spec fn is_expired(record: RecordView, now: int) -> bool {
    has_passed(record.expires_at, now)
}

/// The records under a key that have not expired.
pub open spec fn live_under(keyed: Seq<(Seq<char>, RecordView)>, key: Seq<char>, now: int) -> Seq<
    RecordView,
>
    decreases keyed.len(),
{
    if keyed.len() == 0 {
        Seq::empty()
    } else {
        let before = live_under(keyed.drop_last(), key, now);
        if keyed.last().0 == key && !is_expired(keyed.last().1, now) {
            before.push(keyed.last().1)
        } else {
            before
        }
    }
}

/// The records of the networks that hold an address and have not expired.
pub open spec fn live_networks(networks: Seq<NetworkView>, ip: IpAddress, now: int) -> Seq<
    RecordView,
>
    decreases networks.len(),
{
    if networks.len() == 0 {
        Seq::empty()
    } else {
        let before = live_networks(networks.drop_last(), ip, now);
        let last = networks.last();
        if !is_expired(last.record, now) && in_network(ip, last.address, last.prefix as nat) {
            before.push(last.record)
        } else {
            before
        }
    }
}

/// The records under any of the keys.
pub open spec fn keyed_hits(intel: IntelView, keys: Seq<Seq<char>>, now: int) -> Seq<RecordView>
    decreases keys.len(),
{
    if keys.len() == 0 {
        Seq::empty()
    } else {
        keyed_hits(intel, keys.drop_last(), now) + live_under(intel.keyed, keys.last(), now)
    }
}

/// The records of the networks that hold any of the keys that are addresses.
pub open spec fn network_hits(intel: IntelView, keys: Seq<Seq<char>>, now: int) -> Seq<RecordView>
    decreases keys.len(),
{
    if keys.len() == 0 {
        Seq::empty()
    } else {
        let before = network_hits(intel, keys.drop_last(), now);
        match parsed_ip(keys.last()) {
            Some(ip) => before + live_networks(intel.networks, ip, now),
            None => before,
        }
    }
}

/// What tells one record from another.
pub open spec fn identity(record: RecordView) -> Seq<char> {
    record.source + ":"@ + record.ioc_type + ":"@ + record.value
}

pub open spec fn identities(records: Seq<RecordView>) -> Seq<Seq<char>> {
    records.map_values(|r: RecordView| identity(r))
}

/// The first of the records of each identity.
pub open spec fn distinct_records(records: Seq<RecordView>) -> Seq<RecordView>
    decreases records.len(),
{
    if records.len() == 0 {
        Seq::empty()
    } else {
        let before = distinct_records(records.drop_last());
        if identities(before).contains(identity(records.last())) {
            before
        } else {
            before.push(records.last())
        }
    }
}

/// The records that match the keys of an observation.
pub open spec fn matching(intel: IntelView, keys: Seq<Seq<char>>, now: int) -> Seq<RecordView> {
    distinct_records(keyed_hits(intel, keys, now) + network_hits(intel, keys, now))
}

/// The keys of an observation in order.
pub open spec fn ordered_keys(observation: Seq<char>) -> Seq<Seq<char>> {
    choose|keys: Seq<Seq<char>>| sorted_set_of(keys, all_keys(observation))
}

/// The records that match an observation.
pub open spec fn observed_records(intel: IntelView, observation: Seq<char>, now: int) -> Seq<
    RecordView,
> {
    matching(intel, ordered_keys(observation), now)
}

pub open spec fn matched_records(matches: Seq<ThreatIntelMatch>) -> Seq<RecordView> {
    matches.map_values(|m: ThreatIntelMatch| m.record@)
}

/// What was observed of each match.
pub open spec fn observed_texts(matches: Seq<ThreatIntelMatch>) -> Seq<Seq<char>> {
    matches.map_values(|m: ThreatIntelMatch| m.observed@)
}

/// Every match is of the observation.
pub open spec fn all_observed(matches: Seq<ThreatIntelMatch>, observation: Seq<char>) -> bool {
    forall|i: int| 0 <= i < matches.len() ==> (#[trigger] matches[i]).observed@ == observation
}

fn identity_of(record: &ThreatIntelRecord) -> (text: String)
    ensures
        text@ == identity(record@),
{
    let mut text = record.source.clone();
    text.append(":");
    text.append(record.ioc_type.as_str());
    text.append(":");
    text.append(record.value.as_str());
    text
}

/// The records with one more, unless one of its identity is there.
proof fn lemma_distinct_push(records: Seq<RecordView>, record: RecordView)
    ensures
        distinct_records(records.push(record)) == if identities(distinct_records(records)).contains(
            identity(record),
        ) {
            distinct_records(records)
        } else {
            distinct_records(records).push(record)
        },
{
    assert(records.push(record).drop_last() =~= records);
    assert(records.push(record).last() == record);
}

/// Collects matches, one to an identity.
struct Collector {
    matches: Vec<ThreatIntelMatch>,
    seen: Vec<String>,
}

impl Collector {
    /// What has been collected of `hits`.
    spec fn holds(self, hits: Seq<RecordView>, observation: Seq<char>) -> bool {
        &&& matched_records(self.matches@) == distinct_records(hits)
        &&& texts(self.seen@) == identities(distinct_records(hits))
        &&& all_observed(self.matches@, observation)
    }

    /// Takes one more record.
    fn take(
        &mut self,
        record: &ThreatIntelRecord,
        observation: &str,
        Ghost(hits): Ghost<Seq<RecordView>>,
    )
        requires
            old(self).holds(hits, observation@),
        ensures
            final(self).holds(hits.push(record@), observation@),
    {
        proof {
            lemma_distinct_push(hits, record@);
        }
        let name = identity_of(record);
        if !list_contains(&self.seen, name.as_str()) {
            let ghost kept = distinct_records(hits);
            let ghost before = self.matches@;
            push_text(&mut self.seen, name);
            let found = ThreatIntelMatch {
                observed: observation.to_owned(),
                record: record.duplicate(),
            };
            let ghost one = found;
            self.matches.push(found);
            assert(matched_records(self.matches@) =~= kept.push(record@));
            assert(identities(kept.push(record@)) =~= identities(kept).push(identity(record@)));
            assert forall|i: int| 0 <= i < self.matches@.len() implies (
            #[trigger] self.matches@[i]).observed@ == observation@ by {
                if i < before.len() {
                    assert(self.matches@[i] == before[i]);
                }
            }
        }
    }
}

impl ThreatIntelMatcher {
    /// A matcher without records for a confidence of at least one percent.
    pub fn new(min_confidence: u8) -> (matcher: ThreatIntelMatcher)
        ensures
            matcher@ == IntelView::empty(
                if min_confidence == 0 {
                    1
                } else {
                    min_confidence
                },
            ),
    {
        let matcher = ThreatIntelMatcher {
            keyed: Vec::new(),
            networks: Vec::new(),
            min_confidence: if min_confidence == 0 {
                1
            } else {
                min_confidence
            },
        };
        assert(matcher@ =~= IntelView::empty(matcher.min_confidence));
        matcher
    }

    pub fn with_default_confidence() -> (matcher: ThreatIntelMatcher)
        ensures
            matcher@ == IntelView::empty(DEFAULT_MIN_CONFIDENCE),
    {
        ThreatIntelMatcher::new(DEFAULT_MIN_CONFIDENCE)
    }

    /// Adds a record.
    pub fn add_record(&mut self, record: ThreatIntelRecord)
        ensures
            final(self)@ == old(self)@.add(record@),
    {
        let ghost given = record@;
        if same_text(record.ioc_type.as_str(), "cidr") {
            if let Some((address, prefix)) = parse_cidr(record.value.as_str()) {
                let ghost before = self@.networks;
                let network = ThreatIntelNetwork { address, prefix, record };
                let ghost one = network_view(network);
                self.networks.push(network);
                assert(network_views(self.networks@) =~= before.push(one));
            }
            assert(self@ =~= old(self)@.add(given));
            return;
        }
        let keys = indicator_keys(record.value.as_str(), record.ioc_type.as_str());
        let ghost wanted = under_keys(texts(keys@), given);
        let ghost before = self@.keyed;
        let mut i: usize = 0;
        assert(keyed_views(self.keyed@) =~= before + wanted.take(0));
        while i < keys.len()
            invariant
                i <= keys@.len(),
                given == record@,
                wanted == under_keys(texts(keys@), given),
                self.networks == old(self).networks,
                self.min_confidence == old(self).min_confidence,
                keyed_views(self.keyed@) == before + wanted.take(i as int),
            decreases keys@.len() - i,
        {
            let ghost held = keyed_views(self.keyed@);
            self.keyed.push(KeyedRecord { key: keys[i].clone(), record: record.duplicate() });
            assert(keyed_views(self.keyed@) =~= held.push((keys@[i as int]@, given)));
            assert(wanted.take(i + 1) =~= wanted.take(i as int).push(wanted[i as int]));
            assert(keyed_views(self.keyed@) =~= before + wanted.take(i + 1));
            i = i + 1;
        }
        assert(wanted.take(i as int) =~= wanted);
        assert(self@ =~= old(self)@.add(given));
    }

    fn add_records(&mut self, records: Vec<ThreatIntelRecord>)
        ensures
            final(self)@ == old(self)@.add_all(record_views(records@)),
    {
        let ghost views = record_views(records@);
        let mut i: usize = 0;
        while i < records.len()
            invariant
                i <= records@.len(),
                views == record_views(records@),
                self@ == old(self)@.add_all(views.take(i as int)),
            decreases records@.len() - i,
        {
            assert(views.take(i + 1).drop_last() =~= views.take(i as int));
            assert(views.take(i + 1).last() == records@[i as int]@);
            self.add_record(records[i].duplicate());
            i = i + 1;
        }
        assert(views.take(i as int) =~= views);
    }

    /// Adds the records of the rows of an indicator database as of `now`, and returns how
    /// many there are.
    pub fn load_from_sqlite_db_at(&mut self, rows: &[IocRow], now: i64) -> (loaded: usize)
        ensures
            final(self)@ == old(self)@.add_all(
                rows_records(rows@, old(self)@.min_confidence, now as int),
            ),
            loaded == rows_records(rows@, old(self)@.min_confidence, now as int).len(),
    {
        let records = read_iocs_from_rows(rows, self.min_confidence, now);
        let loaded: usize = records.len();
        assert(record_views(records@).len() == loaded);
        self.add_records(records);
        loaded
    }

    /// Adds the records of the rows of an indicator database.
    pub fn load_from_sqlite_db(&mut self, rows: &[IocRow]) -> (loaded: usize)
        ensures
            exists|now: i64|
                #![trigger rows_records(rows@, old(self)@.min_confidence, now as int)]
                final(self)@ == old(self)@.add_all(
                    rows_records(rows@, old(self)@.min_confidence, now as int),
                ) && loaded == rows_records(
                    rows@,
                    old(self)@.min_confidence,
                    now as int,
                ).len(),
    {
        let now: i64 = now_seconds();
        self.load_from_sqlite_db_at(rows, now)
    }

    /// Replaces all records by those of the rows of an indicator database as of `now`.
    pub fn replace_from_sqlite_db_at(&mut self, rows: &[IocRow], now: i64) -> (loaded: usize)
        ensures
            final(self)@ == IntelView::empty(old(self)@.min_confidence).add_all(
                rows_records(rows@, old(self)@.min_confidence, now as int),
            ),
            loaded == rows_records(rows@, old(self)@.min_confidence, now as int).len(),
    {
        let mut replacement = ThreatIntelMatcher {
            keyed: Vec::new(),
            networks: Vec::new(),
            min_confidence: self.min_confidence,
        };
        assert(replacement@ =~= IntelView::empty(self@.min_confidence));
        let loaded: usize = replacement.load_from_sqlite_db_at(rows, now);
        *self = replacement;
        loaded
    }

    /// Replaces all records by those of the rows of an indicator database.
    pub fn replace_from_sqlite_db(&mut self, rows: &[IocRow]) -> (loaded: usize)
        ensures
            exists|now: i64|
                #![trigger rows_records(rows@, old(self)@.min_confidence, now as int)]
                final(self)@ == IntelView::empty(old(self)@.min_confidence).add_all(
                    rows_records(rows@, old(self)@.min_confidence, now as int),
                ) && loaded == rows_records(
                    rows@,
                    old(self)@.min_confidence,
                    now as int,
                ).len(),
    {
        let now: i64 = now_seconds();
        self.replace_from_sqlite_db_at(rows, now)
    }

    /// The records that match an observation at `now`, in the order of the keys that find
    /// them, networks last.
    pub fn match_observation_at(&self, observation: &str, now: i64) -> (matches: Vec<
        ThreatIntelMatch,
    >)
        ensures
            matched_records(matches@) == observed_records(self@, observation@, now as int),
            all_observed(matches@, observation@),
    {
        let keys = observation_keys(observation);
        let ghost names = texts(keys@);
        proof {
            let chosen = ordered_keys(observation@);
            assert(sorted_set_of(chosen, all_keys(observation@)));
            law_sorted_set_unique(names, chosen, all_keys(observation@));
        }
        let mut collector = Collector { matches: Vec::new(), seen: Vec::new() };
        let ghost mut hits: Seq<RecordView> = Seq::empty();
        assert(matched_records(collector.matches@) =~= Seq::empty());
        assert(texts(collector.seen@) =~= identities(Seq::empty()));
        let mut i: usize = 0;
        while i < keys.len()
            invariant
                i <= keys@.len(),
                names == texts(keys@),
                collector.holds(hits, observation@),
                hits == keyed_hits(self@, names.take(i as int), now as int),
            decreases keys@.len() - i,
        {
            assert(names.take(i + 1).drop_last() =~= names.take(i as int));
            assert(names.take(i + 1).last() == keys@[i as int]@);
            let ghost start = hits;
            let ghost keyed = self@.keyed;
            let mut j: usize = 0;
            assert(hits =~= start + live_under(keyed.take(0), keys@[i as int]@, now as int));
            while j < self.keyed.len()
                invariant
                    i < keys@.len(),
                    j <= self.keyed@.len(),
                    keyed == self@.keyed,
                    collector.holds(hits, observation@),
                    hits == start + live_under(
                        keyed.take(j as int),
                        keys@[i as int]@,
                        now as int,
                    ),
                decreases self.keyed@.len() - j,
            {
                let entry = &self.keyed[j];
                assert(keyed.take(j + 1).drop_last() =~= keyed.take(j as int));
                assert(keyed.take(j + 1).last() == (entry.key@, entry.record@));
                if same_text(entry.key.as_str(), keys[i].as_str()) && !passed(
                    &entry.record.expires_at,
                    now,
                ) {
                    collector.take(&entry.record, observation, Ghost(hits));
                    proof {
                        hits = hits.push(entry.record@);
                    }
                }
                assert(hits =~= start + live_under(
                    keyed.take(j + 1),
                    keys@[i as int]@,
                    now as int,
                ));
                j = j + 1;
            }
            assert(keyed.take(j as int) =~= keyed);
            i = i + 1;
        }
        assert(names.take(i as int) =~= names);
        let ghost found = hits;
        let mut i: usize = 0;
        assert(hits =~= found + network_hits(self@, names.take(0), now as int));
        while i < keys.len()
            invariant
                i <= keys@.len(),
                names == texts(keys@),
                collector.holds(hits, observation@),
                hits == found + network_hits(self@, names.take(i as int), now as int),
            decreases keys@.len() - i,
        {
            assert(names.take(i + 1).drop_last() =~= names.take(i as int));
            assert(names.take(i + 1).last() == keys@[i as int]@);
            if let Some(ip) = parse_ip(keys[i].as_str()) {
                let ghost start = hits;
                let ghost networks = self@.networks;
                let mut j: usize = 0;
                assert(hits =~= start + live_networks(networks.take(0), ip, now as int));
                while j < self.networks.len()
                    invariant
                        j <= self.networks@.len(),
                        networks == self@.networks,
                        collector.holds(hits, observation@),
                        hits == start + live_networks(networks.take(j as int), ip, now as int),
                    decreases self.networks@.len() - j,
                {
                    let network = &self.networks[j];
                    assert(networks.take(j + 1).drop_last() =~= networks.take(j as int));
                    assert(networks.take(j + 1).last() == network_view(*network));
                    if !passed(&network.record.expires_at, now) && ip_in_network(
                        ip,
                        network.address,
                        network.prefix,
                    ) {
                        collector.take(&network.record, observation, Ghost(hits));
                        proof {
                            hits = hits.push(network.record@);
                        }
                    }
                    assert(hits =~= start + live_networks(networks.take(j + 1), ip, now as int));
                    j = j + 1;
                }
                assert(networks.take(j as int) =~= networks);
                assert(hits =~= found + (network_hits(self@, names.take(i as int), now as int)
                    + live_networks(networks, ip, now as int)));
            }
            i = i + 1;
        }
        assert(names.take(i as int) =~= names);
        collector.matches
    }

    /// The records that match an observation.
    pub fn match_observation(&self, observation: &str) -> (matches: Vec<ThreatIntelMatch>)
        ensures
            exists|now: i64|
                matched_records(matches@) == #[trigger] observed_records(
                    self@,
                    observation@,
                    now as int,
                ),
            all_observed(matches@, observation@),
    {
        let now: i64 = now_seconds();
        self.match_observation_at(observation, now)
    }

    /// The records that match any of the observations at `now`, observation by
    /// observation.
    pub fn match_observations_at(&self, observations: &[&str], now: i64) -> (matches: Vec<
        ThreatIntelMatch,
    >)
        ensures
            matched_records(matches@) == all_observed_records(
                self@,
                observation_views(observations@),
                now as int,
            ),
            observed_texts(matches@) == all_observations(
                self@,
                observation_views(observations@),
                now as int,
            ),
    {
        let ghost views = observation_views(observations@);
        let mut matches: Vec<ThreatIntelMatch> = Vec::new();
        let mut i: usize = 0;
        assert(matched_records(matches@) =~= Seq::empty());
        assert(observed_texts(matches@) =~= Seq::empty());
        while i < observations.len()
            invariant
                i <= observations@.len(),
                views == observation_views(observations@),
                matched_records(matches@) == all_observed_records(
                    self@,
                    views.take(i as int),
                    now as int,
                ),
                observed_texts(matches@) == all_observations(
                    self@,
                    views.take(i as int),
                    now as int,
                ),
            decreases observations@.len() - i,
        {
            assert(views.take(i + 1).drop_last() =~= views.take(i as int));
            assert(views.take(i + 1).last() == observations@[i as int]@);
            let mut more = self.match_observation_at(observations[i], now);
            let ghost left = matches@;
            let ghost right = more@;
            matches.append(&mut more);
            assert(matched_records(left + right) =~= matched_records(left) + matched_records(
                right,
            ));
            assert(observed_texts(left + right) =~= observed_texts(left) + observed_texts(right));
            assert(matched_records(right).len() == right.len());
            assert(observed_texts(right) =~= Seq::new(
                observed_records(self@, views.take(i + 1).last(), now as int).len(),
                |j: int| views.take(i + 1).last(),
            ));
            i = i + 1;
        }
        assert(views.take(i as int) =~= views);
        matches
    }

    /// The records that match any of the observations.
    pub fn match_observations(&self, observations: &[&str]) -> (matches: Vec<ThreatIntelMatch>)
        ensures
            exists|now: i64|
                matched_records(matches@) == #[trigger] all_observed_records(
                    self@,
                    observation_views(observations@),
                    now as int,
                ) && observed_texts(matches@) == all_observations(
                    self@,
                    observation_views(observations@),
                    now as int,
                ),
    {
        let now: i64 = now_seconds();
        self.match_observations_at(observations, now)
    }

    /// The number of records that have not expired at `now`, a record under two keys
    /// counting twice.
    pub fn entry_count_at(&self, now: i64) -> (n: usize)
        requires
            self@.keyed.len() + self@.networks.len() <= usize::MAX,
        ensures
            n == live_keyed(self@.keyed, now as int) + live_network_count(
                self@.networks,
                now as int,
            ),
    {
        let ghost keyed = self@.keyed;
        let ghost networks = self@.networks;
        let mut n: usize = 0;
        let mut i: usize = 0;
        while i < self.keyed.len()
            invariant
                i <= self.keyed@.len(),
                n <= i,
                keyed == self@.keyed,
                n == live_keyed(keyed.take(i as int), now as int),
            decreases self.keyed@.len() - i,
        {
            assert(keyed.take(i + 1).drop_last() =~= keyed.take(i as int));
            assert(keyed.take(i + 1).last() == (
                self.keyed@[i as int].key@,
                self.keyed@[i as int].record@,
            ));
            if !passed(&self.keyed[i].record.expires_at, now) {
                n = n + 1;
            }
            i = i + 1;
        }
        assert(keyed.take(i as int) =~= keyed);
        let ghost first = n;
        let mut j: usize = 0;
        while j < self.networks.len()
            invariant
                j <= self.networks@.len(),
                networks == self@.networks,
                first <= self.keyed@.len(),
                self.keyed@.len() + self.networks@.len() <= usize::MAX,
                n <= first + j,
                n == first + live_network_count(networks.take(j as int), now as int),
            decreases self.networks@.len() - j,
        {
            assert(networks.take(j + 1).drop_last() =~= networks.take(j as int));
            assert(networks.take(j + 1).last() == network_view(self.networks@[j as int]));
            if !passed(&self.networks[j].record.expires_at, now) {
                n = n + 1;
            }
            j = j + 1;
        }
        assert(networks.take(j as int) =~= networks);
        n
    }

    /// The number of records that have not expired.
    pub fn entry_count(&self) -> (n: usize)
        requires
            self@.keyed.len() + self@.networks.len() <= usize::MAX,
        ensures
            exists|now: i64|
                n == #[trigger] live_keyed(self@.keyed, now as int) + live_network_count(
                    self@.networks,
                    now as int,
                ),
    {
        let now: i64 = now_seconds();
        self.entry_count_at(now)
    }
}

pub open spec fn observation_views(observations: Seq<&str>) -> Seq<Seq<char>> {
    observations.map_values(|o: &str| o@)
}

pub open spec fn all_observed_records(
    intel: IntelView,
    observations: Seq<Seq<char>>,
    now: int,
) -> Seq<RecordView>
    decreases observations.len(),
{
    if observations.len() == 0 {
        Seq::empty()
    } else {
        all_observed_records(intel, observations.drop_last(), now) + observed_records(
            intel,
            observations.last(),
            now,
        )
    }
}

/// The observation that each matching record comes from.
pub open spec fn all_observations(
    intel: IntelView,
    observations: Seq<Seq<char>>,
    now: int,
) -> Seq<Seq<char>>
    decreases observations.len(),
{
    if observations.len() == 0 {
        Seq::empty()
    } else {
        all_observations(intel, observations.drop_last(), now) + Seq::new(
            observed_records(intel, observations.last(), now).len(),
            |i: int| observations.last(),
        )
    }
}

pub open spec fn live_keyed(keyed: Seq<(Seq<char>, RecordView)>, now: int) -> nat
    decreases keyed.len(),
{
    if keyed.len() == 0 {
        0
    } else {
        live_keyed(keyed.drop_last(), now) + if is_expired(keyed.last().1, now) {
            0nat
        } else {
            1nat
        }
    }
}

pub open spec fn live_network_count(networks: Seq<NetworkView>, now: int) -> nat
    decreases networks.len(),
{
    if networks.len() == 0 {
        0
    } else {
        live_network_count(networks.drop_last(), now) + if is_expired(
            networks.last().record,
            now,
        ) {
            0nat
        } else {
            1nat
        }
    }
}

/// Nothing among the records has expired.
pub open spec fn all_live(records: Seq<RecordView>, now: int) -> bool {
    forall|i: int| 0 <= i < records.len() ==> !is_expired(#[trigger] records[i], now)
}

proof fn lemma_live_joined(a: Seq<RecordView>, b: Seq<RecordView>, now: int)
    requires
        all_live(a, now),
        all_live(b, now),
    ensures
        all_live(a + b, now),
{
    assert forall|i: int| 0 <= i < (a + b).len() implies !is_expired(
        #[trigger] (a + b)[i],
        now,
    ) by {
        if i < a.len() {
            assert((a + b)[i] == a[i]);
        } else {
            assert((a + b)[i] == b[i - a.len()]);
        }
    }
}

proof fn lemma_live_under(keyed: Seq<(Seq<char>, RecordView)>, key: Seq<char>, now: int)
    ensures
        all_live(live_under(keyed, key, now), now),
    decreases keyed.len(),
{
    if keyed.len() > 0 {
        lemma_live_under(keyed.drop_last(), key, now);
    }
}

proof fn lemma_live_networks(networks: Seq<NetworkView>, ip: IpAddress, now: int)
    ensures
        all_live(live_networks(networks, ip, now), now),
    decreases networks.len(),
{
    if networks.len() > 0 {
        lemma_live_networks(networks.drop_last(), ip, now);
    }
}

proof fn lemma_live_hits(intel: IntelView, keys: Seq<Seq<char>>, now: int)
    ensures
        all_live(keyed_hits(intel, keys, now), now),
        all_live(network_hits(intel, keys, now), now),
    decreases keys.len(),
{
    if keys.len() > 0 {
        let front = keys.drop_last();
        lemma_live_hits(intel, front, now);
        lemma_live_under(intel.keyed, keys.last(), now);
        lemma_live_joined(
            keyed_hits(intel, front, now),
            live_under(intel.keyed, keys.last(), now),
            now,
        );
        if let Some(ip) = parsed_ip(keys.last()) {
            lemma_live_networks(intel.networks, ip, now);
            lemma_live_joined(
                network_hits(intel, front, now),
                live_networks(intel.networks, ip, now),
                now,
            );
        }
    }
}

proof fn lemma_distinct(records: Seq<RecordView>, now: int)
    ensures
        identities(distinct_records(records)).no_duplicates(),
        all_live(records, now) ==> all_live(distinct_records(records), now),
    decreases records.len(),
{
    if records.len() > 0 {
        let front = records.drop_last();
        lemma_distinct(front, now);
        let before = distinct_records(front);
        let last = records.last();
        assert(all_live(records, now) ==> all_live(front, now)) by {
            if all_live(records, now) {
                assert forall|i: int| 0 <= i < front.len() implies !is_expired(
                    #[trigger] front[i],
                    now,
                ) by {
                    assert(front[i] == records[i]);
                }
            }
        }
        assert(last == records[records.len() - 1]);
        if !identities(before).contains(identity(last)) {
            let names = identities(before);
            let more = identities(before.push(last));
            assert(more =~= names.push(identity(last)));
            assert forall|i: int, j: int|
                0 <= i < more.len() && 0 <= j < more.len() && i != j implies more[i]
                != more[j] by {
                if i == names.len() {
                    assert(names.contains(names[j]));
                } else if j == names.len() {
                    assert(names.contains(names[i]));
                }
            }
        }
    }
}

/// No match is expired, and no two matches are of one source, kind and value.
pub proof fn law_matches_are_live_and_distinct(
    intel: IntelView,
    observation: Seq<char>,
    now: int,
)
    ensures
        all_live(observed_records(intel, observation, now), now),
        identities(observed_records(intel, observation, now)).no_duplicates(),
{
    let keys = ordered_keys(observation);
    lemma_live_hits(intel, keys, now);
    lemma_live_joined(keyed_hits(intel, keys, now), network_hits(intel, keys, now), now);
    lemma_distinct(keyed_hits(intel, keys, now) + network_hits(intel, keys, now), now);
}

/// Every record that is loaded has at least the confidence that is asked for and has not
/// expired.
pub proof fn law_loaded_records_qualify(
    rows: Seq<IocRow>,
    min_confidence: u8,
    now: int,
    i: int,
)
    requires
        0 <= i < rows_records(rows, min_confidence, now).len(),
    ensures
        rows_records(rows, min_confidence, now)[i].confidence >= min_confidence,
        !is_expired(rows_records(rows, min_confidence, now)[i], now),
    decreases rows.len(),
{
    if rows.len() > 0 {
        let before = rows_records(rows.drop_last(), min_confidence, now);
        if i < before.len() {
            law_loaded_records_qualify(rows.drop_last(), min_confidence, now, i);
        }
    }
}

/// A network in its normal form reads back as the same network, so that a record of a
/// network is never lost when it is added.
pub proof fn law_network_reads_back(value: Seq<char>)
    requires
        parsed_cidr(value) is Some,
    ensures
        ({
            let (ip, prefix) = parsed_cidr(value)->0;
            parsed_cidr(cidr_text(ip, prefix)) == Some((ip, prefix))
        }),
{
    let (ip, prefix) = parsed_cidr(value)->0;
    let body = trimmed(value);
    let source = parsed_ip(ahead_of(body, '/'))->0;
    law_address_is_in_its_network(source, prefix);
    let front = ip_text(ip);
    let digits = decimal(prefix);
    let text = cidr_text(ip, prefix);
    reveal_strlit("/");
    lemma_ip_text_chars(ip);
    lemma_decimal(prefix);
    law_address_reads_back(ip);
    assert(is_ip_char(front[0]));
    assert(text[0] == front[0]);
    assert(is_digit(digits[digits.len() - 1]));
    assert(text.last() == digits.last());
    lemma_trimmed(text);
    let n = front.len() as int;
    assert(text[n] == '/');
    assert forall|k: int| 0 <= k < n implies text[k] != '/' by {
        assert(text[k] == front[k]);
        assert(is_ip_char(front[k]));
    }
    lemma_first_of(text, '/');
    assert(text.contains('/'));
    assert(first_of(text, '/') == n) by {
        let at = first_of(text, '/');
        if at < n {
            assert(text[at] != '/');
        }
        if at > n {
            assert(text[n] != '/');
        }
    }
    assert(ahead_of(text, '/') =~= front);
    assert(behind_first(text, '/') =~= digits);
    assert(digits[0] != '+') by {
        assert(is_digit(digits[0]));
    }
    assert(unsigned_body(digits) == digits);
}

} // verus!
