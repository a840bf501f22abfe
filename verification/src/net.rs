//! Internet addresses and the networks that hold them.

use crate::digest::hex_char;
use crate::text::{chars_between, chars_of, decimal, decimal_text, is_digit, is_hex_digit};
use crate::text::{digits_value, split_by, split_chars, texts};
use crate::text::{all_digits, lemma_decimal, lemma_split_piece};
use vstd::arithmetic::power2::{lemma2_to64, lemma2_to64_rest, lemma_pow2, lemma_pow2_adds};
use vstd::arithmetic::power2::{lemma_pow2_pos, lemma_pow2_strictly_increases, lemma_pow2_unfold};
use vstd::arithmetic::power2::pow2;
use vstd::prelude::*;

verus! {

/// An address of either version by its bits.
#[derive(Debug, Clone, Copy, PartialEq, Eq, Structural)]
pub enum IpAddress {
    V4(u32),
    V6(u128),
}

/// The number that one part of a version 4 address writes: up to three digits, no zero
/// before another digit, and at most 255.
pub open spec fn octet(s: Seq<char>) -> Option<nat> {
    if 1 <= s.len() <= 3 && all_digits(s) && (s.len() == 1 || s[0] != '0') && digits_value(s)
        <= 255 {
        Some(digits_value(s))
    } else {
        None
    }
}

/// The version 4 address that a text writes.
pub open spec fn ipv4_value(s: Seq<char>) -> Option<nat> {
    let parts = split_by(s, '.');
    if parts.len() == 4 && octet(parts[0]) is Some && octet(parts[1]) is Some && octet(
        parts[2],
    ) is Some && octet(parts[3]) is Some {
        Some(
            0x100_0000 * octet(parts[0])->0 + 0x1_0000 * octet(parts[1])->0 + 0x100 * octet(
                parts[2],
            )->0 + octet(parts[3])->0,
        )
    } else {
        None
    }
}

/// The value of a hexadecimal digit.
pub open spec fn hex_digit(c: char) -> nat {
    if is_digit(c) {
        (c as nat - 48) as nat
    } else if 'a' <= c <= 'f' {
        (c as nat - 87) as nat
    } else {
        (c as nat - 55) as nat
    }
}

/// The number that hexadecimal digits write.
pub open spec fn hex_value(s: Seq<char>) -> nat
    decreases s.len(),
{
    if s.len() == 0 {
        0
    } else {
        16 * hex_value(s.drop_last()) + hex_digit(s.last())
    }
}

pub open spec fn all_hex_digits(s: Seq<char>) -> bool {
    forall|i: int| 0 <= i < s.len() ==> is_hex_digit(#[trigger] s[i])
}

/// The number that one group of a version 6 address writes.
pub open spec fn hex_group(s: Seq<char>) -> Option<nat> {
    if 1 <= s.len() <= 4 && all_hex_digits(s) {
        Some(hex_value(s))
    } else {
        None
    }
}

/// The groups that pieces write; the last piece may be a version 4 address, which makes
/// two groups, where `embedded` says so.
pub open spec fn groups_of(pieces: Seq<Seq<char>>, embedded: bool) -> Option<Seq<nat>>
    decreases pieces.len(),
{
    if pieces.len() == 0 {
        Some(Seq::empty())
    } else {
        match groups_of(pieces.drop_last(), false) {
            None => None,
            Some(before) => {
                if hex_group(pieces.last()) is Some {
                    Some(before.push(hex_group(pieces.last())->0))
                } else if embedded && ipv4_value(pieces.last()) is Some {
                    let v4 = ipv4_value(pieces.last())->0;
                    Some(before.push(v4 / 0x1_0000).push(v4 % 0x1_0000))
                } else {
                    None
                }
            },
        }
    }
}

/// The groups of a text between colons; an empty text has none.
pub open spec fn text_groups(s: Seq<char>, embedded: bool) -> Option<Seq<nat>> {
    if s.len() == 0 {
        Some(Seq::empty())
    } else {
        groups_of(split_by(s, ':'), embedded)
    }
}

/// Where two colons in a row stand first, or the length of the text.
pub open spec fn double_colon(s: Seq<char>, from: int) -> int
    decreases s.len() - from,
{
    if from < 0 || from + 1 >= s.len() {
        s.len() as int
    } else if s[from] == ':' && s[from + 1] == ':' {
        from
    } else {
        double_colon(s, from + 1)
    }
}

/// The eight groups of the version 6 address that a text writes. Two colons in a row stand
/// for one or more groups of zero.
pub open spec fn ipv6_groups(s: Seq<char>) -> Option<Seq<nat>> {
    let at = double_colon(s, 0);
    if at == s.len() {
        match text_groups(s, true) {
            Some(groups) => if groups.len() == 8 {
                Some(groups)
            } else {
                None
            },
            None => None,
        }
    } else {
        match (text_groups(s.take(at), false), text_groups(s.skip(at + 2), true)) {
            (Some(head), Some(tail)) => if head.len() + tail.len() <= 7 {
                Some(head + Seq::new((8 - head.len() - tail.len()) as nat, |i: int| 0nat) + tail)
            } else {
                None
            },
            _ => None,
        }
    }
}

/// The number that groups of sixteen bits make.
pub open spec fn groups_value(groups: Seq<nat>) -> nat
    decreases groups.len(),
{
    if groups.len() == 0 {
        0
    } else {
        0x1_0000 * groups_value(groups.drop_last()) + groups.last()
    }
}

/// The address that a text writes.
pub open spec fn parsed_ip(s: Seq<char>) -> Option<IpAddress> {
    if ipv4_value(s) is Some {
        Some(IpAddress::V4(ipv4_value(s)->0 as u32))
    } else if ipv6_groups(s) is Some {
        Some(IpAddress::V6(groups_value(ipv6_groups(s)->0) as u128))
    } else {
        None
    }
}

/// The version 4 address in its four decimal parts.
pub open spec fn ipv4_text(v: nat) -> Seq<char> {
    decimal(v / 0x100_0000) + "."@ + decimal(v / 0x1_0000 % 0x100) + "."@ + decimal(
        v / 0x100 % 0x100,
    ) + "."@ + decimal(v % 0x100)
}

/// Group `i` of the eight of a version 6 address.
pub open spec fn group_at(v: nat, i: int) -> nat {
    v / pow2((112 - 16 * i) as nat) % 0x1_0000
}

/// The digits of a group without zeros before them.
pub open spec fn group_text(g: nat) -> Seq<char>
    decreases g,
{
    if g < 16 {
        seq![hex_char(g)]
    } else {
        group_text(g / 16).push(hex_char(g % 16))
    }
}

/// Groups `from` to `to` with colons between them.
pub open spec fn group_run(groups: Seq<nat>, from: int, to: int) -> Seq<char>
    decreases to - from,
{
    if to <= from {
        Seq::empty()
    } else if to == from + 1 {
        group_text(groups[from])
    } else {
        group_run(groups, from, to - 1) + ":"@ + group_text(groups[to - 1])
    }
}

/// How many groups from `i` on are zero.
pub open spec fn zeros_from(groups: Seq<nat>, i: int) -> nat
    decreases groups.len() - i,
{
    if 0 <= i < groups.len() && groups[i] == 0 {
        1 + zeros_from(groups, i + 1)
    } else {
        0
    }
}

/// The start of the first of the longest runs of zero groups among the first `n`.
pub open spec fn longest_zeros(groups: Seq<nat>, n: nat) -> int
    decreases n,
{
    if n <= 1 {
        0
    } else {
        let before = longest_zeros(groups, (n - 1) as nat);
        if zeros_from(groups, n - 1) > zeros_from(groups, before) {
            n - 1
        } else {
            before
        }
    }
}

/// Eight groups as text: the first of the longest runs of two or more zero groups is left
/// out between two colons, and an embedded version 4 address is written as one.
pub open spec fn ipv6_text(groups: Seq<nat>) -> Seq<char> {
    let start = longest_zeros(groups, 8);
    let run = zeros_from(groups, start);
    if zeros_from(groups, 0) == 5 && groups[5] == 0xFFFF {
        "::ffff:"@ + ipv4_text(0x1_0000 * groups[6] + groups[7])
    } else if run > 1 {
        group_run(groups, 0, start) + "::"@ + group_run(groups, start + run, 8)
    } else {
        group_run(groups, 0, 8)
    }
}

/// The address as text.
pub open spec fn ip_text(ip: IpAddress) -> Seq<char> {
    match ip {
        IpAddress::V4(v) => ipv4_text(v as nat),
        IpAddress::V6(v) => ipv6_text(Seq::new(8, |i: int| group_at(v as nat, i))),
    }
}

/// The bits of an address of this version.
pub open spec fn ip_bits(ip: IpAddress) -> nat {
    match ip {
        IpAddress::V4(_) => 32,
        IpAddress::V6(_) => 128,
    }
}

/// The bits of an address before the last `low` ones.
pub open spec fn high_bits(v: nat, low: nat) -> nat {
    v / pow2(low)
}

/// The address lies in the network: both are of one version and agree in the first
/// `prefix` bits.
pub open spec fn in_network(ip: IpAddress, network: IpAddress, prefix: nat) -> bool {
    match (ip, network) {
        (IpAddress::V4(a), IpAddress::V4(n)) => prefix <= 32 && high_bits(
            a as nat,
            (32 - prefix) as nat,
        ) == high_bits(n as nat, (32 - prefix) as nat),
        (IpAddress::V6(a), IpAddress::V6(n)) => prefix <= 128 && high_bits(
            a as nat,
            (128 - prefix) as nat,
        ) == high_bits(n as nat, (128 - prefix) as nat),
        _ => false,
    }
}

/// The address with all but its first `prefix` bits zero.
pub open spec fn masked(ip: IpAddress, prefix: nat) -> IpAddress {
    match ip {
        IpAddress::V4(v) => IpAddress::V4(
            (high_bits(v as nat, (32 - prefix) as nat) * pow2((32 - prefix) as nat)) as u32,
        ),
        IpAddress::V6(v) => IpAddress::V6(
            (high_bits(v as nat, (128 - prefix) as nat) * pow2((128 - prefix) as nat)) as u128,
        ),
    }
}

/// The number that one part of a version 4 address writes.
fn parse_octet(part: &str) -> (n: Option<u32>)
    ensures
        match n {
            Some(v) => octet(part@) == Some(v as nat) && v <= 255,
            None => octet(part@) is None,
        },
{
    let chars = chars_of(part);
    let size: usize = chars.len();
    if size == 0 || size > 3 || (size > 1 && chars[0] == '0') {
        return None;
    }
    let mut value: u32 = 0;
    let mut i: usize = 0;
    while i < size
        invariant
            i <= size == chars@.len(),
            size <= 3,
            chars@ == part@,
            value == digits_value(part@.take(i as int)),
            i == 0 ==> value == 0,
            i <= 1 ==> value < 10,
            i <= 2 ==> value < 100,
            value < 1000,
            forall|k: int| 0 <= k < i ==> is_digit(#[trigger] part@[k]),
        decreases size - i,
    {
        let c = chars[i];
        if c < '0' || c > '9' {
            assert(!is_digit(part@[i as int]));
            return None;
        }
        assert(part@.take(i + 1).drop_last() =~= part@.take(i as int));
        assert(part@.take(i + 1).last() == c);
        let digit: u8 = c as u8;
        value = value * 10 + (digit - 48) as u32;
        i = i + 1;
    }
    assert(part@.take(i as int) =~= part@);
    if value <= 255 {
        Some(value)
    } else {
        None
    }
}

/// The version 4 address that a text writes.
fn parse_ipv4(chars: &[char]) -> (ip: Option<u32>)
    ensures
        match ip {
            Some(v) => ipv4_value(chars@) == Some(v as nat),
            None => ipv4_value(chars@) is None,
        },
{
    let parts = split_chars(chars, '.');
    if parts.len() != 4 {
        return None;
    }
    let ghost views = texts(parts@);
    assert(views[0] == parts@[0]@ && views[1] == parts@[1]@ && views[2] == parts@[2]@ && views[3]
        == parts@[3]@);
    match (
        parse_octet(parts[0].as_str()),
        parse_octet(parts[1].as_str()),
        parse_octet(parts[2].as_str()),
        parse_octet(parts[3].as_str()),
    ) {
        (Some(a), Some(b), Some(c), Some(d)) => Some(
            0x100_0000 * a + 0x1_0000 * b + 0x100 * c + d,
        ),
        _ => None,
    }
}

/// The number that one group of a version 6 address writes.
fn parse_group(part: &str) -> (n: Option<u32>)
    ensures
        match n {
            Some(v) => hex_group(part@) == Some(v as nat) && v <= 0xFFFF,
            None => hex_group(part@) is None,
        },
{
    let chars = chars_of(part);
    let size: usize = chars.len();
    if size == 0 || size > 4 {
        return None;
    }
    let mut value: u32 = 0;
    let mut i: usize = 0;
    while i < size
        invariant
            i <= size == chars@.len(),
            size <= 4,
            chars@ == part@,
            value == hex_value(part@.take(i as int)),
            i == 0 ==> value == 0,
            i <= 1 ==> value < 0x10,
            i <= 2 ==> value < 0x100,
            i <= 3 ==> value < 0x1000,
            value < 0x1_0000,
            forall|k: int| 0 <= k < i ==> is_hex_digit(#[trigger] part@[k]),
        decreases size - i,
    {
        let c = chars[i];
        assert(part@.take(i + 1).drop_last() =~= part@.take(i as int));
        assert(part@.take(i + 1).last() == c);
        let digit: u32 = if '0' <= c && c <= '9' {
            c as u32 - 48
        } else if 'a' <= c && c <= 'f' {
            c as u32 - 87
        } else if 'A' <= c && c <= 'F' {
            c as u32 - 55
        } else {
            assert(!is_hex_digit(part@[i as int]));
            return None;
        };
        value = value * 16 + digit;
        i = i + 1;
    }
    assert(part@.take(i as int) =~= part@);
    Some(value)
}

/// The groups by their numbers.
pub open spec fn group_values(groups: Seq<u32>) -> Seq<nat> {
    groups.map_values(|g: u32| g as nat)
}

/// Every group fits into sixteen bits.
pub open spec fn short_groups(groups: Seq<nat>) -> bool {
    forall|i: int| 0 <= i < groups.len() ==> #[trigger] groups[i] <= 0xFFFF
}

/// A piece that writes no group leaves none for the longer lists.
proof fn lemma_groups_fail(pieces: Seq<Seq<char>>, embedded: bool, k: int)
    requires
        0 <= k < pieces.len(),
        groups_of(pieces.take(k + 1), k + 1 == pieces.len() && embedded) is None,
    ensures
        groups_of(pieces, embedded) is None,
    decreases pieces.len() - k,
{
    if k + 1 == pieces.len() {
        assert(pieces.take(k + 1) =~= pieces);
    } else {
        let next = pieces.take(k + 2);
        assert(next.drop_last() =~= pieces.take(k + 1));
        lemma_groups_fail(pieces, embedded, k + 1);
    }
}

/// The groups of a text between colons.
fn parse_groups(chars: &[char], embedded: bool) -> (r: Option<Vec<u32>>)
    ensures
        match r {
            Some(groups) => text_groups(chars@, embedded) == Some(group_values(groups@))
                && short_groups(group_values(groups@)),
            None => text_groups(chars@, embedded) is None,
        },
{
    let mut groups: Vec<u32> = Vec::new();
    if chars.len() == 0 {
        assert(group_values(groups@) =~= Seq::empty());
        return Some(groups);
    }
    let pieces = split_chars(chars, ':');
    let ghost views = texts(pieces@);
    let count: usize = pieces.len();
    let mut i: usize = 0;
    assert(group_values(groups@) =~= Seq::empty());
    while i + 1 < count
        invariant
            i < count == pieces@.len(),
            views == texts(pieces@),
            views == split_by(chars@, ':'),
            chars@.len() > 0,
            groups_of(views.take(i as int), false) == Some(group_values(groups@)),
            short_groups(group_values(groups@)),
        decreases count - i,
    {
        let ghost next = views.take(i + 1);
        assert(next.drop_last() =~= views.take(i as int));
        assert(next.last() == pieces@[i as int]@);
        match parse_group(pieces[i].as_str()) {
            Some(v) => {
                let ghost before = group_values(groups@);
                groups.push(v);
                assert(group_values(groups@) =~= before.push(v as nat));
            },
            None => {
                proof {
                    lemma_groups_fail(views, embedded, i as int);
                }
                return None;
            },
        }
        i = i + 1;
    }
    assert(views.take(i + 1) =~= views);
    assert(views.drop_last() =~= views.take(i as int));
    assert(views.last() == pieces@[i as int]@);
    let ghost before = group_values(groups@);
    match parse_group(pieces[i].as_str()) {
        Some(v) => {
            groups.push(v);
            assert(group_values(groups@) =~= before.push(v as nat));
            Some(groups)
        },
        None => {
            if !embedded {
                return None;
            }
            let last = chars_of(pieces[i].as_str());
            match parse_ipv4(&last) {
                Some(v4) => {
                    groups.push(v4 / 0x1_0000);
                    groups.push(v4 % 0x1_0000);
                    assert(group_values(groups@) =~= before.push((v4 / 0x1_0000) as nat).push(
                        (v4 % 0x1_0000) as nat,
                    ));
                    Some(groups)
                },
                None => None,
            }
        },
    }
}

/// Where two colons in a row stand first.
fn find_double_colon(chars: &[char]) -> (at: usize)
    ensures
        at == double_colon(chars@, 0),
        at == chars@.len() || at + 2 <= chars@.len(),
{
    let size: usize = chars.len();
    let mut i: usize = 0;
    while i < size && i + 1 < size
        invariant
            i <= size == chars@.len(),
            double_colon(chars@, 0) == double_colon(chars@, i as int),
        decreases size - i,
    {
        if chars[i] == ':' && chars[i + 1] == ':' {
            return i;
        }
        i = i + 1;
    }
    size
}

proof fn lemma_groups_value_bound(groups: Seq<nat>)
    requires
        short_groups(groups),
        groups.len() <= 8,
    ensures
        groups_value(groups) < pow2(16 * groups.len()),
    decreases groups.len(),
{
    if groups.len() == 0 {
        lemma_pow2(0);
        assert(pow2(0) == 1) by {
            lemma2_to64();
        }
    } else {
        let front = groups.drop_last();
        assert forall|i: int| 0 <= i < front.len() implies #[trigger] front[i] <= 0xFFFF by {
            assert(front[i] == groups[i]);
        }
        lemma_groups_value_bound(front);
        let n = 16 * front.len();
        assert(groups.last() == groups[groups.len() - 1]);
        lemma_pow2_adds(16, n);
        lemma2_to64();
        assert(pow2(16) == 0x1_0000);
        assert(16 * groups.len() == 16 + n);
        let p = pow2(n);
        let v = groups_value(front);
        assert(0x1_0000 * v + 0xFFFF < 0x1_0000 * p) by (nonlinear_arith)
            requires
                v < p,
        ;
    }
}

/// The number that eight groups make.
fn join_groups(groups: &Vec<u32>) -> (v: u128)
    requires
        groups@.len() == 8,
        short_groups(group_values(groups@)),
    ensures
        v == groups_value(group_values(groups@)),
{
    let ghost views = group_values(groups@);
    let mut v: u128 = 0;
    let mut i: usize = 0;
    proof {
        lemma2_to64();
        lemma_pow2_adds(64, 64);
        assert(pow2(128) == 0x1_0000_0000_0000_0000_0000_0000_0000_0000int);
    }
    while i < 8
        invariant
            i <= 8,
            groups@.len() == 8,
            views == group_values(groups@),
            short_groups(views),
            pow2(128) == 0x1_0000_0000_0000_0000_0000_0000_0000_0000int,
            v == groups_value(views.take(i as int)),
        decreases 8 - i,
    {
        let ghost next = views.take(i + 1);
        assert(next.drop_last() =~= views.take(i as int));
        assert(next.last() == groups@[i as int]);
        proof {
            assert forall|k: int| 0 <= k < next.len() implies #[trigger] next[k] <= 0xFFFF by {
                assert(next[k] == views[k]);
            }
            lemma_groups_value_bound(next);
            if i < 7 {
                lemma_pow2_strictly_increases(
                    (16 * (i + 1)) as nat,
                    128,
                );
            }
        }
        v = v * 0x1_0000 + groups[i] as u128;
        i = i + 1;
    }
    assert(views.take(i as int) =~= views);
    v
}

/// The version 6 address that a text writes.
fn parse_ipv6(chars: &[char]) -> (ip: Option<u128>)
    ensures
        match ip {
            Some(v) => ipv6_groups(chars@) is Some && v == groups_value(ipv6_groups(chars@)->0),
            None => ipv6_groups(chars@) is None,
        },
{
    let at: usize = find_double_colon(chars);
    let size: usize = chars.len();
    if at == size {
        return match parse_groups(chars, true) {
            Some(groups) => {
                if groups.len() == 8 {
                    Some(join_groups(&groups))
                } else {
                    None
                }
            },
            None => None,
        };
    }
    let front = chars_between(chars, 0, at);
    let back = chars_between(chars, at + 2, size);
    assert(front@ =~= chars@.take(at as int));
    assert(back@ =~= chars@.skip(at + 2));
    let mut head = match parse_groups(&front, false) {
        Some(groups) => groups,
        None => {
            return None;
        },
    };
    let mut tail = match parse_groups(&back, true) {
        Some(groups) => groups,
        None => {
            return None;
        },
    };
    let ghost left = group_values(head@);
    let ghost right = group_values(tail@);
    if head.len() > 7 || tail.len() > 7 - head.len() {
        return None;
    }
    let missing: usize = 8 - head.len() - tail.len();
    let ghost zeros = Seq::new(missing as nat, |i: int| 0nat);
    let mut added: usize = 0;
    assert(group_values(head@) =~= left + Seq::new(0, |i: int| 0nat));
    while added < missing
        invariant
            added <= missing,
            group_values(head@) == left + Seq::new(added as nat, |i: int| 0nat),
        decreases missing - added,
    {
        let ghost before = group_values(head@);
        head.push(0);
        added = added + 1;
        assert(group_values(head@) =~= before.push(0));
        assert(group_values(head@) =~= left + Seq::new(added as nat, |i: int| 0nat));
    }
    let ghost start = head@;
    let ghost rest = tail@;
    head.append(&mut tail);
    assert(group_values(head@) =~= left + zeros + right);
    assert forall|i: int| 0 <= i < 8 implies #[trigger] group_values(head@)[i] <= 0xFFFF by {
        if i < left.len() {
            assert(group_values(head@)[i] == left[i]);
        } else if i >= left.len() + missing {
            assert(group_values(head@)[i] == right[i - left.len() - missing]);
        }
    }
    Some(join_groups(&head))
}

/// The address that a text writes.
pub fn parse_ip(text: &str) -> (ip: Option<IpAddress>)
    ensures
        ip == parsed_ip(text@),
{
    let chars = chars_of(text);
    match parse_ipv4(&chars) {
        Some(v) => Some(IpAddress::V4(v)),
        None => match parse_ipv6(&chars) {
            Some(v) => Some(IpAddress::V6(v)),
            None => None,
        },
    }
}

/// A version 4 address in its four decimal parts.
fn ipv4_to_text(v: u32) -> (s: String)
    ensures
        s@ == ipv4_text(v as nat),
{
    let mut s = decimal_text((v / 0x100_0000) as u64);
    s.append(".");
    s.append(decimal_text((v / 0x1_0000 % 0x100) as u64).as_str());
    s.append(".");
    s.append(decimal_text((v / 0x100 % 0x100) as u64).as_str());
    s.append(".");
    s.append(decimal_text((v % 0x100) as u64).as_str());
    s
}

/// The digits of a group.
fn group_to_text(g: u32) -> (s: String)
    ensures
        s@ == group_text(g as nat),
    decreases g,
{
    let digit: u8 = (g % 16) as u8;
    let c = if digit < 10 {
        (48 + digit) as char
    } else {
        (87 + digit) as char
    };
    assert(c == hex_char((g % 16) as nat));
    if g < 16 {
        let mut s = String::new();
        s.push(c);
        assert(s@ =~= group_text(g as nat));
        s
    } else {
        let mut s = group_to_text(g / 16);
        s.push(c);
        s
    }
}

/// Groups `from` to `to` with colons between them.
fn run_to_text(groups: &Vec<u32>, from: usize, to: usize) -> (s: String)
    requires
        to <= groups@.len(),
    ensures
        s@ == group_run(group_values(groups@), from as int, to as int),
{
    let mut s = String::new();
    assert(s@ =~= Seq::empty());
    if from >= to {
        return s;
    }
    let ghost views = group_values(groups@);
    s = group_to_text(groups[from]);
    let mut i: usize = from + 1;
    while i < to
        invariant
            from < i <= to <= groups@.len(),
            views == group_values(groups@),
            s@ == group_run(views, from as int, i as int),
        decreases to - i,
    {
        s.append(":");
        s.append(group_to_text(groups[i]).as_str());
        i = i + 1;
    }
    s
}

/// How many groups from `i` on are zero.
fn count_zeros(groups: &Vec<u32>, i: usize) -> (n: usize)
    requires
        groups@.len() == 8,
    ensures
        n == zeros_from(group_values(groups@), i as int),
        i <= 8 ==> i + n <= 8,
    decreases 8 - i,
{
    if i < 8 && groups[i] == 0 {
        1 + count_zeros(groups, i + 1)
    } else {
        0
    }
}

/// The eight groups of a version 6 address.
fn split_groups(v: u128) -> (groups: Vec<u32>)
    ensures
        groups@.len() == 8,
        group_values(groups@) == Seq::new(8, |i: int| group_at(v as nat, i)),
{
    let mut reversed: Vec<u32> = Vec::new();
    let mut rest: u128 = v;
    let mut i: usize = 0;
    proof {
        lemma2_to64();
        assert(rest as nat == v as nat / pow2(0)) by {
            vstd::arithmetic::div_mod::lemma_div_basics(v as int);
        }
    }
    while i < 8
        invariant
            i <= 8,
            reversed@.len() == i,
            rest as nat == v as nat / pow2((16 * i) as nat),
            forall|k: int|
                0 <= k < i ==> #[trigger] reversed@[k] == v as nat / pow2((16 * k) as nat)
                    % 0x1_0000,
        decreases 8 - i,
    {
        reversed.push((rest % 0x1_0000) as u32);
        proof {
            let low = pow2((16 * i) as nat);
            lemma2_to64();
            lemma_pow2_adds((16 * i) as nat, 16);
            lemma_pow2_pos((16 * i) as nat);
            vstd::arithmetic::div_mod::lemma_div_denominator(v as int, low as int, 0x1_0000);
            assert((16 * i + 16) as nat == (16 * (i + 1)) as nat);
            assert(pow2((16 * (i + 1)) as nat) == low * 0x1_0000);
        }
        rest = rest / 0x1_0000;
        i = i + 1;
    }
    let mut groups: Vec<u32> = Vec::new();
    let mut j: usize = 0;
    while j < 8
        invariant
            j <= 8,
            reversed@.len() == 8,
            groups@.len() == j,
            forall|k: int|
                0 <= k < 8 ==> #[trigger] reversed@[k] == v as nat / pow2((16 * k) as nat)
                    % 0x1_0000,
            forall|k: int| 0 <= k < j ==> #[trigger] groups@[k] == group_at(v as nat, k),
        decreases 8 - j,
    {
        assert(16 * (7 - j) == 112 - 16 * j);
        groups.push(reversed[7 - j]);
        j = j + 1;
    }
    assert(group_values(groups@) =~= Seq::new(8, |i: int| group_at(v as nat, i)));
    groups
}

proof fn lemma_longest(groups: Seq<nat>, n: nat)
    requires
        groups.len() == 8,
        n <= 8,
    ensures
        0 <= longest_zeros(groups, n) < 8,
        longest_zeros(groups, n) < n || n == 0,
    decreases n,
{
    if n > 1 {
        lemma_longest(groups, (n - 1) as nat);
    }
}

/// Eight groups as text.
fn ipv6_to_text(groups: &Vec<u32>) -> (s: String)
    requires
        groups@.len() == 8,
        short_groups(group_values(groups@)),
    ensures
        s@ == ipv6_text(group_values(groups@)),
{
    let ghost views = group_values(groups@);
    let first: usize = count_zeros(groups, 0);
    if first == 5 && groups[5] == 0xFFFF {
        assert(views[6] == groups@[6] && views[7] == groups@[7]);
        let mut s = "::ffff:".to_owned();
        s.append(ipv4_to_text(0x1_0000 * groups[6] + groups[7]).as_str());
        return s;
    }
    assert(views[5] == groups@[5]);
    let mut start: usize = 0;
    let mut run: usize = first;
    let mut n: usize = 1;
    while n < 8
        invariant
            1 <= n <= 8,
            groups@.len() == 8,
            views == group_values(groups@),
            start < n,
            start == longest_zeros(views, n as nat),
            run == zeros_from(views, start as int),
            start + run <= 8,
        decreases 8 - n,
    {
        let here: usize = count_zeros(groups, n);
        if here > run {
            start = n;
            run = here;
        }
        n = n + 1;
    }
    if run > 1 {
        let mut s = run_to_text(groups, 0, start);
        s.append("::");
        s.append(run_to_text(groups, start + run, 8).as_str());
        s
    } else {
        run_to_text(groups, 0, 8)
    }
}

/// The address as text.
pub fn ip_to_text(ip: IpAddress) -> (s: String)
    ensures
        s@ == ip_text(ip),
{
    match ip {
        IpAddress::V4(v) => ipv4_to_text(v),
        IpAddress::V6(v) => {
            let groups = split_groups(v);
            assert forall|i: int| 0 <= i < 8 implies #[trigger] group_values(groups@)[i]
                <= 0xFFFF by {
                assert(group_values(groups@)[i] == group_at(v as nat, i));
            }
            ipv6_to_text(&groups)
        },
    }
}

/// Two to the power of `k`.
fn power_of_two(k: u32) -> (p: u128)
    requires
        k < 128,
    ensures
        p == pow2(k as nat),
        p > 0,
{
    let mut p: u128 = 1;
    let mut i: u32 = 0;
    proof {
        lemma2_to64();
        lemma2_to64_rest();
        lemma_pow2_adds(64, 63);
        assert(pow2(127) == 0x8000_0000_0000_0000_0000_0000_0000_0000int);
    }
    while i < k
        invariant
            i <= k < 128,
            p == pow2(i as nat),
            p > 0,
            pow2(127) == 0x8000_0000_0000_0000_0000_0000_0000_0000int,
        decreases k - i,
    {
        proof {
            lemma_pow2_unfold((i + 1) as nat);
            if i + 1 < 127 {
                lemma_pow2_strictly_increases((i + 1) as nat, 127);
            }
        }
        p = p * 2;
        i = i + 1;
    }
    p
}

/// The bits of an address before the last `low` ones.
fn high_part(v: u128, low: u32) -> (h: u128)
    requires
        low <= 128,
    ensures
        h == high_bits(v as nat, low as nat),
{
    if low == 128 {
        proof {
            lemma2_to64();
            lemma_pow2_adds(64, 64);
            assert(pow2(128) == 0x1_0000_0000_0000_0000_0000_0000_0000_0000int);
            vstd::arithmetic::div_mod::lemma_basic_div(v as int, pow2(128) as int);
        }
        0
    } else {
        v / power_of_two(low)
    }
}

/// The address lies in the network.
pub fn ip_in_network(ip: IpAddress, network: IpAddress, prefix: u8) -> (b: bool)
    ensures
        b == in_network(ip, network, prefix as nat),
{
    match (ip, network) {
        (IpAddress::V4(a), IpAddress::V4(n)) => {
            if prefix > 32 {
                return false;
            }
            let low: u32 = 32 - prefix as u32;
            high_part(a as u128, low) == high_part(n as u128, low)
        },
        (IpAddress::V6(a), IpAddress::V6(n)) => {
            if prefix > 128 {
                return false;
            }
            let low: u32 = 128 - prefix as u32;
            high_part(a, low) == high_part(n, low)
        },
        _ => false,
    }
}

/// The bits with the last `low` ones zero.
fn clear_low(v: u128, low: u32) -> (m: u128)
    requires
        low <= 128,
    ensures
        m == high_bits(v as nat, low as nat) * pow2(low as nat),
        m <= v,
{
    let high: u128 = high_part(v, low);
    if low == 128 {
        proof {
            lemma2_to64();
            lemma_pow2_adds(64, 64);
            vstd::arithmetic::div_mod::lemma_basic_div(v as int, pow2(128) as int);
            assert(high == 0);
            assert(0 * pow2(128) == 0);
        }
        0
    } else {
        let p: u128 = power_of_two(low);
        proof {
            vstd::arithmetic::div_mod::lemma_fundamental_div_mod(v as int, p as int);
            vstd::arithmetic::mul::lemma_mul_is_commutative(high as int, p as int);
        }
        high * p
    }
}

/// The address with all but its first `prefix` bits zero.
pub fn mask_ip(ip: IpAddress, prefix: u8) -> (m: IpAddress)
    requires
        prefix <= ip_bits(ip),
    ensures
        m == masked(ip, prefix as nat),
{
    match ip {
        IpAddress::V4(v) => IpAddress::V4(clear_low(v as u128, 32 - prefix as u32) as u32),
        IpAddress::V6(v) => IpAddress::V6(clear_low(v, 128 - prefix as u32)),
    }
}

/// A number up to 255 in decimal is one part of a version 4 address.
proof fn lemma_octet_text(n: nat)
    requires
        n <= 255,
    ensures
        octet(decimal(n)) == Some(n),
        decimal(n).len() <= 3,
        !decimal(n).contains('.'),
        !decimal(n).contains(':'),
{
    lemma_decimal(n);
    reveal_with_fuel(decimal, 4);
    assert(decimal(n).len() == 1 || decimal(n)[0] != '0');
    if decimal(n).contains('.') {
        let i = choose|i: int| 0 <= i < decimal(n).len() && decimal(n)[i] == '.';
        assert(is_digit(decimal(n)[i]));
    }
    if decimal(n).contains(':') {
        let i = choose|i: int| 0 <= i < decimal(n).len() && decimal(n)[i] == ':';
        assert(is_digit(decimal(n)[i]));
    }
}

/// The parts of a version 4 address behind a text that ends where the first one starts.
proof fn lemma_ipv4_parts(before: Seq<char>, v: nat)
    requires
        v <= 0xFFFF_FFFF,
        !before.contains('.'),
    ensures
        split_by(before + ipv4_text(v), '.') == seq![
            before + decimal(v / 0x100_0000),
            decimal(v / 0x1_0000 % 0x100),
            decimal(v / 0x100 % 0x100),
            decimal(v % 0x100),
        ],
        !ipv4_text(v).contains(':'),
        ipv4_text(v).len() > 4,
{
    reveal_strlit(".");
    let a = decimal(v / 0x100_0000);
    let b = decimal(v / 0x1_0000 % 0x100);
    let c = decimal(v / 0x100 % 0x100);
    let d = decimal(v % 0x100);
    lemma_octet_text(v / 0x100_0000);
    lemma_octet_text(v / 0x1_0000 % 0x100);
    lemma_octet_text(v / 0x100 % 0x100);
    lemma_octet_text(v % 0x100);
    lemma_decimal(v / 0x100_0000);
    lemma_decimal(v / 0x1_0000 % 0x100);
    lemma_decimal(v / 0x100 % 0x100);
    lemma_decimal(v % 0x100);
    let first = before + a;
    assert(!first.contains('.')) by {
        if first.contains('.') {
            let i = choose|i: int| 0 <= i < first.len() && first[i] == '.';
            if i < before.len() {
                assert(before.contains(before[i]));
            } else {
                assert(a.contains(a[i - before.len()]));
            }
        }
    }
    let second = first.push('.') + b;
    let third = second.push('.') + c;
    let whole = third.push('.') + d;
    assert(before + ipv4_text(v) =~= whole);
    lemma_split_piece(Seq::empty(), '.', first);
    lemma_split_piece(first, '.', b);
    lemma_split_piece(second, '.', c);
    lemma_split_piece(third, '.', d);
    assert(split_by(whole, '.') =~= seq![first, b, c, d]);
    let text = ipv4_text(v);
    if text.contains(':') {
        let i = choose|i: int| 0 <= i < text.len() && text[i] == ':';
        let n1 = a.len() as int;
        let n2 = n1 + 1 + b.len();
        let n3 = n2 + 1 + c.len();
        if i < n1 {
            assert(a.contains(a[i]));
        } else if n1 < i < n2 {
            assert(b.contains(b[i - n1 - 1]));
        } else if n2 < i < n3 {
            assert(c.contains(c[i - n2 - 1]));
        } else if n3 < i {
            assert(d.contains(d[i - n3 - 1]));
        }
    }
}

proof fn lemma_octets(v: nat)
    requires
        v <= 0xFFFF_FFFF,
    ensures
        0x100_0000 * (v / 0x100_0000) + 0x1_0000 * (v / 0x1_0000 % 0x100) + 0x100 * (v / 0x100
            % 0x100) + v % 0x100 == v,
        v / 0x100_0000 <= 255,
{
}

/// Four parts that write numbers make an address.
proof fn lemma_four_parts(s: Seq<char>, a: Seq<char>, b: Seq<char>, c: Seq<char>, d: Seq<char>)
    requires
        split_by(s, '.') == seq![a, b, c, d],
        octet(a) is Some,
        octet(b) is Some,
        octet(c) is Some,
        octet(d) is Some,
    ensures
        ipv4_value(s) == Some(
            0x100_0000 * octet(a)->0 + 0x1_0000 * octet(b)->0 + 0x100 * octet(c)->0 + octet(d)->0,
        ),
{
}

proof fn lemma_ipv4_reads_back(v: nat)
    requires
        v <= 0xFFFF_FFFF,
    ensures
        ipv4_value(ipv4_text(v)) == Some(v),
{
    lemma_ipv4_parts(Seq::empty(), v);
    assert(Seq::<char>::empty() + ipv4_text(v) =~= ipv4_text(v));
    assert(Seq::<char>::empty() + decimal(v / 0x100_0000) =~= decimal(v / 0x100_0000));
    lemma_octets(v);
    lemma_octet_text(v / 0x100_0000);
    lemma_octet_text(v / 0x1_0000 % 0x100);
    lemma_octet_text(v / 0x100 % 0x100);
    lemma_octet_text(v % 0x100);
    lemma_four_parts(
        ipv4_text(v),
        decimal(v / 0x100_0000),
        decimal(v / 0x1_0000 % 0x100),
        decimal(v / 0x100 % 0x100),
        decimal(v % 0x100),
    );
}

/// A group as text reads back as the group.
proof fn lemma_group_text(g: nat)
    requires
        g <= 0xFFFF,
    ensures
        hex_group(group_text(g)) == Some(g),
        group_text(g).len() > 0,
        forall|i: int| 0 <= i < group_text(g).len() ==> is_hex_digit(#[trigger] group_text(g)[i]),
{
    lemma_group_value(g);
    reveal_with_fuel(group_text, 5);
}

proof fn lemma_group_value(g: nat)
    ensures
        hex_value(group_text(g)) == g,
        group_text(g).len() > 0,
        forall|i: int| 0 <= i < group_text(g).len() ==> is_hex_digit(#[trigger] group_text(g)[i]),
    decreases g,
{
    if g < 16 {
        let s = seq![hex_char(g)];
        assert(s.drop_last() =~= Seq::empty());
        assert(hex_value(s.drop_last()) == 0);
        assert(hex_digit(hex_char(g)) == g);
    } else {
        lemma_group_value(g / 16);
        let front = group_text(g / 16);
        let s = front.push(hex_char(g % 16));
        assert(s.drop_last() =~= front);
        assert(hex_digit(hex_char(g % 16)) == g % 16);
        assert forall|i: int| 0 <= i < s.len() implies is_hex_digit(#[trigger] s[i]) by {
            if i < front.len() {
                assert(s[i] == front[i]);
            }
        }
    }
}

/// Text of hexadecimal digits with single colons between them.
spec fn is_run_text(s: Seq<char>) -> bool {
    &&& s.len() > 0
    &&& s[0] != ':'
    &&& s.last() != ':'
    &&& forall|i: int| 0 <= i < s.len() ==> is_hex_digit(#[trigger] s[i]) || s[i] == ':'
    &&& forall|i: int| 0 <= i < s.len() - 1 ==> !(#[trigger] s[i] == ':' && s[i + 1] == ':')
}

/// The texts of the groups.
spec fn group_texts(groups: Seq<nat>, from: int, to: int) -> Seq<Seq<char>> {
    Seq::new((to - from) as nat, |i: int| group_text(groups[from + i]))
}

proof fn lemma_run(groups: Seq<nat>, from: int, to: int)
    requires
        short_groups(groups),
        0 <= from < to <= groups.len(),
    ensures
        is_run_text(group_run(groups, from, to)),
        split_by(group_run(groups, from, to), ':') == group_texts(groups, from, to),
    decreases to - from,
{
    reveal_strlit(":");
    let last = group_text(groups[to - 1]);
    assert(groups[to - 1] <= 0xFFFF);
    lemma_group_text(groups[to - 1]);
    assert(!last.contains(':')) by {
        if last.contains(':') {
            let i = choose|i: int| 0 <= i < last.len() && last[i] == ':';
            assert(is_hex_digit(last[i]));
        }
    }
    assert(is_hex_digit(last[0]) && is_hex_digit(last[last.len() - 1]));
    if to == from + 1 {
        lemma_split_piece(Seq::empty(), ':', last);
        assert(group_texts(groups, from, to) =~= seq![last]);
        assert forall|i: int| 0 <= i < last.len() - 1 implies !(#[trigger] last[i] == ':' && last[i
            + 1] == ':') by {
            assert(is_hex_digit(last[i]));
        }
    } else {
        let front = group_run(groups, from, to - 1);
        lemma_run(groups, from, to - 1);
        let whole = group_run(groups, from, to);
        assert(whole =~= front.push(':') + last);
        lemma_split_piece(front, ':', last);
        assert(group_texts(groups, from, to) =~= group_texts(groups, from, to - 1).push(last));
        assert forall|i: int| 0 <= i < whole.len() implies is_hex_digit(#[trigger] whole[i])
            || whole[i] == ':' by {
            if i < front.len() {
                assert(whole[i] == front[i]);
            } else if i > front.len() {
                assert(whole[i] == last[i - front.len() - 1]);
            }
        }
        assert forall|i: int| 0 <= i < whole.len() - 1 implies !(#[trigger] whole[i] == ':'
            && whole[i + 1] == ':') by {
            if i + 1 < front.len() {
                assert(whole[i] == front[i] && whole[i + 1] == front[i + 1]);
            } else if i + 1 == front.len() {
                assert(whole[i] == front.last());
            } else if i == front.len() {
                assert(whole[i + 1] == last[0]);
            } else {
                assert(whole[i] == last[i - front.len() - 1]);
            }
        }
        assert(whole.last() == last.last());
        assert(whole[0] == front[0]);
    }
}

proof fn lemma_groups_read(groups: Seq<nat>, from: int, to: int, embedded: bool)
    requires
        short_groups(groups),
        0 <= from <= to <= groups.len(),
    ensures
        groups_of(group_texts(groups, from, to), embedded) == Some(groups.subrange(from, to)),
    decreases to - from,
{
    let pieces = group_texts(groups, from, to);
    if from == to {
        assert(groups.subrange(from, to) =~= Seq::empty());
    } else {
        assert(groups[to - 1] <= 0xFFFF);
        lemma_group_text(groups[to - 1]);
        lemma_groups_read(groups, from, to - 1, false);
        assert(pieces.drop_last() =~= group_texts(groups, from, to - 1));
        assert(pieces.last() == group_text(groups[to - 1]));
        assert(groups.subrange(from, to) =~= groups.subrange(from, to - 1).push(groups[to - 1]));
    }
}

/// The groups of a run as text are the groups.
proof fn lemma_run_reads_back(groups: Seq<nat>, from: int, to: int, embedded: bool)
    requires
        short_groups(groups),
        0 <= from <= to <= groups.len(),
    ensures
        text_groups(group_run(groups, from, to), embedded) == Some(groups.subrange(from, to)),
{
    if from == to {
        assert(groups.subrange(from, to) =~= Seq::empty());
    } else {
        lemma_run(groups, from, to);
        lemma_groups_read(groups, from, to, embedded);
    }
}

/// Two colons in a row stand at `k` and nowhere before.
proof fn lemma_double_at(s: Seq<char>, k: int, from: int)
    requires
        0 <= from <= k,
        k + 1 < s.len(),
        s[k] == ':' && s[k + 1] == ':',
        forall|i: int| 0 <= i < k ==> !(#[trigger] s[i] == ':' && s[i + 1] == ':'),
    ensures
        double_colon(s, from) == k,
    decreases k - from,
{
    if from < k {
        assert(!(s[from] == ':' && s[from + 1] == ':'));
        lemma_double_at(s, k, from + 1);
    }
}

proof fn lemma_no_double(s: Seq<char>, from: int)
    requires
        0 <= from,
        forall|i: int| 0 <= i < s.len() - 1 ==> !(#[trigger] s[i] == ':' && s[i + 1] == ':'),
    ensures
        double_colon(s, from) == s.len(),
    decreases s.len() - from,
{
    if from + 1 < s.len() {
        assert(!(s[from] == ':' && s[from + 1] == ':'));
        lemma_no_double(s, from + 1);
    }
}

proof fn lemma_zero_run(groups: Seq<nat>, i: int)
    requires
        0 <= i <= groups.len(),
    ensures
        i + zeros_from(groups, i) <= groups.len(),
        forall|k: int| i <= k < i + zeros_from(groups, i) ==> groups[k] == 0,
    decreases groups.len() - i,
{
    if i < groups.len() && groups[i] == 0 {
        lemma_zero_run(groups, i + 1);
    }
}

/// Text of hexadecimal digits and colons alone is no version 4 address.
proof fn lemma_no_dot(s: Seq<char>)
    requires
        forall|i: int| 0 <= i < s.len() ==> is_hex_digit(#[trigger] s[i]) || s[i] == ':',
    ensures
        ipv4_value(s) is None,
{
    assert(!s.contains('.')) by {
        if s.contains('.') {
            let i = choose|i: int| 0 <= i < s.len() && s[i] == '.';
            assert(is_hex_digit(s[i]) || s[i] == ':');
        }
    }
    lemma_split_piece(Seq::empty(), '.', s);
}

/// The text with the longest run of zeros left out reads back.
proof fn lemma_shortened_reads_back(groups: Seq<nat>, start: int, run: int)
    requires
        groups.len() == 8,
        short_groups(groups),
        0 <= start,
        1 <= run,
        start + run <= 8,
        forall|k: int| start <= k < start + run ==> groups[k] == 0,
    ensures
        ({
            let text = group_run(groups, 0, start) + "::"@ + group_run(groups, start + run, 8);
            ipv6_groups(text) == Some(groups) && ipv4_value(text) is None
        }),
{
    reveal_strlit("::");
    let head = group_run(groups, 0, start);
    let tail = group_run(groups, start + run, 8);
    let text = head + "::"@ + tail;
    let n = head.len() as int;
    if start > 0 {
        lemma_run(groups, 0, start);
    }
    if start + run < 8 {
        lemma_run(groups, start + run, 8);
    }
    lemma_run_reads_back(groups, 0, start, false);
    lemma_run_reads_back(groups, start + run, 8, true);
    assert forall|i: int| 0 <= i < n implies !(#[trigger] text[i] == ':' && text[i + 1]
        == ':') by {
        assert(text[i] == head[i]);
        if i + 1 < n {
            assert(text[i + 1] == head[i + 1]);
        } else {
            assert(head[i] == head.last());
        }
    }
    lemma_double_at(text, n, 0);
    assert(text.take(n) =~= head);
    assert(text.skip(n + 2) =~= tail);
    assert(groups.subrange(0, start) + Seq::new(run as nat, |i: int| 0nat) + groups.subrange(
        start + run,
        8,
    ) =~= groups);
    assert forall|i: int| 0 <= i < text.len() implies is_hex_digit(#[trigger] text[i]) || text[i]
        == ':' by {
        if i < n {
            assert(text[i] == head[i]);
        } else if i >= n + 2 {
            assert(text[i] == tail[i - n - 2]);
        }
    }
    lemma_no_dot(text);
}

/// The text with an embedded version 4 address reads back.
#[verifier::spinoff_prover]
#[verifier::rlimit(60)]
proof fn lemma_embedded_reads_back(groups: Seq<nat>)
    requires
        groups.len() == 8,
        short_groups(groups),
        forall|k: int| 0 <= k < 5 ==> groups[k] == 0,
        groups[5] == 0xFFFF,
    ensures
        ({
            let text = "::ffff:"@ + ipv4_text(0x1_0000 * groups[6] + groups[7]);
            ipv6_groups(text) == Some(groups) && ipv4_value(text) is None
        }),
{
    reveal_strlit("::ffff:");
    let v = 0x1_0000 * groups[6] + groups[7];
    assert(groups[6] <= 0xFFFF && groups[7] <= 0xFFFF);
    let tail = ipv4_text(v);
    let text = "::ffff:"@ + tail;
    let word = seq!['f', 'f', 'f', 'f'];
    lemma_ipv4_parts(Seq::empty(), v);
    lemma_ipv4_reads_back(v);
    assert(text[0] == ':' && text[1] == ':');
    lemma_double_at(text, 0, 0);
    assert(text.take(0) =~= Seq::empty());
    assert(text.skip(2) =~= word.push(':') + tail);
    assert(!word.contains(':')) by {
        if word.contains(':') {
            let i = choose|i: int| 0 <= i < word.len() && word[i] == ':';
            assert(word[i] == 'f');
        }
    }
    lemma_split_piece(word, ':', tail);
    lemma_split_piece(Seq::empty(), ':', word);
    let pieces = split_by(text.skip(2), ':');
    assert(pieces =~= seq![word, tail]);
    assert(hex_value(word) == 0xFFFF) by {
        reveal_with_fuel(hex_value, 5);
        assert(word.drop_last() =~= seq!['f', 'f', 'f']);
        assert(word.drop_last().drop_last() =~= seq!['f', 'f']);
        assert(word.drop_last().drop_last().drop_last() =~= seq!['f']);
        assert(word.drop_last().drop_last().drop_last().drop_last() =~= Seq::empty());
    }
    assert(hex_group(word) == Some(0xFFFFnat));
    assert(pieces.drop_last() =~= seq![word]);
    assert(seq![word].drop_last() =~= Seq::empty());
    assert(seq![word].last() == word);
    assert(groups_of(Seq::<Seq<char>>::empty(), false) == Some(Seq::<nat>::empty()));
    assert(groups_of(seq![word], false) == Some(Seq::<nat>::empty().push(0xFFFFnat)));
    assert(pieces.last() == tail);
    let read = Seq::<nat>::empty().push(0xFFFFnat).push(v / 0x1_0000).push(v % 0x1_0000);
    assert(groups_of(pieces, true) == Some(read));
    assert(Seq::<nat>::empty() + Seq::new(5, |i: int| 0nat) + read =~= groups);
    let first = "::ffff:"@ + decimal(v / 0x100_0000);
    assert(!"::ffff:"@.contains('.')) by {
        if "::ffff:"@.contains('.') {
            let i = choose|i: int| 0 <= i < 7 && "::ffff:"@[i] == '.';
            assert("::ffff:"@[i] == ':' || "::ffff:"@[i] == 'f');
        }
    }
    lemma_ipv4_parts("::ffff:"@, v);
    assert(split_by(text, '.')[0] == first);
    assert(first[0] == ':');
    assert(!all_digits(first)) by {
        assert(!is_digit(first[0]));
    }
}

/// The groups of a number make that number.
proof fn lemma_groups_of_value(v: nat, i: nat)
    requires
        v < 0x1_0000_0000_0000_0000_0000_0000_0000_0000int,
        i <= 8,
    ensures
        groups_value(Seq::new(8, |k: int| group_at(v, k)).take(i as int)) == v / pow2(
            (128 - 16 * i) as nat,
        ),
    decreases i,
{
    let groups = Seq::new(8, |k: int| group_at(v, k));
    lemma2_to64();
    if i == 0 {
        lemma_pow2_adds(64, 64);
        vstd::arithmetic::div_mod::lemma_basic_div(v as int, pow2(128) as int);
    } else {
        let j = (i - 1) as nat;
        lemma_groups_of_value(v, j);
        let next = groups.take(i as int);
        assert(next.drop_last() =~= groups.take(j as int));
        assert(next.last() == group_at(v, j as int));
        let low = pow2((112 - 16 * j) as nat);
        lemma_pow2_pos((112 - 16 * j) as nat);
        lemma_pow2_adds((112 - 16 * j) as nat, 16);
        assert((112 - 16 * j) as nat + 16 == (128 - 16 * j) as nat);
        assert(pow2((128 - 16 * j) as nat) == low * 0x1_0000);
        vstd::arithmetic::div_mod::lemma_div_denominator(v as int, low as int, 0x1_0000);
        assert((128 - 16 * i) as nat == (112 - 16 * j) as nat);
    }
}

/// An address as text reads back as the same address.
pub proof fn law_address_reads_back(ip: IpAddress)
    ensures
        parsed_ip(ip_text(ip)) == Some(ip),
{
    match ip {
        IpAddress::V4(v) => {
            lemma_ipv4_reads_back(v as nat);
        },
        IpAddress::V6(v) => {
            let groups = Seq::new(8, |i: int| group_at(v as nat, i));
            assert(short_groups(groups)) by {
                assert forall|i: int| 0 <= i < 8 implies #[trigger] groups[i] <= 0xFFFF by {
                    assert(groups[i] == group_at(v as nat, i));
                }
            }
            lemma_groups_of_value(v as nat, 8);
            lemma2_to64();
            assert(groups.take(8) =~= groups);
            assert(groups_value(groups) == v) by {
                vstd::arithmetic::div_mod::lemma_div_basics(v as int);
            }
            let start = longest_zeros(groups, 8);
            let run = zeros_from(groups, start) as int;
            lemma_longest(groups, 8);
            lemma_zero_run(groups, 0);
            lemma_zero_run(groups, start);
            if zeros_from(groups, 0) == 5 && groups[5] == 0xFFFF {
                lemma_embedded_reads_back(groups);
            } else if run > 1 {
                lemma_shortened_reads_back(groups, start, run);
            } else {
                lemma_run(groups, 0, 8);
                lemma_run_reads_back(groups, 0, 8, true);
                lemma_no_double(group_run(groups, 0, 8), 0);
                lemma_no_dot(group_run(groups, 0, 8));
                assert(groups.subrange(0, 8) =~= groups);
            }
        },
    }
}

/// An address lies in the network that its own first bits make.
pub proof fn law_address_is_in_its_network(ip: IpAddress, prefix: nat)
    requires
        prefix <= ip_bits(ip),
    ensures
        in_network(ip, masked(ip, prefix), prefix),
        masked(masked(ip, prefix), prefix) == masked(ip, prefix),
{
    match ip {
        IpAddress::V4(v) => {
            lemma_high_bits(v as nat, (32 - prefix) as nat);
        },
        IpAddress::V6(v) => {
            lemma_high_bits(v as nat, (128 - prefix) as nat);
        },
    }
}

proof fn lemma_high_bits(v: nat, low: nat)
    ensures
        high_bits(v, low) * pow2(low) <= v,
        high_bits((high_bits(v, low) * pow2(low)) as nat, low) == high_bits(v, low),
{
    lemma_pow2_pos(low);
    let p = pow2(low);
    vstd::arithmetic::div_mod::lemma_fundamental_div_mod(v as int, p as int);
    vstd::arithmetic::mul::lemma_mul_is_commutative(high_bits(v, low) as int, p as int);
    vstd::arithmetic::div_mod::lemma_div_by_multiple(high_bits(v, low) as int, p as int);
}

/// A character of an address as text.
pub open spec fn is_ip_char(c: char) -> bool {
    is_hex_digit(c) || c == ':' || c == '.'
}

/// The text holds characters of addresses alone.
pub open spec fn only_ip_chars(s: Seq<char>) -> bool {
    forall|i: int| 0 <= i < s.len() ==> is_ip_char(#[trigger] s[i])
}

proof fn lemma_ip_chars_joined(a: Seq<char>, b: Seq<char>)
    requires
        only_ip_chars(a),
        only_ip_chars(b),
    ensures
        only_ip_chars(a + b),
{
    assert forall|i: int| 0 <= i < (a + b).len() implies is_ip_char(#[trigger] (a + b)[i]) by {
        if i < a.len() {
            assert((a + b)[i] == a[i]);
        } else {
            assert((a + b)[i] == b[i - a.len()]);
        }
    }
}

proof fn lemma_ipv4_chars(v: nat)
    ensures
        only_ip_chars(ipv4_text(v)),
        ipv4_text(v).len() > 0,
{
    reveal_strlit(".");
    let dot = "."@;
    let a = decimal(v / 0x100_0000);
    let b = decimal(v / 0x1_0000 % 0x100);
    let c = decimal(v / 0x100 % 0x100);
    let d = decimal(v % 0x100);
    lemma_decimal(v / 0x100_0000);
    lemma_decimal(v / 0x1_0000 % 0x100);
    lemma_decimal(v / 0x100 % 0x100);
    lemma_decimal(v % 0x100);
    assert(only_ip_chars(a) && only_ip_chars(b) && only_ip_chars(c) && only_ip_chars(d)) by {
        assert forall|i: int| 0 <= i < a.len() implies is_ip_char(#[trigger] a[i]) by {
            assert(is_digit(a[i]));
        }
        assert forall|i: int| 0 <= i < b.len() implies is_ip_char(#[trigger] b[i]) by {
            assert(is_digit(b[i]));
        }
        assert forall|i: int| 0 <= i < c.len() implies is_ip_char(#[trigger] c[i]) by {
            assert(is_digit(c[i]));
        }
        assert forall|i: int| 0 <= i < d.len() implies is_ip_char(#[trigger] d[i]) by {
            assert(is_digit(d[i]));
        }
    }
    assert(only_ip_chars(dot));
    lemma_ip_chars_joined(a, dot);
    lemma_ip_chars_joined(a + dot, b);
    lemma_ip_chars_joined(a + dot + b, dot);
    lemma_ip_chars_joined(a + dot + b + dot, c);
    lemma_ip_chars_joined(a + dot + b + dot + c, dot);
    lemma_ip_chars_joined(a + dot + b + dot + c + dot, d);
}

proof fn lemma_run_chars(groups: Seq<nat>, from: int, to: int)
    requires
        short_groups(groups),
        0 <= from <= to <= groups.len(),
    ensures
        only_ip_chars(group_run(groups, from, to)),
        from < to ==> group_run(groups, from, to).len() > 0,
{
    if from < to {
        lemma_run(groups, from, to);
        let text = group_run(groups, from, to);
        assert forall|i: int| 0 <= i < text.len() implies is_ip_char(#[trigger] text[i]) by {
            assert(is_hex_digit(text[i]) || text[i] == ':');
        }
    }
}

/// An address as text is not empty and holds characters of addresses alone.
pub proof fn lemma_ip_text_chars(ip: IpAddress)
    ensures
        only_ip_chars(ip_text(ip)),
        ip_text(ip).len() > 0,
{
    match ip {
        IpAddress::V4(v) => {
            lemma_ipv4_chars(v as nat);
        },
        IpAddress::V6(v) => {
            let groups = Seq::new(8, |i: int| group_at(v as nat, i));
            assert(short_groups(groups)) by {
                assert forall|i: int| 0 <= i < 8 implies #[trigger] groups[i] <= 0xFFFF by {
                    assert(groups[i] == group_at(v as nat, i));
                }
            }
            let start = longest_zeros(groups, 8);
            let run = zeros_from(groups, start) as int;
            lemma_longest(groups, 8);
            lemma_zero_run(groups, start);
            reveal_strlit("::");
            reveal_strlit("::ffff:");
            assert(only_ip_chars("::"@));
            assert(only_ip_chars("::ffff:"@));
            if zeros_from(groups, 0) == 5 && groups[5] == 0xFFFF {
                let inner = 0x1_0000 * groups[6] + groups[7];
                lemma_ipv4_chars(inner);
                lemma_ip_chars_joined("::ffff:"@, ipv4_text(inner));
            } else if run > 1 {
                lemma_run_chars(groups, 0, start);
                lemma_run_chars(groups, start + run, 8);
                lemma_ip_chars_joined(group_run(groups, 0, start), "::"@);
                lemma_ip_chars_joined(
                    group_run(groups, 0, start) + "::"@,
                    group_run(groups, start + run, 8),
                );
            } else {
                lemma_run_chars(groups, 0, 8);
            }
        },
    }
}

} // verus!
