//! What it must mean that an address lies in a network.

use crate::net::{in_network, ip_bits, IpAddress};
use vstd::arithmetic::div_mod::{
    lemma_basic_div, lemma_div_basics, lemma_div_denominator, lemma_div_is_ordered,
    lemma_fundamental_div_mod_converse,
};
use vstd::arithmetic::power2::{lemma2_to64, lemma_pow2_adds, lemma_pow2_pos, pow2};
use vstd::prelude::*;

verus! {

spec fn number(ip: IpAddress) -> nat {
    match ip {
        IpAddress::V4(v) => v as nat,
        IpAddress::V6(v) => v as nat,
    }
}

spec fn one_version(a: IpAddress, b: IpAddress) -> bool {
    (a is V4) == (b is V4)
}

proof fn lemma_member(ip: IpAddress, network: IpAddress, prefix: nat)
    requires
        prefix <= ip_bits(network),
    ensures
        in_network(ip, network, prefix) <==> one_version(ip, network) && number(ip) / pow2(
            (ip_bits(network) - prefix) as nat,
        ) == number(network) / pow2((ip_bits(network) - prefix) as nat),
{
}

/// An address in a network lies in each network with a shorter prefix round it.
pub proof fn law_networks_nest(ip: IpAddress, network: IpAddress, long: nat, short: nat)
    requires
        in_network(ip, network, long),
        short <= long,
    ensures
        in_network(ip, network, short),
{
    let bits = ip_bits(network);
    lemma_member(ip, network, long);
    lemma_member(ip, network, short);
    let few = (bits - long) as nat;
    let more = (long - short) as nat;
    lemma_pow2_pos(few);
    lemma_pow2_pos(more);
    lemma_pow2_adds(few, more);
    lemma_div_denominator(number(ip) as int, pow2(few) as int, pow2(more) as int);
    lemma_div_denominator(number(network) as int, pow2(few) as int, pow2(more) as int);
}

/// A prefix of all the bits admits the address itself alone, and none at all admits every
/// address of the version.
pub proof fn law_prefixes_admit(ip: IpAddress, network: IpAddress)
    ensures
        in_network(ip, network, ip_bits(network)) <==> ip == network,
        in_network(ip, network, 0) <==> ip_bits(ip) == ip_bits(network),
{
    let bits = ip_bits(network);
    lemma_member(ip, network, bits);
    lemma_member(ip, network, 0);
    lemma2_to64();
    assert(pow2(0) == 1);
    assert(pow2(32) == 0x1_0000_0000);
    lemma_pow2_adds(64, 64);
    assert(pow2(128) == 0x1_0000_0000_0000_0000_0000_0000_0000_0000);
    lemma_div_basics(number(ip) as int);
    lemma_div_basics(number(network) as int);
    assert(bits - bits == 0);
    if one_version(ip, network) {
        lemma_basic_div(number(ip) as int, pow2(bits) as int);
        lemma_basic_div(number(network) as int, pow2(bits) as int);
    }
}

/// Addresses of two versions share no network, and no prefix is longer than the address.
pub proof fn law_versions_are_apart(ip: IpAddress, network: IpAddress, prefix: nat)
    ensures
        ip_bits(ip) != ip_bits(network) ==> !in_network(ip, network, prefix),
        prefix > ip_bits(network) ==> !in_network(ip, network, prefix),
{
}

/// Two addresses of one network lie in each other's.
pub proof fn law_neighbours_share_their_network(
    a: IpAddress,
    b: IpAddress,
    network: IpAddress,
    prefix: nat,
)
    requires
        in_network(a, network, prefix),
        in_network(b, network, prefix),
    ensures
        in_network(a, b, prefix),
        in_network(b, a, prefix),
{
}

/// A network of version 4 holds as many addresses in a row as its free bits count, and not the
/// next one: from its first address on, exactly the numbers below that count are in it.
pub proof fn law_networks_are_blocks(block: nat, free: nat, further: nat)
    requires
        free <= 32,
        block * pow2(free) + further < 0x1_0000_0000,
    ensures
        in_network(
            IpAddress::V4((block * pow2(free) + further) as u32),
            IpAddress::V4((block * pow2(free)) as u32),
            (32 - free) as nat,
        ) <==> further < pow2(free),
{
    let size = pow2(free);
    lemma_pow2_pos(free);
    let first = block * size;
    assert(0 <= first) by (nonlinear_arith)
        requires
            first == block * size,
    ;
    let ip = IpAddress::V4((first + further) as u32);
    let network = IpAddress::V4(first as u32);
    lemma_member(ip, network, (32 - free) as nat);
    lemma_fundamental_div_mod_converse(
        first as int,
        size as int,
        block as int,
        0,
    );
    if further < size {
        lemma_fundamental_div_mod_converse(
            (first + further) as int,
            size as int,
            block as int,
            further as int,
        );
    } else {
        assert((block + 1) * size == first + size) by (nonlinear_arith)
            requires
                first == block * size,
        ;
        lemma_fundamental_div_mod_converse(
            (first + size) as int,
            size as int,
            (block + 1) as int,
            0,
        );
        lemma_div_is_ordered((first + size) as int, (first + further) as int, size as int);
    }
}

} // verus!
