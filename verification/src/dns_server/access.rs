//! Which senders get which service.
use vstd::prelude::*;

use crate::addr::{same_prefix, IpAddress, IpCidr};

verus! {

/// An address in its own family: an IPv4 address that is mapped into IPv6, as a listener
/// for both families sees it, is an IPv4 address.
pub open spec fn canonical_address(ip: IpAddress) -> IpAddress {
    match ip {
        IpAddress::V6(x) => if x / 0x1_0000_0000 == 0xffff {
            IpAddress::V4((x % 0x1_0000_0000) as u32)
        } else {
            ip
        },
        IpAddress::V4(_) => ip,
    }
}

/// An address in its own family.
pub fn canonical_ip(ip: IpAddress) -> (r: IpAddress)
    ensures
        r == canonical_address(ip),
{
    match ip {
        IpAddress::V6(x) => if x / 0x1_0000_0000 == 0xffff {
            IpAddress::V4((x % 0x1_0000_0000) as u32)
        } else {
            ip
        },
        IpAddress::V4(_) => ip,
    }
}

/// Whether an address lies in one of the ranges.
pub open spec fn in_ranges(ranges: Seq<IpCidr>, ip: IpAddress) -> bool {
    exists|i: int|
        0 <= i < ranges.len() && same_prefix(
            (#[trigger] ranges[i]).base,
            ip,
            ranges[i].prefix,
        )
}

/// Whether an address lies in one of the ranges.
pub fn any_contains(ranges: &[IpCidr], ip: IpAddress) -> (r: bool)
    ensures
        r == in_ranges(ranges@, ip),
{
    let mut i: usize = 0;
    while i < ranges.len()
        invariant
            i <= ranges.len(),
            forall|k: int|
                0 <= k < i ==> !same_prefix((#[trigger] ranges@[k]).base, ip, ranges@[k].prefix),
        decreases ranges.len() - i,
    {
        if ranges[i].contains(ip) {
            return true;
        }
        i = i + 1;
    }
    false
}

/// The overlay network: 10.64.0.0/10.
pub open spec fn overlay_ranges() -> Seq<IpCidr> {
    seq![IpCidr { base: IpAddress::V4(0x0a40_0000), prefix: 10 }]
}

/// The networks that a box can be attached to: loopback, the private ranges of RFC 1918,
/// link-local addresses, carrier-grade NAT, and their counterparts in IPv6.
pub open spec fn attached_ranges() -> Seq<IpCidr> {
    seq![
        IpCidr { base: IpAddress::V4(0x7f00_0000), prefix: 8 },
        IpCidr { base: IpAddress::V4(0x0a00_0000), prefix: 8 },
        IpCidr { base: IpAddress::V4(0xac10_0000), prefix: 12 },
        IpCidr { base: IpAddress::V4(0xc0a8_0000), prefix: 16 },
        IpCidr { base: IpAddress::V4(0xa9fe_0000), prefix: 16 },
        IpCidr { base: IpAddress::V4(0x6440_0000), prefix: 10 },
        IpCidr { base: IpAddress::V6(1), prefix: 128 },
        IpCidr {
            base: IpAddress::V6(0xfe80_0000_0000_0000_0000_0000_0000_0000),
            prefix: 10,
        },
        IpCidr { base: IpAddress::V6(0xfc00_0000_0000_0000_0000_0000_0000_0000), prefix: 7 },
    ]
}

/// The default range of overlay peers.
pub fn default_overlay_cidrs() -> (r: Vec<IpCidr>)
    ensures
        r@ == overlay_ranges(),
{
    let r = vec![IpCidr { base: IpAddress::V4(0x0a40_0000), prefix: 10 }];
    assert(r@ =~= overlay_ranges());
    r
}

/// The default ranges of senders that may make the server ask others.
pub fn default_recursion_cidrs() -> (r: Vec<IpCidr>)
    ensures
        r@ == attached_ranges(),
{
    let r = vec![
        IpCidr { base: IpAddress::V4(0x7f00_0000), prefix: 8 },
        IpCidr { base: IpAddress::V4(0x0a00_0000), prefix: 8 },
        IpCidr { base: IpAddress::V4(0xac10_0000), prefix: 12 },
        IpCidr { base: IpAddress::V4(0xc0a8_0000), prefix: 16 },
        IpCidr { base: IpAddress::V4(0xa9fe_0000), prefix: 16 },
        IpCidr { base: IpAddress::V4(0x6440_0000), prefix: 10 },
        IpCidr { base: IpAddress::V6(1), prefix: 128 },
        IpCidr {
            base: IpAddress::V6(0xfe80_0000_0000_0000_0000_0000_0000_0000),
            prefix: 10,
        },
        IpCidr { base: IpAddress::V6(0xfc00_0000_0000_0000_0000_0000_0000_0000), prefix: 7 },
    ];
    assert(r@ =~= attached_ranges());
    r
}

/// An IPv4 sender is classified alike however the listener sees its address.
pub proof fn law_mapped_senders_are_ipv4_senders(x: u32)
    ensures
        canonical_address(IpAddress::V6((0xffff_0000_0000 + x) as u128)) == IpAddress::V4(x),
        canonical_address(IpAddress::V4(x)) == IpAddress::V4(x),
{
}

/// An address in its own family stays as it is.
pub proof fn law_canonical_is_idempotent(ip: IpAddress)
    ensures
        canonical_address(canonical_address(ip)) == canonical_address(ip),
{
}

/// Every peer of the overlay network may make the server ask others, with the default
/// ranges.
pub proof fn law_overlay_peers_may_recurse(ip: IpAddress)
    requires
        in_ranges(overlay_ranges(), ip),
    ensures
        in_ranges(attached_ranges(), ip),
{
    let i = choose|i: int|
        0 <= i < overlay_ranges().len() && same_prefix(
            (#[trigger] overlay_ranges()[i]).base,
            ip,
            overlay_ranges()[i].prefix,
        );
    vstd::arithmetic::power2::lemma2_to64();
    assert(i == 0);
    match ip {
        IpAddress::V4(x) => {
            assert(vstd::arithmetic::power2::pow2(22) == 0x40_0000);
            assert(vstd::arithmetic::power2::pow2(24) == 0x100_0000);
            assert(x as int / 0x40_0000 == 0x0a40_0000int / 0x40_0000);
            assert(x as int / 0x100_0000 == 0x0a00_0000int / 0x100_0000);
            assert(same_prefix(attached_ranges()[1].base, ip, attached_ranges()[1].prefix));
        },
        IpAddress::V6(_) => {},
    }
}

} // verus!
