//! Which network interface a node announces itself on.

use vstd::prelude::*;

use crate::text::{has_prefix, same, starts_with};

verus! {

/// An address of an interface, as a number.
#[derive(Clone, Copy, Debug, PartialEq, Eq, Structural)]
pub enum IfAddress {
    V4(u32),
    V6(u128),
}

/// One address of one network interface.
#[derive(Debug)]
pub struct Interface {
    pub name: String,
    pub loopback: bool,
    pub addr: IfAddress,
    pub index: Option<u32>,
}

/// What a node announces: its IPv4 and IPv6 address (0 for none) and the index of
/// the interface.
#[derive(Clone, Copy, Debug, PartialEq, Eq, Structural)]
pub struct Announced {
    pub ipv4: u32,
    pub ipv6: u128,
    pub index: u32,
}

/// Point-to-point tunnels: they reject multicast group joins, and are not the LAN a
/// controller is on.
pub open spec fn is_tunnel_name(name: Seq<char>) -> bool {
    has_prefix(name, "utun"@) || has_prefix(name, "tun"@) || has_prefix(name, "tap"@) || has_prefix(
        name,
        "wg"@,
    ) || has_prefix(name, "tailscale"@) || has_prefix(name, "ppp"@) || has_prefix(name, "ipsec"@)
}

pub fn is_tunnel(name: &str) -> (r: bool)
    ensures
        r == is_tunnel_name(name@),
{
    starts_with(name, "utun") || starts_with(name, "tun") || starts_with(name, "tap")
        || starts_with(name, "wg") || starts_with(name, "tailscale") || starts_with(name, "ppp")
        || starts_with(name, "ipsec")
}

/// A unicast link-local IPv6 address: `fe80::/10`.
pub open spec fn is_link_local(ip: u128) -> bool {
    ip >> 118 == 0x3fa
}

pub open spec fn index_or_zero(index: Option<u32>) -> u32 {
    match index {
        Some(i) => i,
        None => 0,
    }
}

/// The first IPv4 address of an interface, with its index.
pub open spec fn first_v4(all: Seq<Interface>, name: Seq<char>) -> Option<(u32, u32)>
    decreases all.len(),
{
    if all.len() == 0 {
        None
    } else {
        match all[0].addr {
            IfAddress::V4(ip) => if all[0].name@ == name {
                Some((ip, index_or_zero(all[0].index)))
            } else {
                first_v4(all.drop_first(), name)
            },
            IfAddress::V6(_) => first_v4(all.drop_first(), name),
        }
    }
}

/// The first IPv6 address of an interface.
pub open spec fn first_v6(all: Seq<Interface>, name: Seq<char>) -> Option<u128>
    decreases all.len(),
{
    if all.len() == 0 {
        None
    } else {
        match all[0].addr {
            IfAddress::V6(ip) => if all[0].name@ == name {
                Some(ip)
            } else {
                first_v6(all.drop_first(), name)
            },
            IfAddress::V4(_) => first_v6(all.drop_first(), name),
        }
    }
}

fn find_v4(all: &Vec<Interface>, name: &str) -> (r: Option<(u32, u32)>)
    ensures
        r == first_v4(all@, name@),
{
    let mut i: usize = 0;
    assert(all@.skip(0) =~= all@);
    while i < all.len()
        invariant
            i <= all@.len(),
            first_v4(all@, name@) == first_v4(all@.skip(i as int), name@),
        decreases all@.len() - i,
    {
        if let IfAddress::V4(ip) = all[i].addr {
            if same(all[i].name.as_str(), name) {
                let index: u32 = match all[i].index {
                    Some(x) => x,
                    None => 0,
                };
                return Some((ip, index));
            }
        }
        assert(all@.skip(i as int).drop_first() =~= all@.skip(i + 1));
        i += 1;
    }
    None
}

fn find_v6(all: &Vec<Interface>, name: &str) -> (r: Option<u128>)
    ensures
        r == first_v6(all@, name@),
{
    let mut i: usize = 0;
    assert(all@.skip(0) =~= all@);
    while i < all.len()
        invariant
            i <= all@.len(),
            first_v6(all@, name@) == first_v6(all@.skip(i as int), name@),
        decreases all@.len() - i,
    {
        if let IfAddress::V6(ip) = all[i].addr {
            if same(all[i].name.as_str(), name) {
                return Some(ip);
            }
        }
        assert(all@.skip(i as int).drop_first() =~= all@.skip(i + 1));
        i += 1;
    }
    None
}

/// The interface that the configuration names: it must have an IPv4 address.
pub open spec fn configured(all: Seq<Interface>, name: Seq<char>) -> Option<Announced> {
    match first_v4(all, name) {
        Some((ipv4, index)) => Some(
            Announced {
                ipv4,
                ipv6: match first_v6(all, name) {
                    Some(ip) => ip,
                    None => 0,
                },
                index,
            },
        ),
        None => None,
    }
}

/// Whether an interface can be the LAN.
pub open spec fn is_lan(ia: Interface) -> bool {
    !ia.loopback && !is_tunnel_name(ia.name@)
}

/// The first LAN interface from here on with an IPv6 address (a link-local one, if
/// asked) and an IPv4 address anywhere.
pub open spec fn dual_stack(all: Seq<Interface>, from: Seq<Interface>, link_local: bool) -> Option<
    Announced,
>
    decreases from.len(),
{
    if from.len() == 0 {
        None
    } else {
        let here = match from[0].addr {
            IfAddress::V6(ip) => if is_lan(from[0]) && (!link_local || is_link_local(ip)) {
                match first_v4(all, from[0].name@) {
                    Some((ipv4, _)) => Some(
                        Announced { ipv4, ipv6: ip, index: index_or_zero(from[0].index) },
                    ),
                    None => None,
                }
            } else {
                None
            },
            IfAddress::V4(_) => None,
        };
        match here {
            Some(a) => Some(a),
            None => dual_stack(all, from.drop_first(), link_local),
        }
    }
}

fn find_dual_stack(all: &Vec<Interface>, link_local: bool) -> (r: Option<Announced>)
    ensures
        r == dual_stack(all@, all@, link_local),
{
    let mut i: usize = 0;
    assert(all@.skip(0) =~= all@);
    while i < all.len()
        invariant
            i <= all@.len(),
            dual_stack(all@, all@, link_local) == dual_stack(
                all@,
                all@.skip(i as int),
                link_local,
            ),
        decreases all@.len() - i,
    {
        let ia = &all[i];
        if let IfAddress::V6(ip) = ia.addr {
            if !ia.loopback && !is_tunnel(ia.name.as_str()) && (!link_local || ip >> 118 == 0x3fa) {
                if let Some((ipv4, _)) = find_v4(all, ia.name.as_str()) {
                    let index: u32 = match ia.index {
                        Some(x) => x,
                        None => 0,
                    };
                    return Some(Announced { ipv4, ipv6: ip, index });
                }
            }
        }
        assert(all@.skip(i as int).drop_first() =~= all@.skip(i + 1));
        i += 1;
    }
    None
}

/// An ethernet-like name.
pub open spec fn is_wired_name(name: Seq<char>) -> bool {
    has_prefix(name, "eth"@) || has_prefix(name, "eno"@) || has_prefix(name, "en"@)
}

/// The first LAN interface of an ethernet-like name, with the one address it has.
pub open spec fn wired(from: Seq<Interface>) -> Option<Announced>
    decreases from.len(),
{
    if from.len() == 0 {
        None
    } else if is_lan(from[0]) && is_wired_name(from[0].name@) {
        let index = index_or_zero(from[0].index);
        Some(
            match from[0].addr {
                IfAddress::V4(ip) => Announced { ipv4: ip, ipv6: 0, index },
                IfAddress::V6(ip) => Announced { ipv4: 0, ipv6: ip, index },
            },
        )
    } else {
        wired(from.drop_first())
    }
}

fn find_wired(all: &Vec<Interface>) -> (r: Option<Announced>)
    ensures
        r == wired(all@),
{
    let mut i: usize = 0;
    assert(all@.skip(0) =~= all@);
    while i < all.len()
        invariant
            i <= all@.len(),
            wired(all@) == wired(all@.skip(i as int)),
        decreases all@.len() - i,
    {
        let ia = &all[i];
        let name = ia.name.as_str();
        if !ia.loopback && !is_tunnel(name) && (starts_with(name, "eth") || starts_with(name, "eno")
            || starts_with(name, "en")) {
            let index: u32 = match ia.index {
                Some(x) => x,
                None => 0,
            };
            return Some(
                match ia.addr {
                    IfAddress::V4(ip) => Announced { ipv4: ip, ipv6: 0, index },
                    IfAddress::V6(ip) => Announced { ipv4: 0, ipv6: ip, index },
                },
            );
        }
        assert(all@.skip(i as int).drop_first() =~= all@.skip(i + 1));
        i += 1;
    }
    None
}

/// The interface to announce on. A configured one wins; else a LAN interface with a
/// link-local IPv6 and an IPv4 address, else one with any IPv6 address, else an
/// ethernet-like one.
pub open spec fn announced(all: Seq<Interface>, want: Option<Seq<char>>) -> Option<Announced> {
    match want {
        Some(name) => configured(all, name),
        None => match dual_stack(all, all, true) {
            Some(a) => Some(a),
            None => match dual_stack(all, all, false) {
                Some(a) => Some(a),
                None => wired(all),
            },
        },
    }
}

/// Pick a LAN interface for mDNS. `override_name` forces that interface.
pub fn select_interface(all: &Vec<Interface>, override_name: Option<&str>) -> (r: Option<Announced>)
    ensures
        r == announced(
            all@,
            match override_name {
                Some(n) => Some(n@),
                None => None,
            },
        ),
{
    if let Some(want) = override_name {
        return match find_v4(all, want) {
            Some((ipv4, index)) => {
                let ipv6: u128 = match find_v6(all, want) {
                    Some(ip) => ip,
                    None => 0,
                };
                Some(Announced { ipv4, ipv6, index })
            },
            None => None,
        };
    }
    match find_dual_stack(all, true) {
        Some(a) => Some(a),
        None => match find_dual_stack(all, false) {
            Some(a) => Some(a),
            None => find_wired(all),
        },
    }
}

/// A tunnel or a loopback interface is never picked on its own: what is picked without
/// being configured is a LAN interface, announced under its own index.
pub proof fn tunnels_are_never_picked(all: Seq<Interface>)
    requires
        announced(all, None) is Some,
    ensures
        picked_from(all, announced(all, None)->0),
{
    assert(all.skip(0) =~= all);
    if dual_stack(all, all, true) is Some {
        lemma_dual_stack_is_lan(all, all, true, 0);
    } else if dual_stack(all, all, false) is Some {
        lemma_dual_stack_is_lan(all, all, false, 0);
    } else {
        lemma_wired_is_lan(all, all, 0);
    }
}

/// What is announced is one of the LAN interfaces.
pub open spec fn picked_from(all: Seq<Interface>, a: Announced) -> bool {
    exists|i: int|
        0 <= i < all.len() && is_lan(#[trigger] all[i]) && a.index == index_or_zero(all[i].index)
            && (all[i].addr == IfAddress::V6(a.ipv6) || all[i].addr == IfAddress::V4(a.ipv4))
}

proof fn lemma_dual_stack_is_lan(
    all: Seq<Interface>,
    from: Seq<Interface>,
    link_local: bool,
    k: int,
)
    requires
        0 <= k <= all.len(),
        from == all.skip(k),
        dual_stack(all, from, link_local) is Some,
    ensures
        picked_from(all, dual_stack(all, from, link_local)->0),
    decreases from.len(),
{
    assert(from[0] == all[k]);
    assert(from.drop_first() =~= all.skip(k + 1));
    if dual_stack(all, from.drop_first(), link_local) == dual_stack(all, from, link_local) {
        lemma_dual_stack_is_lan(all, from.drop_first(), link_local, k + 1);
    } else {
        assert(is_lan(all[k]));
    }
}

proof fn lemma_wired_is_lan(all: Seq<Interface>, from: Seq<Interface>, k: int)
    requires
        0 <= k <= all.len(),
        from == all.skip(k),
        wired(from) is Some,
    ensures
        picked_from(all, wired(from)->0),
    decreases from.len(),
{
    assert(from[0] == all[k]);
    if is_lan(from[0]) && is_wired_name(from[0].name@) {
        assert(is_lan(all[k]));
    } else {
        assert(from.drop_first() =~= all.skip(k + 1));
        lemma_wired_is_lan(all, from.drop_first(), k + 1);
    }
}

} // verus!
