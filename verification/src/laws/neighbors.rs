//! Which network the engine is announced on, and what a consumer in memory asks for.

use vstd::prelude::*;

use crate::adapters::interfaces::{
    announced, configured, dual_stack, first_v4, is_lan, is_link_local, IfAddress, Interface,
};
use crate::adapters::mock_northbound::{last_mirrored, requests};
use crate::ids::DeviceId;
use crate::model::{CapabilityState, DesiredV, EventV};

verus! {

// ------------------------------------------------------------ where to announce

/// An interface that is named is taken with its first address, and with none there is none.
pub proof fn named_interfaces_are_taken(all: Seq<Interface>, name: Seq<char>, i: int, ip: u32)
    requires
        0 <= i < all.len(),
        all[i].name@ == name,
        all[i].addr == IfAddress::V4(ip),
        forall|j: int|
            0 <= j < i ==> (#[trigger] all[j]).name@ != name || !(all[j].addr is V4),
    ensures
        configured(all, name) is Some,
        configured(all, name)->0.ipv4 == ip,
        all[i].index is Some ==> configured(all, name)->0.index == all[i].index->0,
{
    lemma_first(all, name, i, ip);
}

proof fn lemma_first(all: Seq<Interface>, name: Seq<char>, i: int, ip: u32)
    requires
        0 <= i < all.len(),
        all[i].name@ == name,
        all[i].addr == IfAddress::V4(ip),
        forall|j: int|
            0 <= j < i ==> (#[trigger] all[j]).name@ != name || !(all[j].addr is V4),
    ensures
        first_v4(all, name) is Some,
        (first_v4(all, name)->0).0 == ip,
        all[i].index is Some ==> (first_v4(all, name)->0).1 == all[i].index->0,
    decreases i,
{
    if i > 0 {
        let rest = all.drop_first();
        assert(all[0].name@ != name || !(all[0].addr is V4));
        assert(rest[i - 1] == all[i]);
        assert forall|j: int| 0 <= j < i - 1 implies (#[trigger] rest[j]).name@ != name || !(
        rest[j].addr is V4) by {
            assert(rest[j] == all[j + 1]);
        }
        lemma_first(rest, name, i - 1, ip);
    }
}

/// The link-local addresses are those from `fe80::` up to `febf:ffff...`.
pub proof fn link_local_is_a_range(ip: u128)
    ensures
        is_link_local(ip) <==> 0xfe80_0000_0000_0000_0000_0000_0000_0000 <= ip
            <= 0xfebf_ffff_ffff_ffff_ffff_ffff_ffff_ffff,
{
    assert(ip >> 118 == 0x3fa <==> 0xfe80_0000_0000_0000_0000_0000_0000_0000u128 <= ip && ip
        <= 0xfebf_ffff_ffff_ffff_ffff_ffff_ffff_ffffu128) by (bit_vector);
}

/// A loopback interface is never the LAN.
pub proof fn loopback_is_not_the_lan(ia: Interface)
    requires
        ia.loopback,
    ensures
        !is_lan(ia),
{
}

/// Where a network has both a link-local and an ordinary address, that one is announced on,
/// and by its link-local address.
pub proof fn link_local_addresses_are_preferred(all: Seq<Interface>, i: int, ip: u128)
    requires
        0 <= i < all.len(),
        is_lan(all[i]),
        all[i].addr == IfAddress::V6(ip),
        is_link_local(ip),
        first_v4(all, all[i].name@) is Some,
    ensures
        announced(all, None) is Some,
        is_link_local(announced(all, None)->0.ipv6),
{
    lemma_link_local(all, all, i);
}

proof fn lemma_link_local(all: Seq<Interface>, from: Seq<Interface>, i: int)
    requires
        0 <= i < from.len(),
        is_lan(from[i]),
        from[i].addr is V6,
        is_link_local(from[i].addr->V6_0),
        first_v4(all, from[i].name@) is Some,
    ensures
        dual_stack(all, from, true) is Some,
        is_link_local(dual_stack(all, from, true)->0.ipv6),
    decreases from.len(),
{
    if i > 0 {
        let rest = from.drop_first();
        assert(rest[i - 1] == from[i]);
        lemma_link_local(all, rest, i - 1);
    }
}

/// An interface that is asked for by name is the one, whatever else there is.
pub proof fn asked_for_interfaces_win(all: Seq<Interface>, name: Seq<char>)
    ensures
        announced(all, Some(name)) == configured(all, name),
        (forall|i: int| 0 <= i < all.len() ==> (#[trigger] all[i]).name@ != name) ==> announced(
            all,
            Some(name),
        ) is None,
{
    if forall|i: int| 0 <= i < all.len() ==> (#[trigger] all[i]).name@ != name {
        lemma_no_such(all, name);
    }
}

proof fn lemma_no_such(all: Seq<Interface>, name: Seq<char>)
    requires
        forall|i: int| 0 <= i < all.len() ==> (#[trigger] all[i]).name@ != name,
    ensures
        first_v4(all, name) is None,
    decreases all.len(),
{
    if all.len() > 0 {
        let rest = all.drop_first();
        assert(all[0].name@ != name);
        assert forall|i: int| 0 <= i < rest.len() implies (#[trigger] rest[i]).name@ != name by {
            assert(rest[i] == all[i + 1]);
        }
        lemma_no_such(rest, name);
    }
}

// ------------------------------------------------------------ a consumer in memory

/// What a consumer writes is asked for just as it was written, first come first.
pub proof fn writes_are_asked_for(writes: Seq<(DeviceId, CapabilityState)>, i: int)
    requires
        0 <= i < writes.len(),
    ensures
        requests(writes).len() == writes.len(),
        requests(writes)[i] == (EventV::RequestedChange {
            device: writes[i].0,
            desired: DesiredV::State(writes[i].1),
        }),
{
}

/// What a consumer was last shown of a device is what counts.
pub proof fn the_last_mirrored_state_counts(
    mirrored: Seq<(DeviceId, CapabilityState)>,
    device: DeviceId,
    other: DeviceId,
    state: CapabilityState,
)
    ensures
        last_mirrored(mirrored.push((device, state)), device) == Some(state),
        other != device ==> last_mirrored(mirrored.push((device, state)), other) == last_mirrored(
            mirrored,
            other,
        ),
        last_mirrored(Seq::empty(), device) is None,
{
    assert(mirrored.push((device, state)).drop_last() =~= mirrored);
}

} // verus!
