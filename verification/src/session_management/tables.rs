//! The concurrent tables of the `dashmap` crate that the registry keeps.
//!
//! `DashMap` and `DashSet` are opaque to the verifier. What each table
//! holds is named by a function below, and every function that touches a
//! table is a thin call into `dashmap` whose contract is taken on trust from
//! that crate's source. A table is changed through `&mut` only, so that what
//! it held before and after a call can be told apart.

use crate::address::SocketAddress;
use crate::session_management::peer_manager::Peer;
use dashmap::DashMap;
use dashmap::DashSet;
use vstd::prelude::*;

verus! {

#[verifier::external_type_specification]
#[verifier::external_body]
#[verifier::reject_recursive_types(K)]
#[verifier::reject_recursive_types(V)]
#[verifier::reject_recursive_types(S)]
pub struct ExDashMap<K, V, S>(DashMap<K, V, S>);

#[verifier::external_type_specification]
#[verifier::external_body]
#[verifier::reject_recursive_types(K)]
#[verifier::reject_recursive_types(S)]
pub struct ExDashSet<K, S>(DashSet<K, S>);

/// The peers that a table holds, each under its source identifier.
pub uninterp spec fn peer_table(table: DashMap<u32, Peer>) -> Map<u32, Peer>;

/// The addresses that a table holds, each under a source identifier.
pub uninterp spec fn address_table(table: DashMap<u32, SocketAddress>) -> Map<u32, SocketAddress>;

/// The addresses that a set holds.
pub uninterp spec fn address_set(set: DashSet<SocketAddress>) -> Set<SocketAddress>;

/// `DashMap::new`: a table that holds nothing.
#[verifier::external_body]
pub(crate) fn new_peer_table() -> (peers: DashMap<u32, Peer>)
    ensures
        peer_table(peers) == (Map::<u32, Peer>::empty()),
{
    DashMap::new()
}

/// `DashMap::contains_key`: whether the table holds a peer under `ssrc`.
#[verifier::external_body]
pub(crate) fn peer_table_contains(table: &DashMap<u32, Peer>, ssrc: u32) -> (found: bool)
    ensures
        found == peer_table(*table).dom().contains(ssrc),
{
    table.contains_key(&ssrc)
}

/// `DashMap::insert`: the table holds `peer` under `ssrc` afterwards, in
/// place of what it held there, and everything else as before.
#[verifier::external_body]
pub(crate) fn peer_table_insert(table: &mut DashMap<u32, Peer>, ssrc: u32, peer: Peer)
    ensures
        peer_table(*final(table)) == peer_table(*old(table)).insert(ssrc, peer),
{
    table.insert(ssrc, peer);
}

/// `DashMap::remove`: takes the peer under `ssrc` out of the table and
/// hands it over; a table without one is left as it was.
#[verifier::external_body]
pub(crate) fn peer_table_remove(table: &mut DashMap<u32, Peer>, ssrc: u32) -> (peer: Option<Peer>)
    ensures
        match peer {
            Some(p) => peer_table(*old(table)).dom().contains(ssrc) && p == peer_table(
                *old(table),
            )[ssrc] && peer_table(*final(table)) == peer_table(*old(table)).remove(ssrc),
            None => !peer_table(*old(table)).dom().contains(ssrc) && peer_table(*final(table))
                == peer_table(*old(table)),
        },
{
    table.remove(&ssrc).map(|entry| entry.1)
}

/// `DashMap::get`: the consumer's handle of the peer under `ssrc`, if the
/// table holds one.
#[verifier::external_body]
pub(crate) fn peer_table_context(table: &DashMap<u32, Peer>, ssrc: u32) -> (context: Option<usize>)
    ensures
        context == (if peer_table(*table).dom().contains(ssrc) {
            Some(peer_table(*table)[ssrc]@.consumer_context)
        } else {
            None
        }),
{
    table.get(&ssrc).map(|peer| peer.consumer_context())
}

/// `DashMap::new`: a table that holds nothing.
#[verifier::external_body]
pub(crate) fn new_address_table() -> (addresses: DashMap<u32, SocketAddress>)
    ensures
        address_table(addresses) == (Map::<u32, SocketAddress>::empty()),
{
    DashMap::new()
}

/// `DashMap::insert`: the table holds `addr` under `ssrc` afterwards, in
/// place of what it held there, and everything else as before.
#[verifier::external_body]
pub(crate) fn address_table_insert(
    table: &mut DashMap<u32, SocketAddress>,
    ssrc: u32,
    addr: SocketAddress,
)
    ensures
        address_table(*final(table)) == address_table(*old(table)).insert(ssrc, addr),
{
    table.insert(ssrc, addr);
}

/// `DashMap::iter`: every entry of the table, once each. The order is
/// whatever the walk over the table gives.
#[verifier::external_body]
pub(crate) fn address_table_entries(table: &DashMap<u32, SocketAddress>) -> (entries: Vec<
    (u32, SocketAddress),
>)
    ensures
        entries@.no_duplicates(),
        forall|ssrc: u32, addr: SocketAddress|
            entries@.contains((ssrc, addr)) <==> address_table(*table).contains_pair(ssrc, addr),
{
    table.iter().map(|entry| (*entry.key(), *entry.value())).collect()
}

/// `DashSet::new`: a set that holds nothing.
#[verifier::external_body]
pub(crate) fn new_address_set() -> (set: DashSet<SocketAddress>)
    ensures
        address_set(set) == Set::<SocketAddress>::empty(),
{
    DashSet::new()
}

/// `DashSet::insert`: the set holds `addr` afterwards. The result says
/// whether it is new to the set.
#[verifier::external_body]
pub(crate) fn address_set_insert(set: &mut DashSet<SocketAddress>, addr: SocketAddress) -> (fresh:
    bool)
    ensures
        address_set(*final(set)) == address_set(*old(set)).insert(addr),
        fresh == !address_set(*old(set)).contains(addr),
{
    set.insert(addr)
}

/// `DashSet::iter`: every address of the set, once each. The order is
/// whatever the walk over the set gives.
#[verifier::external_body]
pub(crate) fn address_set_members(set: &DashSet<SocketAddress>) -> (members: Vec<SocketAddress>)
    ensures
        members@.no_duplicates(),
        forall|addr: SocketAddress| members@.contains(addr) <==> address_set(*set).contains(addr),
{
    set.iter().map(|addr| *addr.key()).collect()
}

} // verus!
