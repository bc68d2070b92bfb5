//! The tables of a running tunnel, each a `dashmap::DashMap` keyed by text.
//!
//! The values are handles: numbers by which the owner of sockets, channels and tasks finds them
//! again.

use dashmap::DashMap;
use vstd::prelude::*;

verus! {

/// `dashmap::DashMap`, carried as an opaque value.
#[verifier::external_type_specification]
#[verifier::external_body]
#[verifier::reject_recursive_types(K)]
#[verifier::reject_recursive_types(V)]
#[verifier::reject_recursive_types(S)]
pub struct ExDashMap<K, V, S>(DashMap<K, V, S>);

/// What the relay holds for a request between sending it to the client and the end of its
/// response.
#[derive(Clone, Copy, PartialEq, Eq, Structural)]
pub enum InFlight {
    /// Waiting for the response head, which goes to this handle.
    AwaitingHead(u64),
    /// Head delivered; the chunks of the body go to the handle `body`. Where the body is limited,
    /// `passed` bytes of them went there already; bytes without a limit are not counted.
    Streaming { body: u64, passed: usize },
}

// ---------------------------------------------------------------------------
// Names and their handles
// ---------------------------------------------------------------------------

/// What a table of handles holds.
pub uninterp spec fn handles(m: DashMap<String, u64>) -> Map<Seq<char>, u64>;

/// `DashMap::new`: a table without entries.
#[verifier::external_body]
pub(crate) fn new_handles() -> (m: DashMap<String, u64>)
    ensures
        (handles(m) == Map::<Seq<char>, u64>::empty()),
{
    DashMap::new()
}

/// `DashMap::insert`: the value stands under the key afterwards, and what stood there before is
/// given back. The table is held alone, so the call finds no lock taken.
#[verifier::external_body]
pub(crate) fn insert_handle(m: &mut DashMap<String, u64>, key: String, value: u64) -> (before:
    Option<u64>)
    ensures
        handles(*final(m)) == handles(*old(m)).insert(key@, value),
        before == handles(*old(m)).get(key@),
{
    m.insert(key, value)
}

/// `DashMap::remove`: the key is gone afterwards, and the value that stood there is given back.
#[verifier::external_body]
pub(crate) fn remove_handle(m: &mut DashMap<String, u64>, key: &str) -> (before: Option<u64>)
    ensures
        handles(*final(m)) == handles(*old(m)).remove(key@),
        before == handles(*old(m)).get(key@),
{
    m.remove(key).map(|entry| entry.1)
}

/// `DashMap::get`: a copy of the value under the key.
#[verifier::external_body]
pub(crate) fn get_handle(m: &DashMap<String, u64>, key: &str) -> (value: Option<u64>)
    ensures
        value == handles(*m).get(key@),
{
    m.get(key).map(|entry| *entry.value())
}

// ---------------------------------------------------------------------------
// Requests in flight
// ---------------------------------------------------------------------------

/// What a table of requests in flight holds.
pub uninterp spec fn in_flight(m: DashMap<String, InFlight>) -> Map<Seq<char>, InFlight>;

/// `DashMap::new`: a table without entries.
#[verifier::external_body]
pub(crate) fn new_in_flight() -> (m: DashMap<String, InFlight>)
    ensures
        (in_flight(m) == Map::<Seq<char>, InFlight>::empty()),
{
    DashMap::new()
}

/// `DashMap::insert`: the value stands under the key afterwards, and what stood there before is
/// given back. The table is held alone, so the call finds no lock taken.
#[verifier::external_body]
pub(crate) fn insert_in_flight(
    m: &mut DashMap<String, InFlight>,
    key: String,
    value: InFlight,
) -> (before: Option<InFlight>)
    ensures
        in_flight(*final(m)) == in_flight(*old(m)).insert(key@, value),
        before == in_flight(*old(m)).get(key@),
{
    m.insert(key, value)
}

/// `DashMap::remove`: the key is gone afterwards, and the value that stood there is given back.
#[verifier::external_body]
pub(crate) fn remove_in_flight(m: &mut DashMap<String, InFlight>, key: &str) -> (before: Option<
    InFlight,
>)
    ensures
        in_flight(*final(m)) == in_flight(*old(m)).remove(key@),
        before == in_flight(*old(m)).get(key@),
{
    m.remove(key).map(|entry| entry.1)
}

/// `DashMap::get`: a copy of the value under the key.
#[verifier::external_body]
pub(crate) fn get_in_flight(m: &DashMap<String, InFlight>, key: &str) -> (value: Option<InFlight>)
    ensures
        value == in_flight(*m).get(key@),
{
    m.get(key).map(|entry| *entry.value())
}

} // verus!
