use vstd::prelude::*;
use slotmap::{DefaultKey, SlotMap};
use crate::node::{Node, NodeKey};

verus! {

/// The key type of `slotmap`, carried through as an opaque handle: the
/// contracts compare keys and never look inside one.
#[verifier::external_type_specification]
#[verifier::external_body]
pub struct ExDefaultKey(DefaultKey);

/// The `slotmap::SlotMap` that stores the nodes of one tree. Verus cannot
/// declare `SlotMap` itself, whose key parameter is bound by `slotmap::Key`,
/// so the map sits in this opaque wrapper; `arena_of` names its contents and
/// the functions below are the only way in.
#[verifier::external_body]
pub struct Arena {
    map: SlotMap<NodeKey, Node>,
}

/// What an arena holds: each live key with its node.
pub uninterp spec fn arena_of(a: Arena) -> Map<NodeKey, Node>;

/// Relies on `SlotMap::with_key`: a new slot map holds nothing.
#[verifier::external_body]
pub(crate) fn new_arena() -> (r: Arena)
    ensures
        arena_of(r).dom().len() == 0,
        arena_of(r).dom().finite(),
{
    Arena { map: SlotMap::with_key() }
}

/// Relies on `SlotMap::insert`: stores `node` under a key that was not live
/// before and leaves the other entries as they were. It panics only when no
/// slot is free and the map already holds `u32::MAX - 1` elements.
#[verifier::external_body]
pub(crate) fn arena_insert(a: &mut Arena, node: Node) -> (k: NodeKey)
    requires
        arena_of(*old(a)).dom().finite(),
        arena_of(*old(a)).dom().len() + 1 < u32::MAX,
    ensures
        !arena_of(*old(a)).dom().contains(k),
        arena_of(*final(a)) == arena_of(*old(a)).insert(k, node),
{
    a.map.insert(node)
}

/// Relies on `SlotMap::get`: the node stored under `k` while `k` is live,
/// and nothing otherwise.
#[verifier::external_body]
pub(crate) fn arena_get(a: &Arena, k: NodeKey) -> (r: Option<&Node>)
    ensures
        r == (if arena_of(*a).contains_key(k) {
            Some(&arena_of(*a)[k])
        } else {
            None
        }),
{
    a.map.get(k)
}

/// Relies on `SlotMap::len`: the number of live entries.
#[verifier::external_body]
pub(crate) fn arena_len(a: &Arena) -> (r: usize)
    ensures
        r == arena_of(*a).dom().len(),
{
    a.map.len()
}

} // verus!
