//! Trusted declarations for the insertion-ordered set that collects the
//! players who called `live` during a tick. Only membership is ever read,
//! so its contents are modeled as a set of integers.

use vstd::prelude::*;
use crate::defs::PlayerId;

verus! {

#[verifier::external_type_specification]
#[verifier::external_body]
#[verifier::reject_recursive_types(T)]
#[verifier::reject_recursive_types(S)]
pub struct ExLinkedHashSet<T, S>(linked_hash_set::LinkedHashSet<T, S>);

/// The members of a live-id set.
pub uninterp spec fn live_set_contents(s: linked_hash_set::LinkedHashSet<PlayerId>) -> Set<int>;

/// Relies on `LinkedHashSet::new`: a fresh set has no members.
#[verifier::external_body]
pub fn live_set_new() -> (r: linked_hash_set::LinkedHashSet<PlayerId>)
    ensures
        live_set_contents(r) == Set::<int>::empty(),
{
    linked_hash_set::LinkedHashSet::new()
}

/// Relies on `LinkedHashSet::insert`: afterwards the value is a member,
/// and nothing else changed.
#[verifier::external_body]
pub fn live_set_insert(s: &mut linked_hash_set::LinkedHashSet<PlayerId>, v: PlayerId)
    ensures
        live_set_contents(*final(s)) == live_set_contents(*old(s)).insert(v as int),
{
    s.insert(v);
}

/// Relies on `LinkedHashSet::contains`: whether the value is a member.
#[verifier::external_body]
pub fn live_set_contains(s: &linked_hash_set::LinkedHashSet<PlayerId>, v: PlayerId) -> (r: bool)
    ensures
        r == live_set_contents(*s).contains(v as int),
{
    s.contains(&v)
}

} // verus!
