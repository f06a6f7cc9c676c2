//! Fresh 32-bit identifiers for columns and rows.
use vstd::prelude::*;
use vstd::set_lib::{lemma_int_range, lemma_len_subset, lemma_map_size_bound, set_int_range};

use std::collections::HashSet;

verus! {

broadcast use vstd::std_specs::hash::group_hash_axioms;

/// How many random draws are made before falling back to a scan for the
/// smallest free id.
pub const RANDOM_TRIES: u32 = 64;

/// Relies on `fastrand::u32(..)`: a value drawn from the whole 32-bit range.
#[verifier::external_body]
fn random_u32() -> (r: u32) {
    fastrand::u32(..)
}

/// A set that holds every 32-bit value has at least 2^32 elements.
proof fn lemma_full_set_len(s: Set<u32>)
    requires
        s.finite(),
        forall|x: u32| s.contains(x),
    ensures
        s.len() >= 0x1_0000_0000,
{
    let f = |x: u32| x as int;
    let y = s.map(f);
    lemma_map_size_bound(s, y, f);
    lemma_int_range(0, 0x1_0000_0000);
    assert forall|i: int| set_int_range(0, 0x1_0000_0000).contains(i) implies y.contains(i) by {
        let x = i as u32;
        assert(s.contains(x));
        assert(f(x) == i);
    }
    lemma_len_subset(set_int_range(0, 0x1_0000_0000), y);
}

/// Mints an id that `existing` does not hold yet, and adds it to `existing`.
/// Draws at random first; after `RANDOM_TRIES` collisions it takes the
/// smallest free id.
pub fn next_unique_id(existing: &mut HashSet<u32>) -> (r: u32)
    requires
        old(existing)@.finite(),
        old(existing)@.len() < 0x1_0000_0000,
    ensures
        !old(existing)@.contains(r),
        final(existing)@ == old(existing)@.insert(r),
{
    let mut tries: u32 = 0;
    while tries < RANDOM_TRIES
        invariant
            existing@ == old(existing)@,
        decreases RANDOM_TRIES - tries,
    {
        let id = random_u32();
        if existing.insert(id) {
            return id;
        }
        tries = tries + 1;
    }
    let mut c: u32 = 0;
    loop
        invariant
            existing@ == old(existing)@,
            existing@.finite(),
            existing@.len() < 0x1_0000_0000,
            forall|k: u32| k < c ==> existing@.contains(k),
        decreases u32::MAX - c,
    {
        if existing.insert(c) {
            return c;
        }
        if c == u32::MAX {
            proof {
                assert forall|x: u32| existing@.contains(x) by {
                    if x < c {
                    } else {
                        assert(x == c);
                    }
                }
                lemma_full_set_len(existing@);
            }
            return c;
        }
        c = c + 1;
    }
}

} // verus!
