//! Small helpers shared by the client: hashing a value and walking a list in
//! either direction.

use vstd::prelude::*;
use std::hash::{Hash, Hasher};

verus! {

/// Hashes a value with std's `DefaultHasher` as `DefaultHasher::new` makes
/// it. The value's `Hash` impl decides what is fed to the hasher, so no
/// clause states the result.
#[verifier::external_body]
pub fn calc_hash<T: Hash>(t: &T) -> u64 {
    let mut s = std::collections::hash_map::DefaultHasher::new();
    t.hash(&mut s);
    s.finish()
}

/// The items in their order, or reversed.
pub fn rev_iter<I: Copy>(items: Vec<I>, should_reverse: bool) -> (r: Vec<I>)
    ensures
        r@ == if should_reverse { items@.reverse() } else { items@ },
{
    if !should_reverse {
        return items;
    }
    let mut r: Vec<I> = Vec::new();
    let mut i: usize = items.len();
    while i > 0
        invariant
            i <= items.len(),
            r@ == items@.subrange(i as int, items@.len() as int).reverse(),
        decreases i,
    {
        i = i - 1;
        r.push(items[i]);
        assert(r@ =~= items@.subrange(i as int, items@.len() as int).reverse());
    }
    assert(items@.subrange(0, items@.len() as int) =~= items@);
    r
}

} // verus!
