//! Finding a number in a list.

use vstd::prelude::*;

verus! {

/// The place of the key among the keys, or their number if it is not
/// among them.
pub open spec fn slot_of(keys: Seq<u64>, key: u64) -> nat
    decreases keys.len(),
{
    if keys.len() == 0 || keys[0] == key {
        0
    } else {
        1 + slot_of(keys.subrange(1, keys.len() as int), key)
    }
}

pub proof fn lemma_slot_of(keys: Seq<u64>, key: u64)
    ensures
        slot_of(keys, key) <= keys.len(),
        slot_of(keys, key) < keys.len() ==> keys[slot_of(keys, key) as int] == key,
        forall|i: int| 0 <= i < slot_of(keys, key) ==> keys[i] != key,
        slot_of(keys, key) == keys.len() <==> !keys.contains(key),
    decreases keys.len(),
{
    if keys.len() > 0 && keys[0] != key {
        let tail = keys.subrange(1, keys.len() as int);
        lemma_slot_of(tail, key);
        assert forall|i: int| 0 <= i < slot_of(keys, key) implies keys[i] != key by {
            if i > 0 {
                assert(tail[i - 1] == keys[i]);
            }
        }
        if keys.contains(key) {
            let i = choose|i: int| 0 <= i < keys.len() && keys[i] == key;
            assert(tail[i - 1] == key);
        }
        if tail.contains(key) {
            let i = choose|i: int| 0 <= i < tail.len() && tail[i] == key;
            assert(keys[i + 1] == key);
        }
    } else if keys.len() > 0 {
        assert(keys[0] == key);
    }
}

/// The place found by looking from the front is the place of the key.
pub proof fn lemma_slot_found(keys: Seq<u64>, key: u64, at: int)
    requires
        0 <= at <= keys.len(),
        at < keys.len() ==> keys[at] == key,
        forall|i: int| 0 <= i < at ==> keys[i] != key,
    ensures
        slot_of(keys, key) == at,
{
    lemma_slot_of(keys, key);
    let p = slot_of(keys, key) as int;
    if p < at {
        assert(keys[p] != key);
    } else if p > at {
        assert(keys[at] != key);
    }
}

} // verus!
