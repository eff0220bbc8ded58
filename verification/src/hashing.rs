//! From a key to the slot it belongs to.

use vstd::arithmetic::div_mod::lemma_add_mod_noop;
use vstd::arithmetic::div_mod::lemma_mod_twice;
use vstd::prelude::*;

verus! {

/// Where the sum over a key's characters starts.
pub const HASH_OFFSET: usize = 4096;

/// Twice the code of every character of `key`, added up.
pub open spec fn code_sum(key: Seq<char>) -> nat
    decreases key.len(),
{
    if key.len() == 0 {
        0
    } else {
        code_sum(key.drop_last()) + 2 * (key.last() as u32 as nat)
    }
}

/// The slot of `key` in a table of `slots` slots: the offset plus the sum over
/// the characters, reduced modulo the number of slots.
pub open spec fn slot_of(key: Seq<char>, slots: nat) -> nat
    recommends
        slots > 0,
{
    (HASH_OFFSET as nat + code_sum(key)) % slots
}

/// A key's slot is one of the slots.
pub proof fn lemma_slot_in_range(key: Seq<char>, slots: nat)
    requires
        slots > 0,
    ensures
        slot_of(key, slots) < slots,
{
    vstd::arithmetic::div_mod::lemma_mod_bound(
        (HASH_OFFSET as nat + code_sum(key)) as int,
        slots as int,
    );
}

/// Computes `slot_of`. The sum is kept reduced, so a key of any length is
/// hashed without overflow.
pub fn hash_key(key: &str, slots: usize) -> (idx: usize)
    requires
        slots > 0,
    ensures
        idx == slot_of(key@, slots as nat),
        idx < slots,
{
    broadcast use vstd::string::group_string_axioms;

    let modulus: u128 = slots as u128;
    let mut acc: u128 = (HASH_OFFSET as u128) % modulus;
    assert(key@.take(0) =~= Seq::<char>::empty());
    for c in it: key.chars()
        invariant
            modulus == slots,
            slots > 0,
            it.seq() == key@,
            acc == (HASH_OFFSET as nat + code_sum(key@.take(it.index() as int))) % (slots as nat),
    {
        let ghost i = it.index() as int;
        let ghost before = HASH_OFFSET as int + code_sum(key@.take(i));
        let code: u32 = c as u32;
        let step: u128 = 2 * (code as u128);
        proof {
            assert(key@.take(i + 1).drop_last() =~= key@.take(i));
            assert(key@.take(i + 1).last() == c);
            assert(code_sum(key@.take(i + 1)) == code_sum(key@.take(i)) + step);
            lemma_add_mod_noop(before, step as int, modulus as int);
            lemma_mod_twice(before, modulus as int);
        }
        acc = (acc + step % modulus) % modulus;
    }
    assert(key@.take(key@.len() as int) =~= key@);
    acc as usize
}

} // verus!
