use vstd::prelude::*;

verus! {

/// The byte found at position `k` once `seed` has been rotated left by `shift` places.
pub open spec fn rotated_byte(seed: Seq<u8>, shift: nat, k: int) -> u8
    recommends
        seed.len() > 0,
{
    seed[((shift % seed.len()) + k) % (seed.len() as int)]
}

/// The little-endian value of the first four bytes of `seed` rotated left by `shift`.
pub open spec fn random_value(seed: Seq<u8>, shift: nat) -> nat
    recommends
        seed.len() >= 4,
{
    rotated_byte(seed, shift, 0) as nat + 256 * (rotated_byte(seed, shift, 1) as nat) + 65536 * (
    rotated_byte(seed, shift, 2) as nat) + 16777216 * (rotated_byte(seed, shift, 3) as nat)
}

/// The index that follows `i` in a ring of `len` positions.
fn next_index(i: usize, len: usize) -> (r: usize)
    requires
        i < len,
    ensures
        r < len,
        r as int == (i as int + 1) % (len as int),
{
    if i + 1 < len {
        proof {
            vstd::arithmetic::div_mod::lemma_small_mod((i + 1) as nat, len as nat);
        }
        i + 1
    } else {
        proof {
            vstd::arithmetic::div_mod::lemma_mod_self_0(len as int);
        }
        0
    }
}

/// Reads a number from a random seed: the seed is rotated left by `shift_amount`
/// places and its first four bytes are taken as a little-endian `u32`.
pub fn get_random_number(seed: &Vec<u8>, shift_amount: u32) -> (r: u32)
    requires
        seed@.len() >= 4,
    ensures
        r as nat == random_value(seed@, shift_amount as nat),
{
    let len = seed.len();
    let i0 = (shift_amount as usize) % len;
    let i1 = next_index(i0, len);
    let i2 = next_index(i1, len);
    let i3 = next_index(i2, len);
    proof {
        let s = shift_amount as int % len as int;
        let l = len as int;
        assert(i0 as int == s);
        assert(i0 as int == (s + 0) % l) by {
            vstd::arithmetic::div_mod::lemma_small_mod(s as nat, l as nat);
        }
        vstd::arithmetic::div_mod::lemma_add_mod_noop(s, 1, l);
        vstd::arithmetic::div_mod::lemma_add_mod_noop(s + 1, 1, l);
        vstd::arithmetic::div_mod::lemma_add_mod_noop(s + 2, 1, l);
        vstd::arithmetic::div_mod::lemma_small_mod(1, l as nat);
        vstd::arithmetic::div_mod::lemma_mod_twice(s + 1, l);
        vstd::arithmetic::div_mod::lemma_mod_twice(s + 2, l);
    }
    let b0 = seed[i0] as u32;
    let b1 = seed[i1] as u32;
    let b2 = seed[i2] as u32;
    let b3 = seed[i3] as u32;
    b0 + 256 * b1 + 65536 * b2 + 16777216 * b3
}

} // verus!
