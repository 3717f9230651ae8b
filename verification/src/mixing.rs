use vstd::prelude::*;
use vstd::arithmetic::div_mod::{lemma_add_mod_noop, lemma_small_mod};

verus! {

/// 2^64, the modulus of 64-bit wrapping arithmetic.
pub open spec fn two_pow_64() -> nat {
    0x1_0000_0000_0000_0000
}

/// The golden-ratio increment used to spread rollout seeds.
pub const ROLLOUT_SEED_STRIDE: u64 = 0x9e37_79b9_7f4a_7c15;

/// The increment used to spread seeds across on-policy rounds.
pub const ROUND_SEED_STRIDE: u64 = 0xd1b5_4a32_d192_ed03;

/// The increment used to spread seeds across material cuts.
pub const CUT_SEED_STRIDE: u64 = 0xa24b_aed4_963e_e407;

/// `wrapping_add` and `wrapping_mul` on `u64` agree with arithmetic modulo
/// 2^64, so a sum of wrapped products is the wrapped sum of the products.
pub proof fn lemma_wrapping_add_mul(acc: u64, x: u64, k: u64)
    ensures
        acc.wrapping_add(x.wrapping_mul(k)) as nat == (acc as nat + x as nat * k as nat)
            % two_pow_64(),
{
    let m = two_pow_64() as int;
    let p = x.wrapping_mul(k);
    assert(p as int == (x as int * k as int) % m);
    let s = acc as int + p as int;
    assert(acc.wrapping_add(p) as int == s % m) by {
        if s >= m {
            assert(s - m < m);
            lemma_small_mod((s - m) as nat, m as nat);
            assert(s % m == (s - m) % m) by {
                vstd::arithmetic::div_mod::lemma_mod_sub_multiples_vanish(s, m);
            }
        } else {
            lemma_small_mod(s as nat, m as nat);
        }
    }
    lemma_add_mod_noop(acc as int, x as int * k as int, m);
    lemma_small_mod(acc as nat, m as nat);
    assert((acc as int % m + p as int % m) % m == (acc as int + x as int * k as int) % m);
    lemma_small_mod(p as nat, m as nat);
}


/// `x * k` reduced modulo 2^64, the value of a 64-bit wrapping product.
pub open spec fn wrapped_product(x: nat, k: u64) -> u64 {
    ((x * (k as nat)) % two_pow_64()) as u64
}

/// A 64-bit wrapping product is the product reduced modulo 2^64.
pub proof fn lemma_wrapping_mul(x: u64, k: u64)
    ensures
        x.wrapping_mul(k) == wrapped_product(x as nat, k),
{
    let m = two_pow_64() as int;
    assert(x.wrapping_mul(k) as int == (x as int * k as int) % m);
}

} // verus!
