use vstd::prelude::*;

verus! {

/// The multiplier of the generator.
pub const A: u32 = 1103515245;

/// The increment of the generator.
pub const C: u32 = 12345;

/// The state of a linear congruential generator.
pub struct Seed(u32);

impl Seed {
    pub closed spec fn spec_value(&self) -> u32 {
        self.0
    }

    /// The seed the generator starts from.
    pub fn new() -> (r: Seed)
        ensures
            r.spec_value() == 123456789,
    {
        Seed(123456789)
    }
}

/// The seed that follows `seed`: `A * seed + C` in 32-bit arithmetic, reduced modulo `u32::MAX`.
pub open spec fn next_seed(seed: u32) -> u32 {
    ((((A as int) * (seed as int) + C as int) % 0x1_0000_0000) % (u32::MAX as int)) as u32
}

/// Advances the generator and returns its new state.
pub fn rand(seed: &mut Seed) -> (r: u32)
    ensures
        r == next_seed(old(seed).spec_value()),
        final(seed).spec_value() == r,
{
    let product = A.wrapping_mul(seed.0);
    let sum = product.wrapping_add(C);
    proof {
        let s = seed.0 as int;
        let p = (A as int * s) % 0x1_0000_0000;
        assert(product as int == p);
        assert(sum as int == (p + C) % 0x1_0000_0000);
        assert((p + C as int) % 0x1_0000_0000 == (A as int * s + C as int) % 0x1_0000_0000) by {
            vstd::arithmetic::div_mod::lemma_add_mod_noop(A as int * s, C as int, 0x1_0000_0000);
            vstd::arithmetic::div_mod::lemma_mod_twice(A as int * s, 0x1_0000_0000);
            vstd::arithmetic::div_mod::lemma_small_mod(C as nat, 0x1_0000_0000);
        }
    }
    let next = sum % u32::MAX;
    seed.0 = next;
    next
}

/// An even draw: whether the generator's next value lies above half of `u32::MAX`.
pub fn rand_coin(seed: &mut Seed) -> (r: bool)
    ensures
        final(seed).spec_value() == next_seed(old(seed).spec_value()),
        r == (next_seed(old(seed).spec_value()) > u32::MAX / 2),
{
    rand(seed) > u32::MAX / 2
}

/// The generator is the linear congruential one with multiplier 1103515245 and increment
/// 12345, taken modulo 2^32 and then modulo `u32::MAX`.
pub proof fn law_rand_recurrence(seed: u32)
    ensures
        next_seed(seed) as int == ((1103515245 * seed + 12345) % 0x1_0000_0000) % 0xffff_ffff,
{
}

/// The generator never yields `u32::MAX`.
pub proof fn law_rand_below_max(seed: u32)
    ensures
        next_seed(seed) < u32::MAX,
{
}

} // verus!
