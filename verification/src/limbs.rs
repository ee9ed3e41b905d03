//! The limb codec: sequences of 64-bit limbs as exact integers.

use crate::biguint::{from_u64, nat_value, remainder, shift_left, sum, to_decimal};
use crate::decimal::{decimal, lemma_decimal_injective};
use num_bigint::BigUint;
use vstd::arithmetic::power2::lemma2_to64_rest;
use vstd::prelude::*;

verus! {

/// The number of bits in one limb.
pub const LIMB_BITS: u32 = 64;

/// The weight of one limb position: two to the power 64.
pub open spec fn limb_base() -> nat {
    0x1_0000_0000_0000_0000
}

/// The integer that `limbs` denote in base 2^64, least significant limb first.
pub open spec fn limbs_value(limbs: Seq<u64>) -> nat
    decreases limbs.len(),
{
    if limbs.len() == 0 {
        0
    } else {
        limbs[0] as nat + limb_base() * limbs_value(limbs.skip(1))
    }
}

/// Packs `limbs` into one big integer, limb 0 least significant.
pub fn pack_limbs(limbs: &[u64]) -> (packed: BigUint)
    ensures
        nat_value(packed) == limbs_value(limbs@),
{
    let mut acc = from_u64(0);
    let mut i: usize = limbs.len();
    while i > 0
        invariant
            i <= limbs.len(),
            nat_value(acc) == limbs_value(limbs@.subrange(i as int, limbs@.len() as int)),
        decreases i,
    {
        i = i - 1;
        let shifted = shift_left(acc, LIMB_BITS);
        acc = sum(shifted, from_u64(limbs[i]));
        proof {
            lemma2_to64_rest();
            let tail = limbs@.subrange(i as int, limbs@.len() as int);
            assert(tail.skip(1) =~= limbs@.subrange(i + 1, limbs@.len() as int));
        }
    }
    assert(limbs@.subrange(0, limbs@.len() as int) =~= limbs@);
    acc
}

/// All limbs of `limbs` are zero.
pub open spec fn all_zero(limbs: Seq<u64>) -> bool {
    forall|i: int| 0 <= i < limbs.len() ==> limbs[i] == 0
}

/// A limb sequence denotes zero exactly when every limb is zero.
pub proof fn lemma_value_zero_iff_all_zero(limbs: Seq<u64>)
    ensures
        limbs_value(limbs) == 0 <==> all_zero(limbs),
    decreases limbs.len(),
{
    if limbs.len() > 0 {
        let tail = limbs.skip(1);
        lemma_value_zero_iff_all_zero(tail);
        assert(limb_base() * limbs_value(tail) == 0 <==> limbs_value(tail) == 0)
            by (nonlinear_arith);
        if limbs_value(limbs) == 0 {
            assert forall|i: int| 0 < i < limbs.len() implies limbs[i] == 0 by {
                assert(limbs[i] == tail[i - 1]);
            }
        }
    }
}

/// Zero limbs above the most significant one do not change the value.
pub proof fn lemma_trailing_zero_limbs(limbs: Seq<u64>, zeros: Seq<u64>)
    requires
        all_zero(zeros),
    ensures
        limbs_value(limbs + zeros) == limbs_value(limbs),
    decreases limbs.len(),
{
    if limbs.len() == 0 {
        lemma_value_zero_iff_all_zero(zeros);
    } else {
        lemma_trailing_zero_limbs(limbs.skip(1), zeros);
        assert((limbs + zeros).skip(1) =~= limbs.skip(1) + zeros);
    }
}

/// A single limb denotes itself.
pub proof fn lemma_single_limb_value(x: u64)
    ensures
        limbs_value(seq![x]) == x as nat,
{
    assert(limbs_value(seq![x].skip(1)) == 0);
}

/// A prime modulus (or any positive modulus) for reducing packed values.
///
/// The limbs are kept as given, least significant first, beside the big
/// integer they denote, which is never zero.
#[derive(Debug)]
pub struct Modulus {
    limbs: Vec<u64>,
    value: BigUint,
}

impl View for Modulus {
    type V = nat;

    /// The integer that the limbs denote. The big integer kept beside them
    /// has the same value at all times, so it adds nothing to the model.
    closed spec fn view(&self) -> nat {
        limbs_value(self.limbs@)
    }
}

impl Modulus {
    #[verifier::type_invariant]
    spec fn consistent(&self) -> bool {
        &&& nat_value(self.value) == limbs_value(self.limbs@)
        &&& limbs_value(self.limbs@) > 0
    }

    /// The limbs this modulus was made from.
    pub closed spec fn spec_limbs(&self) -> Seq<u64> {
        self.limbs@
    }

    /// The modulus that `limbs` denote, or `None` when they denote zero.
    pub fn from_limbs(limbs: Vec<u64>) -> (made: Option<Modulus>)
        ensures
            limbs_value(limbs@) == 0 <==> made is None,
            made matches Some(m) ==> m@ == limbs_value(limbs@) && m.spec_limbs() == limbs@,
    {
        let mut i: usize = 0;
        let mut nonzero = false;
        while i < limbs.len()
            invariant
                i <= limbs.len(),
                nonzero <==> exists|k: int| 0 <= k < i && limbs@[k] != 0,
            decreases limbs.len() - i,
        {
            if limbs[i] != 0 {
                nonzero = true;
            }
            i = i + 1;
        }
        proof {
            lemma_value_zero_iff_all_zero(limbs@);
        }
        if nonzero {
            let value = pack_limbs(limbs.as_slice());
            Some(Modulus { limbs, value })
        } else {
            None
        }
    }

    /// The Goldilocks prime, 2^64 - 2^32 + 1.
    pub fn goldilocks() -> (m: Modulus)
        ensures
            m@ == 0xFFFF_FFFF_0000_0001,
            m.spec_limbs() == seq![0xFFFF_FFFF_0000_0001u64],
    {
        let mut limbs: Vec<u64> = Vec::new();
        limbs.push(0xFFFF_FFFF_0000_0001);
        proof {
            lemma_single_limb_value(0xFFFF_FFFF_0000_0001);
        }
        let value = pack_limbs(limbs.as_slice());
        Modulus { limbs, value }
    }

    /// The limbs of this modulus, least significant first.
    pub fn limbs(&self) -> (limbs: &Vec<u64>)
        ensures
            limbs@ == self.spec_limbs(),
            limbs_value(limbs@) == self@,
            self@ > 0,
    {
        proof {
            use_type_invariant(self);
        }
        &self.limbs
    }

    /// The remainder of `a` on division by this modulus.
    pub fn reduce(&self, a: &BigUint) -> (r: BigUint)
        ensures
            self@ > 0,
            nat_value(r) == nat_value(*a) % self@,
    {
        proof {
            use_type_invariant(self);
        }
        remainder(a, &self.value)
    }
}

/// What an optional modulus denotes.
pub open spec fn modulus_value(modulus: Option<&Modulus>) -> Option<nat> {
    match modulus {
        Some(m) => Some(m@),
        None => None,
    }
}

/// `value` reduced modulo `modulus` where one is given, else `value` itself.
pub open spec fn reduced(value: nat, modulus: Option<nat>) -> nat {
    match modulus {
        Some(m) => value % m,
        None => value,
    }
}

/// The canonical scalar of a field element given by its limbs: the decimal
/// numeral of the packed value, after reduction where a modulus is given.
pub open spec fn canonical(limbs: Seq<u64>, modulus: Option<nat>) -> Seq<char> {
    decimal(reduced(limbs_value(limbs), modulus))
}

/// Packs `limbs` into one big integer, limb 0 least significant, and reduces
/// it modulo `reduce_modulus` where one is given.
pub fn pack(limbs: &[u64], reduce_modulus: Option<&Modulus>) -> (packed: BigUint)
    ensures
        nat_value(packed) == reduced(limbs_value(limbs@), modulus_value(reduce_modulus)),
{
    let whole = pack_limbs(limbs);
    match reduce_modulus {
        Some(m) => m.reduce(&whole),
        None => whole,
    }
}

/// The canonical scalar of the field element that `limbs` denote.
pub fn canonical_scalar(limbs: &[u64], reduce_modulus: Option<&Modulus>) -> (scalar: String)
    ensures
        scalar@ == canonical(limbs@, modulus_value(reduce_modulus)),
{
    let packed = pack(limbs, reduce_modulus);
    to_decimal(&packed)
}

/// A value that fits one limb has the same canonical scalar whether it comes
/// as one limb or as four limbs of which the upper three are zero.
pub proof fn lemma_one_limb_equals_four(v: u64, modulus: Option<nat>)
    ensures
        limbs_value(seq![v]) == limbs_value(seq![v, 0, 0, 0]),
        canonical(seq![v], modulus) == canonical(seq![v, 0, 0, 0], modulus),
{
    let zeros = seq![0u64, 0u64, 0u64];
    assert(seq![v] + zeros =~= seq![v, 0, 0, 0]);
    lemma_trailing_zero_limbs(seq![v], zeros);
}

/// Two limb sequences have the same canonical scalar exactly when they
/// denote the same field element: the same integer after reduction.
pub proof fn lemma_canonical_by_value(a: Seq<u64>, b: Seq<u64>, modulus: Option<nat>)
    ensures
        canonical(a, modulus) == canonical(b, modulus) <==> reduced(limbs_value(a), modulus)
            == reduced(limbs_value(b), modulus),
{
    if canonical(a, modulus) == canonical(b, modulus) {
        lemma_decimal_injective(
            reduced(limbs_value(a), modulus),
            reduced(limbs_value(b), modulus),
        );
    }
}

/// One limb `x` reduced modulo `p` has the numeral of `x mod p` as its
/// canonical scalar.
pub proof fn lemma_single_limb_reduction(x: u64, p: nat)
    requires
        p > 0,
    ensures
        canonical(seq![x], Some(p)) == decimal((x as nat) % p),
{
    lemma_single_limb_value(x);
}

} // verus!
