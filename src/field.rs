use halo2_proofs::pasta::group::ff::PrimeField;
use halo2_proofs::pasta::Fp;
use vstd::arithmetic::div_mod::{lemma_fundamental_div_mod_converse, lemma_small_mod};
use vstd::prelude::*;

verus! {

/// The order of the Pallas base field.
pub open spec fn modulus() -> int {
    0x40000000000000000000000000000000224698fc094cf91b992d30ed00000001int
}

/// The integer written by `s` in little-endian base 256.
pub open spec fn le_value(s: Seq<u8>) -> int
    decreases s.len(),
{
    if s.len() == 0 {
        0
    } else {
        s[0] as int + 256 * le_value(s.drop_first())
    }
}

/// A field element, kept as the canonical 32-byte little-endian encoding.
#[derive(Clone, Copy, Debug)]
pub struct FieldValue {
    pub repr: [u8; 32],
}

impl View for FieldValue {
    type V = int;

    open spec fn view(&self) -> int {
        le_value(self.repr@)
    }
}

impl FieldValue {
    /// The encoding is canonical: it denotes an integer below the modulus.
    pub open spec fn wf(&self) -> bool {
        self@ < modulus()
    }

    /// The element `n`.
    pub fn from_u64(n: u64) -> (r: FieldValue)
        ensures
            r@ == n as int,
            r.wf(),
    {
        fp_from_u64(n)
    }

    /// The additive identity.
    pub fn zero() -> (r: FieldValue)
        ensures
            r@ == 0,
            r.wf(),
    {
        fp_from_u64(0)
    }

    /// The multiplicative identity.
    pub fn one() -> (r: FieldValue)
        ensures
            r@ == 1,
            r.wf(),
    {
        fp_from_u64(1)
    }

    pub fn add(&self, rhs: &FieldValue) -> (r: FieldValue)
        requires
            self.wf(),
            rhs.wf(),
        ensures
            r@ == (self@ + rhs@) % modulus(),
            r.wf(),
    {
        fp_add(self, rhs)
    }

    pub fn sub(&self, rhs: &FieldValue) -> (r: FieldValue)
        requires
            self.wf(),
            rhs.wf(),
        ensures
            r@ == (self@ - rhs@) % modulus(),
            r.wf(),
    {
        fp_sub(self, rhs)
    }

    pub fn mul(&self, rhs: &FieldValue) -> (r: FieldValue)
        requires
            self.wf(),
            rhs.wf(),
        ensures
            r@ == (self@ * rhs@) % modulus(),
            r.wf(),
    {
        fp_mul(self, rhs)
    }

    /// Equality of field elements, decided on the canonical encodings.
    pub fn equals(&self, rhs: &FieldValue) -> (r: bool)
        ensures
            r == (self@ == rhs@),
    {
        let mut i: usize = 0;
        while i < 32
            invariant
                i <= 32,
                forall|j: int| 0 <= j < i ==> self.repr@[j] == rhs.repr@[j],
            decreases 32 - i,
        {
            if self.repr[i] != rhs.repr[i] {
                proof {
                    if self@ == rhs@ {
                        lemma_le_value_injective(self.repr@, rhs.repr@);
                        assert(self.repr@[i as int] == rhs.repr@[i as int]);
                    }
                }
                return false;
            }
            i = i + 1;
        }
        proof {
            assert(self.repr@ =~= rhs.repr@);
        }
        true
    }

    /// Whether the encoding denotes an integer below the modulus.
    pub fn repr_is_canonical(&self) -> (r: bool)
        ensures
            r == self.wf(),
    {
        fp_is_canonical(self)
    }

    /// Whether this is the additive identity.
    pub fn is_zero(&self) -> (r: bool)
        ensures
            r == (self@ == 0),
    {
        let z = FieldValue::zero();
        self.equals(&z)
    }
}

/// Two byte strings of one length that denote the same integer are the same.
pub proof fn lemma_le_value_injective(s: Seq<u8>, t: Seq<u8>)
    requires
        s.len() == t.len(),
        le_value(s) == le_value(t),
    ensures
        s == t,
    decreases s.len(),
{
    if s.len() > 0 {
        lemma_le_value_nonneg(s.drop_first());
        lemma_le_value_nonneg(t.drop_first());
        lemma_fundamental_div_mod_converse(le_value(s), 256, le_value(s.drop_first()), s[0] as int);
        lemma_fundamental_div_mod_converse(le_value(t), 256, le_value(t.drop_first()), t[0] as int);
        lemma_le_value_injective(s.drop_first(), t.drop_first());
        assert(s =~= seq![s[0]] + s.drop_first());
        assert(t =~= seq![t[0]] + t.drop_first());
    } else {
        assert(s =~= t);
    }
}

pub proof fn lemma_le_value_nonneg(s: Seq<u8>)
    ensures
        le_value(s) >= 0,
    decreases s.len(),
{
    if s.len() > 0 {
        lemma_le_value_nonneg(s.drop_first());
    }
}

/// A canonical element denotes an integer in `[0, modulus)`.
pub proof fn lemma_value_range(x: FieldValue)
    requires
        x.wf(),
    ensures
        0 <= x@ < modulus(),
{
    lemma_le_value_nonneg(x.repr@);
}

/// A value of a canonical element reduces to itself.
pub proof fn lemma_reduce_canonical(x: int)
    requires
        0 <= x < modulus(),
    ensures
        x % modulus() == x,
{
    lemma_small_mod(x as nat, modulus() as nat);
}

/// Relies on pasta's `From<u64> for Fp` and `PrimeField::to_repr`: the element `n`, canonically encoded.
#[verifier::external_body]
fn fp_from_u64(n: u64) -> (r: FieldValue)
    ensures
        r@ == n as int,
{
    FieldValue { repr: Fp::from(n).to_repr() }
}

/// Relies on pasta's `PrimeField::from_repr`: it accepts exactly the
/// encodings of integers below the modulus.
#[verifier::external_body]
fn fp_is_canonical(a: &FieldValue) -> (r: bool)
    ensures
        r == a.wf(),
{
    bool::from(Fp::from_repr(a.repr).is_some())
}

/// Relies on pasta's `Fp::add`: the sum modulo the field order; `from_repr`
/// and `to_repr` convert the canonical encoding to `Fp` and back.
#[verifier::external_body]
fn fp_add(a: &FieldValue, b: &FieldValue) -> (r: FieldValue)
    requires
        a.wf(),
        b.wf(),
    ensures
        r@ == (a@ + b@) % modulus(),
{
    let x = Fp::from_repr(a.repr).unwrap();
    let y = Fp::from_repr(b.repr).unwrap();
    FieldValue { repr: x.add(&y).to_repr() }
}

/// Relies on pasta's `Fp::sub`: the difference modulo the field order;
/// `from_repr` and `to_repr` convert the canonical encoding to `Fp` and back.
#[verifier::external_body]
fn fp_sub(a: &FieldValue, b: &FieldValue) -> (r: FieldValue)
    requires
        a.wf(),
        b.wf(),
    ensures
        r@ == (a@ - b@) % modulus(),
{
    let x = Fp::from_repr(a.repr).unwrap();
    let y = Fp::from_repr(b.repr).unwrap();
    FieldValue { repr: x.sub(&y).to_repr() }
}

/// Relies on pasta's `Fp::mul`: the product modulo the field order;
/// `from_repr` and `to_repr` convert the canonical encoding to `Fp` and back.
#[verifier::external_body]
fn fp_mul(a: &FieldValue, b: &FieldValue) -> (r: FieldValue)
    requires
        a.wf(),
        b.wf(),
    ensures
        r@ == (a@ * b@) % modulus(),
{
    let x = Fp::from_repr(a.repr).unwrap();
    let y = Fp::from_repr(b.repr).unwrap();
    FieldValue { repr: x.mul(&y).to_repr() }
}

} // verus!
