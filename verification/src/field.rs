//! The machine's prime-field and scalar-field values.
//!
//! A field element is kept as its canonical little-endian bit pattern: 253
//! bits whose numeric value lies below the field modulus. A scalar is kept
//! the same way with 251 bits below the scalar modulus. Holding the bits
//! directly lets every projection and packing step of the coercion
//! algorithm be verified bit-for-bit; only the hash itself is computed
//! outside.
use vstd::prelude::*;
use vstd::arithmetic::power2::{
    pow2, lemma_pow2_adds, lemma_pow2_strictly_increases, lemma2_to64,
};
use vstd::arithmetic::div_mod::lemma_small_mod;
use crate::bits::{
    bits_value, nat_bits, bits_lt, uint_to_bits, lemma_bits_value_append,
    lemma_bits_value_bound, lemma_bits_value_nat_bits, lemma_nat_bits_len,
    lemma_nat_bits_of_bits_value,
};

verus! {

/// Number of bits in a field element's canonical representation.
pub const FIELD_SIZE_IN_BITS: usize = 253;

/// Number of data bits a field element can carry losslessly.
pub const FIELD_SIZE_IN_DATA_BITS: usize = 252;

/// Number of bits in a scalar's canonical representation.
pub const SCALAR_SIZE_IN_BITS: usize = 251;

/// The prime modulus of the field every hash input is normalized to.
pub open spec fn field_modulus() -> nat {
    0x12ab655e9a2ca55660b44d1e5c37b00159aa76fed00000010a11800000000001nat
}

/// The prime modulus of the scalar domain.
pub open spec fn scalar_modulus() -> nat {
    0x4aad957a68b2955982d1347970dec005293a3afc43c8afeb95aee9ac33fd9ffnat
}

/// `s` zero-extended (or cut) to exactly `n` bits.
pub open spec fn pad_false(s: Seq<bool>, n: nat) -> Seq<bool> {
    Seq::new(n, |i: int| 0 <= i < s.len() && s[i])
}

pub proof fn lemma_bits_value_all_false(s: Seq<bool>)
    requires
        forall|i: int| 0 <= i < s.len() ==> !s[i],
    ensures
        bits_value(s) == 0,
    decreases s.len(),
{
    if s.len() > 0 {
        lemma_bits_value_all_false(s.drop_first());
    }
}

/// Zero-extension does not change the value.
pub proof fn lemma_bits_value_pad(s: Seq<bool>, n: nat)
    requires
        s.len() <= n,
    ensures
        bits_value(pad_false(s, n)) == bits_value(s),
{
    let p = pad_false(s, n);
    assert(p =~= s + p.skip(s.len() as int));
    lemma_bits_value_append(s, p.skip(s.len() as int));
    lemma_bits_value_all_false(p.skip(s.len() as int));
}

pub proof fn lemma_pow2_252_lt_field_modulus()
    ensures
        pow2(252) < field_modulus(),
        field_modulus() < pow2(253),
        pow2(250) < scalar_modulus(),
        scalar_modulus() < pow2(251),
{
    lemma2_to64();
    vstd::arithmetic::power2::lemma2_to64_rest();
    lemma_pow2_adds(63, 63);
    lemma_pow2_adds(62, 63);
    lemma_pow2_adds(63, 64);
    lemma_pow2_adds(126, 126);
    lemma_pow2_adds(126, 127);
    lemma_pow2_adds(125, 125);
    lemma_pow2_adds(125, 126);
    assert(pow2(126) == 0x40000000000000000000000000000000) by (nonlinear_arith)
        requires
            pow2(126) == pow2(63) * pow2(63),
            pow2(63) == 0x8000000000000000,
    ;
    assert(pow2(125) == 0x20000000000000000000000000000000) by (nonlinear_arith)
        requires
            pow2(125) == pow2(62) * pow2(63),
            pow2(62) == 0x4000000000000000,
            pow2(63) == 0x8000000000000000,
    ;
    assert(pow2(127) == 0x80000000000000000000000000000000) by (nonlinear_arith)
        requires
            pow2(127) == pow2(63) * pow2(64),
            pow2(63) == 0x8000000000000000,
            pow2(64) == 0x10000000000000000,
    ;
    assert(pow2(252) == 0x1000000000000000000000000000000000000000000000000000000000000000)
        by (nonlinear_arith)
        requires
            pow2(252) == pow2(126) * pow2(126),
            pow2(126) == 0x40000000000000000000000000000000,
    ;
    assert(pow2(253) == 0x2000000000000000000000000000000000000000000000000000000000000000)
        by (nonlinear_arith)
        requires
            pow2(253) == pow2(126) * pow2(127),
            pow2(126) == 0x40000000000000000000000000000000,
            pow2(127) == 0x80000000000000000000000000000000,
    ;
    assert(pow2(250) == 0x400000000000000000000000000000000000000000000000000000000000000)
        by (nonlinear_arith)
        requires
            pow2(250) == pow2(125) * pow2(125),
            pow2(125) == 0x20000000000000000000000000000000,
    ;
    assert(pow2(251) == 0x800000000000000000000000000000000000000000000000000000000000000)
        by (nonlinear_arith)
        requires
            pow2(251) == pow2(125) * pow2(126),
            pow2(125) == 0x20000000000000000000000000000000,
            pow2(126) == 0x40000000000000000000000000000000,
    ;
}

/// Little-endian bits of a 4-limb little-endian integer, with `top` bits
/// kept of the highest limb.
fn limbs_to_bits(l0: u64, l1: u64, l2: u64, l3: u64, top: usize) -> (r: Vec<bool>)
    requires
        1 <= top <= 64,
        (l3 as nat) < pow2(top as nat),
    ensures
        r@.len() == 192 + top,
        bits_value(r@) == l0 + pow2(64) * (l1 as nat) + pow2(128) * (l2 as nat) + pow2(192) * (
        l3 as nat),
{
    let mut r = uint_to_bits(l0 as u128, 64);
    let mut b1 = uint_to_bits(l1 as u128, 64);
    let mut b2 = uint_to_bits(l2 as u128, 64);
    let mut b3 = uint_to_bits(l3 as u128, top);
    proof {
        lemma_nat_bits_len(l0 as nat, 64);
        lemma_nat_bits_len(l1 as nat, 64);
        lemma_nat_bits_len(l2 as nat, 64);
        lemma_nat_bits_len(l3 as nat, top as nat);
        lemma2_to64();
        lemma_bits_value_nat_bits(l0 as nat, 64);
        lemma_bits_value_nat_bits(l1 as nat, 64);
        lemma_bits_value_nat_bits(l2 as nat, 64);
        lemma_bits_value_nat_bits(l3 as nat, top as nat);
        lemma_small_mod(l0 as nat, pow2(64));
        lemma_small_mod(l1 as nat, pow2(64));
        lemma_small_mod(l2 as nat, pow2(64));
        lemma_small_mod(l3 as nat, pow2(top as nat));
        lemma_bits_value_append(b2@, b3@);
        lemma_bits_value_append(b1@, b2@ + b3@);
        lemma_bits_value_append(r@, b1@ + (b2@ + b3@));
        lemma_pow2_adds(64, 64);
        lemma_pow2_adds(64, 128);
        let p64 = pow2(64);
        let p128 = pow2(128);
        assert(p64 * ((l1 as nat) + p64 * ((l2 as nat) + p64 * (l3 as nat))) == p64 * (l1 as nat)
            + p128 * (l2 as nat) + (p64 * p128) * (l3 as nat)) by (nonlinear_arith)
            requires
                p128 == p64 * p64,
        ;
    }
    let ghost whole = r@ + (b1@ + (b2@ + b3@));
    b2.append(&mut b3);
    b1.append(&mut b2);
    r.append(&mut b1);
    proof {
        assert(r@ =~= whole);
    }
    r
}

/// The field modulus as 253 little-endian bits.
pub fn field_modulus_bits() -> (r: Vec<bool>)
    ensures
        r@.len() == 253,
        bits_value(r@) == field_modulus(),
{
    proof {
        lemma2_to64();
        vstd::arithmetic::power2::lemma2_to64_rest();
        lemma_pow2_adds(64, 64);
        lemma_pow2_adds(64, 128);
    }
    let r = limbs_to_bits(
        725501752471715841u64,
        6461107452199829505u64,
        6968279316240510977u64,
        1345280370688173398u64,
        61,
    );
    r
}

/// The scalar modulus as 251 little-endian bits.
pub fn scalar_modulus_bits() -> (r: Vec<bool>)
    ensures
        r@.len() == 251,
        bits_value(r@) == scalar_modulus(),
{
    proof {
        lemma2_to64();
        vstd::arithmetic::power2::lemma2_to64_rest();
        lemma_pow2_adds(64, 64);
        lemma_pow2_adds(64, 128);
    }
    let r = limbs_to_bits(
        13356249993388743167u64,
        5950279507993463550u64,
        10965441865914903552u64,
        336320092672043349u64,
        59,
    );
    r
}

/// A canonical element of the machine's prime field.
pub struct FieldElement {
    bits: Vec<bool>,
}

impl View for FieldElement {
    type V = Seq<bool>;

    closed spec fn view(&self) -> Seq<bool> {
        self.bits@
    }
}

impl FieldElement {
    /// The representation is exactly 253 bits and denotes a value below the
    /// field modulus.
    pub open spec fn wf(&self) -> bool {
        &&& self@.len() == 253
        &&& bits_value(self@) < field_modulus()
    }

    /// The numeric value of this element.
    pub open spec fn value(&self) -> nat {
        bits_value(self@)
    }

    /// A copy of the element's little-endian bits.
    pub fn bits_le(&self) -> (r: Vec<bool>)
        ensures
            r@ == self@,
    {
        copy_bits(&self.bits)
    }
}

impl Clone for FieldElement {
    fn clone(&self) -> (r: Self)
        ensures
            r@ == self@,
    {
        FieldElement { bits: copy_bits(&self.bits) }
    }
}

/// A canonical element of the scalar domain.
pub struct Scalar {
    bits: Vec<bool>,
}

impl View for Scalar {
    type V = Seq<bool>;

    closed spec fn view(&self) -> Seq<bool> {
        self.bits@
    }
}

impl Scalar {
    /// The representation is exactly 251 bits and denotes a value below the
    /// scalar modulus.
    pub open spec fn wf(&self) -> bool {
        &&& self@.len() == 251
        &&& bits_value(self@) < scalar_modulus()
    }

    /// The numeric value of this scalar.
    pub open spec fn value(&self) -> nat {
        bits_value(self@)
    }

    /// A copy of the scalar's little-endian bits.
    pub fn bits_le(&self) -> (r: Vec<bool>)
        ensures
            r@ == self@,
    {
        copy_bits(&self.bits)
    }

    /// The scalar embedded into the field: the same bits, zero-extended.
    pub fn to_field(&self) -> (r: FieldElement)
        requires
            self.wf(),
        ensures
            r.wf(),
            r@ == pad_false(self@, 253),
    {
        let bits = copy_bits(&self.bits);
        field_from_data_bits(bits.as_slice())
    }
}

impl Clone for Scalar {
    fn clone(&self) -> (r: Self)
        ensures
            r@ == self@,
    {
        Scalar { bits: copy_bits(&self.bits) }
    }
}

fn copy_bits(bits: &Vec<bool>) -> (r: Vec<bool>)
    ensures
        r@ == bits@,
{
    slice_to_vec_bool(bits.as_slice())
}

/// Builds the field element whose low bits are `bits`; at most 252 data
/// bits always fit below the modulus.
pub fn field_from_data_bits(bits: &[bool]) -> (r: FieldElement)
    requires
        bits@.len() <= 252,
    ensures
        r.wf(),
        r@ == pad_false(bits@, 253),
{
    let v = field_from_data_bits_any(bits, 253);
    proof {
        lemma_bits_value_pad(bits@, 253);
        lemma_bits_value_bound(bits@);
        lemma_pow2_252_lt_field_modulus();
        if bits@.len() < 252 {
            lemma_pow2_strictly_increases(bits@.len(), 252);
        }
    }
    FieldElement { bits: v }
}

fn slice_to_vec_bool(bits: &[bool]) -> (r: Vec<bool>)
    ensures
        r@ == bits@,
{
    let mut r: Vec<bool> = Vec::new();
    let n = bits.len();
    let mut i: usize = 0;
    while i < n
        invariant
            i <= n,
            n == bits@.len(),
            r@ == bits@.take(i as int),
        decreases n - i,
    {
        r.push(bits[i]);
        proof {
            assert(bits@.take(i as int + 1) =~= bits@.take(i as int).push(bits@[i as int]));
        }
        i = i + 1;
    }
    proof {
        assert(bits@.take(n as int) =~= bits@);
    }
    r
}

/// Rebuilds a field element from little-endian bits. Succeeds exactly when
/// the bits denote a value below the field modulus; bits past the 253rd
/// must then be zero, and the element's bits are the canonical expansion of
/// that value.
pub fn field_from_bits_le(bits: &[bool]) -> (r: Option<FieldElement>)
    ensures
        r is Some <==> bits_value(bits@) < field_modulus(),
        r matches Some(f) ==> f.wf() && f@ == nat_bits(bits_value(bits@), 253),
{
    from_bits_checked(bits, true)
}

/// Rebuilds a scalar from little-endian bits, succeeding exactly when they
/// denote a value below the scalar modulus.
pub fn scalar_from_bits_le(bits: &[bool]) -> (r: Option<Scalar>)
    ensures
        r is Some <==> bits_value(bits@) < scalar_modulus(),
        r matches Some(s) ==> s.wf() && s@ == nat_bits(bits_value(bits@), 251),
{
    let r = from_bits_checked(bits, false);
    match r {
        Some(f) => Some(Scalar { bits: f.bits }),
        None => None,
    }
}

/// Shared canonical-form check against either modulus.
fn from_bits_checked(bits: &[bool], field: bool) -> (r: Option<FieldElement>)
    ensures
        ({
            let m = if field {
                field_modulus()
            } else {
                scalar_modulus()
            };
            let w = if field {
                253nat
            } else {
                251nat
            };
            &&& (r is Some <==> bits_value(bits@) < m)
            &&& (r matches Some(f) ==> f@.len() == w && bits_value(f@) < m && f@ == nat_bits(
                bits_value(bits@),
                w,
            ))
        }),
{
    let width: usize = if field {
        253
    } else {
        251
    };
    let n = bits.len();
    // Any set bit at or above the width makes the value at least 2^width,
    // which both moduli lie below.
    let mut i: usize = width;
    while i < n
        invariant
            width <= i,
            n == bits@.len(),
            width == (if field { 253usize } else { 251usize }),
            forall|j: int| width <= j < i && j < n ==> !bits@[j],
        decreases n - i,
    {
        if bits[i] {
            proof {
                let m: nat = if field {
                    field_modulus()
                } else {
                    scalar_modulus()
                };
                let w: nat = if field {
                    253nat
                } else {
                    251nat
                };
                assert(bits@ =~= bits@.take(i as int) + bits@.skip(i as int));
                lemma_bits_value_append(bits@.take(i as int), bits@.skip(i as int));
                assert(bits@.skip(i as int)[0]);
                assert(bits_value(bits@.skip(i as int)) >= 1);
                lemma_pow2_252_lt_field_modulus();
                if (i as nat) > w {
                    lemma_pow2_strictly_increases(w, i as nat);
                }
                vstd::arithmetic::power2::lemma_pow2_pos(i as nat);
                assert(pow2(i as nat) * bits_value(bits@.skip(i as int)) >= pow2(i as nat)) by (
                nonlinear_arith)
                    requires
                        bits_value(bits@.skip(i as int)) >= 1,
                        pow2(i as nat) > 0,
                ;
                assert(w == width as nat);
                assert(pow2(i as nat) >= pow2(w));
                assert(bits_value(bits@) >= pow2(w));
                assert(m < pow2(w));
            }
            return None;
        }
        i = i + 1;
    }
    let prefix_len = if n < width {
        n
    } else {
        width
    };
    let prefix = vstd::slice::slice_subrange(bits, 0, prefix_len);
    proof {
        if n > width {
            assert(prefix@ =~= bits@.take(width as int));
            assert(bits@ =~= bits@.take(width as int) + bits@.skip(width as int));
            lemma_bits_value_append(bits@.take(width as int), bits@.skip(width as int));
            assert(forall|k: int|
                0 <= k < bits@.skip(width as int).len() ==> !bits@.skip(width as int)[k]);
            lemma_bits_value_all_false(bits@.skip(width as int));
            assert(bits_value(bits@) == bits_value(prefix@) + pow2(width as nat) * 0);
            assert(bits_value(bits@) == bits_value(prefix@));
        } else {
            assert(prefix@ =~= bits@);
        }
    }
    let padded = field_from_data_bits_any(prefix, width);
    let modulus = if field {
        field_modulus_bits()
    } else {
        scalar_modulus_bits()
    };
    let ok = bits_lt(padded.as_slice(), modulus.as_slice());
    proof {
        let m: nat = if field {
            field_modulus()
        } else {
            scalar_modulus()
        };
        let w: nat = if field {
            253nat
        } else {
            251nat
        };
        assert(w == width as nat);
        lemma_bits_value_pad(prefix@, width as nat);
        assert(bits_value(padded@) == bits_value(bits@));
        if bits_value(bits@) < m {
            lemma_nat_bits_of_bits_value(padded@);
        }
    }
    if ok {
        Some(FieldElement { bits: padded })
    } else {
        None
    }
}

/// Zero-extends `bits` to exactly `width` bits.
fn field_from_data_bits_any(bits: &[bool], width: usize) -> (r: Vec<bool>)
    requires
        bits@.len() <= width,
    ensures
        r@ == pad_false(bits@, width as nat),
{
    let mut v = slice_to_vec_bool(bits);
    while v.len() < width
        invariant
            v@.len() <= width,
            bits@.len() <= v@.len(),
            v@ == pad_false(bits@, v@.len() as nat),
        decreases width - v@.len(),
    {
        v.push(false);
        proof {
            assert(v@ =~= pad_false(bits@, v@.len() as nat));
        }
    }
    proof {
        assert(v@ =~= pad_false(bits@, width as nat));
    }
    v
}

} // verus!
