//! The external hash capabilities, one per opcode tag.
//!
//! Each capability is a fixed-arity Poseidon pseudorandom function taking
//! one seed field element and an ordered sequence of field elements, and
//! returning one field element. The digests are deterministic functions of
//! their arguments alone; their values are named, not restated, since the
//! permutation takes pages to write down and nothing here re-runs it.
use vstd::prelude::*;
use crate::field::FieldElement;
use snarkvm_console_algorithms::{Poseidon2, Poseidon4, Poseidon8};
use snarkvm_console_network_environment::{Console, FromBits};
use snarkvm_console_network_environment::PRF as _;
use snarkvm_console_network_environment::ToBits as _;
use snarkvm_console_types::Field;

verus! {

/// The 2-ary Poseidon PRF digest of a seed and an input sequence, as bit
/// patterns of canonical field elements.
pub uninterp spec fn psd2_of(seed: Seq<bool>, input: Seq<Seq<bool>>) -> Seq<bool>;

/// The 4-ary Poseidon PRF digest of a seed and an input sequence.
pub uninterp spec fn psd4_of(seed: Seq<bool>, input: Seq<Seq<bool>>) -> Seq<bool>;

/// The 8-ary Poseidon PRF digest of a seed and an input sequence.
pub uninterp spec fn psd8_of(seed: Seq<bool>, input: Seq<Seq<bool>>) -> Seq<bool>;

/// The bit patterns of a field-element sequence.
pub open spec fn fe_views(s: Seq<FieldElement>) -> Seq<Seq<bool>> {
    s.map_values(|f: FieldElement| f@)
}

/// Relies on snarkvm's `Poseidon2::prf` over the console environment (the
/// "AleoPoseidon2" domain): deterministic in seed and input, and returns a
/// canonical field element.
#[verifier::external_body]
pub fn prf_psd2(seed: &FieldElement, input: &Vec<FieldElement>) -> (r: FieldElement)
    requires
        seed.wf(),
        forall|i: int| 0 <= i < input@.len() ==> (#[trigger] input@[i]).wf(),
    ensures
        r.wf(),
        r@ == psd2_of(seed@, fe_views(input@)),
{
    let s = Field::<Console>::from_bits_le(&seed.bits_le()).unwrap();
    let ins: Vec<Field<Console>> =
        input.iter().map(|f| Field::<Console>::from_bits_le(&f.bits_le()).unwrap()).collect();
    let poseidon = Poseidon2::<Console>::setup("AleoPoseidon2").unwrap();
    let digest = poseidon.prf(&s, &ins).unwrap();
    let mut bits = digest.to_bits_le();
    bits.resize(253, false);
    crate::field::field_from_bits_le(&bits).unwrap()
}

/// Relies on snarkvm's `Poseidon4::prf` over the console environment (the
/// "AleoPoseidon4" domain): deterministic in seed and input, and returns a
/// canonical field element.
#[verifier::external_body]
pub fn prf_psd4(seed: &FieldElement, input: &Vec<FieldElement>) -> (r: FieldElement)
    requires
        seed.wf(),
        forall|i: int| 0 <= i < input@.len() ==> (#[trigger] input@[i]).wf(),
    ensures
        r.wf(),
        r@ == psd4_of(seed@, fe_views(input@)),
{
    let s = Field::<Console>::from_bits_le(&seed.bits_le()).unwrap();
    let ins: Vec<Field<Console>> =
        input.iter().map(|f| Field::<Console>::from_bits_le(&f.bits_le()).unwrap()).collect();
    let poseidon = Poseidon4::<Console>::setup("AleoPoseidon4").unwrap();
    let digest = poseidon.prf(&s, &ins).unwrap();
    let mut bits = digest.to_bits_le();
    bits.resize(253, false);
    crate::field::field_from_bits_le(&bits).unwrap()
}

/// Relies on snarkvm's `Poseidon8::prf` over the console environment (the
/// "AleoPoseidon8" domain): deterministic in seed and input, and returns a
/// canonical field element.
#[verifier::external_body]
pub fn prf_psd8(seed: &FieldElement, input: &Vec<FieldElement>) -> (r: FieldElement)
    requires
        seed.wf(),
        forall|i: int| 0 <= i < input@.len() ==> (#[trigger] input@[i]).wf(),
    ensures
        r.wf(),
        r@ == psd8_of(seed@, fe_views(input@)),
{
    let s = Field::<Console>::from_bits_le(&seed.bits_le()).unwrap();
    let ins: Vec<Field<Console>> =
        input.iter().map(|f| Field::<Console>::from_bits_le(&f.bits_le()).unwrap()).collect();
    let poseidon = Poseidon8::<Console>::setup("AleoPoseidon8").unwrap();
    let digest = poseidon.prf(&s, &ins).unwrap();
    let mut bits = digest.to_bits_le();
    bits.resize(253, false);
    crate::field::field_from_bits_le(&bits).unwrap()
}

} // verus!
