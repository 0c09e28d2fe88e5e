//! Literal coercion: normalizing a literal sequence into field elements.
//!
//! A sequence made only of field-friendly literals (address, field, group,
//! scalar) maps element-for-element to each literal's direct field
//! projection. Any other sequence is serialized to one little-endian
//! bitstring in input order and repacked into field elements of at most
//! 252 data bits each. The two strategies are never mixed: the branch is
//! decided once for the whole sequence.
use vstd::prelude::*;
use vstd::arithmetic::div_mod::{lemma_fundamental_div_mod, lemma_mod_bound};
use crate::field::{FieldElement, pad_false, field_from_data_bits};
use crate::literal::{Literal, LiteralV, lv_wf, lv_is_field_friendly, lv_bits, lv_field_projection, literals_view};

verus! {

/// Every literal in the sequence is field-friendly.
pub open spec fn seq_is_field_friendly(s: Seq<LiteralV>) -> bool {
    forall|i: int| 0 <= i < s.len() ==> lv_is_field_friendly(#[trigger] s[i])
}

/// The concatenated little-endian serialization of the sequence, in input
/// order.
pub open spec fn seq_bits(s: Seq<LiteralV>) -> Seq<bool>
    decreases s.len(),
{
    if s.len() == 0 {
        Seq::empty()
    } else {
        seq_bits(s.drop_last()) + lv_bits(s.last())
    }
}

/// How many field elements a bitstring of length `n` packs into, at 252
/// data bits each (the last chunk may be short).
pub open spec fn chunk_count(n: nat) -> nat {
    ((n + 251) / 252) as nat
}

/// The `i`-th 252-bit chunk of `bits`, zero-extended to a 253-bit field
/// element pattern.
pub open spec fn chunk_bits(bits: Seq<bool>, i: int) -> Seq<bool> {
    pad_false(
        bits.subrange(
            252 * i,
            if 252 * i + 252 <= bits.len() {
                252 * i + 252
            } else {
                bits.len() as int
            },
        ),
        253,
    )
}

/// The bit patterns of the field elements that coercion yields.
pub open spec fn coerce_spec(s: Seq<LiteralV>) -> Seq<Seq<bool>> {
    if seq_is_field_friendly(s) {
        s.map_values(|l: LiteralV| lv_field_projection(l))
    } else {
        Seq::new(chunk_count(seq_bits(s).len()), |i: int| chunk_bits(seq_bits(s), i))
    }
}

/// Whether a whole literal sequence is field-friendly.
pub fn all_field_friendly(input: &Vec<Literal>) -> (r: bool)
    ensures
        r == seq_is_field_friendly(literals_view(input@)),
{
    let n = input.len();
    let mut i: usize = 0;
    while i < n
        invariant
            i <= n,
            n == input@.len(),
            forall|j: int| 0 <= j < i ==> lv_is_field_friendly(#[trigger] literals_view(input@)[j]),
        decreases n - i,
    {
        if !input[i].is_field_friendly() {
            proof {
                assert(!lv_is_field_friendly(literals_view(input@)[i as int]));
            }
            return false;
        }
        i = i + 1;
    }
    true
}

/// Serializes the whole sequence to one little-endian bitstring, in input
/// order.
pub fn serialize_literals(input: &Vec<Literal>) -> (r: Vec<bool>)
    ensures
        r@ == seq_bits(literals_view(input@)),
{
    let n = input.len();
    let mut r: Vec<bool> = Vec::new();
    let mut i: usize = 0;
    proof {
        assert(literals_view(input@).take(0) =~= Seq::<LiteralV>::empty());
    }
    while i < n
        invariant
            i <= n,
            n == input@.len(),
            r@ == seq_bits(literals_view(input@).take(i as int)),
        decreases n - i,
    {
        let mut bits = input[i].to_bits_le();
        proof {
            let lv = literals_view(input@);
            assert(lv.take(i as int + 1).drop_last() =~= lv.take(i as int));
            assert(lv.take(i as int + 1).last() == lv[i as int]);
        }
        r.append(&mut bits);
        i = i + 1;
    }
    proof {
        assert(literals_view(input@).take(n as int) =~= literals_view(input@));
    }
    r
}

/// Coerces an ordered literal sequence into field elements: the direct
/// projections when every literal is field-friendly, otherwise the
/// bit-serialize-and-repack fallback. Total over well-formed inputs and a
/// pure function of them.
pub fn to_field_elements(input: &Vec<Literal>) -> (r: Vec<FieldElement>)
    requires
        forall|i: int| 0 <= i < input@.len() ==> lv_wf(#[trigger] literals_view(input@)[i]),
    ensures
        r@.len() == coerce_spec(literals_view(input@)).len(),
        forall|i: int|
            0 <= i < r@.len() ==> #[trigger] r@[i]@ == coerce_spec(literals_view(input@))[i],
        forall|i: int| 0 <= i < r@.len() ==> #[trigger] r@[i].wf(),
{
    let ghost lv = literals_view(input@);
    let n = input.len();
    if all_field_friendly(input) {
        let mut r: Vec<FieldElement> = Vec::new();
        let mut i: usize = 0;
        while i < n
            invariant
                i <= n,
                n == input@.len(),
                seq_is_field_friendly(lv),
                lv == literals_view(input@),
                forall|j: int| 0 <= j < n ==> lv_wf(#[trigger] lv[j]),
                r@.len() == i,
                forall|j: int| 0 <= j < i ==> #[trigger] r@[j]@ == lv_field_projection(lv[j]),
                forall|j: int| 0 <= j < i ==> #[trigger] r@[j].wf(),
            decreases n - i,
        {
            proof {
                assert(input@[i as int]@ == lv[i as int]);
            }
            let fe = input[i].to_field_projection();
            r.push(fe);
            i = i + 1;
        }
        proof {
            assert(coerce_spec(lv) == lv.map_values(|l: LiteralV| lv_field_projection(l)));
        }
        r
    } else {
        let bits = serialize_literals(input);
        let total = bits.len();
        let mut r: Vec<FieldElement> = Vec::new();
        let mut start: usize = 0;
        while start < total
            invariant
                start <= total,
                total == bits@.len(),
                bits@ == seq_bits(lv),
                !seq_is_field_friendly(lv),
                lv == literals_view(input@),
                start == 252 * r@.len() || (start == total && total <= 252 * r@.len()),
                r@.len() == 0 || 252 * (r@.len() - 1) < total,
                forall|j: int| 0 <= j < r@.len() ==> #[trigger] r@[j]@ == chunk_bits(bits@, j),
                forall|j: int| 0 <= j < r@.len() ==> #[trigger] r@[j].wf(),
            decreases total - start,
        {
            let end = if total - start < 252 {
                total
            } else {
                start + 252
            };
            let chunk = vstd::slice::slice_subrange(bits.as_slice(), start, end);
            let fe = field_from_data_bits(chunk);
            proof {
                assert(fe@ == chunk_bits(bits@, r@.len() as int));
            }
            r.push(fe);
            start = end;
        }
        proof {
            lemma_chunk_count_exact(total as nat, r@.len() as nat);
        }
        r
    }
}

/// If `252(k-1) < n <= 252k` (or `n == k == 0`), then `k` chunks cover `n`
/// bits.
proof fn lemma_chunk_count_exact(n: nat, k: nat)
    requires
        k == 0 ==> n == 0,
        k > 0 ==> 252 * (k - 1) < n,
        n <= 252 * k,
    ensures
        chunk_count(n) == k,
{
    lemma_fundamental_div_mod((n + 251) as int, 252);
    lemma_mod_bound((n + 251) as int, 252);
}

/// Direct path: one projection per literal, order preserved, never a
/// repacked value.
pub proof fn lemma_coercion_direct(s: Seq<LiteralV>)
    requires
        seq_is_field_friendly(s),
    ensures
        coerce_spec(s).len() == s.len(),
        forall|i: int| 0 <= i < s.len() ==> #[trigger] coerce_spec(s)[i] == lv_field_projection(s[i]),
{
}

/// Fallback path: the packed output determines the serialized input
/// bitstring bit for bit — bit `j` of the input stream sits at offset
/// `j % 252` of output element `j / 252`, and all bits of an output
/// element beyond its chunk are zero.
pub proof fn lemma_coercion_fallback(s: Seq<LiteralV>)
    requires
        !seq_is_field_friendly(s),
    ensures
        coerce_spec(s).len() == chunk_count(seq_bits(s).len()),
        forall|j: int|
            0 <= j < seq_bits(s).len() ==> #[trigger] coerce_spec(s)[j / 252][j % 252] == seq_bits(
                s,
            )[j],
        forall|i: int, k: int|
            0 <= i < coerce_spec(s).len() && 0 <= k < 253 && 252 * i + k >= seq_bits(s).len()
                ==> !(#[trigger] coerce_spec(s)[i][k]),
{
    let b = seq_bits(s);
    let n = b.len() as int;
    assert forall|j: int| 0 <= j < n implies #[trigger] coerce_spec(s)[j / 252][j % 252] == b[j] by {
        lemma_fundamental_div_mod(j, 252);
        lemma_mod_bound(j, 252);
        let i = j / 252;
        let k = j % 252;
        assert(0 <= i);
        assert(252 * i <= j < 252 * i + 252);
        assert(i < chunk_count(n as nat)) by {
            lemma_fundamental_div_mod((n + 251) as int, 252);
            lemma_mod_bound((n + 251) as int, 252);
        };
        assert(coerce_spec(s)[i] == chunk_bits(b, i));
    };
    assert forall|i: int, k: int|
        0 <= i < coerce_spec(s).len() && 0 <= k < 253 && 252 * i + k >= n implies !(
    #[trigger] coerce_spec(s)[i][k]) by {
        assert(coerce_spec(s)[i] == chunk_bits(b, i));
    };
}

} // verus!
