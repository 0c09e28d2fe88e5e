//! Little-endian bit sequences and their numeric values.
//!
//! Every value the machine serializes — integers, field elements, scalars,
//! group coordinates — is reduced to a little-endian sequence of bits. This
//! module defines the numeric value of such a sequence, the canonical bit
//! expansion of a natural number, and the executable conversions between
//! bits, bytes and machine integers that the codecs and the coercion
//! algorithm build on.
use vstd::prelude::*;
use vstd::arithmetic::power2::{pow2, lemma_pow2_unfold, lemma_pow2_adds, lemma_pow2_pos, lemma_pow2_strictly_increases, lemma2_to64};

verus! {

/// The numeric value of a little-endian bit sequence: bit `i` weighs `2^i`.
pub open spec fn bits_value(s: Seq<bool>) -> nat
    decreases s.len(),
{
    if s.len() == 0 {
        0
    } else {
        (if s[0] { 1nat } else { 0nat }) + 2 * bits_value(s.drop_first())
    }
}

/// The little-endian bit expansion of `v`, truncated or zero-padded to `n` bits.
pub open spec fn nat_bits(v: nat, n: nat) -> Seq<bool>
    decreases n,
{
    if n == 0 {
        Seq::empty()
    } else {
        seq![v % 2 == 1] + nat_bits(v / 2, (n - 1) as nat)
    }
}

pub proof fn lemma_nat_bits_len(v: nat, n: nat)
    ensures
        nat_bits(v, n).len() == n,
    decreases n,
{
    if n > 0 {
        lemma_nat_bits_len(v / 2, (n - 1) as nat);
    }
}

/// A bit sequence of length `n` denotes a value below `2^n`.
pub proof fn lemma_bits_value_bound(s: Seq<bool>)
    ensures
        bits_value(s) < pow2(s.len()),
    decreases s.len(),
{
    if s.len() == 0 {
        assert(pow2(0) == 1) by { lemma2_to64(); };
    } else {
        lemma_bits_value_bound(s.drop_first());
        lemma_pow2_unfold(s.len());
    }
}

/// Expanding a value to `n` bits and reading it back yields the value mod `2^n`.
pub proof fn lemma_bits_value_nat_bits(v: nat, n: nat)
    ensures
        bits_value(nat_bits(v, n)) == v % pow2(n),
    decreases n,
{
    if n == 0 {
        assert(pow2(0) == 1) by { lemma2_to64(); };
    } else {
        let s = nat_bits(v, n);
        lemma_bits_value_nat_bits(v / 2, (n - 1) as nat);
        assert(s.drop_first() =~= nat_bits(v / 2, (n - 1) as nat));
        lemma_pow2_unfold(n);
        assert(v % (2 * pow2((n - 1) as nat)) == v % 2 + 2 * ((v / 2) % pow2((n - 1) as nat)))
            by {
            lemma_pow2_pos((n - 1) as nat);
            vstd::arithmetic::div_mod::lemma_breakdown(v as int, 2, pow2((n - 1) as nat) as int);
        };
    }
}

/// Reading a bit sequence back from its value reproduces the sequence exactly.
pub proof fn lemma_nat_bits_of_bits_value(s: Seq<bool>)
    ensures
        nat_bits(bits_value(s), s.len()) == s,
    decreases s.len(),
{
    if s.len() > 0 {
        let v = bits_value(s);
        lemma_nat_bits_of_bits_value(s.drop_first());
        assert(v % 2 == (if s[0] { 1nat } else { 0nat }));
        assert(v / 2 == bits_value(s.drop_first()));
        assert(nat_bits(v, s.len()) =~= s);
    }
}

/// Concatenation weighs the right part by `2^(left length)`.
pub proof fn lemma_bits_value_append(a: Seq<bool>, b: Seq<bool>)
    ensures
        bits_value(a + b) == bits_value(a) + pow2(a.len()) * bits_value(b),
    decreases a.len(),
{
    if a.len() == 0 {
        assert(a + b =~= b);
        assert(pow2(0) == 1) by { lemma2_to64(); };
    } else {
        lemma_bits_value_append(a.drop_first(), b);
        assert((a + b).drop_first() =~= a.drop_first() + b);
        lemma_pow2_unfold(a.len());
        let x = bits_value(a.drop_first());
        let p = pow2((a.len() - 1) as nat);
        let y = bits_value(b);
        assert(2 * (x + p * y) == 2 * x + (2 * p) * y) by (nonlinear_arith);
    }
}

/// The little-endian bit concatenation of a byte sequence, eight bits per byte.
pub open spec fn bytes_bits(s: Seq<u8>) -> Seq<bool>
    decreases s.len(),
{
    if s.len() == 0 {
        Seq::empty()
    } else {
        bytes_bits(s.drop_last()) + nat_bits(s.last() as nat, 8)
    }
}

pub proof fn lemma_bytes_bits_len(s: Seq<u8>)
    ensures
        bytes_bits(s).len() == 8 * s.len(),
    decreases s.len(),
{
    if s.len() > 0 {
        lemma_bytes_bits_len(s.drop_last());
        lemma_nat_bits_len(s.last() as nat, 8);
    }
}

/// The bytes whose little-endian bit concatenation is `s` (whose length
/// must be a multiple of eight).
pub open spec fn bytes_of_bits(s: Seq<bool>) -> Seq<u8>
    decreases s.len(),
{
    if s.len() < 8 {
        Seq::empty()
    } else {
        bytes_of_bits(s.take(s.len() - 8)) + seq![
            (bits_value(s.skip(s.len() - 8)) % 256) as u8,
        ]
    }
}

/// Packing bits into bytes and unpacking them again is the identity.
pub proof fn lemma_bytes_of_bits(s: Seq<bool>)
    requires
        s.len() % 8 == 0,
    ensures
        bytes_of_bits(s).len() == s.len() / 8,
        bytes_bits(bytes_of_bits(s)) == s,
    decreases s.len(),
{
    if s.len() >= 8 {
        let front = s.take(s.len() - 8);
        let back = s.skip(s.len() - 8);
        lemma_bytes_of_bits(front);
        lemma_bits_value_bound(back);
        assert(pow2(8) == 256) by { lemma2_to64(); };
        vstd::arithmetic::div_mod::lemma_small_mod(bits_value(back), 256);
        let b = bytes_of_bits(s);
        assert(b.drop_last() =~= bytes_of_bits(front));
        assert(b.last() as nat == bits_value(back));
        lemma_nat_bits_of_bits_value(back);
        assert(bytes_bits(b) =~= front + back);
        assert(s =~= front + back);
    }
}

/// At a highest differing position, the bit there decides the order.
pub proof fn lemma_bits_cmp_at(a: Seq<bool>, b: Seq<bool>, i: int)
    requires
        a.len() == b.len(),
        0 <= i < a.len(),
        a[i] != b[i],
        forall|j: int| i < j < a.len() ==> a[j] == b[j],
    ensures
        (bits_value(a) < bits_value(b)) <==> (!a[i] && b[i]),
{
    let n = a.len() as int;
    let low_a = a.take(i);
    let low_b = b.take(i);
    let hi_a = seq![a[i]] + a.skip(i + 1);
    let hi_b = seq![b[i]] + b.skip(i + 1);
    assert(a =~= low_a + hi_a);
    assert(b =~= low_b + hi_b);
    lemma_bits_value_append(low_a, hi_a);
    lemma_bits_value_append(low_b, hi_b);
    assert(a.skip(i + 1) =~= b.skip(i + 1));
    let v = bits_value(a.skip(i + 1));
    assert(hi_a.drop_first() =~= a.skip(i + 1));
    assert(hi_b.drop_first() =~= b.skip(i + 1));
    lemma_bits_value_bound(low_a);
    lemma_bits_value_bound(low_b);
    let p = pow2(i as nat);
    assert(p * ((if a[i] { 1nat } else { 0nat }) + 2 * v) == (if a[i] { p } else { 0nat }) + p * (2
        * v)) by (nonlinear_arith);
    assert(p * ((if b[i] { 1nat } else { 0nat }) + 2 * v) == (if b[i] { p } else { 0nat }) + p * (2
        * v)) by (nonlinear_arith);
}

/// Little-endian bit expansion of the low `n` bits of a machine integer.
pub fn uint_to_bits(v: u128, n: usize) -> (r: Vec<bool>)
    ensures
        r@ == nat_bits(v as nat, n as nat),
{
    let mut r: Vec<bool> = Vec::new();
    let mut cur: u128 = v;
    let mut i: usize = 0;
    proof {
        assert(nat_bits(v as nat, n as nat) =~= r@ + nat_bits(v as nat, n as nat));
    }
    while i < n
        invariant
            i <= n,
            r@.len() == i,
            nat_bits(v as nat, n as nat) == r@ + nat_bits(cur as nat, (n - i) as nat),
        decreases n - i,
    {
        let b = cur % 2 == 1;
        proof {
            assert(nat_bits(cur as nat, (n - i) as nat) == seq![b] + nat_bits(
                (cur / 2) as nat,
                (n - i - 1) as nat,
            ));
            assert(r@ + nat_bits(cur as nat, (n - i) as nat) =~= r@.push(b) + nat_bits(
                (cur / 2) as nat,
                (n - i - 1) as nat,
            ));
        }
        r.push(b);
        cur = cur / 2;
        i = i + 1;
    }
    proof {
        assert(r@ + nat_bits(cur as nat, 0) =~= r@);
    }
    r
}

/// The numeric value of at most 128 little-endian bits.
pub fn bits_to_u128(s: &[bool]) -> (r: u128)
    requires
        s@.len() <= 128,
    ensures
        r as nat == bits_value(s@),
{
    let n = s.len();
    let mut r: u128 = 0;
    let mut i: usize = n;
    proof {
        assert(s@.skip(n as int) =~= Seq::empty());
    }
    while i > 0
        invariant
            i <= n,
            n == s@.len(),
            n <= 128,
            r as nat == bits_value(s@.skip(i as int)),
        decreases i,
    {
        i = i - 1;
        proof {
            lemma_bits_value_bound(s@.skip(i as int + 1));
            lemma_pow2_is_at_most_u128((n - i - 1) as nat);
            assert(s@.skip(i as int).drop_first() =~= s@.skip(i as int + 1));
        }
        r = 2 * r + (if s[i] {
            1
        } else {
            0
        });
    }
    proof {
        assert(s@.skip(0) =~= s@);
    }
    r
}

proof fn lemma_pow2_is_at_most_u128(n: nat)
    requires
        n <= 127,
    ensures
        pow2(n) <= 0x8000_0000_0000_0000_0000_0000_0000_0000,
{
    lemma2_to64();
    vstd::arithmetic::power2::lemma2_to64_rest();
    if n < 127 {
        lemma_pow2_strictly_increases(n, 127);
    }
    lemma_pow2_adds(63, 64);
}

/// Unpacks bytes into their little-endian bit concatenation.
pub fn bytes_to_bits(bytes: &[u8]) -> (r: Vec<bool>)
    ensures
        r@ == bytes_bits(bytes@),
{
    let n = bytes.len();
    let mut r: Vec<bool> = Vec::new();
    let mut i: usize = 0;
    proof {
        assert(bytes@.take(0) =~= Seq::<u8>::empty());
    }
    while i < n
        invariant
            i <= n,
            n == bytes@.len(),
            r@ == bytes_bits(bytes@.take(i as int)),
        decreases n - i,
    {
        let mut chunk = uint_to_bits(bytes[i] as u128, 8);
        proof {
            assert(bytes@.take(i as int + 1).drop_last() =~= bytes@.take(i as int));
            assert(bytes@.take(i as int + 1).last() == bytes@[i as int]);
        }
        r.append(&mut chunk);
        i = i + 1;
    }
    proof {
        assert(bytes@.take(n as int) =~= bytes@);
    }
    r
}

/// Packs a bit sequence whose length is a multiple of eight into bytes.
pub fn bits_to_bytes(bits: &[bool]) -> (r: Vec<u8>)
    requires
        bits@.len() % 8 == 0,
    ensures
        bytes_bits(r@) == bits@,
        r@.len() == bits@.len() / 8,
        r@ == bytes_of_bits(bits@),
{
    let n = bits.len();
    let mut r: Vec<u8> = Vec::new();
    let mut i: usize = 0;
    proof {
        assert(bits@.take(0) =~= Seq::<bool>::empty());
    }
    while 8 * i < n
        invariant
            8 * i <= n,
            n == bits@.len(),
            n % 8 == 0,
            r@.len() == i,
            bytes_bits(r@) == bits@.take(8 * i as int),
            r@ == bytes_of_bits(bits@.take(8 * i as int)),
        decreases n - 8 * i,
    {
        let chunk = vstd::slice::slice_subrange(bits, 8 * i, 8 * i + 8);
        let v = bits_to_u128(chunk);
        proof {
            lemma_bits_value_bound(chunk@);
            lemma2_to64();
        }
        let byte = v as u8;
        proof {
            lemma_nat_bits_of_bits_value(chunk@);
            assert(r@.push(byte).drop_last() =~= r@);
            assert(r@.push(byte).last() == byte);
            assert(bits@.take(8 * (i as int + 1)) =~= bits@.take(8 * i as int) + chunk@);
            let next = bits@.take(8 * (i as int + 1));
            assert(next.take(next.len() - 8) =~= bits@.take(8 * i as int));
            assert(next.skip(next.len() - 8) =~= chunk@);
            vstd::arithmetic::div_mod::lemma_small_mod(bits_value(chunk@), 256);
            assert(bytes_of_bits(next) =~= r@.push(byte));
        }
        r.push(byte);
        i = i + 1;
    }
    proof {
        assert(bits@.take(n as int) =~= bits@);
    }
    r
}

/// Compares two equally long little-endian bit sequences by numeric value.
pub fn bits_lt(a: &[bool], b: &[bool]) -> (r: bool)
    requires
        a@.len() == b@.len(),
    ensures
        r == (bits_value(a@) < bits_value(b@)),
{
    let n = a.len();
    let mut i: usize = n;
    while i > 0
        invariant
            i <= n,
            n == a@.len(),
            n == b@.len(),
            forall|j: int| i <= j < n ==> a@[j] == b@[j],
        decreases i,
    {
        i = i - 1;
        if a[i] != b[i] {
            proof {
                lemma_bits_cmp_at(a@, b@, i as int);
            }
            return !a[i] && b[i];
        }
    }
    proof {
        assert(a@ =~= b@);
    }
    false
}

} // verus!
