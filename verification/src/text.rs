//! The textual form of operands and the binary operation descriptor.
//!
//! The mnemonic body of every two-operand instruction is
//! `<first> <second> into <destination>`, single-space separated; the
//! opcode prefix is supplied by the surrounding instruction-list renderer,
//! not by this type. A register is `r` followed by its index in eight
//! uppercase hex digits; a boolean immediate is `true` or `false`; every
//! other immediate is its kind keyword followed by its value in a fixed
//! count of uppercase hex digits, most significant first.
use vstd::prelude::*;
use vstd::arithmetic::power2::{pow2, lemma2_to64};
use vstd::arithmetic::div_mod::lemma_small_mod;
use crate::bits::{
    bits_value, nat_bits, bits_to_u128, uint_to_bits, lemma_bits_value_bound,
    lemma_bits_value_nat_bits, lemma_nat_bits_len, lemma_nat_bits_of_bits_value,
};
use crate::field::{
    field_modulus, scalar_modulus, pad_false, field_from_bits_le, scalar_from_bits_le,
    lemma_bits_value_pad,
};
use crate::literal::{Literal, LiteralV, Group, Address, lv_bits, lv_wf};
use crate::operand::{Operand, OperandV, Register, BinaryOperation, OperationV, opv_wf};
use crate::bytes::lemma_lv_bits_len;

verus! {

/// Whether a byte is an uppercase hexadecimal digit.
pub open spec fn is_hex(c: u8) -> bool {
    (48 <= c <= 57) || (65 <= c <= 70)
}

/// The numeric value of an uppercase hexadecimal digit.
pub open spec fn hex_val(c: u8) -> nat {
    if 48 <= c <= 57 {
        (c - 48) as nat
    } else {
        (c - 55) as nat
    }
}

/// The uppercase hexadecimal digit of a nibble value.
pub open spec fn hex_char(d: nat) -> u8 {
    if d < 10 {
        (48 + d) as u8
    } else {
        (55 + d) as u8
    }
}

/// The hex rendering of a little-endian bit pattern, most significant
/// nibble first.
pub open spec fn hex_of_bits(bits: Seq<bool>) -> Seq<u8>
    decreases bits.len(),
{
    if bits.len() < 4 {
        Seq::empty()
    } else {
        seq![hex_char(bits_value(bits.skip(bits.len() - 4)))] + hex_of_bits(
            bits.take(bits.len() - 4),
        )
    }
}

/// The little-endian bit pattern a hex digit string denotes.
pub open spec fn bits_of_hex(h: Seq<u8>) -> Seq<bool>
    decreases h.len(),
{
    if h.len() == 0 {
        Seq::empty()
    } else {
        bits_of_hex(h.drop_first()) + nat_bits(hex_val(h[0]), 4)
    }
}

pub proof fn lemma_bits_of_hex_len(h: Seq<u8>)
    ensures
        bits_of_hex(h).len() == 4 * h.len(),
    decreases h.len(),
{
    if h.len() > 0 {
        lemma_bits_of_hex_len(h.drop_first());
        lemma_nat_bits_len(hex_val(h[0]), 4);
    }
}

/// Rendering to hex and reading the digits back is the identity.
pub proof fn lemma_hex_round(bits: Seq<bool>)
    requires
        bits.len() % 4 == 0,
    ensures
        hex_of_bits(bits).len() == bits.len() / 4,
        forall|j: int| 0 <= j < bits.len() / 4 ==> is_hex(#[trigger] hex_of_bits(bits)[j]),
        bits_of_hex(hex_of_bits(bits)) == bits,
    decreases bits.len(),
{
    if bits.len() >= 4 {
        let front = bits.take(bits.len() - 4);
        let last4 = bits.skip(bits.len() - 4);
        lemma_hex_round(front);
        lemma_bits_value_bound(last4);
        assert(pow2(4) == 16) by { lemma2_to64(); };
        let h = hex_of_bits(bits);
        assert(h.drop_first() =~= hex_of_bits(front));
        lemma_nat_bits_of_bits_value(last4);
        assert(bits_of_hex(h) == bits_of_hex(hex_of_bits(front)) + nat_bits(
            hex_val(hex_char(bits_value(last4))),
            4,
        ));
        assert(hex_val(hex_char(bits_value(last4))) == bits_value(last4));
        assert(bits_of_hex(h) =~= bits);
    } else {
        assert(bits =~= Seq::<bool>::empty());
        assert(bits_of_hex(hex_of_bits(bits)) =~= bits);
    }
}

/// `kw` stands at the front of `b`.
pub open spec fn starts(b: Seq<u8>, kw: Seq<u8>) -> bool {
    kw.len() <= b.len() && b.take(kw.len() as int) == kw
}

pub open spec fn kw_true() -> Seq<u8> {
    seq![116u8, 114u8, 117u8, 101u8]
}

pub open spec fn kw_false() -> Seq<u8> {
    seq![102u8, 97u8, 108u8, 115u8, 101u8]
}

pub open spec fn kw_into() -> Seq<u8> {
    seq![105u8, 110u8, 116u8, 111u8]
}

/// The kind keyword of a non-boolean literal.
pub open spec fn lit_keyword(l: LiteralV) -> Seq<u8> {
    match l {
        LiteralV::Address(_) => seq![97u8, 100u8, 100u8, 114u8, 101u8, 115u8, 115u8],
        LiteralV::Field(_) => seq![102u8, 105u8, 101u8, 108u8, 100u8],
        LiteralV::Group(_) => seq![103u8, 114u8, 111u8, 117u8, 112u8],
        LiteralV::Scalar(_) => seq![115u8, 99u8, 97u8, 108u8, 97u8, 114u8],
        LiteralV::I8(_) => seq![105u8, 56u8],
        LiteralV::I16(_) => seq![105u8, 49u8, 54u8],
        LiteralV::I32(_) => seq![105u8, 51u8, 50u8],
        LiteralV::I64(_) => seq![105u8, 54u8, 52u8],
        LiteralV::I128(_) => seq![105u8, 49u8, 50u8, 56u8],
        LiteralV::U8(_) => seq![117u8, 56u8],
        LiteralV::U16(_) => seq![117u8, 49u8, 54u8],
        LiteralV::U32(_) => seq![117u8, 51u8, 50u8],
        LiteralV::U64(_) => seq![117u8, 54u8, 52u8],
        LiteralV::U128(_) => seq![117u8, 49u8, 50u8, 56u8],
        LiteralV::Boolean(_) => Seq::empty(),
    }
}

/// How many hex digits a non-boolean literal's value takes.
pub open spec fn lit_hex_digits(l: LiteralV) -> nat {
    match l {
        LiteralV::Address(_) => 64,
        LiteralV::Field(_) => 64,
        LiteralV::Group(_) => 64,
        LiteralV::Scalar(_) => 64,
        LiteralV::I8(_) => 2,
        LiteralV::I16(_) => 4,
        LiteralV::I32(_) => 8,
        LiteralV::I64(_) => 16,
        LiteralV::I128(_) => 32,
        LiteralV::U8(_) => 2,
        LiteralV::U16(_) => 4,
        LiteralV::U32(_) => 8,
        LiteralV::U64(_) => 16,
        LiteralV::U128(_) => 32,
        LiteralV::Boolean(_) => 0,
    }
}

/// The canonical text of one literal.
pub open spec fn literal_text(l: LiteralV) -> Seq<u8> {
    match l {
        LiteralV::Boolean(b) => if b {
            kw_true()
        } else {
            kw_false()
        },
        _ => lit_keyword(l) + hex_of_bits(pad_false(lv_bits(l), 4 * lit_hex_digits(l))),
    }
}

/// The canonical text of an operand.
pub open spec fn operand_text(o: OperandV) -> Seq<u8> {
    match o {
        OperandV::Register(i) => seq![114u8] + hex_of_bits(nat_bits(i as nat, 32)),
        OperandV::Immediate(l) => literal_text(l),
    }
}

/// The canonical text of a binary operation:
/// `<first> <second> into r<destination>`.
pub open spec fn operation_text(op: OperationV) -> Seq<u8> {
    operand_text(op.first) + seq![32u8] + operand_text(op.second) + seq![32u8] + kw_into()
        + seq![32u8] + seq![114u8] + hex_of_bits(nat_bits(op.destination as nat, 32))
}

/// The bit pattern of `w` hex digits at offset `at`, if they are all
/// hex digits and fit in `b`.
pub open spec fn read_hex_bits(b: Seq<u8>, at: int, w: int) -> Option<Seq<bool>> {
    if 0 <= at && at + w <= b.len() && (forall|j: int| at <= j < at + w ==> is_hex(#[trigger] b[j])) {
        Some(bits_of_hex(b.subrange(at, at + w)))
    } else {
        None
    }
}

/// Parses `r` and eight hex digits from the front.
pub open spec fn parse_register_spec(b: Seq<u8>) -> Option<(u32, int)> {
    if b.len() >= 1 && b[0] == 114 {
        match read_hex_bits(b, 1, 8) {
            Some(bits) => Some((bits_value(bits) as u32, 9int)),
            None => None,
        }
    } else {
        None
    }
}

/// Parses one literal token from the front: `true`, `false`, or a kind
/// keyword followed by its fixed count of hex digits, rejecting
/// non-canonical field and scalar values.
#[verifier::opaque]
pub open spec fn parse_literal_spec(b: Seq<u8>) -> Option<(LiteralV, int)> {
    if starts(b, kw_true()) {
        Some((LiteralV::Boolean(true), 4int))
    } else if starts(b, kw_false()) {
        Some((LiteralV::Boolean(false), 5int))
    } else if starts(b, seq![97u8, 100u8, 100u8, 114u8, 101u8, 115u8, 115u8]) {
        match read_hex_bits(b, 7, 64) {
            Some(bits) => if bits_value(bits) < field_modulus() {
                Some((LiteralV::Address(nat_bits(bits_value(bits), 253)), 71int))
            } else {
                None
            },
            None => None,
        }
    } else if starts(b, seq![102u8, 105u8, 101u8, 108u8, 100u8]) {
        match read_hex_bits(b, 5, 64) {
            Some(bits) => if bits_value(bits) < field_modulus() {
                Some((LiteralV::Field(nat_bits(bits_value(bits), 253)), 69int))
            } else {
                None
            },
            None => None,
        }
    } else if starts(b, seq![103u8, 114u8, 111u8, 117u8, 112u8]) {
        match read_hex_bits(b, 5, 64) {
            Some(bits) => if bits_value(bits) < field_modulus() {
                Some((LiteralV::Group(nat_bits(bits_value(bits), 253)), 69int))
            } else {
                None
            },
            None => None,
        }
    } else if starts(b, seq![115u8, 99u8, 97u8, 108u8, 97u8, 114u8]) {
        match read_hex_bits(b, 6, 64) {
            Some(bits) => if bits_value(bits) < scalar_modulus() {
                Some((LiteralV::Scalar(nat_bits(bits_value(bits), 251)), 70int))
            } else {
                None
            },
            None => None,
        }
    } else if starts(b, seq![105u8, 56u8]) {
        match read_hex_bits(b, 2, 2) {
            Some(bits) => {
                let v = bits_value(bits);
                Some(
                    (
                        LiteralV::I8(
                            if v < 0x80 {
                                v as i8
                            } else {
                                ((v as int) - 0x100) as i8
                            },
                        ),
                        4int,
                    ),
                )
            },
            None => None,
        }
    } else if starts(b, seq![105u8, 49u8, 54u8]) {
        match read_hex_bits(b, 3, 4) {
            Some(bits) => {
                let v = bits_value(bits);
                Some(
                    (
                        LiteralV::I16(
                            if v < 0x8000 {
                                v as i16
                            } else {
                                ((v as int) - 0x10000) as i16
                            },
                        ),
                        7int,
                    ),
                )
            },
            None => None,
        }
    } else if starts(b, seq![105u8, 51u8, 50u8]) {
        match read_hex_bits(b, 3, 8) {
            Some(bits) => {
                let v = bits_value(bits);
                Some(
                    (
                        LiteralV::I32(
                            if v < 0x80000000 {
                                v as i32
                            } else {
                                ((v as int) - 0x100000000) as i32
                            },
                        ),
                        11int,
                    ),
                )
            },
            None => None,
        }
    } else if starts(b, seq![105u8, 54u8, 52u8]) {
        match read_hex_bits(b, 3, 16) {
            Some(bits) => {
                let v = bits_value(bits);
                Some(
                    (
                        LiteralV::I64(
                            if v < 0x8000000000000000 {
                                v as i64
                            } else {
                                ((v as int) - 0x10000000000000000) as i64
                            },
                        ),
                        19int,
                    ),
                )
            },
            None => None,
        }
    } else if starts(b, seq![105u8, 49u8, 50u8, 56u8]) {
        match read_hex_bits(b, 4, 32) {
            Some(bits) => {
                let v = bits_value(bits);
                Some(
                    (
                        LiteralV::I128(
                            if v < 0x80000000000000000000000000000000 {
                                v as i128
                            } else {
                                ((v as int) - 0x100000000000000000000000000000000) as i128
                            },
                        ),
                        36int,
                    ),
                )
            },
            None => None,
        }
    } else if starts(b, seq![117u8, 56u8]) {
        match read_hex_bits(b, 2, 2) {
            Some(bits) => Some((LiteralV::U8(bits_value(bits) as u8), 4int)),
            None => None,
        }
    } else if starts(b, seq![117u8, 49u8, 54u8]) {
        match read_hex_bits(b, 3, 4) {
            Some(bits) => Some((LiteralV::U16(bits_value(bits) as u16), 7int)),
            None => None,
        }
    } else if starts(b, seq![117u8, 51u8, 50u8]) {
        match read_hex_bits(b, 3, 8) {
            Some(bits) => Some((LiteralV::U32(bits_value(bits) as u32), 11int)),
            None => None,
        }
    } else if starts(b, seq![117u8, 54u8, 52u8]) {
        match read_hex_bits(b, 3, 16) {
            Some(bits) => Some((LiteralV::U64(bits_value(bits) as u64), 19int)),
            None => None,
        }
    } else if starts(b, seq![117u8, 49u8, 50u8, 56u8]) {
        match read_hex_bits(b, 4, 32) {
            Some(bits) => Some((LiteralV::U128(bits_value(bits) as u128), 36int)),
            None => None,
        }
    } else {
        None
    }
}

/// Parses one operand token from the front: a register reference or an
/// immediate literal.
pub open spec fn parse_operand_spec(b: Seq<u8>) -> Option<(OperandV, int)> {
    if b.len() >= 1 && b[0] == 114 {
        match parse_register_spec(b) {
            Some((i, n)) => Some((OperandV::Register(i), n)),
            None => None,
        }
    } else {
        match parse_literal_spec(b) {
            Some((l, n)) => Some((OperandV::Immediate(l), n)),
            None => None,
        }
    }
}

/// Parses a binary operation from the front:
/// `<first> <second> into r<destination>`.
pub open spec fn parse_operation_spec(b: Seq<u8>) -> Option<(OperationV, int)> {
    match parse_operand_spec(b) {
        None => None,
        Some((first, n1)) => if n1 < b.len() && b[n1] == 32 {
            match parse_operand_spec(b.skip(n1 + 1)) {
                None => None,
                Some((second, n2)) => {
                    let p = n1 + 1 + n2;
                    if starts(b.skip(p), seq![32u8] + kw_into() + seq![32u8]) {
                        match parse_register_spec(b.skip(p + 6)) {
                            None => None,
                            Some((d, n3)) => Some(
                                (OperationV { first, second, destination: d }, p + 6 + n3),
                            ),
                        }
                    } else {
                        None
                    }
                },
            }
        } else {
            None
        },
    }
}

/// Renders a bit pattern as fixed-width hex, most significant nibble
/// first.
fn render_hex(bits: &[bool]) -> (r: Vec<u8>)
    requires
        bits@.len() % 4 == 0,
    ensures
        r@ == hex_of_bits(bits@),
{
    let n = bits.len();
    let mut r: Vec<u8> = Vec::new();
    let mut i: usize = n;
    proof {
        assert(bits@.take(n as int) =~= bits@);
        assert(hex_of_bits(bits@) =~= r@ + hex_of_bits(bits@.take(n as int)));
    }
    while i > 0
        invariant
            i <= n,
            i % 4 == 0,
            n == bits@.len(),
            n % 4 == 0,
            hex_of_bits(bits@) == r@ + hex_of_bits(bits@.take(i as int)),
        decreases i,
    {
        let nib = vstd::slice::slice_subrange(bits, i - 4, i);
        let d = bits_to_u128(nib);
        proof {
            lemma_bits_value_bound(nib@);
            lemma2_to64();
        }
        let c: u8 = if d < 10 {
            48 + (d as u8)
        } else {
            55 + (d as u8)
        };
        proof {
            let cur = bits@.take(i as int);
            assert(cur.skip(i as int - 4) =~= nib@);
            assert(cur.take(i as int - 4) =~= bits@.take(i as int - 4));
            assert(hex_of_bits(cur) == seq![hex_char(bits_value(nib@))] + hex_of_bits(
                bits@.take(i as int - 4),
            ));
            assert(r@ + hex_of_bits(cur) =~= r@.push(c) + hex_of_bits(bits@.take(i as int - 4)));
        }
        r.push(c);
        i = i - 4;
    }
    proof {
        assert(bits@.take(0) =~= Seq::<bool>::empty());
        assert(r@ + hex_of_bits(Seq::<bool>::empty()) =~= r@);
    }
    r
}

/// Reads `w` hex digits at offset `at`, as their little-endian bit
/// pattern.
fn parse_hex_bits(b: &[u8], at: usize, w: usize) -> (r: Option<Vec<bool>>)
    requires
        at <= b@.len(),
    ensures
        r is Some <==> read_hex_bits(b@, at as int, w as int) is Some,
        r matches Some(v) ==> read_hex_bits(b@, at as int, w as int) == Some(v@),
{
    if b.len() - at < w {
        return None;
    }
    let end = at + w;
    let mut bits: Vec<bool> = Vec::new();
    let mut pos: usize = end;
    proof {
        assert(bits@ =~= bits_of_hex(b@.subrange(end as int, end as int)));
    }
    while pos > at
        invariant
            at <= pos <= end,
            end == at + w,
            end <= b@.len(),
            bits@ == bits_of_hex(b@.subrange(pos as int, end as int)),
            forall|j: int| pos <= j < end ==> is_hex(#[trigger] b@[j]),
        decreases pos,
    {
        pos = pos - 1;
        let c = b[pos];
        let d: u8 = if 48 <= c && c <= 57 {
            c - 48
        } else if 65 <= c && c <= 70 {
            c - 55
        } else {
            proof {
                assert(!is_hex(b@[pos as int]));
            }
            return None;
        };
        let mut nib = uint_to_bits(d as u128, 4);
        proof {
            lemma_bits_value_nat_bits(d as nat, 4);
            lemma2_to64();
            lemma_small_mod(d as nat, pow2(4));
            let sub = b@.subrange(pos as int, end as int);
            assert(sub[0] == b@[pos as int]);
            assert(sub.drop_first() =~= b@.subrange(pos as int + 1, end as int));
            assert(nib@ == nat_bits(hex_val(c), 4));
            assert(bits_of_hex(sub) == bits_of_hex(sub.drop_first()) + nat_bits(hex_val(c), 4));
        }
        bits.append(&mut nib);
        proof {
            assert(bits@ =~= bits_of_hex(b@.subrange(pos as int, end as int)));
        }
    }
    proof {
        assert(read_hex_bits(b@, at as int, w as int) == Some(
            bits_of_hex(b@.subrange(at as int, at as int + w as int)),
        ));
    }
    Some(bits)
}

/// Whether `b` begins with `kw`.
fn starts_with(b: &[u8], kw: &Vec<u8>) -> (r: bool)
    ensures
        r == starts(b@, kw@),
{
    let m = kw.len();
    if b.len() < m {
        proof {
            assert(!starts(b@, kw@));
        }
        return false;
    }
    let mut j: usize = 0;
    while j < m
        invariant
            j <= m,
            m == kw@.len(),
            m <= b@.len(),
            forall|k: int| 0 <= k < j ==> b@[k] == kw@[k],
        decreases m - j,
    {
        if b[j] != kw[j] {
            proof {
                if starts(b@, kw@) {
                    assert(b@.take(m as int)[j as int] == kw@[j as int]);
                }
            }
            return false;
        }
        j = j + 1;
    }
    proof {
        assert(b@.take(m as int) =~= kw@);
    }
    true
}

/// Renders one literal canonically.
pub fn render_literal(l: &Literal) -> (r: Vec<u8>)
    requires
        l.wf(),
    ensures
        r@ == literal_text(l@),
{
    match l {
        Literal::Boolean(bv) => {
            let out: Vec<u8> = if *bv {
                vec![116u8, 114u8, 117u8, 101u8]
            } else {
                vec![102u8, 97u8, 108u8, 115u8, 101u8]
            };
            proof {
                if *bv {
                    assert(out@ =~= kw_true());
                } else {
                    assert(out@ =~= kw_false());
                }
            }
            out
        },
        _ => {
            let (kw, digits): (Vec<u8>, usize) = match l {
                Literal::Address(_) => (vec![97u8, 100u8, 100u8, 114u8, 101u8, 115u8, 115u8], 64),
                Literal::Field(_) => (vec![102u8, 105u8, 101u8, 108u8, 100u8], 64),
                Literal::Group(_) => (vec![103u8, 114u8, 111u8, 117u8, 112u8], 64),
                Literal::Scalar(_) => (vec![115u8, 99u8, 97u8, 108u8, 97u8, 114u8], 64),
                Literal::I8(_) => (vec![105u8, 56u8], 2),
                Literal::I16(_) => (vec![105u8, 49u8, 54u8], 4),
                Literal::I32(_) => (vec![105u8, 51u8, 50u8], 8),
                Literal::I64(_) => (vec![105u8, 54u8, 52u8], 16),
                Literal::I128(_) => (vec![105u8, 49u8, 50u8, 56u8], 32),
                Literal::U8(_) => (vec![117u8, 56u8], 2),
                Literal::U16(_) => (vec![117u8, 49u8, 54u8], 4),
                Literal::U32(_) => (vec![117u8, 51u8, 50u8], 8),
                Literal::U64(_) => (vec![117u8, 54u8, 52u8], 16),
                Literal::U128(_) => (vec![117u8, 49u8, 50u8, 56u8], 32),
                Literal::Boolean(_) => vstd::pervasive::unreached(),
            };
            proof {
                assert(kw@ =~= lit_keyword(l@));
                lemma_lv_bits_len(l@);
            }
            let bits = l.to_bits_le();
            let padded = crate::bytes::pad_bits_to(bits, 4 * digits);
            let mut body = render_hex(padded.as_slice());
            let mut out = kw;
            let ghost whole = out@ + body@;
            out.append(&mut body);
            proof {
                assert(out@ =~= whole);
            }
            out
        },
    }
}

/// Renders a register reference: `r` and eight hex digits.
pub fn render_register(i: u32) -> (r: Vec<u8>)
    ensures
        r@ == seq![114u8] + hex_of_bits(nat_bits(i as nat, 32)),
{
    let bits = uint_to_bits(i as u128, 32);
    proof {
        lemma_nat_bits_len(i as nat, 32);
    }
    let mut body = render_hex(bits.as_slice());
    let mut out: Vec<u8> = Vec::new();
    out.push(114);
    let ghost whole = seq![114u8] + body@;
    out.append(&mut body);
    proof {
        assert(out@ =~= whole);
    }
    out
}

/// Renders one operand canonically.
pub fn render_operand(o: &Operand) -> (r: Vec<u8>)
    requires
        opv_wf(o@),
    ensures
        r@ == operand_text(o@),
{
    match o {
        Operand::Register(reg) => render_register(reg.index),
        Operand::Immediate(l) => render_literal(l),
    }
}

/// Renders a binary operation canonically:
/// `<first> <second> into r<destination>`.
pub fn render_operation(op: &BinaryOperation) -> (r: Vec<u8>)
    requires
        op.wf(),
    ensures
        r@ == operation_text(op@),
{
    let mut out = render_operand(&op.first);
    let mut second = render_operand(&op.second);
    let mut dest = render_register(op.destination.index);
    let ghost whole = out@ + seq![32u8] + second@ + seq![32u8] + kw_into() + seq![32u8] + dest@;
    out.push(32);
    out.append(&mut second);
    out.push(32);
    out.push(105);
    out.push(110);
    out.push(116);
    out.push(111);
    out.push(32);
    out.append(&mut dest);
    proof {
        assert(out@ =~= whole);
        assert(out@ =~= operation_text(op@));
    }
    out
}

/// Parses a register token from the front of `b`.
pub fn parse_register(b: &[u8]) -> (r: Option<(u32, usize)>)
    ensures
        r is Some <==> parse_register_spec(b@) is Some,
        r matches Some((v, n)) ==> parse_register_spec(b@) == Some((v, n as int)),
{
    if b.len() < 1 || b[0] != 114 {
        return None;
    }
    match parse_hex_bits(b, 1, 8) {
        Some(bits) => {
            proof {
                lemma_bits_of_hex_len(b@.subrange(1, 9));
                lemma_bits_value_bound(bits@);
                lemma2_to64();
            }
            let v = bits_to_u128(bits.as_slice());
            Some(((v as u32), 9))
        },
        None => None,
    }
}

/// Parses one literal token from the front of `b`; accepts exactly the
/// canonical renderings and returns a well-formed literal.
pub fn parse_literal(b: &[u8]) -> (r: Option<(Literal, usize)>)
    ensures
        r is Some <==> parse_literal_spec(b@) is Some,
        r matches Some((l, n)) ==> parse_literal_spec(b@) == Some((l@, n as int)) && l.wf(),
{
    proof {
        reveal(parse_literal_spec);
    }
    if starts_with(b, &(vec![116u8, 114u8, 117u8, 101u8])) {
        return Some((Literal::Boolean(true), 4));
    }
    if starts_with(b, &(vec![102u8, 97u8, 108u8, 115u8, 101u8])) {
        return Some((Literal::Boolean(false), 5));
    }
    if starts_with(b, &(vec![97u8, 100u8, 100u8, 114u8, 101u8, 115u8, 115u8])) {
        return match parse_hex_bits(b, 7, 64) {
            Some(bits) => match field_from_bits_le(bits.as_slice()) {
                Some(f) => Some((Literal::Address(Address { x: f }), 71)),
                None => None,
            },
            None => None,
        };
    }
    if starts_with(b, &(vec![102u8, 105u8, 101u8, 108u8, 100u8])) {
        return match parse_hex_bits(b, 5, 64) {
            Some(bits) => match field_from_bits_le(bits.as_slice()) {
                Some(f) => Some((Literal::Field(f), 69)),
                None => None,
            },
            None => None,
        };
    }
    if starts_with(b, &(vec![103u8, 114u8, 111u8, 117u8, 112u8])) {
        return match parse_hex_bits(b, 5, 64) {
            Some(bits) => match field_from_bits_le(bits.as_slice()) {
                Some(f) => Some((Literal::Group(Group { x: f }), 69)),
                None => None,
            },
            None => None,
        };
    }
    if starts_with(b, &(vec![115u8, 99u8, 97u8, 108u8, 97u8, 114u8])) {
        return match parse_hex_bits(b, 6, 64) {
            Some(bits) => match scalar_from_bits_le(bits.as_slice()) {
                Some(s) => Some((Literal::Scalar(s), 70)),
                None => None,
            },
            None => None,
        };
    }
    if starts_with(b, &(vec![105u8, 56u8])) {
        return match parse_hex_bits(b, 2, 2) {
            Some(bits) => {
                proof {
                    lemma_bits_of_hex_len(b@.subrange(2, 4));
                    lemma_bits_value_bound(bits@);
                    lemma2_to64();
                }
                let v = bits_to_u128(bits.as_slice());
                Some(
                    (
                        Literal::I8(
                            if v < 0x80 {
                                v as i8
                            } else {
                                ((v as i32) - 0x100) as i8
                            },
                        ),
                        4,
                    ),
                )
            },
            None => None,
        };
    }
    if starts_with(b, &(vec![105u8, 49u8, 54u8])) {
        return match parse_hex_bits(b, 3, 4) {
            Some(bits) => {
                proof {
                    lemma_bits_of_hex_len(b@.subrange(3, 7));
                    lemma_bits_value_bound(bits@);
                    lemma2_to64();
                }
                let v = bits_to_u128(bits.as_slice());
                Some(
                    (
                        Literal::I16(
                            if v < 0x8000 {
                                v as i16
                            } else {
                                ((v as i32) - 0x10000) as i16
                            },
                        ),
                        7,
                    ),
                )
            },
            None => None,
        };
    }
    if starts_with(b, &(vec![105u8, 51u8, 50u8])) {
        return match parse_hex_bits(b, 3, 8) {
            Some(bits) => {
                proof {
                    lemma_bits_of_hex_len(b@.subrange(3, 11));
                    lemma_bits_value_bound(bits@);
                    lemma2_to64();
                }
                let v = bits_to_u128(bits.as_slice());
                Some(
                    (
                        Literal::I32(
                            if v < 0x80000000 {
                                v as i32
                            } else {
                                ((v as i64) - 0x100000000) as i32
                            },
                        ),
                        11,
                    ),
                )
            },
            None => None,
        };
    }
    if starts_with(b, &(vec![105u8, 54u8, 52u8])) {
        return match parse_hex_bits(b, 3, 16) {
            Some(bits) => {
                proof {
                    lemma_bits_of_hex_len(b@.subrange(3, 19));
                    lemma_bits_value_bound(bits@);
                    lemma2_to64();
                    vstd::arithmetic::power2::lemma2_to64_rest();
                }
                let v = bits_to_u128(bits.as_slice());
                Some(
                    (
                        Literal::I64(
                            if v < 0x8000000000000000 {
                                v as i64
                            } else {
                                ((v as i128) - 0x10000000000000000) as i64
                            },
                        ),
                        19,
                    ),
                )
            },
            None => None,
        };
    }
    if starts_with(b, &(vec![105u8, 49u8, 50u8, 56u8])) {
        return match parse_hex_bits(b, 4, 32) {
            Some(bits) => {
                proof {
                    lemma_bits_of_hex_len(b@.subrange(4, 36));
                    lemma_bits_value_bound(bits@);
                    crate::bytes::lemma_pow2_128_facts();
                }
                let v = bits_to_u128(bits.as_slice());
                Some(
                    (
                        Literal::I128(
                            if v < 0x80000000000000000000000000000000 {
                                v as i128
                            } else if v == 0x80000000000000000000000000000000 {
                                i128::MIN
                            } else {
                                -(((u128::MAX - v) + 1) as i128)
                            },
                        ),
                        36,
                    ),
                )
            },
            None => None,
        };
    }
    if starts_with(b, &(vec![117u8, 56u8])) {
        return match parse_hex_bits(b, 2, 2) {
            Some(bits) => {
                proof {
                    lemma_bits_of_hex_len(b@.subrange(2, 4));
                    lemma_bits_value_bound(bits@);
                    lemma2_to64();
                }
                let v = bits_to_u128(bits.as_slice());
                Some((Literal::U8(v as u8), 4))
            },
            None => None,
        };
    }
    if starts_with(b, &(vec![117u8, 49u8, 54u8])) {
        return match parse_hex_bits(b, 3, 4) {
            Some(bits) => {
                proof {
                    lemma_bits_of_hex_len(b@.subrange(3, 7));
                    lemma_bits_value_bound(bits@);
                    lemma2_to64();
                }
                let v = bits_to_u128(bits.as_slice());
                Some((Literal::U16(v as u16), 7))
            },
            None => None,
        };
    }
    if starts_with(b, &(vec![117u8, 51u8, 50u8])) {
        return match parse_hex_bits(b, 3, 8) {
            Some(bits) => {
                proof {
                    lemma_bits_of_hex_len(b@.subrange(3, 11));
                    lemma_bits_value_bound(bits@);
                    lemma2_to64();
                }
                let v = bits_to_u128(bits.as_slice());
                Some((Literal::U32(v as u32), 11))
            },
            None => None,
        };
    }
    if starts_with(b, &(vec![117u8, 54u8, 52u8])) {
        return match parse_hex_bits(b, 3, 16) {
            Some(bits) => {
                proof {
                    lemma_bits_of_hex_len(b@.subrange(3, 19));
                    lemma_bits_value_bound(bits@);
                    lemma2_to64();
                    vstd::arithmetic::power2::lemma2_to64_rest();
                }
                let v = bits_to_u128(bits.as_slice());
                Some((Literal::U64(v as u64), 19))
            },
            None => None,
        };
    }
    if starts_with(b, &(vec![117u8, 49u8, 50u8, 56u8])) {
        return match parse_hex_bits(b, 4, 32) {
            Some(bits) => {
                proof {
                    lemma_bits_of_hex_len(b@.subrange(4, 36));
                }
                let v = bits_to_u128(bits.as_slice());
                Some((Literal::U128(v), 36))
            },
            None => None,
        };
    }
    None
}

/// Parses one operand token from the front of `b`.
pub fn parse_operand(b: &[u8]) -> (r: Option<(Operand, usize)>)
    ensures
        r is Some <==> parse_operand_spec(b@) is Some,
        r matches Some((o, n)) ==> parse_operand_spec(b@) == Some((o@, n as int)) && opv_wf(o@),
{
    if b.len() >= 1 && b[0] == 114 {
        match parse_register(b) {
            Some((i, n)) => Some((Operand::Register(Register { index: i }), n)),
            None => None,
        }
    } else {
        match parse_literal(b) {
            Some((l, n)) => Some((Operand::Immediate(l), n)),
            None => None,
        }
    }
}

/// Parses a binary operation from the front of `b`:
/// `<first> <second> into r<destination>`.
pub fn parse_operation(b: &[u8]) -> (r: Option<(BinaryOperation, usize)>)
    ensures
        r is Some <==> parse_operation_spec(b@) is Some,
        r matches Some((op, n)) ==> parse_operation_spec(b@) == Some((op@, n as int))
            && op.wf(),
{
    let (first, n1) = match parse_operand(b) {
        Some(x) => x,
        None => {
            return None;
        },
    };
    proof {
        lemma_parse_operand_consumed(b@, first@, n1 as int);
    }
    if n1 >= b.len() || b[n1] != 32 {
        return None;
    }
    let rest1 = vstd::slice::slice_subrange(b, n1 + 1, b.len());
    proof {
        assert(rest1@ =~= b@.skip(n1 as int + 1));
    }
    let (second, n2) = match parse_operand(rest1) {
        Some(x) => x,
        None => {
            return None;
        },
    };
    proof {
        lemma_parse_operand_consumed(rest1@, second@, n2 as int);
    }
    let p = n1 + 1 + n2;
    let restp = vstd::slice::slice_subrange(b, p, b.len());
    proof {
        assert(restp@ =~= b@.skip(p as int));
    }
    let kw_sep: Vec<u8> = vec![32u8, 105u8, 110u8, 116u8, 111u8, 32u8];
    proof {
        assert(kw_sep@ =~= seq![32u8] + kw_into() + seq![32u8]);
    }
    if !starts_with(restp, &kw_sep) {
        return None;
    }
    let restd = vstd::slice::slice_subrange(b, p + 6, b.len());
    proof {
        assert(restd@ =~= b@.skip(p as int + 6));
    }
    match parse_register(restd) {
        Some((d, n3)) => Some(
            (
                BinaryOperation { first, second, destination: Register { index: d } },
                p + 6 + n3,
            ),
        ),
        None => None,
    }
}

/// Whatever one operand parse consumes fits inside the input.
proof fn lemma_parse_operand_consumed(b: Seq<u8>, o: OperandV, n: int)
    requires
        parse_operand_spec(b) == Some((o, n)),
    ensures
        1 <= n <= b.len(),
        n <= 71,
{
    reveal(parse_literal_spec);
}

/// A mismatched byte anywhere inside the keyword rules the keyword out.
proof fn lemma_not_starts(b: Seq<u8>, kw: Seq<u8>, j: int)
    requires
        0 <= j < kw.len(),
        j < b.len(),
        b[j] != kw[j],
    ensures
        !starts(b, kw),
{
    if starts(b, kw) {
        assert(b.take(kw.len() as int)[j] == kw[j]);
    }
}

/// Parsing a rendered register token consumes exactly the token and
/// reproduces the index.
pub proof fn lemma_parse_render_register(i: u32, rest: Seq<u8>)
    ensures
        parse_register_spec((seq![114u8] + hex_of_bits(nat_bits(i as nat, 32))) + rest) == Some(
            (i, 9int),
        ),
{
    let bits = nat_bits(i as nat, 32);
    lemma_nat_bits_len(i as nat, 32);
    lemma_hex_round(bits);
    let h = hex_of_bits(bits);
    let b = (seq![114u8] + h) + rest;
    assert(b[0] == 114);
    assert(b.subrange(1, 9) =~= h);
    assert forall|j: int| 1 <= j < 9 implies is_hex(#[trigger] b[j]) by {
        assert(b[j] == h[j - 1]);
    };
    lemma_bits_value_nat_bits(i as nat, 32);
    lemma2_to64();
    lemma_small_mod(i as nat, pow2(32));
}

/// Parsing a rendered literal token consumes exactly the token and
/// reproduces the literal.
pub proof fn lemma_parse_render_literal(l: LiteralV, rest: Seq<u8>)
    requires
        lv_wf(l),
    ensures
        parse_literal_spec(literal_text(l) + rest) == Some((l, literal_text(l).len() as int)),
{
    match l {
        LiteralV::Boolean(_) => lemma_prl_bool(l, rest),
        LiteralV::Address(_) => lemma_prl_alg(l, rest),
        LiteralV::Field(_) => lemma_prl_alg(l, rest),
        LiteralV::Group(_) => lemma_prl_alg(l, rest),
        LiteralV::Scalar(_) => lemma_prl_alg(l, rest),
        LiteralV::I8(_) => lemma_prl_signed(l, rest),
        LiteralV::I16(_) => lemma_prl_signed(l, rest),
        LiteralV::I32(_) => lemma_prl_signed(l, rest),
        LiteralV::I64(_) => lemma_prl_signed(l, rest),
        LiteralV::I128(_) => lemma_prl_signed(l, rest),
        LiteralV::U8(_) => lemma_prl_unsigned(l, rest),
        LiteralV::U16(_) => lemma_prl_unsigned(l, rest),
        LiteralV::U32(_) => lemma_prl_unsigned(l, rest),
        LiteralV::U64(_) => lemma_prl_unsigned(l, rest),
        LiteralV::U128(_) => lemma_prl_unsigned(l, rest),
    }
}

#[verifier::rlimit(100)]
proof fn lemma_prl_bool(l: LiteralV, rest: Seq<u8>)
    requires
        lv_wf(l),
        l is Boolean,
    ensures
        parse_literal_spec(literal_text(l) + rest) == Some((l, literal_text(l).len() as int)),
{
    reveal(parse_literal_spec);
    let b = literal_text(l) + rest;
    match l {
        LiteralV::Boolean(bv) => {
            if bv {
                assert(b.take(4) =~= kw_true());
            } else {
                assert(b[0] == 102);
                lemma_not_starts(b, kw_true(), 0);
                assert(b.take(5) =~= kw_false());
            }
        },
        _ => {},
    }
}

#[verifier::rlimit(100)]
proof fn lemma_prl_alg(l: LiteralV, rest: Seq<u8>)
    requires
        lv_wf(l),
        l is Address || l is Field || l is Group || l is Scalar,
    ensures
        parse_literal_spec(literal_text(l) + rest) == Some((l, literal_text(l).len() as int)),
{
    reveal(parse_literal_spec);
    let b = literal_text(l) + rest;
    lemma_lv_bits_len(l);
    let kw = lit_keyword(l);
    let w = lit_hex_digits(l);
    let padded = pad_false(lv_bits(l), 4 * w);
    lemma_hex_round(padded);
    let h = hex_of_bits(padded);
    assert(b.take(kw.len() as int) =~= kw);
    assert(b.subrange(kw.len() as int, (kw.len() + w) as int) =~= h);
    assert forall|j: int| kw.len() <= j < kw.len() + w implies is_hex(#[trigger] b[j]) by {
        assert(b[j] == h[j - kw.len()]);
    };
    lemma_bits_value_pad(lv_bits(l), 4 * w);
    lemma2_to64();
    vstd::arithmetic::power2::lemma2_to64_rest();
    assert(b[0] == kw[0]);
    lemma_not_starts(b, kw_true(), 0);
    if kw[0] == 102 {
        assert(b[1] == kw[1]);
        lemma_not_starts(b, kw_false(), 1);
    } else {
        lemma_not_starts(b, kw_false(), 0);
    }
    let v = bits_value(lv_bits(l));
    match l {
        LiteralV::Address(x) => {
            lemma_nat_bits_of_bits_value(x);
        },
        LiteralV::Field(x) => {
            lemma_not_starts(b, lit_keyword(LiteralV::Address(x)), 0);
            lemma_nat_bits_of_bits_value(x);
        },
        LiteralV::Group(x) => {
            lemma_not_starts(b, lit_keyword(LiteralV::Address(x)), 0);
            lemma_not_starts(b, lit_keyword(LiteralV::Field(x)), 0);
            lemma_nat_bits_of_bits_value(x);
        },
        LiteralV::Scalar(x) => {
            lemma_not_starts(b, lit_keyword(LiteralV::Address(x)), 0);
            lemma_not_starts(b, lit_keyword(LiteralV::Field(x)), 0);
            lemma_not_starts(b, lit_keyword(LiteralV::Group(x)), 0);
            lemma_nat_bits_of_bits_value(x);
        },
        _ => {},
    }
}

#[verifier::rlimit(100)]
proof fn lemma_prl_signed(l: LiteralV, rest: Seq<u8>)
    requires
        lv_wf(l),
        l is I8 || l is I16 || l is I32 || l is I64 || l is I128,
    ensures
        parse_literal_spec(literal_text(l) + rest) == Some((l, literal_text(l).len() as int)),
{
    reveal(parse_literal_spec);
    let b = literal_text(l) + rest;
    lemma_lv_bits_len(l);
    let kw = lit_keyword(l);
    let w = lit_hex_digits(l);
    let padded = pad_false(lv_bits(l), 4 * w);
    lemma_hex_round(padded);
    let h = hex_of_bits(padded);
    assert(b.take(kw.len() as int) =~= kw);
    assert(b.subrange(kw.len() as int, (kw.len() + w) as int) =~= h);
    assert forall|j: int| kw.len() <= j < kw.len() + w implies is_hex(#[trigger] b[j]) by {
        assert(b[j] == h[j - kw.len()]);
    };
    lemma_bits_value_pad(lv_bits(l), 4 * w);
    lemma2_to64();
    vstd::arithmetic::power2::lemma2_to64_rest();
    assert(b[0] == kw[0]);
    lemma_not_starts(b, kw_true(), 0);
    if kw[0] == 102 {
        assert(b[1] == kw[1]);
        lemma_not_starts(b, kw_false(), 1);
    } else {
        lemma_not_starts(b, kw_false(), 0);
    }
    let v = bits_value(lv_bits(l));
    lemma_not_starts(b, lit_keyword(LiteralV::Address(Seq::empty())), 0);
    lemma_not_starts(b, lit_keyword(LiteralV::Field(Seq::empty())), 0);
    lemma_not_starts(b, lit_keyword(LiteralV::Group(Seq::empty())), 0);
    lemma_not_starts(b, lit_keyword(LiteralV::Scalar(Seq::empty())), 0);
    match l {
        LiteralV::I8(x) => {
            lemma_bits_value_nat_bits(crate::literal::u8_of_i8(x), 8);
            lemma_small_mod(crate::literal::u8_of_i8(x), pow2(8));
        },
        LiteralV::I16(x) => {
            assert(b[1] == 49);
            lemma_not_starts(b, lit_keyword(LiteralV::I8(0)), 1);
            lemma_bits_value_nat_bits(crate::literal::u16_of_i16(x), 16);
            lemma_small_mod(crate::literal::u16_of_i16(x), pow2(16));
        },
        LiteralV::I32(x) => {
            assert(b[1] == 51);
            lemma_not_starts(b, lit_keyword(LiteralV::I8(0)), 1);
            lemma_not_starts(b, lit_keyword(LiteralV::I16(0)), 1);
            lemma_bits_value_nat_bits(crate::literal::u32_of_i32(x), 32);
            lemma_small_mod(crate::literal::u32_of_i32(x), pow2(32));
        },
        LiteralV::I64(x) => {
            assert(b[1] == 54);
            lemma_not_starts(b, lit_keyword(LiteralV::I8(0)), 1);
            lemma_not_starts(b, lit_keyword(LiteralV::I16(0)), 1);
            lemma_not_starts(b, lit_keyword(LiteralV::I32(0)), 1);
            lemma_bits_value_nat_bits(crate::literal::u64_of_i64(x), 64);
            lemma_small_mod(crate::literal::u64_of_i64(x), pow2(64));
        },
        LiteralV::I128(x) => {
            assert(b[1] == 49);
            assert(b[2] == 50);
            lemma_not_starts(b, lit_keyword(LiteralV::I8(0)), 1);
            lemma_not_starts(b, lit_keyword(LiteralV::I16(0)), 2);
            lemma_not_starts(b, lit_keyword(LiteralV::I32(0)), 1);
            lemma_not_starts(b, lit_keyword(LiteralV::I64(0)), 1);
            lemma_bits_value_nat_bits(crate::literal::u128_of_i128(x), 128);
            crate::bytes::lemma_pow2_128_facts();
            lemma_small_mod(crate::literal::u128_of_i128(x), pow2(128));
        },
        _ => {},
    }
}

#[verifier::rlimit(100)]
proof fn lemma_prl_unsigned(l: LiteralV, rest: Seq<u8>)
    requires
        lv_wf(l),
        l is U8 || l is U16 || l is U32 || l is U64 || l is U128,
    ensures
        parse_literal_spec(literal_text(l) + rest) == Some((l, literal_text(l).len() as int)),
{
    reveal(parse_literal_spec);
    let b = literal_text(l) + rest;
    lemma_lv_bits_len(l);
    let kw = lit_keyword(l);
    let w = lit_hex_digits(l);
    let padded = pad_false(lv_bits(l), 4 * w);
    lemma_hex_round(padded);
    let h = hex_of_bits(padded);
    assert(b.take(kw.len() as int) =~= kw);
    assert(b.subrange(kw.len() as int, (kw.len() + w) as int) =~= h);
    assert forall|j: int| kw.len() <= j < kw.len() + w implies is_hex(#[trigger] b[j]) by {
        assert(b[j] == h[j - kw.len()]);
    };
    lemma_bits_value_pad(lv_bits(l), 4 * w);
    lemma2_to64();
    vstd::arithmetic::power2::lemma2_to64_rest();
    assert(b[0] == kw[0]);
    lemma_not_starts(b, kw_true(), 0);
    if kw[0] == 102 {
        assert(b[1] == kw[1]);
        lemma_not_starts(b, kw_false(), 1);
    } else {
        lemma_not_starts(b, kw_false(), 0);
    }
    let v = bits_value(lv_bits(l));
    lemma_not_starts(b, lit_keyword(LiteralV::Address(Seq::empty())), 0);
    lemma_not_starts(b, lit_keyword(LiteralV::Field(Seq::empty())), 0);
    lemma_not_starts(b, lit_keyword(LiteralV::Group(Seq::empty())), 0);
    lemma_not_starts(b, lit_keyword(LiteralV::Scalar(Seq::empty())), 0);
    lemma_not_starts(b, lit_keyword(LiteralV::I8(0)), 0);
    lemma_not_starts(b, lit_keyword(LiteralV::I16(0)), 0);
    lemma_not_starts(b, lit_keyword(LiteralV::I32(0)), 0);
    lemma_not_starts(b, lit_keyword(LiteralV::I64(0)), 0);
    lemma_not_starts(b, lit_keyword(LiteralV::I128(0)), 0);
    match l {
        LiteralV::U8(x) => {
            lemma_bits_value_nat_bits(x as nat, 8);
            lemma_small_mod(x as nat, pow2(8));
        },
        LiteralV::U16(x) => {
            assert(b[1] == 49);
            lemma_not_starts(b, lit_keyword(LiteralV::U8(0)), 1);
            lemma_bits_value_nat_bits(x as nat, 16);
            lemma_small_mod(x as nat, pow2(16));
        },
        LiteralV::U32(x) => {
            assert(b[1] == 51);
            lemma_not_starts(b, lit_keyword(LiteralV::U8(0)), 1);
            lemma_not_starts(b, lit_keyword(LiteralV::U16(0)), 1);
            lemma_bits_value_nat_bits(x as nat, 32);
            lemma_small_mod(x as nat, pow2(32));
        },
        LiteralV::U64(x) => {
            assert(b[1] == 54);
            lemma_not_starts(b, lit_keyword(LiteralV::U8(0)), 1);
            lemma_not_starts(b, lit_keyword(LiteralV::U16(0)), 1);
            lemma_not_starts(b, lit_keyword(LiteralV::U32(0)), 1);
            lemma_bits_value_nat_bits(x as nat, 64);
            lemma_small_mod(x as nat, pow2(64));
        },
        LiteralV::U128(x) => {
            assert(b[1] == 49);
            assert(b[2] == 50);
            lemma_not_starts(b, lit_keyword(LiteralV::U8(0)), 1);
            lemma_not_starts(b, lit_keyword(LiteralV::U16(0)), 2);
            lemma_not_starts(b, lit_keyword(LiteralV::U32(0)), 1);
            lemma_not_starts(b, lit_keyword(LiteralV::U64(0)), 1);
            lemma_bits_value_nat_bits(x as nat, 128);
            crate::bytes::lemma_pow2_128_facts();
            lemma_small_mod(x as nat, pow2(128));
        },
        _ => {},
    }
}

/// Parsing a rendered operand token consumes exactly the token and
/// reproduces the operand.
#[verifier::rlimit(100)]
pub proof fn lemma_parse_render_operand(o: OperandV, rest: Seq<u8>)
    requires
        opv_wf(o),
    ensures
        parse_operand_spec(operand_text(o) + rest) == Some((o, operand_text(o).len() as int)),
{
    let b = operand_text(o) + rest;
    match o {
        OperandV::Register(i) => {
            lemma_nat_bits_len(i as nat, 32);
            lemma_hex_round(nat_bits(i as nat, 32));
            assert(b[0] == 114);
            lemma_parse_render_register(i, rest);
        },
        OperandV::Immediate(l) => {
            assert(b[0] == literal_text(l)[0]);
            assert(b[0] != 114);
            lemma_parse_render_literal(l, rest);
        },
    }
}

/// The textual round trip: parsing the canonical rendering of a binary
/// operation reproduces it exactly.
#[verifier::rlimit(100)]
pub proof fn lemma_parse_render_operation(op: OperationV, rest: Seq<u8>)
    requires
        opv_wf(op.first),
        opv_wf(op.second),
    ensures
        parse_operation_spec(operation_text(op) + rest) == Some(
            (op, operation_text(op).len() as int),
        ),
{
    let t1 = operand_text(op.first);
    let t2 = operand_text(op.second);
    let t3 = seq![114u8] + hex_of_bits(nat_bits(op.destination as nat, 32));
    let sep = seq![32u8] + kw_into() + seq![32u8];
    let b = operation_text(op) + rest;
    let r1 = seq![32u8] + t2 + sep + t3 + rest;
    lemma_nat_bits_len(op.destination as nat, 32);
    lemma_hex_round(nat_bits(op.destination as nat, 32));
    assert(t3.len() == 9);
    assert(sep.len() == 6);
    assert(b =~= t1 + r1);
    lemma_parse_render_operand(op.first, r1);
    let n1 = t1.len() as int;
    assert(b[n1] == 32);
    assert(b.skip(n1 + 1) =~= t2 + (sep + t3 + rest));
    lemma_parse_render_operand(op.second, sep + t3 + rest);
    let p = n1 + 1 + t2.len();
    assert(b.skip(p) =~= sep + (t3 + rest));
    assert(b.skip(p).take(6) =~= sep);
    assert(b.skip(p + 6) =~= t3 + rest);
    lemma_parse_render_register(op.destination, rest);
    assert(operation_text(op).len() == p + 6 + 9);
}

} // verus!
