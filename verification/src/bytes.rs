//! The binary codec for operands and the binary operation descriptor.
//!
//! Every literal is framed as one kind tag byte followed by a fixed-width
//! little-endian payload; an operand as a tag byte (register or
//! immediate) followed by its body; the operation as first operand,
//! second operand, then the destination register index. Decoding accepts
//! exactly the canonical encodings and consumes a prefix, returning what
//! remains unread.
use vstd::prelude::*;
use vstd::arithmetic::power2::{pow2, lemma2_to64};
use vstd::arithmetic::div_mod::lemma_small_mod;
use crate::bits::{
    bits_value, nat_bits, bytes_bits, bytes_of_bits, bits_to_bytes, bytes_to_bits, bits_to_u128,
    uint_to_bits, lemma_bits_value_bound, lemma_bits_value_nat_bits, lemma_nat_bits_len,
    lemma_nat_bits_of_bits_value, lemma_bytes_of_bits, lemma_bytes_bits_len,
};
use crate::field::{
    field_modulus, scalar_modulus, pad_false, field_from_bits_le, scalar_from_bits_le,
    lemma_bits_value_pad,
};
use crate::literal::{Literal, LiteralV, Group, Address, lv_bits, lv_wf};
use crate::operand::{Operand, OperandV, Register, BinaryOperation, OperationV, opv_wf};

verus! {

/// The kind tag byte of a literal.
pub open spec fn lit_tag(l: LiteralV) -> u8 {
    match l {
        LiteralV::Address(_) => 0,
        LiteralV::Boolean(_) => 1,
        LiteralV::Field(_) => 2,
        LiteralV::Group(_) => 3,
        LiteralV::I8(_) => 4,
        LiteralV::I16(_) => 5,
        LiteralV::I32(_) => 6,
        LiteralV::I64(_) => 7,
        LiteralV::I128(_) => 8,
        LiteralV::U8(_) => 9,
        LiteralV::U16(_) => 10,
        LiteralV::U32(_) => 11,
        LiteralV::U64(_) => 12,
        LiteralV::U128(_) => 13,
        LiteralV::Scalar(_) => 14,
    }
}

/// The payload width in bytes for a kind tag (tags above 14 never occur).
pub open spec fn tag_payload_len(t: u8) -> nat {
    if t == 0 || t == 2 || t == 3 || t == 14 {
        32
    } else if t == 1 || t == 4 || t == 9 {
        1
    } else if t == 5 || t == 10 {
        2
    } else if t == 6 || t == 11 {
        4
    } else if t == 7 || t == 12 {
        8
    } else {
        16
    }
}

/// The canonical encoding of a literal: its kind tag, then its bits
/// zero-padded to the payload width.
pub open spec fn literal_enc(l: LiteralV) -> Seq<u8> {
    seq![lit_tag(l)] + bytes_of_bits(pad_false(lv_bits(l), 8 * tag_payload_len(lit_tag(l))))
}

/// The encoding of a register index: four little-endian bytes.
pub open spec fn u32_enc(v: u32) -> Seq<u8> {
    bytes_of_bits(nat_bits(v as nat, 32))
}

/// The encoding of an operand: a register marker and index, or an
/// immediate marker and literal.
pub open spec fn operand_enc(o: OperandV) -> Seq<u8> {
    match o {
        OperandV::Register(i) => seq![0u8] + u32_enc(i),
        OperandV::Immediate(l) => seq![1u8] + literal_enc(l),
    }
}

/// The encoding of a binary operation: first operand, second operand,
/// destination register index.
pub open spec fn operation_enc(op: OperationV) -> Seq<u8> {
    operand_enc(op.first) + operand_enc(op.second) + u32_enc(op.destination)
}

/// Decodes four little-endian bytes from the front.
pub open spec fn dec_u32(b: Seq<u8>) -> Option<(u32, int)> {
    if b.len() >= 4 {
        Some((bits_value(bytes_bits(b.take(4))) as u32, 4int))
    } else {
        None
    }
}

/// Rebuilds a literal of kind `t` from its payload bits; fails on a
/// non-canonical payload.
pub open spec fn lit_from_bits(t: u8, bits: Seq<bool>) -> Option<LiteralV> {
    let v = bits_value(bits);
    if t == 0 {
        if v < field_modulus() {
            Some(LiteralV::Address(nat_bits(v, 253)))
        } else {
            None
        }
    } else if t == 1 {
        if v <= 1 {
            Some(LiteralV::Boolean(v == 1))
        } else {
            None
        }
    } else if t == 2 {
        if v < field_modulus() {
            Some(LiteralV::Field(nat_bits(v, 253)))
        } else {
            None
        }
    } else if t == 3 {
        if v < field_modulus() {
            Some(LiteralV::Group(nat_bits(v, 253)))
        } else {
            None
        }
    } else if t == 4 {
        Some(LiteralV::I8(if v < 0x80 { v as i8 } else { ((v as int) - 0x100) as i8 }))
    } else if t == 5 {
        Some(LiteralV::I16(if v < 0x8000 { v as i16 } else { ((v as int) - 0x10000) as i16 }))
    } else if t == 6 {
        Some(
            LiteralV::I32(
                if v < 0x80000000 { v as i32 } else { ((v as int) - 0x100000000) as i32 },
            ),
        )
    } else if t == 7 {
        Some(
            LiteralV::I64(
                if v < 0x8000000000000000 {
                    v as i64
                } else {
                    ((v as int) - 0x10000000000000000) as i64
                },
            ),
        )
    } else if t == 8 {
        Some(
            LiteralV::I128(
                if v < 0x80000000000000000000000000000000 {
                    v as i128
                } else {
                    ((v as int) - 0x100000000000000000000000000000000) as i128
                },
            ),
        )
    } else if t == 9 {
        Some(LiteralV::U8(v as u8))
    } else if t == 10 {
        Some(LiteralV::U16(v as u16))
    } else if t == 11 {
        Some(LiteralV::U32(v as u32))
    } else if t == 12 {
        Some(LiteralV::U64(v as u64))
    } else if t == 13 {
        Some(LiteralV::U128(v as u128))
    } else if t == 14 {
        if v < scalar_modulus() {
            Some(LiteralV::Scalar(nat_bits(v, 251)))
        } else {
            None
        }
    } else {
        None
    }
}

/// Decodes one literal from the front: tag byte, then payload.
pub open spec fn dec_literal(b: Seq<u8>) -> Option<(LiteralV, int)> {
    if b.len() < 1 {
        None
    } else {
        let t = b[0];
        let w = tag_payload_len(t);
        if t < 15 && b.len() >= 1 + w {
            match lit_from_bits(t, bytes_bits(b.subrange(1, 1 + w as int))) {
                Some(l) => Some((l, 1 + w as int)),
                None => None,
            }
        } else {
            None
        }
    }
}

/// Decodes one operand from the front.
pub open spec fn dec_operand(b: Seq<u8>) -> Option<(OperandV, int)> {
    if b.len() < 1 {
        None
    } else if b[0] == 0 {
        match dec_u32(b.skip(1)) {
            Some((v, n)) => Some((OperandV::Register(v), 1 + n)),
            None => None,
        }
    } else if b[0] == 1 {
        match dec_literal(b.skip(1)) {
            Some((l, n)) => Some((OperandV::Immediate(l), 1 + n)),
            None => None,
        }
    } else {
        None
    }
}

/// Decodes a binary operation from the front.
pub open spec fn dec_operation(b: Seq<u8>) -> Option<(OperationV, int)> {
    match dec_operand(b) {
        None => None,
        Some((first, n1)) => match dec_operand(b.skip(n1)) {
            None => None,
            Some((second, n2)) => match dec_u32(b.skip(n1 + n2)) {
                None => None,
                Some((d, n3)) => Some(
                    (OperationV { first, second, destination: d }, n1 + n2 + n3),
                ),
            },
        },
    }
}

/// Zero-extends a bit vector to `n` bits.
pub(crate) fn pad_bits_to(bits: Vec<bool>, n: usize) -> (r: Vec<bool>)
    requires
        bits@.len() <= n,
    ensures
        r@ == pad_false(bits@, n as nat),
{
    let mut v = bits;
    while v.len() < n
        invariant
            v@.len() <= n,
            v@ == pad_false(bits@, v@.len() as nat),
            bits@.len() <= v@.len(),
        decreases n - v@.len(),
    {
        v.push(false);
        proof {
            assert(v@ =~= pad_false(bits@, v@.len() as nat));
        }
    }
    proof {
        assert(v@ =~= pad_false(bits@, n as nat));
    }
    v
}

/// Encodes one literal canonically.
pub fn encode_literal(l: &Literal) -> (r: Vec<u8>)
    requires
        l.wf(),
    ensures
        r@ == literal_enc(l@),
{
    let (tag, width): (u8, usize) = match l {
        Literal::Address(_) => (0, 32),
        Literal::Boolean(_) => (1, 1),
        Literal::Field(_) => (2, 32),
        Literal::Group(_) => (3, 32),
        Literal::I8(_) => (4, 1),
        Literal::I16(_) => (5, 2),
        Literal::I32(_) => (6, 4),
        Literal::I64(_) => (7, 8),
        Literal::I128(_) => (8, 16),
        Literal::U8(_) => (9, 1),
        Literal::U16(_) => (10, 2),
        Literal::U32(_) => (11, 4),
        Literal::U64(_) => (12, 8),
        Literal::U128(_) => (13, 16),
        Literal::Scalar(_) => (14, 32),
    };
    let bits = l.to_bits_le();
    proof {
        lemma_lv_bits_len(l@);
    }
    let padded = pad_bits_to(bits, 8 * width);
    let mut out: Vec<u8> = Vec::new();
    out.push(tag);
    let mut payload = bits_to_bytes(padded.as_slice());
    let ghost whole = seq![tag] + payload@;
    out.append(&mut payload);
    proof {
        assert(out@ =~= whole);
        assert(out@ =~= literal_enc(l@));
    }
    out
}

/// The serialized width of each literal kind, given well-formed content.
pub proof fn lemma_lv_bits_len(l: LiteralV)
    requires
        lv_wf(l),
    ensures
        lv_bits(l).len() == match l {
            LiteralV::Address(_) => 253nat,
            LiteralV::Boolean(_) => 1nat,
            LiteralV::Field(_) => 253nat,
            LiteralV::Group(_) => 253nat,
            LiteralV::I8(_) => 8nat,
            LiteralV::I16(_) => 16nat,
            LiteralV::I32(_) => 32nat,
            LiteralV::I64(_) => 64nat,
            LiteralV::I128(_) => 128nat,
            LiteralV::U8(_) => 8nat,
            LiteralV::U16(_) => 16nat,
            LiteralV::U32(_) => 32nat,
            LiteralV::U64(_) => 64nat,
            LiteralV::U128(_) => 128nat,
            LiteralV::Scalar(_) => 251nat,
        },
{
    match l {
        LiteralV::I8(v) => lemma_nat_bits_len(crate::literal::u8_of_i8(v), 8),
        LiteralV::I16(v) => lemma_nat_bits_len(crate::literal::u16_of_i16(v), 16),
        LiteralV::I32(v) => lemma_nat_bits_len(crate::literal::u32_of_i32(v), 32),
        LiteralV::I64(v) => lemma_nat_bits_len(crate::literal::u64_of_i64(v), 64),
        LiteralV::I128(v) => lemma_nat_bits_len(crate::literal::u128_of_i128(v), 128),
        LiteralV::U8(v) => lemma_nat_bits_len(v as nat, 8),
        LiteralV::U16(v) => lemma_nat_bits_len(v as nat, 16),
        LiteralV::U32(v) => lemma_nat_bits_len(v as nat, 32),
        LiteralV::U64(v) => lemma_nat_bits_len(v as nat, 64),
        LiteralV::U128(v) => lemma_nat_bits_len(v as nat, 128),
        _ => {},
    }
}

/// Encodes a register index as four little-endian bytes.
pub fn encode_u32(v: u32) -> (r: Vec<u8>)
    ensures
        r@ == u32_enc(v),
{
    let bits = uint_to_bits(v as u128, 32);
    proof {
        lemma_nat_bits_len(v as nat, 32);
    }
    bits_to_bytes(bits.as_slice())
}

/// Encodes one operand canonically.
pub fn encode_operand(o: &Operand) -> (r: Vec<u8>)
    requires
        opv_wf(o@),
    ensures
        r@ == operand_enc(o@),
{
    let mut out: Vec<u8> = Vec::new();
    match o {
        Operand::Register(reg) => {
            out.push(0);
            let mut body = encode_u32(reg.index);
            let ghost whole = seq![0u8] + body@;
            out.append(&mut body);
            proof {
                assert(out@ =~= whole);
                assert(out@ =~= operand_enc(o@));
            }
        },
        Operand::Immediate(l) => {
            out.push(1);
            let mut body = encode_literal(l);
            let ghost whole = seq![1u8] + body@;
            out.append(&mut body);
            proof {
                assert(out@ =~= whole);
                assert(out@ =~= operand_enc(o@));
            }
        },
    }
    out
}

/// Encodes a binary operation canonically: first, second, destination.
pub fn encode_operation(op: &BinaryOperation) -> (r: Vec<u8>)
    requires
        op.wf(),
    ensures
        r@ == operation_enc(op@),
{
    let mut out = encode_operand(&op.first);
    let mut second = encode_operand(&op.second);
    let mut dest = encode_u32(op.destination.index);
    let ghost whole = out@ + second@ + dest@;
    out.append(&mut second);
    out.append(&mut dest);
    proof {
        assert(out@ =~= whole);
        assert(out@ =~= operation_enc(op@));
    }
    out
}

/// Decodes four little-endian bytes from the front of `b`.
pub fn decode_u32(b: &[u8]) -> (r: Option<(u32, usize)>)
    ensures
        r is Some <==> dec_u32(b@) is Some,
        r matches Some((v, n)) ==> dec_u32(b@) == Some((v, n as int)),
{
    if b.len() < 4 {
        return None;
    }
    let four = vstd::slice::slice_subrange(b, 0, 4);
    let bits = bytes_to_bits(four);
    proof {
        lemma_bytes_bits_len(four@);
        lemma_bits_value_bound(bits@);
        lemma2_to64();
        assert(four@ =~= b@.take(4));
    }
    let v = bits_to_u128(bits.as_slice());
    Some((v as u32, 4))
}

/// Decodes one literal from the front of `b`; succeeds exactly on a
/// canonical encoding and returns a well-formed literal.
pub fn decode_literal(b: &[u8]) -> (r: Option<(Literal, usize)>)
    ensures
        r is Some <==> dec_literal(b@) is Some,
        r matches Some((l, n)) ==> dec_literal(b@) == Some((l@, n as int)) && l.wf(),
{
    if b.len() < 1 {
        return None;
    }
    let t = b[0];
    if t >= 15 {
        return None;
    }
    let width: usize = if t == 0 || t == 2 || t == 3 || t == 14 {
        32
    } else if t == 1 || t == 4 || t == 9 {
        1
    } else if t == 5 || t == 10 {
        2
    } else if t == 6 || t == 11 {
        4
    } else if t == 7 || t == 12 {
        8
    } else {
        16
    };
    if b.len() < 1 + width {
        return None;
    }
    let payload = vstd::slice::slice_subrange(b, 1, 1 + width);
    let bits = bytes_to_bits(payload);
    proof {
        assert(payload@ =~= b@.subrange(1, 1 + width as int));
        lemma_bytes_bits_len(payload@);
        lemma_bits_value_bound(bits@);
        lemma2_to64();
        vstd::arithmetic::power2::lemma2_to64_rest();
    }
    if t == 0 || t == 2 || t == 3 {
        match field_from_bits_le(bits.as_slice()) {
            Some(f) => {
                let lit = if t == 0 {
                    Literal::Address(Address { x: f })
                } else if t == 2 {
                    Literal::Field(f)
                } else {
                    Literal::Group(Group { x: f })
                };
                Some((lit, 1 + width))
            },
            None => None,
        }
    } else if t == 14 {
        match scalar_from_bits_le(bits.as_slice()) {
            Some(s) => Some((Literal::Scalar(s), 1 + width)),
            None => None,
        }
    } else if t == 1 {
        let byte = b[1];
        proof {
            assert(payload@ =~= seq![byte]);
            assert(seq![byte].drop_last() =~= Seq::<u8>::empty());
            assert(bytes_bits(Seq::<u8>::empty()) =~= Seq::<bool>::empty());
            assert(Seq::<bool>::empty() + nat_bits(byte as nat, 8) =~= nat_bits(byte as nat, 8));
            assert(bytes_bits(seq![byte]) == Seq::<bool>::empty() + nat_bits(byte as nat, 8));
            lemma_bits_value_nat_bits(byte as nat, 8);
            lemma_small_mod(byte as nat, pow2(8));
            assert(bits_value(bits@) == byte as nat);
        }
        if byte == 0 {
            Some((Literal::Boolean(false), 2))
        } else if byte == 1 {
            Some((Literal::Boolean(true), 2))
        } else {
            None
        }
    } else {
        let v = bits_to_u128(bits.as_slice());
        let lit = if t == 4 {
            Literal::I8(
                if v < 0x80 {
                    v as i8
                } else {
                    (((v as i32) - 0x100) as i8)
                },
            )
        } else if t == 5 {
            Literal::I16(
                if v < 0x8000 {
                    v as i16
                } else {
                    (((v as i32) - 0x10000) as i16)
                },
            )
        } else if t == 6 {
            Literal::I32(
                if v < 0x80000000 {
                    v as i32
                } else {
                    (((v as i64) - 0x100000000) as i32)
                },
            )
        } else if t == 7 {
            Literal::I64(
                if v < 0x8000000000000000 {
                    v as i64
                } else {
                    (((v as i128) - 0x10000000000000000) as i64)
                },
            )
        } else if t == 8 {
            Literal::I128(
                if v < 0x80000000000000000000000000000000 {
                    v as i128
                } else if v == 0x80000000000000000000000000000000 {
                    i128::MIN
                } else {
                    -(((u128::MAX - v) + 1) as i128)
                },
            )
        } else if t == 9 {
            Literal::U8(v as u8)
        } else if t == 10 {
            Literal::U16(v as u16)
        } else if t == 11 {
            Literal::U32(v as u32)
        } else if t == 12 {
            Literal::U64(v as u64)
        } else {
            Literal::U128(v)
        };
        Some((lit, 1 + width))
    }
}

/// Decodes one operand from the front of `b`.
pub fn decode_operand(b: &[u8]) -> (r: Option<(Operand, usize)>)
    ensures
        r is Some <==> dec_operand(b@) is Some,
        r matches Some((o, n)) ==> dec_operand(b@) == Some((o@, n as int)) && opv_wf(o@),
{
    if b.len() < 1 {
        return None;
    }
    let t = b[0];
    let rest = vstd::slice::slice_subrange(b, 1, b.len());
    proof {
        assert(rest@ =~= b@.skip(1));
    }
    if t == 0 {
        match decode_u32(rest) {
            Some((v, n)) => Some((Operand::Register(Register { index: v }), 1 + n)),
            None => None,
        }
    } else if t == 1 {
        match decode_literal(rest) {
            Some((l, n)) => Some((Operand::Immediate(l), 1 + n)),
            None => None,
        }
    } else {
        None
    }
}

/// Decodes a binary operation from the front of `b`: first operand,
/// second operand, destination index.
pub fn decode_operation(b: &[u8]) -> (r: Option<(BinaryOperation, usize)>)
    ensures
        r is Some <==> dec_operation(b@) is Some,
        r matches Some((op, n)) ==> dec_operation(b@) == Some((op@, n as int)) && op.wf(),
{
    let (first, n1) = match decode_operand(b) {
        Some(x) => x,
        None => {
            return None;
        },
    };
    let rest1 = vstd::slice::slice_subrange(b, n1, b.len());
    proof {
        assert(rest1@ =~= b@.skip(n1 as int));
    }
    let (second, n2) = match decode_operand(rest1) {
        Some(x) => x,
        None => {
            return None;
        },
    };
    let rest2 = vstd::slice::slice_subrange(b, n1 + n2, b.len());
    proof {
        assert(rest2@ =~= b@.skip(n1 as int + n2 as int));
    }
    let (d, n3) = match decode_u32(rest2) {
        Some(x) => x,
        None => {
            return None;
        },
    };
    Some(
        (
            BinaryOperation { first, second, destination: Register { index: d } },
            n1 + n2 + n3,
        ),
    )
}

/// Decoding an encoded register index consumes exactly the encoding and
/// reproduces the index.
pub proof fn lemma_dec_enc_u32(v: u32, rest: Seq<u8>)
    ensures
        u32_enc(v).len() == 4,
        dec_u32(u32_enc(v) + rest) == Some((v, 4int)),
{
    lemma_nat_bits_len(v as nat, 32);
    lemma_bytes_of_bits(nat_bits(v as nat, 32));
    let e = u32_enc(v);
    assert((e + rest).take(4) =~= e);
    lemma_bits_value_nat_bits(v as nat, 32);
    lemma2_to64();
    lemma_small_mod(v as nat, pow2(32));
}

/// Decoding an encoded literal consumes exactly the encoding and
/// reproduces the literal.
pub proof fn lemma_dec_enc_literal(l: LiteralV, rest: Seq<u8>)
    requires
        lv_wf(l),
    ensures
        literal_enc(l).len() == 1 + tag_payload_len(lit_tag(l)),
        dec_literal(literal_enc(l) + rest) == Some((l, literal_enc(l).len() as int)),
{
    let t = lit_tag(l);
    let w = tag_payload_len(t);
    let padded = pad_false(lv_bits(l), 8 * w);
    let p = bytes_of_bits(padded);
    lemma_lv_bits_len(l);
    lemma_bytes_of_bits(padded);
    lemma_bits_value_pad(lv_bits(l), 8 * w);
    let e = literal_enc(l);
    let b = e + rest;
    assert(b[0] == t);
    assert(b.subrange(1, 1 + w as int) =~= p);
    let v = bits_value(lv_bits(l));
    assert(bits_value(bytes_bits(b.subrange(1, 1 + w as int))) == v);
    lemma2_to64();
    match l {
        LiteralV::Address(x) => {
            lemma_nat_bits_of_bits_value(x);
        },
        LiteralV::Field(x) => {
            lemma_nat_bits_of_bits_value(x);
        },
        LiteralV::Group(x) => {
            lemma_nat_bits_of_bits_value(x);
        },
        LiteralV::Scalar(x) => {
            lemma_nat_bits_of_bits_value(x);
        },
        LiteralV::Boolean(bv) => {
            assert(seq![bv].drop_first() =~= Seq::<bool>::empty());
            assert(bits_value(Seq::<bool>::empty()) == 0);
            assert(v == if bv {
                1nat
            } else {
                0nat
            });
        },
        LiteralV::I8(x) => {
            lemma_bits_value_nat_bits(crate::literal::u8_of_i8(x), 8);
            lemma_small_mod(crate::literal::u8_of_i8(x), pow2(8));
        },
        LiteralV::I16(x) => {
            lemma_bits_value_nat_bits(crate::literal::u16_of_i16(x), 16);
            lemma_small_mod(crate::literal::u16_of_i16(x), pow2(16));
        },
        LiteralV::I32(x) => {
            lemma_bits_value_nat_bits(crate::literal::u32_of_i32(x), 32);
            lemma_small_mod(crate::literal::u32_of_i32(x), pow2(32));
        },
        LiteralV::I64(x) => {
            lemma_bits_value_nat_bits(crate::literal::u64_of_i64(x), 64);
            lemma_small_mod(crate::literal::u64_of_i64(x), pow2(64));
        },
        LiteralV::I128(x) => {
            lemma_bits_value_nat_bits(crate::literal::u128_of_i128(x), 128);
            lemma_pow2_128_facts();
            lemma_small_mod(crate::literal::u128_of_i128(x), pow2(128));
        },
        LiteralV::U8(x) => {
            lemma_bits_value_nat_bits(x as nat, 8);
            lemma_small_mod(x as nat, pow2(8));
        },
        LiteralV::U16(x) => {
            lemma_bits_value_nat_bits(x as nat, 16);
            lemma_small_mod(x as nat, pow2(16));
        },
        LiteralV::U32(x) => {
            lemma_bits_value_nat_bits(x as nat, 32);
            lemma_small_mod(x as nat, pow2(32));
        },
        LiteralV::U64(x) => {
            lemma_bits_value_nat_bits(x as nat, 64);
            lemma_small_mod(x as nat, pow2(64));
        },
        LiteralV::U128(x) => {
            lemma_bits_value_nat_bits(x as nat, 128);
            lemma_pow2_128_facts();
            lemma_small_mod(x as nat, pow2(128));
        },
    }
}

pub proof fn lemma_pow2_128_facts()
    ensures
        pow2(128) == 0x100000000000000000000000000000000,
{
    lemma2_to64();
    vstd::arithmetic::power2::lemma_pow2_adds(64, 64);
    assert(pow2(128) == 0x100000000000000000000000000000000) by (nonlinear_arith)
        requires
            pow2(128) == pow2(64) * pow2(64),
            pow2(64) == 0x10000000000000000,
    ;
}

/// Decoding an encoded operand consumes exactly the encoding and
/// reproduces the operand.
pub proof fn lemma_dec_enc_operand(o: OperandV, rest: Seq<u8>)
    requires
        opv_wf(o),
    ensures
        dec_operand(operand_enc(o) + rest) == Some((o, operand_enc(o).len() as int)),
{
    let b = operand_enc(o) + rest;
    match o {
        OperandV::Register(i) => {
            assert(b[0] == 0);
            assert(b.skip(1) =~= u32_enc(i) + rest);
            lemma_dec_enc_u32(i, rest);
        },
        OperandV::Immediate(l) => {
            assert(b[0] == 1);
            assert(b.skip(1) =~= literal_enc(l) + rest);
            lemma_dec_enc_literal(l, rest);
        },
    }
}

/// Decoding an encoded operation consumes exactly the encoding and
/// reproduces the operation: the binary round trip.
pub proof fn lemma_dec_enc_operation(op: OperationV, rest: Seq<u8>)
    requires
        opv_wf(op.first),
        opv_wf(op.second),
    ensures
        dec_operation(operation_enc(op) + rest) == Some((op, operation_enc(op).len() as int)),
{
    let e1 = operand_enc(op.first);
    let e2 = operand_enc(op.second);
    let e3 = u32_enc(op.destination);
    let b = operation_enc(op) + rest;
    assert(b =~= e1 + (e2 + (e3 + rest)));
    lemma_dec_enc_operand(op.first, e2 + (e3 + rest));
    assert(b.skip(e1.len() as int) =~= e2 + (e3 + rest));
    lemma_dec_enc_operand(op.second, e3 + rest);
    assert(b.skip(e1.len() as int + e2.len() as int) =~= e3 + rest);
    lemma_dec_enc_u32(op.destination, rest);
}

/// The binary round trip with nothing following the encoding.
pub proof fn lemma_operation_round_trip(op: OperationV)
    requires
        opv_wf(op.first),
        opv_wf(op.second),
    ensures
        dec_operation(operation_enc(op)) == Some((op, operation_enc(op).len() as int)),
{
    lemma_dec_enc_operation(op, Seq::empty());
    assert(operation_enc(op) + Seq::<u8>::empty() =~= operation_enc(op));
}

} // verus!
