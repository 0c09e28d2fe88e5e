//! The machine's primitive values and register contents.
//!
//! A `Literal` is one typed primitive value; a `Value` is either a bare
//! literal or a named composite (record) of literals. Each executable type
//! has a ghost view (`LiteralV`, `ValueV`) so that contracts can speak of
//! the mathematical content — bit patterns and plain integers — rather
//! than of heap structure.
use vstd::prelude::*;
use crate::bits::{bits_value, nat_bits, uint_to_bits};
use crate::field::{FieldElement, Scalar, pad_false, field_modulus, scalar_modulus};

verus! {

/// A curve point, held by the x-coordinate of its compressed form — the
/// only part of a point this machine ever serializes or hashes.
pub struct Group {
    pub x: FieldElement,
}

/// An account address, held as the x-coordinate of its underlying curve
/// point.
pub struct Address {
    pub x: FieldElement,
}

/// The ghost content of a literal: its kind and its plain value.
pub enum LiteralV {
    Address(Seq<bool>),
    Boolean(bool),
    Field(Seq<bool>),
    Group(Seq<bool>),
    I8(i8),
    I16(i16),
    I32(i32),
    I64(i64),
    I128(i128),
    U8(u8),
    U16(u16),
    U32(u32),
    U64(u64),
    U128(u128),
    Scalar(Seq<bool>),
}

/// A single typed primitive value.
pub enum Literal {
    Address(Address),
    Boolean(bool),
    Field(FieldElement),
    Group(Group),
    I8(i8),
    I16(i16),
    I32(i32),
    I64(i64),
    I128(i128),
    U8(u8),
    U16(u16),
    U32(u32),
    U64(u64),
    U128(u128),
    Scalar(Scalar),
}

impl View for Literal {
    type V = LiteralV;

    open spec fn view(&self) -> LiteralV {
        match *self {
            Literal::Address(a) => LiteralV::Address(a.x@),
            Literal::Boolean(b) => LiteralV::Boolean(b),
            Literal::Field(f) => LiteralV::Field(f@),
            Literal::Group(g) => LiteralV::Group(g.x@),
            Literal::I8(v) => LiteralV::I8(v),
            Literal::I16(v) => LiteralV::I16(v),
            Literal::I32(v) => LiteralV::I32(v),
            Literal::I64(v) => LiteralV::I64(v),
            Literal::I128(v) => LiteralV::I128(v),
            Literal::U8(v) => LiteralV::U8(v),
            Literal::U16(v) => LiteralV::U16(v),
            Literal::U32(v) => LiteralV::U32(v),
            Literal::U64(v) => LiteralV::U64(v),
            Literal::U128(v) => LiteralV::U128(v),
            Literal::Scalar(s) => LiteralV::Scalar(s@),
        }
    }
}

/// Well-formedness of a literal's content: algebraic kinds carry a
/// canonical bit pattern of the right width.
pub open spec fn lv_wf(l: LiteralV) -> bool {
    match l {
        LiteralV::Address(x) => x.len() == 253 && bits_value(x) < field_modulus(),
        LiteralV::Field(x) => x.len() == 253 && bits_value(x) < field_modulus(),
        LiteralV::Group(x) => x.len() == 253 && bits_value(x) < field_modulus(),
        LiteralV::Scalar(x) => x.len() == 251 && bits_value(x) < scalar_modulus(),
        _ => true,
    }
}

/// The field-friendly kinds: those with a direct field projection.
pub open spec fn lv_is_field_friendly(l: LiteralV) -> bool {
    l is Address || l is Field || l is Group || l is Scalar
}


/// The two's-complement byte value of a signed integer, stated with plain
/// arithmetic: a negative value is offset by the type's modulus.
pub open spec fn u8_of_i8(x: i8) -> nat {
    if x >= 0 { x as nat } else { (x + 0x100) as nat }
}

pub open spec fn u16_of_i16(x: i16) -> nat {
    if x >= 0 { x as nat } else { (x + 0x10000) as nat }
}

pub open spec fn u32_of_i32(x: i32) -> nat {
    if x >= 0 { x as nat } else { (x + 0x100000000) as nat }
}

pub open spec fn u64_of_i64(x: i64) -> nat {
    if x >= 0 { x as nat } else { (x + 0x10000000000000000) as nat }
}

pub open spec fn u128_of_i128(x: i128) -> nat {
    if x >= 0 { x as nat } else { (x + 0x100000000000000000000000000000000) as nat }
}

/// The little-endian bit serialization of one literal. Algebraic kinds
/// contribute their canonical bit pattern; integers their two's-complement
/// bits; a boolean a single bit.
pub open spec fn lv_bits(l: LiteralV) -> Seq<bool> {
    match l {
        LiteralV::Address(x) => x,
        LiteralV::Boolean(b) => seq![b],
        LiteralV::Field(x) => x,
        LiteralV::Group(x) => x,
        LiteralV::I8(v) => nat_bits(u8_of_i8(v), 8),
        LiteralV::I16(v) => nat_bits(u16_of_i16(v), 16),
        LiteralV::I32(v) => nat_bits(u32_of_i32(v), 32),
        LiteralV::I64(v) => nat_bits(u64_of_i64(v), 64),
        LiteralV::I128(v) => nat_bits(u128_of_i128(v), 128),
        LiteralV::U8(v) => nat_bits(v as nat, 8),
        LiteralV::U16(v) => nat_bits(v as nat, 16),
        LiteralV::U32(v) => nat_bits(v as nat, 32),
        LiteralV::U64(v) => nat_bits(v as nat, 64),
        LiteralV::U128(v) => nat_bits(v as nat, 128),
        LiteralV::Scalar(x) => x,
    }
}

/// The direct field projection of a field-friendly literal: addresses and
/// group elements project to their x-coordinate, a field element to
/// itself, a scalar to its zero-extended embedding.
pub open spec fn lv_field_projection(l: LiteralV) -> Seq<bool> {
    match l {
        LiteralV::Address(x) => x,
        LiteralV::Field(x) => x,
        LiteralV::Group(x) => x,
        LiteralV::Scalar(x) => pad_false(x, 253),
        _ => Seq::empty(),
    }
}

impl Literal {
    /// The literal's content is well-formed.
    pub open spec fn wf(&self) -> bool {
        lv_wf(self@)
    }

    /// Whether this literal is of a field-friendly kind.
    pub fn is_field_friendly(&self) -> (r: bool)
        ensures
            r == lv_is_field_friendly(self@),
    {
        matches!(
            self,
            Literal::Address(_) | Literal::Field(_) | Literal::Group(_) | Literal::Scalar(_)
        )
    }

    /// The literal's little-endian bit serialization.
    pub fn to_bits_le(&self) -> (r: Vec<bool>)
        ensures
            r@ == lv_bits(self@),
    {
        match self {
            Literal::Address(a) => a.x.bits_le(),
            Literal::Boolean(b) => {
                let mut v: Vec<bool> = Vec::new();
                v.push(*b);
                proof {
                    assert(v@ =~= seq![*b]);
                }
                v
            },
            Literal::Field(f) => f.bits_le(),
            Literal::Group(g) => g.x.bits_le(),
            Literal::I8(v) => {
                let uv: u128 = if *v >= 0 {
                    *v as u128
                } else {
                    ((*v as i32) + 0x100) as u128
                };
                uint_to_bits(uv, 8)
            },
            Literal::I16(v) => {
                let uv: u128 = if *v >= 0 {
                    *v as u128
                } else {
                    ((*v as i32) + 0x10000) as u128
                };
                uint_to_bits(uv, 16)
            },
            Literal::I32(v) => {
                let uv: u128 = if *v >= 0 {
                    *v as u128
                } else {
                    ((*v as i64) + 0x100000000) as u128
                };
                uint_to_bits(uv, 32)
            },
            Literal::I64(v) => {
                let uv: u128 = if *v >= 0 {
                    *v as u128
                } else {
                    ((*v as i128) + 0x10000000000000000) as u128
                };
                uint_to_bits(uv, 64)
            },
            Literal::I128(v) => {
                let uv: u128 = if *v >= 0 {
                    *v as u128
                } else if *v == i128::MIN {
                    0x80000000000000000000000000000000u128
                } else {
                    let m = (-*v) as u128;
                    (u128::MAX - m) + 1
                };
                uint_to_bits(uv, 128)
            },
            Literal::U8(v) => uint_to_bits(*v as u128, 8),
            Literal::U16(v) => uint_to_bits(*v as u128, 16),
            Literal::U32(v) => uint_to_bits(*v as u128, 32),
            Literal::U64(v) => uint_to_bits(*v as u128, 64),
            Literal::U128(v) => uint_to_bits(*v, 128),
            Literal::Scalar(s) => s.bits_le(),
        }
    }

    /// The direct field projection of a field-friendly literal.
    pub fn to_field_projection(&self) -> (r: FieldElement)
        requires
            self.wf(),
            lv_is_field_friendly(self@),
        ensures
            r.wf(),
            r@ == lv_field_projection(self@),
    {
        match self {
            Literal::Address(a) => a.x.clone(),
            Literal::Field(f) => f.clone(),
            Literal::Group(g) => g.x.clone(),
            Literal::Scalar(s) => {
                let r = s.to_field();
                r
            },
            _ => vstd::pervasive::unreached(),
        }
    }
}

impl Clone for Literal {
    fn clone(&self) -> (r: Self)
        ensures
            r@ == self@,
    {
        match self {
            Literal::Address(a) => Literal::Address(Address { x: a.x.clone() }),
            Literal::Boolean(b) => Literal::Boolean(*b),
            Literal::Field(f) => Literal::Field(f.clone()),
            Literal::Group(g) => Literal::Group(Group { x: g.x.clone() }),
            Literal::I8(v) => Literal::I8(*v),
            Literal::I16(v) => Literal::I16(*v),
            Literal::I32(v) => Literal::I32(*v),
            Literal::I64(v) => Literal::I64(*v),
            Literal::I128(v) => Literal::I128(*v),
            Literal::U8(v) => Literal::U8(*v),
            Literal::U16(v) => Literal::U16(*v),
            Literal::U32(v) => Literal::U32(*v),
            Literal::U64(v) => Literal::U64(*v),
            Literal::U128(v) => Literal::U128(*v),
            Literal::Scalar(s) => Literal::Scalar(s.clone()),
        }
    }
}

/// The ghost content of a register value.
pub enum ValueV {
    Literal(LiteralV),
    Composite(Seq<char>, Seq<LiteralV>),
}

/// What an operand resolves to: a bare literal, or a named composite of
/// literals.
pub enum Value {
    Literal(Literal),
    Composite(String, Vec<Literal>),
}

/// The views of a sequence of literals.
pub open spec fn literals_view(s: Seq<Literal>) -> Seq<LiteralV> {
    s.map_values(|l: Literal| l@)
}

impl View for Value {
    type V = ValueV;

    open spec fn view(&self) -> ValueV {
        match self {
            Value::Literal(l) => ValueV::Literal(l@),
            Value::Composite(name, lits) => ValueV::Composite(name@, literals_view(lits@)),
        }
    }
}

/// Well-formedness of a register value's content.
pub open spec fn vv_wf(v: ValueV) -> bool {
    match v {
        ValueV::Literal(l) => lv_wf(l),
        ValueV::Composite(_, ls) => forall|i: int| 0 <= i < ls.len() ==> lv_wf(#[trigger] ls[i]),
    }
}

impl Value {
    /// The value's content is well-formed.
    pub open spec fn wf(&self) -> bool {
        vv_wf(self@)
    }
}

/// Copies a literal sequence, preserving each literal's content.
pub fn clone_literals(ls: &Vec<Literal>) -> (r: Vec<Literal>)
    ensures
        literals_view(r@) == literals_view(ls@),
        r@.len() == ls@.len(),
{
    let mut r: Vec<Literal> = Vec::new();
    let n = ls.len();
    let mut i: usize = 0;
    while i < n
        invariant
            i <= n,
            n == ls@.len(),
            r@.len() == i,
            forall|j: int| 0 <= j < i ==> #[trigger] r@[j]@ == ls@[j]@,
        decreases n - i,
    {
        r.push(ls[i].clone());
        i = i + 1;
    }
    proof {
        assert(literals_view(r@) =~= literals_view(ls@));
    }
    r
}

impl Clone for Value {
    fn clone(&self) -> (r: Self)
        ensures
            r@ == self@,
    {
        match self {
            Value::Literal(l) => Value::Literal(l.clone()),
            Value::Composite(name, lits) => {
                Value::Composite(name.clone(), clone_literals(lits))
            },
        }
    }
}

} // verus!
