//! Operand references and the shared two-operand operation descriptor.
//!
//! An operand is a symbolic handle: a register index resolved against the
//! register file at evaluation time, or an immediate literal. The binary
//! operation descriptor — two operands and a destination register — is the
//! shape every two-operand instruction of the machine shares.
use vstd::prelude::*;
use crate::literal::{Literal, LiteralV};

verus! {

/// A register reference: an index into the register file.
#[derive(Clone, Copy, PartialEq, Eq, Structural)]
pub struct Register {
    pub index: u32,
}

/// The ghost content of an operand.
pub enum OperandV {
    Register(u32),
    Immediate(LiteralV),
}

/// A symbolic operand: a register reference or an immediate literal.
pub enum Operand {
    Register(Register),
    Immediate(Literal),
}

impl View for Operand {
    type V = OperandV;

    open spec fn view(&self) -> OperandV {
        match self {
            Operand::Register(r) => OperandV::Register(r.index),
            Operand::Immediate(l) => OperandV::Immediate(l@),
        }
    }
}

/// Well-formedness of an operand's content.
pub open spec fn opv_wf(o: OperandV) -> bool {
    match o {
        OperandV::Register(_) => true,
        OperandV::Immediate(l) => crate::literal::lv_wf(l),
    }
}

impl Clone for Operand {
    fn clone(&self) -> (r: Self)
        ensures
            r@ == self@,
    {
        match self {
            Operand::Register(r) => Operand::Register(*r),
            Operand::Immediate(l) => Operand::Immediate(l.clone()),
        }
    }
}

/// The ghost content of a binary operation descriptor.
pub struct OperationV {
    pub first: OperandV,
    pub second: OperandV,
    pub destination: u32,
}

/// The machine's shared two-operand operation descriptor: a first and a
/// second operand, and the register the result is written to.
pub struct BinaryOperation {
    pub first: Operand,
    pub second: Operand,
    pub destination: Register,
}

impl View for BinaryOperation {
    type V = OperationV;

    open spec fn view(&self) -> OperationV {
        OperationV {
            first: self.first@,
            second: self.second@,
            destination: self.destination.index,
        }
    }
}

impl BinaryOperation {
    /// Both immediate operands, if any, carry well-formed content.
    pub open spec fn wf(&self) -> bool {
        opv_wf(self@.first) && opv_wf(self@.second)
    }

    /// The ordered operand list: first, then second.
    pub fn operands(&self) -> (r: Vec<Operand>)
        ensures
            r@.len() == 2,
            r@[0]@ == self@.first,
            r@[1]@ == self@.second,
    {
        let mut r: Vec<Operand> = Vec::new();
        r.push(self.first.clone());
        r.push(self.second.clone());
        r
    }

    /// The destination register.
    pub fn destination(&self) -> (r: Register)
        ensures
            r.index == self@.destination,
    {
        self.destination
    }
}

impl Clone for BinaryOperation {
    fn clone(&self) -> (r: Self)
        ensures
            r@ == self@,
    {
        BinaryOperation {
            first: self.first.clone(),
            second: self.second.clone(),
            destination: self.destination,
        }
    }
}

} // verus!
