//! The PRF instruction family: one instruction shape, three opcode tags.
//!
//! A `PRF` owns a binary operation descriptor (seed operand, input
//! operand, destination register) and an opcode tag selecting which of
//! the three hash capabilities evaluation invokes. Evaluation loads the
//! seed (which must resolve to a bare `Field` literal), loads and coerces
//! the input, dispatches on the tag, and writes the digest to the
//! destination — or fails before any write.
use vstd::prelude::*;
use crate::coerce::{coerce_spec, to_field_elements};
use crate::hash::{fe_views, prf_psd2, prf_psd4, prf_psd8, psd2_of, psd4_of, psd8_of};
use crate::literal::{Literal, LiteralV, Value, ValueV, literals_view};
use crate::operand::{BinaryOperation, Operand, OperandV, OperationV, Register};
use crate::registers::{Registers, load_spec};

verus! {

/// The closed set of PRF opcode tags, one per supported arity.
#[derive(Clone, Copy, PartialEq, Eq, Structural, Debug)]
pub enum PRFOpcode {
    Psd2,
    Psd4,
    Psd8,
}

/// The canonical mnemonic of an opcode tag.
pub open spec fn opcode_text(op: PRFOpcode) -> Seq<char> {
    match op {
        PRFOpcode::Psd2 => "prf.psd2"@,
        PRFOpcode::Psd4 => "prf.psd4"@,
        PRFOpcode::Psd8 => "prf.psd8"@,
    }
}

impl PRFOpcode {
    /// The opcode's mnemonic string.
    pub fn opcode(&self) -> (r: &'static str)
        ensures
            r@ == opcode_text(*self),
    {
        match self {
            PRFOpcode::Psd2 => "prf.psd2",
            PRFOpcode::Psd4 => "prf.psd4",
            PRFOpcode::Psd8 => "prf.psd8",
        }
    }
}

/// The digest the tagged hash capability returns, by tag.
pub open spec fn prf_digest_spec(op: PRFOpcode, seed: Seq<bool>, input: Seq<Seq<bool>>) -> Seq<
    bool,
> {
    match op {
        PRFOpcode::Psd2 => psd2_of(seed, input),
        PRFOpcode::Psd4 => psd4_of(seed, input),
        PRFOpcode::Psd8 => psd8_of(seed, input),
    }
}

/// Why an evaluation halted. The first variant reports a malformed
/// resolution (a register that does not exist or was never assigned); the
/// second a user-level malformation (a composite where the seed literal
/// must stand); the third an internal invariant violation (a seed literal
/// of a kind other than `Field`).
pub enum VmError {
    UndefinedRegister { index: u32 },
    CompositeSeed { name: String },
    SeedNotField,
}

/// The ghost content of an evaluation error.
pub enum VmErrorV {
    UndefinedRegister(u32),
    CompositeSeed(Seq<char>),
    SeedNotField,
}

impl View for VmError {
    type V = VmErrorV;

    open spec fn view(&self) -> VmErrorV {
        match self {
            VmError::UndefinedRegister { index } => VmErrorV::UndefinedRegister(*index),
            VmError::CompositeSeed { name } => VmErrorV::CompositeSeed(name@),
            VmError::SeedNotField => VmErrorV::SeedNotField,
        }
    }
}

/// The register index an operand names (meaningful only for register
/// operands, the only ones whose resolution can fail).
pub open spec fn operand_reg_index(op: OperandV) -> u32 {
    match op {
        OperandV::Register(i) => i,
        OperandV::Immediate(_) => 0,
    }
}

/// The literal sequence an input value contributes to hashing: a bare
/// literal as a one-element sequence, a composite as its literal list
/// (its name is discarded).
pub open spec fn value_literals(v: ValueV) -> Seq<LiteralV> {
    match v {
        ValueV::Literal(l) => seq![l],
        ValueV::Composite(_, ls) => ls,
    }
}

/// The ghost content of a PRF instruction.
pub struct PRFV {
    pub operation: OperationV,
    pub opcode: PRFOpcode,
}

/// A PRF instruction: a binary operation descriptor tagged with one of
/// the three opcodes. The tag and the hash call always agree, by
/// construction.
pub struct PRF {
    operation: BinaryOperation,
    opcode: PRFOpcode,
}

impl View for PRF {
    type V = PRFV;

    closed spec fn view(&self) -> PRFV {
        PRFV { operation: self.operation@, opcode: self.opcode }
    }
}

/// What evaluating a PRF instruction does to a register file: either the
/// digest is written to the destination, or evaluation halts with an
/// error and the file is untouched.
pub open spec fn eval_spec(p: PRFV, rv: Seq<Option<ValueV>>) -> Result<
    Seq<Option<ValueV>>,
    VmErrorV,
> {
    match load_spec(rv, p.operation.first) {
        None => Err(VmErrorV::UndefinedRegister(operand_reg_index(p.operation.first))),
        Some(ValueV::Composite(name, _)) => Err(VmErrorV::CompositeSeed(name)),
        Some(ValueV::Literal(seed_lit)) => match seed_lit {
            LiteralV::Field(seed) => match load_spec(rv, p.operation.second) {
                None => Err(VmErrorV::UndefinedRegister(operand_reg_index(p.operation.second))),
                Some(input) => {
                    let digest = prf_digest_spec(
                        p.opcode,
                        seed,
                        coerce_spec(value_literals(input)),
                    );
                    if p.operation.destination < rv.len() {
                        Ok(
                            rv.update(
                                p.operation.destination as int,
                                Some(ValueV::Literal(LiteralV::Field(digest))),
                            ),
                        )
                    } else {
                        Err(VmErrorV::UndefinedRegister(p.operation.destination))
                    }
                },
            },
            _ => Err(VmErrorV::SeedNotField),
        },
    }
}

impl PRF {
    /// The instruction's content is well-formed.
    pub open spec fn wf(&self) -> bool {
        crate::operand::opv_wf(self@.operation.first) && crate::operand::opv_wf(
            self@.operation.second,
        )
    }

    /// Builds the instruction for a given operation and opcode tag.
    pub fn new(operation: BinaryOperation, opcode: PRFOpcode) -> (r: PRF)
        ensures
            r@.operation == operation@,
            r@.opcode == opcode,
    {
        PRF { operation, opcode }
    }

    /// The ordered operand list: seed operand, then input operand.
    pub fn operands(&self) -> (r: Vec<Operand>)
        ensures
            r@.len() == 2,
            r@[0]@ == self@.operation.first,
            r@[1]@ == self@.operation.second,
    {
        self.operation.operands()
    }

    /// The destination register.
    pub fn destination(&self) -> (r: Register)
        ensures
            r.index == self@.operation.destination,
    {
        self.operation.destination()
    }

    /// This instruction's opcode tag.
    pub fn opcode(&self) -> (r: PRFOpcode)
        ensures
            r == self@.opcode,
    {
        self.opcode
    }

    /// Evaluates the instruction against a register file: loads the seed
    /// (a bare `Field` literal), loads and coerces the input, dispatches
    /// on the opcode tag, and writes the digest to the destination. On
    /// error the file is left untouched.
    pub fn evaluate(&self, registers: &mut Registers) -> (r: Result<(), VmError>)
        requires
            self.wf(),
            old(registers).wf(),
        ensures
            final(registers).wf(),
            match eval_spec(self@, old(registers)@) {
                Ok(rv) => r is Ok && final(registers)@ == rv,
                Err(e) => (r matches Err(err) && err@ == e) && final(registers)@ == old(
                    registers,
                )@,
            },
    {
        // Load the seed from the first operand; it must be a bare literal.
        let seed_lit = match registers.load(&self.operation.first) {
            Some(Value::Literal(l)) => l,
            Some(Value::Composite(name, _)) => {
                return Err(VmError::CompositeSeed { name });
            },
            None => {
                let index = match &self.operation.first {
                    Operand::Register(reg) => reg.index,
                    Operand::Immediate(_) => vstd::pervasive::unreached(),
                };
                return Err(VmError::UndefinedRegister { index });
            },
        };
        // Narrow the seed to a field element.
        let seed = match seed_lit {
            Literal::Field(f) => f,
            _ => {
                return Err(VmError::SeedNotField);
            },
        };
        // Load the input from the second operand; a bare literal becomes a
        // one-element sequence, a composite contributes its literal list.
        let input: Vec<Literal> = match registers.load(&self.operation.second) {
            Some(Value::Literal(l)) => {
                let mut v: Vec<Literal> = Vec::new();
                v.push(l);
                v
            },
            Some(Value::Composite(_, ls)) => ls,
            None => {
                let index = match &self.operation.second {
                    Operand::Register(reg) => reg.index,
                    Operand::Immediate(_) => vstd::pervasive::unreached(),
                };
                return Err(VmError::UndefinedRegister { index });
            },
        };
        proof {
            let loaded = load_spec(old(registers)@, self@.operation.second).unwrap();
            assert(literals_view(input@) =~= value_literals(loaded));
        }
        // Coerce the input into field elements and dispatch on the tag.
        let packed = to_field_elements(&input);
        let digest = match self.opcode {
            PRFOpcode::Psd2 => prf_psd2(&seed, &packed),
            PRFOpcode::Psd4 => prf_psd4(&seed, &packed),
            PRFOpcode::Psd8 => prf_psd8(&seed, &packed),
        };
        proof {
            let loaded = load_spec(old(registers)@, self@.operation.second).unwrap();
            assert(fe_views(packed@) =~= coerce_spec(value_literals(loaded)));
        }
        if registers.assign(self.operation.destination, Literal::Field(digest)) {
            Ok(())
        } else {
            Err(VmError::UndefinedRegister { index: self.operation.destination.index })
        }
    }

    /// Serializes the instruction: a pure pass-through to the operation
    /// descriptor's own encoding. The opcode discriminant is external, as
    /// it is for every instruction family.
    pub fn write_le(&self) -> (r: Vec<u8>)
        requires
            self.wf(),
        ensures
            r@ == crate::bytes::operation_enc(self@.operation),
    {
        crate::bytes::encode_operation(&self.operation)
    }

    /// Deserializes an instruction for the opcode tag the caller selected,
    /// consuming a prefix of `bytes`: a pure pass-through to the operation
    /// descriptor's own decoding.
    pub fn read_le(bytes: &[u8], opcode: PRFOpcode) -> (r: Option<(PRF, usize)>)
        ensures
            r is Some <==> crate::bytes::dec_operation(bytes@) is Some,
            r matches Some((p, n)) ==> p.wf() && p@.opcode == opcode
                && crate::bytes::dec_operation(bytes@) == Some((p@.operation, n as int)),
    {
        match crate::bytes::decode_operation(bytes) {
            Some((operation, n)) => Some((PRF { operation, opcode }, n)),
            None => None,
        }
    }

    /// Renders the instruction's mnemonic body: a pure pass-through to
    /// the operation descriptor's textual form. The opcode prefix is
    /// supplied by the surrounding instruction-list renderer.
    pub fn render_text(&self) -> (r: Vec<u8>)
        requires
            self.wf(),
        ensures
            r@ == crate::text::operation_text(self@.operation),
    {
        crate::text::render_operation(&self.operation)
    }

    /// Parses an instruction body for the opcode tag the caller selected,
    /// consuming a prefix of `bytes`; the tag itself never fails to
    /// attach, and a failure of the operand grammar is propagated
    /// unchanged.
    pub fn parse_text(bytes: &[u8], opcode: PRFOpcode) -> (r: Option<(PRF, usize)>)
        ensures
            r is Some <==> crate::text::parse_operation_spec(bytes@) is Some,
            r matches Some((p, n)) ==> p.wf() && p@.opcode == opcode
                && crate::text::parse_operation_spec(bytes@) == Some((p@.operation, n as int)),
    {
        match crate::text::parse_operation(bytes) {
            Some((operation, n)) => Some((PRF { operation, opcode }, n)),
            None => None,
        }
    }

    /// Converts the instruction into the machine's global instruction
    /// representation, keyed directly on the closed tag set.
    pub fn into_instruction(self) -> (r: Instruction)
        ensures
            r.wf() <== self.wf(),
            match r {
                Instruction::PRFPsd2(p) => p@ == self@ && self@.opcode == PRFOpcode::Psd2,
                Instruction::PRFPsd4(p) => p@ == self@ && self@.opcode == PRFOpcode::Psd4,
                Instruction::PRFPsd8(p) => p@ == self@ && self@.opcode == PRFOpcode::Psd8,
            },
    {
        match self.opcode {
            PRFOpcode::Psd2 => Instruction::PRFPsd2(self),
            PRFOpcode::Psd4 => Instruction::PRFPsd4(self),
            PRFOpcode::Psd8 => Instruction::PRFPsd8(self),
        }
    }
}

/// Determinism: what evaluation does is a function of the instruction's
/// content and the register file's content alone — `evaluate` pins its
/// result and the final file to `eval_spec(self@, old(registers)@)`, and
/// `eval_spec` carries no other state. Two evaluations of instructions
/// with equal content against files with equal content agree exactly.
pub proof fn lemma_evaluate_deterministic(
    p1: PRFV,
    p2: PRFV,
    rv1: Seq<Option<ValueV>>,
    rv2: Seq<Option<ValueV>>,
)
    requires
        p1 == p2,
        rv1 == rv2,
    ensures
        eval_spec(p1, rv1) == eval_spec(p2, rv2),
{
}

/// Dispatch is exhaustive and tag-faithful: each opcode tag selects
/// exactly its own hash capability.
pub proof fn lemma_dispatch_exhaustive(seed: Seq<bool>, input: Seq<Seq<bool>>)
    ensures
        prf_digest_spec(PRFOpcode::Psd2, seed, input) == psd2_of(seed, input),
        prf_digest_spec(PRFOpcode::Psd4, seed, input) == psd4_of(seed, input),
        prf_digest_spec(PRFOpcode::Psd8, seed, input) == psd8_of(seed, input),
{
}

/// The round trip law: decoding the bytes an instruction writes, or
/// parsing the text it renders, reproduces the operation exactly; the
/// opcode tag is re-attached by the caller, as the decoding discipline
/// prescribes.
pub proof fn lemma_prf_round_trip(p: PRFV)
    requires
        crate::operand::opv_wf(p.operation.first),
        crate::operand::opv_wf(p.operation.second),
    ensures
        crate::bytes::dec_operation(crate::bytes::operation_enc(p.operation)) == Some(
            (p.operation, crate::bytes::operation_enc(p.operation).len() as int),
        ),
        crate::text::parse_operation_spec(crate::text::operation_text(p.operation)) == Some(
            (p.operation, crate::text::operation_text(p.operation).len() as int),
        ),
{
    crate::bytes::lemma_operation_round_trip(p.operation);
    crate::text::lemma_parse_render_operation(p.operation, Seq::empty());
    assert(crate::text::operation_text(p.operation) + Seq::<u8>::empty()
        =~= crate::text::operation_text(p.operation));
}

/// The machine's global instruction representation, restricted to the PRF
/// family: a closed union with one case per opcode tag. The case and the
/// inner tag always agree.
pub enum Instruction {
    PRFPsd2(PRF),
    PRFPsd4(PRF),
    PRFPsd8(PRF),
}

impl Instruction {
    /// The case matches the inner instruction's tag, and the inner
    /// instruction is well-formed.
    pub open spec fn wf(&self) -> bool {
        match self {
            Instruction::PRFPsd2(p) => p.wf() && p@.opcode == PRFOpcode::Psd2,
            Instruction::PRFPsd4(p) => p.wf() && p@.opcode == PRFOpcode::Psd4,
            Instruction::PRFPsd8(p) => p.wf() && p@.opcode == PRFOpcode::Psd8,
        }
    }
}

} // verus!
