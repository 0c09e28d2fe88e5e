use prf_core::coerce::to_field_elements;
use prf_core::field::{field_from_bits_le, scalar_from_bits_le, FieldElement, Scalar};
use prf_core::instruction::{Instruction, PRFOpcode, VmError, PRF};
use prf_core::literal::{Address, Group, Literal, Value};
use prf_core::operand::{BinaryOperation, Operand, Register};
use prf_core::registers::Registers;

use snarkvm_console_algorithms::{Poseidon2, Poseidon4, Poseidon8};
use snarkvm_console_network_environment::Console;
use snarkvm_console_network_environment::PRF as _;
use snarkvm_console_network_environment::ToBits as _;
use snarkvm_console_types::Field as ConsoleField;

fn bits_of_u128(v: u128, n: usize) -> Vec<bool> {
    (0..n).map(|i| i < 128 && (v >> i) & 1 == 1).collect()
}

fn fe(v: u128) -> FieldElement {
    field_from_bits_le(&bits_of_u128(v, 253)).unwrap()
}

fn sc(v: u128) -> Scalar {
    scalar_from_bits_le(&bits_of_u128(v, 251)).unwrap()
}

fn value_of_bits(bits: &[bool]) -> u128 {
    let mut v: u128 = 0;
    for (i, b) in bits.iter().enumerate() {
        if *b {
            assert!(i < 128, "bit set above 128");
            v |= 1u128 << i;
        }
    }
    v
}

fn fe_value(f: &FieldElement) -> u128 {
    value_of_bits(&f.bits_le())
}

fn reg(i: u32) -> Operand {
    Operand::Register(Register { index: i })
}

fn simple_op(first: Operand, second: Operand, dest: u32) -> BinaryOperation {
    BinaryOperation {
        first,
        second,
        destination: Register { index: dest },
    }
}

#[test]
fn coercion_direct_projects_fields() {
    let input = vec![Literal::Field(fe(5)), Literal::Field(fe(2))];
    let out = to_field_elements(&input);
    assert_eq!(out.len(), 2);
    assert_eq!(fe_value(&out[0]), 5);
    assert_eq!(fe_value(&out[1]), 2);
}

#[test]
fn coercion_direct_projects_group_address_scalar() {
    let input = vec![
        Literal::Group(Group { x: fe(11) }),
        Literal::Address(Address { x: fe(12) }),
        Literal::Scalar(sc(13)),
    ];
    let out = to_field_elements(&input);
    assert_eq!(out.len(), 3);
    assert_eq!(fe_value(&out[0]), 11);
    assert_eq!(fe_value(&out[1]), 12);
    assert_eq!(fe_value(&out[2]), 13);
}

#[test]
fn coercion_fallback_single_boolean() {
    // One true bit serializes to the bitstring [1]; packing it into one
    // field element gives the element of value 1.
    let input = vec![Literal::Boolean(true)];
    let out = to_field_elements(&input);
    assert_eq!(out.len(), 1);
    assert_eq!(fe_value(&out[0]), 1);

    let input = vec![Literal::Boolean(false)];
    let out = to_field_elements(&input);
    assert_eq!(out.len(), 1);
    assert_eq!(fe_value(&out[0]), 0);
}

#[test]
fn coercion_fallback_u8() {
    let input = vec![Literal::U8(0xA5)];
    let out = to_field_elements(&input);
    assert_eq!(out.len(), 1);
    assert_eq!(fe_value(&out[0]), 0xA5);
}

#[test]
fn coercion_fallback_mixed_field_and_boolean() {
    // 253 bits of the field element 5, then one true bit: 254 bits in
    // all. Chunking at 252 bits gives two elements: the low 252 bits
    // (value 5) and the remaining two bits [0, 1] (value 2).
    let input = vec![Literal::Field(fe(5)), Literal::Boolean(true)];
    let out = to_field_elements(&input);
    assert_eq!(out.len(), 2);
    assert_eq!(fe_value(&out[0]), 5);
    assert_eq!(fe_value(&out[1]), 2);
}

#[test]
fn coercion_is_deterministic() {
    let input = vec![Literal::U64(77), Literal::Boolean(true), Literal::I8(-3)];
    let a = to_field_elements(&input);
    let b = to_field_elements(&input);
    assert_eq!(a.len(), b.len());
    for (x, y) in a.iter().zip(b.iter()) {
        assert_eq!(x.bits_le(), y.bits_le());
    }
}

fn eval_setup(seed: Value, input: Value, opcode: PRFOpcode) -> (Registers, Result<(), VmError>) {
    let mut registers = Registers::new(4);
    assert!(registers.store(Register { index: 0 }, seed));
    assert!(registers.store(Register { index: 1 }, input));
    let instr = PRF::new(simple_op(reg(0), reg(1), 2), opcode);
    let r = instr.evaluate(&mut registers);
    (registers, r)
}

fn written_field(registers: &Registers, index: u32) -> FieldElement {
    match registers.value_at(index) {
        Some(Value::Literal(Literal::Field(f))) => f,
        other => panic!("expected a field literal, got {:?}", other.is_some()),
    }
}

fn console_field(v: u128) -> ConsoleField<Console> {
    ConsoleField::from_u128(v)
}

fn expected_bits(f: ConsoleField<Console>) -> Vec<bool> {
    let mut bits = f.to_bits_le();
    bits.resize(253, false);
    bits
}

#[test]
fn evaluate_matches_poseidon2_on_composite() {
    // Seed register holds Field(5); input register holds the composite
    // ("Point", [Field(1), Field(2)]). The 2-ary capability must see seed
    // 5 and packed input [1, 2], and only the destination changes.
    let seed = Value::Literal(Literal::Field(fe(5)));
    let input = Value::Composite(
        String::from("Point"),
        vec![Literal::Field(fe(1)), Literal::Field(fe(2))],
    );
    let (registers, r) = eval_setup(seed, input, PRFOpcode::Psd2);
    assert!(r.is_ok());
    let digest = written_field(&registers, 2);

    let poseidon = Poseidon2::<Console>::setup("AleoPoseidon2").unwrap();
    let expected = poseidon
        .prf(&console_field(5), &[console_field(1), console_field(2)])
        .unwrap();
    assert_eq!(digest.bits_le(), expected_bits(expected));

    // Registers other than the destination are untouched.
    match registers.value_at(0) {
        Some(Value::Literal(Literal::Field(f))) => assert_eq!(fe_value(&f), 5),
        _ => panic!("seed register changed"),
    }
    assert!(registers.value_at(3).is_none());
}

#[test]
fn evaluate_matches_poseidon4_and_poseidon8() {
    let seed = Value::Literal(Literal::Field(fe(9)));
    let input = Value::Literal(Literal::Field(fe(3)));

    let (registers, r) = eval_setup(seed.clone(), input.clone(), PRFOpcode::Psd4);
    assert!(r.is_ok());
    let digest4 = written_field(&registers, 2);
    let poseidon4 = Poseidon4::<Console>::setup("AleoPoseidon4").unwrap();
    let expected4 = poseidon4.prf(&console_field(9), &[console_field(3)]).unwrap();
    assert_eq!(digest4.bits_le(), expected_bits(expected4));

    let (registers, r) = eval_setup(seed, input, PRFOpcode::Psd8);
    assert!(r.is_ok());
    let digest8 = written_field(&registers, 2);
    let poseidon8 = Poseidon8::<Console>::setup("AleoPoseidon8").unwrap();
    let expected8 = poseidon8.prf(&console_field(9), &[console_field(3)]).unwrap();
    assert_eq!(digest8.bits_le(), expected_bits(expected8));

    // The three capabilities are distinct: tags select different hashes.
    assert_ne!(digest4.bits_le(), digest8.bits_le());
}

#[test]
fn evaluate_fallback_path_boolean_input() {
    // A boolean input is not field-friendly: it must be bit-packed, so
    // the capability sees the field element of value 1.
    let seed = Value::Literal(Literal::Field(fe(5)));
    let input = Value::Literal(Literal::Boolean(true));
    let (registers, r) = eval_setup(seed, input, PRFOpcode::Psd2);
    assert!(r.is_ok());
    let digest = written_field(&registers, 2);

    let poseidon = Poseidon2::<Console>::setup("AleoPoseidon2").unwrap();
    let expected = poseidon.prf(&console_field(5), &[console_field(1)]).unwrap();
    assert_eq!(digest.bits_le(), expected_bits(expected));
}

#[test]
fn evaluate_is_deterministic() {
    let seed = Value::Literal(Literal::Field(fe(42)));
    let input = Value::Literal(Literal::U16(600));
    let (regs_a, ra) = eval_setup(seed.clone(), input.clone(), PRFOpcode::Psd2);
    let (regs_b, rb) = eval_setup(seed, input, PRFOpcode::Psd2);
    assert!(ra.is_ok() && rb.is_ok());
    assert_eq!(
        written_field(&regs_a, 2).bits_le(),
        written_field(&regs_b, 2).bits_le()
    );
}

#[test]
fn evaluate_rejects_composite_seed() {
    let seed = Value::Composite(String::from("Pair"), vec![Literal::Field(fe(1))]);
    let input = Value::Literal(Literal::Field(fe(2)));
    let (registers, r) = eval_setup(seed, input, PRFOpcode::Psd2);
    match r {
        Err(VmError::CompositeSeed { name }) => assert_eq!(name, "Pair"),
        other => panic!("expected a composite-seed error, got ok={}", other.is_ok()),
    }
    // Nothing was written.
    assert!(registers.value_at(2).is_none());
}

#[test]
fn evaluate_rejects_non_field_seed() {
    let seed = Value::Literal(Literal::Boolean(true));
    let input = Value::Literal(Literal::Field(fe(2)));
    let (registers, r) = eval_setup(seed, input, PRFOpcode::Psd2);
    match r {
        Err(VmError::SeedNotField) => {}
        other => panic!("expected a seed-kind error, got ok={}", other.is_ok()),
    }
    assert!(registers.value_at(2).is_none());
}

#[test]
fn evaluate_rejects_undefined_registers() {
    let mut registers = Registers::new(2);
    assert!(registers.store(
        Register { index: 0 },
        Value::Literal(Literal::Field(fe(5)))
    ));
    // Second operand names a register that was never assigned.
    let instr = PRF::new(simple_op(reg(0), reg(1), 0), PRFOpcode::Psd2);
    match instr.evaluate(&mut registers) {
        Err(VmError::UndefinedRegister { index }) => assert_eq!(index, 1),
        other => panic!("expected an undefined-register error, got ok={}", other.is_ok()),
    }
    // Destination out of range.
    assert!(registers.store(
        Register { index: 1 },
        Value::Literal(Literal::Field(fe(6)))
    ));
    let instr = PRF::new(simple_op(reg(0), reg(1), 7), PRFOpcode::Psd2);
    match instr.evaluate(&mut registers) {
        Err(VmError::UndefinedRegister { index }) => assert_eq!(index, 7),
        other => panic!("expected an undefined-register error, got ok={}", other.is_ok()),
    }
}

#[test]
fn immediate_operands_load_as_themselves() {
    let mut registers = Registers::new(1);
    let instr = PRF::new(
        simple_op(
            Operand::Immediate(Literal::Field(fe(5))),
            Operand::Immediate(Literal::U8(9)),
            0,
        ),
        PRFOpcode::Psd2,
    );
    assert!(instr.evaluate(&mut registers).is_ok());
    let digest = written_field(&registers, 0);
    let poseidon = Poseidon2::<Console>::setup("AleoPoseidon2").unwrap();
    let expected = poseidon.prf(&console_field(5), &[console_field(9)]).unwrap();
    assert_eq!(digest.bits_le(), expected_bits(expected));
}

#[test]
fn operands_and_destination_accessors() {
    let instr = PRF::new(simple_op(reg(3), reg(4), 5), PRFOpcode::Psd8);
    let ops = instr.operands();
    assert_eq!(ops.len(), 2);
    match (&ops[0], &ops[1]) {
        (Operand::Register(a), Operand::Register(b)) => {
            assert_eq!(a.index, 3);
            assert_eq!(b.index, 4);
        }
        _ => panic!("expected register operands"),
    }
    assert_eq!(instr.destination().index, 5);
    assert_eq!(instr.opcode(), PRFOpcode::Psd8);
    assert_eq!(instr.opcode().opcode(), "prf.psd8");
}

#[test]
fn into_instruction_keys_on_tag() {
    let mk = |op: PRFOpcode| PRF::new(simple_op(reg(0), reg(1), 2), op);
    assert!(matches!(
        mk(PRFOpcode::Psd2).into_instruction(),
        Instruction::PRFPsd2(_)
    ));
    assert!(matches!(
        mk(PRFOpcode::Psd4).into_instruction(),
        Instruction::PRFPsd4(_)
    ));
    assert!(matches!(
        mk(PRFOpcode::Psd8).into_instruction(),
        Instruction::PRFPsd8(_)
    ));
}

fn assert_same_operand(a: &Operand, b: &Operand) {
    match (a, b) {
        (Operand::Register(x), Operand::Register(y)) => assert_eq!(x.index, y.index),
        (Operand::Immediate(x), Operand::Immediate(y)) => {
            assert_eq!(x.to_bits_le(), y.to_bits_le());
            assert_eq!(x.is_field_friendly(), y.is_field_friendly());
        }
        _ => panic!("operand shapes differ"),
    }
}

fn roundtrip_bytes(instr: &PRF, opcode: PRFOpcode) {
    let bytes = instr.write_le();
    let (back, consumed) = PRF::read_le(&bytes, opcode).expect("decode failed");
    assert_eq!(consumed, bytes.len());
    let ops = instr.operands();
    let back_ops = back.operands();
    assert_same_operand(&ops[0], &back_ops[0]);
    assert_same_operand(&ops[1], &back_ops[1]);
    assert_eq!(instr.destination().index, back.destination().index);
    assert_eq!(back.opcode(), opcode);
}

fn roundtrip_text(instr: &PRF, opcode: PRFOpcode) {
    let text = instr.render_text();
    let (back, consumed) = PRF::parse_text(&text, opcode).expect("parse failed");
    assert_eq!(consumed, text.len());
    let ops = instr.operands();
    let back_ops = back.operands();
    assert_same_operand(&ops[0], &back_ops[0]);
    assert_same_operand(&ops[1], &back_ops[1]);
    assert_eq!(instr.destination().index, back.destination().index);
    assert_eq!(back.opcode(), opcode);
}

#[test]
fn byte_and_text_round_trips() {
    let samples: Vec<BinaryOperation> = vec![
        simple_op(reg(1), reg(2), 3),
        simple_op(Operand::Immediate(Literal::Field(fe(5))), reg(0), 1),
        simple_op(
            Operand::Immediate(Literal::Boolean(true)),
            Operand::Immediate(Literal::Boolean(false)),
            0,
        ),
        simple_op(
            Operand::Immediate(Literal::I8(-3)),
            Operand::Immediate(Literal::U128(u128::MAX)),
            9,
        ),
        simple_op(
            Operand::Immediate(Literal::I128(i128::MIN)),
            Operand::Immediate(Literal::Scalar(sc(77))),
            2,
        ),
        simple_op(
            Operand::Immediate(Literal::Group(Group { x: fe(8) })),
            Operand::Immediate(Literal::Address(Address { x: fe(4) })),
            6,
        ),
        simple_op(
            Operand::Immediate(Literal::I64(-1)),
            Operand::Immediate(Literal::U16(65535)),
            1,
        ),
    ];
    for op in samples {
        for opcode in [PRFOpcode::Psd2, PRFOpcode::Psd4, PRFOpcode::Psd8] {
            let instr = PRF::new(
                BinaryOperation {
                    first: op.first.clone(),
                    second: op.second.clone(),
                    destination: op.destination,
                },
                opcode,
            );
            roundtrip_bytes(&instr, opcode);
            roundtrip_text(&instr, opcode);
        }
    }
}

#[test]
fn text_form_is_the_documented_grammar() {
    let instr = PRF::new(simple_op(reg(1), reg(2), 3), PRFOpcode::Psd2);
    let text = instr.render_text();
    assert_eq!(
        String::from_utf8(text).unwrap(),
        "r00000001 r00000002 into r00000003"
    );

    let instr = PRF::new(
        simple_op(
            Operand::Immediate(Literal::U8(0xA5)),
            Operand::Immediate(Literal::Boolean(true)),
            0,
        ),
        PRFOpcode::Psd2,
    );
    assert_eq!(
        String::from_utf8(instr.render_text()).unwrap(),
        "u8A5 true into r00000000"
    );
}

#[test]
fn text_parse_rejects_malformed_input() {
    assert!(PRF::parse_text(b"", PRFOpcode::Psd2).is_none());
    assert!(PRF::parse_text(b"r1 r2 into r3", PRFOpcode::Psd2).is_none());
    assert!(PRF::parse_text(b"u8ZZ true into r00000000", PRFOpcode::Psd2).is_none());
    assert!(PRF::parse_text(b"r00000001 r00000002 onto r00000003", PRFOpcode::Psd2).is_none());
}

#[test]
fn byte_decode_rejects_malformed_input() {
    // A boolean payload may only be 0 or 1.
    let instr = PRF::new(
        simple_op(Operand::Immediate(Literal::Boolean(true)), reg(0), 1),
        PRFOpcode::Psd2,
    );
    let mut bytes = instr.write_le();
    // The boolean payload byte sits right after the operand and kind tags.
    assert_eq!(bytes[2], 1);
    bytes[2] = 2;
    assert!(PRF::read_le(&bytes, PRFOpcode::Psd2).is_none());

    // A field payload at or above the modulus is rejected.
    let mut bad_field = vec![1u8, 2u8];
    bad_field.extend_from_slice(&[0xFF; 32]);
    assert!(prf_core::bytes::decode_literal(&bad_field[1..]).is_none());

    // Truncated input.
    let instr = PRF::new(simple_op(reg(1), reg(2), 3), PRFOpcode::Psd2);
    let bytes = instr.write_le();
    assert!(PRF::read_le(&bytes[..bytes.len() - 1], PRFOpcode::Psd2).is_none());
}

#[test]
fn scalar_embedding_keeps_value() {
    let s = sc(12345);
    let f = s.to_field();
    assert_eq!(fe_value(&f), 12345);
}

#[test]
fn field_constructor_rejects_non_canonical_bits() {
    // 253 set bits denote a value above the modulus.
    assert!(field_from_bits_le(&vec![true; 253]).is_none());
    assert!(scalar_from_bits_le(&vec![true; 251]).is_none());
    // The zero and small values are accepted.
    assert!(field_from_bits_le(&bits_of_u128(0, 253)).is_some());
    assert!(field_from_bits_le(&bits_of_u128(7, 10)).is_some());
}
