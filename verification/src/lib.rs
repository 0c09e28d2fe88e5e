//! A register-machine instruction family of pseudorandom-function (PRF)
//! opcodes over prime-field values, with verified operand coercion,
//! evaluation, and binary/textual codecs.
pub mod bits;
pub mod field;
pub mod literal;
pub mod coerce;
pub mod operand;
pub mod registers;
pub mod hash;
pub mod instruction;
pub mod bytes;
pub mod text;
