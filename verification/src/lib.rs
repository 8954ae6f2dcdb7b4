//! Decoder for the instruction payload of an escrow program.
//!
//! A payload is a tag byte followed by the fields of the instruction that the
//! tag selects. [`instructions::EscrowInstruction::unpack`] turns such a
//! payload into a typed instruction or rejects it; it reads nothing else and
//! keeps no state between calls.

pub mod error;
pub mod instructions;
pub mod little_endian;
