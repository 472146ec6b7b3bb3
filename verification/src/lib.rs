//! A selector-encoded register-machine constraint engine, together with a
//! collection of small verified utilities.
//!
//! The core simulates a tiny four-register machine over a prime field,
//! serialises each execution into a row-indexed algebraic trace, and defines
//! the polynomial constraints that certify the trace without re-executing the
//! program.  Control flow (which register is read or written, which operation
//! runs) is encoded as one-hot selector columns so that every step becomes a
//! low-degree polynomial identity over consecutive rows.

pub mod adder;
pub mod air;
pub mod alu;
pub mod borrowing;
pub mod field;
pub mod guess;
pub mod isa;
pub mod memory;
pub mod ownership;
pub mod pow2;
pub mod recurrence;
pub mod slicing;
