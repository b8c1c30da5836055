//! A small verified tour of the three basic container kinds: fixed-size
//! arrays, growable sequences, and key-value mappings.
//!
//! Each module wraps the operations of one container kind in functions with
//! full contracts. The deliberate contrast between the kinds is kept: reads
//! of a fixed-size array are admitted only in bounds (rejected before the
//! program runs), while the growable sequence and the mapping offer both a
//! checked access, whose precondition excludes the faulting inputs, and a
//! non-faulting access that returns an absent result out of bounds.

pub mod extract;
pub mod fixed;
pub mod growable;
pub mod reviews;
