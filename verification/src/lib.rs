//! Short, human-typeable identifiers that survive transcription.
//!
//! An identifier is a string over a restricted alphabet with one trailing
//! check character. Characters that are easy to confuse when spoken, written
//! or read (`0`/`o`, `1`/`l`/`i`, `rn`/`m`, `vv`/`w`, ...) are folded to one
//! canonical form before validation, so a transcribed identifier still decodes
//! to the value it was generated from.

pub mod alphabet;
pub mod error;
pub mod id;

pub use crate::error::IdError;
pub use crate::id::Id;
