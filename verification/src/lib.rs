//! Classical text ciphers for scouting and puzzle games: a Morse-code
//! translator and the MURCIELAGO letter-to-digit substitution cipher.
//!
//! Both ciphers share one shape: a fixed bijective symbol table, a tokenizer
//! that splits the input into translatable units, and a substitution pass
//! that maps each unit and reassembles the output with the tokenizer's
//! inverse separators.

pub mod morse;
pub mod murcielago;
pub mod text;
