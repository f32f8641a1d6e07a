//! A pattern-based music language: drum and melodic patterns, instruments
//! built from oscillators, envelopes and filters, the parser of song files,
//! and the decisions of the sequencer, each with a verified contract.
//!
//! Quantities that describe a sound are held in thousandths of their unit
//! (see `atoms`); tempos are whole beats per minute.
use vstd::prelude::*;

pub mod ast;
pub mod atoms;
pub mod grammar;
pub mod instruments;
pub mod lexer;
pub mod names;
pub mod parser;
pub mod patterns;
pub mod render;
pub mod sequencer;
pub mod text;

verus! {
} // verus!
