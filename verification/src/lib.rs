//! Decision-point protocol engine.
//!
//! An agent pauses mid-plan to ask the operator a structured round of
//! questions.  This crate extracts such a round from the agent's
//! semi-structured text ([`parser`]), drives the interactive
//! answer-collection state machine ([`dialog`]), and serializes the
//! collected answers back into the line-based reply the agent expects
//! ([`codec`]).  The grammar both sides agree on is fixed by the
//! developer-instruction block in [`instructions`]; [`model`] holds the
//! round data types and their invariants, and [`text`] the verified
//! character-level machinery underneath.

pub mod codec;
pub mod dialog;
pub mod instructions;
pub mod model;
pub mod parser;
pub mod subagents;
pub mod text;


