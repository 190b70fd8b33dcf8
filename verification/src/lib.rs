//! A verified virtual machine for an 8-instruction, tape-based esoteric
//! language. The machine owns a fixed-size byte tape, a data pointer, an
//! instruction cursor and a loop stack, and executes a program given as raw
//! bytes. Unrecognized bytes are comments; pointer moves clamp at the tape
//! edges; cell arithmetic saturates at 0 and 255; loops are implemented with
//! a pushdown stack of saved cursor positions and a forward skip-scan that
//! resolves the matching close bracket.

pub mod semantics;
pub mod brackets;
pub mod engine;
