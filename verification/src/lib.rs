//! A cellular-automaton rule compiler and shader assembler.
//!
//! The `dsl` module defines a small language of expressions and statements
//! describing update rules for a cellular automaton, together with a compiler
//! that turns a rule tree into a fragment of WGSL source text.  The `shaders`
//! module resolves `#import` directives in shader templates and splices the
//! compiled rule text into a placeholder slot, yielding the final shader
//! source.  The `text` module holds the verified string routines both build on.

pub mod dsl;
pub mod shaders;
pub mod text;
