//! Bytecode carriers.
//!
//! The object layer stores a class's instruction sequence and hands it to the
//! interpreter; it never executes instructions itself. Instructions and
//! primitive names are therefore carried as opaque words here.

use vstd::prelude::*;

verus! {

/// One bytecode instruction, as an encoded word. The interpreter assigns and
/// reads the encoding; the object layer only stores it.
#[derive(Debug, Clone, Copy, PartialEq, Eq)]
pub struct Instr {
    pub word: usize,
}

/// The tag of a built-in primitive operation. The interpreter assigns tags to
/// its primitives; the object layer only stores and compares them.
#[derive(Debug, Clone, Copy, PartialEq, Eq)]
pub struct Primitive {
    pub tag: usize,
}

} // verus!
