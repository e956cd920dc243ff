//! Compiled-unit descriptions, as the compiler front end hands them over.
//!
//! These are plain data: a class unit names its defining source path and
//! carries its method descriptors, instruction sequence, constant list and
//! call-site descriptors. [`crate::objects::Class::from_ccls`] lowers one such
//! unit into a runtime class.

use crate::instrs::{Instr, Primitive};
use vstd::prelude::*;

verus! {

/// A compiled class unit.
#[derive(Debug)]
pub struct Class {
    /// The defining source path; a class's identity.
    pub path: String,
    /// Method descriptors, in source order. Names may repeat; lowering lets
    /// the last occurrence win.
    pub methods: Vec<Method>,
    /// The class's bytecode.
    pub instrs: Vec<Instr>,
    /// Constant descriptors, in the order call sites index them by.
    pub consts: Vec<Const>,
    /// (message name, arity) pairs used by call sites.
    pub sends: Vec<(String, usize)>,
}

/// A compiled method descriptor.
#[derive(Debug)]
pub struct Method {
    pub name: String,
    pub body: MethodBody,
}

/// The body of a compiled method.
#[derive(Debug, Clone, Copy, PartialEq, Eq)]
pub enum MethodBody {
    /// A built-in primitive.
    Primitive(Primitive),
    /// User bytecode.
    User {
        /// How many variables does this method define?
        num_vars: usize,
        /// The offset of this method's bytecode in its parent class.
        bytecode_off: usize,
        /// The maximum operand-stack depth the method needs.
        max_stack: usize,
    },
}

/// A compiled constant; currently only string literals.
#[derive(Debug)]
pub enum Const {
    String(String),
}

} // verus!
