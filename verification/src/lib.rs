//! Object and value layer of a small SOM-style virtual machine.
//!
//! Every runtime value is carried in a single-machine-word handle ([`objects::Val`])
//! that multiplexes immediate small integers and heap references through a
//! low-bit tag. Heap cells pair a concrete object with a header word
//! ([`objects::ThinObj`]), so one word suffices to reach both data and
//! behaviour. The concrete object kinds (class, method, instance, boxed
//! integer, string) form a closed set, represented as a tagged union
//! ([`objects::Obj`]).
//!
//! The garbage collector that owns heap memory is an external collaborator:
//! here it is modelled by an append-only allocation arena inside
//! [`objects::VM`], in which a cell's address is its slot, and reclamation is
//! delegated entirely to the collector's own policy.

pub mod cobjects;
pub mod instrs;
pub mod method;
pub mod objects;
