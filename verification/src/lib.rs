//! An entropy-driven synthesis engine that produces tree-shaped test values
//! (atoms, pairs, lists) matching the shape of a caller-supplied prototype
//! tree, for stress-testing a Lisp-like virtual machine's argument handling.
//!
//! Raw entropy is decoded into a multi-pool genome, the genome is expanded
//! into three self-referential chains, and a work-stack machine walks the
//! prototype together with the chains, building the output tree through an
//! abstract construction capability.  Every step is deterministic, total,
//! and proved against a mathematical model of the pipeline.

pub mod arena;
pub mod bls_ops;
pub mod builder;
pub mod bytes;
pub mod entropy;
pub mod genome;
pub mod laws;
pub mod model;
pub mod serialize;
pub mod synth;
pub mod tree;
