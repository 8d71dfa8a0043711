//! A small-language front end and execution engine: a lexical scanner, a
//! single-pass Pratt expression compiler that emits compact bytecode, and a
//! stack-based virtual machine that executes it.
//!
//! The language evaluates a single expression over numbers, booleans and nil.
//! Numeric values are IEEE-754 double-precision floats; since the verifier
//! does not reason about floating point, the library carries every number as
//! its 64-bit pattern and delegates the arithmetic itself to the
//! `rustc_apfloat` software implementation behind a handful of trusted
//! wrappers (see the `numeric` module). Everything else — scanning,
//! parsing, bytecode emission, decoding and the machine's stack discipline —
//! is ordinary verified code.
//!
//! The central proved statements: the machine's `run` produces exactly the
//! outcome of a spec-level interpreter over the loaded chunk, and leaves an
//! empty stack behind on every fault; the compiler only ever emits
//! well-formed, return-terminated code whose execution cannot underflow the
//! stack, hit a decode error, or finish without reporting a value — the
//! only runtime failures left are the type errors the language itself
//! defines; and the serialized chunk format decodes back to exactly the
//! instruction stream it was written from.

pub mod chunk;
pub mod common;
pub mod compiler;
pub mod encode;
pub mod numeric;
pub mod scanner;
pub mod text;
pub mod value;
pub mod vm;
