//! Shared diagnostic helpers: each stage of the pipeline prefixes its error
//! messages with a fixed tag so the driver can print them uniformly.

use vstd::prelude::*;
use vstd::string::*;

verus! {

/// Prefixes a disassembler diagnostic.
pub fn dissasemble_error(msg: String) -> (r: String)
    ensures
        r@ == "[DISSASEMBLE]: "@ + msg@,
{
    let mut r = String::from_str("[DISSASEMBLE]: ");
    r.append(msg.as_str());
    r
}

/// Prefixes a virtual-machine diagnostic.
pub fn runtime_error(msg: String) -> (r: String)
    ensures
        r@ == "[RUNTIME]: "@ + msg@,
{
    let mut r = String::from_str("[RUNTIME]: ");
    r.append(msg.as_str());
    r
}

/// Prefixes an interactive-loop diagnostic.
pub fn repl_error(msg: String) -> (r: String)
    ensures
        r@ == "[REPL]: "@ + msg@,
{
    let mut r = String::from_str("[REPL]: ");
    r.append(msg.as_str());
    r
}

} // verus!
