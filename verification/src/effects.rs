//! The engine's single outward edge.
//!
//! The language engine is pure: whatever it cannot compute for itself it
//! requests through [`EffectHandler`], which the embedding program
//! implements — filesystem access, process launching, terminal output, and
//! the platform's floating-point conversions and arithmetic. Numbers travel
//! as the 64 bits of their floating-point representation, so the engine can
//! carry and compare them without doing float arithmetic itself.
//!
//! No method carries a contract: the engine promises nothing about a
//! handler's answers, and its own guarantees hold for every answer a
//! handler can give.
use vstd::prelude::*;

verus! {

/// One of the six arithmetic methods a Number understands.
#[derive(Debug, Clone, Copy, PartialEq, Eq)]
pub enum ArithOp {
    /// `+`
    Add,
    /// `-`
    Sub,
    /// `*`
    Mul,
    /// `/`, with the platform's float-division semantics (division by zero
    /// gives an infinity, not a fault)
    Div,
    /// `%`
    Rem,
    /// `^`, exponentiation
    Pow,
}

/// One immediate child of a folder: its path and whether it is itself a
/// directory.
#[derive(Debug, PartialEq)]
pub struct DirEntry {
    pub path: String,
    pub is_dir: bool,
}

/// The operations the engine asks of its embedding program.
///
/// Handlers may fail however the platform fails: a panic in a handler is a
/// session-ending hard fault, while the engine's own soft faults are
/// absent results.
pub trait EffectHandler {
    /// The bit pattern of the floating-point value a literal denotes. The
    /// engine calls this only for text matching the literal grammar.
    fn num_from_text(&mut self, text: &str) -> u64;

    /// The decimal rendering of a number given by its bit pattern.
    fn num_to_text(&mut self, bits: u64) -> String;

    /// Arithmetic on two numbers given by their bit patterns.
    fn arith(&mut self, op: ArithOp, a: u64, b: u64) -> u64;

    /// The array index a number denotes (the float truncated to `usize`).
    fn num_to_index(&mut self, bits: u64) -> usize;

    /// The bit pattern of the floating-point value of a count.
    fn num_from_len(&mut self, len: usize) -> u64;

    /// Creates the file if absent and returns its path, made absolute when
    /// the given path was relative.
    fn file_create(&mut self, path: &str) -> String;

    /// Creates the directory if absent and returns its path, made absolute
    /// when the given path was relative.
    fn folder_create(&mut self, path: &str) -> String;

    /// The entire content of the file, as text.
    fn file_read(&mut self, path: &str) -> String;

    /// Truncates the file and writes the given text.
    fn file_write(&mut self, path: &str, content: &str);

    /// Removes the file, best-effort.
    fn file_delete(&mut self, path: &str);

    /// Moves the file, best-effort.
    fn file_rename(&mut self, from: &str, to: &str);

    /// Opens the file with the platform's default handler, best-effort.
    fn file_open(&mut self, path: &str);

    /// The immediate children of the directory that are files or
    /// directories themselves.
    fn folder_list(&mut self, path: &str) -> Vec<DirEntry>;

    /// Removes the directory recursively.
    fn folder_delete(&mut self, path: &str);

    /// Moves the directory.
    fn folder_rename(&mut self, from: &str, to: &str);

    /// Spawns the named executable with the given arguments and waits for
    /// it to exit.
    fn app_start(&mut self, name: &str, args: &Vec<String>);

    /// Emits a line of text.
    fn print_line(&mut self, text: &str);

    /// Makes the given directory the process's working directory.
    fn set_current_dir(&mut self, path: &str);
}

} // verus!
