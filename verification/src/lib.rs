//! An in-memory, capacity-bounded hierarchical namespace of directories,
//! driven one keystroke at a time.
//!
//! The namespace lives in two fixed-capacity pools of records (directories
//! and files); a reserved sentinel index marks a slot or a link as free, so
//! no dynamic allocation is ever needed.  A line buffer collects input
//! bytes, a tokenizer splits a completed line into a command and an
//! argument, and a dispatcher runs the matching namespace operation.
//! Every operation returns the text it wants shown; callers own the screen.

pub mod defs;
pub mod text;
pub mod tokenizer;
pub mod shell;
pub mod laws;
