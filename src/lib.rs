//! In-place regular-expression substitution over the lines of text files,
//! fed to a fixed pool of workers through a shared task queue.
pub mod text;
pub mod pattern;
pub mod document;
pub mod replacements;
pub mod pool;
