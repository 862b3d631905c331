//! A tiny declarative build runner.
//!
//! A script is a structured document whose first entry carries two root
//! directories in its tag mapping and whose value is a list of instruction
//! lines (four verbs: compile a file, compile a directory, copy a file,
//! copy a directory).  The library parses the script into a plan of
//! resolved operations, and renders templates by placeholder substitution
//! from a key/value content document.  All file reading and writing is
//! left to the caller; the library works on the text it is handed.

pub mod text;
pub mod doc;
pub mod instr;
pub mod paths;
pub mod template;
pub mod runner;
