//! Static analysis of cross-package constant references. The parser module
//! walks one file's syntax tree and recovers every constant reference with
//! its enclosing lexical nesting, dropping references the same file defines;
//! the pack-set module indexes a project's packages for ownership lookups by
//! file and by name.

pub mod location;
pub mod pack;
pub mod pack_set;
pub mod parser;
pub mod strutil;
