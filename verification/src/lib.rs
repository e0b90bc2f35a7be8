//! Compiler core for architecture annotations: a canonical intermediate
//! representation (IR) of annotated modules, together with the engines that
//! merge, validate, check and promote it.
//!
//! The IR is a list of [`types::ModuleDoc`] values. Everything else is a pure
//! function over that list: the merge engine reconciles IR emitted by
//! independent language adapters, the wire module reads and writes the JSON
//! exchange format, the catalog validator reconciles declared file inventories
//! against a directory listing, the drift detector compares freshly derived
//! artifacts against persisted ones, and the heuristic engine promotes
//! declared design-pattern claims when structural evidence supports them.

pub mod cargo_modules;
pub mod check;
pub mod fitness;
pub mod health;
pub mod heuristics;
pub mod init;
pub mod ir;
pub mod merge;
pub mod parser;
pub mod path_resolver;
pub mod promote;
pub mod report;
pub mod text;
pub mod types;
pub mod validate;
pub mod walker;
