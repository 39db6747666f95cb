//! Telos: a contract language toolchain with a verified front end
//! (lexer, parser), constraint extraction into linear arithmetic, a
//! Fourier-Motzkin decision procedure, and backend routing.

pub mod text;
pub mod span;
pub mod ast;
pub mod tree;
pub mod lexer;
pub mod parser;
pub mod router;
pub mod ir;
pub mod render;
pub mod extract;
pub mod solver;
pub mod size;
pub mod memory;
pub mod verify;
pub mod contradiction;
pub mod json;
pub mod prove;
pub mod agent;
pub mod static_agent;
pub mod codegen;
pub mod format;
pub mod analysis;
pub mod server;
pub mod eject;
pub mod report;
pub mod outline;
pub mod template;
pub mod go;
pub mod manifest;
pub mod hint;
