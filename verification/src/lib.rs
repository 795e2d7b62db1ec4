//! Back end of a small interpreted language: a compiler that lowers an
//! abstract syntax tree into a compact, indexed bytecode container, and a
//! stack-based virtual machine that executes that container.
//!
//! Lexing and parsing are external collaborators: the compiler consumes an
//! already-built [`ast::Expr`] tree.  Likewise, the internals of the numeric
//! builtins on IEEE 754 singles are delegated to the embedder through the
//! [`vm::SingleOps`] trait; the library itself carries singles only as raw
//! bit patterns.

pub mod arithmetic;
pub mod ast;
pub mod bytecode;
pub mod compiler;
pub mod errors;
pub mod value;
pub mod vm;
