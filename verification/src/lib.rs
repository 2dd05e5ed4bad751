//! Verified core of a small fluent-DSL toolkit: an expression evaluator,
//! a method-chain syntax tree, a typed SQL query builder, and the
//! document bookkeeping of a SQL language server.

pub mod ast;
pub mod bridge;
pub mod codec;
pub mod convert;
pub mod error;
pub mod fit;
pub mod ids;
pub mod keyed;
pub mod lsp;
pub mod protocol;
pub mod server;
pub mod sql;
pub mod syntax;
pub mod text;
pub mod transport;
pub mod tree;
