//! PHP editor tooling: unreachable-code removal, PHPDoc virtual members
//! and unknown-member diagnostics, with their contracts proved by Verus.

pub mod code_actions;
pub mod lsp;
pub mod text;
pub mod util;
pub mod types;
pub mod docblock;
pub mod virtual_members;
pub mod diagnostics;
pub mod symbol_map;
pub mod backend;
