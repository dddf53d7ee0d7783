pub mod location;
pub mod align;
pub mod syntax;
pub mod aligner;
pub mod symbol_table;
pub mod analyzer;
