//! A string-interning table with cheap, copyable handles.
//!
//! A [`table::SymbolTable`] keeps every distinct string once, in the order in
//! which it was first interned. A [`symbol::Symbol`] names one entry of a
//! table, optionally narrowed to a byte range of it, and is resolved against
//! the table whenever its text is needed.

pub mod laws;
pub mod store;
pub mod symbol;
pub mod table;
pub mod text;

pub use symbol::Symbol;
pub use table::SymbolIndex;
pub use table::SymbolTable;
