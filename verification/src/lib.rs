//! The logic of a JSON viewer: search highlighting, syntax colouring of raw
//! text, the collapsible tree of a parsed document, and the state behind the
//! window's buttons.

pub mod cache;
pub mod filter;
pub mod highlight;
pub mod palette;
pub mod session;
pub mod span;
pub mod syntax;
pub mod text;
pub mod tree;
pub mod value;
