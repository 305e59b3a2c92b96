//! A parsed HTML document exposed as an arena of nodes in document order,
//! with verified text extraction, attribute lookup and CSS selection scoped
//! to a subtree.
pub mod document;
pub mod error;
pub mod markup;
pub mod selector;
pub mod text;
pub mod tree;

pub use document::DocumentStore;
pub use error::Error;
pub use selector::Selector;
pub use text::split_ascii_whitespace;
pub use tree::NodeKind;
