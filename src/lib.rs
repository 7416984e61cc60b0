//! Client-side core of a document store that charges for storage bytes:
//! key paths, document trees, component file layout, storage deposits and
//! the shape of the contract call that writes a document.
pub mod call;
pub mod command;
pub mod components;
pub mod deposit;
pub mod document;
pub mod error;
pub mod json;
pub mod key_path;
pub mod laws;
