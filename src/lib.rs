//! A relational projection of a replicated contact document: the patch
//! parser, the reconciliation engine and the in-memory projection they drive.

pub mod text;
pub mod document;
pub mod contact;
pub mod patch;
pub mod order;
pub mod repository;
