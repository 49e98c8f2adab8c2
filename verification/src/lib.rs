//! Core of a construction-estimation document editor: a schema-validated
//! tree of typed nodes with a persistent parent index, transactional edit
//! commands, undo/redo history with lazily rendered descriptions, tree
//! reconstruction for display, and the bootstrap arbitration that decides,
//! at session start, whether local or remote state is authoritative.

pub mod bootstrap;
pub mod commands;
pub mod controller;
pub mod editor;
pub mod errors;
pub mod history;
pub mod imkv;
pub mod initialize;
pub mod laws;
pub mod model;
pub mod render;
pub mod schema;
pub mod strutil;
pub mod subtree;
pub mod timefmt;
pub mod transaction;
pub mod tree;
pub mod treeview;
