//! The decisions of a message store that keeps contacts, groups, messages, profiles, sticker packs
//! and the metadata of conversations in the named, ordered trees of a database.
//!
//! The library never touches the database. It says which tree, which key and which range an
//! operation is about ([`store`]), which trees a clearing drops and in what order ([`clear`]), and
//! how the values met on a walk are read, stage by stage ([`iter`]). Whoever holds the database
//! does what is asked and hands back what came of it. [`laws`] states what then holds of the store
//! as a whole, [`walks`] what holds of walks over its trees, and [`operations`] what each operation
//! does, told by what its calls take and give.

pub mod clear;
pub mod encoding;
pub mod error;
pub mod iter;
pub mod keys;
pub mod laws;
pub mod operations;
pub mod outside;
pub mod store;
pub mod trees;
pub mod walks;
