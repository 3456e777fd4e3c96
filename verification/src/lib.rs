//! Athena: a working protocol for AI agents, kept as Markdown work items in
//! a git-tracked state root where an item's directory is its state. This
//! crate holds the protocol's decisions, texts and checks, with their
//! specifications and the properties proved across them.
pub mod text;
pub mod error;
pub mod path;
pub mod document;
pub mod term;
pub mod rules;
pub mod section;
pub mod textops;
pub mod templates;
pub mod workflow;
pub mod store;
pub mod config;
pub mod items;
pub mod vcs;
pub mod commands;
pub mod context;
pub mod search;
pub mod laws;
pub mod section_laws;
pub mod append_laws;
pub mod protocol_laws;
