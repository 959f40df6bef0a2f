//! A live memory inspector's model: classes made of typed fields, the views
//! that show them, and the rules by which they are edited, searched, undone,
//! driven by a remote agent and kept up to date.
pub mod app_state;
pub mod catalog;
pub mod cli;
pub mod clipboard;
pub mod cycles;
pub mod edits;
pub mod effects;
pub mod expand;
pub mod flash;
pub mod gui;
pub mod history;
pub mod json;
pub mod layout;
pub mod lists;
pub mod live;
pub mod mcp;
pub mod mcp_args;
pub mod memory;
pub mod messages;
pub mod node;
pub mod outcomes;
pub mod palette;
pub mod panels;
pub mod plugin;
pub mod processes;
pub mod project;
pub mod registry;
pub mod requests;
pub mod rows;
pub mod rpc;
pub mod safety;
pub mod scan;
pub mod selection;
pub mod settings;
pub mod shell;
pub mod state_json;
pub mod table;
pub mod text;
pub mod timeline;
pub mod tracker;
pub mod tui;
pub mod updater;
pub mod walk;
