//! A dual-pane file manager's logic: panels, dialogs, background jobs,
//! directory sync, archive browsing, remote deployment and the agent's wire
//! format, as plain data and decisions. Everything that touches a disk, a
//! socket or a terminal is done by the program around it.

pub mod text;
pub mod numbers;
pub mod path;
pub mod vfs;
pub mod scan;
pub mod scan_laws;
pub mod sync_laws;
pub mod job;
pub mod work;
pub mod copy_laws;
pub mod transfer;
pub mod index;
pub mod sparse;
pub mod archive;
pub mod panel;
pub mod mode;
pub mod config;
pub mod keymap;
pub mod hex;
pub mod shell;
pub mod deploy;
pub mod local;
pub mod remote;
pub mod listing_laws;
pub mod hostkey;
pub mod auth;
pub mod agent;
pub mod fast_path;
pub mod jobs;
pub mod registry;
pub mod view;
pub mod editor;
pub mod app;
pub mod actions;
pub mod app_laws;
pub mod key_laws;
