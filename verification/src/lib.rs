//! A keystroke-driven multiplexer of modal terminal applications: a text
//! editor and a file browser that share one terminal surface and can hand
//! control to one another through a switch request.
//!
//! This crate holds the verified core: the text buffer engine with its
//! (row, column) cursor, the editor's modal state machine, the file browser's
//! navigation state machine, and the inter-application call protocol. All
//! terminal and file system access stands outside, in the surrounding
//! program, which feeds events and directory listings in as plain values.

pub mod keys;

pub mod text;

pub mod buffer;

pub mod context;

pub mod editor;

pub mod files;
