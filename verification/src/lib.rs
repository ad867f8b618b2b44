//! A POSIX-style path interface over a device that stores objects as a flat,
//! parent-linked collection of entries.
//!
//! The heart of the crate is the path resolver (`resolver`, `store`), which
//! walks a slash-separated path one segment at a time against per-parent
//! listings, and the navigation state machine (`nav`), which keeps a
//! directory stack, a sorted entry listing and a wraparound selection for an
//! interactive browser.  Device discovery, raw byte transfer and rendering
//! are left to the thin unverified shell around this library.

pub mod cli;
pub mod commands;
pub mod device;
pub mod error;
pub mod nav;
pub mod order;
pub mod resolver;
pub mod store;
pub mod text;
