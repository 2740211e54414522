//! Startup entries of three kinds (desktop-entry files, files in a startup folder,
//! registry run-key values) in one model, and the decisions and format-preserving edits
//! that enumerate, switch, create and delete them. Reading and writing the backing
//! stores is left to the caller.
pub mod desktop;
pub mod entry;
pub mod ops;
pub mod services;
pub mod size;
pub mod text;
