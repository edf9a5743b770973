//! Decisions and text handling of a tool that compares a target file system
//! with a reference image of the same distribution and reports the files that
//! only the target holds.

pub mod text;

pub mod os_release;
mod value_pattern;
pub mod download;
pub mod args;
pub mod compare;
pub mod extract;
