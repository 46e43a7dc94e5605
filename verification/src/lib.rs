//! A small library for positional access to flat delimited text files.
//!
//! A file is treated as a grid: an ordered sequence of lines, each an ordered
//! sequence of fields separated by a configurable delimiter character. The
//! [`fileapi::FileAPI`] handle spawns sessions that read, edit, or build such
//! a grid entirely in memory; the caller performs the surrounding disk I/O.

pub mod codec;
pub mod fileapi;
pub mod laws;
pub mod text;
