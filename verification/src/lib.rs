//! Bookkeeping for the boot files of NixOS generations on an EFI System
//! Partition: which files a generation needs there, under which names, and
//! which entries of the partition no kept generation needs any more.

pub mod error;
pub mod esp;
pub mod gc;
pub mod generation;
pub mod link;
pub mod path;
pub mod text;
pub mod utils;
