//! The core of `hwrng`, a command line tool that manages the Linux hwrng
//! subsystem.
//!
//! The library decides and formats; it does no I/O. What was read from sysfs
//! comes in as plain values, and what is to be written or printed goes out as
//! plain values. Text is modelled as a sequence of characters.

pub mod devices;
pub mod drivers;
pub mod listing;
pub mod matching;
pub mod naming;
pub mod reading;
pub mod switching;
pub mod sysfs;
pub mod text;
pub mod watching;
