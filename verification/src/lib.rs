//! Checked USB mass storage and the filesystem sessions that live on it.
//!
//! Nothing in this crate performs a transfer. Every operation is a small state
//! machine: it names the next transfer or engine call, and takes the outcome of
//! that call to decide what comes next. The caller owns the devices, the clocks
//! and the futures; the rules that decide what may be sent, what a reply means
//! and when a session is no longer trustworthy are here, and proved.

pub mod bytes;
pub mod device_laws;
pub mod directory;
pub mod engine;
pub mod error;
pub mod exchange;
pub mod exchange_laws;
pub mod fastboot;
pub mod guard;
pub mod journal;
pub mod lifecycle;
pub mod lifecycle_laws;
pub mod list;
pub mod listing_laws;
pub mod managed;
pub mod mutate;
pub mod operation_laws;
pub mod path;
pub mod probe;
pub mod qualify;
pub mod range;
pub mod range_laws;
pub mod read;
pub mod ready;
pub mod scsi;
pub mod session;
pub mod session_laws;
pub mod stat;
pub mod success_laws;
pub mod text;
pub mod usb;
pub mod volume;
pub mod volume_laws;
pub mod walk_laws;
pub mod wire_laws;
