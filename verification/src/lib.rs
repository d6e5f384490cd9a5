//! The verified protocol core of a client for the Android Debug Bridge (ADB).
//!
//! Requests become frames and frames become responses ([`connection`]), shell packets are taken
//! from a stream ([`shell`]), and every operation of the client is a [`session`] that says which
//! exchange comes next. What holds of all this together is stated in [`laws`], what the operations
//! come to in [`operations`], and what goes over the wire in [`wire`].

pub mod buffer;
pub mod client;
pub mod connection;
pub mod frame;
pub mod laws;
pub mod numeral;
pub mod operations;
pub mod session;
pub mod shell;
pub mod text;
pub mod util;
pub mod wire;

pub use client::{Device, DeviceListItem, Remote, ToDevice};
pub use util::{AdbError, FrameTooLarge};
