//! Guest execution substrate: a host embeds a compiled guest module, drives
//! it one cooperative step per tick, and exchanges framed messages with it.
//!
//! From the bottom up:
//!
//! - [`wire`] and [`text`]: words, blobs, a bounds-checked reader, UTF-8.
//! - [`protocol`]: the calls a guest makes, the responses a host gives, and
//!   their frames.
//! - [`memory`] and [`exchange`]: the guest's linear memory, the buffers the
//!   host fills in it, and the messages the guest leaves in it.
//! - [`routine`] and [`executor`]: the guest's code, and the executor that
//!   advances it from one suspension point to the next.
//! - [`state`]: all a guest owns, and its entry points.
//! - [`runtime`]: what a host asks of any backend.
//! - [`sandbox`] and [`snapshot`]: the backend that interprets module
//!   images, and the form in which it saves its guests.
//! - [`loops`]: what holds of every guest that loops from frame to frame.
//! - [`engine`] and [`driver`]: one turn of the host's loop, and the
//!   decisions of the build-and-run command.
//!
//! Every function comes with a contract, stated over the mathematical view
//! of the values it handles, and all but one of the contracts are proved:
//! [`text`] says which one is taken on trust.

pub mod driver;
pub mod engine;
pub mod error;
pub mod exchange;
pub mod executor;
pub mod loops;
pub mod memory;
pub mod protocol;
pub mod routine;
pub mod runtime;
pub mod sandbox;
pub mod snapshot;
pub mod state;
pub mod text;
pub mod wire;
