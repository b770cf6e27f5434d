//! A software KVM: one mouse and keyboard shared between the computers of a
//! local network.
//!
//! Every module holds decisions on plain values; the sockets, timers and
//! platform calls around them live outside this library.
use vstd::prelude::*;

pub mod actions;
pub mod capture;
pub mod cli;
pub mod client;
pub mod collections;
pub mod connect;
pub mod consistency;
pub mod discovery;
pub mod dns;
pub mod emulation;
pub mod input;
pub mod ipc;
pub mod macos;
pub mod net;
pub mod pairing;
pub mod proto;
pub mod service;
pub mod text;
pub mod upkeep;

verus! {

} // verus!
