//! An in-process publish/subscribe message bus: handlers subscribe to message
//! types, producers send messages, and each scheduling pass routes every
//! pending message to the subscribers of its type.
use vstd::prelude::*;

pub mod bus;
pub mod hash_map;
pub mod laws;
pub mod list;
pub mod outside;
pub mod receiver;
pub mod untyped;

verus! {

/// The identity of a message or handler type: distinct types have distinct keys.
pub type TypeKey = u64;

} // verus!
