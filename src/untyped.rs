//! The type records that let the bus hold handlers of unrelated types and
//! still check, before each call, that a handler fits the message.
use crate::TypeKey;
use vstd::prelude::*;

verus! {

/// The record of one registered handler instance: the key of its type.
pub struct Untyped {
    type_id: TypeKey,
}

impl Untyped {
    /// The record of an instance of the type `type_id`.
    pub fn new(type_id: TypeKey) -> (r: Self)
        ensures
            r.type_id() == type_id,
    {
        Untyped { type_id }
    }

    /// The key of the instance's type.
    pub closed spec fn type_id(&self) -> TypeKey {
        self.type_id
    }

    /// The key of the instance's type.
    pub fn handler_type(&self) -> (r: TypeKey)
        ensures
            r == self.type_id(),
    {
        self.type_id
    }
}

/// The descriptor of one pairing of a message type with a handler type: it
/// says which handling entry point a subscription calls.
#[derive(Clone, Copy, Debug, PartialEq, Eq, Structural)]
pub struct DynType {
    pub msg_type_id: TypeKey,
    pub type_id: TypeKey,
}

impl DynType {
    /// The descriptor for handlers of type `type_id` receiving messages of type
    /// `msg_type_id`.
    pub fn new(msg_type_id: TypeKey, type_id: TypeKey) -> (r: Self)
        ensures
            r.msg_type_id == msg_type_id,
            r.type_id == type_id,
    {
        DynType { msg_type_id, type_id }
    }

    /// Whether the descriptor may call the handler recorded by `untyped` with
    /// a message of type `msg_type_id`: both type keys must be the recorded
    /// ones. A `false` here means the bus was put together wrongly; a caller
    /// then stops rather than make the call.
    pub fn fits(&self, untyped: &Untyped, msg_type_id: TypeKey) -> (r: bool)
        ensures
            r == (self.type_id == untyped.type_id() && self.msg_type_id == msg_type_id),
    {
        self.type_id == untyped.type_id && self.msg_type_id == msg_type_id
    }

    /// The entry point for calling the handler recorded by `untyped` with a
    /// message of type `msg_type_id`: the (message type, handler type) pair
    /// under which the handling code was recorded. The descriptor must fit
    /// both; a mismatch is a defect of the bus, never a case to handle.
    pub fn dyn_handler(&self, untyped: &Untyped, msg_type_id: TypeKey) -> (r: (TypeKey, TypeKey))
        requires
            self.type_id == untyped.type_id(),
            self.msg_type_id == msg_type_id,
        ensures
            r == (msg_type_id, untyped.type_id()),
    {
        (msg_type_id, untyped.type_id)
    }
}

} // verus!
