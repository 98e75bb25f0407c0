//! What services answer with.

use vstd::prelude::*;

verus! {

/// An error that cannot happen.
#[derive(Debug)]
pub struct Infallible(core::convert::Infallible);

/// What a call of a method is answered with.
#[derive(Debug)]
pub enum MethodReply<Params, ReplyStream, ReplyError> {
    /// One reply.
    Single(Option<Params>),
    /// An error.
    Error(ReplyError),
    /// Many replies.
    Multi(ReplyStream),
}

} // verus!
