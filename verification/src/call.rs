//! Calls and replies.

use vstd::prelude::*;

verus! {

/// A method call.
#[derive(Debug)]
pub struct Call<M> {
    /// The method with its parameters.
    pub method: M,
    /// Whether no reply is wanted.
    pub oneway: Option<bool>,
    /// Whether more than one reply is wanted.
    pub more: Option<bool>,
}

impl<M> Call<M> {
    /// Whether no reply is wanted.
    pub open spec fn is_oneway(self) -> bool {
        self.oneway == Some(true)
    }

    /// A call that wants one reply.
    pub fn new(method: M) -> (r: Self)
        ensures
            r == (Call { method, oneway: None, more: None }),
    {
        Call { method, oneway: None, more: None }
    }

    /// The same call, wanting no reply or wanting one.
    pub fn set_oneway(self, oneway: bool) -> (r: Self)
        ensures
            r == (Call { method: self.method, oneway: Some(oneway), more: self.more }),
    {
        Call { method: self.method, oneway: Some(oneway), more: self.more }
    }

    /// The same call, wanting more than one reply or not.
    pub fn set_more(self, more: bool) -> (r: Self)
        ensures
            r == (Call { method: self.method, oneway: self.oneway, more: Some(more) }),
    {
        Call { method: self.method, oneway: self.oneway, more: Some(more) }
    }

    /// Whether no reply is wanted.
    pub fn oneway(&self) -> (r: bool)
        ensures
            r == self.is_oneway(),
    {
        match self.oneway {
            Some(oneway) => oneway,
            None => false,
        }
    }
}

/// A successful reply.
#[derive(Debug)]
pub struct Reply<P> {
    /// The parameters.
    pub parameters: Option<P>,
    /// Whether more replies follow.
    pub continues: Option<bool>,
}

impl<P> Reply<P> {
    /// A reply with these parameters.
    pub fn new(parameters: Option<P>) -> (r: Self)
        ensures
            r == (Reply { parameters, continues: None }),
    {
        Reply { parameters, continues: None }
    }

    /// The same reply, saying whether more follow.
    pub fn set_continues(self, continues: Option<bool>) -> (r: Self)
        ensures
            r == (Reply { parameters: self.parameters, continues }),
    {
        Reply { parameters: self.parameters, continues }
    }
}

/// Only a call that was made one-way is.
pub proof fn law_calls_go_one_way_where_they_say_so<M>(call: Call<M>)
    ensures
        call.is_oneway() <==> call.oneway is Some && call.oneway->0,
{
}

} // verus!
