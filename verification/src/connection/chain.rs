//! Chains of calls that are sent together.

use vstd::prelude::*;

use super::reply_stream::ReplyStream;
use crate::call::Call;

verus! {

/// A chain of calls that are sent together over the connection `C`.
///
/// Calls that want no reply get none, and the chain waits for none.
#[derive(Debug)]
pub struct Chain<C> {
    connection: C,
    call_count: usize,
    reply_count: usize,
}

impl<C> Chain<C> {
    /// How many calls there are.
    pub closed spec fn calls(self) -> nat {
        self.call_count as nat
    }

    /// How many of them want a reply.
    pub closed spec fn replies(self) -> nat {
        self.reply_count as nat
    }

    /// The connection.
    pub closed spec fn over(self) -> C {
        self.connection
    }

    /// No more replies are waited for than calls are sent.
    pub open spec fn wf(self) -> bool {
        self.replies() <= self.calls()
    }

    /// A chain with its first call, `enqueued` being what came of enqueuing that.
    pub fn new<M, E>(connection: C, call: &Call<M>, enqueued: Result<(), E>) -> (r: Result<Self, E>)
        ensures
            match enqueued {
                Err(e) => r matches Err(err) && err == e,
                Ok(_) => r matches Ok(chain) && chain.wf() && chain.over() == connection
                    && chain.calls() == 1 && chain.replies() == wanted(call.is_oneway())
                    && begins(chain, call.is_oneway()),
            },
    {
        match enqueued {
            Err(e) => Err(e),
            Ok(_) => {
                let reply_count: usize = if call.oneway() {
                    0
                } else {
                    1
                };
                Ok(Chain { connection, call_count: 1, reply_count })
            },
        }
    }

    /// The chain with one more call, `enqueued` being what came of enqueuing that.
    pub fn append<M, E>(self, call: &Call<M>, enqueued: Result<(), E>) -> (r: Result<Self, E>)
        requires
            self.wf(),
            self.calls() < usize::MAX,
        ensures
            match enqueued {
                Err(e) => r matches Err(err) && err == e,
                Ok(_) => r matches Ok(chain) && chain.wf() && chain.over() == self.over()
                    && chain.calls() == self.calls() + 1 && chain.replies() == self.replies()
                    + wanted(call.is_oneway()) && grows(self, chain, call.is_oneway()),
            },
    {
        match enqueued {
            Err(e) => Err(e),
            Ok(_) => {
                let mut chain = self;
                if !call.oneway() {
                    chain.reply_count += 1;
                }
                chain.call_count += 1;
                Ok(chain)
            },
        }
    }

    /// The connection and the replies that come over it, `flushed` being what came of sending all
    /// calls.
    pub fn send<E>(self, flushed: Result<(), E>) -> (r: Result<(C, ReplyStream), E>)
        ensures
            match flushed {
                Err(e) => r matches Err(err) && err == e,
                Ok(_) => r matches Ok((connection, replies)) && connection == self.over()
                    && replies.wf() && replies.expected() == self.replies() && replies.arrived()
                    == 0,
            },
    {
        match flushed {
            Err(e) => Err(e),
            Ok(_) => Ok((self.connection, ReplyStream::new(self.reply_count))),
        }
    }

    /// How many calls there are.
    pub fn call_count(&self) -> (r: usize)
        ensures
            r == self.calls(),
    {
        self.call_count
    }

    /// How many of them want a reply.
    pub fn reply_count(&self) -> (r: usize)
        ensures
            r == self.replies(),
    {
        self.reply_count
    }

    /// The connection, to enqueue calls on.
    pub fn connection_mut(&mut self) -> (r: &mut C)
        ensures
            *r == old(self).over(),
            final(self).over() == *final(r),
            final(self).calls() == old(self).calls(),
            final(self).replies() == old(self).replies(),
    {
        &mut self.connection
    }
}

/// How many replies a call wants.
pub open spec fn wanted(oneway: bool) -> nat {
    if oneway {
        0
    } else {
        1
    }
}

/// How many replies calls want, given for each whether it wants none.
pub open spec fn all_wanted(oneway: Seq<bool>) -> nat
    decreases oneway.len(),
{
    if oneway.len() == 0 {
        0
    } else {
        all_wanted(oneway.drop_last()) + wanted(oneway.last())
    }
}

/// Whether a chain has one call, given whether that wants no reply.
pub open spec fn begins<C>(chain: Chain<C>, oneway: bool) -> bool {
    chain.calls() == 1 && chain.replies() == wanted(oneway)
}

/// Whether a chain is another with one more call, given whether that wants no reply.
pub open spec fn grows<C>(before: Chain<C>, after: Chain<C>, oneway: bool) -> bool {
    after.calls() == before.calls() + 1 && after.replies() == before.replies() + wanted(oneway)
}

/// Whether a chain is made of calls, given for each whether it wants no reply.
pub open spec fn is_made_of<C>(chain: Chain<C>, oneway: Seq<bool>) -> bool {
    chain.calls() == oneway.len() && chain.replies() == all_wanted(oneway)
}

/// Whether a chain is new with the first of some calls, and grows by one of the others at a time,
/// given for each whether it wants no reply.
pub open spec fn is_growth<C>(chains: Seq<Chain<C>>, oneway: Seq<bool>) -> bool {
    &&& chains.len() == oneway.len() > 0
    &&& begins(chains[0], oneway[0])
    &&& forall|k: int|
        0 < k < chains.len() ==> grows(chains[k - 1], #[trigger] chains[k], oneway[k])
}

/// A chain waits for one reply for each of its calls that wants one, however long it grows.
pub proof fn law_one_reply_for_each_call_that_wants_one<C>(
    chains: Seq<Chain<C>>,
    oneway: Seq<bool>,
)
    requires
        is_growth(chains, oneway),
    ensures
        is_made_of(chains.last(), oneway),
        chains.last().wf(),
    decreases chains.len(),
{
    let before = oneway.drop_last();
    if chains.len() == 1 {
        assert(before =~= seq![]);
        assert(all_wanted(before) == 0);
    } else {
        let n = chains.len() - 1;
        assert(chains[n].calls() == chains[n - 1].calls() + 1);
        law_one_reply_for_each_call_that_wants_one(chains.drop_last(), before);
    }
    lemma_all_wanted_bounded(oneway);
}

proof fn lemma_all_wanted_bounded(oneway: Seq<bool>)
    ensures
        all_wanted(oneway) <= oneway.len(),
    decreases oneway.len(),
{
    if oneway.len() > 0 {
        lemma_all_wanted_bounded(oneway.drop_last());
    }
}

/// The replies that are wanted are one for each call that does not go one way.
pub proof fn law_calls_that_go_both_ways_are_counted(oneway: Seq<bool>)
    ensures
        all_wanted(oneway) == oneway.filter(|one: bool| !one).len(),
    decreases oneway.len(),
{
    reveal(Seq::filter);
    if oneway.len() > 0 {
        law_calls_that_go_both_ways_are_counted(oneway.drop_last());
    }
}

} // verus!
