//! The replies to a chain of calls.

use vstd::prelude::*;

verus! {

/// What was received in place of a reply.
#[derive(Debug, Clone, Copy, PartialEq, Eq, Structural)]
pub enum Received {
    /// A successful reply, which may say whether more follow.
    Reply(Option<bool>),
    /// An error of the method.
    MethodError,
    /// Anything else: the connection is of no more use.
    Failure,
}

/// Whether what was received is the last that its call gets.
pub open spec fn is_last(item: Received) -> bool {
    match item {
        Received::Reply(continues) => continues != Some(true),
        Received::MethodError => true,
        Received::Failure => true,
    }
}

/// How many calls have got all their replies, when `expected` are to and `arrived` had before.
pub open spec fn next_arrived(expected: nat, arrived: nat, item: Received) -> nat {
    if item is Failure {
        expected
    } else if is_last(item) {
        arrived + 1
    } else {
        arrived
    }
}

/// The replies to a chain of calls, as far as they have come.
#[derive(Debug)]
pub struct ReplyStream {
    reply_count: usize,
    current_index: usize,
}

impl ReplyStream {
    /// How many calls get replies.
    pub closed spec fn expected(self) -> nat {
        self.reply_count as nat
    }

    /// How many of them have got all their replies.
    pub closed spec fn arrived(self) -> nat {
        self.current_index as nat
    }

    /// No more calls have got their replies than get any.
    pub open spec fn wf(self) -> bool {
        self.arrived() <= self.expected()
    }

    /// Whether all replies have come.
    pub open spec fn ended(self) -> bool {
        self.arrived() >= self.expected()
    }

    /// The replies to calls of which `reply_count` get any.
    pub fn new(reply_count: usize) -> (r: Self)
        ensures
            r.wf(),
            r.expected() == reply_count,
            r.arrived() == 0,
    {
        ReplyStream { reply_count, current_index: 0 }
    }

    /// Whether all replies have come: then nothing more is to be received.
    pub fn is_done(&self) -> (r: bool)
        ensures
            r == self.ended(),
    {
        self.current_index >= self.reply_count
    }

    /// Takes note of what was received.
    pub fn advance(&mut self, item: Received)
        requires
            !old(self).ended(),
        ensures
            final(self).wf(),
            final(self).expected() == old(self).expected(),
            final(self).arrived() == next_arrived(old(self).expected(), old(self).arrived(), item),
    {
        match item {
            Received::Reply(Some(true)) => {},
            Received::Reply(_) => {
                self.current_index += 1;
            },
            Received::MethodError => {
                self.current_index += 1;
            },
            Received::Failure => {
                self.current_index = self.reply_count;
            },
        }
    }
}

/// How many calls have got all their replies behind a series of items, none of which came when all
/// had.
pub open spec fn arrived_after(expected: nat, items: Seq<Received>) -> nat
    decreases items.len(),
{
    if items.len() == 0 {
        0
    } else {
        next_arrived(expected, arrived_after(expected, items.drop_last()), items.last())
    }
}

/// Whether a series of items is what the stream gives, up to some point: it goes on as long as not
/// all calls have got their replies.
pub open spec fn is_given(expected: nat, items: Seq<Received>) -> bool {
    forall|k: int|
        0 <= k < items.len() ==> #[trigger] arrived_after(expected, items.take(k)) < expected
}

/// How many items of a series are the last that their calls get.
pub open spec fn last_items(items: Seq<Received>) -> nat
    decreases items.len(),
{
    if items.len() == 0 {
        0
    } else {
        last_items(items.drop_last()) + if is_last(items.last()) {
            1nat
        } else {
            0
        }
    }
}

/// Without a failure, the stream ends with the last reply to the last call, and not before: replies
/// that say that more follow do not count.
pub proof fn law_ends_with_the_last_reply(expected: nat, items: Seq<Received>)
    requires
        is_given(expected, items),
        forall|k: int| 0 <= k < items.len() ==> !((#[trigger] items[k]) is Failure),
    ensures
        arrived_after(expected, items) == last_items(items),
        last_items(items) <= expected,
        arrived_after(expected, items) >= expected <==> last_items(items) == expected,
    decreases items.len(),
{
    if items.len() > 0 {
        let before = items.drop_last();
        lemma_given_prefix(expected, items);
        law_ends_with_the_last_reply(expected, before);
        assert(items.take(items.len() - 1) =~= before);
        assert(!(items[items.len() - 1] is Failure));
    }
}

/// A failure ends the stream.
pub proof fn law_failure_ends_the_stream(expected: nat, items: Seq<Received>)
    requires
        items.len() > 0,
        items.last() is Failure,
    ensures
        arrived_after(expected, items) == expected,
{
}

/// Nothing is given behind a failure.
pub proof fn law_nothing_follows_a_failure(expected: nat, items: Seq<Received>, k: int)
    requires
        is_given(expected, items),
        0 <= k < items.len(),
        items[k] is Failure,
    ensures
        k == items.len() - 1,
{
    if k + 1 < items.len() {
        assert(arrived_after(expected, items.take(k + 1)) < expected);
        assert(items.take(k + 1).last() == items[k]);
    }
}

proof fn lemma_given_prefix(expected: nat, items: Seq<Received>)
    requires
        is_given(expected, items),
        items.len() > 0,
    ensures
        is_given(expected, items.drop_last()),
{
    let before = items.drop_last();
    assert forall|k: int| 0 <= k < before.len() implies #[trigger] arrived_after(
        expected,
        before.take(k),
    ) < expected by {
        assert(before.take(k) =~= items.take(k));
        assert(arrived_after(expected, items.take(k)) < expected);
    }
}

/// What ends the replies to a call is a method's error, a failure, or a reply that does not say that
/// more follow.
pub proof fn law_replies_that_do_not_continue_are_counted(items: Seq<Received>)
    ensures
        last_items(items) == items.filter(
            |item: Received| item != Received::Reply(Some(true)),
        ).len(),
    decreases items.len(),
{
    reveal(Seq::filter);
    if items.len() > 0 {
        law_replies_that_do_not_continue_are_counted(items.drop_last());
    }
}

/// A stream of replies has ended exactly when as many calls have got all their replies as get any.
pub proof fn law_streams_end_with_the_last_call(stream: ReplyStream)
    requires
        stream.wf(),
    ensures
        stream.arrived() <= stream.expected(),
        stream.ended() <==> stream.arrived() == stream.expected(),
{
}

} // verus!
