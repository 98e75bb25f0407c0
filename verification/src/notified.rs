//! State whose changes are sent to whoever listens.

use vstd::prelude::*;

use crate::call::Reply;

verus! {

/// A state of a service.
#[derive(Debug, Clone)]
pub struct State<T> {
    value: T,
}

impl<T> State<T> {
    /// The state.
    pub closed spec fn current(self) -> T {
        self.value
    }

    /// A state with its first value.
    pub fn new(value: T) -> (r: Self)
        ensures
            r.current() == value,
    {
        State { value }
    }
}

impl<T: Clone> State<T> {
    /// Sets the state to a copy of a value, which is given back to be sent to whoever listens.
    pub fn set(&mut self, value: T) -> (r: T)
        ensures
            r == value,
            cloned(value, final(self).current()),
    {
        self.value = value.clone();
        value
    }

    /// A copy of the state.
    pub fn get(&self) -> (r: T)
        ensures
            cloned(self.current(), r),
    {
        self.value.clone()
    }
}

/// What a channel with many listeners gives to one of them.
pub enum Broadcast<P> {
    /// A value.
    Value(P),
    /// Values were missed.
    Lagged,
    /// Nothing more will come.
    Closed,
}

/// What a listener does with what the channel gave.
pub enum Step<P> {
    /// It yields a reply.
    Yield(Reply<P>),
    /// It waits for what comes next.
    Wait,
    /// It ends.
    End,
}

/// The replies to a call that listens to a state.
#[derive(Debug)]
pub struct Stream<P> {
    cached: Option<P>,
}

impl<P> Stream<P> {
    /// The value that was yielded last, while the state lasts.
    pub closed spec fn last(self) -> Option<P> {
        self.cached
    }

    /// Replies of which none has been yielded.
    pub fn new() -> (r: Self)
        ensures
            r.last() is None,
    {
        Stream { cached: None }
    }
}

/// What a listener does: it yields each value at once and says that more follow, goes on where it
/// missed some, and in the end yields the last value again, if there was one, and says that nothing
/// follows.
pub open spec fn listens<P: Clone>(
    before: Stream<P>,
    event: Broadcast<P>,
    after: Stream<P>,
    step: Step<P>,
) -> bool {
    match event {
        Broadcast::Value(value) => {
            &&& after.last() matches Some(copy) && cloned(value, copy)
            &&& step == Step::Yield(Reply { parameters: Some(value), continues: Some(true) })
        },
        Broadcast::Lagged => after.last() == before.last() && step == Step::<P>::Wait,
        Broadcast::Closed => {
            &&& after.last() is None
            &&& match before.last() {
                Some(value) => step == Step::Yield(
                    Reply { parameters: Some(value), continues: Some(false) },
                ),
                None => step == Step::<P>::End,
            }
        },
    }
}

impl<P: Clone> Stream<P> {
    /// Takes note of what the channel gave.
    pub fn next(&mut self, event: Broadcast<P>) -> (r: Step<P>)
        ensures
            listens(*old(self), event, *final(self), r),
    {
        match event {
            Broadcast::Value(value) => {
                self.cached = Some(value.clone());
                Step::Yield(Reply::new(Some(value)).set_continues(Some(true)))
            },
            Broadcast::Lagged => Step::Wait,
            Broadcast::Closed => match self.cached.take() {
                Some(value) => Step::Yield(Reply::new(Some(value)).set_continues(Some(false))),
                None => Step::End,
            },
        }
    }
}

/// When the state goes, its last value is yielded once more as the last reply, and then the replies
/// end.
pub proof fn law_last_value_ends_the_replies<P: Clone>(
    start: Stream<P>,
    value: P,
    first: Stream<P>,
    a: Step<P>,
    second: Stream<P>,
    b: Step<P>,
    third: Stream<P>,
    c: Step<P>,
)
    requires
        listens(start, Broadcast::Value(value), first, a),
        listens(first, Broadcast::Closed, second, b),
        listens(second, Broadcast::Closed, third, c),
    ensures
        a matches Step::Yield(reply) && reply.continues == Some(true) && reply.parameters == Some(
            value,
        ),
        b matches Step::Yield(reply) && reply.continues == Some(false) && (
        reply.parameters matches Some(copy) && cloned(value, copy)),
        c is End,
{
}

/// A listener that misses values goes on as if there had been none.
pub proof fn law_missed_values_change_nothing<P: Clone>(
    before: Stream<P>,
    after: Stream<P>,
    step: Step<P>,
)
    requires
        listens(before, Broadcast::Lagged, after, step),
    ensures
        after.last() == before.last(),
        step is Wait,
{
}

/// The one reply to a call that waits for a value.
#[derive(Debug)]
pub struct OnceStream {
    terminated: bool,
}

impl OnceStream {
    /// Whether the value has come, or will not come.
    pub closed spec fn over(self) -> bool {
        self.terminated
    }

    /// A reply that has not come.
    pub fn new() -> (r: Self)
        ensures
            !r.over(),
    {
        OnceStream { terminated: false }
    }

    /// Whether the value has come, or will not come: then the channel must not be asked again.
    pub fn is_terminated(&self) -> (r: bool)
        ensures
            r == self.over(),
    {
        self.terminated
    }

    /// Takes note of what the channel gave: the value, or nothing where whoever had it is gone.
    pub fn next<P>(&mut self, received: Option<P>) -> (r: Option<Reply<P>>)
        requires
            !old(self).over(),
        ensures
            final(self).over(),
            match received {
                Some(value) => r == Some(
                    Reply { parameters: Some(value), continues: Some(false) },
                ),
                None => r is None,
            },
    {
        self.terminated = true;
        match received {
            Some(value) => Some(Reply::new(Some(value)).set_continues(Some(false))),
            None => None,
        }
    }
}

} // verus!
