//! Call sinks: per-call intake of replies, and what the caller collects.
use vstd::prelude::*;

use crate::error::DeserializerError;
use crate::fields::Attributes;
use crate::model::Response;

verus! {

/// One decoded sentence delivered to a call.
pub type Item = Result<Response<Attributes>, DeserializerError>;

/// Misuse of a call sink.
#[derive(Debug, Clone, Copy, PartialEq, Eq, Structural)]
pub enum CallError {
    /// The call already received its terminal event.
    DoneAlreadyHappened,
    /// The call has not received its terminal event yet.
    NotDone,
}

/// The intake side of a call: replies pushed in order, then one terminal event.
pub trait AsyncCall: Sized {
    /// Whether the call has received its terminal event.
    spec fn is_done(&self) -> bool;

    /// Whether `next` is this call after accepting `item`.
    spec fn pushed(&self, next: Self, item: Item) -> bool;

    /// Whether `next` is this call after its terminal event.
    spec fn closed(&self, next: Self) -> bool;

    /// Whether `next` is this call ended by the session failure `message`:
    /// done, and resolving to `Fatal(message)`.
    spec fn failed(&self, next: Self, message: String) -> bool;

    /// Accepts a reply; refused once the call is done.
    fn push_reply(&mut self, item: Item) -> (r: Result<(), CallError>)
        ensures
            old(self).is_done() ==> r == Err::<(), CallError>(CallError::DoneAlreadyHappened)
                && *final(self) == *old(self),
            !old(self).is_done() ==> r is Ok && old(self).pushed(*final(self), item)
                && !final(self).is_done(),
    ;

    /// The terminal event; a second one is refused and changes nothing.
    fn done(&mut self) -> (r: Result<(), CallError>)
        ensures
            old(self).is_done() ==> r == Err::<(), CallError>(CallError::DoneAlreadyHappened)
                && *final(self) == *old(self),
            !old(self).is_done() ==> r is Ok && old(self).closed(*final(self))
                && final(self).is_done(),
    ;

    /// Ends the call because the session failed with `message`; refused,
    /// changing nothing, once the call is done.
    fn fail(&mut self, message: String) -> (r: Result<(), CallError>)
        ensures
            old(self).is_done() ==> r == Err::<(), CallError>(CallError::DoneAlreadyHappened)
                && *final(self) == *old(self),
            !old(self).is_done() ==> r is Ok && old(self).failed(*final(self), message)
                && final(self).is_done(),
    ;
}

/// Whether `item` is an error reply of the router: a trap or a fatal message.
pub open spec fn is_alarm(item: Item) -> bool {
    item matches Ok(r) && (r is Trap || r is Fatal)
}

/// Whether `item` is an error reply of the router: a trap or a fatal message.
pub fn alarm(item: &Item) -> (r: bool)
    ensures
        r == is_alarm(*item),
{
    match item {
        Ok(Response::Trap { .. }) => true,
        Ok(Response::Fatal(_)) => true,
        _ => false,
    }
}

/// A call answered by one reply: the first reply wins and later ones are
/// ignored, except that a trap or fatal message replaces a reply before it.
#[derive(Debug)]
pub struct OneShotCall {
    pub first: Option<Item>,
    pub finished: bool,
}

impl OneShotCall {
    /// A call with nothing received.
    pub fn new() -> (r: Self)
        ensures
            r.first is None,
            !r.finished,
    {
        OneShotCall { first: None, finished: false }
    }

    /// The call's response once it is done: what it kept, or `Done` if nothing came.
    pub fn take_result(self) -> (r: Result<Item, CallError>)
        ensures
            !self.finished ==> r == Err::<Item, CallError>(CallError::NotDone),
            self.finished ==> r == Ok::<Item, CallError>(
                match self.first {
                    Some(x) => x,
                    None => Ok(Response::Done),
                },
            ),
    {
        if !self.finished {
            return Err(CallError::NotDone);
        }
        match self.first {
            Some(x) => Ok(x),
            None => Ok(Ok(Response::Done)),
        }
    }
}

impl AsyncCall for OneShotCall {
    open spec fn is_done(&self) -> bool {
        self.finished
    }

    open spec fn pushed(&self, next: Self, item: Item) -> bool {
        next.finished == self.finished && next.first == match self.first {
            Some(x) => if !is_alarm(x) && is_alarm(item) {
                Some(item)
            } else {
                Some(x)
            },
            None => Some(item),
        }
    }

    open spec fn closed(&self, next: Self) -> bool {
        next.first == self.first
    }

    open spec fn failed(&self, next: Self, message: String) -> bool {
        next.finished && next.first == Some(Ok::<Response<Attributes>, DeserializerError>(Response::Fatal(message)))
    }

    fn push_reply(&mut self, item: Item) -> (r: Result<(), CallError>) {
        if self.finished {
            return Err(CallError::DoneAlreadyHappened);
        }
        let replace = match &self.first {
            None => true,
            Some(x) => !alarm(x) && alarm(&item),
        };
        if replace {
            self.first = Some(item);
        }
        Ok(())
    }

    fn fail(&mut self, message: String) -> (r: Result<(), CallError>) {
        if self.finished {
            return Err(CallError::DoneAlreadyHappened);
        }
        self.first = Some(Ok(Response::Fatal(message)));
        self.finished = true;
        Ok(())
    }

    fn done(&mut self) -> (r: Result<(), CallError>) {
        if self.finished {
            return Err(CallError::DoneAlreadyHappened);
        }
        self.finished = true;
        Ok(())
    }
}

/// A call answered by a finite list of replies, kept in arrival order.
#[derive(Debug)]
pub struct ArrayListCall {
    pub items: Vec<Item>,
    pub finished: bool,
}

impl ArrayListCall {
    /// A call with nothing received.
    pub fn new() -> (r: Self)
        ensures
            r.items@.len() == 0,
            !r.finished,
    {
        ArrayListCall { items: Vec::new(), finished: false }
    }

    /// The replies, once the call is done.
    pub fn take_result(self) -> (r: Result<Vec<Item>, CallError>)
        ensures
            !self.finished ==> r matches Err(CallError::NotDone),
            self.finished ==> (r matches Ok(v) && v@ == self.items@),
    {
        if !self.finished {
            return Err(CallError::NotDone);
        }
        Ok(self.items)
    }
}

impl AsyncCall for ArrayListCall {
    open spec fn is_done(&self) -> bool {
        self.finished
    }

    open spec fn pushed(&self, next: Self, item: Item) -> bool {
        next.items@ == self.items@.push(item) && next.finished == self.finished
    }

    open spec fn closed(&self, next: Self) -> bool {
        next.items@ == self.items@
    }

    open spec fn failed(&self, next: Self, message: String) -> bool {
        next.finished && next.items@ == seq![Ok::<Response<Attributes>, DeserializerError>(Response::Fatal(message))]
    }

    fn fail(&mut self, message: String) -> (r: Result<(), CallError>) {
        if self.finished {
            return Err(CallError::DoneAlreadyHappened);
        }
        let ghost m = message;
        self.items = vec![Ok(Response::Fatal(message))];
        assert(self.items@ =~= seq![Ok::<Response<Attributes>, DeserializerError>(Response::Fatal(m))]);
        self.finished = true;
        Ok(())
    }

    fn push_reply(&mut self, item: Item) -> (r: Result<(), CallError>) {
        if self.finished {
            return Err(CallError::DoneAlreadyHappened);
        }
        self.items.push(item);
        Ok(())
    }

    fn done(&mut self) -> (r: Result<(), CallError>) {
        if self.finished {
            return Err(CallError::DoneAlreadyHappened);
        }
        self.finished = true;
        Ok(())
    }
}

/// What a stream hands its consumer.
#[derive(Debug)]
pub enum StreamPoll {
    /// The next item.
    Item(Item),
    /// Nothing yet; more may come.
    Pending,
    /// The stream is closed and drained.
    End,
}

/// A call whose replies are delivered as they come, until `!done` closes it.
#[derive(Debug)]
pub struct StreamingCall {
    pub queue: Vec<Item>,
    pub finished: bool,
}

impl StreamingCall {
    /// A stream with nothing received.
    pub fn new() -> (r: Self)
        ensures
            r.queue@.len() == 0,
            !r.finished,
    {
        StreamingCall { queue: Vec::new(), finished: false }
    }

    /// Whether `next` is this stream after handing out `r`: the oldest
    /// queued item if there is one; else the end once closed, and nothing
    /// yet before.
    pub open spec fn polled(&self, next: Self, r: StreamPoll) -> bool {
        &&& next.finished == self.finished
        &&& self.queue@.len() > 0 ==> r == StreamPoll::Item(self.queue@[0]) && next.queue@
            == self.queue@.skip(1)
        &&& self.queue@.len() == 0 ==> next.queue@ == self.queue@ && (if self.finished {
            r is End
        } else {
            r is Pending
        })
    }

    /// Takes the oldest queued item; once closed and drained, signals the end.
    pub fn next_item(&mut self) -> (r: StreamPoll)
        ensures
            old(self).polled(*final(self), r),
    {
        if self.queue.len() > 0 {
            let x = self.queue.remove(0);
            assert(self.queue@ =~= old(self).queue@.skip(1));
            StreamPoll::Item(x)
        } else if self.finished {
            StreamPoll::End
        } else {
            StreamPoll::Pending
        }
    }
}

impl AsyncCall for StreamingCall {
    open spec fn is_done(&self) -> bool {
        self.finished
    }

    open spec fn pushed(&self, next: Self, item: Item) -> bool {
        next.queue@ == self.queue@.push(item) && next.finished == self.finished
    }

    open spec fn closed(&self, next: Self) -> bool {
        next.queue@ == self.queue@
    }

    open spec fn failed(&self, next: Self, message: String) -> bool {
        next.finished && next.queue@ == self.queue@.push(Ok::<Response<Attributes>, DeserializerError>(Response::Fatal(message)))
    }

    fn fail(&mut self, message: String) -> (r: Result<(), CallError>) {
        if self.finished {
            return Err(CallError::DoneAlreadyHappened);
        }
        self.queue.push(Ok(Response::Fatal(message)));
        self.finished = true;
        Ok(())
    }

    fn push_reply(&mut self, item: Item) -> (r: Result<(), CallError>) {
        if self.finished {
            return Err(CallError::DoneAlreadyHappened);
        }
        self.queue.push(item);
        Ok(())
    }

    fn done(&mut self) -> (r: Result<(), CallError>) {
        if self.finished {
            return Err(CallError::DoneAlreadyHappened);
        }
        self.finished = true;
        Ok(())
    }
}

/// A stream hands out the replies pushed into it in arrival order, each
/// exactly once, and has nothing more until another reply comes.
pub proof fn lemma_stream_in_order(
    c0: StreamingCall,
    f1: Item,
    c1: StreamingCall,
    f2: Item,
    c2: StreamingCall,
    r3: StreamPoll,
    c3: StreamingCall,
    r4: StreamPoll,
    c4: StreamingCall,
    r5: StreamPoll,
    c5: StreamingCall,
)
    requires
        c0.queue@.len() == 0,
        !c0.finished,
        c0.pushed(c1, f1),
        c1.pushed(c2, f2),
        c2.polled(c3, r3),
        c3.polled(c4, r4),
        c4.polled(c5, r5),
    ensures
        r3 == StreamPoll::Item(f1),
        r4 == StreamPoll::Item(f2),
        r5 is Pending,
{
    assert(c2.queue@ =~= seq![f1, f2]);
    assert(c3.queue@ =~= seq![f2]);
    assert(c4.queue@.len() == 0);
}

/// Once closed, a stream still hands out what it queued, then ends.
pub proof fn lemma_stream_closes_after_queue(
    c0: StreamingCall,
    f: Item,
    c1: StreamingCall,
    c2: StreamingCall,
    r3: StreamPoll,
    c3: StreamingCall,
    r4: StreamPoll,
    c4: StreamingCall,
)
    requires
        c0.queue@.len() == 0,
        !c0.finished,
        c0.pushed(c1, f),
        c1.closed(c2),
        c2.finished,
        c2.polled(c3, r3),
        c3.polled(c4, r4),
    ensures
        r3 == StreamPoll::Item(f),
        r4 is End,
{
    assert(c2.queue@ =~= seq![f]);
    assert(c3.queue@.len() == 0);
}

} // verus!
