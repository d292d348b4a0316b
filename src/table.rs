//! The tag table: routes reply sentences to the call that owns their tag.
use vstd::prelude::*;
use vstd::string::StringSliceAdditionalSpecFns;

use crate::call::{
    ArrayListCall, AsyncCall, CallError, Item, OneShotCall, StreamPoll, StreamingCall,
};
use crate::de::{deserialize_sentence, reply_kind, reply_kind_of, sentence_response, ReplyKind};
use crate::error::Error;
use crate::fields::{bytes_start_with, parse_unsigned, starts_with, unsigned_of};
use crate::model::{Response, ResponseView};
use crate::read::words_view;

verus! {

/// The smallest tag a call can have.
pub const MIN_TAG: u16 = 1;

/// The largest tag a call can have.
pub const MAX_TAG: u16 = 65534;

/// The shape of a call, which decides how its replies are collected.
#[derive(Debug, Clone, Copy, PartialEq, Eq, Structural)]
pub enum CallKind {
    OneShot,
    ArrayList,
    Streaming,
}

/// The intake state of one call.
#[derive(Debug)]
pub enum Sink {
    OneShot(OneShotCall),
    ArrayList(ArrayListCall),
    Streaming(StreamingCall),
}

/// Whether `s` is a sink of kind `kind` that has received nothing.
pub open spec fn is_fresh(s: Sink, kind: CallKind) -> bool {
    match s {
        Sink::OneShot(c) => kind == CallKind::OneShot && c.first is None && !c.finished,
        Sink::ArrayList(c) => kind == CallKind::ArrayList && c.items@.len() == 0 && !c.finished,
        Sink::Streaming(c) => kind == CallKind::Streaming && c.queue@.len() == 0 && !c.finished,
    }
}

impl Sink {
    /// A sink of kind `kind` that has received nothing.
    pub fn new(kind: CallKind) -> (r: Sink)
        ensures
            is_fresh(r, kind),
    {
        match kind {
            CallKind::OneShot => Sink::OneShot(OneShotCall::new()),
            CallKind::ArrayList => Sink::ArrayList(ArrayListCall::new()),
            CallKind::Streaming => Sink::Streaming(StreamingCall::new()),
        }
    }
}

impl AsyncCall for Sink {
    open spec fn is_done(&self) -> bool {
        match self {
            Sink::OneShot(c) => c.is_done(),
            Sink::ArrayList(c) => c.is_done(),
            Sink::Streaming(c) => c.is_done(),
        }
    }

    open spec fn pushed(&self, next: Self, item: Item) -> bool {
        match (self, next) {
            (Sink::OneShot(a), Sink::OneShot(b)) => a.pushed(b, item),
            (Sink::ArrayList(a), Sink::ArrayList(b)) => a.pushed(b, item),
            (Sink::Streaming(a), Sink::Streaming(b)) => a.pushed(b, item),
            _ => false,
        }
    }

    open spec fn closed(&self, next: Self) -> bool {
        match (self, next) {
            (Sink::OneShot(a), Sink::OneShot(b)) => a.closed(b),
            (Sink::ArrayList(a), Sink::ArrayList(b)) => a.closed(b),
            (Sink::Streaming(a), Sink::Streaming(b)) => a.closed(b),
            _ => false,
        }
    }

    open spec fn failed(&self, next: Self, message: String) -> bool {
        match (self, next) {
            (Sink::OneShot(a), Sink::OneShot(b)) => a.failed(b, message),
            (Sink::ArrayList(a), Sink::ArrayList(b)) => a.failed(b, message),
            (Sink::Streaming(a), Sink::Streaming(b)) => a.failed(b, message),
            _ => false,
        }
    }

    fn fail(&mut self, message: String) -> (r: Result<(), CallError>) {
        match self {
            Sink::OneShot(c) => c.fail(message),
            Sink::ArrayList(c) => c.fail(message),
            Sink::Streaming(c) => c.fail(message),
        }
    }

    fn push_reply(&mut self, item: Item) -> (r: Result<(), CallError>) {
        match self {
            Sink::OneShot(c) => c.push_reply(item),
            Sink::ArrayList(c) => c.push_reply(item),
            Sink::Streaming(c) => c.push_reply(item),
        }
    }

    fn done(&mut self) -> (r: Result<(), CallError>) {
        match self {
            Sink::OneShot(c) => c.done(),
            Sink::ArrayList(c) => c.done(),
            Sink::Streaming(c) => c.done(),
        }
    }
}

/// A call in flight: its tag on the wire, its id for the caller, its sink.
#[derive(Debug)]
pub struct LiveCall {
    pub tag: u16,
    pub id: u64,
    pub sink: Sink,
}

/// A call that has received its terminal event and waits for its caller.
#[derive(Debug)]
pub struct FinishedCall {
    pub id: u64,
    pub sink: Sink,
}

/// How the reader loop classifies a sentence.
#[derive(Debug, Clone, Copy, PartialEq, Eq, Structural)]
pub enum Frame {
    /// `!re` or `!trap` for a tag.
    Reply(u16),
    /// `!done` for a tag.
    Done(u16),
    /// `!fatal`: the whole session ends.
    Fatal,
    /// Anything else.
    Other,
}

/// The tag that a routing word `.tag=<digits>` carries.
pub open spec fn tag_of(w: Seq<u8>) -> Option<nat> {
    if starts_with(w, ".tag=".spec_bytes()) {
        unsigned_of(w.skip(".tag=".spec_bytes().len() as int), 0xFFFF)
    } else {
        None
    }
}

/// The class of the sentence `ws`, from its first two words.
pub open spec fn frame_of(ws: Seq<Seq<u8>>) -> Frame {
    if ws.len() == 0 {
        Frame::Other
    } else {
        match reply_kind(ws[0]) {
            Some(ReplyKind::Fatal) => Frame::Fatal,
            Some(ReplyKind::Done) => if ws.len() >= 2 && tag_of(ws[1]) is Some {
                Frame::Done(tag_of(ws[1])->Some_0 as u16)
            } else {
                Frame::Other
            },
            Some(_) => if ws.len() >= 2 && tag_of(ws[1]) is Some {
                Frame::Reply(tag_of(ws[1])->Some_0 as u16)
            } else {
                Frame::Other
            },
            None => Frame::Other,
        }
    }
}

/// Reads the tag of a routing word.
pub fn read_tag(w: &[u8]) -> (r: Option<u16>)
    ensures
        match tag_of(w@) {
            Some(t) => r == Some(t as u16) && t <= 0xFFFF,
            None => r is None,
        },
{
    let marker = ".tag=".as_bytes();
    if !bytes_start_with(w, marker) {
        return None;
    }
    let digits = vstd::slice::slice_subrange(w, marker.len(), w.len());
    assert(digits@ =~= w@.skip(".tag=".spec_bytes().len() as int));
    match parse_unsigned(digits, 0xFFFF) {
        Some(n) => Some(n as u16),
        None => None,
    }
}

/// Classifies a sentence by its first two words.
pub fn classify(words: &[Vec<u8>]) -> (r: Frame)
    ensures
        r == frame_of(words_view(words@)),
{
    let ghost ws = words_view(words@);
    if words.len() == 0 {
        return Frame::Other;
    }
    match reply_kind_of(words[0].as_slice()) {
        Some(ReplyKind::Fatal) => Frame::Fatal,
        Some(kind) => {
            if words.len() < 2 {
                return Frame::Other;
            }
            match read_tag(words[1].as_slice()) {
                Some(t) => if kind == ReplyKind::Done {
                    Frame::Done(t)
                } else {
                    Frame::Reply(t)
                },
                None => Frame::Other,
            }
        },
        None => Frame::Other,
    }
}

/// Whether `item` is what the sentence `ws` decodes to.
pub open spec fn decodes_to(ws: Seq<Seq<u8>>, item: Item) -> bool {
    match sentence_response(ws) {
        Ok(v) => item matches Ok(x) && x@ == v,
        Err(e) => item matches Err(x) && x@ == e,
    }
}

/// What the reader loop did with a sentence.
#[derive(Debug, Clone, Copy, PartialEq, Eq, Structural)]
pub enum Action {
    /// A reply went to the call with this id.
    Delivered(u64),
    /// The call with this id received its terminal event.
    Completed(u64),
    /// No live call owns the sentence; it was dropped.
    Discarded,
    /// The session ended; every live call received the fatal message.
    Fatal,
}

/// All live calls, and those finished but not collected.
#[derive(Debug)]
pub struct TagTable {
    live: Vec<LiveCall>,
    finished: Vec<FinishedCall>,
    next_id: u64,
}

impl TagTable {
    /// The calls in flight.
    pub closed spec fn live(&self) -> Seq<LiveCall> {
        self.live@
    }

    /// The calls finished and not yet collected.
    pub closed spec fn finished(&self) -> Seq<FinishedCall> {
        self.finished@
    }

    /// The id the next call will get.
    pub closed spec fn next_id_spec(&self) -> nat {
        self.next_id as nat
    }

    /// Whether a live call has tag `t`.
    pub open spec fn has_tag(&self, t: u16) -> bool {
        exists|i: int| 0 <= i < self.live().len() && (#[trigger] self.live()[i]).tag == t
    }

    /// Tags of live calls are distinct and in range; ids are distinct and
    /// below the next one; live calls are not done and finished ones are.
    pub open spec fn wf(&self) -> bool {
        &&& forall|i: int, j: int|
            0 <= i < j < self.live().len() ==> (#[trigger] self.live()[i]).tag != (
            #[trigger] self.live()[j]).tag && self.live()[i].id != self.live()[j].id
        &&& forall|i: int|
            0 <= i < self.live().len() ==> MIN_TAG <= (#[trigger] self.live()[i]).tag <= MAX_TAG
                && self.live()[i].id < self.next_id_spec() && !self.live()[i].sink.is_done()
        &&& forall|i: int, j: int|
            0 <= i < j < self.finished().len() ==> (#[trigger] self.finished()[i]).id != (
            #[trigger] self.finished()[j]).id
        &&& forall|i: int|
            0 <= i < self.finished().len() ==> (#[trigger] self.finished()[i]).id
                < self.next_id_spec() && self.finished()[i].sink.is_done()
        &&& forall|i: int, j: int|
            0 <= i < self.live().len() && 0 <= j < self.finished().len() ==> (
            #[trigger] self.live()[i]).id != (#[trigger] self.finished()[j]).id
    }

    /// An empty table.
    pub fn new() -> (r: Self)
        ensures
            r.wf(),
            r.live().len() == 0,
            r.finished().len() == 0,
    {
        TagTable { live: Vec::new(), finished: Vec::new(), next_id: 0 }
    }

    /// The index of the live call with tag `tag`.
    pub fn find_tag(&self, tag: u16) -> (r: Option<usize>)
        ensures
            match r {
                Some(i) => i < self.live().len() && self.live()[i as int].tag == tag,
                None => !self.has_tag(tag),
            },
    {
        let mut i: usize = 0;
        while i < self.live.len()
            invariant
                i <= self.live@.len(),
                forall|j: int| 0 <= j < i ==> (#[trigger] self.live@[j]).tag != tag,
            decreases self.live@.len() - i,
        {
            if self.live[i].tag == tag {
                return Some(i);
            }
            i = i + 1;
        }
        None
    }

    /// Whether a live call has tag `tag`.
    pub fn contains_tag(&self, tag: u16) -> (r: bool)
        ensures
            r == self.has_tag(tag),
    {
        self.find_tag(tag).is_some()
    }

    /// The first free tag at or after `start`, wrapping round from the
    /// largest tag to the smallest; `None` when every tag is in use.
    pub fn next_tag(&self, start: u16) -> (r: Option<u16>)
        ensures
            match r {
                Some(t) => MIN_TAG <= t <= MAX_TAG && !self.has_tag(t),
                None => forall|t: u16| MIN_TAG <= t <= MAX_TAG ==> self.has_tag(t),
            },
            MIN_TAG <= start <= MAX_TAG && !self.has_tag(start) ==> r == Some(start),
    {
        let first = if MIN_TAG <= start && start <= MAX_TAG {
            start
        } else {
            MIN_TAG
        };
        let mut t = first;
        while t <= MAX_TAG
            invariant
                MIN_TAG <= first <= t <= MAX_TAG + 1,
                MIN_TAG <= start <= MAX_TAG ==> first == start,
                forall|u: u16| first <= u < t ==> self.has_tag(u),
            decreases MAX_TAG + 1 - t,
        {
            if !self.contains_tag(t) {
                return Some(t);
            }
            t = t + 1;
        }
        let mut t = MIN_TAG;
        while t < first
            invariant
                MIN_TAG <= t <= first,
                first <= MAX_TAG,
                MIN_TAG <= start <= MAX_TAG ==> first == start,
                forall|u: u16| first <= u <= MAX_TAG ==> self.has_tag(u),
                forall|u: u16| MIN_TAG <= u < t ==> self.has_tag(u),
            decreases first - t,
        {
            if !self.contains_tag(t) {
                return Some(t);
            }
            t = t + 1;
        }
        None
    }

    /// Registers a new call of kind `kind` under the first free tag at or
    /// after `start`; gives its tag and id.
    pub fn register(&mut self, kind: CallKind, start: u16) -> (r: Result<(u16, u64), Error>)
        requires
            old(self).wf(),
        ensures
            final(self).wf(),
            match r {
                Ok((t, id)) => MIN_TAG <= t <= MAX_TAG && !old(self).has_tag(t) && id == old(self).next_id_spec() && final(self).live().len() == old(self).live().len() + 1
                    && final(self).live().drop_last() == old(self).live() && final(self).live().last().tag
                    == t && final(self).live().last().id == id && is_fresh(
                    final(self).live().last().sink,
                    kind,
                ) && final(self).finished() == old(self).finished() && final(self).next_id_spec()
                    == id + 1,
                Err(e) => e is NoFreeTag && final(self).live() == old(self).live() && final(self).finished() == old(self).finished() && final(self).next_id_spec() == old(self).next_id_spec() && ((forall|t: u16| MIN_TAG <= t <= MAX_TAG ==> old(self).has_tag(t))
                    || old(self).next_id_spec() == u64::MAX),
            },
            MIN_TAG <= start <= MAX_TAG && !old(self).has_tag(start) && old(self).next_id_spec()
                < u64::MAX ==> (r matches Ok((t, _)) && t == start),
    {
        if self.next_id == u64::MAX {
            return Err(Error::NoFreeTag);
        }
        let tag = match self.next_tag(start) {
            Some(t) => t,
            None => {
                return Err(Error::NoFreeTag);
            },
        };
        let id = self.next_id;
        let ghost prev = self.live@;
        self.live.push(LiveCall { tag, id, sink: Sink::new(kind) });
        self.next_id = self.next_id + 1;
        assert(self.live@.drop_last() =~= prev);
        assert forall|i: int, j: int|
            0 <= i < j < self.live().len() implies (#[trigger] self.live()[i]).tag != (
            #[trigger] self.live()[j]).tag && self.live()[i].id != self.live()[j].id by {
            if j == self.live().len() - 1 {
                assert(prev[i] == self.live()[i]);
            }
        }
        Ok((tag, id))
    }

    /// Ends every live call with the session failure `message`; they all
    /// become finished and resolve to `Fatal(message)`.
    pub fn fail_all(&mut self, message: String)
        requires
            old(self).wf(),
        ensures
            final(self).wf(),
            broadcast(*old(self), *final(self), message@),
    {
        let ghost old_live = self.live@;
        let ghost old_fin = self.finished@;
        let ghost n = old_fin.len();
        while self.live.len() > 0
            invariant
                old(self).wf(),
                old_live == old(self).live(),
                old_fin == old(self).finished(),
                n == old_fin.len(),
                self.next_id == old(self).next_id_spec(),
                self.live@.len() <= old_live.len(),
                self.live@ == old_live.skip(old_live.len() - self.live@.len()),
                self.finished@.len() == n + old_live.len() - self.live@.len(),
                self.finished@.subrange(0, n as int) == old_fin,
                forall|i: int|
                    n <= i < self.finished@.len() ==> (#[trigger] self.finished@[i]).id
                        == old_live[i - n].id && old_live[i - n].sink.failed(
                        self.finished@[i].sink,
                        message,
                    ),
            decreases self.live@.len(),
        {
            let ghost k = old_live.len() - self.live@.len();
            let ghost before = self.live@;
            let ghost fin_before = self.finished@;
            let mut e = self.live.remove(0);
            assert(e == old_live[k]);
            assert(self.live@ =~= old_live.skip(k + 1));
            let ghost s0 = e.sink;
            let _ = e.sink.fail(message.clone());
            assert(s0.failed(e.sink, message) && e.sink.is_done());
            self.finished.push(FinishedCall { id: e.id, sink: e.sink });
            assert(self.finished@.subrange(0, n as int) =~= fin_before.subrange(0, n as int));
            assert forall|i: int|
                n <= i < self.finished@.len() implies (#[trigger] self.finished@[i]).id
                    == old_live[i - n].id && old_live[i - n].sink.failed(
                    self.finished@[i].sink,
                    message,
                ) by {
                if i < self.finished@.len() - 1 {
                    assert(self.finished@[i] == fin_before[i]);
                }
            }
        }
        proof {
            let fin = self.finished@;
            assert forall|i: int, j: int| 0 <= i < j < fin.len() implies (#[trigger] fin[i]).id != (
            #[trigger] fin[j]).id by {
                if j < n {
                    assert(fin[i] == fin.subrange(0, n as int)[i]);
                    assert(fin[j] == fin.subrange(0, n as int)[j]);
                } else if i < n {
                    assert(fin[i] == fin.subrange(0, n as int)[i]);
                    assert(fin[j].id == old_live[j - n].id);
                } else {
                    assert(fin[i].id == old_live[i - n].id);
                    assert(fin[j].id == old_live[j - n].id);
                }
            }
            assert forall|i: int| 0 <= i < fin.len() implies (#[trigger] fin[i]).id
                < self.next_id_spec() && fin[i].sink.is_done() by {
                if i < n {
                    assert(fin[i] == fin.subrange(0, n as int)[i]);
                } else {
                    assert(fin[i].id == old_live[i - n].id);
                }
            }
        }
    }

    /// Pushes the decoded sentence `words` into the live call at index `i`.
    fn deliver(&mut self, i: usize, words: &[Vec<u8>]) -> (id: u64)
        requires
            old(self).wf(),
            i < old(self).live().len(),
        ensures
            final(self).wf(),
            id == old(self).live()[i as int].id,
            exists|item: Item|
                delivered_at(*old(self), words_view(words@), *final(self), i as int, item),
    {
        let item = deserialize_sentence(words);
        let ghost it = item;
        let ghost prev = self.live@;
        let mut e = self.live.remove(i);
        let id = e.id;
        let _ = e.sink.push_reply(item);
        self.live.insert(i, e);
        assert(self.live@ =~= prev.update(i as int, self.live@[i as int]));
        assert(forall|j: int| 0 <= j < prev.len() && j != i ==> self.live@[j] == prev[j]);
        assert(decodes_to(words_view(words@), it));
        assert(delivered_at(*old(self), words_view(words@), *self, i as int, it));
        id
    }

    /// Gives the live call at index `i` its terminal event and moves it to
    /// the finished calls.
    fn complete(&mut self, i: usize) -> (id: u64)
        requires
            old(self).wf(),
            i < old(self).live().len(),
        ensures
            final(self).wf(),
            id == old(self).live()[i as int].id,
            completed_at(*old(self), *final(self), i as int),
    {
        let ghost prev = self.live@;
        let ghost prev_fin = self.finished@;
        let mut e = self.live.remove(i);
        let id = e.id;
        let _ = e.sink.done();
        self.finished.push(FinishedCall { id, sink: e.sink });
        assert(self.finished@.drop_last() =~= prev_fin);
        assert forall|a: int, b: int|
            0 <= a < b < self.live().len() implies (#[trigger] self.live()[a]).tag != (
            #[trigger] self.live()[b]).tag && self.live()[a].id != self.live()[b].id by {
            let a0 = if a < i { a } else { a + 1 };
            let b0 = if b < i { b } else { b + 1 };
            assert(self.live()[a] == prev[a0]);
            assert(self.live()[b] == prev[b0]);
        }
        assert forall|a: int| 0 <= a < self.live().len() implies MIN_TAG <= (
        #[trigger] self.live()[a]).tag <= MAX_TAG && self.live()[a].id < self.next_id_spec()
            && !self.live()[a].sink.is_done() by {
            let a0 = if a < i { a } else { a + 1 };
            assert(self.live()[a] == prev[a0]);
        }
        assert forall|a: int, b: int|
            0 <= a < b < self.finished().len() implies (#[trigger] self.finished()[a]).id != (
            #[trigger] self.finished()[b]).id by {
            if b == self.finished().len() - 1 {
                assert(self.finished()[a] == prev_fin[a]);
            }
        }
        assert forall|a: int, b: int|
            0 <= a < self.live().len() && 0 <= b < self.finished().len() implies (
            #[trigger] self.live()[a]).id != (#[trigger] self.finished()[b]).id by {
            let a0 = if a < i { a } else { a + 1 };
            assert(self.live()[a] == prev[a0]);
            if b < prev_fin.len() {
                assert(self.finished()[b] == prev_fin[b]);
            }
        }
        id
    }

    /// Routes one sentence: a reply goes to the live call with its tag, a
    /// `!done` finishes that call, `!fatal` finishes every call, anything
    /// else is dropped.
    pub fn dispatch(&mut self, words: &[Vec<u8>]) -> (r: Action)
        requires
            old(self).wf(),
        ensures
            final(self).wf(),
            dispatched(*old(self), words_view(words@), *final(self), r),
    {
        let ghost ws = words_view(words@);
        match classify(words) {
            Frame::Reply(t) => match self.find_tag(t) {
                None => Action::Discarded,
                Some(i) => Action::Delivered(self.deliver(i, words)),
            },
            Frame::Done(t) => match self.find_tag(t) {
                None => Action::Discarded,
                Some(i) => Action::Completed(self.complete(i)),
            },
            Frame::Fatal => {
                let message = match deserialize_sentence(words) {
                    Ok(Response::Fatal(m)) => m,
                    _ => String::new(),
                };
                self.fail_all(message);
                Action::Fatal
            },
            Frame::Other => Action::Discarded,
        }
    }
}

impl TagTable {
    /// Removes and gives the finished call with id `id`, if there is one.
    pub fn take_finished(&mut self, id: u64) -> (r: Option<Sink>)
        requires
            old(self).wf(),
        ensures
            final(self).wf(),
            final(self).live() == old(self).live(),
            final(self).next_id_spec() == old(self).next_id_spec(),
            match r {
                Some(s) => exists|i: int|
                    0 <= i < old(self).finished().len() && old(self).finished()[i].id == id
                        && s == old(self).finished()[i].sink && final(self).finished() == old(self).finished().remove(i),
                None => final(self).finished() == old(self).finished() && forall|i: int|
                    0 <= i < old(self).finished().len() ==> (#[trigger] old(self).finished()[i]).id != id,
            },
    {
        let mut i: usize = 0;
        while i < self.finished.len()
            invariant
                old(self).wf(),
                i <= self.finished@.len(),
                self.finished@ == old(self).finished(),
                self.live@ == old(self).live(),
                self.next_id == old(self).next_id_spec(),
                forall|j: int| 0 <= j < i ==> (#[trigger] self.finished@[j]).id != id,
            decreases self.finished@.len() - i,
        {
            if self.finished[i].id == id {
                let ghost prev = self.finished@;
                let e = self.finished.remove(i);
                assert forall|a: int, b: int|
                    0 <= a < b < self.finished().len() implies (#[trigger] self.finished()[a]).id
                        != (#[trigger] self.finished()[b]).id by {
                    let a0 = if a < i { a } else { a + 1 };
                    let b0 = if b < i { b } else { b + 1 };
                    assert(self.finished()[a] == prev[a0]);
                    assert(self.finished()[b] == prev[b0]);
                }
                assert forall|a: int| 0 <= a < self.finished().len() implies (
                #[trigger] self.finished()[a]).id < self.next_id_spec()
                    && self.finished()[a].sink.is_done() by {
                    let a0 = if a < i { a } else { a + 1 };
                    assert(self.finished()[a] == prev[a0]);
                }
                assert forall|a: int, b: int|
                    0 <= a < self.live().len() && 0 <= b < self.finished().len() implies (
                    #[trigger] self.live()[a]).id != (#[trigger] self.finished()[b]).id by {
                    let b0 = if b < i { b } else { b + 1 };
                    assert(self.finished()[b] == prev[b0]);
                }
                return Some(e.sink);
            }
            i = i + 1;
        }
        None
    }

    /// Withdraws the live call with tag `tag` (its command could not be
    /// sent), giving its sink; the tag becomes free.
    pub fn withdraw(&mut self, tag: u16) -> (r: Option<Sink>)
        requires
            old(self).wf(),
        ensures
            final(self).wf(),
            final(self).finished() == old(self).finished(),
            final(self).next_id_spec() == old(self).next_id_spec(),
            !final(self).has_tag(tag),
            match r {
                Some(s) => exists|i: int|
                    0 <= i < old(self).live().len() && old(self).live()[i].tag == tag && s
                        == old(self).live()[i].sink && final(self).live() == old(self).live().remove(i),
                None => final(self).live() == old(self).live(),
            },
    {
        match self.find_tag(tag) {
            None => None,
            Some(i) => {
                let ghost prev = self.live@;
                let e = self.live.remove(i);
                assert forall|a: int, b: int|
                    0 <= a < b < self.live().len() implies (#[trigger] self.live()[a]).tag != (
                    #[trigger] self.live()[b]).tag && self.live()[a].id != self.live()[b].id by {
                    let a0 = if a < i { a } else { a + 1 };
                    let b0 = if b < i { b } else { b + 1 };
                    assert(self.live()[a] == prev[a0]);
                    assert(self.live()[b] == prev[b0]);
                }
                assert forall|a: int| 0 <= a < self.live().len() implies MIN_TAG <= (
                #[trigger] self.live()[a]).tag <= MAX_TAG && self.live()[a].id
                    < self.next_id_spec() && !self.live()[a].sink.is_done() by {
                    let a0 = if a < i { a } else { a + 1 };
                    assert(self.live()[a] == prev[a0]);
                }
                assert forall|a: int, b: int|
                    0 <= a < self.live().len() && 0 <= b < self.finished().len() implies (
                    #[trigger] self.live()[a]).id != (#[trigger] self.finished()[b]).id by {
                    let a0 = if a < i { a } else { a + 1 };
                    assert(self.live()[a] == prev[a0]);
                }
                assert(!self.has_tag(tag)) by {
                    if self.has_tag(tag) {
                        let k = choose|k: int|
                            0 <= k < self.live().len() && (#[trigger] self.live()[k]).tag == tag;
                        let k0 = if k < i { k } else { k + 1 };
                        assert(self.live()[k] == prev[k0]);
                    }
                }
                Some(e.sink)
            },
        }
    }

    /// The next item of the streaming call with id `id`, live or finished.
    /// A finished stream that is drained ends and is removed; an id that
    /// names no streaming call has ended.
    pub fn next_stream_item(&mut self, id: u64) -> (r: StreamPoll)
        requires
            old(self).wf(),
        ensures
            final(self).wf(),
            final(self).next_id_spec() == old(self).next_id_spec(),
            polled_live(*old(self), *final(self), id, r) || polled_finished(
                *old(self),
                *final(self),
                id,
                r,
            ) || (r is End && final(self).live() == old(self).live() && final(self).finished()
                == old(self).finished() && !old(self).has_stream(id)),
    {
        let mut i: usize = 0;
        while i < self.live.len()
            invariant
                self.wf(),
                *self == *old(self),
                i <= self.live@.len(),
                forall|k: int| 0 <= k < i ==> (#[trigger] self.live@[k]).id != id,
            decreases self.live@.len() - i,
        {
            if self.live[i].id == id {
                let ghost prev = self.live@;
                let is_stream = match &self.live[i].sink {
                    Sink::Streaming(_) => true,
                    _ => false,
                };
                if !is_stream {
                    return StreamPoll::End;
                }
                let mut e = self.live.remove(i);
                let ghost s0 = e.sink;
                let r = match &mut e.sink {
                    Sink::Streaming(c) => c.next_item(),
                    _ => StreamPoll::End,
                };
                assert(stream_step(s0, e.sink, r));
                self.live.insert(i, e);
                assert(self.live@ =~= prev.update(i as int, self.live@[i as int]));
                assert forall|a: int, b: int|
                    0 <= a < b < self.live().len() implies (#[trigger] self.live()[a]).tag != (
                    #[trigger] self.live()[b]).tag && self.live()[a].id != self.live()[b].id by {
                    assert(a != i ==> self.live()[a] == prev[a]);
                    assert(b != i ==> self.live()[b] == prev[b]);
                }
                assert forall|a: int, b: int|
                    0 <= a < self.live().len() && 0 <= b < self.finished().len() implies (
                    #[trigger] self.live()[a]).id != (#[trigger] self.finished()[b]).id by {
                    assert(a != i ==> self.live()[a] == prev[a]);
                }
                assert(polled_live(*old(self), *self, id, r));
                return r;
            }
            i = i + 1;
        }
        let mut j: usize = 0;
        while j < self.finished.len()
            invariant
                self.wf(),
                *self == *old(self),
                j <= self.finished@.len(),
                forall|k: int| 0 <= k < self.live@.len() ==> (#[trigger] self.live@[k]).id != id,
                forall|k: int| 0 <= k < j ==> (#[trigger] self.finished@[k]).id != id,
            decreases self.finished@.len() - j,
        {
            if self.finished[j].id == id {
                let is_stream = match &self.finished[j].sink {
                    Sink::Streaming(_) => true,
                    _ => false,
                };
                if !is_stream {
                    return StreamPoll::End;
                }
                let ghost prev = self.finished@;
                let mut e = self.finished.remove(j);
                let ghost s0 = e.sink;
                let r = match &mut e.sink {
                    Sink::Streaming(c) => c.next_item(),
                    _ => StreamPoll::End,
                };
                assert(stream_step(s0, e.sink, r));
                let ended = match r {
                    StreamPoll::End => true,
                    _ => false,
                };
                if !ended {
                    self.finished.insert(j, e);
                    assert(self.finished@ =~= prev.update(j as int, self.finished@[j as int]));
                }
                assert forall|a: int, b: int|
                    0 <= a < b < self.finished().len() implies (#[trigger] self.finished()[a]).id
                        != (#[trigger] self.finished()[b]).id by {
                    if ended {
                        let a0 = if a < j { a } else { a + 1 };
                        let b0 = if b < j { b } else { b + 1 };
                        assert(self.finished()[a] == prev[a0]);
                        assert(self.finished()[b] == prev[b0]);
                    } else {
                        assert(a != j ==> self.finished()[a] == prev[a]);
                        assert(b != j ==> self.finished()[b] == prev[b]);
                    }
                }
                assert forall|a: int| 0 <= a < self.finished().len() implies (
                #[trigger] self.finished()[a]).id < self.next_id_spec()
                    && self.finished()[a].sink.is_done() by {
                    if ended {
                        let a0 = if a < j { a } else { a + 1 };
                        assert(self.finished()[a] == prev[a0]);
                    } else {
                        assert(a != j ==> self.finished()[a] == prev[a]);
                    }
                }
                assert forall|a: int, b: int|
                    0 <= a < self.live().len() && 0 <= b < self.finished().len() implies (
                    #[trigger] self.live()[a]).id != (#[trigger] self.finished()[b]).id by {
                    if ended {
                        let b0 = if b < j { b } else { b + 1 };
                        assert(self.finished()[b] == prev[b0]);
                    } else {
                        assert(b != j ==> self.finished()[b] == prev[b]);
                    }
                }
                assert(polled_finished(*old(self), *self, id, r));
                return r;
            }
            j = j + 1;
        }
        StreamPoll::End
    }
}

/// Whether `new` is the streaming sink `old` after handing out `r`: the
/// oldest queued item if there is one; else the end once closed, and
/// nothing yet before.
pub open spec fn stream_step(old: Sink, new: Sink, r: StreamPoll) -> bool {
    match old {
        Sink::Streaming(c) => new matches Sink::Streaming(d) && d.finished == c.finished && if c.queue@.len() > 0 {
            r == StreamPoll::Item(c.queue@[0]) && d.queue@ == c.queue@.skip(1)
        } else {
            d.queue@ == c.queue@ && if c.finished {
                r is End
            } else {
                r is Pending
            }
        },
        _ => false,
    }
}

impl TagTable {
    /// Whether a live or finished streaming call has id `id`.
    pub open spec fn has_stream(&self, id: u64) -> bool {
        (exists|i: int|
            0 <= i < self.live().len() && (#[trigger] self.live()[i]).id == id
                && self.live()[i].sink is Streaming) || (exists|j: int|
            0 <= j < self.finished().len() && (#[trigger] self.finished()[j]).id == id
                && self.finished()[j].sink is Streaming)
    }
}

/// Whether `new` and `r` come from polling the live streaming call `id` of `old`.
pub open spec fn polled_live(old: TagTable, new: TagTable, id: u64, r: StreamPoll) -> bool {
    exists|i: int|
        0 <= i < old.live().len() && old.live()[i].id == id && stream_step(
            old.live()[i].sink,
            new.live()[i].sink,
            r,
        ) && new.live().len() == old.live().len() && new.live()[i].tag == old.live()[i].tag
            && new.live()[i].id == id && (forall|k: int|
            0 <= k < old.live().len() && k != i ==> new.live()[k] == old.live()[k])
            && new.finished() == old.finished()
}

/// Whether `new` and `r` come from polling the finished streaming call `id`
/// of `old`; once it ends it is removed.
pub open spec fn polled_finished(old: TagTable, new: TagTable, id: u64, r: StreamPoll) -> bool {
    exists|j: int|
        0 <= j < old.finished().len() && old.finished()[j].id == id && new.live() == old.live()
            && if r is End {
            old.finished()[j].sink matches Sink::Streaming(c) && c.queue@.len() == 0
                && new.finished() == old.finished().remove(j)
        } else {
            stream_step(old.finished()[j].sink, new.finished()[j].sink, r) && new.finished().len()
                == old.finished().len() && new.finished()[j].id == id && (forall|k: int|
                0 <= k < old.finished().len() && k != j ==> new.finished()[k] == old.finished()[k])
        }
}

/// Tags of calls in flight are pairwise distinct and lie in `1..=65534`.
pub proof fn lemma_live_tags_distinct(t: TagTable)
    requires
        t.wf(),
    ensures
        forall|i: int, j: int|
            0 <= i < j < t.live().len() ==> (#[trigger] t.live()[i]).tag != (
            #[trigger] t.live()[j]).tag,
        forall|i: int| 0 <= i < t.live().len() ==> MIN_TAG <= (#[trigger] t.live()[i]).tag <= MAX_TAG,
{
}

/// A call reaches its terminal event at most once, and it is the last thing
/// it observes: after a `!done` for a tag, a later reply or `!done` for the
/// same tag touches nothing.
pub proof fn lemma_done_at_most_once(
    t0: TagTable,
    ws: Seq<Seq<u8>>,
    t1: TagTable,
    r1: Action,
    later: Seq<Seq<u8>>,
    t2: TagTable,
    r2: Action,
)
    requires
        t0.wf(),
        frame_of(ws) is Done,
        dispatched(t0, ws, t1, r1),
        frame_of(later) == frame_of(ws) || frame_of(later) == Frame::Reply(frame_of(ws)->Done_0),
        dispatched(t1, later, t2, r2),
    ensures
        r2 == Action::Discarded,
        t2.live() == t1.live(),
        t2.finished() == t1.finished(),
{
    let t = frame_of(ws)->Done_0;
    if t0.has_tag(t) {
        let i = choose|i: int|
            0 <= i < t0.live().len() && t0.live()[i].tag == t && r1 == Action::Completed(
                t0.live()[i].id,
            ) && completed_at(t0, t1, i);
        assert(!t1.has_tag(t)) by {
            if t1.has_tag(t) {
                let k = choose|k: int| 0 <= k < t1.live().len() && (#[trigger] t1.live()[k]).tag == t;
                let k0 = if k < i { k } else { k + 1 };
                assert(t1.live()[k] == t0.live()[k0]);
            }
        }
    }
}

/// A one-shot call that receives a reply and then `!done` for its tag ends,
/// finished, holding the decoding of that reply.
pub proof fn lemma_one_shot_reply(
    t0: TagTable,
    i: int,
    ws1: Seq<Seq<u8>>,
    t1: TagTable,
    r1: Action,
    ws2: Seq<Seq<u8>>,
    t2: TagTable,
    r2: Action,
)
    requires
        t0.wf(),
        0 <= i < t0.live().len(),
        is_fresh(t0.live()[i].sink, CallKind::OneShot),
        frame_of(ws1) == Frame::Reply(t0.live()[i].tag),
        frame_of(ws2) == Frame::Done(t0.live()[i].tag),
        dispatched(t0, ws1, t1, r1),
        t1.wf(),
        dispatched(t1, ws2, t2, r2),
    ensures
        r1 == Action::Delivered(t0.live()[i].id),
        r2 == Action::Completed(t0.live()[i].id),
        t2.finished().last().id == t0.live()[i].id,
        t2.finished().last().sink is OneShot,
        t2.finished().last().sink->OneShot_0.finished,
        t2.finished().last().sink->OneShot_0.first is Some,
        decodes_to(ws1, t2.finished().last().sink->OneShot_0.first->Some_0),
{
    let tag = t0.live()[i].tag;
    assert(t0.has_tag(tag));
    let (k, item) = choose|k: int, item: Item|
        0 <= k < t0.live().len() && t0.live()[k].tag == tag && r1 == Action::Delivered(
            t0.live()[k].id,
        ) && delivered_at(t0, ws1, t1, k, item);
    assert(k == i);
    assert(t1.live()[i].tag == tag);
    assert(t1.has_tag(tag));
    let m = choose|m: int|
        0 <= m < t1.live().len() && t1.live()[m].tag == tag && r2 == Action::Completed(
            t1.live()[m].id,
        ) && completed_at(t1, t2, m);
    assert(m == i);
}

/// Replies for one tag go to the call with that tag alone: every other call
/// in flight is left as it was.
pub proof fn lemma_demultiplex(t0: TagTable, ws: Seq<Seq<u8>>, t1: TagTable, r: Action, j: int)
    requires
        t0.wf(),
        frame_of(ws) is Reply,
        dispatched(t0, ws, t1, r),
        0 <= j < t0.live().len(),
        t0.live()[j].tag != frame_of(ws)->Reply_0,
    ensures
        j < t1.live().len(),
        t1.live()[j] == t0.live()[j],
{
}

/// The message of a `!fatal` sentence, or nothing if it has none.
pub open spec fn fatal_message(ws: Seq<Seq<u8>>) -> Seq<char> {
    match sentence_response(ws) {
        Ok(ResponseView::Fatal(m)) => m,
        _ => Seq::empty(),
    }
}

/// Whether `new` is `old` after every live call was ended by the session
/// failure `m`, in order, and became finished: each is done and resolves to
/// `Fatal(m)` (a stream hands out its queued items first).
pub open spec fn broadcast(old: TagTable, new: TagTable, m: Seq<char>) -> bool {
    &&& new.live().len() == 0
    &&& new.next_id_spec() == old.next_id_spec()
    &&& new.finished().len() == old.finished().len() + old.live().len()
    &&& new.finished().subrange(0, old.finished().len() as int) == old.finished()
    &&& forall|i: int|
        old.finished().len() <= i < new.finished().len() ==> (#[trigger] new.finished()[i]).id
            == old.live()[i - old.finished().len()].id && exists|s: String|
            s@ == m && old.live()[i - old.finished().len()].sink.failed(new.finished()[i].sink, s)
}

/// Whether `new` is `old` after the live call at index `i` took `item`, the
/// decoding of `ws`, with every other call left as it was.
pub open spec fn delivered_at(old: TagTable, ws: Seq<Seq<u8>>, new: TagTable, i: int, item: Item) -> bool {
    &&& 0 <= i < old.live().len()
    &&& decodes_to(ws, item)
    &&& new.live().len() == old.live().len()
    &&& forall|j: int| 0 <= j < old.live().len() && j != i ==> new.live()[j] == old.live()[j]
    &&& new.live()[i].tag == old.live()[i].tag
    &&& new.live()[i].id == old.live()[i].id
    &&& old.live()[i].sink.pushed(new.live()[i].sink, item)
    &&& new.finished() == old.finished()
    &&& new.next_id_spec() == old.next_id_spec()
}

/// Whether `new` is `old` after the live call at index `i` received its
/// terminal event and moved, done, to the end of the finished calls.
pub open spec fn completed_at(old: TagTable, new: TagTable, i: int) -> bool {
    &&& 0 <= i < old.live().len()
    &&& new.live() == old.live().remove(i)
    &&& new.finished().len() == old.finished().len() + 1
    &&& new.finished().drop_last() == old.finished()
    &&& new.finished().last().id == old.live()[i].id
    &&& old.live()[i].sink.closed(new.finished().last().sink)
    &&& new.finished().last().sink.is_done()
    &&& new.next_id_spec() == old.next_id_spec()
}

/// Whether `new` and `r` are what routing the sentence `ws` in `old` gives.
pub open spec fn dispatched(old: TagTable, ws: Seq<Seq<u8>>, new: TagTable, r: Action) -> bool {
    match frame_of(ws) {
        Frame::Reply(t) => if old.has_tag(t) {
            exists|i: int, item: Item|
                0 <= i < old.live().len() && old.live()[i].tag == t && r == Action::Delivered(
                    old.live()[i].id,
                ) && delivered_at(old, ws, new, i, item)
        } else {
            r == Action::Discarded && new.live() == old.live() && new.finished() == old.finished()
                && new.next_id_spec() == old.next_id_spec()
        },
        Frame::Done(t) => if old.has_tag(t) {
            exists|i: int|
                0 <= i < old.live().len() && old.live()[i].tag == t && r == Action::Completed(
                    old.live()[i].id,
                ) && completed_at(old, new, i)
        } else {
            r == Action::Discarded && new.live() == old.live() && new.finished() == old.finished()
                && new.next_id_spec() == old.next_id_spec()
        },
        Frame::Fatal => r == Action::Fatal && broadcast(old, new, fatal_message(ws)),
        Frame::Other => r == Action::Discarded && new.live() == old.live() && new.finished()
            == old.finished() && new.next_id_spec() == old.next_id_spec(),
    }
}

} // verus!
