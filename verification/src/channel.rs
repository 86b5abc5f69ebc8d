//! The per-channel demultiplexer.
//!
//! A channel owns one bidirectional stream and routes every incoming
//! frame: raw frames go to the raw queue, responses and correlated
//! errors resolve the pending request with the matching id, and
//! everything else goes to the event queue. `ChannelState` is the
//! correlation authority: it allocates monotonic request ids, tracks the
//! pending requests, and decides where each frame goes. The runtime
//! around it performs the sends, the queue pushes and the waiting.

use vstd::prelude::*;
use vstd::utf8::{decode_utf8, valid_utf8};

use crate::error::NetworkError;
use crate::message::{decode_message, MessageType, MessageView, ProtocolMessage};
use crate::strutil::string_from_utf8;

verus! {

/// A frame received on a channel's stream, classified by its type tag.
pub enum TypedFrame {
    /// A protocol message frame (type tag zero).
    Protocol(ProtocolMessage),
    /// A raw bytes frame (type tag one).
    Raw(Vec<u8>),
}

/// Classifies one received frame by its type tag.
///
/// A protocol frame's payload is decoded as a message; a raw frame's
/// payload is handed through untouched; every other tag is a protocol
/// error, which closes the receiving stream.
pub fn decode_typed_frame(frame_type: u8, payload: Vec<u8>) -> (r: Result<
    TypedFrame,
    NetworkError,
>)
    ensures
        r is Ok <==> (frame_type == 0 && decode_message(payload@) is Some) || frame_type == 1,
        frame_type == 0 && r is Ok ==> r->Ok_0 is Protocol && r->Ok_0->Protocol_0@
            == decode_message(payload@)->0,
        frame_type == 1 ==> r is Ok && r->Ok_0 is Raw && r->Ok_0->Raw_0@ == payload@,
{
    if frame_type == 0 {
        match ProtocolMessage::from_frame(payload.as_slice()) {
            Ok(msg) => Ok(TypedFrame::Protocol(msg)),
            Err(e) => Err(e),
        }
    } else if frame_type == 1 {
        Ok(TypedFrame::Raw(payload))
    } else {
        Err(NetworkError::Protocol(String::from_str("unknown frame type tag")))
    }
}

/// One in-flight request: its id, and whether its waiter is still there.
///
/// A timed-out or dropped request leaves its entry in place with
/// `waiting` false, until the late response arrives and removes it; this
/// keeps a late response from being taken for an answer to anything
/// else.
#[derive(Debug, Clone, Copy, PartialEq, Eq, Structural)]
pub struct PendingEntry {
    pub id: u64,
    pub waiting: bool,
}

/// True when no two entries share an id.
pub open spec fn unique_ids(s: Seq<PendingEntry>) -> bool {
    forall|i: int, j: int| 0 <= i < j < s.len() ==> s[i].id != s[j].id
}

/// True when some entry has the given id.
pub open spec fn contains_id(s: Seq<PendingEntry>, id: u64) -> bool {
    exists|i: int| 0 <= i < s.len() && s[i].id == id
}

/// True when some entry has the given id and a live waiter.
pub open spec fn is_waiting(s: Seq<PendingEntry>, id: u64) -> bool {
    exists|i: int| 0 <= i < s.len() && s[i].id == id && s[i].waiting
}

/// The index of the entry with the given id.
pub open spec fn idx_of(s: Seq<PendingEntry>, id: u64) -> int
    recommends
        contains_id(s, id),
{
    choose|i: int| 0 <= i < s.len() && s[i].id == id
}

/// The ids of the entries whose waiters are still there, in order.
pub open spec fn waiting_ids(s: Seq<PendingEntry>) -> Seq<u64>
    decreases s.len(),
{
    if s.len() == 0 {
        Seq::empty()
    } else {
        let rest = waiting_ids(s.drop_last());
        if s.last().waiting {
            rest.push(s.last().id)
        } else {
            rest
        }
    }
}

/// Where the demultiplexer sends one routed protocol message.
pub ghost enum RouteDecision {
    /// Resolve the pending request with the message.
    Deliver,
    /// The pending request was abandoned: remove it and drop the message
    /// silently.
    DropLate,
    /// A response that matches no pending request: drop it.
    DropUncorrelated,
    /// Queue the message on the event queue.
    Event,
}

/// The routing decision for one protocol message against the pending
/// requests.
///
/// A response resolves the pending request with its id; a response with
/// id zero is a protocol violation and is treated as an event; an
/// uncorrelated response is dropped. An error resolves the pending
/// request with its id when there is one, and is otherwise an event.
/// Requests and events go to the event queue.
pub open spec fn route_decision(pending: Seq<PendingEntry>, m: MessageView) -> RouteDecision {
    match m.msg_type {
        MessageType::Response => {
            if m.id == 0 {
                RouteDecision::Event
            } else if is_waiting(pending, m.id) {
                RouteDecision::Deliver
            } else if contains_id(pending, m.id) {
                RouteDecision::DropLate
            } else {
                RouteDecision::DropUncorrelated
            }
        },
        MessageType::Error => {
            if is_waiting(pending, m.id) {
                RouteDecision::Deliver
            } else if contains_id(pending, m.id) {
                RouteDecision::DropLate
            } else {
                RouteDecision::Event
            }
        },
        _ => RouteDecision::Event,
    }
}

/// The pending requests after one protocol message is routed: the entry
/// under the message's id is removed when the message resolved or
/// retired it, and nothing else changes.
pub open spec fn pending_after_route(pending: Seq<PendingEntry>, m: MessageView) -> Seq<
    PendingEntry,
> {
    match route_decision(pending, m) {
        RouteDecision::Deliver => pending.remove(idx_of(pending, m.id)),
        RouteDecision::DropLate => pending.remove(idx_of(pending, m.id)),
        _ => pending,
    }
}

/// Removing the entry at an index keeps every other entry: ids stay
/// unique, the removed id is gone, and membership and waiting status of
/// every other id are untouched.
pub proof fn lemma_remove_at(s: Seq<PendingEntry>, i: int)
    requires
        unique_ids(s),
        0 <= i < s.len(),
    ensures
        unique_ids(s.remove(i)),
        !contains_id(s.remove(i), s[i].id),
        forall|x: u64|
            x != s[i].id ==> (#[trigger] contains_id(s.remove(i), x) <==> contains_id(s, x)),
        forall|x: u64| x != s[i].id ==> (#[trigger] is_waiting(s.remove(i), x) <==> is_waiting(
            s,
            x,
        )),
        forall|k: int|
            0 <= k < s.remove(i).len() ==> exists|j: int|
                0 <= j < s.len() && #[trigger] s.remove(i)[k] == s[j],
{
    let t = s.remove(i);
    s.remove_ensures(i);
    assert forall|k: int| 0 <= k < t.len() implies exists|j: int|
        0 <= j < s.len() && #[trigger] t[k] == s[j] by {
        if k < i {
            assert(t[k] == s[k]);
        } else {
            assert(t[k] == s[k + 1]);
        }
    }
    assert forall|x: u64| x != s[i].id && contains_id(s, x) implies contains_id(t, x) by {
        let j = choose|j: int| 0 <= j < s.len() && s[j].id == x;
        if j < i {
            assert(t[j] == s[j]);
        } else {
            assert(j > i);
            assert(t[j - 1] == s[j]);
        }
    }
    assert forall|x: u64| x != s[i].id && is_waiting(s, x) implies is_waiting(t, x) by {
        let j = choose|j: int| 0 <= j < s.len() && s[j].id == x && s[j].waiting;
        if j < i {
            assert(t[j] == s[j]);
        } else {
            assert(j > i);
            assert(t[j - 1] == s[j]);
        }
    }
    assert forall|x: u64| contains_id(t, x) implies contains_id(s, x) by {
        let k = choose|k: int| 0 <= k < t.len() && t[k].id == x;
        if k < i {
            assert(t[k] == s[k]);
        } else {
            assert(t[k] == s[k + 1]);
        }
    }
    assert forall|x: u64| is_waiting(t, x) implies is_waiting(s, x) by {
        let k = choose|k: int| 0 <= k < t.len() && t[k].id == x && t[k].waiting;
        if k < i {
            assert(t[k] == s[k]);
        } else {
            assert(t[k] == s[k + 1]);
        }
    }
    assert forall|k1: int, k2: int| 0 <= k1 < k2 < t.len() implies t[k1].id != t[k2].id by {
        if k2 < i {
        } else if k1 < i {
            assert(t[k1] == s[k1]);
            assert(t[k2] == s[k2 + 1]);
        } else {
            assert(t[k1] == s[k1 + 1]);
            assert(t[k2] == s[k2 + 1]);
        }
    }
    if contains_id(t, s[i].id) {
        let k = choose|k: int| 0 <= k < t.len() && t[k].id == s[i].id;
        if k < i {
            assert(t[k] == s[k]);
        } else {
            assert(t[k] == s[k + 1]);
        }
        assert(false);
    }
}

/// The demultiplexer state of one channel.
///
/// It records the pending requests, the monotonic id counter and the
/// closed flag, together with the ghost record of every id ever issued.
pub struct ChannelState {
    /// In-flight requests, in issue order.
    pub pending: Vec<PendingEntry>,
    /// The id the next request will take.
    pub next_id: u64,
    /// True once the channel is closed; later requests fail immediately.
    pub closed: bool,
    /// Every request id this channel ever issued, in issue order.
    pub issued: Ghost<Seq<u64>>,
}

impl ChannelState {
    /// Well-formedness: pending ids are unique, nonzero, below the
    /// counter and were issued; issued ids are strictly increasing,
    /// nonzero and below the counter.
    pub open spec fn wf(&self) -> bool {
        &&& unique_ids(self.pending@)
        &&& forall|i: int|
            0 <= i < self.pending@.len() ==> 1 <= (#[trigger] self.pending@[i]).id < self.next_id
        &&& forall|i: int|
            0 <= i < self.pending@.len() ==> self.issued@.contains(
                (#[trigger] self.pending@[i]).id,
            )
        &&& forall|i: int, j: int|
            0 <= i < j < self.issued@.len() ==> self.issued@[i] < self.issued@[j]
        &&& forall|i: int| 0 <= i < self.issued@.len() ==> 1 <= #[trigger] self.issued@[i]
            < self.next_id
        &&& self.next_id >= 1
    }

    /// A fresh channel: no pending requests, ids start at one.
    pub fn new() -> (s: ChannelState)
        ensures
            s.wf(),
            s.pending@ =~= Seq::<PendingEntry>::empty(),
            s.next_id == 1,
            !s.closed,
            s.issued@ =~= Seq::<u64>::empty(),
    {
        ChannelState { pending: Vec::new(), next_id: 1, closed: false, issued: Ghost(Seq::empty()) }
    }

    /// Allocates a fresh request id and installs its pending entry.
    ///
    /// Fails immediately on a closed channel, and when the id space is
    /// exhausted. The id issued is the counter value: it is distinct
    /// from, and larger than, every id this channel issued before.
    pub fn begin_request(&mut self) -> (r: Result<u64, NetworkError>)
        requires
            old(self).wf(),
        ensures
            final(self).wf(),
            r is Ok <==> !old(self).closed && old(self).next_id < u64::MAX,
            r is Err ==> *final(self) == *old(self),
            old(self).closed ==> r is Err && r->Err_0 is NotConnected,
            r is Ok ==> {
                &&& r->Ok_0 == old(self).next_id
                &&& !contains_id(old(self).pending@, r->Ok_0)
                &&& final(self).next_id == old(self).next_id + 1
                &&& final(self).pending@ == old(self).pending@.push(
                    PendingEntry { id: r->Ok_0, waiting: true },
                )
                &&& final(self).issued@ == old(self).issued@.push(r->Ok_0)
                &&& final(self).closed == old(self).closed
            },
    {
        if self.closed {
            return Err(NetworkError::NotConnected);
        }
        if self.next_id == u64::MAX {
            return Err(NetworkError::Protocol(String::from_str("request id space exhausted")));
        }
        let id = self.next_id;
        self.next_id = self.next_id + 1;
        self.pending.push(PendingEntry { id, waiting: true });
        proof {
            self.issued@ = self.issued@.push(id);
            if contains_id(old(self).pending@, id) {
                let i = choose|i: int|
                    0 <= i < old(self).pending@.len() && old(self).pending@[i].id == id;
                assert(old(self).pending@[i].id < id);
                assert(false);
            }
            assert forall|i: int, j: int|
                0 <= i < j < self.pending@.len() implies self.pending@[i].id
                != self.pending@[j].id by {
                if j == self.pending@.len() - 1 {
                    assert(self.pending@[i].id < id);
                }
            }
            assert forall|i: int|
                0 <= i < self.pending@.len() implies self.issued@.contains(
                (#[trigger] self.pending@[i]).id,
            ) by {
                if i < self.pending@.len() - 1 {
                    let j = choose|j: int|
                        0 <= j < old(self).issued@.len() && old(self).issued@[j]
                            == old(self).pending@[i].id;
                    assert(self.issued@[j] == self.pending@[i].id);
                } else {
                    assert(self.issued@[self.issued@.len() - 1] == id);
                }
            }
        }
        Ok(id)
    }

    /// Finds the position of the pending entry with the given id.
    fn find_pending(&self, id: u64) -> (r: Option<usize>)
        requires
            self.wf(),
        ensures
            r is Some <==> contains_id(self.pending@, id),
            r is Some ==> 0 <= r->0 < self.pending@.len() && self.pending@[r->0 as int].id == id
                && r->0 as int == idx_of(self.pending@, id),
    {
        let n = self.pending.len();
        let mut k: usize = 0;
        while k < n
            invariant
                self.wf(),
                n == self.pending@.len(),
                0 <= k <= n,
                forall|i: int| 0 <= i < k ==> (#[trigger] self.pending@[i]).id != id,
            decreases n - k,
        {
            if self.pending[k].id == id {
                proof {
                    let j = idx_of(self.pending@, id);
                    assert(0 <= j < self.pending@.len() && self.pending@[j].id == id);
                    assert(j == k as int);
                }
                return Some(k);
            }
            k = k + 1;
        }
        proof {
            if contains_id(self.pending@, id) {
                let i = choose|i: int|
                    0 <= i < self.pending@.len() && self.pending@[i].id == id;
                assert(self.pending@[i].id != id);
            }
        }
        None
    }

    /// Routes one received frame.
    ///
    /// A raw frame goes to the raw queue. A protocol message follows
    /// [`route_decision`]: delivery and late drop remove the pending
    /// entry under the message's id; nothing else changes. The message
    /// handed back in the action is the received one, so a delivered
    /// response resolves exactly the request whose id the peer answered.
    pub fn route_frame(&mut self, frame: TypedFrame) -> (r: RouteAction)
        requires
            old(self).wf(),
        ensures
            final(self).wf(),
            final(self).next_id == old(self).next_id,
            final(self).closed == old(self).closed,
            final(self).issued@ == old(self).issued@,
            frame is Raw ==> *final(self) == *old(self) && r is PushRaw && r->PushRaw_0@
                == frame->Raw_0@,
            frame is Protocol ==> {
                let m = frame->Protocol_0@;
                &&& final(self).pending@ == pending_after_route(old(self).pending@, m)
                &&& (r is DeliverResponse <==> route_decision(old(self).pending@, m)
                    is Deliver)
                &&& (r is DropLate <==> route_decision(old(self).pending@, m) is DropLate)
                &&& (r is DropUncorrelated <==> route_decision(old(self).pending@, m)
                    is DropUncorrelated)
                &&& (r is PushEvent <==> route_decision(old(self).pending@, m) is Event)
                &&& (r is DeliverResponse ==> r->DeliverResponse_0@ == m)
                &&& (r is DropLate ==> r->DropLate_0@ == m)
                &&& (r is DropUncorrelated ==> r->DropUncorrelated_0@ == m)
                &&& (r is PushEvent ==> r->PushEvent_0@ == m)
            },
    {
        match frame {
            TypedFrame::Raw(data) => RouteAction::PushRaw(data),
            TypedFrame::Protocol(msg) => {
                let is_response = matches!(msg.msg_type, MessageType::Response);
                let is_error = matches!(msg.msg_type, MessageType::Error);
                if is_response || is_error {
                    if is_response && msg.id == 0 {
                        return RouteAction::PushEvent(msg);
                    }
                    match self.find_pending(msg.id) {
                        Some(k) => {
                            let entry = self.pending.remove(k);
                            proof {
                                let o = old(self).pending@;
                                if entry.waiting {
                                    assert(is_waiting(o, msg.id));
                                } else if is_waiting(o, msg.id) {
                                    let j = choose|j: int|
                                        0 <= j < o.len() && o[j].id == msg.id && o[j].waiting;
                                    assert(j == k as int);
                                    assert(false);
                                }
                                lemma_remove_at(old(self).pending@, k as int);
                                assert forall|i: int|
                                    0 <= i < self.pending@.len() implies 1 <= (
                                #[trigger] self.pending@[i]).id < self.next_id
                                    && self.issued@.contains(self.pending@[i].id) by {
                                    let j = choose|j: int|
                                        0 <= j < old(self).pending@.len() && self.pending@[i]
                                            == old(self).pending@[j];
                                }
                            }
                            if entry.waiting {
                                RouteAction::DeliverResponse(msg)
                            } else {
                                RouteAction::DropLate(msg)
                            }
                        },
                        None => {
                            if is_response {
                                RouteAction::DropUncorrelated(msg)
                            } else {
                                RouteAction::PushEvent(msg)
                            }
                        },
                    }
                } else {
                    RouteAction::PushEvent(msg)
                }
            },
        }
    }

    /// Retires the pending entry for a request whose caller stopped
    /// waiting (timeout or drop).
    ///
    /// The entry stays in the table without a waiter, so the late
    /// response is recognized and discarded rather than queued; every
    /// other pending request is untouched.
    pub fn abandon_request(&mut self, id: u64)
        requires
            old(self).wf(),
        ensures
            final(self).wf(),
            final(self).next_id == old(self).next_id,
            final(self).closed == old(self).closed,
            final(self).issued@ == old(self).issued@,
            forall|x: u64|
                #[trigger] contains_id(final(self).pending@, x) <==> contains_id(
                    old(self).pending@,
                    x,
                ),
            forall|x: u64|
                x != id ==> (#[trigger] is_waiting(final(self).pending@, x) <==> is_waiting(
                    old(self).pending@,
                    x,
                )),
            !is_waiting(final(self).pending@, id),
    {
        match self.find_pending(id) {
            Some(k) => {
                let mut entry = self.pending.remove(k);
                entry.waiting = false;
                self.pending.insert(k, entry);
                proof {
                    let o = old(self).pending@;
                    let t = self.pending@;
                    assert(t =~= o.update(k as int, PendingEntry { id, waiting: false }));
                    assert forall|k1: int, k2: int|
                        0 <= k1 < k2 < t.len() implies t[k1].id != t[k2].id by {
                        assert(o[k1].id != o[k2].id);
                    }
                    assert forall|x: u64| #[trigger]
                        contains_id(t, x) implies contains_id(o, x) by {
                        let j = choose|j: int| 0 <= j < t.len() && t[j].id == x;
                        assert(o[j].id == x);
                    }
                    assert forall|x: u64| #[trigger]
                        contains_id(o, x) implies contains_id(t, x) by {
                        let j = choose|j: int| 0 <= j < o.len() && o[j].id == x;
                        assert(t[j].id == x);
                    }
                    assert forall|x: u64|
                        x != id && #[trigger] is_waiting(t, x) implies is_waiting(o, x) by {
                        let j = choose|j: int| 0 <= j < t.len() && t[j].id == x && t[j].waiting;
                        assert(o[j] == t[j]);
                    }
                    assert forall|x: u64|
                        x != id && #[trigger] is_waiting(o, x) implies is_waiting(t, x) by {
                        let j = choose|j: int| 0 <= j < o.len() && o[j].id == x && o[j].waiting;
                        assert(j != k as int);
                        assert(t[j] == o[j]);
                    }
                    if is_waiting(t, id) {
                        let j = choose|j: int| 0 <= j < t.len() && t[j].id == id && t[j].waiting;
                        assert(j != k as int ==> o[j] == t[j]);
                        assert(o[j].id == id);
                        assert(j == k as int);
                        assert(false);
                    }
                    assert forall|i: int|
                        0 <= i < t.len() implies 1 <= (#[trigger] t[i]).id < self.next_id
                        && self.issued@.contains(t[i].id) by {
                        assert(t[i].id == o[i].id);
                    }
                }
            },
            None => {
                proof {
                    if is_waiting(self.pending@, id) {
                        let j = choose|j: int|
                            0 <= j < self.pending@.len() && self.pending@[j].id == id
                                && self.pending@[j].waiting;
                        assert(contains_id(self.pending@, id));
                    }
                }
            },
        }
    }

    /// Fails every request whose waiter is still there and empties the
    /// pending table; the receive loop calls this when the stream dies.
    ///
    /// The ids handed back are exactly the waiting ones, in issue order;
    /// the runtime resolves each waiter with a connection-closed error.
    pub fn fail_all_pending(&mut self) -> (r: Vec<u64>)
        requires
            old(self).wf(),
        ensures
            final(self).wf(),
            final(self).next_id == old(self).next_id,
            final(self).closed == old(self).closed,
            final(self).issued@ == old(self).issued@,
            final(self).pending@ =~= Seq::<PendingEntry>::empty(),
            r@ == waiting_ids(old(self).pending@),
    {
        let n = self.pending.len();
        let mut r: Vec<u64> = Vec::new();
        let mut k: usize = 0;
        while k < n
            invariant
                n == self.pending@.len(),
                0 <= k <= n,
                r@ =~= waiting_ids(self.pending@.take(k as int)),
            decreases n - k,
        {
            let entry = self.pending[k];
            proof {
                assert(self.pending@.take(k as int + 1).drop_last() =~= self.pending@.take(
                    k as int,
                ));
                assert(self.pending@.take(k as int + 1).last() == entry);
            }
            if entry.waiting {
                r.push(entry.id);
            }
            k = k + 1;
        }
        proof {
            assert(self.pending@.take(n as int) =~= self.pending@);
        }
        self.pending.clear();
        r
    }

    /// Closes the channel: later requests fail immediately, and every
    /// waiting request is handed back to be resolved with a
    /// connection-closed error. Closing twice is harmless.
    pub fn close(&mut self) -> (r: Vec<u64>)
        requires
            old(self).wf(),
        ensures
            final(self).wf(),
            final(self).closed,
            final(self).next_id == old(self).next_id,
            final(self).issued@ == old(self).issued@,
            final(self).pending@ =~= Seq::<PendingEntry>::empty(),
            r@ == waiting_ids(old(self).pending@),
    {
        self.closed = true;
        self.fail_all_pending()
    }
}

/// What the receive loop does with one routed frame.
pub enum RouteAction {
    /// Resolve the pending request with this message.
    DeliverResponse(ProtocolMessage),
    /// The matching request was abandoned: the message is dropped.
    DropLate(ProtocolMessage),
    /// A response that matches no pending request: the message is
    /// dropped.
    DropUncorrelated(ProtocolMessage),
    /// Queue the message on the event queue.
    PushEvent(ProtocolMessage),
    /// Queue the bytes on the raw queue.
    PushRaw(Vec<u8>),
}

/// Interprets the message that resolved a request.
///
/// A response yields its payload; an error yields a protocol error
/// whose text carries the error's decoded payload, so nothing the peer
/// said is swallowed.
pub fn interpret_response(msg: ProtocolMessage) -> (r: Result<Vec<u8>, NetworkError>)
    ensures
        !(msg@.msg_type is Error) ==> r is Ok && r->Ok_0@ == msg@.payload,
        msg@.msg_type is Error ==> r is Err && r->Err_0 is Protocol,
        msg@.msg_type is Error && valid_utf8(msg@.payload) ==> r->Err_0->Protocol_0@
            == "request error: "@ + decode_utf8(msg@.payload),
        msg@.msg_type is Error && !valid_utf8(msg@.payload) ==> r->Err_0->Protocol_0@
            == "request error: payload is not utf-8"@,
{
    match msg.msg_type {
        MessageType::Error => {
            match string_from_utf8(msg.payload) {
                Some(text) => {
                    let r = Err(
                        NetworkError::Protocol(
                            String::from_str("request error: ").concat(text.as_str()),
                        ),
                    );
                    proof {
                        broadcast use vstd::utf8::encode_utf8_decode_utf8;

                    }
                    r
                },
                None => Err(
                    NetworkError::Protocol(String::from_str("request error: payload is not utf-8")),
                ),
            }
        },
        _ => Ok(msg.payload),
    }
}

/// Law: request ids on one channel are pairwise distinct and strictly
/// increasing — in any sequence of requests, no id repeats.
pub proof fn lemma_issued_ids_monotonic(s: &ChannelState, i: int, j: int)
    requires
        s.wf(),
        0 <= i < j < s.issued@.len(),
    ensures
        s.issued@[i] < s.issued@[j],
        s.issued@[i] != s.issued@[j],
{
}

/// Law: a response is delivered at most once. Once a response resolves
/// the request with its id, a second message with the same id matches no
/// pending request: a repeated response is dropped uncorrelated, and a
/// repeated error becomes an event. Every caller therefore receives
/// exactly the response whose id the peer paired with its request,
/// whatever the response order.
pub proof fn lemma_correlation_at_most_once(
    pending: Seq<PendingEntry>,
    m1: MessageView,
    m2: MessageView,
)
    requires
        unique_ids(pending),
        m1.id != 0,
        route_decision(pending, m1) is Deliver,
        m2.id == m1.id,
        m2.msg_type is Response || m2.msg_type is Error,
    ensures
        !contains_id(pending_after_route(pending, m1), m1.id),
        !(route_decision(pending_after_route(pending, m1), m2) is Deliver),
        m2.msg_type is Response ==> route_decision(pending_after_route(pending, m1), m2)
            is DropUncorrelated,
        m2.msg_type is Error ==> route_decision(pending_after_route(pending, m1), m2) is Event,
{
    let i = idx_of(pending, m1.id);
    assert(0 <= i < pending.len() && pending[i].id == m1.id);
    lemma_remove_at(pending, i);
    let t = pending_after_route(pending, m1);
    assert(!contains_id(t, m1.id));
    if is_waiting(t, m2.id) {
        let j = choose|j: int| 0 <= j < t.len() && t[j].id == m2.id && t[j].waiting;
        assert(contains_id(t, m2.id));
        assert(false);
    }
}

/// Law: dropping a request after it was sent is safe. Once the caller
/// abandons the id, its entry has no waiter; the late response with that
/// id is silently discarded and removes the entry, after which the table
/// holds nothing for the id. A later request never reuses it, because
/// ids are issued in strictly increasing order.
pub proof fn lemma_cancellation_safety(pending: Seq<PendingEntry>, m: MessageView)
    requires
        unique_ids(pending),
        m.msg_type is Response,
        m.id != 0,
        contains_id(pending, m.id),
        !is_waiting(pending, m.id),
    ensures
        route_decision(pending, m) is DropLate,
        !contains_id(pending_after_route(pending, m), m.id),
{
    let i = idx_of(pending, m.id);
    assert(0 <= i < pending.len() && pending[i].id == m.id);
    lemma_remove_at(pending, i);
}

/// Law: a timeout is local to one request; the channel stays usable.
/// After a request's caller stops waiting, the late answer is silently
/// discarded and retires the entry; a later request — whose id is fresh,
/// because [`ChannelState::begin_request`] issues ids above every id
/// issued before (while the 64-bit id space lasts) — installs a live
/// entry, and the answer carrying that fresh id is delivered to it.
pub proof fn lemma_usable_after_timeout(
    pending: Seq<PendingEntry>,
    late: MessageView,
    fresh_id: u64,
    answer: MessageView,
)
    requires
        unique_ids(pending),
        late.msg_type is Response,
        late.id != 0,
        contains_id(pending, late.id),
        !is_waiting(pending, late.id),
        !contains_id(pending, fresh_id),
        fresh_id != 0,
        answer.msg_type is Response,
        answer.id == fresh_id,
    ensures
        route_decision(pending, late) is DropLate,
        !contains_id(pending_after_route(pending, late), late.id),
        route_decision(
            pending_after_route(pending, late).push(PendingEntry { id: fresh_id, waiting: true }),
            answer,
        ) is Deliver,
{
    lemma_cancellation_safety(pending, late);
    let after_drop = pending_after_route(pending, late);
    let with_fresh = after_drop.push(PendingEntry { id: fresh_id, waiting: true });
    assert(with_fresh[with_fresh.len() - 1].id == fresh_id && with_fresh[with_fresh.len() - 1].waiting);
    assert(is_waiting(with_fresh, fresh_id));
}

} // verus!
