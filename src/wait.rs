use vstd::prelude::*;
use vstd::string::StringExecFns;

use crate::message::{Message, MessageId};
use crate::text::{push_signed_decimal, signed_decimal};

verus! {

/// The error a pending request's callback gets when no reply came in time.
#[derive(Debug, PartialEq, Eq, Structural)]
pub struct ResponseTimeoutError {
    pub message_id: MessageId,
}

impl ResponseTimeoutError {
    pub fn new(message_id: MessageId) -> (r: ResponseTimeoutError)
        ensures
            r.message_id == message_id,
    {
        ResponseTimeoutError { message_id }
    }

    /// The text `response timeout for <message id>`.
    pub fn description(&self) -> (r: String)
        ensures
            r@ == "response timeout for "@ + signed_decimal(self.message_id as int),
    {
        let mut text = String::from_str("response timeout for ");
        push_signed_decimal(&mut text, self.message_id);
        text
    }
}

/// Why a pending request ends without a reply.
#[derive(Debug)]
pub enum ResponseError {
    /// No reply came before the request expired.
    Timeout(ResponseTimeoutError),
    /// The request could not be sent, or failed otherwise.
    Failed(String),
}

/// What a pending request's callback receives: the reply, or why none came.
pub type Response = Result<Message, ResponseError>;

/// The response that tells a callback its request `message_id` timed out.
pub fn timeout_response(message_id: MessageId) -> (r: Response)
    ensures
        r matches Err(ResponseError::Timeout(e)) && e.message_id == message_id,
{
    Err(ResponseError::Timeout(ResponseTimeoutError::new(message_id)))
}

/// Time elapsed from `since` to `now`, in milliseconds; zero when the clock
/// reads earlier than `since`.
pub open spec fn elapsed(now: u64, since: u64) -> nat {
    if now >= since {
        (now - since) as nat
    } else {
        0
    }
}

/// A callback waiting for a reply, with the time it was registered at, in
/// milliseconds.
pub struct TimedCallback<C> {
    pub callback: C,
    pub creation_time: u64,
}

/// Whether a callback registered at `creation_time` has waited longer than
/// `expiry_after` at time `now`.
pub open spec fn is_expired(creation_time: u64, now: u64, expiry_after: u64) -> bool {
    elapsed(now, creation_time) > expiry_after
}

impl<C> TimedCallback<C> {
    pub fn new(callback: C, creation_time: u64) -> (r: TimedCallback<C>)
        ensures
            r.callback == callback,
            r.creation_time == creation_time,
    {
        TimedCallback { callback, creation_time }
    }

    /// Whether, at time `now`, the callback has waited longer than
    /// `expiry_after`.
    pub fn has_expired(&self, now: u64, expiry_after: u64) -> (r: bool)
        ensures
            r == is_expired(self.creation_time, now, expiry_after),
    {
        let elapsed = if now >= self.creation_time {
            now - self.creation_time
        } else {
            0
        };
        elapsed > expiry_after
    }

    /// The callback.
    pub fn get_callback(&self) -> (r: &C)
        ensures
            *r == self.callback,
    {
        &self.callback
    }
}

/// How long a request waits for its reply, and how often the expired ones
/// are swept, both in milliseconds.
#[derive(Clone, Copy, Debug)]
pub struct WaitingListOptions {
    pub expire_pending_responses_after: u64,
    pub run_expired_pending_responses_checker_every: u64,
}

impl WaitingListOptions {
    pub fn new(
        expire_pending_responses_after: u64,
        run_expired_pending_responses_checker_every: u64,
    ) -> (r: WaitingListOptions)
        ensures
            r.expire_pending_responses_after == expire_pending_responses_after,
            r.run_expired_pending_responses_checker_every
                == run_expired_pending_responses_checker_every,
    {
        WaitingListOptions {
            expire_pending_responses_after,
            run_expired_pending_responses_checker_every,
        }
    }
}

/// The requests that wait for a reply: message identifier to callback.
/// Each one leaves exactly once, by its reply or by expiry, and the list
/// hands its callback out when it leaves.
pub struct WaitingList<C> {
    pending_responses: Vec<(MessageId, TimedCallback<C>)>,
    options: WaitingListOptions,
    should_stop: bool,
    pending: Ghost<Map<MessageId, TimedCallback<C>>>,
}

impl<C> View for WaitingList<C> {
    type V = Map<MessageId, TimedCallback<C>>;

    closed spec fn view(&self) -> Map<MessageId, TimedCallback<C>> {
        self.pending@
    }
}

impl<C> WaitingList<C> {
    /// The list's invariant: each identifier once, and the map is exactly
    /// what the entries hold.
    pub closed spec fn wf(&self) -> bool {
        let e = self.pending_responses@;
        &&& forall|i: int, j: int| 0 <= i < e.len() && 0 <= j < e.len() && i != j ==> e[i].0 != e[j].0
        &&& forall|i: int|
            0 <= i < e.len() ==> #[trigger] self.pending@.contains_key(e[i].0) && self.pending@[e[i].0]
                == e[i].1
        &&& forall|k: MessageId| #[trigger]
            self.pending@.contains_key(k) ==> exists|i: int| 0 <= i < e.len() && e[i].0 == k
    }

    /// The options the list was made with.
    pub closed spec fn options(&self) -> WaitingListOptions {
        self.options
    }

    /// Whether the sweeper was told to stop.
    pub closed spec fn stopped(&self) -> bool {
        self.should_stop
    }

    /// An empty list.
    pub fn new(waiting_list_options: WaitingListOptions) -> (r: WaitingList<C>)
        ensures
            r.wf(),
            r@ == Map::<MessageId, TimedCallback<C>>::empty(),
            r.options() == waiting_list_options,
            !r.stopped(),
    {
        WaitingList {
            pending_responses: Vec::new(),
            options: waiting_list_options,
            should_stop: false,
            pending: Ghost(Map::empty()),
        }
    }

    /// The options the list was made with.
    pub fn waiting_list_options(&self) -> (r: WaitingListOptions)
        ensures
            r == self.options(),
    {
        self.options
    }

    fn position_of(&self, message_id: MessageId) -> (r: Option<usize>)
        requires
            self.wf(),
        ensures
            match r {
                Some(i) => i < self.pending_responses@.len() && self.pending_responses@[i as int].0
                    == message_id,
                None => !self@.contains_key(message_id),
            },
    {
        let mut i: usize = 0;
        while i < self.pending_responses.len()
            invariant
                self.wf(),
                i <= self.pending_responses@.len(),
                forall|k: int| 0 <= k < i ==> self.pending_responses@[k].0 != message_id,
            decreases self.pending_responses@.len() - i,
        {
            if self.pending_responses[i].0 == message_id {
                return Some(i);
            }
            i += 1;
        }
        None
    }

    /// Whether a request with this identifier waits.
    pub fn contains(&self, message_id: &MessageId) -> (r: bool)
        requires
            self.wf(),
        ensures
            r == self@.contains_key(*message_id),
    {
        match self.position_of(*message_id) {
            Some(i) => {
                proof {
                    assert(self.pending@.contains_key(self.pending_responses@[i as int].0));
                }
                true
            },
            None => false,
        }
    }

    /// Takes the entry at `i` out, keeping the invariant.
    fn take_at(&mut self, i: usize) -> (r: (MessageId, TimedCallback<C>))
        requires
            old(self).wf(),
            i < old(self).pending_responses@.len(),
        ensures
            final(self).wf(),
            r == old(self).pending_responses@[i as int],
            final(self).pending_responses@ == old(self).pending_responses@.remove(i as int),
            old(self)@.contains_key(r.0),
            old(self)@[r.0] == r.1,
            final(self)@ == old(self)@.remove(r.0),
            final(self).options() == old(self).options(),
            final(self).stopped() == old(self).stopped(),
    {
        let ghost old_e = self.pending_responses@;
        proof {
            assert(self.pending@.contains_key(old_e[i as int].0));
        }
        let entry = self.pending_responses.remove(i);
        self.pending = Ghost(self.pending@.remove(entry.0));
        proof {
            let e = self.pending_responses@;
            assert forall|a: int, b: int| 0 <= a < e.len() && 0 <= b < e.len() && a != b implies e[a].0 != e[b].0 by {
                let oa = if a < i { a } else { a + 1 };
                let ob = if b < i { b } else { b + 1 };
                assert(e[a] == old_e[oa]);
                assert(e[b] == old_e[ob]);
            }
            assert forall|a: int| 0 <= a < e.len() implies #[trigger] self.pending@.contains_key(e[a].0) && self.pending@[e[a].0] == e[a].1 by {
                let oa = if a < i { a } else { a + 1 };
                assert(e[a] == old_e[oa]);
                assert(old(self).pending@.contains_key(old_e[oa].0));
                assert(old_e[oa].0 != old_e[i as int].0);
            }
            assert forall|k: MessageId| #[trigger] self.pending@.contains_key(k) implies exists|j: int| 0 <= j < e.len() && e[j].0 == k by {
                assert(old(self).pending@.contains_key(k));
                let j = choose|j: int| 0 <= j < old_e.len() && old_e[j].0 == k;
                assert(j != i);
                if j < i {
                    assert(e[j] == old_e[j]);
                } else {
                    assert(e[j - 1] == old_e[j]);
                }
            }
        }
        entry
    }

    /// Registers `callback` for the request `message_id` at time `now`. An
    /// entry already there for that identifier is replaced, and its
    /// callback handed back so that it can be told.
    pub fn add(&mut self, message_id: MessageId, callback: C, now: u64) -> (r: Option<C>)
        requires
            old(self).wf(),
        ensures
            final(self).wf(),
            final(self)@ == old(self)@.insert(message_id, TimedCallback { callback, creation_time: now }),
            r == (if old(self)@.contains_key(message_id) {
                Some(old(self)@[message_id].callback)
            } else {
                None
            }),
            final(self).options() == old(self).options(),
            final(self).stopped() == old(self).stopped(),
    {
        let displaced = match self.position_of(message_id) {
            Some(i) => {
                let (_, timed) = self.take_at(i);
                Some(timed.callback)
            },
            None => None,
        };
        let ghost before = self.pending_responses@;
        let ghost mid = self.pending@;
        let timed = TimedCallback::new(callback, now);
        self.pending_responses.push((message_id, timed));
        self.pending = Ghost(self.pending@.insert(message_id, TimedCallback { callback, creation_time: now }));
        proof {
            let e = self.pending_responses@;
            let n = before.len();
            assert(!mid.contains_key(message_id));
            assert forall|a: int| 0 <= a < n implies e[a].0 != message_id by {
                assert(mid.contains_key(before[a].0));
            }
            assert forall|k: MessageId| #[trigger] self.pending@.contains_key(k) implies exists|j: int| 0 <= j < e.len() && e[j].0 == k by {
                if k != message_id {
                    assert(mid.contains_key(k));
                    let j = choose|j: int| 0 <= j < n && before[j].0 == k;
                    assert(e[j] == before[j]);
                } else {
                    assert(e[n as int].0 == k);
                }
            }
            assert(self.pending@ =~= old(self)@.insert(message_id, TimedCallback { callback, creation_time: now }));
        }
        displaced
    }

    /// Takes the request `message_id` out and hands back its callback, to
    /// be given the response; nothing when no such request waits (its reply
    /// came after it expired).
    pub fn handle_response(&mut self, message_id: MessageId) -> (r: Option<C>)
        requires
            old(self).wf(),
        ensures
            final(self).wf(),
            final(self)@ == old(self)@.remove(message_id),
            r == (if old(self)@.contains_key(message_id) {
                Some(old(self)@[message_id].callback)
            } else {
                None
            }),
            final(self).options() == old(self).options(),
            final(self).stopped() == old(self).stopped(),
    {
        match self.position_of(message_id) {
            Some(i) => {
                let (_, timed) = self.take_at(i);
                Some(timed.callback)
            },
            None => {
                proof {
                    assert(self.pending@.remove(message_id) =~= self.pending@);
                }
                None
            },
        }
    }

    /// Takes out every request that, at time `now`, has waited longer than
    /// the list's expiry, and hands back each callback with the timeout
    /// error that carries its message identifier.
    pub fn clean(&mut self, now: u64) -> (r: Vec<(C, ResponseTimeoutError)>)
        requires
            old(self).wf(),
        ensures
            final(self).wf(),
            final(self)@ == swept(old(self)@, now, old(self).options().expire_pending_responses_after),
            delivered(old(self)@, now, old(self).options().expire_pending_responses_after, r@),
            final(self).options() == old(self).options(),
            final(self).stopped() == old(self).stopped(),
    {
        let expiry_after = self.options.expire_pending_responses_after;
        let ghost m0 = self@;
        let mut expired: Vec<(C, ResponseTimeoutError)> = Vec::new();
        let mut i: usize = 0;
        while i < self.pending_responses.len()
            invariant
                self.wf(),
                i <= self.pending_responses@.len(),
                self.options() == old(self).options(),
                self.stopped() == old(self).stopped(),
                expiry_after == self.options().expire_pending_responses_after,
                m0 == old(self)@,
                forall|k: int| 0 <= k < i ==> !is_expired(
                    #[trigger] self.pending_responses@[k].1.creation_time,
                    now,
                    expiry_after,
                ),
                forall|id: MessageId| #[trigger]
                    self@.contains_key(id) ==> m0.contains_key(id) && self@[id] == m0[id],
                forall|id: MessageId|
                    m0.contains_key(id) && !is_expired(m0[id].creation_time, now, expiry_after)
                        ==> #[trigger] self@.contains_key(id),
                delivered_so_far(m0, self@, now, expiry_after, expired@),
            decreases self.pending_responses@.len() - i,
        {
            if self.pending_responses[i].1.has_expired(now, expiry_after) {
                let ghost before = self@;
                let ghost before_list = expired@;
                let (message_id, timed) = self.take_at(i);
                expired.push((timed.callback, ResponseTimeoutError::new(message_id)));
                proof {
                    assert forall|k: int| 0 <= k < before_list.len() implies (#[trigger] expired@[k]).1.message_id != message_id by {
                        assert(expired@[k] == before_list[k]);
                    }
                    assert(expired@[before_list.len() as int].1.message_id == message_id);
                    assert forall|id: MessageId|
                        m0.contains_key(id) && is_expired(m0[id].creation_time, now, expiry_after)
                            && !self@.contains_key(id) implies exists|k: int|
                        0 <= k < expired@.len() && (#[trigger] expired@[k]).1.message_id == id by {
                        if id == message_id {
                            assert(expired@[before_list.len() as int].1.message_id == id);
                        } else {
                            let k = choose|k: int|
                                0 <= k < before_list.len() && (#[trigger] before_list[k]).1.message_id == id;
                            assert(expired@[k] == before_list[k]);
                        }
                    }
                }
            } else {
                i += 1;
            }
        }
        proof {
            assert forall|id: MessageId| #[trigger] self@.contains_key(id) implies !is_expired(
                m0[id].creation_time,
                now,
                expiry_after,
            ) by {
                let j = choose|j: int| 0 <= j < self.pending_responses@.len() && self.pending_responses@[j].0 == id;
                assert(self.pending@.contains_key(self.pending_responses@[j].0));
                assert(!is_expired(self.pending_responses@[j].1.creation_time, now, expiry_after));
            }
            assert(self@ =~= swept(m0, now, expiry_after));
        }
        expired
    }

    /// Tells the sweeper to stop.
    pub fn stop(&mut self)
        requires
            old(self).wf(),
        ensures
            final(self).stopped(),
            final(self)@ == old(self)@,
            final(self).wf(),
            final(self).options() == old(self).options(),
    {
        self.should_stop = true;
        proof {
            assert(self.pending_responses@ == old(self).pending_responses@);
            assert(self.pending@ == old(self).pending@);
            let e = self.pending_responses@;
            assert forall|i: int| 0 <= i < e.len() implies #[trigger] self.pending@.contains_key(e[i].0)
                && self.pending@[e[i].0] == e[i].1 by {
                assert(old(self).pending@.contains_key(old(self).pending_responses@[i].0));
            }
        }
    }

    /// Whether the sweeper was told to stop.
    pub fn is_stopped(&self) -> (r: bool)
        ensures
            r == self.stopped(),
    {
        self.should_stop
    }
}

/// The requests of `m` that, at time `now`, have not waited longer than
/// `expiry_after`.
pub open spec fn swept<C>(m: Map<MessageId, TimedCallback<C>>, now: u64, expiry_after: u64) -> Map<
    MessageId,
    TimedCallback<C>,
> {
    m.restrict(m.dom().filter(|id: MessageId| !is_expired(m[id].creation_time, now, expiry_after)))
}

/// What a sweep handed out so far, while `left` remains of `m`: each item
/// an expired request of `m` that left, with its own callback and a timeout
/// error carrying its identifier, no request twice, and every expired
/// request of `m` that left among them.
pub open spec fn delivered_so_far<C>(
    m: Map<MessageId, TimedCallback<C>>,
    left: Map<MessageId, TimedCallback<C>>,
    now: u64,
    expiry_after: u64,
    out: Seq<(C, ResponseTimeoutError)>,
) -> bool {
    &&& forall|k: int|
        0 <= k < out.len() ==> {
            let id = (#[trigger] out[k]).1.message_id;
            &&& m.contains_key(id)
            &&& !left.contains_key(id)
            &&& is_expired(m[id].creation_time, now, expiry_after)
            &&& out[k].0 == m[id].callback
        }
    &&& forall|a: int, b: int|
        0 <= a < out.len() && 0 <= b < out.len() && a != b ==> (#[trigger] out[a]).1.message_id
            != (#[trigger] out[b]).1.message_id
    &&& forall|id: MessageId|
        m.contains_key(id) && is_expired(m[id].creation_time, now, expiry_after) && !left.contains_key(
            id,
        ) ==> exists|k: int| 0 <= k < out.len() && (#[trigger] out[k]).1.message_id == id
}

/// What a whole sweep of `m` hands out: every expired request once, with
/// its own callback and a timeout error carrying its identifier, and
/// nothing else.
pub open spec fn delivered<C>(
    m: Map<MessageId, TimedCallback<C>>,
    now: u64,
    expiry_after: u64,
    out: Seq<(C, ResponseTimeoutError)>,
) -> bool {
    delivered_so_far(m, swept(m, now, expiry_after), now, expiry_after, out)
}

/// A request registered at `creation_time` and never answered: a sweep
/// before it has waited longer than `expiry_after` keeps it; the first
/// sweep after hands it out once, with a timeout error that carries its
/// identifier, and takes it out, so that neither a later sweep nor a late
/// reply can hand it out again.
pub proof fn lemma_unanswered_request_times_out_once<C>(
    m: Map<MessageId, TimedCallback<C>>,
    message_id: MessageId,
    now: u64,
    expiry_after: u64,
    out: Seq<(C, ResponseTimeoutError)>,
)
    requires
        m.contains_key(message_id),
        delivered(m, now, expiry_after, out),
    ensures
        !is_expired(m[message_id].creation_time, now, expiry_after) ==> swept(m, now, expiry_after).contains_key(message_id)
            && swept(m, now, expiry_after)[message_id] == m[message_id]
            && forall|k: int| 0 <= k < out.len() ==> (#[trigger] out[k]).1.message_id != message_id,
        is_expired(m[message_id].creation_time, now, expiry_after) ==> {
            &&& !swept(m, now, expiry_after).contains_key(message_id)
            &&& exists|k: int|
                0 <= k < out.len() && (#[trigger] out[k]).1.message_id == message_id && out[k].0
                    == m[message_id].callback
            &&& forall|a: int, b: int|
                0 <= a < out.len() && 0 <= b < out.len() && (#[trigger] out[a]).1.message_id
                    == message_id && (#[trigger] out[b]).1.message_id == message_id ==> a == b
        },
{
    let s = swept(m, now, expiry_after);
    if !is_expired(m[message_id].creation_time, now, expiry_after) {
        assert(s.dom().contains(message_id));
        assert forall|k: int| 0 <= k < out.len() implies (#[trigger] out[k]).1.message_id != message_id by {
            let id = out[k].1.message_id;
            if id == message_id {
                assert(!s.contains_key(id));
            }
        }
    } else {
        assert(!s.dom().contains(message_id));
    }
}

} // verus!
