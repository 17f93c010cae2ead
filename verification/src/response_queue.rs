//! Keeps the HTTP responses of one connection in the order of their requests.
//!
//! Requests that went to a client are answered by that client in its own time.
//! A response that arrives before an earlier request was answered is held back
//! until its turn has come.

use crate::protocol::{HttpResponse, RequestId};
use vstd::prelude::*;

verus! {

/// A request that awaits its response, with the response once it has arrived.
pub type Slot = (RequestId, Option<HttpResponse>);

/// What a queue holds: the open requests in rising order of their ids, each
/// with its response if that has arrived, and the id of the request that was
/// answered last.
pub struct ResponseQueueView {
    pub slots: Seq<Slot>,
    pub last_released: Option<RequestId>,
}

/// The number of slots at the front that hold a response.
pub open spec fn ready_run(slots: Seq<Slot>) -> nat
    decreases slots.len(),
{
    if slots.len() == 0 || slots.first().1.is_none() {
        0
    } else {
        1 + ready_run(slots.drop_first())
    }
}

/// The responses of the slots, which all hold one.
pub open spec fn responses_of(slots: Seq<Slot>) -> Seq<HttpResponse> {
    Seq::new(slots.len(), |i: int| slots[i].1.unwrap())
}

/// The request ids of a list of responses.
pub open spec fn ids_of(responses: Seq<HttpResponse>) -> Seq<RequestId> {
    Seq::new(responses.len(), |i: int| responses[i].request_id)
}

/// Each id is greater than the one before.
pub open spec fn ascending(ids: Seq<RequestId>) -> bool {
    forall|i: int, j: int| 0 <= i < j < ids.len() ==> ids[i] < ids[j]
}

/// Every id is greater than `floor`, if there is one.
pub open spec fn all_above(ids: Seq<RequestId>, floor: Option<RequestId>) -> bool {
    floor matches Some(f) ==> forall|i: int| 0 <= i < ids.len() ==> f < ids[i]
}

/// The position of the slot that awaits the response to `request_id`.
pub open spec fn waits_at(slots: Seq<Slot>, request_id: RequestId, i: int) -> bool {
    0 <= i < slots.len() && slots[i].0 == request_id && slots[i].1.is_none()
}

impl ResponseQueueView {
    /// The ids of the open requests.
    pub open spec fn open_ids(self) -> Seq<RequestId> {
        Seq::new(self.slots.len(), |i: int| self.slots[i].0)
    }

    /// The open requests are in rising order, all later than the last answered
    /// one, each response sits in the slot of its request, and the oldest open
    /// request still awaits its response.
    pub open spec fn wf(self) -> bool {
        &&& ascending(self.open_ids())
        &&& all_above(self.open_ids(), self.last_released)
        &&& forall|i: int|
            0 <= i < self.slots.len() ==> ((#[trigger] self.slots[i]).1 matches Some(r)
                ==> r.request_id == self.slots[i].0)
        &&& self.slots.len() > 0 ==> self.slots.first().1.is_none()
    }

    /// Whether a request with this id may be opened: ids only rise.
    pub open spec fn admits(self, request_id: RequestId) -> bool {
        &&& all_above(seq![request_id], self.last_released)
        &&& self.slots.len() > 0 ==> self.slots.last().0 < request_id
    }

    /// The queue after a request was opened.
    pub open spec fn expect(self, request_id: RequestId) -> ResponseQueueView {
        if self.admits(request_id) {
            ResponseQueueView {
                slots: self.slots.push((request_id, None)),
                last_released: self.last_released,
            }
        } else {
            self
        }
    }

    /// Whether a response is awaited: its request is open and unanswered.
    pub open spec fn awaits(self, request_id: RequestId) -> bool {
        exists|i: int| waits_at(self.slots, request_id, i)
    }

    /// The slots once `response` sits in the slot of its request.
    pub open spec fn filled(self, response: HttpResponse) -> Seq<Slot> {
        let i = choose|i: int| waits_at(self.slots, response.request_id, i);
        self.slots.update(i, (response.request_id, Some(response)))
    }

    /// The responses that leave when `response` arrives, in the order in which
    /// they leave: none if it is not awaited or not yet due; else the response
    /// to the oldest open request and those to the requests that follow it
    /// without a gap.
    pub open spec fn released(self, response: HttpResponse) -> Seq<HttpResponse> {
        if self.awaits(response.request_id) {
            let filled = self.filled(response);
            responses_of(filled.take(ready_run(filled) as int))
        } else {
            Seq::empty()
        }
    }

    /// The queue after `response` arrived.
    pub open spec fn arrive(self, response: HttpResponse) -> ResponseQueueView {
        if self.awaits(response.request_id) {
            let filled = self.filled(response);
            let n = ready_run(filled) as int;
            ResponseQueueView {
                slots: filled.skip(n),
                last_released: if n > 0 {
                    Some(filled[n - 1].0)
                } else {
                    self.last_released
                },
            }
        } else {
            self
        }
    }
}

/// The run of ready slots is a prefix whose slots all hold a response, and the
/// slot after it, if there is one, holds none.
pub proof fn lemma_ready_run(slots: Seq<Slot>)
    ensures
        ready_run(slots) <= slots.len(),
        forall|i: int| 0 <= i < ready_run(slots) ==> (#[trigger] slots[i]).1.is_some(),
        ready_run(slots) < slots.len() ==> slots[ready_run(slots) as int].1.is_none(),
    decreases slots.len(),
{
    if slots.len() == 0 || slots.first().1.is_none() {
    } else {
        let rest = slots.drop_first();
        lemma_ready_run(rest);
        assert forall|i: int| 0 <= i < ready_run(slots) implies (#[trigger] slots[i]).1.is_some() by {
            if i > 0 {
                assert(rest[i - 1] == slots[i]);
            }
        }
        if ready_run(slots) < slots.len() {
            assert(rest[ready_run(rest) as int] == slots[ready_run(slots) as int]);
        }
    }
}

/// The responses of one connection that are on their way, in request order.
#[derive(Debug)]
pub struct ResponseQueue {
    slots: Vec<Slot>,
    last_released: Option<RequestId>,
}

impl View for ResponseQueue {
    type V = ResponseQueueView;

    closed spec fn view(&self) -> ResponseQueueView {
        ResponseQueueView { slots: self.slots@, last_released: self.last_released }
    }
}

impl ResponseQueue {
    /// The invariant that every operation keeps.
    pub open spec fn wf(&self) -> bool {
        self@.wf()
    }

    /// A queue without open requests.
    pub fn new() -> (queue: ResponseQueue)
        ensures
            queue.wf(),
            queue@.slots == Seq::<Slot>::empty(),
            queue@.last_released.is_none(),
    {
        ResponseQueue { slots: Vec::new(), last_released: None }
    }

    /// Opens a request: its response will be awaited. Ids must rise; a request
    /// whose id does not is not opened, and `false` is returned.
    pub fn expect(&mut self, request_id: RequestId) -> (opened: bool)
        requires
            old(self).wf(),
        ensures
            final(self).wf(),
            opened == old(self)@.admits(request_id),
            final(self)@ == old(self)@.expect(request_id),
    {
        let above_floor = match self.last_released {
            Some(floor) => floor < request_id,
            None => true,
        };
        let above_open = self.slots.len() == 0 || self.slots[self.slots.len() - 1].0 < request_id;
        proof {
            assert(seq![request_id][0] == request_id);
        }
        if above_floor && above_open {
            let ghost before = self@;
            self.slots.push((request_id, None));
            proof {
                assert(self@.slots =~= before.slots.push((request_id, None)));
                lemma_expect_keeps_order(before, request_id);
            }
            true
        } else {
            false
        }
    }

    fn waiting_slot(&self, request_id: RequestId) -> (position: Option<usize>)
        requires
            self.wf(),
        ensures
            position.is_some() == self@.awaits(request_id),
            position matches Some(i) ==> waits_at(self@.slots, request_id, i as int),
            forall|j: int|
                waits_at(self@.slots, request_id, j) ==> (position matches Some(i) && i as int == j),
    {
        let mut i: usize = 0;
        while i < self.slots.len()
            invariant
                self.wf(),
                i <= self.slots@.len(),
                forall|j: int| 0 <= j < i ==> self.slots@[j].0 != request_id,
            decreases self.slots@.len() - i,
        {
            if self.slots[i].0 == request_id {
                proof {
                    assert forall|j: int| 0 <= j < self.slots@.len() && j != i implies self.slots@[j].0
                        != request_id by {
                        assert(self@.open_ids()[j] == self.slots@[j].0);
                        assert(self@.open_ids()[i as int] == self.slots@[i as int].0);
                    }
                }
                if self.slots[i].1.is_none() {
                    assert(waits_at(self@.slots, request_id, i as int));
                    return Some(i);
                } else {
                    assert forall|j: int| !waits_at(self@.slots, request_id, j) by {}
                    return None;
                }
            }
            i += 1;
        }
        assert forall|j: int| !waits_at(self@.slots, request_id, j) by {}
        None
    }

    /// Takes in a response and returns the responses that are now due, in the
    /// order in which they are to be written.
    ///
    /// A response is due once every earlier open request was answered. A
    /// response that nobody awaits is dropped.
    pub fn arrive(&mut self, response: HttpResponse) -> (released: Vec<HttpResponse>)
        requires
            old(self).wf(),
        ensures
            final(self).wf(),
            released@ == old(self)@.released(response),
            final(self)@ == old(self)@.arrive(response),
            ascending(ids_of(released@)),
            all_above(ids_of(released@), old(self)@.last_released),
            all_above(final(self)@.open_ids(), final(self)@.last_released),
    {
        let ghost before = self@;
        let mut released: Vec<HttpResponse> = Vec::new();
        let position = self.waiting_slot(response.request_id);
        let i = match position {
            Some(i) => i,
            None => {
                assert(ids_of(released@) =~= Seq::<RequestId>::empty());
                return released;
            },
        };
        let request_id = response.request_id;
        let _ = self.slots.remove(i);
        self.slots.insert(i, (request_id, Some(response)));
        let ghost filled = self.slots@;
        proof {
            let chosen = choose|k: int| waits_at(before.slots, request_id, k);
            assert(chosen == i);
            assert(filled =~= before.filled(response));
            lemma_ready_run(filled);
            assert(filled.skip(0) =~= filled);
            assert(filled.take(0) =~= Seq::<Slot>::empty());
            assert(responses_of(filled.take(0)) =~= Seq::<HttpResponse>::empty());
        }
        let ghost total = ready_run(filled) as int;
        let ghost mut n: int = 0;
        while self.slots.len() > 0 && self.slots[0].1.is_some()
            invariant
                0 <= n <= total,
                total == ready_run(filled),
                total <= filled.len(),
                self.slots@ == filled.skip(n),
                released@ == responses_of(filled.take(n)),
                ready_run(filled.skip(n)) == total - n,
                n > 0 ==> self.last_released == Some(filled[n - 1].0),
                n == 0 ==> self.last_released == before.last_released,
            decreases self.slots@.len(),
        {
            proof {
                assert(filled.skip(n)[0] == filled[n]);
                assert(filled.skip(n).drop_first() =~= filled.skip(n + 1));
            }
            let (id, slot) = self.slots.remove(0);
            match slot {
                Some(ready) => {
                    released.push(ready);
                },
                None => {},
            }
            self.last_released = Some(id);
            proof {
                assert(filled.take(n + 1) =~= filled.take(n).push(filled[n]));
                assert(released@ =~= responses_of(filled.take(n + 1)));
                n = n + 1;
            }
        }
        proof {
            lemma_ready_run(filled.skip(n));
            if n < total {
                assert(filled.skip(n)[0].1.is_some());
            }
            assert(n == total);
            assert(self@ == before.arrive(response));
            assert(released@ == before.released(response));
            lemma_arrive_keeps_order(before, response);
        }
        released
    }

    /// Whether no request is open.
    pub fn is_empty(&self) -> (empty: bool)
        ensures
            empty == (self@.slots.len() == 0),
    {
        self.slots.len() == 0
    }
}

/// When a response arrives, the responses that leave have rising request ids,
/// all greater than that of any response that left before, and every request
/// that stays open has a greater id still.
pub proof fn lemma_arrive_keeps_order(queue: ResponseQueueView, response: HttpResponse)
    requires
        queue.wf(),
    ensures
        queue.arrive(response).wf(),
        ascending(ids_of(queue.released(response))),
        all_above(ids_of(queue.released(response)), queue.last_released),
        all_above(queue.arrive(response).open_ids(), queue.arrive(response).last_released),
        queue.released(response).len() > 0 ==> queue.arrive(response).last_released == Some(
            ids_of(queue.released(response)).last(),
        ),
        queue.released(response).len() == 0 ==> queue.arrive(response).last_released
            == queue.last_released,
{
    if queue.awaits(response.request_id) {
        let i = choose|i: int| waits_at(queue.slots, response.request_id, i);
        let filled = queue.filled(response);
        let n = ready_run(filled) as int;
        let after = queue.arrive(response);
        let out = queue.released(response);
        lemma_ready_run(filled);
        assert forall|k: int| 0 <= k < filled.len() implies (#[trigger] filled[k]).0
            == queue.open_ids()[k] by {}
        assert forall|k: int| 0 <= k < filled.len() implies ((#[trigger] filled[k]).1 matches Some(r)
            ==> r.request_id == filled[k].0) by {
            if k != i {
                assert(filled[k] == queue.slots[k]);
            }
        }
        assert forall|a: int, b: int| 0 <= a < b < ids_of(out).len() implies ids_of(out)[a] < ids_of(
            out,
        )[b] by {
            assert(filled[a].1.is_some());
            assert(filled[b].1.is_some());
            assert(queue.open_ids()[a] < queue.open_ids()[b]);
        }
        if queue.last_released.is_some() {
            assert forall|a: int| 0 <= a < ids_of(out).len() implies queue.last_released.unwrap()
                < ids_of(out)[a] by {
                assert(filled[a].1.is_some());
                assert(queue.last_released.unwrap() < queue.open_ids()[a]);
            }
        }
        assert forall|a: int, b: int| 0 <= a < b < after.open_ids().len() implies after.open_ids()[a]
            < after.open_ids()[b] by {
            assert(queue.open_ids()[a + n] < queue.open_ids()[b + n]);
        }
        if after.last_released.is_some() {
            assert forall|a: int| 0 <= a < after.open_ids().len() implies after.last_released.unwrap()
                < after.open_ids()[a] by {
                if n > 0 {
                    assert(queue.open_ids()[n - 1] < queue.open_ids()[a + n]);
                } else {
                    assert(queue.last_released.unwrap() < queue.open_ids()[a]);
                }
            }
        }
        assert forall|k: int| 0 <= k < after.slots.len() implies ((
        #[trigger] after.slots[k]).1 matches Some(r) ==> r.request_id == after.slots[k].0) by {
            assert(after.slots[k] == filled[k + n]);
        }
        if n > 0 {
            assert(filled[n - 1].1.is_some());
            assert(ids_of(out).last() == filled[n - 1].0);
        }
    } else {
        assert(ids_of(queue.released(response)) =~= Seq::<RequestId>::empty());
    }
}

/// Opening a request keeps the queue in order.
pub proof fn lemma_expect_keeps_order(queue: ResponseQueueView, request_id: RequestId)
    requires
        queue.wf(),
    ensures
        queue.expect(request_id).wf(),
{
    if queue.admits(request_id) {
        let after = queue.expect(request_id);
        assert(seq![request_id][0] == request_id);
        assert forall|i: int, j: int| 0 <= i < j < after.open_ids().len() implies after.open_ids()[i]
            < after.open_ids()[j] by {
            if j == queue.slots.len() {
                if i < queue.slots.len() - 1 {
                    assert(queue.open_ids()[i] < queue.open_ids()[queue.slots.len() - 1]);
                }
            } else {
                assert(queue.open_ids()[i] < queue.open_ids()[j]);
            }
        }
        if queue.last_released.is_some() {
            assert forall|i: int| 0 <= i < after.open_ids().len() implies queue.last_released.unwrap()
                < after.open_ids()[i] by {
                if i < queue.slots.len() {
                    assert(queue.open_ids()[i] == after.open_ids()[i]);
                }
            }
        }
        assert forall|i: int| 0 <= i < after.slots.len() implies ((
        #[trigger] after.slots[i]).1 matches Some(r) ==> r.request_id == after.slots[i].0) by {
            if i < queue.slots.len() {
                assert(queue.slots[i] == after.slots[i]);
            }
        }
    }
}

/// What can happen to a queue.
pub enum QueueEvent {
    /// A request went to a client.
    Opened(RequestId),
    /// A client sent a response.
    Arrived(HttpResponse),
}

/// The queue after an event, and the responses that the event sets free.
pub open spec fn step(queue: ResponseQueueView, event: QueueEvent) -> (
    ResponseQueueView,
    Seq<HttpResponse>,
) {
    match event {
        QueueEvent::Opened(request_id) => (queue.expect(request_id), Seq::empty()),
        QueueEvent::Arrived(response) => (queue.arrive(response), queue.released(response)),
    }
}

/// The queue after a series of events.
pub open spec fn queue_after(queue: ResponseQueueView, events: Seq<QueueEvent>) -> ResponseQueueView
    decreases events.len(),
{
    if events.len() == 0 {
        queue
    } else {
        step(queue_after(queue, events.drop_last()), events.last()).0
    }
}

/// All responses that a series of events sets free, in the order in which they
/// leave.
pub open spec fn written(queue: ResponseQueueView, events: Seq<QueueEvent>) -> Seq<HttpResponse>
    decreases events.len(),
{
    if events.len() == 0 {
        Seq::empty()
    } else {
        written(queue, events.drop_last()) + step(
            queue_after(queue, events.drop_last()),
            events.last(),
        ).1
    }
}

/// In whatever order requests are opened and responses arrive, the responses
/// leave the queue in rising order of their request ids.
pub proof fn lemma_responses_leave_in_request_order(
    queue: ResponseQueueView,
    events: Seq<QueueEvent>,
)
    requires
        queue.wf(),
    ensures
        queue_after(queue, events).wf(),
        ascending(ids_of(written(queue, events))),
        all_above(ids_of(written(queue, events)), queue.last_released),
        written(queue, events).len() > 0 ==> queue_after(queue, events).last_released == Some(
            ids_of(written(queue, events)).last(),
        ),
        written(queue, events).len() == 0 ==> queue_after(queue, events).last_released
            == queue.last_released,
    decreases events.len(),
{
    if events.len() == 0 {
        assert(ids_of(written(queue, events)) =~= Seq::<RequestId>::empty());
    } else {
        let earlier = events.drop_last();
        let middle = queue_after(queue, earlier);
        let so_far = written(queue, earlier);
        lemma_responses_leave_in_request_order(queue, earlier);
        let (after, fresh) = step(middle, events.last());
        let all = written(queue, events);
        assert(all == so_far + fresh);
        match events.last() {
            QueueEvent::Opened(request_id) => {
                lemma_expect_keeps_order(middle, request_id);
                assert(all =~= so_far);
            },
            QueueEvent::Arrived(response) => {
                lemma_arrive_keeps_order(middle, response);
                assert forall|i: int, j: int| 0 <= i < j < ids_of(all).len() implies ids_of(all)[i]
                    < ids_of(all)[j] by {
                    if j < so_far.len() {
                        assert(ids_of(so_far)[i] < ids_of(so_far)[j]);
                    } else if i >= so_far.len() {
                        assert(ids_of(fresh)[i - so_far.len()] < ids_of(fresh)[j - so_far.len()]);
                    } else {
                        assert(middle.last_released == Some(ids_of(so_far).last()));
                        assert(ids_of(so_far).last() < ids_of(fresh)[j - so_far.len()]);
                        if i < so_far.len() - 1 {
                            assert(ids_of(so_far)[i] < ids_of(so_far)[so_far.len() - 1]);
                        }
                    }
                }
                if queue.last_released.is_some() {
                    assert forall|i: int| 0 <= i < ids_of(all).len() implies queue.last_released.unwrap()
                        < ids_of(all)[i] by {
                        if i < so_far.len() {
                            assert(queue.last_released.unwrap() < ids_of(so_far)[i]);
                        } else {
                            assert(ids_of(fresh)[i - so_far.len()] == ids_of(all)[i]);
                            if so_far.len() > 0 {
                                assert(queue.last_released.unwrap() < ids_of(so_far)[so_far.len() - 1]);
                                assert(ids_of(so_far).last() < ids_of(fresh)[i - so_far.len()]);
                            } else {
                                assert(middle.last_released == queue.last_released);
                            }
                        }
                    }
                }
                if fresh.len() > 0 {
                    assert(ids_of(all).last() == ids_of(fresh).last());
                } else {
                    assert(all =~= so_far);
                }
            },
        }
    }
}

} // verus!
