//! Fan-out of finished frames to any number of subscribers.
//!
//! Each subscriber has a backlog of its own with a fixed bound. Publishing
//! appends the frame to every backlog and, where a backlog is full, drops its
//! oldest frame first: a reader that falls behind loses old frames, and
//! neither the publisher nor any other reader waits for it.

use vstd::prelude::*;
use std::collections::VecDeque;
use crate::config::ConfigError;
use crate::frame::SpectrumFrame;

verus! {

/// The newest `bound` items of `items`, in order.
pub open spec fn keep_newest<T>(items: Seq<T>, bound: int) -> Seq<T> {
    if items.len() <= bound {
        items
    } else if bound <= 0 {
        Seq::empty()
    } else {
        items.subrange(items.len() - bound, items.len() as int)
    }
}

/// One subscriber: its identifier and the frames it has yet to read, oldest
/// first.
pub struct SubscriberState {
    pub id: int,
    pub backlog: Seq<Seq<u8>>,
}

/// What a distributor is, as far as its behaviour goes.
pub struct DistributorState {
    /// Most frames that wait for one subscriber.
    pub bound: int,
    /// The identifier that the next subscriber gets.
    pub next_id: int,
    /// The subscribers, in the order in which they joined.
    pub subscribers: Seq<SubscriberState>,
}

impl SubscriberState {
    /// The subscriber after `frame` was published to it.
    pub open spec fn offer(self, frame: Seq<u8>, bound: int) -> SubscriberState {
        SubscriberState { id: self.id, backlog: keep_newest(self.backlog.push(frame), bound) }
    }

    /// The subscriber after it has read its oldest frame, if it had one.
    pub open spec fn advance(self) -> SubscriberState {
        if self.backlog.len() > 0 {
            SubscriberState { id: self.id, backlog: self.backlog.drop_first() }
        } else {
            self
        }
    }
}

impl DistributorState {
    /// A backlog has room for at least one frame and never holds more than
    /// the bound, and no identifier is in use twice or still to be given out.
    pub open spec fn wf(self) -> bool {
        &&& self.bound >= 1
        &&& self.next_id >= 0
        &&& forall|i: int|
            0 <= i < self.subscribers.len() ==> {
                &&& (#[trigger] self.subscribers[i]).backlog.len() <= self.bound
                &&& 0 <= self.subscribers[i].id < self.next_id
            }
        &&& forall|i: int, j: int|
            0 <= i < j < self.subscribers.len() ==> (#[trigger] self.subscribers[i]).id != (
            #[trigger] self.subscribers[j]).id
    }

    /// A distributor without subscribers.
    pub open spec fn initial(bound: int) -> DistributorState {
        DistributorState { bound, next_id: 0, subscribers: Seq::empty() }
    }

    /// Whether `id` names a current subscriber.
    pub open spec fn is_subscribed(self, id: int) -> bool {
        exists|i: int| 0 <= i < self.subscribers.len() && (#[trigger] self.subscribers[i]).id == id
    }

    /// The place of subscriber `id` among the subscribers.
    pub open spec fn index_of(self, id: int) -> int {
        choose|i: int| 0 <= i < self.subscribers.len() && (#[trigger] self.subscribers[i]).id == id
    }

    /// The frames that wait for subscriber `id`, oldest first; none for an
    /// identifier that is not subscribed.
    pub open spec fn backlog(self, id: int) -> Seq<Seq<u8>> {
        if self.is_subscribed(id) {
            self.subscribers[self.index_of(id)].backlog
        } else {
            Seq::empty()
        }
    }

    /// The frame that subscriber `id` reads next.
    pub open spec fn next_frame(self, id: int) -> Option<Seq<u8>> {
        if self.backlog(id).len() > 0 {
            Some(self.backlog(id).first())
        } else {
            None
        }
    }

    /// The state after a new subscriber has joined. It gets the identifier
    /// `self.next_id` and an empty backlog.
    pub open spec fn subscribe(self) -> DistributorState {
        DistributorState {
            next_id: self.next_id + 1,
            subscribers: self.subscribers.push(
                SubscriberState { id: self.next_id, backlog: Seq::empty() },
            ),
            ..self
        }
    }

    /// The state after subscriber `id` has left.
    pub open spec fn unsubscribe(self, id: int) -> DistributorState {
        if self.is_subscribed(id) {
            DistributorState { subscribers: self.subscribers.remove(self.index_of(id)), ..self }
        } else {
            self
        }
    }

    /// The state after `frame` was published: every backlog gets it as its
    /// newest frame and, where it was full, loses its oldest.
    pub open spec fn publish(self, frame: Seq<u8>) -> DistributorState {
        DistributorState {
            subscribers: Seq::new(
                self.subscribers.len(),
                |i: int| self.subscribers[i].offer(frame, self.bound),
            ),
            ..self
        }
    }

    /// The state after each of `frames` was published, in order.
    pub open spec fn publish_all(self, frames: Seq<Seq<u8>>) -> DistributorState
        decreases frames.len(),
    {
        if frames.len() == 0 {
            self
        } else {
            self.publish_all(frames.drop_last()).publish(frames.last())
        }
    }

    /// The state after subscriber `id` has read its next frame.
    pub open spec fn receive(self, id: int) -> DistributorState {
        if self.is_subscribed(id) {
            DistributorState {
                subscribers: self.subscribers.update(
                    self.index_of(id),
                    self.subscribers[self.index_of(id)].advance(),
                ),
                ..self
            }
        } else {
            self
        }
    }
}

impl DistributorState {
    /// The state after each of `frames` was published and then read by
    /// subscriber `id`, before the next one was published.
    pub open spec fn relay(self, id: int, frames: Seq<Seq<u8>>) -> DistributorState
        decreases frames.len(),
    {
        if frames.len() == 0 {
            self
        } else {
            self.relay(id, frames.drop_last()).publish(frames.last()).receive(id)
        }
    }

    /// What subscriber `id` reads in the course of `relay`: for each frame,
    /// what it is handed right after that frame was published.
    pub open spec fn relayed(self, id: int, frames: Seq<Seq<u8>>) -> Seq<Option<Seq<u8>>>
        decreases frames.len(),
    {
        if frames.len() == 0 {
            Seq::empty()
        } else {
            self.relayed(id, frames.drop_last()).push(
                self.relay(id, frames.drop_last()).publish(frames.last()).next_frame(id),
            )
        }
    }
}

/// In a well-formed state a subscriber is found by its identifier: the one
/// at place `i` is subscribed, and `index_of` gives `i` back.
pub proof fn lemma_index_of(state: DistributorState, i: int)
    requires
        state.wf(),
        0 <= i < state.subscribers.len(),
    ensures
        state.is_subscribed(state.subscribers[i].id),
        state.index_of(state.subscribers[i].id) == i,
        state.backlog(state.subscribers[i].id) == state.subscribers[i].backlog,
{
    let id = state.subscribers[i].id;
    let k = state.index_of(id);
    assert(0 <= k < state.subscribers.len() && state.subscribers[k].id == id);
    if k < i {
        assert(state.subscribers[k].id != state.subscribers[i].id);
    } else if i < k {
        assert(state.subscribers[i].id != state.subscribers[k].id);
    }
}

/// Publishing keeps the state well formed and the subscribers as they are.
/// Each backlog, and none but its own, decides what a subscriber holds
/// afterwards: its old backlog with the frame appended, cut to the newest
/// `bound` frames.
pub proof fn lemma_publish(state: DistributorState, frame: Seq<u8>, id: int)
    requires
        state.wf(),
    ensures
        state.publish(frame).wf(),
        state.publish(frame).is_subscribed(id) == state.is_subscribed(id),
        state.is_subscribed(id) ==> state.publish(frame).backlog(id) == keep_newest(
            state.backlog(id).push(frame),
            state.bound,
        ),
{
    let after = state.publish(frame);
    assert forall|i: int| 0 <= i < after.subscribers.len() implies {
        &&& (#[trigger] after.subscribers[i]).backlog.len() <= after.bound
        &&& 0 <= after.subscribers[i].id < after.next_id
    } by {
        assert(after.subscribers[i] == state.subscribers[i].offer(frame, state.bound));
    }
    assert forall|i: int, j: int| 0 <= i < j < after.subscribers.len() implies (
    #[trigger] after.subscribers[i]).id != (#[trigger] after.subscribers[j]).id by {
        assert(after.subscribers[i].id == state.subscribers[i].id);
        assert(after.subscribers[j].id == state.subscribers[j].id);
    }
    if state.is_subscribed(id) {
        let i = state.index_of(id);
        lemma_index_of(state, i);
        assert(after.subscribers[i].id == id);
        lemma_index_of(after, i);
    }
    if after.is_subscribed(id) {
        let i = after.index_of(id);
        assert(state.subscribers[i].id == id);
    }
}

/// Reading keeps the state well formed and the subscribers as they are. The
/// reader loses its oldest frame, if it had one; every other backlog stays as
/// it was.
pub proof fn lemma_receive(state: DistributorState, reader: int, id: int)
    requires
        state.wf(),
    ensures
        state.receive(reader).wf(),
        state.receive(reader).is_subscribed(id) == state.is_subscribed(id),
        id != reader ==> state.receive(reader).backlog(id) == state.backlog(id),
        state.backlog(reader).len() > 0 ==> state.receive(reader).backlog(reader)
            == state.backlog(reader).drop_first(),
        state.backlog(reader).len() == 0 ==> state.receive(reader) == state,
{
    let after = state.receive(reader);
    if state.is_subscribed(reader) {
        let r = state.index_of(reader);
        lemma_index_of(state, r);
        assert forall|i: int| 0 <= i < after.subscribers.len() implies (
        #[trigger] after.subscribers[i]).id == state.subscribers[i].id
            && after.subscribers[i].backlog.len() <= state.subscribers[i].backlog.len() by {}
        assert(after.wf());
        lemma_index_of(after, r);
        if state.is_subscribed(id) {
            let i = state.index_of(id);
            lemma_index_of(state, i);
            assert(after.subscribers[i].id == id);
            lemma_index_of(after, i);
        }
        if after.is_subscribed(id) {
            let i = after.index_of(id);
            assert(state.subscribers[i].id == id);
        }
        if state.backlog(reader).len() == 0 {
            assert(after.subscribers =~= state.subscribers);
        }
    }
}

/// A new subscriber leaves the state well formed and every other subscriber
/// as it was. It is subscribed under the identifier `state.next_id`, and
/// nothing waits for it.
pub proof fn lemma_subscribe(state: DistributorState, id: int)
    requires
        state.wf(),
    ensures
        state.subscribe().wf(),
        !state.is_subscribed(state.next_id),
        state.subscribe().is_subscribed(state.next_id),
        state.subscribe().backlog(state.next_id) == Seq::<Seq<u8>>::empty(),
        state.is_subscribed(id) ==> state.subscribe().is_subscribed(id),
        state.is_subscribed(id) ==> state.subscribe().backlog(id) == state.backlog(id),
{
    let after = state.subscribe();
    let n = state.subscribers.len() as int;
    assert forall|i: int| 0 <= i < after.subscribers.len() implies {
        &&& (#[trigger] after.subscribers[i]).backlog.len() <= after.bound
        &&& 0 <= after.subscribers[i].id < after.next_id
    } by {
        if i < n {
            assert(after.subscribers[i] == state.subscribers[i]);
        }
    }
    assert forall|i: int, j: int| 0 <= i < j < after.subscribers.len() implies (
    #[trigger] after.subscribers[i]).id != (#[trigger] after.subscribers[j]).id by {
        assert(after.subscribers[i] == state.subscribers[i]);
        if j < n {
            assert(after.subscribers[j] == state.subscribers[j]);
        }
    }
    lemma_index_of(after, n);
    if state.is_subscribed(id) {
        let i = state.index_of(id);
        lemma_index_of(state, i);
        assert(after.subscribers[i] == state.subscribers[i]);
        lemma_index_of(after, i);
    }
}

/// A subscriber that leaves is gone, the state stays well formed, and every
/// other subscriber keeps its place in line and its backlog.
pub proof fn lemma_unsubscribe(state: DistributorState, gone: int, id: int)
    requires
        state.wf(),
    ensures
        state.unsubscribe(gone).wf(),
        !state.unsubscribe(gone).is_subscribed(gone),
        id != gone ==> state.unsubscribe(gone).is_subscribed(id) == state.is_subscribed(id),
        id != gone ==> state.unsubscribe(gone).backlog(id) == state.backlog(id),
{
    let after = state.unsubscribe(gone);
    if state.is_subscribed(gone) {
        let g = state.index_of(gone);
        lemma_index_of(state, g);
        assert forall|i: int| 0 <= i < after.subscribers.len() implies (
        #[trigger] after.subscribers[i]) == state.subscribers[if i < g {
            i
        } else {
            i + 1
        }] by {}
        assert(after.wf()) by {
            assert forall|i: int, j: int| 0 <= i < j < after.subscribers.len() implies (
            #[trigger] after.subscribers[i]).id != (#[trigger] after.subscribers[j]).id by {
                let a = if i < g { i } else { i + 1 };
                let b = if j < g { j } else { j + 1 };
                assert(state.subscribers[a].id != state.subscribers[b].id);
            }
        }
        if after.is_subscribed(gone) {
            let i = after.index_of(gone);
            let a = if i < g { i } else { i + 1 };
            assert(state.subscribers[a].id == gone);
            lemma_index_of(state, a);
        }
        if id != gone {
            if state.is_subscribed(id) {
                let i = state.index_of(id);
                lemma_index_of(state, i);
                let a = if i < g { i } else { i - 1 };
                assert(after.subscribers[a] == state.subscribers[i]);
                lemma_index_of(after, a);
            }
            if after.is_subscribed(id) {
                let i = after.index_of(id);
                let a = if i < g { i } else { i + 1 };
                assert(state.subscribers[a].id == id);
            }
        }
    }
}

/// Publishing to nobody is a no-op: without subscribers, any number of frames
/// leaves the state as it was.
pub proof fn lemma_publish_to_nobody(state: DistributorState, frames: Seq<Seq<u8>>)
    requires
        state.subscribers.len() == 0,
    ensures
        state.publish_all(frames) == state,
    decreases frames.len(),
{
    if frames.len() > 0 {
        lemma_publish_to_nobody(state, frames.drop_last());
        assert(state.publish(frames.last()).subscribers =~= state.subscribers);
    }
}

/// Frames are not backfilled: after any number of frames were published to
/// nobody, a subscriber that joins and sees one more frame published holds
/// exactly that frame, reads it next, and then has nothing left to read.
pub proof fn lemma_no_backfill(state: DistributorState, earlier: Seq<Seq<u8>>, frame: Seq<u8>)
    requires
        state.wf(),
        state.subscribers.len() == 0,
    ensures
        ({
            let id = state.next_id;
            let joined = state.publish_all(earlier).subscribe();
            let after = joined.publish(frame);
            &&& joined.is_subscribed(id)
            &&& joined.backlog(id) == Seq::<Seq<u8>>::empty()
            &&& after.backlog(id) == seq![frame]
            &&& after.next_frame(id) == Some(frame)
            &&& after.receive(id).next_frame(id) is None
        }),
{
    let id = state.next_id;
    lemma_publish_to_nobody(state, earlier);
    lemma_subscribe(state, id);
    let joined = state.subscribe();
    lemma_publish(joined, frame, id);
    let after = joined.publish(frame);
    assert(Seq::<Seq<u8>>::empty().push(frame) =~= seq![frame]);
    lemma_receive(after, id, id);
    assert(seq![frame].drop_first() =~= Seq::<Seq<u8>>::empty());
}

/// Cutting to the newest frames after each one comes to the same as cutting
/// once at the end.
pub proof fn lemma_keep_newest_push<T>(items: Seq<T>, item: T, bound: int)
    requires
        bound >= 1,
    ensures
        keep_newest(keep_newest(items, bound).push(item), bound) == keep_newest(
            items.push(item),
            bound,
        ),
{
    assert(keep_newest(keep_newest(items, bound).push(item), bound) =~= keep_newest(
        items.push(item),
        bound,
    ));
}

/// Drop-oldest, in order: after any run of frames was published, a subscriber
/// that did not read holds the newest `bound` frames of what it held before
/// followed by what was published, in the order of publication.
pub proof fn lemma_backlog_is_newest(state: DistributorState, frames: Seq<Seq<u8>>, id: int)
    requires
        state.wf(),
        state.is_subscribed(id),
    ensures
        state.publish_all(frames).wf(),
        state.publish_all(frames).is_subscribed(id),
        state.publish_all(frames).backlog(id) == keep_newest(
            state.backlog(id) + frames,
            state.bound,
        ),
        state.publish_all(frames).bound == state.bound,
    decreases frames.len(),
{
    if frames.len() == 0 {
        let i = state.index_of(id);
        lemma_index_of(state, i);
        assert(state.backlog(id) + frames =~= state.backlog(id));
    } else {
        let earlier = frames.drop_last();
        lemma_backlog_is_newest(state, earlier, id);
        let before = state.publish_all(earlier);
        lemma_publish(before, frames.last(), id);
        lemma_keep_newest_push(state.backlog(id) + earlier, frames.last(), state.bound);
        assert((state.backlog(id) + earlier).push(frames.last()) =~= state.backlog(id) + frames);
    }
}

/// A reader that keeps up misses nothing, whatever the others do: a
/// subscriber with an empty backlog that reads after every publication is
/// handed each frame, in order, and ends with an empty backlog again. This
/// holds with any number of other subscribers, however full their backlogs
/// are.
pub proof fn lemma_active_reader_misses_nothing(
    state: DistributorState,
    id: int,
    frames: Seq<Seq<u8>>,
)
    requires
        state.wf(),
        state.is_subscribed(id),
        state.backlog(id).len() == 0,
    ensures
        state.relay(id, frames).wf(),
        state.relay(id, frames).is_subscribed(id),
        state.relay(id, frames).backlog(id).len() == 0,
        state.relayed(id, frames).len() == frames.len(),
        forall|k: int|
            0 <= k < frames.len() ==> (#[trigger] state.relayed(id, frames)[k]) == Some(frames[k]),
    decreases frames.len(),
{
    if frames.len() > 0 {
        let earlier = frames.drop_last();
        lemma_active_reader_misses_nothing(state, id, earlier);
        let before = state.relay(id, earlier);
        lemma_publish(before, frames.last(), id);
        let published = before.publish(frames.last());
        assert(before.backlog(id).push(frames.last()) =~= seq![frames.last()]);
        lemma_receive(published, id, id);
        assert(seq![frames.last()].drop_first() =~= Seq::<Seq<u8>>::empty());
    }
}

/// A reader does not disturb the others: while one subscriber reads after
/// every publication, every other subscriber ends up holding what it would
/// hold had nobody read at all.
pub proof fn lemma_reader_leaves_others_alone(
    state: DistributorState,
    reader: int,
    other: int,
    frames: Seq<Seq<u8>>,
)
    requires
        state.wf(),
        state.is_subscribed(other),
        other != reader,
    ensures
        state.relay(reader, frames).wf(),
        state.relay(reader, frames).is_subscribed(other),
        state.relay(reader, frames).backlog(other) == state.publish_all(frames).backlog(other),
    decreases frames.len(),
{
    if frames.len() > 0 {
        let earlier = frames.drop_last();
        lemma_reader_leaves_others_alone(state, reader, other, earlier);
        lemma_backlog_is_newest(state, earlier, other);
        let relayed = state.relay(reader, earlier);
        let plain = state.publish_all(earlier);
        lemma_publish(relayed, frames.last(), other);
        lemma_publish(plain, frames.last(), other);
        lemma_receive(relayed.publish(frames.last()), reader, other);
        lemma_relay_keeps_bound(state, reader, earlier);
    }
}

/// Neither publishing nor reading changes the bound.
pub proof fn lemma_relay_keeps_bound(state: DistributorState, reader: int, frames: Seq<Seq<u8>>)
    ensures
        state.relay(reader, frames).bound == state.bound,
        state.publish_all(frames).bound == state.bound,
    decreases frames.len(),
{
    if frames.len() > 0 {
        lemma_relay_keeps_bound(state, reader, frames.drop_last());
    }
}


/// The handle of one subscriber. It is given out by `Distributor::subscribe`
/// and given back to `Distributor::unsubscribe`.
#[derive(Debug)]
pub struct Subscription {
    id: u64,
}

impl Subscription {
    /// The subscriber's identifier.
    pub closed spec fn spec_id(&self) -> int {
        self.id as int
    }

    /// The subscriber's identifier.
    pub fn id(&self) -> (id: u64)
        ensures
            id == self.spec_id(),
    {
        self.id
    }
}

struct Subscriber {
    id: u64,
    backlog: VecDeque<SpectrumFrame>,
}

impl View for Subscriber {
    type V = SubscriberState;

    closed spec fn view(&self) -> SubscriberState {
        SubscriberState {
            id: self.id as int,
            backlog: Seq::new(self.backlog@.len(), |i: int| self.backlog@[i]@),
        }
    }
}

impl Subscriber {
    fn offer(&mut self, frame: SpectrumFrame, bound: usize)
        requires
            bound >= 1,
            old(self)@.backlog.len() <= bound,
        ensures
            final(self)@ == old(self)@.offer(frame@, bound as int),
            final(self)@.backlog.len() <= bound,
    {
        if self.backlog.len() >= bound {
            let _oldest: Option<SpectrumFrame> = self.backlog.pop_front();
        }
        self.backlog.push_back(frame);
        assert(self@.backlog =~= old(self)@.offer(frame@, bound as int).backlog);
    }

    fn advance(&mut self) -> (frame: Option<SpectrumFrame>)
        ensures
            final(self)@ == old(self)@.advance(),
            match frame {
                Some(f) => old(self)@.backlog.len() > 0 && f@ == old(self)@.backlog.first(),
                None => old(self)@.backlog.len() == 0,
            },
    {
        let frame: Option<SpectrumFrame> = self.backlog.pop_front();
        assert(self@.backlog =~= old(self)@.advance().backlog);
        frame
    }
}

/// Hands each published frame to every current subscriber.
pub struct Distributor {
    bound: usize,
    next_id: u64,
    subscribers: Vec<Subscriber>,
}

impl View for Distributor {
    type V = DistributorState;

    closed spec fn view(&self) -> DistributorState {
        DistributorState {
            bound: self.bound as int,
            next_id: self.next_id as int,
            subscribers: Seq::new(self.subscribers@.len(), |i: int| self.subscribers@[i]@),
        }
    }
}

impl Distributor {
    /// The model is well formed.
    pub open spec fn wf(&self) -> bool {
        self@.wf()
    }

    /// A distributor without subscribers, whose backlogs will hold up to
    /// `bound` frames each. A bound of zero is refused.
    pub fn new(bound: usize) -> (r: Result<Distributor, ConfigError>)
        ensures
            r is Ok <==> bound >= 1,
            r matches Ok(d) ==> d.wf() && d@ == DistributorState::initial(bound as int),
            r matches Err(fault) ==> fault == ConfigError::ZeroBacklog,
    {
        if bound == 0 {
            return Err(ConfigError::ZeroBacklog);
        }
        let d = Distributor { bound, next_id: 0, subscribers: Vec::new() };
        assert(d@.subscribers == Seq::<SubscriberState>::empty());
        Ok(d)
    }

    /// Most frames that wait for one subscriber.
    pub fn bound(&self) -> (bound: usize)
        ensures
            bound == self@.bound,
    {
        self.bound
    }

    /// Number of current subscribers.
    pub fn subscriber_count(&self) -> (n: usize)
        ensures
            n == self@.subscribers.len(),
    {
        self.subscribers.len()
    }

    fn find(&self, id: u64) -> (r: Option<usize>)
        requires
            self.wf(),
        ensures
            r is Some <==> self@.is_subscribed(id as int),
            r matches Some(i) ==> i == self@.index_of(id as int) && i < self.subscribers@.len()
                && self.subscribers@[i as int].id == id,
    {
        let mut i: usize = 0;
        while i < self.subscribers.len()
            invariant
                self.wf(),
                i <= self.subscribers@.len(),
                forall|j: int| 0 <= j < i ==> (#[trigger] self@.subscribers[j]).id != id,
            decreases self.subscribers@.len() - i,
        {
            if self.subscribers[i].id == id {
                proof {
                    lemma_index_of(self@, i as int);
                }
                return Some(i);
            }
            i += 1;
        }
        None
    }

    /// Adds a subscriber with an empty backlog and gives out its handle.
    /// Frames published before are not handed to it. Gives `None`, and
    /// changes nothing, only where every identifier has been used.
    pub fn subscribe(&mut self) -> (r: Option<Subscription>)
        requires
            old(self).wf(),
        ensures
            final(self).wf(),
            r is Some <==> old(self)@.next_id < u64::MAX,
            r matches Some(handle) ==> {
                &&& handle.spec_id() == old(self)@.next_id
                &&& final(self)@ == old(self)@.subscribe()
            },
            r is None ==> final(self)@ == old(self)@,
    {
        if self.next_id == u64::MAX {
            return None;
        }
        let id: u64 = self.next_id;
        self.subscribers.push(Subscriber { id, backlog: VecDeque::new() });
        self.next_id = id + 1;
        proof {
            let added = self.subscribers@[self.subscribers@.len() - 1];
            assert(added@.backlog =~= Seq::<Seq<u8>>::empty());
            assert(self@.subscribers =~= old(self)@.subscribe().subscribers);
        }
        Some(Subscription { id })
    }

    /// Removes the subscriber that `handle` names, with whatever waited for
    /// it. Says whether there was such a subscriber.
    pub fn unsubscribe(&mut self, handle: Subscription) -> (was_subscribed: bool)
        requires
            old(self).wf(),
        ensures
            final(self).wf(),
            was_subscribed == old(self)@.is_subscribed(handle.spec_id()),
            final(self)@ == old(self)@.unsubscribe(handle.spec_id()),
    {
        match self.find(handle.id) {
            None => false,
            Some(i) => {
                let _gone: Subscriber = self.subscribers.remove(i);
                assert(self@.subscribers =~= old(self)@.subscribers.remove(i as int));
                true
            },
        }
    }

    /// Hands `frame` to every current subscriber and says to how many. With no
    /// subscriber the frame is dropped and nothing changes.
    pub fn publish(&mut self, frame: SpectrumFrame) -> (delivered: usize)
        requires
            old(self).wf(),
        ensures
            final(self).wf(),
            final(self)@ == old(self)@.publish(frame@),
            delivered == old(self)@.subscribers.len(),
    {
        let bound: usize = self.bound;
        let n: usize = self.subscribers.len();
        let mut i: usize = 0;
        while i < n
            invariant
                i <= n,
                n == self.subscribers@.len(),
                n == old(self).subscribers@.len(),
                bound == self.bound,
                self.bound == old(self).bound,
                self.next_id == old(self).next_id,
                old(self).wf(),
                forall|j: int|
                    0 <= j < i ==> (#[trigger] self.subscribers@[j])@ == old(
                        self,
                    ).subscribers@[j]@.offer(frame@, bound as int),
                forall|j: int|
                    i <= j < n ==> (#[trigger] self.subscribers@[j]) == old(self).subscribers@[j],
            decreases n - i,
        {
            let copy: SpectrumFrame = frame.duplicate();
            assert(old(self)@.subscribers[i as int].backlog.len() <= bound);
            self.subscribers[i].offer(copy, bound);
            i += 1;
        }
        assert(self@.subscribers =~= old(self)@.publish(frame@).subscribers);
        assert(self@.wf()) by {
            assert forall|j: int| 0 <= j < self@.subscribers.len() implies {
                &&& (#[trigger] self@.subscribers[j]).backlog.len() <= self@.bound
                &&& 0 <= self@.subscribers[j].id < self@.next_id
            } by {
                assert(self@.subscribers[j] == old(self)@.subscribers[j].offer(
                    frame@,
                    bound as int,
                ));
            }
            assert forall|a: int, b: int| 0 <= a < b < self@.subscribers.len() implies (
            #[trigger] self@.subscribers[a]).id != (#[trigger] self@.subscribers[b]).id by {
                assert(self@.subscribers[a].id == old(self)@.subscribers[a].id);
                assert(self@.subscribers[b].id == old(self)@.subscribers[b].id);
            }
        }
        n
    }

    /// Takes the oldest frame that waits for the subscriber that `handle`
    /// names. Gives `None` where nothing waits, or where there is no such
    /// subscriber.
    pub fn receive(&mut self, handle: &Subscription) -> (frame: Option<SpectrumFrame>)
        requires
            old(self).wf(),
        ensures
            final(self).wf(),
            final(self)@ == old(self)@.receive(handle.spec_id()),
            match frame {
                Some(f) => old(self)@.next_frame(handle.spec_id()) == Some(f@),
                None => old(self)@.next_frame(handle.spec_id()) is None,
            },
    {
        match self.find(handle.id) {
            None => None,
            Some(i) => {
                let frame: Option<SpectrumFrame> = self.subscribers[i].advance();
                assert(self@.subscribers =~= old(self)@.receive(handle.spec_id()).subscribers);
                frame
            },
        }
    }

    /// Number of frames that wait for the subscriber that `handle` names.
    pub fn waiting(&self, handle: &Subscription) -> (n: usize)
        requires
            self.wf(),
        ensures
            n == self@.backlog(handle.spec_id()).len(),
    {
        match self.find(handle.id) {
            None => 0,
            Some(i) => self.subscribers[i].backlog.len(),
        }
    }
}

} // verus!
