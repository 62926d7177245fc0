//! One topic: a last-value cache and a multicast buffer. Each subscriber has
//! room for `CAPACITY` pending payloads; when a publish finds a subscriber's
//! room full, that subscriber's oldest pending payload is dropped and a missed
//! count grows, which the subscriber sees on its next receive.
use vstd::prelude::*;

verus! {

/// How many published payloads may wait for one subscriber.
pub const CAPACITY: usize = 32;

/// What one subscriber has: its id, the payloads waiting for it, oldest
/// first, and how many it has missed since its last receive.
pub ghost struct SubscriberView {
    pub id: u64,
    pub pending: Seq<Seq<u8>>,
    pub missed: u64,
}

/// What a topic holds: the cached payload, the subscribers in the order they
/// joined, and the id that the next subscriber gets.
pub ghost struct TopicView {
    pub latest: Option<Seq<u8>>,
    pub subscribers: Seq<SubscriberView>,
    pub next_id: u64,
}

/// What one receive attempt observes.
pub ghost enum ReceivedView {
    Message(Seq<u8>),
    Lagged(u64),
    Empty,
    Closed,
}

/// What one receive attempt hands back.
pub enum Received {
    /// The oldest payload that was waiting.
    Message(Vec<u8>),
    /// This many payloads were dropped for this subscriber since it last received.
    Lagged(u64),
    /// Nothing is waiting.
    Empty,
    /// No such subscriber: it was cancelled, or never existed.
    Closed,
}

impl View for Received {
    type V = ReceivedView;

    open spec fn view(&self) -> ReceivedView {
        match self {
            Received::Message(p) => ReceivedView::Message(p@),
            Received::Lagged(n) => ReceivedView::Lagged(*n),
            Received::Empty => ReceivedView::Empty,
            Received::Closed => ReceivedView::Closed,
        }
    }
}

pub open spec fn bump(n: u64) -> u64 {
    if n < u64::MAX {
        (n + 1) as u64
    } else {
        n
    }
}

/// One publish as one subscriber sees it: the payload joins the end of its
/// pending payloads; if there was no room, the oldest one is dropped first.
pub open spec fn deliver(s: SubscriberView, p: Seq<u8>) -> SubscriberView {
    if s.pending.len() < CAPACITY {
        SubscriberView { pending: s.pending.push(p), ..s }
    } else {
        SubscriberView { pending: s.pending.drop_first().push(p), missed: bump(s.missed), ..s }
    }
}

/// How many of the subscribers have room for one more payload.
pub open spec fn spare_count(subs: Seq<SubscriberView>) -> nat
    decreases subs.len(),
{
    if subs.len() == 0 {
        0
    } else {
        spare_count(subs.drop_last()) + if subs.last().pending.len() < CAPACITY {
            1nat
        } else {
            0nat
        }
    }
}

pub open spec fn empty_topic() -> TopicView {
    TopicView { latest: None, subscribers: Seq::empty(), next_id: 0 }
}

/// A publish: the cache holds the payload and every subscriber receives it.
pub open spec fn publish_spec(t: TopicView, p: Seq<u8>) -> TopicView {
    TopicView {
        latest: Some(p),
        subscribers: t.subscribers.map_values(|s: SubscriberView| deliver(s, p)),
        next_id: t.next_id,
    }
}

/// A new subscriber, with nothing pending and nothing missed.
pub open spec fn subscribe_spec(t: TopicView) -> TopicView {
    TopicView {
        subscribers: t.subscribers.push(
            SubscriberView { id: t.next_id, pending: Seq::empty(), missed: 0 },
        ),
        next_id: (t.next_id + 1) as u64,
        ..t
    }
}

pub open spec fn has_subscriber(t: TopicView, id: u64) -> bool {
    exists|i: int| 0 <= i < t.subscribers.len() && #[trigger] t.subscribers[i].id == id
}

/// Where the subscriber with this id stands.
pub open spec fn index_of(t: TopicView, id: u64) -> int {
    choose|i: int| 0 <= i < t.subscribers.len() && #[trigger] t.subscribers[i].id == id
}

/// The subscriber leaves; a topic without it is unchanged.
pub open spec fn unsubscribe_spec(t: TopicView, id: u64) -> TopicView {
    if has_subscriber(t, id) {
        TopicView { subscribers: t.subscribers.remove(index_of(t, id)), ..t }
    } else {
        t
    }
}

/// A receive: a missed count is reported (and cleared) before anything
/// else; then the oldest pending payload is taken.
pub open spec fn receive_spec(t: TopicView, id: u64) -> (TopicView, ReceivedView) {
    if !has_subscriber(t, id) {
        (t, ReceivedView::Closed)
    } else {
        let i = index_of(t, id);
        let s = t.subscribers[i];
        if s.missed > 0 {
            (
                TopicView { subscribers: t.subscribers.update(i, SubscriberView { missed: 0, ..s }), ..t },
                ReceivedView::Lagged(s.missed),
            )
        } else if s.pending.len() == 0 {
            (t, ReceivedView::Empty)
        } else {
            (
                TopicView {
                    subscribers: t.subscribers.update(
                        i,
                        SubscriberView { pending: s.pending.drop_first(), ..s },
                    ),
                    ..t
                },
                ReceivedView::Message(s.pending[0]),
            )
        }
    }
}

/// Ids are distinct and below the next id; no subscriber holds more than
/// `CAPACITY` pending payloads.
pub open spec fn topic_wf(t: TopicView) -> bool {
    &&& forall|i: int|
        0 <= i < t.subscribers.len() ==> (#[trigger] t.subscribers[i]).id < t.next_id
            && t.subscribers[i].pending.len() <= CAPACITY
    &&& forall|i: int, j: int|
        0 <= i < t.subscribers.len() && 0 <= j < t.subscribers.len() && i != j
            ==> #[trigger] t.subscribers[i].id != #[trigger] t.subscribers[j].id
}

pub struct Subscriber {
    id: u64,
    pending: Vec<Vec<u8>>,
    missed: u64,
}

impl View for Subscriber {
    type V = SubscriberView;

    closed spec fn view(&self) -> SubscriberView {
        SubscriberView { id: self.id, pending: self.pending@.map_values(|v: Vec<u8>| v@), missed: self.missed }
    }
}

impl Subscriber {
    /// Takes one published payload; true when there was room for it.
    fn deliver(&mut self, p: Vec<u8>) -> (r: bool)
        requires
            old(self)@.pending.len() <= CAPACITY,
        ensures
            final(self)@ == deliver(old(self)@, p@),
            r == (old(self)@.pending.len() < CAPACITY),
    {
        let room = self.pending.len() < CAPACITY;
        if !room {
            self.pending.remove(0);
            if self.missed < u64::MAX {
                self.missed = self.missed + 1;
            }
        }
        self.pending.push(p);
        proof {
            let s = old(self)@;
            if room {
                assert(self@.pending =~= s.pending.push(p@));
            } else {
                assert(self@.pending =~= s.pending.drop_first().push(p@));
            }
        }
        room
    }
}

/// A topic: the most recently published payload and the subscribers.
pub struct Topic {
    latest: Option<Vec<u8>>,
    subscribers: Vec<Subscriber>,
    next_id: u64,
}

pub open spec fn opt_bytes(o: Option<Vec<u8>>) -> Option<Seq<u8>> {
    match o {
        Some(v) => Some(v@),
        None => None,
    }
}

impl View for Topic {
    type V = TopicView;

    closed spec fn view(&self) -> TopicView {
        TopicView {
            latest: opt_bytes(self.latest),
            subscribers: self.subscribers@.map_values(|s: Subscriber| s@),
            next_id: self.next_id,
        }
    }
}

fn copy_bytes(p: &Vec<u8>) -> (r: Vec<u8>)
    ensures
        r@ == p@,
{
    let mut r: Vec<u8> = Vec::with_capacity(p.len());
    let mut i: usize = 0;
    while i < p.len()
        invariant
            i <= p@.len(),
            r@ == p@.subrange(0, i as int),
        decreases p@.len() - i,
    {
        r.push(p[i]);
        i += 1;
    }
    r
}

impl Topic {
    pub open spec fn wf(&self) -> bool {
        topic_wf(self@)
    }

    /// A topic with an empty cache and no subscribers.
    pub fn new() -> (r: Topic)
        ensures
            r@ == empty_topic(),
            r.wf(),
    {
        let r = Topic { latest: None, subscribers: Vec::new(), next_id: 0 };
        assert(r@.subscribers =~= Seq::<SubscriberView>::empty());
        r
    }

    /// The cached payload: the one most recently published, if any.
    pub fn latest(&self) -> (r: Option<Vec<u8>>)
        ensures
            opt_bytes(r) == self@.latest,
    {
        match &self.latest {
            Some(p) => Some(copy_bytes(p)),
            None => None,
        }
    }
}

impl Topic {
    /// Caches the payload and offers it to every subscriber; returns how many
    /// had room for it. Subscribers without room lose their oldest pending
    /// payload instead of holding up the publish.
    pub fn send(&mut self, payload: Vec<u8>) -> (r: usize)
        requires
            old(self).wf(),
        ensures
            final(self).wf(),
            final(self)@ == publish_spec(old(self)@, payload@),
            r == spare_count(old(self)@.subscribers),
    {
        let ghost t0 = self@;
        self.latest = Some(copy_bytes(&payload));
        let n = self.subscribers.len();
        let mut count: usize = 0;
        let mut i: usize = 0;
        while i < n
            invariant
                n == self.subscribers@.len(),
                n == t0.subscribers.len(),
                i <= n,
                topic_wf(t0),
                self.next_id == t0.next_id,
                opt_bytes(self.latest) == Some(payload@),
                forall|j: int| 0 <= j < i ==> #[trigger] self.subscribers@[j]@ == deliver(t0.subscribers[j], payload@),
                forall|j: int| i <= j < n ==> #[trigger] self.subscribers@[j]@ == t0.subscribers[j],
                count == spare_count(t0.subscribers.subrange(0, i as int)),
                count <= i,
            decreases n - i,
        {
            proof {
                assert(self.subscribers@[i as int]@ == t0.subscribers[i as int]);
                assert(t0.subscribers.subrange(0, i + 1).drop_last() =~= t0.subscribers.subrange(0, i as int));
            }
            let p = copy_bytes(&payload);
            let room = self.subscribers[i].deliver(p);
            if room {
                count = count + 1;
            }
            i = i + 1;
        }
        proof {
            assert(t0.subscribers.subrange(0, n as int) =~= t0.subscribers);
            assert(self@.subscribers =~= t0.subscribers.map_values(|s: SubscriberView| deliver(s, payload@)));
        }
        count
    }

    /// Where the subscriber with this id stands, if it is there.
    fn position(&self, id: u64) -> (r: Option<usize>)
        requires
            self.wf(),
        ensures
            match r {
                Some(i) => has_subscriber(self@, id) && i as int == index_of(self@, id)
                    && i < self@.subscribers.len(),
                None => !has_subscriber(self@, id),
            },
    {
        let mut i: usize = 0;
        while i < self.subscribers.len()
            invariant
                self.wf(),
                i <= self.subscribers@.len(),
                forall|j: int| 0 <= j < i ==> #[trigger] self@.subscribers[j].id != id,
            decreases self.subscribers@.len() - i,
        {
            if self.subscribers[i].id == id {
                proof {
                    assert(self@.subscribers[i as int].id == id);
                    assert(has_subscriber(self@, id));
                    let k = index_of(self@, id);
                    assert(0 <= k < self@.subscribers.len() && self@.subscribers[k].id == id);
                    assert(topic_wf(self@));
                    assert(k == i as int);
                }
                return Some(i);
            }
            i = i + 1;
        }
        None
    }

    /// Adds a subscriber that receives every payload published from now on,
    /// and returns its id; `None` only once every id has been handed out.
    pub fn subscribe(&mut self) -> (r: Option<u64>)
        requires
            old(self).wf(),
        ensures
            final(self).wf(),
            old(self)@.next_id == u64::MAX ==> r is None && final(self)@ == old(self)@,
            old(self)@.next_id < u64::MAX ==> r == Some(old(self)@.next_id)
                && final(self)@ == subscribe_spec(old(self)@),
    {
        if self.next_id == u64::MAX {
            return None;
        }
        let id = self.next_id;
        self.subscribers.push(Subscriber { id, pending: Vec::new(), missed: 0 });
        self.next_id = id + 1;
        proof {
            let s = self.subscribers@.last();
            assert(s@.pending =~= Seq::<Seq<u8>>::empty());
            assert(self@.subscribers =~= subscribe_spec(old(self)@).subscribers);
        }
        Some(id)
    }

    /// Removes the subscriber with this id; true when it was there. Nothing
    /// reaches it afterwards.
    pub fn unsubscribe(&mut self, id: u64) -> (r: bool)
        requires
            old(self).wf(),
        ensures
            final(self).wf(),
            final(self)@ == unsubscribe_spec(old(self)@, id),
            r == has_subscriber(old(self)@, id),
    {
        match self.position(id) {
            None => false,
            Some(i) => {
                self.subscribers.remove(i);
                proof {
                    assert(self@.subscribers =~= old(self)@.subscribers.remove(i as int));
                }
                true
            },
        }
    }

    /// One receive attempt by the subscriber with this id: first a missed
    /// count if payloads were dropped for it, else its oldest pending payload.
    pub fn receive(&mut self, id: u64) -> (r: Received)
        requires
            old(self).wf(),
        ensures
            final(self).wf(),
            (final(self)@, r@) == receive_spec(old(self)@, id),
    {
        match self.position(id) {
            None => Received::Closed,
            Some(i) => {
                let ghost t0 = self@;
                let missed = self.subscribers[i].missed;
                if missed > 0 {
                    self.subscribers[i].missed = 0;
                    proof {
                        assert(self@.subscribers =~= t0.subscribers.update(
                            i as int,
                            SubscriberView { missed: 0, ..t0.subscribers[i as int] },
                        ));
                    }
                    Received::Lagged(missed)
                } else if self.subscribers[i].pending.len() == 0 {
                    Received::Empty
                } else {
                    let p = self.subscribers[i].pending.remove(0);
                    proof {
                        let s = t0.subscribers[i as int];
                        assert(self@.subscribers[i as int].pending =~= s.pending.drop_first());
                        assert(self@.subscribers =~= t0.subscribers.update(
                            i as int,
                            SubscriberView { pending: s.pending.drop_first(), ..s },
                        ));
                    }
                    Received::Message(p)
                }
            },
        }
    }
}

impl Default for Topic {
    fn default() -> (r: Topic)
        ensures
            r@ == empty_topic(),
            r.wf(),
    {
        Topic::new()
    }
}

} // verus!
