//! The topic registry: each name refers to one topic, created the first
//! time the name is used and kept for as long as the registry lives.
use crate::keyed::{entries_of, keyed_get, keyed_insert, keyed_new};
use crate::topic::{
    empty_topic, opt_bytes, publish_spec, spare_count, has_subscriber, topic_wf, receive_spec, subscribe_spec, unsubscribe_spec, Received, Topic,
    TopicView,
};
use dashmap::DashMap;
use vstd::prelude::*;

verus! {

/// The registry: topic names, compared character by character, each with
/// the topic it refers to.
pub struct Db {
    index: DashMap<String, u64>,
    names: Vec<String>,
    topics: Vec<Topic>,
}

/// A subscription as the registry hands it out: the topic it listens to and
/// its id among that topic's subscribers.
pub struct Subscription {
    pub topic: String,
    pub id: u64,
}

/// The registry with a topic created for `name` if it had none.
pub open spec fn with_topic(m: Map<Seq<char>, TopicView>, name: Seq<char>) -> Map<Seq<char>, TopicView> {
    if m.contains_key(name) {
        m
    } else {
        m.insert(name, empty_topic())
    }
}

/// The topic of `name`, or a new one where the name was never used.
pub open spec fn topic_of(m: Map<Seq<char>, TopicView>, name: Seq<char>) -> TopicView {
    if m.contains_key(name) {
        m[name]
    } else {
        empty_topic()
    }
}

impl View for Db {
    type V = Map<Seq<char>, TopicView>;

    closed spec fn view(&self) -> Map<Seq<char>, TopicView> {
        Map::new(
            |k: Seq<char>| entries_of(self.index).contains_key(k),
            |k: Seq<char>| self.topics@[entries_of(self.index)[k] as int]@,
        )
    }
}

impl Db {
    /// Each name's slot holds its topic and the same name; each slot is named.
    pub closed spec fn wf(&self) -> bool {
        let e = entries_of(self.index);
        &&& self.names@.len() == self.topics@.len()
        &&& forall|k: Seq<char>|
            #[trigger] e.contains_key(k) ==> (e[k] as int) < self.topics@.len()
                && self.names@[e[k] as int]@ == k
        &&& forall|i: int|
            0 <= i < self.topics@.len() ==> e.contains_key((#[trigger] self.names@[i])@)
                && e[self.names@[i]@] as int == i
        &&& forall|i: int| 0 <= i < self.topics@.len() ==> (#[trigger] self.topics@[i]).wf()
    }

    /// Every topic of a well-formed registry is well formed.
    pub proof fn lemma_topics_wf(&self)
        requires
            self.wf(),
        ensures
            forall|k: Seq<char>| #[trigger] self@.contains_key(k) ==> topic_wf(self@[k]),
    {
        assert forall|k: Seq<char>| #[trigger] self@.contains_key(k) implies topic_wf(self@[k]) by {
            let e = entries_of(self.index);
            assert(self.topics@[e[k] as int].wf());
        }
    }

    /// A registry that knows no name.
    pub fn new() -> (r: Db)
        ensures
            r.wf(),
            r@ == Map::<Seq<char>, TopicView>::empty(),
    {
        let r = Db { index: keyed_new(), names: Vec::new(), topics: Vec::new() };
        assert(r@ =~= Map::<Seq<char>, TopicView>::empty());
        r
    }

    /// The slot of `name`'s topic, which is created, empty, where the name
    /// was never used. Calls with one name always reach the same topic.
    fn slot(&mut self, name: &str) -> (r: usize)
        requires
            old(self).wf(),
        ensures
            final(self).wf(),
            final(self)@ == with_topic(old(self)@, name@),
            r < final(self).topics@.len(),
            entries_of(final(self).index).contains_key(name@),
            entries_of(final(self).index)[name@] as int == r as int,
    {
        match keyed_get(&self.index, name) {
            Some(j) => {
                assert(entries_of(self.index).contains_key(name@));
                assert(self@ =~= with_topic(old(self)@, name@));
                let n = self.topics.len();
                assert((j as int) < n);
                j as usize
            },
            None => {
                let ghost old_db = self@;
                let n = self.topics.len();
                assert(n <= u64::MAX);
                self.topics.push(Topic::new());
                self.names.push(name.to_owned());
                keyed_insert(&mut self.index, name.to_owned(), n as u64);
                proof {
                    let e = entries_of(self.index);
                    assert forall|k: Seq<char>| #[trigger] e.contains_key(k) implies (e[k] as int)
                        < self.topics@.len() && self.names@[e[k] as int]@ == k by {
                        if k != name@ {
                            assert(entries_of(old(self).index).contains_key(k));
                        }
                    }
                    assert forall|i: int| 0 <= i < self.topics@.len() implies e.contains_key(
                        (#[trigger] self.names@[i])@,
                    ) && e[self.names@[i]@] as int == i by {
                        if i < n {
                            assert(old(self).names@[i] == self.names@[i]);
                        }
                    }
                    assert forall|i: int| 0 <= i < self.topics@.len() implies (
                    #[trigger] self.topics@[i]).wf() by {
                        if i < n {
                            assert(old(self).topics@[i] == self.topics@[i]);
                        }
                    }
                    assert(self@ =~= old_db.insert(name@, empty_topic()));
                }
                n
            },
        }
    }

    /// What stays true of the registry when one slot's topic alone changes.
    proof fn lemma_slot_changed(a: &Db, b: &Db, i: int, name: Seq<char>)
        requires
            a.wf(),
            b.index == a.index,
            b.names@ == a.names@,
            b.topics@.len() == a.topics@.len(),
            0 <= i < a.topics@.len(),
            entries_of(a.index).contains_key(name),
            entries_of(a.index)[name] as int == i,
            forall|j: int| 0 <= j < a.topics@.len() && j != i ==> b.topics@[j] == a.topics@[j],
            b.topics@[i].wf(),
        ensures
            b.wf(),
            b@ == a@.insert(name, b.topics@[i]@),
    {
        let e = entries_of(a.index);
        assert forall|j: int| 0 <= j < b.topics@.len() implies (#[trigger] b.topics@[j]).wf() by {
            if j != i {
                assert(a.topics@[j].wf());
            }
        }
        assert forall|k: Seq<char>| #[trigger] b@.contains_key(k) == a@.insert(name, b.topics@[i]@).contains_key(k)
            && (b@.contains_key(k) ==> b@[k] == a@.insert(name, b.topics@[i]@)[k]) by {
            if e.contains_key(k) && k != name {
                assert(a.names@[e[k] as int]@ == k);
                assert(e[k] as int != i);
            }
        }
        assert(b@ =~= a@.insert(name, b.topics@[i]@));
    }

    /// The topic of `name`, created where the name was never used.
    pub fn get(&mut self, name: &str) -> (r: &Topic)
        requires
            old(self).wf(),
        ensures
            final(self).wf(),
            final(self)@ == with_topic(old(self)@, name@),
            r@ == final(self)@[name@],
            r.wf(),
    {
        let i = self.slot(name);
        &self.topics[i]
    }

    /// Caches the payload as `name`'s latest and offers it to each of its
    /// subscribers; returns how many had room for it (0 where none listens).
    pub fn publish(&mut self, name: &str, payload: Vec<u8>) -> (r: usize)
        requires
            old(self).wf(),
        ensures
            final(self).wf(),
            final(self)@ == old(self)@.insert(
                name@,
                publish_spec(topic_of(old(self)@, name@), payload@),
            ),
            r == spare_count(topic_of(old(self)@, name@).subscribers),
    {
        let i = self.slot(name);
        let ghost mid = *self;
        assert(mid@.contains_key(name@));
        assert(mid@[name@] == mid.topics@[i as int]@);
        assert(mid@[name@] == topic_of(old(self)@, name@));
        assert(mid.topics@[i as int]@ == topic_of(old(self)@, name@));
        let r = self.topics[i].send(payload);
        proof {
            Db::lemma_slot_changed(&mid, self, i as int, name@);
            assert(with_topic(old(self)@, name@).insert(name@, self.topics@[i as int]@)
                =~= old(self)@.insert(name@, self.topics@[i as int]@));
        }
        r
    }

    /// The payload most recently published to `name`, if any. Looking does
    /// not create the topic.
    pub fn latest(&self, name: &str) -> (r: Option<Vec<u8>>)
        requires
            self.wf(),
        ensures
            opt_bytes(r) == topic_of(self@, name@).latest,
    {
        match keyed_get(&self.index, name) {
            Some(j) => {
                assert(entries_of(self.index).contains_key(name@));
                let n = self.topics.len();
                assert((j as int) < n);
                self.topics[j as usize].latest()
            },
            None => None,
        }
    }

    /// A new subscription to `name`, which receives every payload published
    /// there from now on; `None` only once the topic has handed out every id.
    pub fn subscribe(&mut self, name: &str) -> (r: Option<Subscription>)
        requires
            old(self).wf(),
        ensures
            final(self).wf(),
            ({
                let t = topic_of(old(self)@, name@);
                if t.next_id < u64::MAX {
                    &&& r matches Some(s) && s.topic@ == name@ && s.id == t.next_id
                    &&& final(self)@ == old(self)@.insert(name@, subscribe_spec(t))
                } else {
                    r is None && final(self)@ == with_topic(old(self)@, name@)
                }
            }),
    {
        let i = self.slot(name);
        let ghost mid = *self;
        assert(mid@.contains_key(name@));
        assert(mid@[name@] == mid.topics@[i as int]@);
        assert(mid@[name@] == topic_of(old(self)@, name@));
        assert(mid.topics@[i as int]@ == topic_of(old(self)@, name@));
        match self.topics[i].subscribe() {
            None => None,
            Some(id) => {
                proof {
                    Db::lemma_slot_changed(&mid, self, i as int, name@);
                    assert(with_topic(old(self)@, name@).insert(name@, self.topics@[i as int]@)
                        =~= old(self)@.insert(name@, self.topics@[i as int]@));
                }
                Some(Subscription { topic: name.to_owned(), id })
            },
        }
    }

    /// Ends a subscription: its topic no longer offers it anything. True
    /// when it was open.
    pub fn unsubscribe(&mut self, sub: &Subscription) -> (r: bool)
        requires
            old(self).wf(),
        ensures
            final(self).wf(),
            old(self)@.contains_key(sub.topic@) ==> final(self)@ == old(self)@.insert(
                sub.topic@,
                unsubscribe_spec(old(self)@[sub.topic@], sub.id),
            ) && r == has_subscriber(old(self)@[sub.topic@], sub.id),
            !old(self)@.contains_key(sub.topic@) ==> final(self)@ == old(self)@ && !r,
    {
        match keyed_get(&self.index, sub.topic.as_str()) {
            Some(j) => {
                assert(entries_of(self.index).contains_key(sub.topic@));
                let n = self.topics.len();
                assert((j as int) < n);
                let ghost mid = *self;
                let r = self.topics[j as usize].unsubscribe(sub.id);
                proof {
                    Db::lemma_slot_changed(&mid, self, j as int, sub.topic@);
                }
                r
            },
            None => false,
        }
    }

    /// One receive attempt on a subscription: a missed count first if
    /// payloads were dropped for it, else its oldest pending payload.
    pub fn receive(&mut self, sub: &Subscription) -> (r: Received)
        requires
            old(self).wf(),
        ensures
            final(self).wf(),
            old(self)@.contains_key(sub.topic@) ==> ({
                let (t, got) = receive_spec(old(self)@[sub.topic@], sub.id);
                final(self)@ == old(self)@.insert(sub.topic@, t) && r@ == got
            }),
            !old(self)@.contains_key(sub.topic@) ==> final(self)@ == old(self)@
                && r is Closed,
    {
        match keyed_get(&self.index, sub.topic.as_str()) {
            Some(j) => {
                assert(entries_of(self.index).contains_key(sub.topic@));
                let n = self.topics.len();
                assert((j as int) < n);
                let ghost mid = *self;
                let r = self.topics[j as usize].receive(sub.id);
                proof {
                    Db::lemma_slot_changed(&mid, self, j as int, sub.topic@);
                }
                r
            },
            None => Received::Closed,
        }
    }
}

impl Default for Db {
    fn default() -> (r: Db)
        ensures
            r.wf(),
            r@ == Map::<Seq<char>, TopicView>::empty(),
    {
        Db::new()
    }
}

} // verus!
