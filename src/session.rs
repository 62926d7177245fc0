//! Per-session subscription bookkeeping: a session holds at most one live
//! subscription per topic name. A new subscription to a name ends the one it
//! replaces in the same step, and closing the session ends them all.
use crate::db::{topic_of, Db, Subscription};
use crate::keyed::{entries_of, keyed_entries, keyed_insert, keyed_new, keyed_remove};
use crate::topic::{has_subscriber, subscribe_spec, topic_wf, unsubscribe_spec, TopicView};
use dashmap::DashMap;
use vstd::prelude::*;

verus! {

/// One session's live subscriptions: topic name to subscription id.
pub struct Session {
    subscriptions: DashMap<String, u64>,
}

/// The registry once the subscription `id` to `name`, if there is one, has
/// ended.
pub open spec fn cancel_spec(m: Map<Seq<char>, TopicView>, name: Seq<char>, id: Option<u64>) -> Map<Seq<char>, TopicView> {
    match id {
        Some(i) => if m.contains_key(name) {
            m.insert(name, unsubscribe_spec(m[name], i))
        } else {
            m
        },
        None => m,
    }
}

/// The registry once every subscription of a session has ended.
pub open spec fn cancel_all_spec(m: Map<Seq<char>, TopicView>, subs: Map<Seq<char>, u64>) -> Map<Seq<char>, TopicView> {
    Map::new(
        |k: Seq<char>| m.contains_key(k),
        |k: Seq<char>| if subs.contains_key(k) {
            unsubscribe_spec(m[k], subs[k])
        } else {
            m[k]
        },
    )
}

/// Ending one subscription twice is ending it once.
proof fn lemma_unsubscribe_twice(t: TopicView, id: u64)
    requires
        topic_wf(t),
    ensures
        unsubscribe_spec(unsubscribe_spec(t, id), id) == unsubscribe_spec(t, id),
        topic_wf(unsubscribe_spec(t, id)),
        !has_subscriber(unsubscribe_spec(t, id), id),
{
    if has_subscriber(t, id) {
        let k = crate::topic::index_of(t, id);
        let u = unsubscribe_spec(t, id);
        assert(u.subscribers == t.subscribers.remove(k));
        assert forall|i: int| 0 <= i < u.subscribers.len() implies #[trigger] u.subscribers[i].id != id by {
            if i < k {
                assert(u.subscribers[i] == t.subscribers[i]);
            } else {
                assert(u.subscribers[i] == t.subscribers[i + 1]);
            }
        }
        assert forall|i: int, j: int|
            0 <= i < u.subscribers.len() && 0 <= j < u.subscribers.len() && i != j
                implies #[trigger] u.subscribers[i].id != #[trigger] u.subscribers[j].id by {
            let ii = if i < k { i } else { i + 1 };
            let jj = if j < k { j } else { j + 1 };
            assert(u.subscribers[i] == t.subscribers[ii]);
            assert(u.subscribers[j] == t.subscribers[jj]);
        }
        assert forall|i: int| 0 <= i < u.subscribers.len() implies (#[trigger] u.subscribers[i]).id
            < u.next_id && u.subscribers[i].pending.len() <= crate::topic::CAPACITY by {
            let ii = if i < k { i } else { i + 1 };
            assert(u.subscribers[i] == t.subscribers[ii]);
        }
    }
}

impl View for Session {
    type V = Map<Seq<char>, u64>;

    closed spec fn view(&self) -> Map<Seq<char>, u64> {
        entries_of(self.subscriptions)
    }
}

impl Session {
    /// A session with no subscription.
    pub fn new() -> (r: Session)
        ensures
            r@ == Map::<Seq<char>, u64>::empty(),
    {
        let r = Session { subscriptions: keyed_new() };
        assert(r@ =~= Map::<Seq<char>, u64>::empty());
        r
    }

    /// The id of this session's live subscription to `name`, if any.
    pub fn subscription(&self, name: &str) -> (r: Option<u64>)
        ensures
            r == (if self@.contains_key(name@) {
                Some(self@[name@])
            } else {
                None
            }),
    {
        crate::keyed::keyed_get(&self.subscriptions, name)
    }

    /// Ends this session's subscription to `name`, if it has one, and
    /// subscribes it anew; the new subscription's id is returned and
    /// recorded. `None` (and no subscription left) only once the topic has
    /// handed out every id.
    pub fn replace_subscription(&mut self, db: &mut Db, name: &str) -> (r: Option<Subscription>)
        requires
            old(db).wf(),
        ensures
            final(db).wf(),
            ({
                let prior = if old(self)@.contains_key(name@) {
                    Some(old(self)@[name@])
                } else {
                    None
                };
                let m = cancel_spec(old(db)@, name@, prior);
                let t = topic_of(m, name@);
                if t.next_id < u64::MAX {
                    &&& r matches Some(s) && s.topic@ == name@ && s.id == t.next_id
                    &&& final(db)@ == m.insert(name@, subscribe_spec(t))
                    &&& final(self)@ == old(self)@.insert(name@, t.next_id)
                } else {
                    &&& r is None
                    &&& final(db)@ == crate::db::with_topic(m, name@)
                    &&& final(self)@ == old(self)@.remove(name@)
                }
            }),
    {
        let prior = keyed_remove(&mut self.subscriptions, name);
        if let Some(id) = prior {
            let old_sub = Subscription { topic: name.to_owned(), id };
            db.unsubscribe(&old_sub);
        }
        let fresh = db.subscribe(name);
        match fresh {
            Some(s) => {
                keyed_insert(&mut self.subscriptions, name.to_owned(), s.id);
                proof {
                    assert(entries_of(self.subscriptions) =~= old(self)@.insert(name@, s.id));
                }
                Some(s)
            },
            None => None,
        }
    }

    /// Ends this session's subscription to `name`, if it has one; true when
    /// it had one.
    pub fn cancel_subscription(&mut self, db: &mut Db, name: &str) -> (r: bool)
        requires
            old(db).wf(),
        ensures
            final(db).wf(),
            r == old(self)@.contains_key(name@),
            final(self)@ == old(self)@.remove(name@),
            final(db)@ == cancel_spec(
                old(db)@,
                name@,
                if r {
                    Some(old(self)@[name@])
                } else {
                    None
                },
            ),
    {
        match keyed_remove(&mut self.subscriptions, name) {
            Some(id) => {
                let old_sub = Subscription { topic: name.to_owned(), id };
                db.unsubscribe(&old_sub);
                true
            },
            None => false,
        }
    }

    /// Ends every subscription of this session, as when its connection closes.
    pub fn cancel_all(&mut self, db: &mut Db)
        requires
            old(db).wf(),
        ensures
            final(db).wf(),
            final(self)@ == Map::<Seq<char>, u64>::empty(),
            final(db)@ == cancel_all_spec(old(db)@, old(self)@),
    {
        let ghost m0 = db@;
        let ghost subs = self@;
        proof {
            db.lemma_topics_wf();
        }
        let entries = keyed_entries(&self.subscriptions);
        let mut i: usize = 0;
        while i < entries.len()
            invariant
                db.wf(),
                i <= entries@.len(),
                subs == entries_of(self.subscriptions),
                forall|j: int|
                    0 <= j < entries@.len() ==> #[trigger] subs.contains_key(entries@[j].0@)
                        && subs[entries@[j].0@] == entries@[j].1,
                forall|k: Seq<char>| #[trigger] m0.contains_key(k) ==> topic_wf(m0[k]),
                db@.dom() == m0.dom(),
                forall|k: Seq<char>|
                    #[trigger] db@.contains_key(k) ==> if exists|j: int|
                        0 <= j < i && (#[trigger] entries@[j]).0@ == k {
                        db@[k] == unsubscribe_spec(m0[k], subs[k])
                    } else {
                        db@[k] == m0[k]
                    },
            decreases entries@.len() - i,
        {
            let name = entries[i].0.clone();
            let id = entries[i].1;
            let ghost before = db@;
            let sub = Subscription { topic: name, id };
            db.unsubscribe(&sub);
            proof {
                let n = entries@[i as int].0@;
                assert(sub.topic@ == n);
                assert forall|k: Seq<char>| #[trigger] db@.contains_key(k) implies if exists|j: int|
                    0 <= j < i + 1 && (#[trigger] entries@[j]).0@ == k {
                    db@[k] == unsubscribe_spec(m0[k], subs[k])
                } else {
                    db@[k] == m0[k]
                } by {
                    if k == n {
                        assert(0 <= i < i + 1 && entries@[i as int].0@ == k);
                        assert(subs.contains_key(entries@[i as int].0@));
                        assert(subs[k] == id);
                        assert(before.contains_key(k));
                        assert(db@[k] == unsubscribe_spec(before[k], id));
                        lemma_unsubscribe_twice(m0[k], id);
                        if exists|j: int| 0 <= j < i && (#[trigger] entries@[j]).0@ == k {
                            assert(before[k] == unsubscribe_spec(m0[k], subs[k]));
                        } else {
                            assert(before[k] == m0[k]);
                        }
                    } else {
                        if exists|j: int| 0 <= j < i + 1 && (#[trigger] entries@[j]).0@ == k {
                            let j = choose|j: int| 0 <= j < i + 1 && (#[trigger] entries@[j]).0@ == k;
                            assert(0 <= j < i && entries@[j].0@ == k);
                        }
                    }
                }
            }
            i = i + 1;
        }
        self.subscriptions = keyed_new();
        proof {
            assert(entries_of(self.subscriptions) =~= Map::<Seq<char>, u64>::empty());
            assert forall|k: Seq<char>| #[trigger] db@.contains_key(k) implies db@[k]
                == cancel_all_spec(m0, subs)[k] by {
                if subs.contains_key(k) {
                    let j = choose|j: int| 0 <= j < entries@.len() && entries@[j].0@ == k;
                    assert(0 <= j < i && entries@[j].0@ == k);
                }
            }
            assert(db@ =~= cancel_all_spec(m0, subs));
        }
    }
}

} // verus!
