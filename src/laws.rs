//! Properties that hold across calls of the registry, its topics and the
//! session bookkeeping, stated over the models their contracts use.
use crate::db::{topic_of, with_topic};
use crate::session::cancel_spec;
use crate::topic::{
    deliver, has_subscriber, index_of, publish_spec, receive_spec, spare_count, subscribe_spec,
    topic_wf, unsubscribe_spec, ReceivedView, SubscriberView, TopicView, CAPACITY,
};
use vstd::prelude::*;

verus! {

/// Topics after each payload of `ps` was published in turn.
pub open spec fn publish_all(t: TopicView, ps: Seq<Seq<u8>>) -> TopicView
    decreases ps.len(),
{
    if ps.len() == 0 {
        t
    } else {
        publish_spec(publish_all(t, ps.drop_last()), ps.last())
    }
}

/// The newest `CAPACITY` payloads of `s`, in their order.
pub open spec fn newest(s: Seq<Seq<u8>>) -> Seq<Seq<u8>> {
    if s.len() <= CAPACITY {
        s
    } else {
        s.subrange(s.len() - CAPACITY, s.len() as int)
    }
}

/// Looking a name up twice reaches the topic that the first look-up
/// reached or created: one name never has two topics.
pub proof fn law_one_topic_per_name(m: Map<Seq<char>, TopicView>, name: Seq<char>)
    ensures
        with_topic(with_topic(m, name), name) == with_topic(m, name),
        with_topic(m, name)[name] == topic_of(m, name),
{
}

/// A name that was never used has no value.
pub proof fn law_unused_name_has_no_value(m: Map<Seq<char>, TopicView>, name: Seq<char>)
    requires
        !m.contains_key(name),
    ensures
        topic_of(m, name).latest is None,
{
}

/// Publishing to a topic nobody listens to reaches no one, and the payload
/// becomes the topic's value.
pub proof fn law_publish_without_subscribers(m: Map<Seq<char>, TopicView>, name: Seq<char>, p: Seq<u8>)
    requires
        topic_of(m, name).subscribers.len() == 0,
    ensures
        spare_count(topic_of(m, name).subscribers) == 0,
        topic_of(m.insert(name, publish_spec(topic_of(m, name), p)), name).latest == Some(p),
{
}

/// When every subscriber has room, a publish reaches every subscriber.
pub proof fn law_publish_reaches_every_subscriber_with_room(subs: Seq<SubscriberView>)
    requires
        forall|i: int| 0 <= i < subs.len() ==> (#[trigger] subs[i]).pending.len() < CAPACITY,
    ensures
        spare_count(subs) == subs.len(),
    decreases subs.len(),
{
    if subs.len() > 0 {
        law_publish_reaches_every_subscriber_with_room(subs.drop_last());
    }
}

/// Each subscriber's pending payloads after a run of publishes are the
/// newest of what it had and what was published, in publish order.
pub proof fn law_publish_keeps_order(t: TopicView, ps: Seq<Seq<u8>>, i: int)
    requires
        topic_wf(t),
        0 <= i < t.subscribers.len(),
    ensures
        publish_all(t, ps).subscribers.len() == t.subscribers.len(),
        publish_all(t, ps).subscribers[i].id == t.subscribers[i].id,
        publish_all(t, ps).subscribers[i].pending == newest(t.subscribers[i].pending + ps),
    decreases ps.len(),
{
    if ps.len() > 0 {
        let prev = ps.drop_last();
        law_publish_keeps_order(t, prev, i);
        let before = publish_all(t, prev);
        let s = t.subscribers[i].pending + prev;
        let s2 = t.subscribers[i].pending + ps;
        assert(s2 =~= s.push(ps.last()));
        assert(t.subscribers[i].pending.len() <= CAPACITY);
        let w = before.subscribers[i].pending;
        assert(publish_all(t, ps).subscribers[i] == deliver(before.subscribers[i], ps.last()));
        if s.len() < CAPACITY {
            assert(w.push(ps.last()) =~= newest(s2));
        } else if s.len() == CAPACITY {
            assert(w.drop_first().push(ps.last()) =~= newest(s2));
        } else {
            assert(w.drop_first().push(ps.last()) =~= newest(s2));
        }
    }
}

/// A subscription that replaced an earlier one to the same name is the
/// only one of the two that the next publish reaches.
pub proof fn law_replacement_supersedes(
    m: Map<Seq<char>, TopicView>,
    name: Seq<char>,
    earlier: u64,
    p: Seq<u8>,
)
    requires
        m.contains_key(name) ==> topic_wf(m[name]),
        earlier < topic_of(m, name).next_id,
        topic_of(cancel_spec(m, name, Some(earlier)), name).next_id < u64::MAX,
    ensures
        ({
            let t = topic_of(cancel_spec(m, name, Some(earlier)), name);
            let after = publish_spec(subscribe_spec(t), p);
            &&& !has_subscriber(after, earlier)
            &&& after.subscribers.last().id == t.next_id
            &&& after.subscribers.last().pending == seq![p]
        }),
{
    let t0 = topic_of(m, name);
    let t = topic_of(cancel_spec(m, name, Some(earlier)), name);
    assert(topic_wf(t0));
    lemma_unsubscribe_clears(t0, earlier);
    assert(t == unsubscribe_spec(t0, earlier));
    let after = publish_spec(subscribe_spec(t), p);
    let n = t.subscribers.len();
    assert forall|i: int| 0 <= i < after.subscribers.len() implies #[trigger] after.subscribers[i].id != earlier by {
        if i < n {
            assert(after.subscribers[i].id == t.subscribers[i].id);
        } else {
            assert(after.subscribers[i].id == t.next_id);
        }
    }
    assert(seq![].push(p) =~= seq![p]);
}

/// Ending a subscription leaves the topic well formed and without it.
proof fn lemma_unsubscribe_clears(t: TopicView, id: u64)
    requires
        topic_wf(t),
    ensures
        !has_subscriber(unsubscribe_spec(t, id), id),
        unsubscribe_spec(t, id).next_id == t.next_id,
{
    if has_subscriber(t, id) {
        let k = index_of(t, id);
        let u = unsubscribe_spec(t, id);
        assert forall|i: int| 0 <= i < u.subscribers.len() implies #[trigger] u.subscribers[i].id != id by {
            if i < k {
                assert(u.subscribers[i] == t.subscribers[i]);
            } else {
                assert(u.subscribers[i] == t.subscribers[i + 1]);
            }
        }
    }
}

/// A subscriber whose room was full when a payload came sees a lag report
/// on its next receive, then goes on receiving its oldest remaining payload,
/// and later payloads still reach it.
pub proof fn law_lagging_subscriber_continues(t: TopicView, i: int, p: Seq<u8>, q: Seq<u8>)
    requires
        topic_wf(t),
        0 <= i < t.subscribers.len(),
        t.subscribers[i].pending.len() == CAPACITY,
        t.subscribers[i].missed == 0,
    ensures
        ({
            let id = t.subscribers[i].id;
            let t1 = publish_spec(t, p);
            let (t2, first) = receive_spec(t1, id);
            let (t3, second) = receive_spec(t2, id);
            &&& first == ReceivedView::Lagged(1)
            &&& second == ReceivedView::Message(t.subscribers[i].pending[1])
            &&& has_subscriber(t3, id)
            &&& publish_spec(t3, q).subscribers[i].pending.last() == q
        }),
{
    let id = t.subscribers[i].id;
    let t1 = publish_spec(t, p);
    assert(t1.subscribers[i].id == id);
    assert(has_subscriber(t1, id));
    let k1 = index_of(t1, id);
    assert(t1.subscribers[k1].id == t.subscribers[k1].id);
    assert(k1 == i);
    let t2 = receive_spec(t1, id).0;
    assert(t2.subscribers[i].id == id);
    assert(has_subscriber(t2, id));
    let k2 = index_of(t2, id);
    assert(t2.subscribers[k2].id == t.subscribers[k2].id);
    assert(k2 == i);
    let t3 = receive_spec(t2, id).0;
    assert(t3.subscribers[i].id == id);
    assert(t1.subscribers[i].pending == t.subscribers[i].pending.drop_first().push(p));
}

} // verus!
