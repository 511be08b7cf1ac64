//! The table of subscriptions: one entry for each topic.

use vstd::prelude::*;

use crate::balesh::{NanoId, Topic};

verus! {

/// How far a subscription has come.
#[derive(Clone, Copy, PartialEq, Eq, Structural)]
pub enum SubState {
    Pending,
    Subscribed,
    Failed,
}

/// A subscription: the identifier it is known by to the server, and its state.
#[derive(Clone, Copy)]
pub struct Sub {
    pub id: NanoId,
    pub state: SubState,
}

pub struct SubView {
    pub id: nat,
    pub state: SubState,
}

impl View for Sub {
    type V = SubView;

    open spec fn view(&self) -> SubView {
        SubView { id: self.id@, state: self.state }
    }
}

#[derive(Clone, Copy)]
struct Entry {
    topic: Topic,
    sub: Sub,
}

/// Subscriptions by topic.
pub struct SubTable {
    entries: Vec<Entry>,
}

spec fn has_topic(entries: Seq<Entry>, topic: Topic) -> bool {
    exists|i: int| 0 <= i < entries.len() && (#[trigger] entries[i]).topic == topic
}

spec fn place(entries: Seq<Entry>, topic: Topic) -> int {
    choose|i: int| 0 <= i < entries.len() && (#[trigger] entries[i]).topic == topic
}

impl View for SubTable {
    type V = Map<Topic, SubView>;

    closed spec fn view(&self) -> Map<Topic, SubView> {
        Map::new(
            |t: Topic| has_topic(self.entries@, t),
            |t: Topic| self.entries@[place(self.entries@, t)].sub@,
        )
    }
}

/// Every subscription is pending, under its identifier.
pub open spec fn all_pending(subs: Map<Topic, SubView>) -> Map<Topic, SubView> {
    subs.map_values(|s: SubView| SubView { id: s.id, state: SubState::Pending })
}

impl SubTable {
    #[verifier::type_invariant]
    spec fn distinct(self) -> bool {
        forall|i: int, j: int|
            0 <= i < j < self.entries@.len() ==> (#[trigger] self.entries@[i]).topic != (
            #[trigger] self.entries@[j]).topic
    }

    pub fn new() -> (r: SubTable)
        ensures
            r@ == Map::<Topic, SubView>::empty(),
    {
        let r = SubTable { entries: Vec::new() };
        assert(r@ =~= Map::<Topic, SubView>::empty());
        r
    }

    pub fn len(&self) -> (n: usize)
        ensures
            self@.dom().finite(),
            n == self@.len(),
    {
        proof {
            use_type_invariant(self);
            self.lemma_size();
        }
        self.entries.len()
    }

    proof fn lemma_at(&self, i: int)
        requires
            self.distinct(),
            0 <= i < self.entries@.len(),
        ensures
            self@.contains_key(self.entries@[i].topic),
            self@[self.entries@[i].topic] == self.entries@[i].sub@,
    {
        let t = self.entries@[i].topic;
        assert(has_topic(self.entries@, t));
        let p = place(self.entries@, t);
        assert(p == i);
    }

    proof fn lemma_size(&self)
        requires
            self.distinct(),
        ensures
            self@.dom().finite(),
            self@.len() == self.entries@.len(),
    {
        let topics = Seq::new(self.entries@.len(), |i: int| self.entries@[i].topic);
        assert(topics.no_duplicates());
        topics.unique_seq_to_set();
        assert(self@.dom() =~= topics.to_set()) by {
            assert forall|t: Topic| self@.dom().contains(t) implies topics.to_set().contains(t) by {
                let p = place(self.entries@, t);
                assert(topics[p] == t);
            }
            assert forall|t: Topic| topics.to_set().contains(t) implies self@.dom().contains(t) by {
                let p = choose|p: int| 0 <= p < topics.len() && topics[p] == t;
                assert(self.entries@[p].topic == t);
            }
        }
    }

    /// Where the topic stands, or the number of entries.
    fn position(&self, topic: Topic) -> (i: usize)
        ensures
            i <= self.entries@.len(),
            i < self.entries@.len() ==> self.entries@[i as int].topic == topic,
            i == self.entries@.len() ==> !has_topic(self.entries@, topic),
    {
        let mut i: usize = 0;
        while i < self.entries.len()
            invariant
                i <= self.entries@.len(),
                forall|k: int| 0 <= k < i ==> (#[trigger] self.entries@[k]).topic != topic,
            decreases self.entries@.len() - i,
        {
            if self.entries[i].topic == topic {
                return i;
            }
            i = i + 1;
        }
        i
    }

    pub fn get(&self, topic: Topic) -> (r: Option<Sub>)
        ensures
            match r {
                Some(sub) => self@.contains_key(topic) && self@[topic] == sub@,
                None => !self@.contains_key(topic),
            },
    {
        let i: usize = self.position(topic);
        proof {
            use_type_invariant(self);
        }
        if i < self.entries.len() {
            proof {
                self.lemma_at(i as int);
            }
            Some(self.entries[i].sub)
        } else {
            None
        }
    }

    /// Adds a subscription under a topic that has none.
    pub fn add(&mut self, topic: Topic, sub: Sub)
        requires
            !old(self)@.contains_key(topic),
        ensures
            final(self)@ == old(self)@.insert(topic, sub@),
    {
        proof {
            use_type_invariant(&*self);
        }
        let mut entries: Vec<Entry> = Vec::new();
        std::mem::swap(&mut entries, &mut self.entries);
        let ghost before = entries@;
        assert forall|i: int| 0 <= i < before.len() implies (#[trigger] before[i]).topic
            != topic by {
            if before[i].topic == topic {
                assert(has_topic(before, topic));
            }
        }
        entries.push(Entry { topic, sub });
        assert(forall|i: int| 0 <= i < before.len() ==> entries@[i] == before[i]);
        *self = SubTable { entries };
        proof {
            let after = self.entries@;
            assert forall|t: Topic| has_topic(after, t) == (has_topic(before, t) || t
                == topic) by {
                if has_topic(before, t) {
                    let p = place(before, t);
                    assert(after[p].topic == t);
                }
                if t == topic {
                    assert(after[before.len() as int].topic == t);
                }
            }
            assert forall|t: Topic| has_topic(after, t) implies self@[t] == old(self)@.insert(
                topic,
                sub@,
            )[t] by {
                let p = place(after, t);
                if t != topic {
                    assert(has_topic(before, t));
                    let q = place(before, t);
                    assert(after[q].topic == t);
                    assert(p == q);
                }
            }
            assert(self@ =~= old(self)@.insert(topic, sub@));
        }
    }

    /// Takes a topic's subscription out.
    pub fn remove(&mut self, topic: Topic) -> (r: Option<Sub>)
        ensures
            final(self)@ == old(self)@.remove(topic),
            match r {
                Some(sub) => old(self)@.contains_key(topic) && old(self)@[topic] == sub@,
                None => !old(self)@.contains_key(topic),
            },
    {
        let i: usize = self.position(topic);
        proof {
            use_type_invariant(&*self);
        }
        if i == self.entries.len() {
            assert(self@ =~= old(self)@.remove(topic));
            return None;
        }
        proof {
            self.lemma_at(i as int);
        }
        let mut entries: Vec<Entry> = Vec::new();
        std::mem::swap(&mut entries, &mut self.entries);
        let ghost before = entries@;
        let entry = entries.remove(i);
        let ghost after = entries@;
        proof {
            assert(forall|k: int|
                0 <= k < after.len() ==> #[trigger] after[k] == before[if k < i {
                    k
                } else {
                    k + 1
                }]);
        }
        *self = SubTable { entries };
        proof {
            assert forall|t: Topic| has_topic(after, t) == (has_topic(before, t) && t
                != topic) by {
                if has_topic(after, t) {
                    let p = place(after, t);
                    let q = if p < i {
                        p
                    } else {
                        p + 1
                    };
                    assert(before[q].topic == t);
                    assert(before[i as int].topic == topic);
                }
                if has_topic(before, t) && t != topic {
                    let q = place(before, t);
                    let p = if q < i {
                        q
                    } else {
                        q - 1
                    };
                    assert(after[p].topic == t);
                }
            }
            assert forall|t: Topic| has_topic(after, t) implies self@[t] == old(self)@[t] by {
                let p = place(after, t);
                let q = if p < i {
                    p
                } else {
                    p + 1
                };
                assert(before[q].topic == t);
                let o = place(before, t);
                assert(before[o].topic == t);
                assert(o == q);
            }
            assert(self@ =~= old(self)@.remove(topic));
        }
        Some(entry.sub)
    }

    /// Sets the state of a topic that has a subscription.
    pub fn set_state(&mut self, topic: Topic, state: SubState)
        requires
            old(self)@.contains_key(topic),
        ensures
            final(self)@ == old(self)@.insert(
                topic,
                (SubView { id: old(self)@[topic].id, state }),
            ),
    {
        let i: usize = self.position(topic);
        proof {
            use_type_invariant(&*self);
            self.lemma_at(i as int);
        }
        let mut entries: Vec<Entry> = Vec::new();
        std::mem::swap(&mut entries, &mut self.entries);
        let ghost before = entries@;
        let id = entries[i].sub.id;
        entries.set(i, Entry { topic, sub: Sub { id, state } });
        let ghost after = entries@;
        assert forall|a: int, b: int| 0 <= a < b < after.len() implies (#[trigger] after[a]).topic
            != (#[trigger] after[b]).topic by {
            assert(before[a].topic == after[a].topic);
            assert(before[b].topic == after[b].topic);
        }
        *self = SubTable { entries };
        proof {
            assert forall|t: Topic| has_topic(after, t) == has_topic(before, t) by {
                if has_topic(after, t) {
                    let p = place(after, t);
                    assert(before[p].topic == t);
                }
                if has_topic(before, t) {
                    let p = place(before, t);
                    assert(after[p].topic == t);
                }
            }
            assert forall|t: Topic| has_topic(after, t) && t != topic implies self@[t] == old(
                self,
            )@[t] by {
                let p = place(after, t);
                assert(before[p].topic == t);
                let q = place(before, t);
                assert(before[q].topic == t);
                assert(p == q);
            }
            self.lemma_at(i as int);
            assert(self@ =~= old(self)@.insert(
                topic,
                SubView { id: old(self)@[topic].id, state },
            ));
        }
    }

    /// A topic whose subscription has the identifier.
    pub fn find(&self, id: NanoId) -> (r: Option<Topic>)
        ensures
            match r {
                Some(topic) => self@.contains_key(topic) && self@[topic].id == id@,
                None => forall|t: Topic| #[trigger] self@.contains_key(t) ==> self@[t].id != id@,
            },
    {
        proof {
            use_type_invariant(self);
        }
        let mut i: usize = 0;
        while i < self.entries.len()
            invariant
                self.distinct(),
                i <= self.entries@.len(),
                forall|k: int| 0 <= k < i ==> (#[trigger] self.entries@[k]).sub.id@ != id@,
            decreases self.entries@.len() - i,
        {
            if self.entries[i].sub.id.same(id) {
                proof {
                    self.lemma_at(i as int);
                }
                return Some(self.entries[i].topic);
            }
            i = i + 1;
        }
        assert forall|t: Topic| #[trigger] self@.contains_key(t) implies self@[t].id != id@ by {
            let p = place(self.entries@, t);
            assert(self.entries@[p].sub.id@ != id@);
        }
        None
    }

    /// Makes every subscription pending again and lists them, each once.
    pub fn reset(&mut self) -> (list: Vec<(Topic, NanoId)>)
        ensures
            final(self)@ == all_pending(old(self)@),
            listing(list@, old(self)@),
    {
        proof {
            use_type_invariant(&*self);
        }
        let mut list: Vec<(Topic, NanoId)> = Vec::new();
        let mut entries: Vec<Entry> = Vec::new();
        for i in 0..self.entries.len()
            invariant
                list@.len() == i,
                entries@.len() == i,
                forall|k: int| 0 <= k < i ==> (#[trigger] list@[k]).0 == self.entries@[k].topic,
                forall|k: int| 0 <= k < i ==> (#[trigger] list@[k]).1 == self.entries@[k].sub.id,
                forall|k: int|
                    0 <= k < i ==> (#[trigger] entries@[k]).topic == self.entries@[k].topic
                        && entries@[k].sub.id == self.entries@[k].sub.id && entries@[k].sub.state
                        == SubState::Pending,
        {
            let entry = self.entries[i];
            list.push((entry.topic, entry.sub.id));
            entries.push(
                Entry { topic: entry.topic, sub: Sub { id: entry.sub.id, state: SubState::Pending } },
            );
        }
        let ghost before = self.entries@;
        let ghost after = entries@;
        assert forall|a: int, b: int| 0 <= a < b < after.len() implies (#[trigger] after[a]).topic
            != (#[trigger] after[b]).topic by {
            assert(before[a].topic == after[a].topic);
            assert(before[b].topic == after[b].topic);
        }
        proof {
            let start = old(self)@;
            assert forall|k: int| 0 <= k < list@.len() implies start.contains_key(
                (#[trigger] list@[k]).0,
            ) && start[list@[k].0].id == list@[k].1@ by {
                self.lemma_at(k);
            }
            assert forall|a: int, b: int| 0 <= a < b < list@.len() implies (#[trigger] list@[a]).0
                != (#[trigger] list@[b]).0 by {
                assert(before[a].topic != before[b].topic);
            }
            assert forall|t: Topic| #[trigger] start.contains_key(t) implies listed(
                list@,
                t,
            ) by {
                let p = place(before, t);
                assert(list@[p].0 == t);
            }
        }
        *self = SubTable { entries };
        proof {
            assert forall|t: Topic| has_topic(after, t) == has_topic(before, t) by {
                if has_topic(after, t) {
                    let p = place(after, t);
                    assert(before[p].topic == t);
                }
                if has_topic(before, t) {
                    let p = place(before, t);
                    assert(after[p].topic == t);
                }
            }
            assert forall|t: Topic| has_topic(after, t) implies self@[t] == all_pending(
                old(self)@,
            )[t] by {
                let p = place(after, t);
                assert(before[p].topic == t);
                let q = place(before, t);
                assert(before[q].topic == t);
                assert(p == q);
            }
            assert(self@ =~= all_pending(old(self)@));
        }
        list
    }
}

/// The topic stands in the list.
pub open spec fn listed(list: Seq<(Topic, NanoId)>, topic: Topic) -> bool {
    exists|k: int| 0 <= k < list.len() && (#[trigger] list[k]).0 == topic
}

/// The list holds every topic of the table once, with its identifier.
pub open spec fn listing(list: Seq<(Topic, NanoId)>, subs: Map<Topic, SubView>) -> bool {
    &&& forall|k: int|
        0 <= k < list.len() ==> subs.contains_key((#[trigger] list[k]).0) && subs[list[k].0].id
            == list[k].1@
    &&& forall|a: int, b: int|
        0 <= a < b < list.len() ==> (#[trigger] list[a]).0 != (#[trigger] list[b]).0
    &&& forall|t: Topic| #[trigger] subs.contains_key(t) ==> listed(list, t)
}

} // verus!
