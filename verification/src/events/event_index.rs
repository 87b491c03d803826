//! The time-bucketed event queue: a front-poppable sequence of buckets,
//! where bucket `i` holds the events due `i` ticks after the queue's
//! current front.  The queue grows lazily when an event is scheduled
//! further ahead than its current length.

use vstd::prelude::*;

use crate::events::event::Event;

verus! {

/// How many events in a bucket belong to the given agent.
pub open spec fn count_in_bucket(b: Seq<Event>, agent: u32) -> nat
    decreases b.len(),
{
    if b.len() == 0 {
        0
    } else {
        count_in_bucket(b.drop_last(), agent) + if b.last().agent_idx == agent {
            1nat
        } else {
            0nat
        }
    }
}

/// How many events across all buckets belong to the given agent.
pub open spec fn count_in_queue(q: Seq<Seq<Event>>, agent: u32) -> nat
    decreases q.len(),
{
    if q.len() == 0 {
        0
    } else {
        count_in_queue(q.drop_last(), agent) + count_in_bucket(q.last(), agent)
    }
}

/// Popping the front bucket removes exactly its events from the count.
pub proof fn lemma_count_pop(q: Seq<Seq<Event>>, agent: u32)
    requires
        q.len() > 0,
    ensures
        count_in_queue(q, agent) == count_in_queue(q.subrange(1, q.len() as int), agent)
            + count_in_bucket(q[0], agent),
    decreases q.len(),
{
    if q.len() == 1 {
        assert(q.subrange(1, 1) =~= Seq::<Seq<Event>>::empty());
        assert(q.drop_last() =~= Seq::<Seq<Event>>::empty());
        assert(q.last() == q[0]);
    } else {
        lemma_count_pop(q.drop_last(), agent);
        assert(q.subrange(1, q.len() as int).drop_last() =~= q.drop_last().subrange(
            1,
            q.len() - 1,
        ));
        assert(q.subrange(1, q.len() as int).last() == q.last());
        assert(q.drop_last()[0] == q[0]);
    }
}

/// Appending an empty bucket does not change any agent's count.
pub proof fn lemma_count_push_empty(q: Seq<Seq<Event>>, agent: u32)
    ensures
        count_in_queue(q.push(Seq::empty()), agent) == count_in_queue(q, agent),
{
    assert(q.push(Seq::empty()).drop_last() =~= q);
    assert(q.push(Seq::empty()).last() =~= Seq::<Event>::empty());
}

/// Appending an event to one bucket raises exactly its agent's count by one.
pub proof fn lemma_count_update_push(q: Seq<Seq<Event>>, k: int, e: Event, agent: u32)
    requires
        0 <= k < q.len(),
    ensures
        count_in_queue(q.update(k, q[k].push(e)), agent) == count_in_queue(q, agent) + if e.agent_idx
            == agent {
            1int
        } else {
            0int
        },
    decreases q.len(),
{
    let q2 = q.update(k, q[k].push(e));
    assert(q[k].push(e).drop_last() =~= q[k]);
    if k == q.len() - 1 {
        assert(q2.drop_last() =~= q.drop_last());
        assert(q2.last() == q.last().push(e));
    } else {
        lemma_count_update_push(q.drop_last(), k, e, agent);
        assert(q2.drop_last() =~= q.drop_last().update(k, q.drop_last()[k].push(e)));
        assert(q2.last() == q.last());
    }
}

/// An agent's count over the whole queue bounds its count in any one bucket.
pub proof fn lemma_count_bucket_le_queue(q: Seq<Seq<Event>>, k: int, agent: u32)
    requires
        0 <= k < q.len(),
    ensures
        count_in_bucket(q[k], agent) <= count_in_queue(q, agent),
    decreases q.len(),
{
    if k == q.len() - 1 {
        assert(q.last() == q[k]);
    } else {
        lemma_count_bucket_le_queue(q.drop_last(), k, agent);
        assert(q.drop_last()[k] == q[k]);
    }
}

/// Two distinct events of one agent in one bucket put its count at two.
pub proof fn lemma_count_two_in_bucket(b: Seq<Event>, i1: int, i2: int)
    requires
        0 <= i1 < i2 < b.len(),
        b[i1].agent_idx == b[i2].agent_idx,
    ensures
        count_in_bucket(b, b[i1].agent_idx) >= 2,
    decreases b.len(),
{
    let agent = b[i1].agent_idx;
    if i2 == b.len() - 1 {
        lemma_count_one_in_bucket(b.drop_last(), i1);
        assert(b.drop_last()[i1] == b[i1]);
    } else {
        lemma_count_two_in_bucket(b.drop_last(), i1, i2);
        assert(b.drop_last()[i1] == b[i1]);
        assert(b.drop_last()[i2] == b[i2]);
    }
}

/// One event of an agent in a bucket puts its count at one.
pub proof fn lemma_count_one_in_bucket(b: Seq<Event>, i: int)
    requires
        0 <= i < b.len(),
    ensures
        count_in_bucket(b, b[i].agent_idx) >= 1,
    decreases b.len(),
{
    if i == b.len() - 1 {
    } else {
        lemma_count_one_in_bucket(b.drop_last(), i);
        assert(b.drop_last()[i] == b[i]);
    }
}

/// Dropping the first remaining event of a bucket slice drops its agent's
/// remaining count by one.
pub proof fn lemma_count_in_bucket_step(b: Seq<Event>, i: int, agent: u32)
    requires
        0 <= i < b.len(),
    ensures
        count_in_bucket(b.subrange(i, b.len() as int), agent) == count_in_bucket(
            b.subrange(i + 1, b.len() as int),
            agent,
        ) + if b[i].agent_idx == agent {
            1int
        } else {
            0int
        },
    decreases b.len() - i,
{
    let tail = b.subrange(i, b.len() as int);
    if i == b.len() - 1 {
        assert(tail.drop_last() =~= b.subrange(i + 1, b.len() as int));
        assert(b.subrange(i + 1, b.len() as int) =~= Seq::<Event>::empty());
        assert(tail.last() == b[i]);
    } else {
        lemma_count_in_bucket_step(b.drop_last(), i, agent);
        assert(b.drop_last().subrange(i, b.len() - 1) =~= tail.drop_last());
        assert(b.drop_last().subrange(i + 1, b.len() - 1) =~= b.subrange(
            i + 1,
            b.len() as int,
        ).drop_last());
        assert(tail.last() == b.last());
        assert(b.subrange(i + 1, b.len() as int).last() == b.last());
        assert(b.drop_last()[i] == b[i]);
    }
}

/// The time-bucketed queue itself.
pub struct EventIndex {
    buckets: Vec<Vec<Event>>,
}

impl View for EventIndex {
    type V = Seq<Seq<Event>>;

    closed spec fn view(&self) -> Seq<Seq<Event>> {
        self.buckets@.map_values(|b: Vec<Event>| b@)
    }
}

impl EventIndex {
    /// An empty queue.
    pub fn new() -> (r: Self)
        ensures
            r@.len() == 0,
    {
        let r = EventIndex { buckets: Vec::new() };
        proof {
            assert(r@ =~= Seq::<Seq<Event>>::empty());
        }
        r
    }

    /// How many buckets lie ahead of the front.
    pub fn len(&self) -> (r: usize)
        ensures
            r == self@.len(),
    {
        self.buckets.len()
    }

    /// The bucket at the given offset from the front.
    pub fn bucket(&self, k: usize) -> (r: &Vec<Event>)
        requires
            k < self@.len(),
        ensures
            r@ == self@[k as int],
    {
        &self.buckets[k]
    }

    /// Remove and return the front bucket: the events due now.
    pub fn pop_front(&mut self) -> (r: Option<Vec<Event>>)
        ensures
            old(self)@.len() == 0 ==> r is None && final(self)@ == old(self)@,
            old(self)@.len() > 0 ==> (r matches Some(b) && b@ == old(self)@[0] && final(self)@
                == old(self)@.subrange(1, old(self)@.len() as int)),
    {
        if self.buckets.len() == 0 {
            None
        } else {
            let b = self.buckets.remove(0);
            proof {
                assert(final(self)@ =~= old(self)@.subrange(1, old(self)@.len() as int));
            }
            Some(b)
        }
    }

    /// Read the bucket at the given offset from the front, appending empty
    /// buckets first if the queue is not yet that long.
    pub fn get_or_grow(&mut self, offset: usize) -> (r: &Vec<Event>)
        requires
            offset < usize::MAX,
        ensures
            final(self)@.len() == if old(self)@.len() >= offset + 1 {
                old(self)@.len() as int
            } else {
                offset + 1
            },
            forall|i: int|
                0 <= i < final(self)@.len() ==> final(self)@[i] == (if i < old(self)@.len() {
                    old(self)@[i]
                } else {
                    Seq::<Event>::empty()
                }),
            r@ == final(self)@[offset as int],
            forall|a: u32| count_in_queue(final(self)@, a) == count_in_queue(old(self)@, a),
    {
        let ghost pre = self@;
        while self.buckets.len() <= offset
            invariant
                offset < usize::MAX,
                self@.len() >= pre.len(),
                self@.len() == pre.len() || (pre.len() <= offset && self@.len() <= offset + 1),
                forall|i: int| 0 <= i < pre.len() ==> #[trigger] self@[i] == pre[i],
                forall|i: int|
                    pre.len() <= i < self@.len() ==> #[trigger] self@[i] == Seq::<Event>::empty(),
                forall|a: u32| count_in_queue(self@, a) == count_in_queue(pre, a),
            decreases offset + 1 - self.buckets@.len(),
        {
            let ghost mid = self@;
            self.buckets.push(Vec::new());
            proof {
                assert(self@ =~= mid.push(Seq::<Event>::empty()));
                assert forall|a: u32| count_in_queue(self@, a) == count_in_queue(pre, a) by {
                    lemma_count_push_empty(mid, a);
                }
            }
        }
        &self.buckets[offset]
    }

    /// Insert an event into the bucket at the given offset from the front,
    /// appending empty buckets first if the queue is not yet that long.
    pub fn push_or_grow(&mut self, offset: usize, event: Event)
        requires
            offset < usize::MAX,
        ensures
            final(self)@.len() == if old(self)@.len() >= offset + 1 {
                old(self)@.len() as int
            } else {
                offset + 1
            },
            final(self)@[offset as int] == (if offset < old(self)@.len() {
                old(self)@[offset as int]
            } else {
                Seq::<Event>::empty()
            }).push(event),
            forall|i: int|
                0 <= i < final(self)@.len() && i != offset ==> final(self)@[i] == (if i < old(
                    self,
                )@.len() {
                    old(self)@[i]
                } else {
                    Seq::<Event>::empty()
                }),
            forall|a: u32|
                count_in_queue(final(self)@, a) == count_in_queue(old(self)@, a) + if event.agent_idx
                    == a {
                    1int
                } else {
                    0int
                },
    {
        let ghost pre = self@;
        while self.buckets.len() <= offset
            invariant
                offset < usize::MAX,
                self@.len() >= pre.len(),
                self@.len() == pre.len() || (pre.len() <= offset && self@.len() <= offset + 1),
                forall|i: int| 0 <= i < pre.len() ==> #[trigger] self@[i] == pre[i],
                forall|i: int|
                    pre.len() <= i < self@.len() ==> #[trigger] self@[i] == Seq::<Event>::empty(),
                forall|a: u32| count_in_queue(self@, a) == count_in_queue(pre, a),
            decreases offset + 1 - self.buckets@.len(),
        {
            let ghost mid = self@;
            self.buckets.push(Vec::new());
            proof {
                assert(self@ =~= mid.push(Seq::<Event>::empty()));
                assert forall|a: u32|
                    count_in_queue(self@, a) == count_in_queue(pre, a) by {
                    lemma_count_push_empty(mid, a);
                }
            }
        }
        let ghost grown = self@;
        let n = self.buckets.len();
        self.buckets[offset].push(event);
        proof {
            assert(self@ =~= grown.update(offset as int, grown[offset as int].push(event)));
            assert forall|a: u32|
                count_in_queue(self@, a) == count_in_queue(old(self)@, a) + (if event.agent_idx
                    == a {
                    1int
                } else {
                    0int
                }) by {
                lemma_count_update_push(grown, offset as int, event, a);
            }
        }
    }
}


/// An event inserted at relative offset `k` comes out exactly `k` pops
/// later: popping the queue `m` times leaves `subrange(m, len)`, whose
/// front bucket holds the event precisely when `m == k` (given the event
/// was not already queued elsewhere).
pub proof fn lemma_scheduled_event_pops_at_offset(
    q: Seq<Seq<Event>>,
    q2: Seq<Seq<Event>>,
    k: int,
    e: Event,
)
    requires
        0 <= k,
        q2.len() == if q.len() >= k + 1 {
            q.len() as int
        } else {
            k + 1
        },
        q2[k] == (if k < q.len() {
            q[k]
        } else {
            Seq::<Event>::empty()
        }).push(e),
        forall|i: int|
            0 <= i < q2.len() && i != k ==> q2[i] == (if i < q.len() {
                q[i]
            } else {
                Seq::<Event>::empty()
            }),
        forall|i: int, j: int| 0 <= i < q.len() && 0 <= j < q[i].len() ==> q[i][j] != e,
    ensures
        forall|m: int| 0 <= m < k ==> !q2.subrange(m, q2.len() as int)[0].contains(e),
        q2.subrange(k, q2.len() as int)[0].contains(e),
{
    assert forall|m: int| 0 <= m < k implies !q2.subrange(m, q2.len() as int)[0].contains(e) by {
        assert(q2.subrange(m, q2.len() as int)[0] == q2[m]);
        if q2[m].contains(e) {
            let j = choose|j: int| 0 <= j < q2[m].len() && q2[m][j] == e;
            if m < q.len() {
                assert(q[m][j] == e);
            }
        }
    }
    assert(q2.subrange(k, q2.len() as int)[0] == q2[k]);
    assert(q2[k][q2[k].len() - 1] == e);
}

} // verus!
