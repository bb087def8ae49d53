//! Replay ring and subscription filters of the in-process bus.
//!
//! The ring captures every published envelope (dropping the oldest once
//! full) so late subscribers can drain a filtered snapshot before live
//! delivery starts. Live fan-out to receivers is done by the host around
//! this ring.
use vstd::prelude::*;
use crate::envelope::{Category, Envelope, EnvelopeView};

verus! {

/// Bus receive errors.
#[derive(Debug, Clone, Copy, PartialEq, Eq, Structural)]
pub enum BusError {
    /// The subscriber fell behind by this many events; recover via replay.
    Lagged(u64),
    /// The bus is closed.
    Closed,
}

/// Which envelopes a subscriber receives.
#[derive(Clone, Debug)]
pub enum SubscribeFilter {
    /// Everything.
    All,
    /// A single category.
    Category(Category),
    /// Any of these categories.
    Categories(Vec<Category>),
}

/// Whether `filter` lets an envelope of category `c` through.
pub open spec fn filter_admits(filter: SubscribeFilter, c: Category) -> bool {
    match filter {
        SubscribeFilter::All => true,
        SubscribeFilter::Category(x) => x == c,
        SubscribeFilter::Categories(cs) => cs@.contains(c),
    }
}

/// Whether `cs` holds `c`.
fn contains_category(cs: &[Category], c: Category) -> (r: bool)
    ensures
        r == cs@.contains(c),
{
    let mut i: usize = 0;
    while i < cs.len()
        invariant
            i <= cs.len(),
            forall|k: int| 0 <= k < i ==> cs@[k] != c,
        decreases cs.len() - i,
    {
        if cs[i] == c {
            assert(cs@[i as int] == c);
            return true;
        }
        i += 1;
    }
    false
}

/// Whether `filter` lets `env` through.
pub fn filter_matches(filter: &SubscribeFilter, env: &Envelope) -> (r: bool)
    ensures
        r == filter_admits(*filter, env.category),
{
    match filter {
        SubscribeFilter::All => true,
        SubscribeFilter::Category(c) => *c == env.category,
        SubscribeFilter::Categories(cs) => contains_category(cs.as_slice(), env.category),
    }
}

/// The ring after one publish: the oldest entry is dropped when the ring
/// already holds `capacity` entries, then `e` is appended.
pub open spec fn ring_push<T>(ring: Seq<T>, capacity: nat, e: T) -> Seq<T> {
    if ring.len() >= capacity && ring.len() > 0 {
        ring.drop_first().push(e)
    } else {
        ring.push(e)
    }
}

/// The ring after publishing each of `es` in order.
pub open spec fn ring_push_all<T>(ring: Seq<T>, capacity: nat, es: Seq<T>) -> Seq<T>
    decreases es.len(),
{
    if es.len() == 0 {
        ring
    } else {
        ring_push(ring_push_all(ring, capacity, es.drop_last()), capacity, es.last())
    }
}

/// The last `n` entries of `s` (all of `s` when it is shorter).
pub open spec fn last_n<T>(s: Seq<T>, n: nat) -> Seq<T> {
    if s.len() <= n {
        s
    } else {
        s.subrange(s.len() - n, s.len() as int)
    }
}

/// The entries of `s` that `filter` admits, in order.
pub open spec fn admitted(s: Seq<EnvelopeView>, filter: SubscribeFilter) -> Seq<EnvelopeView>
    decreases s.len(),
{
    if s.len() == 0 {
        Seq::empty()
    } else if filter_admits(filter, s.last().category) {
        admitted(s.drop_last(), filter).push(s.last())
    } else {
        admitted(s.drop_last(), filter)
    }
}

/// Law: a ring of positive capacity that starts within capacity holds, after
/// any run of publishes, exactly the most recent `capacity` envelopes of
/// everything it held and was given, in publish order.
pub proof fn lemma_ring_keeps_most_recent<T>(ring: Seq<T>, capacity: nat, es: Seq<T>)
    requires
        capacity > 0,
        ring.len() <= capacity,
    ensures
        ring_push_all(ring, capacity, es) == last_n(ring + es, capacity),
    decreases es.len(),
{
    if es.len() > 0 {
        lemma_ring_keeps_most_recent(ring, capacity, es.drop_last());
        let prev = last_n(ring + es.drop_last(), capacity);
        assert((ring + es.drop_last()).push(es.last()) =~= ring + es);
        let all = ring + es;
        if (ring + es.drop_last()).len() <= capacity {
            if all.len() > capacity {
                assert(prev.drop_first().push(es.last()) =~= all.subrange(all.len() - capacity, all.len() as int));
            }
        } else {
            assert(prev.drop_first().push(es.last()) =~= all.subrange(all.len() - capacity, all.len() as int));
        }
    }
}

/// Bounded replay buffer of published envelopes.
pub struct ReplayBuffer {
    entries: std::collections::VecDeque<Envelope>,
    capacity: usize,
}

impl ReplayBuffer {
    /// The envelopes held, oldest first.
    pub closed spec fn entries(&self) -> Seq<EnvelopeView> {
        self.entries@.map_values(|e: Envelope| e@)
    }

    /// The configured capacity.
    pub closed spec fn capacity(&self) -> nat {
        self.capacity as nat
    }

    /// An empty ring of the given capacity.
    pub fn with_capacity(capacity: usize) -> (r: Self)
        ensures
            r.entries() == Seq::<EnvelopeView>::empty(),
            r.capacity() == capacity,
    {
        let r = ReplayBuffer { entries: std::collections::VecDeque::new(), capacity };
        assert(r.entries() =~= Seq::<EnvelopeView>::empty());
        r
    }

    /// Store an envelope, dropping the oldest one when the ring is full.
    pub fn publish(&mut self, env: Envelope)
        ensures
            final(self).entries() == ring_push(old(self).entries(), old(self).capacity(), env@),
            final(self).capacity() == old(self).capacity(),
    {
        let ghost old_entries = self.entries@;
        if self.entries.len() >= self.capacity && self.entries.len() > 0 {
            let _ = self.entries.pop_front();
            assert(self.entries@ =~= old_entries.drop_first());
        }
        let ghost mid = self.entries@;
        let ghost v = env@;
        self.entries.push_back(env);
        assert(self.entries@ =~= mid.push(env));
        proof {
            if old_entries.len() >= self.capacity && old_entries.len() > 0 {
                assert(mid.push(env).map_values(|e: Envelope| e@) =~= old_entries.map_values(|e: Envelope| e@).drop_first().push(v));
            } else {
                assert(mid.push(env).map_values(|e: Envelope| e@) =~= old_entries.map_values(|e: Envelope| e@).push(v));
            }
        }
    }

    /// Copies of the stored envelopes that `filter` admits, oldest first.
    pub fn snapshot(&self, filter: &SubscribeFilter) -> (r: Vec<Envelope>)
        ensures
            r@.map_values(|e: Envelope| e@) == admitted(self.entries(), *filter),
    {
        let mut out: Vec<Envelope> = Vec::new();
        let mut i: usize = 0;
        let ghost all = self.entries();
        while i < self.entries.len()
            invariant
                i <= self.entries@.len(),
                all == self.entries@.map_values(|e: Envelope| e@),
                out@.map_values(|e: Envelope| e@) == admitted(all.subrange(0, i as int), *filter),
            decreases self.entries@.len() - i,
        {
            let ghost before = out@;
            assert(all.subrange(0, i + 1).drop_last() =~= all.subrange(0, i as int));
            let e = &self.entries[i];
            if filter_matches(filter, e) {
                out.push(e.duplicate());
                assert(out@.map_values(|e: Envelope| e@) =~= before.map_values(|e: Envelope| e@).push(all[i as int]));
            }
            i += 1;
        }
        assert(all.subrange(0, self.entries@.len() as int) =~= all);
        out
    }

    /// How many envelopes are stored.
    pub fn len(&self) -> (n: usize)
        ensures
            n == self.entries().len(),
    {
        self.entries.len()
    }
}

} // verus!
