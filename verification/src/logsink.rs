//! Capacity-bounded, append-only log buffer with fan-out to subscribers.
//!
//! `IncrementalVec` keeps the last `capacity` lines as history and hands
//! every line pushed after a subscription to that subscriber exactly once,
//! in append order. The snapshot a subscriber gets and its live tail meet
//! with no gap and no duplicate: see [`lemma_subscriber_seam`].

use vstd::prelude::*;

use crate::common::LogLine;

verus! {

/// One subscriber's side of the fan-out. Lines pushed after the
/// subscription queue in `pending` until the consumer takes them.
struct Subscriber {
    pending: Vec<LogLine>,
    live: bool,
    /// History snapshot handed out at subscription.
    seen: Ghost<Seq<LogLine>>,
    /// How many lines had ever been pushed at subscription.
    joined: Ghost<int>,
    /// Lines the consumer has already taken.
    delivered: Ghost<Seq<LogLine>>,
}

/// Append-only ordered log buffer with bounded history and live fan-out.
pub struct IncrementalVec {
    history: Vec<LogLine>,
    capacity: usize,
    subs: Vec<Subscriber>,
    /// Every line ever pushed, oldest first.
    all: Ghost<Seq<LogLine>>,
}

impl IncrementalVec {
    /// Every line ever pushed into this sink, oldest first.
    pub closed spec fn spec_all(&self) -> Seq<LogLine> {
        self.all@
    }

    /// The retained history: the newest pushed lines, at most `capacity` many.
    pub closed spec fn spec_history(&self) -> Seq<LogLine> {
        self.history@
    }

    /// How many lines the history retains at most.
    pub closed spec fn spec_capacity(&self) -> nat {
        self.capacity as nat
    }

    /// How many subscribers have ever been registered.
    pub closed spec fn sub_count(&self) -> int {
        self.subs@.len() as int
    }

    /// Whether subscriber `i` still takes new lines.
    pub closed spec fn sub_live(&self, i: int) -> bool {
        self.subs@[i].live
    }

    /// The lines queued for subscriber `i` and not yet taken.
    pub closed spec fn sub_pending(&self, i: int) -> Seq<LogLine> {
        self.subs@[i].pending@
    }

    /// The history snapshot subscriber `i` received when it subscribed.
    pub closed spec fn sub_seen(&self, i: int) -> Seq<LogLine> {
        self.subs@[i].seen@
    }

    /// How many lines had ever been pushed when subscriber `i` subscribed.
    pub closed spec fn sub_joined(&self, i: int) -> int {
        self.subs@[i].joined@
    }

    /// The lines subscriber `i` has already taken, oldest first.
    pub closed spec fn sub_delivered(&self, i: int) -> Seq<LogLine> {
        self.subs@[i].delivered@
    }

    /// Well-formedness of one subscriber against the pushed sequence `all`.
    spec fn sub_inv(s: Subscriber, all: Seq<LogLine>) -> bool {
        &&& 0 <= s.joined@ - s.seen@.len()
        &&& s.joined@ <= all.len()
        &&& s.seen@ == all.subrange(s.joined@ - s.seen@.len(), s.joined@)
        &&& s.delivered@.len() + s.pending@.len() + s.joined@ <= all.len()
        &&& s.delivered@ + s.pending@ == all.subrange(
            s.joined@,
            s.joined@ + s.delivered@.len() + s.pending@.len(),
        )
        &&& (s.live ==> s.delivered@.len() + s.pending@.len() + s.joined@ == all.len())
    }

    /// Well-formedness: the history is the newest suffix of everything
    /// pushed, bounded by the capacity, and every subscriber's stream is a
    /// contiguous run of the pushed sequence.
    pub closed spec fn inv(&self) -> bool {
        &&& self.history@.len() <= self.capacity
        &&& self.history@.len() <= self.all@.len()
        &&& self.history@ == self.all@.skip(self.all@.len() - self.history@.len())
        &&& forall|i: int|
            0 <= i < self.subs@.len() ==> Self::sub_inv(#[trigger] self.subs@[i], self.all@)
    }

    /// An empty sink that will retain at most `capacity` lines of history.
    pub fn new(capacity: usize) -> (r: IncrementalVec)
        ensures
            r.inv(),
            r.spec_all() == Seq::<LogLine>::empty(),
            r.spec_history() == Seq::<LogLine>::empty(),
            r.spec_capacity() == capacity as nat,
            r.sub_count() == 0,
    {
        let r = IncrementalVec {
            history: Vec::new(),
            capacity,
            subs: Vec::new(),
            all: Ghost(Seq::empty()),
        };
        proof {
            assert(r.history@ =~= r.all@.skip(0));
        }
        r
    }

    /// Appends a line: it enters the bounded history (discarding the oldest
    /// line on overflow) and is queued for every live subscriber.
    pub fn push(&mut self, line: LogLine)
        requires
            old(self).inv(),
        ensures
            final(self).inv(),
            final(self).spec_all() == old(self).spec_all().push(line),
            final(self).spec_capacity() == old(self).spec_capacity(),
            final(self).spec_history() == (if old(self).spec_history().len()
                < old(self).spec_capacity() {
                old(self).spec_history().push(line)
            } else {
                old(self).spec_history().push(line).skip(1)
            }),
            final(self).sub_count() == old(self).sub_count(),
            forall|i: int|
                0 <= i < old(self).sub_count() ==> {
                    &&& final(self).sub_live(i) == old(self).sub_live(i)
                    &&& final(self).sub_seen(i) == old(self).sub_seen(i)
                    &&& final(self).sub_joined(i) == old(self).sub_joined(i)
                    &&& final(self).sub_delivered(i) == old(self).sub_delivered(i)
                    &&& final(self).sub_pending(i) == (if old(self).sub_live(i) {
                        old(self).sub_pending(i).push(line)
                    } else {
                        old(self).sub_pending(i)
                    })
                },
    {
        let ghost prev_all = self.all@;
        let ghost prev_history = self.history@;
        self.all = Ghost(self.all@.push(line));

        let dup = line.duplicate();
        self.history.push(dup);
        if self.history.len() > self.capacity {
            self.history.remove(0);
            proof {
                assert(self.history@ =~= prev_history.push(line).skip(1));
                assert(self.history@ =~= self.all@.skip(
                    self.all@.len() - self.history@.len(),
                ));
            }
        } else {
            proof {
                assert(self.history@ =~= self.all@.skip(
                    self.all@.len() - self.history@.len(),
                ));
            }
        }

        let ghost mid_subs = self.subs@;
        let ghost mid_history = self.history@;
        let n = self.subs.len();
        let mut i: usize = 0;
        while i < n
            invariant
                i <= n,
                n == self.subs@.len(),
                prev_all == old(self).spec_all(),
                self.all@ == prev_all.push(line),
                self.capacity == old(self).spec_capacity(),
                self.history@ == mid_history,
                self.history@.len() <= self.capacity,
                self.history@.len() <= self.all@.len(),
                self.history@ == self.all@.skip(self.all@.len() - self.history@.len()),
                self.history@ == (if old(self).spec_history().len() < old(
                    self,
                ).spec_capacity() {
                    old(self).spec_history().push(line)
                } else {
                    old(self).spec_history().push(line).skip(1)
                }),
                forall|k: int|
                    i <= k < n ==> self.subs@[k] == mid_subs[k] && Self::sub_inv(
                        #[trigger] mid_subs[k],
                        prev_all,
                    ),
                forall|k: int|
                    0 <= k < i ==> {
                        &&& (#[trigger] self.subs@[k]).live == mid_subs[k].live
                        &&& self.subs@[k].seen == mid_subs[k].seen
                        &&& self.subs@[k].joined == mid_subs[k].joined
                        &&& self.subs@[k].delivered == mid_subs[k].delivered
                        &&& self.subs@[k].pending@ == (if mid_subs[k].live {
                            mid_subs[k].pending@.push(line)
                        } else {
                            mid_subs[k].pending@
                        })
                        &&& Self::sub_inv(self.subs@[k], self.all@)
                    },
            decreases n - i,
        {
            let ghost pre_subs = self.subs@;
            let mut s = self.subs.remove(i);
            if s.live {
                s.pending.push(line.duplicate());
                proof {
                    assert(s.delivered@ + s.pending@ =~= (mid_subs[i as int].delivered@
                        + mid_subs[i as int].pending@).push(line));
                    assert(s.delivered@ + s.pending@ =~= self.all@.subrange(
                        s.joined@,
                        s.joined@ + s.delivered@.len() + s.pending@.len(),
                    ));
                    assert(s.seen@ =~= self.all@.subrange(
                        s.joined@ - s.seen@.len(),
                        s.joined@,
                    ));
                    assert(Self::sub_inv(s, self.all@));
                }
            } else {
                proof {
                    assert(s == mid_subs[i as int]);
                    assert(s.delivered@ + s.pending@ =~= self.all@.subrange(
                        s.joined@,
                        s.joined@ + s.delivered@.len() + s.pending@.len(),
                    ));
                    assert(s.seen@ =~= self.all@.subrange(
                        s.joined@ - s.seen@.len(),
                        s.joined@,
                    ));
                    assert(Self::sub_inv(s, self.all@));
                }
            }
            self.subs.insert(i, s);
            proof {
                assert(self.subs@ =~= pre_subs.update(i as int, s));
            }
            i = i + 1;
        }
    }

    /// Atomically takes a snapshot of the history and registers a live
    /// subscriber; returns the snapshot and the subscriber's handle. No
    /// line is lost or duplicated at the seam between the snapshot and the
    /// lines later queued for this subscriber.
    pub fn subscribe(&mut self) -> (r: (Vec<LogLine>, usize))
        requires
            old(self).inv(),
        ensures
            final(self).inv(),
            r.0@ == old(self).spec_history(),
            r.1 as int == old(self).sub_count(),
            final(self).spec_all() == old(self).spec_all(),
            final(self).spec_history() == old(self).spec_history(),
            final(self).spec_capacity() == old(self).spec_capacity(),
            final(self).sub_count() == old(self).sub_count() + 1,
            forall|i: int|
                0 <= i < old(self).sub_count() ==> {
                    &&& final(self).sub_live(i) == old(self).sub_live(i)
                    &&& final(self).sub_seen(i) == old(self).sub_seen(i)
                    &&& final(self).sub_joined(i) == old(self).sub_joined(i)
                    &&& final(self).sub_delivered(i) == old(self).sub_delivered(i)
                    &&& final(self).sub_pending(i) == old(self).sub_pending(i)
                },
            final(self).sub_live(r.1 as int),
            final(self).sub_seen(r.1 as int) == old(self).spec_history(),
            final(self).sub_joined(r.1 as int) == old(self).spec_all().len(),
            final(self).sub_delivered(r.1 as int) == Seq::<LogLine>::empty(),
            final(self).sub_pending(r.1 as int) == Seq::<LogLine>::empty(),
    {
        let snapshot = duplicate_lines(&self.history);
        let handle = self.subs.len();
        let sub = Subscriber {
            pending: Vec::new(),
            live: true,
            seen: Ghost(self.history@),
            joined: Ghost(self.all@.len() as int),
            delivered: Ghost(Seq::empty()),
        };
        proof {
            assert(sub.seen@ =~= self.all@.subrange(
                sub.joined@ - sub.seen@.len(),
                sub.joined@,
            ));
            assert(sub.delivered@ + sub.pending@ =~= self.all@.subrange(
                sub.joined@,
                sub.joined@,
            ));
        }
        self.subs.push(sub);
        (snapshot, handle)
    }

    /// Takes the oldest line queued for subscriber `sub`, if any.
    pub fn recv(&mut self, sub: usize) -> (r: Option<LogLine>)
        requires
            old(self).inv(),
            0 <= sub < old(self).sub_count(),
        ensures
            final(self).inv(),
            final(self).spec_all() == old(self).spec_all(),
            final(self).spec_history() == old(self).spec_history(),
            final(self).spec_capacity() == old(self).spec_capacity(),
            final(self).sub_count() == old(self).sub_count(),
            forall|i: int|
                0 <= i < old(self).sub_count() && i != sub as int ==> {
                    &&& final(self).sub_live(i) == old(self).sub_live(i)
                    &&& final(self).sub_seen(i) == old(self).sub_seen(i)
                    &&& final(self).sub_joined(i) == old(self).sub_joined(i)
                    &&& final(self).sub_delivered(i) == old(self).sub_delivered(i)
                    &&& final(self).sub_pending(i) == old(self).sub_pending(i)
                },
            final(self).sub_live(sub as int) == old(self).sub_live(sub as int),
            final(self).sub_seen(sub as int) == old(self).sub_seen(sub as int),
            final(self).sub_joined(sub as int) == old(self).sub_joined(sub as int),
            old(self).sub_pending(sub as int).len() == 0 ==> {
                &&& r is None
                &&& final(self).sub_delivered(sub as int) == old(self).sub_delivered(sub as int)
                &&& final(self).sub_pending(sub as int) == old(self).sub_pending(sub as int)
            },
            old(self).sub_pending(sub as int).len() > 0 ==> {
                &&& r == Some(old(self).sub_pending(sub as int)[0])
                &&& final(self).sub_delivered(sub as int) == old(self).sub_delivered(
                    sub as int,
                ).push(old(self).sub_pending(sub as int)[0])
                &&& final(self).sub_pending(sub as int) == old(self).sub_pending(
                    sub as int,
                ).skip(1)
            },
    {
        let ghost pre_subs = self.subs@;
        let mut s = self.subs.remove(sub);
        let r = if s.pending.len() > 0 {
            let line = s.pending.remove(0);
            let out = line.duplicate();
            s.delivered = Ghost(s.delivered@.push(line));
            proof {
                assert(s.pending@ =~= pre_subs[sub as int].pending@.skip(1));
                assert(s.delivered@ + s.pending@ =~= pre_subs[sub as int].delivered@
                    + pre_subs[sub as int].pending@);
                assert(Self::sub_inv(s, self.all@));
            }
            Some(out)
        } else {
            None
        };
        self.subs.insert(sub, s);
        proof {
            assert(self.subs@ =~= pre_subs.update(sub as int, s));
        }
        r
    }

    /// Drops subscriber `sub`: it takes no further lines. Used when a
    /// consumer is too slow or has disconnected; the producer never blocks
    /// on it.
    pub fn unsubscribe(&mut self, sub: usize)
        requires
            old(self).inv(),
            0 <= sub < old(self).sub_count(),
        ensures
            final(self).inv(),
            final(self).spec_all() == old(self).spec_all(),
            final(self).spec_history() == old(self).spec_history(),
            final(self).spec_capacity() == old(self).spec_capacity(),
            final(self).sub_count() == old(self).sub_count(),
            forall|i: int|
                0 <= i < old(self).sub_count() && i != sub as int ==> {
                    &&& final(self).sub_live(i) == old(self).sub_live(i)
                    &&& final(self).sub_seen(i) == old(self).sub_seen(i)
                    &&& final(self).sub_joined(i) == old(self).sub_joined(i)
                    &&& final(self).sub_delivered(i) == old(self).sub_delivered(i)
                    &&& final(self).sub_pending(i) == old(self).sub_pending(i)
                },
            !final(self).sub_live(sub as int),
            final(self).sub_seen(sub as int) == old(self).sub_seen(sub as int),
            final(self).sub_joined(sub as int) == old(self).sub_joined(sub as int),
            final(self).sub_delivered(sub as int) == old(self).sub_delivered(sub as int),
            final(self).sub_pending(sub as int) == old(self).sub_pending(sub as int),
    {
        let ghost pre_subs = self.subs@;
        let mut s = self.subs.remove(sub);
        s.live = false;
        self.subs.insert(sub, s);
        proof {
            assert(self.subs@ =~= pre_subs.update(sub as int, s));
        }
    }

    /// The retained history, oldest first.
    pub fn get(&self) -> (r: &Vec<LogLine>)
        ensures
            r@ == self.spec_history(),
    {
        &self.history
    }

    /// How many lines the history currently holds.
    pub fn history_len(&self) -> (r: usize)
        ensures
            r as nat == self.spec_history().len(),
    {
        self.history.len()
    }
}

/// Value-preserving copy of a line buffer.
pub fn duplicate_lines(v: &Vec<LogLine>) -> (r: Vec<LogLine>)
    ensures
        r@ == v@,
{
    let mut r: Vec<LogLine> = Vec::new();
    let mut i: usize = 0;
    while i < v.len()
        invariant
            i <= v.len(),
            r@ == v@.subrange(0, i as int),
        decreases v.len() - i,
    {
        r.push(v[i].duplicate());
        proof {
            assert(r@ =~= v@.subrange(0, i + 1 as int));
        }
        i = i + 1;
    }
    proof {
        assert(r@ =~= v@);
    }
    r
}

/// LAW: no gap and no duplicate at the history/live seam. For a live
/// subscriber, the snapshot it received at subscription, followed by the
/// lines it has already taken and the lines still queued for it, is exactly
/// the contiguous run of all pushed lines starting at the oldest line its
/// snapshot covered — so it sees every line from that point exactly once,
/// in append order.
pub proof fn lemma_subscriber_seam(sink: &IncrementalVec, i: int)
    requires
        sink.inv(),
        0 <= i < sink.sub_count(),
        sink.sub_live(i),
    ensures
        sink.sub_seen(i) + sink.sub_delivered(i) + sink.sub_pending(i) == sink.spec_all().skip(
            sink.sub_joined(i) - sink.sub_seen(i).len(),
        ),
        sink.sub_delivered(i) + sink.sub_pending(i) == sink.spec_all().skip(sink.sub_joined(i)),
{
    let a = sink.spec_all();
    let sn = sink.sub_seen(i);
    let d = sink.sub_delivered(i);
    let p = sink.sub_pending(i);
    let j = sink.sub_joined(i);
    let start = j - sn.len();
    assert(d + p =~= a.skip(j));
    assert forall|k: int| 0 <= k < (sn + d + p).len() implies ((sn + d) + p)[k] == a.skip(
        start,
    )[k] by {
        if k < sn.len() {
            assert(((sn + d) + p)[k] == sn[k]);
            assert(sn[k] == a.subrange(start, j)[k]);
            assert(sn[k] == a[start + k]);
        } else {
            assert(((sn + d) + p)[k] == (d + p)[k - sn.len()]);
            assert((d + p)[k - sn.len()] == a.skip(j)[k - sn.len()]);
            assert((d + p)[k - sn.len()] == a[j + k - sn.len()]);
        }
        assert(a.skip(start)[k] == a[start + k]);
    }
    assert(sn + d + p =~= a.skip(start));
}

} // verus!
