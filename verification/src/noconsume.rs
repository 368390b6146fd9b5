use vstd::prelude::*;

use crate::stream::Stream;
use crate::stream::Tuple4;
use crate::stream::to_ints;

verus! {

/// The scalar at `lane` of a sample: the time delta at lane zero, then the
/// three channels in order.
pub open spec fn lane_of(q: Tuple4, lane: int) -> int {
    if lane == 0 {
        q.dt as int
    } else if lane == 1 {
        q.a as int
    } else if lane == 2 {
        q.b as int
    } else {
        q.c as int
    }
}

/// One lane of a run of samples, positions `from` (inclusive) to `to`
/// (exclusive).
pub open spec fn lane_seq(data: Seq<Tuple4>, from: int, to: int, lane: int) -> Seq<int> {
    data.subrange(from, to).map_values(|q: Tuple4| lane_of(q, lane))
}

/// Splits one producer run of samples into a driver stream plus up to three
/// independently pulled subscriber streams, one per channel.
///
/// The splitter owns the producer data and a delivery position. Each driver
/// pull advances the position by one sample and returns that sample's time
/// delta; the sample's channel values become available to the matching
/// subscribers. Delivery is driver-ordered: a subscriber sees exactly the
/// samples delivered after it subscribed and not yet consumed by it, and
/// a pull that outruns the driver reports exhaustion immediately rather
/// than waiting.
pub struct Unziperator {
    data: Vec<Tuple4>,
    pos: usize,
    done: bool,
    subs: usize,
}

impl Unziperator {
    /// The producer run this splitter distributes.
    pub closed spec fn spec_data(&self) -> Seq<Tuple4> {
        self.data@
    }

    /// How many samples the driver has delivered so far.
    pub closed spec fn spec_pos(&self) -> nat {
        self.pos as nat
    }

    /// Whether the driver has observed producer exhaustion and broadcast
    /// the end-of-stream marker.
    pub closed spec fn spec_done(&self) -> bool {
        self.done
    }

    /// How many subscribers have registered.
    pub closed spec fn spec_subs(&self) -> nat {
        self.subs as nat
    }

    pub open spec fn wf(&self) -> bool {
        &&& self.spec_pos() <= self.spec_data().len()
        &&& self.spec_subs() <= 3
        &&& (self.spec_done() ==> self.spec_pos() == self.spec_data().len())
    }

    pub fn new(inner: Vec<Tuple4>) -> (r: Self)
        ensures
            r.wf(),
            r.spec_data() == inner@,
            r.spec_pos() == 0,
            !r.spec_done(),
            r.spec_subs() == 0,
    {
        Unziperator { data: inner, pos: 0, done: false, subs: 0 }
    }

    /// Register a consumer for the next free channel. A subscriber created
    /// after the driver has advanced past a sample never receives it.
    pub fn subscribe(&mut self) -> (child: NCIterChild)
        requires
            old(self).wf(),
            old(self).spec_subs() < 3,
        ensures
            final(self).wf(),
            final(self).spec_data() == old(self).spec_data(),
            final(self).spec_pos() == old(self).spec_pos(),
            final(self).spec_done() == old(self).spec_done(),
            final(self).spec_subs() == old(self).spec_subs() + 1,
            child.spec_lane() == old(self).spec_subs() + 1,
            child.spec_cursor() == old(self).spec_pos(),
            !child.spec_exhausted(),
    {
        self.subs = self.subs + 1;
        NCIterChild { lane: self.subs, cursor: self.pos, exhausted: false }
    }

    /// The driver pull: deliver one sample, handing its channel values to
    /// the subscribers, and return its time delta; or, once the producer is
    /// exhausted, broadcast the end-of-stream marker and report exhaustion.
    pub fn next(&mut self) -> (r: Option<i64>)
        requires
            old(self).wf(),
        ensures
            final(self).wf(),
            final(self).spec_data() == old(self).spec_data(),
            final(self).spec_subs() == old(self).spec_subs(),
            old(self).spec_pos() < old(self).spec_data().len() ==> r == Some(
                old(self).spec_data()[old(self).spec_pos() as int].dt,
            ) && final(self).spec_pos() == old(self).spec_pos() + 1 && final(self).spec_done()
                == old(self).spec_done(),
            old(self).spec_pos() == old(self).spec_data().len() ==> r is None && final(self).spec_pos() == old(self).spec_pos() && final(self).spec_done(),
    {
        if self.pos < self.data.len() {
            let q = self.data[self.pos];
            self.pos = self.pos + 1;
            Some(q.dt)
        } else {
            self.done = true;
            None
        }
    }
}

/// A subscription handle: one consumer's position in the stream its
/// splitter distributes.
///
/// A pull is non-blocking: if the driver has delivered a sample this
/// consumer has not seen, the pull consumes it; if the consumer has caught
/// up with the driver, the pull reports exhaustion immediately — permanently
/// so once the end-of-stream marker has been delivered, and merely for this
/// pull otherwise. Correct use is therefore driver-ordered: within a tick,
/// pull the driver once before pulling each subscriber at most once.
pub struct NCIterChild {
    lane: usize,
    cursor: usize,
    exhausted: bool,
}

/// The three-way result of a non-blocking receive: a delivered value, a
/// definite end of stream, or nothing available yet because the driver has
/// not advanced that far.
#[derive(Clone, Copy, PartialEq, Eq, Structural, Debug)]
pub enum Delivery {
    Pending,
    Value(i64),
    Ended,
}

impl NCIterChild {
    /// Which position of each sample this handle receives.
    pub closed spec fn spec_lane(&self) -> nat {
        self.lane as nat
    }

    /// The first sample position this handle has not consumed.
    pub closed spec fn spec_cursor(&self) -> nat {
        self.cursor as nat
    }

    /// Whether the end-of-stream marker has been consumed.
    pub closed spec fn spec_exhausted(&self) -> bool {
        self.exhausted
    }

    /// The hardened receive: like the pull of [`Stream::next`], but it
    /// keeps "nothing delivered yet" apart from "definitely ended", so a
    /// consumer pulled ahead of the driver can tell the two outcomes apart.
    pub fn poll(&mut self, hub: &Unziperator) -> (r: Delivery)
        requires
            old(self).inv(hub),
        ensures
            final(self).inv(hub),
            final(self).spec_lane() == old(self).spec_lane(),
            old(self).spec_exhausted() ==> r == Delivery::Ended && *final(self) == *old(self),
            !old(self).spec_exhausted() && old(self).spec_cursor() < hub.spec_pos() ==> (r matches
                Delivery::Value(v) && v as int == lane_of(
                hub.spec_data()[old(self).spec_cursor() as int],
                old(self).spec_lane() as int,
            )) && final(self).spec_cursor() == old(self).spec_cursor() + 1 && !final(self).spec_exhausted(),
            !old(self).spec_exhausted() && old(self).spec_cursor() == hub.spec_pos()
                && hub.spec_done() ==> r == Delivery::Ended && final(self).spec_exhausted(),
            !old(self).spec_exhausted() && old(self).spec_cursor() == hub.spec_pos()
                && !hub.spec_done() ==> r == Delivery::Pending && *final(self) == *old(self),
    {
        if self.exhausted {
            return Delivery::Ended;
        }
        if self.cursor < hub.pos {
            let q = hub.data[self.cursor];
            self.cursor = self.cursor + 1;
            let v = if self.lane == 0 {
                q.dt
            } else if self.lane == 1 {
                q.a
            } else if self.lane == 2 {
                q.b
            } else {
                q.c
            };
            Delivery::Value(v)
        } else if hub.done {
            self.exhausted = true;
            Delivery::Ended
        } else {
            Delivery::Pending
        }
    }
}

impl Stream<Unziperator> for NCIterChild {
    open spec fn rem(&self, hub: &Unziperator) -> Seq<int> {
        if self.spec_exhausted() {
            Seq::empty()
        } else {
            lane_seq(
                hub.spec_data(),
                self.spec_cursor() as int,
                hub.spec_pos() as int,
                self.spec_lane() as int,
            )
        }
    }

    open spec fn inv(&self, hub: &Unziperator) -> bool {
        &&& hub.wf()
        &&& self.spec_lane() <= 3
        &&& self.spec_cursor() <= hub.spec_pos()
    }

    fn next(&mut self, hub: &Unziperator) -> (r: Option<i64>)
        ensures
            final(self).spec_lane() == old(self).spec_lane(),
            old(self).spec_exhausted() ==> r is None && *final(self) == *old(self),
            !old(self).spec_exhausted() && old(self).spec_cursor() < hub.spec_pos() ==> r is Some
                && final(self).spec_cursor() == old(self).spec_cursor() + 1 && !final(self).spec_exhausted() && r.unwrap() as int == lane_of(
                hub.spec_data()[old(self).spec_cursor() as int],
                old(self).spec_lane() as int,
            ),
            !old(self).spec_exhausted() && old(self).spec_cursor() == hub.spec_pos() ==> r is None
                && final(self).spec_cursor() == old(self).spec_cursor() && (final(self).spec_exhausted() <==> hub.spec_done()),
    {
        if self.exhausted {
            return None;
        }
        if self.cursor < hub.pos {
            let q = hub.data[self.cursor];
            self.cursor = self.cursor + 1;
            let v = if self.lane == 0 {
                q.dt
            } else if self.lane == 1 {
                q.a
            } else if self.lane == 2 {
                q.b
            } else {
                q.c
            };
            proof {
                assert(final(self).rem(hub) =~= old(self).rem(hub).drop_first());
            }
            Some(v)
        } else {
            if hub.done {
                self.exhausted = true;
            }
            proof {
                assert(old(self).rem(hub) =~= Seq::<int>::empty());
                assert(final(self).rem(hub) =~= Seq::<int>::empty());
            }
            None
        }
    }
}

/// Broadcasts its driver stream: wraps a splitter, returns each time delta
/// the splitter's driver emits, and makes the same value available to every
/// one of its own subscribers.
pub struct Teeterator {
    inner: Unziperator,
    subs: usize,
}

impl Teeterator {
    /// The wrapped splitter.
    pub closed spec fn spec_inner(&self) -> Unziperator {
        self.inner
    }

    /// How many broadcast subscribers have registered.
    pub closed spec fn spec_subs(&self) -> nat {
        self.subs as nat
    }

    pub fn new(inner: Unziperator) -> (r: Self)
        ensures
            r.spec_inner() == inner,
            r.spec_subs() == 0,
    {
        Teeterator { inner, subs: 0 }
    }

    /// Register a consumer of the broadcast driver values. As with the
    /// splitter, there is no backfill: the subscriber sees only values the
    /// driver emits after this call.
    pub fn subscribe(&mut self) -> (child: NCIterChild)
        requires
            old(self).spec_inner().wf(),
            old(self).spec_subs() < usize::MAX,
        ensures
            final(self).spec_inner() == old(self).spec_inner(),
            final(self).spec_subs() == old(self).spec_subs() + 1,
            child.spec_lane() == 0,
            child.spec_cursor() == old(self).spec_inner().spec_pos(),
            !child.spec_exhausted(),
    {
        self.subs = self.subs + 1;
        NCIterChild { lane: 0, cursor: self.inner.pos, exhausted: false }
    }

    /// The shared context against which this broadcaster's and the wrapped
    /// splitter's subscription handles are pulled.
    pub fn hub<'a>(&'a self) -> (r: &'a Unziperator)
        ensures
            *r == self.spec_inner(),
    {
        &self.inner
    }

    /// The driver pull: advance the wrapped splitter's driver by one tick,
    /// broadcast the emitted time delta to this broadcaster's subscribers,
    /// and return it.
    pub fn next(&mut self) -> (r: Option<i64>)
        requires
            old(self).spec_inner().wf(),
        ensures
            final(self).spec_inner().wf(),
            final(self).spec_subs() == old(self).spec_subs(),
            final(self).spec_inner().spec_data() == old(self).spec_inner().spec_data(),
            final(self).spec_inner().spec_subs() == old(self).spec_inner().spec_subs(),
            old(self).spec_inner().spec_pos() < old(self).spec_inner().spec_data().len() ==> r
                == Some(
                old(self).spec_inner().spec_data()[old(self).spec_inner().spec_pos() as int].dt,
            ) && final(self).spec_inner().spec_pos() == old(self).spec_inner().spec_pos() + 1
                && final(self).spec_inner().spec_done() == old(self).spec_inner().spec_done(),
            old(self).spec_inner().spec_pos() == old(self).spec_inner().spec_data().len() ==> r
                is None && final(self).spec_inner().spec_pos() == old(self).spec_inner().spec_pos()
                && final(self).spec_inner().spec_done(),
    {
        self.inner.next()
    }
}

/// Fan-out exactness law, demonstrated end to end: when the driver is
/// pulled exactly once per tick, followed by exactly one pull per
/// subscriber, every subscriber receives exactly the values at its position
/// of each sample, in original order — and, after the driver has broadcast
/// the end-of-stream marker, a further pull on each subscriber reports
/// permanent exhaustion.
///
/// Returns the driver lane and the three subscriber lanes, in order.
pub fn broadcast_run(data: Vec<Tuple4>) -> (r: (Vec<i64>, Vec<i64>, Vec<i64>, Vec<i64>))
    ensures
        to_ints(r.0@) == lane_seq(data@, 0, data@.len() as int, 0),
        to_ints(r.1@) == lane_seq(data@, 0, data@.len() as int, 1),
        to_ints(r.2@) == lane_seq(data@, 0, data@.len() as int, 2),
        to_ints(r.3@) == lane_seq(data@, 0, data@.len() as int, 3),
{
    let n = data.len();
    let ghost gdata = data@;
    let mut unz = Unziperator::new(data);
    let mut c1 = unz.subscribe();
    let mut c2 = unz.subscribe();
    let mut c3 = unz.subscribe();
    let mut r0: Vec<i64> = Vec::new();
    let mut r1: Vec<i64> = Vec::new();
    let mut r2: Vec<i64> = Vec::new();
    let mut r3: Vec<i64> = Vec::new();
    for i in 0..n
        invariant
            n == gdata.len(),
            unz.wf(),
            unz.spec_data() == gdata,
            unz.spec_pos() == i,
            !unz.spec_done(),
            c1.spec_lane() == 1 && c1.spec_cursor() == i && !c1.spec_exhausted(),
            c2.spec_lane() == 2 && c2.spec_cursor() == i && !c2.spec_exhausted(),
            c3.spec_lane() == 3 && c3.spec_cursor() == i && !c3.spec_exhausted(),
            to_ints(r0@) == lane_seq(gdata, 0, i as int, 0),
            to_ints(r1@) == lane_seq(gdata, 0, i as int, 1),
            to_ints(r2@) == lane_seq(gdata, 0, i as int, 2),
            to_ints(r3@) == lane_seq(gdata, 0, i as int, 3),
    {
        let t = unz.next();
        let v1 = c1.next(&unz);
        let v2 = c2.next(&unz);
        let v3 = c3.next(&unz);
        let ghost pre0 = r0@;
        let ghost pre1 = r1@;
        let ghost pre2 = r2@;
        let ghost pre3 = r3@;
        r0.push(t.unwrap());
        r1.push(v1.unwrap());
        r2.push(v2.unwrap());
        r3.push(v3.unwrap());
        proof {
            assert(to_ints(r0@) =~= to_ints(pre0).push(t.unwrap() as int));
            assert(to_ints(r1@) =~= to_ints(pre1).push(v1.unwrap() as int));
            assert(to_ints(r2@) =~= to_ints(pre2).push(v2.unwrap() as int));
            assert(to_ints(r3@) =~= to_ints(pre3).push(v3.unwrap() as int));
            assert(lane_seq(gdata, 0, i + 1, 0) =~= lane_seq(gdata, 0, i as int, 0).push(
                lane_of(gdata[i as int], 0),
            ));
            assert(lane_seq(gdata, 0, i + 1, 1) =~= lane_seq(gdata, 0, i as int, 1).push(
                lane_of(gdata[i as int], 1),
            ));
            assert(lane_seq(gdata, 0, i + 1, 2) =~= lane_seq(gdata, 0, i as int, 2).push(
                lane_of(gdata[i as int], 2),
            ));
            assert(lane_seq(gdata, 0, i + 1, 3) =~= lane_seq(gdata, 0, i as int, 3).push(
                lane_of(gdata[i as int], 3),
            ));
        }
    }
    let t_end = unz.next();
    let v1_end = c1.next(&unz);
    let v2_end = c2.next(&unz);
    let v3_end = c3.next(&unz);
    proof {
        assert(t_end is None && v1_end is None && v2_end is None && v3_end is None);
        assert(c1.spec_exhausted() && c2.spec_exhausted() && c3.spec_exhausted());
    }
    (r0, r1, r2, r3)
}

} // verus!
