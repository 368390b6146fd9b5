use vstd::prelude::*;

verus! {

/// One telemetry sample as exchanged across the fan-out boundary: the time
/// delta at position zero, then the three scalar channels. Position zero is
/// always the driver value.
#[derive(Clone, Copy, PartialEq, Eq, Structural, Debug)]
pub struct Tuple4 {
    pub dt: i64,
    pub a: i64,
    pub b: i64,
    pub c: i64,
}

/// A run of machine scalars, seen as mathematical values.
pub open spec fn to_ints(s: Seq<i64>) -> Seq<int> {
    s.map_values(|v: i64| v as int)
}

/// Whether a mathematical value is representable as an `i64`.
pub open spec fn fits_i64(v: int) -> bool {
    i64::MIN <= v <= i64::MAX
}

/// The sum of a run of mathematical values.
pub open spec fn seq_sum(s: Seq<int>) -> int
    decreases s.len(),
{
    if s.len() == 0 {
        0
    } else {
        seq_sum(s.drop_last()) + s.last()
    }
}

/// Every left-to-right partial sum of `s` is representable as an `i64`.
pub open spec fn sums_fit(s: Seq<int>) -> bool {
    forall|j: int| 0 <= j <= s.len() ==> fits_i64(seq_sum(#[trigger] s.take(j)))
}

/// Division with truncation toward zero, as machine division performs it.
pub open spec fn div_trunc(x: int, d: int) -> int {
    if x == 0 {
        0
    } else if x > 0 && d > 0 {
        x / d
    } else if x < 0 && d < 0 {
        (x * -1) / (d * -1)
    } else if x < 0 {
        ((x * -1) / d) * -1
    } else {
        (x / (d * -1)) * -1
    }
}

/// An optional machine scalar, seen as an optional mathematical value.
pub open spec fn opt_int(o: Option<i64>) -> Option<int> {
    match o {
        Option::None => Option::None,
        Option::Some(v) => Option::Some(v as int),
    }
}

/// A pull-based stream of scalars.
///
/// `H` is the shared context a stream reads when pulled: the broadcast hub
/// for subscription handles, or `()` for self-contained streams. A stream
/// emits its remaining values one per pull and reports exhaustion with
/// `None`; context changes between pulls (another driver tick) may extend
/// what remains.
pub trait Stream<H>: Sized {
    /// The values this stream will emit, one per pull, before it next
    /// reports exhaustion, given the current context.
    spec fn rem(&self, hub: &H) -> Seq<int>;

    /// Well-formedness: ties the stream to its context and guarantees that
    /// every intermediate value of the remaining computation fits in `i64`.
    spec fn inv(&self, hub: &H) -> bool;

    /// Pull one value: the head of `rem`, or `None` when nothing remains.
    fn next(&mut self, hub: &H) -> (r: Option<i64>)
        requires
            old(self).inv(hub),
        ensures
            final(self).inv(hub),
            r is Some ==> old(self).rem(hub).len() > 0 && r.unwrap() as int == old(self).rem(
                hub,
            )[0] && final(self).rem(hub) == old(self).rem(hub).drop_first(),
            r is None ==> old(self).rem(hub).len() == 0 && final(self).rem(hub) == old(self).rem(
                hub,
            ),
    ;
}

/// Replays an in-memory sequence of scalars: the leaf producer for sources
/// the caller has already materialised.
pub struct VecStream {
    data: Vec<i64>,
    pos: usize,
}

impl VecStream {
    pub closed spec fn spec_data(&self) -> Seq<i64> {
        self.data@
    }

    pub closed spec fn spec_pos(&self) -> nat {
        self.pos as nat
    }

    pub fn new(data: Vec<i64>) -> (r: Self)
        ensures
            r.spec_data() == data@,
            r.spec_pos() == 0,
    {
        VecStream { data, pos: 0 }
    }
}

impl<H> Stream<H> for VecStream {
    open spec fn rem(&self, hub: &H) -> Seq<int> {
        to_ints(self.spec_data()).skip(self.spec_pos() as int)
    }

    open spec fn inv(&self, hub: &H) -> bool {
        self.spec_pos() <= self.spec_data().len()
    }

    fn next(&mut self, _hub: &H) -> (r: Option<i64>) {
        if self.pos < self.data.len() {
            let v = self.data[self.pos];
            self.pos = self.pos + 1;
            proof {
                assert(self.rem(_hub) =~= old(self).rem(_hub).drop_first());
            }
            Some(v)
        } else {
            None
        }
    }
}

} // verus!
