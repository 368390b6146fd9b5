use vstd::prelude::*;

verus! {

/// One push at the level of the abstract first-in-first-out contents:
/// the new contents and the evicted item, if any.
pub open spec fn ring_step<T>(s: Seq<T>, cap: nat, t: T) -> (Seq<T>, Option<T>) {
    if s.len() < cap {
        (s.push(t), None)
    } else {
        (s.drop_first().push(t), Some(s[0]))
    }
}

/// The abstract contents after a run of pushes, starting from contents `s`.
pub open spec fn ring_run<T>(s: Seq<T>, cap: nat, pushes: Seq<T>) -> Seq<T>
    decreases pushes.len(),
{
    if pushes.len() == 0 {
        s
    } else {
        ring_run(ring_step(s, cap, pushes[0]).0, cap, pushes.drop_first())
    }
}

/// Fixed-capacity circular store with oldest-overwrite semantics.
///
/// Slots fill up until `capacity` items have been pushed; afterwards each
/// push overwrites exactly the oldest surviving item and hands it back.
pub struct CircBuf<T> {
    buf: Vec<T>,
    index: usize,
    cap: usize,
}

impl<T> CircBuf<T> {
    /// The stored items, oldest first.
    pub closed spec fn contents(self) -> Seq<T> {
        self.buf@.subrange(self.index as int, self.buf@.len() as int)
            + self.buf@.subrange(0, self.index as int)
    }

    pub closed spec fn capacity(self) -> nat {
        self.cap as nat
    }

    pub closed spec fn well_formed(self) -> bool {
        &&& self.buf@.len() <= self.cap
        &&& (self.buf@.len() < self.cap ==> self.index == 0)
        &&& (self.index < self.buf@.len() || self.index == 0)
    }

    pub fn new(size: usize) -> (r: Self)
        ensures
            r.well_formed(),
            r.capacity() == size,
            r.contents() == Seq::<T>::empty(),
    {
        let r = CircBuf { buf: Vec::new(), index: 0, cap: size };
        proof {
            assert(r.contents() =~= Seq::<T>::empty());
        }
        r
    }

    /// Store `t`. While the buffer is not yet full this appends and evicts
    /// nothing; once full it replaces and returns the oldest surviving item.
    pub fn push(&mut self, t: T) -> (evicted: Option<T>)
        requires
            old(self).well_formed(),
            old(self).capacity() > 0,
        ensures
            final(self).well_formed(),
            final(self).capacity() == old(self).capacity(),
            final(self).contents() == ring_step(old(self).contents(), old(self).capacity(), t).0,
            evicted == ring_step(old(self).contents(), old(self).capacity(), t).1,
            old(self).contents().len() < old(self).capacity() <==> evicted is None,
    {
        if self.buf.len() < self.cap {
            self.buf.push(t);
            proof {
                assert(self.contents() =~= old(self).contents().push(t));
            }
            return None;
        }
        let ghost prev = *self;
        let mut tmp = t;
        core::mem::swap(&mut self.buf[self.index], &mut tmp);
        self.index = self.index + 1;
        if self.index == self.buf.len() {
            self.index = 0;
        }
        proof {
            assert(self.contents() =~= prev.contents().drop_first().push(t));
            assert(tmp == prev.contents()[0]);
        }
        Some(tmp)
    }

    /// A lazy walk over the stored items, oldest first. Restartable: a fresh
    /// walk can be produced at any time.
    pub fn iter<'a>(&'a self) -> (r: Iter<'a, T>)
        requires
            self.well_formed(),
        ensures
            r.well_formed(),
            r.items() == self.contents(),
            r.pos() == 0,
    {
        Iter { buf: &self.buf, offset: self.index, i: 0 }
    }
}

/// Whether `r` can be the result of folding `f` over `s` starting from
/// `init`: there is a chain of intermediate accumulators, each a permitted
/// result of one call of `f`.
pub open spec fn fold_rel<A, T, F: Fn(A, T) -> A>(f: F, s: Seq<T>, init: A, r: A) -> bool
    decreases s.len(),
{
    if s.len() == 0 {
        r == init
    } else {
        exists|m: A| #[trigger] f.ensures((init, s[0]), m) && fold_rel(f, s.drop_first(), m, r)
    }
}

/// `f` may be called all along a fold of `s` starting from `init`,
/// whatever intermediate accumulators its own contract permits.
pub open spec fn fold_req<A, T, F: Fn(A, T) -> A>(f: F, s: Seq<T>, init: A) -> bool
    decreases s.len(),
{
    s.len() > 0 ==> f.requires((init, s[0])) && (forall|m: A|
        #[trigger] f.ensures((init, s[0]), m) ==> fold_req(f, s.drop_first(), m))
}

/// Extending a fold chain by one more call.
proof fn lemma_fold_rel_push<A, T, F: Fn(A, T) -> A>(f: F, s: Seq<T>, init: A, a: A, x: T, m: A)
    requires
        fold_rel(f, s, init, a),
        f.ensures((a, x), m),
    ensures
        fold_rel(f, s.push(x), init, m),
    decreases s.len(),
{
    if s.len() == 0 {
        assert(s.push(x)[0] == x);
        assert(s.push(x).drop_first() =~= s);
        assert(f.ensures((init, x), m));
        assert(fold_rel(f, s.push(x).drop_first(), m, m));
    } else {
        let m0 = choose|m0: A|
            #[trigger] f.ensures((init, s[0]), m0) && fold_rel(f, s.drop_first(), m0, a);
        lemma_fold_rel_push(f, s.drop_first(), m0, a, x, m);
        assert(s.push(x).drop_first() =~= s.drop_first().push(x));
        assert(s.push(x)[0] == s[0]);
        assert(f.ensures((init, s.push(x)[0]), m0) && fold_rel(f, s.push(x).drop_first(), m0, m));
    }
}

impl<T: Copy> CircBuf<T> {
    /// Reduce over the stored items, oldest first: each call of `f` turns
    /// the accumulator and one item into the next accumulator.
    pub fn fold<A, F: Fn(A, T) -> A>(&self, init: A, f: F) -> (r: A)
        requires
            self.well_formed(),
            fold_req(f, self.contents(), init),
        ensures
            fold_rel(f, self.contents(), init, r),
    {
        let ghost cs = self.contents();
        let len = self.buf.len();
        let mut acc: A = init;
        let mut j: usize = 0;
        proof {
            assert(cs.skip(0) =~= cs);
            assert(cs.take(0) =~= Seq::<T>::empty());
        }
        while j < len
            invariant
                self.well_formed(),
                cs == self.contents(),
                len == self.buf@.len(),
                cs.len() == len,
                j <= len,
                fold_rel(f, cs.take(j as int), init, acc),
                fold_req(f, cs.skip(j as int), acc),
            decreases len - j,
        {
            let idx = if self.index < len - j {
                j + self.index
            } else {
                j - (len - self.index)
            };
            let v = self.buf[idx];
            proof {
                assert(v == cs[j as int]);
                assert(cs.skip(j as int)[0] == cs[j as int]);
            }
            let ghost prev = acc;
            acc = f(acc, v);
            proof {
                lemma_fold_rel_push(f, cs.take(j as int), init, prev, v, acc);
                assert(cs.take(j as int).push(v) =~= cs.take(j as int + 1));
                assert(cs.skip(j as int).drop_first() =~= cs.skip(j as int + 1));
            }
            j = j + 1;
        }
        proof {
            assert(cs.take(len as int) =~= cs);
        }
        acc
    }
}

/// A position in an oldest-to-newest walk over a [`CircBuf`].
pub struct Iter<'a, T> {
    buf: &'a Vec<T>,
    offset: usize,
    i: usize,
}

impl<'a, T> Iter<'a, T> {
    /// Every item the walk covers, oldest first.
    pub closed spec fn items(self) -> Seq<T> {
        self.buf@.subrange(self.offset as int, self.buf@.len() as int)
            + self.buf@.subrange(0, self.offset as int)
    }

    /// How many items have been handed out so far.
    pub closed spec fn pos(self) -> nat {
        self.i as nat
    }

    pub closed spec fn well_formed(self) -> bool {
        &&& (self.offset < self.buf@.len() || self.offset == 0)
        &&& self.i <= self.buf@.len()
    }

    /// The next stored item, or `None` once the walk is complete.
    pub fn next(&mut self) -> (r: Option<&'a T>)
        requires
            old(self).well_formed(),
        ensures
            final(self).well_formed(),
            final(self).items() == old(self).items(),
            old(self).pos() < old(self).items().len() ==> (r is Some
                && *r.unwrap() == old(self).items()[old(self).pos() as int]
                && final(self).pos() == old(self).pos() + 1),
            old(self).pos() >= old(self).items().len() ==> (r is None
                && final(self).pos() == old(self).pos()),
    {
        let len = self.buf.len();
        if self.i == len {
            return None;
        }
        let j = if self.offset < len - self.i {
            self.i + self.offset
        } else {
            self.i - (len - self.offset)
        };
        let item = &self.buf[j];
        proof {
            assert(*item == self.items()[self.i as int]);
        }
        self.i = self.i + 1;
        Some(item)
    }
}

/// Eviction law: pushing at least `cap` items into an empty buffer leaves
/// exactly the last `cap` pushed items, in push order.
pub proof fn lemma_ring_eviction<T>(pushes: Seq<T>, cap: nat)
    requires
        cap > 0,
        pushes.len() >= cap,
    ensures
        ring_run(Seq::<T>::empty(), cap, pushes) == pushes.skip(pushes.len() - cap),
{
    lemma_ring_run_contents(Seq::<T>::empty(), cap, pushes);
}

/// Contents after a run of pushes: the last `cap` items of the concatenation
/// of what was already stored and what was pushed.
pub proof fn lemma_ring_run_contents<T>(s: Seq<T>, cap: nat, pushes: Seq<T>)
    requires
        cap > 0,
        s.len() <= cap,
    ensures
        ring_run(s, cap, pushes) == (if s.len() + pushes.len() <= cap {
            s + pushes
        } else {
            (s + pushes).skip(s.len() + pushes.len() - cap)
        }),
    decreases pushes.len(),
{
    if pushes.len() == 0 {
        assert(ring_run(s, cap, pushes) =~= (s + pushes));
    } else {
        let t = pushes[0];
        let rest = pushes.drop_first();
        let s1 = ring_step(s, cap, t).0;
        if s.len() < cap {
            assert(s1 == s.push(t));
            assert(s1.len() == s.len() + 1);
            lemma_ring_run_contents(s1, cap, rest);
            assert(s1 + rest =~= s + pushes);
            if s.len() + pushes.len() <= cap {
                assert(ring_run(s, cap, pushes) == s1 + rest);
            } else {
                assert(ring_run(s, cap, pushes) == (s1 + rest).skip(
                    s1.len() + rest.len() - cap,
                ));
            }
        } else {
            assert(s.len() == cap);
            assert(s1 == s.drop_first().push(t));
            assert(s1.len() == cap);
            lemma_ring_run_contents(s1, cap, rest);
            assert(s1 + rest =~= (s + pushes).skip(1));
            if rest.len() == 0 {
                assert(ring_run(s, cap, pushes) == s1 + rest);
                assert(s.len() + pushes.len() - cap == 1);
            } else {
                assert(ring_run(s, cap, pushes) == (s1 + rest).skip(rest.len() as int));
                assert((s1 + rest).skip(rest.len() as int) =~= (s + pushes).skip(
                    s.len() + pushes.len() - cap,
                ));
            }
        }
    }
}

} // verus!
