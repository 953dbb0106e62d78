//! The sample buffer between the graph-evaluation side and the device
//! callback side: a fixed-capacity ring of samples.  The producer appends
//! freshly rendered blocks; the consumer takes blocks out and is handed
//! silence for whatever is not there (an underrun degrades to silence, it
//! never stalls).

use vstd::prelude::*;

verus! {

/// Fixed-capacity ring of samples.
pub struct RingBuffer {
    /// Backing store; its length is the capacity and never changes.
    data: Vec<i64>,
    /// Index of the oldest stored sample.
    head: usize,
    /// How many samples are stored.
    count: usize,
}

impl RingBuffer {
    /// Structural soundness of the ring.
    pub closed spec fn wf(&self) -> bool {
        &&& 1 <= self.data@.len() <= 1_000_000_000
        &&& self.head < self.data@.len()
        &&& self.count <= self.data@.len()
    }

    /// How many samples the ring can hold.
    pub closed spec fn cap_spec(&self) -> int {
        self.data@.len() as int
    }

    /// The stored samples, oldest first.
    pub closed spec fn contents(&self) -> Seq<i64> {
        Seq::new(self.count as nat, |i: int| self.data@[(self.head + i) % self.cap_spec()])
    }

    /// An empty ring of capacity `cap`.
    pub fn new(cap: usize) -> (r: RingBuffer)
        requires
            1 <= cap <= 1_000_000_000,
        ensures
            r.wf(),
            r.cap_spec() == cap,
            r.contents() =~= Seq::<i64>::empty(),
    {
        let mut data: Vec<i64> = Vec::new();
        let mut i: usize = 0;
        while i < cap
            invariant
                i <= cap,
                data@.len() == i,
            decreases cap - i,
        {
            data.push(0);
            i = i + 1;
        }
        RingBuffer { data, head: 0, count: 0 }
    }

    /// How many samples the ring can hold.
    pub fn capacity(&self) -> (c: usize)
        requires
            self.wf(),
        ensures
            c == self.cap_spec(),
    {
        self.data.len()
    }

    /// How many samples are stored.
    pub fn len(&self) -> (n: usize)
        requires
            self.wf(),
        ensures
            n == self.contents().len(),
            self.contents().len() <= self.cap_spec(),
    {
        self.count
    }

    /// Appends a rendered block behind the stored samples.  Succeeds
    /// exactly when the block fits in the remaining room; a block that
    /// does not fit leaves the ring untouched.
    pub fn push_block(&mut self, block: &Vec<i64>) -> (ok: bool)
        requires
            old(self).wf(),
        ensures
            final(self).wf(),
            final(self).cap_spec() == old(self).cap_spec(),
            ok == (old(self).contents().len() + block@.len() <= old(self).cap_spec()),
            ok ==> final(self).contents() =~= old(self).contents() + block@,
            !ok ==> final(self).contents() =~= old(self).contents()
                && *final(self) == *old(self),
    {
        let cap: usize = self.data.len();
        if block.len() > cap - self.count {
            return false;
        }
        let ghost orig: RingBuffer = *self;
        let mut j: usize = 0;
        while j < block.len()
            invariant
                j <= block@.len(),
                self.data@.len() == orig.data@.len(),
                cap == orig.data@.len(),
                self.head == orig.head,
                self.count == orig.count,
                orig.wf(),
                orig.count + block@.len() <= cap,
                forall|i: int| 0 <= i < orig.count as int + j
                    ==> #[trigger] self.data@[(orig.head + i) % (cap as int)]
                        == (orig.contents() + block@)[i],
            decreases block@.len() - j,
        {
            let idx: usize = self.write_index(j);
            let v: i64 = block[j];
            self.data.set(idx, v);
            proof {
                assert forall|i: int| 0 <= i < orig.count as int + j + 1
                    implies #[trigger] self.data@[(orig.head + i) % (cap as int)]
                        == (orig.contents() + block@)[i] by {
                    lemma_ring_distinct(orig.head as int, i, orig.count + j as int,
                        cap as int);
                }
            }
            j = j + 1;
        }
        self.count = self.count + block.len();
        proof {
            assert(self.contents() =~= orig.contents() + block@);
        }
        true
    }

    /// Where the `j`-th appended sample lands.
    fn write_index(&self, j: usize) -> (idx: usize)
        requires
            self.wf(),
            self.count + j <= self.data@.len(),
        ensures
            idx == (self.head + self.count + j) % (self.data@.len() as int),
            idx < self.data@.len(),
    {
        let cap: usize = self.data.len();
        proof {
            vstd::arithmetic::div_mod::lemma_add_mod_noop(self.head as int,
                self.count + j as int, cap as int);
            assert((self.head + self.count + j) % (cap as int) < cap as int)
                by (nonlinear_arith)
                requires
                    cap as int >= 1,
                    self.head >= 0,
                    self.count >= 0,
                    j >= 0,
            ;
            assert((self.head as int % (cap as int)) + ((self.count + j) as int % (cap as int))
                < 2 * cap as int) by (nonlinear_arith)
                requires
                    cap as int >= 1,
                    self.head >= 0,
                    self.count >= 0,
                    j >= 0,
            ;
        }
        ((self.head % cap) + ((self.count + j) % cap)) % cap
    }

    /// Takes a block of `n` samples: the oldest stored samples first, and
    /// silence for the rest when fewer than `n` are stored.
    pub fn pop_block(&mut self, n: usize) -> (out: Vec<i64>)
        requires
            old(self).wf(),
        ensures
            final(self).wf(),
            final(self).cap_spec() == old(self).cap_spec(),
            out@.len() == n,
            forall|i: int| 0 <= i < n ==> #[trigger] out@[i]
                == if i < old(self).contents().len() {
                    old(self).contents()[i]
                } else {
                    0
                },
            final(self).contents() =~= old(self).contents().skip(
                if n <= old(self).contents().len() {
                    n as int
                } else {
                    old(self).contents().len() as int
                }),
    {
        let ghost orig: RingBuffer = *self;
        let cap: usize = self.data.len();
        let mut out: Vec<i64> = Vec::new();
        let mut i: usize = 0;
        while i < n
            invariant
                i <= n,
                *self == orig,
                cap == orig.data@.len(),
                orig.wf(),
                out@.len() == i,
                forall|k: int| 0 <= k < i ==> #[trigger] out@[k]
                    == if k < orig.contents().len() {
                        orig.contents()[k]
                    } else {
                        0
                    },
            decreases n - i,
        {
            if i < self.count {
                let idx: usize = self.read_index(i);
                out.push(self.data[idx]);
            } else {
                out.push(0);
            }
            i = i + 1;
        }
        let taken: usize = if n <= self.count {
            n
        } else {
            self.count
        };
        proof {
            assert(((self.head + taken) % (cap as int)) < cap as int) by (nonlinear_arith)
                requires
                    cap as int >= 1,
                    self.head >= 0,
                    taken >= 0,
            ;
        }
        proof {
            vstd::arithmetic::div_mod::lemma_add_mod_noop(self.head as int, taken as int,
                cap as int);
            assert((self.head as int % (cap as int)) + (taken as int % (cap as int))
                < 2 * cap as int) by (nonlinear_arith)
                requires
                    cap as int >= 1,
                    self.head >= 0,
                    taken >= 0,
            ;
        }
        self.head = ((self.head % cap) + (taken % cap)) % cap;
        self.count = self.count - taken;
        proof {
            assert forall|k: int| 0 <= k < self.count as int
                implies self.contents()[k] == orig.contents().skip(taken as int)[k] by {
                lemma_ring_shift(orig.head as int, taken as int, k, cap as int);
            }
            assert(self.contents() =~= orig.contents().skip(taken as int));
        }
        out
    }

    /// Where the `i`-th stored sample lives.
    fn read_index(&self, i: usize) -> (idx: usize)
        requires
            self.wf(),
            i < self.count,
        ensures
            idx == (self.head + i) % (self.data@.len() as int),
            idx < self.data@.len(),
    {
        let cap: usize = self.data.len();
        proof {
            vstd::arithmetic::div_mod::lemma_add_mod_noop(self.head as int, i as int,
                cap as int);
            assert((self.head + i) % (cap as int) < cap as int) by (nonlinear_arith)
                requires
                    cap as int >= 1,
                    self.head >= 0,
                    i >= 0,
            ;
            assert((self.head as int % (cap as int)) + (i as int % (cap as int))
                < 2 * cap as int) by (nonlinear_arith)
                requires
                    cap as int >= 1,
                    self.head >= 0,
                    i >= 0,
            ;
        }
        ((self.head % cap) + (i % cap)) % cap
    }
}

/// Ring positions of two offsets less than one full turn apart coincide
/// only for equal offsets.
proof fn lemma_ring_distinct(head: int, a: int, b: int, cap: int)
    requires
        cap >= 1,
        head >= 0,
        0 <= a,
        0 <= b,
        a < b < a + cap || b < a < b + cap || a == b,
    ensures
        ((head + a) % cap == (head + b) % cap) == (a == b),
{
    assert(((head + a) % cap == (head + b) % cap) == (a == b)) by (nonlinear_arith)
        requires
            cap >= 1,
            head >= 0,
            0 <= a,
            0 <= b,
            a < b < a + cap || b < a < b + cap || a == b,
    ;
}

/// Stepping the head forward by `t` renumbers the stored samples by `t`.
proof fn lemma_ring_shift(head: int, t: int, k: int, cap: int)
    requires
        cap >= 1,
        head >= 0,
        t >= 0,
        k >= 0,
    ensures
        (((head + t) % cap) + k) % cap == (head + (t + k)) % cap,
{
    vstd::arithmetic::div_mod::lemma_add_mod_noop(head + t, k, cap);
    vstd::arithmetic::div_mod::lemma_add_mod_noop_right((head + t) % cap, k, cap);
    vstd::arithmetic::div_mod::lemma_mod_twice(head + t, cap);
}

} // verus!
