use vstd::prelude::*;

verus! {

use vstd::pervasive::VecAdditionalExecFns;
use vstd::arithmetic::div_mod::{
    lemma_fundamental_div_mod,
    lemma_mod_multiples_basic,
    lemma_small_mod,
};

/// A bounded single-producer/single-consumer ring of frame offsets, in the
/// shape shared with the kernel packet path: a circular buffer of entries
/// plus a consumer index and a producer index. The producer may not advance
/// past `consumer + capacity`; the consumer may not advance past the
/// producer. One instantiation each serves as the fill, completion, transmit
/// and receive ring. `produce` and `consume` never block: scarcity shows up
/// as partial acceptance or an empty result.
pub struct RingQueue {
    buf: Vec<u64>,
    /// Consumer index, kept below `capacity` by normalisation.
    head: usize,
    /// Producer index; pending entries sit at positions `head..tail`, taken
    /// modulo the capacity.
    tail: usize,
    /// Whether the consuming side has parked and must be notified of new
    /// entries before it makes progress again.
    needs_wakeup_flag: bool,
}

impl RingQueue {
    /// Number of slots in the ring.
    pub closed spec fn capacity(self) -> int {
        self.buf@.len() as int
    }

    pub closed spec fn wf(self) -> bool {
        &&& self.buf@.len() >= 1
        &&& self.buf@.len() <= usize::MAX as int / 2
        &&& (self.head as int) < self.buf@.len()
        &&& self.head <= self.tail
        &&& self.tail as int <= self.head as int + self.buf@.len()
    }

    /// The entries produced but not yet consumed, oldest first.
    pub closed spec fn pending(self) -> Seq<u64> {
        Seq::new(
            (self.tail - self.head) as nat,
            |i: int| self.buf@[(self.head + i) % (self.buf@.len() as int)],
        )
    }

    pub closed spec fn spec_needs_wakeup(self) -> bool {
        self.needs_wakeup_flag
    }

    pub fn new(capacity: usize) -> (r: RingQueue)
        requires
            1 <= capacity <= usize::MAX / 2,
        ensures
            r.wf(),
            r.capacity() == capacity,
            r.pending() == Seq::<u64>::empty(),
            !r.spec_needs_wakeup(),
    {
        let mut buf: Vec<u64> = Vec::new();
        while buf.len() < capacity
            invariant
                buf@.len() <= capacity,
            decreases capacity - buf.len(),
        {
            buf.push(0);
        }
        let r = RingQueue { buf, head: 0, tail: 0, needs_wakeup_flag: false };
        proof {
            assert(r.pending() =~= Seq::<u64>::empty());
        }
        r
    }

    /// How many entries are pending.
    pub fn len(&self) -> (n: usize)
        requires
            self.wf(),
        ensures
            n == self.pending().len(),
    {
        self.tail - self.head
    }

    /// How many more entries the ring can take before it is full.
    pub fn free_slots(&self) -> (n: usize)
        requires
            self.wf(),
        ensures
            n == self.capacity() - self.pending().len(),
    {
        self.buf.len() - (self.tail - self.head)
    }

    pub fn ring_capacity(&self) -> (n: usize)
        requires
            self.wf(),
        ensures
            n == self.capacity(),
    {
        self.buf.len()
    }

    /// Two positions less than a capacity apart land on distinct slots.
    proof fn lemma_slot_distinct(a: int, b: int, m: int)
        requires
            m >= 1,
            a < b,
            b - a < m,
        ensures
            a % m != b % m,
    {
        if a % m == b % m {
            lemma_fundamental_div_mod(a, m);
            lemma_fundamental_div_mod(b, m);
            assert(b - a == (b / m - a / m) * m) by (nonlinear_arith)
                requires
                    a == m * (a / m) + a % m,
                    b == m * (b / m) + b % m,
                    a % m == b % m,
            ;
            lemma_mod_multiples_basic(b / m - a / m, m);
            lemma_small_mod((b - a) as nat, m as nat);
        }
    }

    /// Append one entry if a slot is free; report whether it was taken.
    pub fn try_push(&mut self, e: u64) -> (accepted: bool)
        requires
            old(self).wf(),
        ensures
            final(self).wf(),
            final(self).capacity() == old(self).capacity(),
            final(self).spec_needs_wakeup() == old(self).spec_needs_wakeup(),
            accepted == (old(self).pending().len() < old(self).capacity()),
            accepted ==> final(self).pending() == old(self).pending().push(e),
            !accepted ==> final(self).pending() == old(self).pending(),
    {
        let cap = self.buf.len();
        if self.tail - self.head == cap {
            return false;
        }
        let w = if self.tail >= cap {
            self.tail - cap
        } else {
            self.tail
        };
        proof {
            lemma_fundamental_div_mod(self.tail as int, cap as int);
            lemma_small_mod(w as nat, cap as nat);
            if self.tail >= cap {
                lemma_mod_multiples_basic(1, cap as int);
                assert((self.tail as int) % (cap as int) == w as int) by {
                    lemma_fundamental_div_mod(self.tail as int, cap as int);
                    assert(self.tail as int == 1 * (cap as int) + w as int);
                    vstd::arithmetic::div_mod::lemma_fundamental_div_mod_converse_mod(
                        self.tail as int, cap as int, 1, w as int);
                }
            }
        }
        self.buf.set(w, e);
        self.tail = self.tail + 1;
        proof {
            let ghost pre = old(self);
            let ghost m = cap as int;
            assert forall|i: int| 0 <= i < pre.pending().len() implies
                self.pending()[i] == pre.pending()[i] by {
                Self::lemma_slot_distinct(pre.head + i, pre.tail as int, m);
                assert((pre.tail as int) % m == w as int);
            }
            assert(self.pending()[pre.pending().len() as int] == e) by {
                assert((pre.head + (pre.tail - pre.head)) % m == w as int);
            }
            assert(self.pending() =~= pre.pending().push(e));
        }
        true
    }

    /// Remove and return the oldest pending entry, if any.
    pub fn pop_front(&mut self) -> (r: Option<u64>)
        requires
            old(self).wf(),
        ensures
            final(self).wf(),
            final(self).capacity() == old(self).capacity(),
            final(self).spec_needs_wakeup() == old(self).spec_needs_wakeup(),
            old(self).pending().len() == 0 ==> r is None && final(self).pending() == old(self).pending(),
            old(self).pending().len() > 0 ==> {
                &&& r == Some(old(self).pending()[0])
                &&& final(self).pending() == old(self).pending().skip(1)
            },
    {
        if self.tail == self.head {
            proof { assert(self.pending() =~= old(self).pending()); }
            return None;
        }
        let cap = self.buf.len();
        let e = self.buf[self.head];
        proof {
            lemma_small_mod(self.head as nat, cap as nat);
            assert(old(self).pending()[0] == e);
        }
        let h2 = self.head + 1;
        if h2 == cap {
            self.head = 0;
            self.tail = self.tail - cap;
        } else {
            self.head = h2;
        }
        proof {
            let ghost pre = old(self);
            let ghost m = cap as int;
            assert forall|i: int| 0 <= i < self.pending().len() implies
                self.pending()[i] == pre.pending()[i + 1] by {
                if pre.head + 1 == cap {
                    // New head is 0; old position head + 1 + i wraps to i.
                    assert((self.head + i) % m == i % m);
                    lemma_small_mod(i as nat, cap as nat);
                    assert((pre.head + (i + 1)) == m + i);
                    lemma_fundamental_div_mod(m + i, m);
                    vstd::arithmetic::div_mod::lemma_fundamental_div_mod_converse_mod(
                        m + i, m, 1, i);
                }
            }
            assert(self.pending() =~= pre.pending().skip(1));
        }
        Some(e)
    }

    /// Produce entries onto the ring. Accepts up to the number of free
    /// slots; the result says how many of `entries`, from the front, were
    /// taken. Never blocks; zero is a normal outcome on a full ring.
    pub fn produce(&mut self, entries: &Vec<u64>) -> (n: usize)
        requires
            old(self).wf(),
        ensures
            final(self).wf(),
            final(self).capacity() == old(self).capacity(),
            final(self).spec_needs_wakeup() == old(self).spec_needs_wakeup(),
            n == vstd::math::min(entries@.len() as int, old(self).capacity() - old(self).pending().len()),
            final(self).pending() == old(self).pending() + entries@.take(n as int),
    {
        let free = self.buf.len() - (self.tail - self.head);
        let n = if entries.len() < free {
            entries.len()
        } else {
            free
        };
        let mut i: usize = 0;
        while i < n
            invariant
                i <= n,
                n <= entries@.len(),
                self.wf(),
                self.capacity() == old(self).capacity(),
                self.spec_needs_wakeup() == old(self).spec_needs_wakeup(),
                n as int <= old(self).capacity() - old(self).pending().len(),
                self.pending() == old(self).pending() + entries@.take(i as int),
            decreases n - i,
        {
            let accepted = self.try_push(entries[i]);
            proof {
                assert(accepted);
                assert(entries@.take(i as int).push(entries@[i as int]) =~= entries@.take(i + 1));
                assert(self.pending() =~= old(self).pending() + entries@.take(i + 1));
            }
            i = i + 1;
        }
        proof {
            assert(self.pending() =~= old(self).pending() + entries@.take(n as int));
        }
        n
    }

    /// Consume up to `max` pending entries, oldest first, advancing the
    /// consumer index by the count returned. Never blocks; an empty result
    /// is normal when nothing is pending.
    pub fn consume(&mut self, max: u64) -> (r: Vec<u64>)
        requires
            old(self).wf(),
        ensures
            final(self).wf(),
            final(self).capacity() == old(self).capacity(),
            final(self).spec_needs_wakeup() == old(self).spec_needs_wakeup(),
            r@.len() == vstd::math::min(max as int, old(self).pending().len() as int),
            r@ == old(self).pending().take(r@.len() as int),
            final(self).pending() == old(self).pending().skip(r@.len() as int),
    {
        let avail = self.tail - self.head;
        let n: usize = if max < avail as u64 {
            max as usize
        } else {
            avail
        };
        let mut r: Vec<u64> = Vec::new();
        let mut i: usize = 0;
        while i < n
            invariant
                i <= n,
                n <= old(self).pending().len(),
                self.wf(),
                self.capacity() == old(self).capacity(),
                self.spec_needs_wakeup() == old(self).spec_needs_wakeup(),
                r@ == old(self).pending().take(i as int),
                self.pending() == old(self).pending().skip(i as int),
            decreases n - i,
        {
            let e = self.pop_front();
            proof {
                assert(old(self).pending().skip(i as int).len() > 0);
            }
            match e {
                Some(v) => {
                    r.push(v);
                    proof {
                        assert(old(self).pending().skip(i as int)[0] == old(self).pending()[i as int]);
                        assert(r@ =~= old(self).pending().take(i + 1));
                        assert(self.pending() =~= old(self).pending().skip(i + 1)) by {
                            assert(old(self).pending().skip(i as int).skip(1) =~= old(self).pending().skip(i + 1));
                        }
                    }
                },
                None => {
                    proof { assert(false); }
                },
            }
            i = i + 1;
        }
        r
    }

    /// Whether the consuming side has parked and will not process newly
    /// produced entries without an explicit notification.
    pub fn needs_wakeup(&self) -> (r: bool)
        ensures
            r == self.spec_needs_wakeup(),
    {
        self.needs_wakeup_flag
    }

    /// Notify the parked consumer. In the kernel-backed engine this is a
    /// system call whose failure is fatal to the owning worker; in this
    /// model the notification itself cannot fail, so it simply clears the
    /// flag.
    pub fn wakeup(&mut self)
        requires
            old(self).wf(),
        ensures
            final(self).wf(),
            final(self).capacity() == old(self).capacity(),
            final(self).pending() == old(self).pending(),
            !final(self).spec_needs_wakeup(),
    {
        self.needs_wakeup_flag = false;
    }

    /// The consumer's half of the wakeup protocol: park or unpark. In the
    /// kernel-backed engine the kernel sets this; here the simulated
    /// consumer does.
    pub fn set_needs_wakeup(&mut self, b: bool)
        requires
            old(self).wf(),
        ensures
            final(self).wf(),
            final(self).capacity() == old(self).capacity(),
            final(self).pending() == old(self).pending(),
            final(self).spec_needs_wakeup() == b,
    {
        self.needs_wakeup_flag = b;
    }
}

} // verus!
