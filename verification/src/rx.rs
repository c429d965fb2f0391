use vstd::prelude::*;

verus! {

use vstd::arithmetic::div_mod::lemma_fundamental_div_mod;
use crate::clock::now_ns;
use crate::ring::RingQueue;
use crate::umem::{
    count_status,
    lemma_count_le_len,
    lemma_count_partition,
    lemma_count_positive,
    lemma_count_update,
    lemma_count_zero_when_absent,
    Frame,
    FrameStatus,
};

/// Receive-side throughput accounting, the mirror of the transmit side's.
#[derive(Clone, Copy, Debug, PartialEq, Eq, Structural)]
pub struct RxStats {
    pub pkts_rx: u64,
    pub start_time_ns: u64,
    pub end_time_ns: u64,
}

impl RxStats {
    pub fn new() -> (r: RxStats)
        ensures
            r.pkts_rx == 0,
            r.end_time_ns == r.start_time_ns,
    {
        let t = now_ns();
        RxStats { pkts_rx: 0, start_time_ns: t, end_time_ns: t }
    }

    /// Elapsed wall-clock time in nanoseconds, zero when the clock went
    /// backwards.
    pub fn duration(&self) -> (r: u64)
        ensures
            r == if self.end_time_ns >= self.start_time_ns {
                self.end_time_ns - self.start_time_ns
            } else {
                0int
            },
    {
        if self.end_time_ns >= self.start_time_ns {
            self.end_time_ns - self.start_time_ns
        } else {
            0
        }
    }
}

/// When full payloads are not wanted, a received frame is forwarded cut to
/// this many bytes: the link-layer header.
pub const HEADER_ONLY_LEN: usize = 14;

/// What the receive worker forwards for a frame holding `data`: the whole
/// payload, or only its leading header bytes when payloads are not wanted.
pub open spec fn extract_payload(data: Seq<u8>, include_payload: bool) -> Seq<u8> {
    if include_payload {
        data
    } else {
        data.take(vstd::math::min(HEADER_ONLY_LEN as int, data.len() as int))
    }
}

/// The indices of free frames from `i` on, at most `space` of them: the
/// frames one replenishing pass queues onto the fill ring.
pub open spec fn fill_plan(frames: Seq<Frame>, i: int, space: int) -> Seq<int>
    decreases frames.len() - i,
{
    if i < 0 || i >= frames.len() || space <= 0 {
        Seq::empty()
    } else if frames[i].status is Free {
        seq![i] + fill_plan(frames, i + 1, space - 1)
    } else {
        fill_plan(frames, i + 1, space)
    }
}

proof fn lemma_fill_plan_props(frames: Seq<Frame>, i: int, space: int)
    ensures
        forall|k: int| 0 <= k < fill_plan(frames, i, space).len() ==> {
            &&& i <= #[trigger] fill_plan(frames, i, space)[k] < frames.len()
            &&& frames[fill_plan(frames, i, space)[k]].status is Free
        },
        forall|k1: int, k2: int|
            0 <= k1 < k2 < fill_plan(frames, i, space).len()
                ==> #[trigger] fill_plan(frames, i, space)[k1]
                    < #[trigger] fill_plan(frames, i, space)[k2],
        fill_plan(frames, i, space).len() <= vstd::math::max(space, 0),
    decreases frames.len() - i,
{
    if i < 0 || i >= frames.len() || space <= 0 {
    } else if frames[i].status is Free {
        lemma_fill_plan_props(frames, i + 1, space - 1);
    } else {
        lemma_fill_plan_props(frames, i + 1, space);
    }
}

/// The receive worker: its own stretch of frames, the receive and fill
/// rings, and statistics. It keeps the fill ring stocked with free frames
/// so the kernel always has somewhere to deposit packets, drains the
/// receive ring, extracts payloads and frees the frames. Forwarding the
/// payloads over the application channel, the poll pause and the shutdown
/// flag belong to the thread that owns the worker.
pub struct XskRx {
    pub rx_q: RingQueue,
    pub fill_q: RingQueue,
    pub rx_frames: Vec<Frame>,
    pub outstanding_rx_frames: u64,
    pub poll_ms_timeout: i32,
    pub include_payload: bool,
    pub stats: RxStats,
    pub base_offset: u64,
    pub frame_size: u32,
}

impl XskRx {
    pub open spec fn n_frames(self) -> int {
        self.rx_frames@.len() as int
    }

    pub open spec fn entry_index(self, e: u64) -> int {
        (e - self.base_offset) / self.frame_size as int
    }

    /// A ring entry is a byte offset naming one of this worker's frames.
    pub open spec fn entry_valid(self, e: u64) -> bool {
        &&& e >= self.base_offset
        &&& (e - self.base_offset) % self.frame_size as int == 0
        &&& 0 <= self.entry_index(e) < self.n_frames()
    }

    /// The kernel half of the receive-side ownership protocol: every fill
    /// entry names a distinct frame queued for filling, every receive entry
    /// a distinct frame holding a deposited packet.
    pub open spec fn entries_ok(self) -> bool {
        &&& forall|j: int| 0 <= j < self.fill_q.pending().len() ==> {
            let e = #[trigger] self.fill_q.pending()[j];
            &&& self.entry_valid(e)
            &&& self.rx_frames@[self.entry_index(e)].status is InFillQueue
        }
        &&& forall|j: int, k: int|
            0 <= j < k < self.fill_q.pending().len()
                ==> #[trigger] self.fill_q.pending()[j] != #[trigger] self.fill_q.pending()[k]
        &&& forall|j: int| 0 <= j < self.rx_q.pending().len() ==> {
            let e = #[trigger] self.rx_q.pending()[j];
            &&& self.entry_valid(e)
            &&& self.rx_frames@[self.entry_index(e)].status is Filled
        }
        &&& forall|j: int, k: int|
            0 <= j < k < self.rx_q.pending().len()
                ==> #[trigger] self.rx_q.pending()[j] != #[trigger] self.rx_q.pending()[k]
    }

    /// The worker's invariant: geometry of its frame stretch, the
    /// ownership protocol across both rings, and the frame census.
    pub open spec fn wf(self) -> bool {
        &&& self.rx_q.wf()
        &&& self.fill_q.wf()
        &&& self.frame_size >= 1
        &&& self.n_frames() <= u32::MAX
        &&& forall|i: int| 0 <= i < self.n_frames() ==> {
            &&& (#[trigger] self.rx_frames@[i]).offset == self.base_offset + i * self.frame_size
            &&& self.rx_frames@[i].data@.len() <= self.frame_size
            &&& (self.rx_frames@[i].status is Free || self.rx_frames@[i].status is InFillQueue
                || self.rx_frames@[i].status is Filled)
        }
        &&& self.entries_ok()
        &&& self.outstanding_rx_frames == count_status(self.rx_frames@, FrameStatus::InFillQueue)
            + count_status(self.rx_frames@, FrameStatus::Filled)
    }

    proof fn lemma_offsets_injective(self)
        requires
            self.frame_size >= 1,
            forall|i: int| 0 <= i < self.n_frames()
                ==> (#[trigger] self.rx_frames@[i]).offset == self.base_offset + i
                    * self.frame_size,
        ensures
            forall|i: int, j: int|
                0 <= i < self.n_frames() && 0 <= j < self.n_frames() && i != j
                    ==> (#[trigger] self.rx_frames@[i]).offset
                        != (#[trigger] self.rx_frames@[j]).offset,
            forall|i: int| 0 <= i < self.n_frames()
                ==> self.entry_valid(#[trigger] self.rx_frames@[i].offset)
                    && self.entry_index(self.rx_frames@[i].offset) == i,
    {
        assert forall|i: int, j: int|
            0 <= i < self.n_frames() && 0 <= j < self.n_frames() && i != j implies (
        #[trigger] self.rx_frames@[i]).offset != (#[trigger] self.rx_frames@[j]).offset by {
            assert(i * self.frame_size != j * self.frame_size) by (nonlinear_arith)
                requires
                    i != j,
                    self.frame_size >= 1,
            ;
        }
        assert forall|i: int| 0 <= i < self.n_frames() implies self.entry_valid(
            #[trigger] self.rx_frames@[i].offset) && self.entry_index(self.rx_frames@[i].offset)
            == i by {
            let fs = self.frame_size as int;
            assert(i * fs >= 0 && (i * fs) % fs == 0 && (i * fs) / fs == i) by (nonlinear_arith)
                requires
                    i >= 0,
                    fs >= 1,
            ;
        }
    }

    /// A valid entry names the frame whose offset it is.
    proof fn lemma_entry_offset(self, e: u64)
        requires
            self.frame_size >= 1,
            self.entry_valid(e),
            forall|i: int| 0 <= i < self.n_frames()
                ==> (#[trigger] self.rx_frames@[i]).offset == self.base_offset + i
                    * self.frame_size,
        ensures
            self.rx_frames@[self.entry_index(e)].offset == e,
    {
        let fs = self.frame_size as int;
        let d = e - self.base_offset;
        lemma_fundamental_div_mod(d as int, fs);
        assert(self.entry_index(e) * fs == d) by (nonlinear_arith)
            requires
                d == fs * (d / fs) + d % fs,
                d % fs == 0,
                self.entry_index(e) == d / fs,
        ;
    }

    /// Frame conservation for the receive side: every frame is free,
    /// queued for filling or holding a packet; the three censuses sum to
    /// the whole pool and the outstanding counter covers exactly the
    /// frames the kernel side currently owns.
    pub proof fn lemma_frame_conservation(self)
        requires
            self.wf(),
        ensures
            count_status(self.rx_frames@, FrameStatus::Free) + count_status(
                self.rx_frames@,
                FrameStatus::InFillQueue,
            ) + count_status(self.rx_frames@, FrameStatus::Filled) == self.n_frames(),
            self.outstanding_rx_frames == count_status(self.rx_frames@, FrameStatus::InFillQueue)
                + count_status(self.rx_frames@, FrameStatus::Filled),
    {
        lemma_count_partition(self.rx_frames@);
        lemma_count_zero_when_absent(self.rx_frames@, FrameStatus::OnTxQueue);
    }

    pub fn new(
        rx_q: RingQueue,
        fill_q: RingQueue,
        rx_frames: Vec<Frame>,
        base_offset: u64,
        frame_size: u32,
        include_payload: bool,
        poll_ms_timeout: i32,
    ) -> (r: XskRx)
        requires
            rx_q.wf(),
            fill_q.wf(),
            rx_q.pending().len() == 0,
            fill_q.pending().len() == 0,
            frame_size >= 1,
            rx_frames@.len() <= u32::MAX,
            forall|i: int| 0 <= i < rx_frames@.len() ==> {
                &&& (#[trigger] rx_frames@[i]).offset == base_offset + i * frame_size
                &&& rx_frames@[i].data@.len() <= frame_size
                &&& rx_frames@[i].status is Free
            },
        ensures
            r.wf(),
            r.rx_q == rx_q,
            r.fill_q == fill_q,
            r.rx_frames == rx_frames,
            r.outstanding_rx_frames == 0,
            r.base_offset == base_offset,
            r.frame_size == frame_size,
            r.include_payload == include_payload,
            r.stats.pkts_rx == 0,
    {
        let stats = RxStats::new();
        let r = XskRx {
            rx_q,
            fill_q,
            rx_frames,
            outstanding_rx_frames: 0,
            poll_ms_timeout,
            include_payload,
            stats,
            base_offset,
            frame_size,
        };
        proof {
            lemma_count_zero_when_absent(r.rx_frames@, FrameStatus::InFillQueue);
            lemma_count_zero_when_absent(r.rx_frames@, FrameStatus::Filled);
        }
        r
    }

    /// Record the moment the receive loop exits.
    pub fn finish(&mut self)
        ensures
            *final(self) == (XskRx {
                stats: RxStats {
                    end_time_ns: final(self).stats.end_time_ns,
                    ..old(self).stats
                },
                ..*old(self)
            }),
    {
        self.stats.end_time_ns = now_ns();
    }

    /// Replenish the fill ring: queue free frames, in index order, until
    /// the ring is full or no free frame is left, so the kernel always has
    /// capacity to deposit incoming packets.
    pub fn fill_frames(&mut self)
        requires
            old(self).wf(),
        ensures
            final(self).wf(),
            final(self).rx_q == old(self).rx_q,
            final(self).stats == old(self).stats,
            final(self).include_payload == old(self).include_payload,
            final(self).base_offset == old(self).base_offset,
            final(self).frame_size == old(self).frame_size,
            final(self).poll_ms_timeout == old(self).poll_ms_timeout,
            final(self).rx_frames@.len() == old(self).rx_frames@.len(),
            final(self).fill_q.capacity() == old(self).fill_q.capacity(),
            final(self).fill_q.spec_needs_wakeup() == old(self).fill_q.spec_needs_wakeup(),
            forall|i: int| 0 <= i < old(self).n_frames() ==> {
                &&& (#[trigger] final(self).rx_frames@[i]).offset == old(self).rx_frames@[i].offset
                &&& final(self).rx_frames@[i].data == old(self).rx_frames@[i].data
            },
            ({
                let plan = fill_plan(
                    old(self).rx_frames@,
                    0,
                    old(self).fill_q.capacity() - old(self).fill_q.pending().len(),
                );
                &&& final(self).fill_q.pending() == old(self).fill_q.pending() + Seq::new(
                    plan.len(),
                    |k: int| old(self).rx_frames@[plan[k]].offset,
                )
                &&& forall|i: int| 0 <= i < old(self).n_frames() && plan.contains(i)
                    ==> (#[trigger] final(self).rx_frames@[i]).status is InFillQueue
                &&& forall|i: int| 0 <= i < old(self).n_frames() && !plan.contains(i)
                    ==> (#[trigger] final(self).rx_frames@[i]).status
                        == old(self).rx_frames@[i].status
                &&& final(self).outstanding_rx_frames
                    == old(self).outstanding_rx_frames + plan.len()
            }),
    {
        let ghost pre = *old(self);
        let ghost space0 = pre.fill_q.capacity() - pre.fill_q.pending().len();
        let ghost total = fill_plan(pre.rx_frames@, 0, space0);
        proof {
            lemma_fill_plan_props(pre.rx_frames@, 0, space0);
            pre.lemma_offsets_injective();
        }
        let n = self.rx_frames.len();
        let mut space = self.fill_q.free_slots();
        let mut i: usize = 0;
        while i < n
            invariant
                0 <= i <= n,
                n == pre.n_frames(),
                pre.wf(),
                space == self.fill_q.capacity() - self.fill_q.pending().len(),
                self.rx_q == pre.rx_q,
                self.stats == pre.stats,
                self.include_payload == pre.include_payload,
                self.base_offset == pre.base_offset,
                self.frame_size == pre.frame_size,
                self.poll_ms_timeout == pre.poll_ms_timeout,
                self.rx_frames@.len() == pre.rx_frames@.len(),
                self.fill_q.wf(),
                self.fill_q.capacity() == pre.fill_q.capacity(),
                self.fill_q.spec_needs_wakeup() == pre.fill_q.spec_needs_wakeup(),
                forall|k: int| 0 <= k < pre.n_frames() ==> {
                    &&& (#[trigger] self.rx_frames@[k]).offset == pre.rx_frames@[k].offset
                    &&& self.rx_frames@[k].data == pre.rx_frames@[k].data
                },
                // The total plan splits into what was queued and what the
                // rest of the scan will queue.
                ({
                    let done = total.len() - fill_plan(pre.rx_frames@, i as int, space as int).len();
                    &&& 0 <= done <= total.len()
                    &&& total =~= total.take(done) + fill_plan(pre.rx_frames@, i as int, space as int)
                    &&& self.fill_q.pending() == pre.fill_q.pending() + Seq::new(
                        done as nat,
                        |k: int| pre.rx_frames@[total[k]].offset,
                    )
                    &&& forall|k: int| 0 <= k < pre.n_frames() && total.take(done).contains(k)
                        ==> (#[trigger] self.rx_frames@[k]).status is InFillQueue
                    &&& forall|k: int| 0 <= k < pre.n_frames() && !total.take(done).contains(k)
                        ==> (#[trigger] self.rx_frames@[k]).status == pre.rx_frames@[k].status
                    &&& forall|k: int| 0 <= k < total.len()
                        ==> (done <= k <==> i <= #[trigger] total[k])
                    &&& self.outstanding_rx_frames == pre.outstanding_rx_frames + done
                    &&& self.outstanding_rx_frames
                        == count_status(self.rx_frames@, FrameStatus::InFillQueue)
                            + count_status(self.rx_frames@, FrameStatus::Filled)
                }),
            decreases n - i,
        {
            proof {
                lemma_fill_plan_props(pre.rx_frames@, i as int, space as int);
            }
            let is_free = self.rx_frames[i].status.is_free();
            if is_free && space > 0 {
                proof {
                    let rest = fill_plan(pre.rx_frames@, i as int, space as int);
                    let done = total.len() - rest.len();
                    // The scan has not yet queued frame i, so it still has
                    // its old, free status.
                    assert(!total.take(done).contains(i as int));
                    assert(pre.rx_frames@[i as int].status is Free);
                    assert(rest == seq![i as int] + fill_plan(
                        pre.rx_frames@, i as int + 1, space as int - 1));
                    assert(total[done] == i as int);
                }
                let off = self.rx_frames[i].offset;
                let accepted = self.fill_q.try_push(off);
                proof {
                    assert(accepted);
                }
                proof {
                    lemma_count_le_len(self.rx_frames@, FrameStatus::InFillQueue);
                    lemma_count_le_len(self.rx_frames@, FrameStatus::Filled);
                }
                let ghost frames_before = self.rx_frames@;
                self.rx_frames[i].status = FrameStatus::InFillQueue;
                self.outstanding_rx_frames = self.outstanding_rx_frames + 1;
                space = space - 1;
                proof {
                    let rest = fill_plan(pre.rx_frames@, i as int, space as int + 1);
                    let done = total.len() - rest.len();
                    lemma_count_update(
                        frames_before,
                        i as int,
                        self.rx_frames@[i as int],
                        FrameStatus::InFillQueue,
                    );
                    lemma_count_update(
                        frames_before,
                        i as int,
                        self.rx_frames@[i as int],
                        FrameStatus::Filled,
                    );
                    lemma_count_le_len(self.rx_frames@, FrameStatus::InFillQueue);
                    lemma_count_le_len(self.rx_frames@, FrameStatus::Filled);
                    assert(total.take(done + 1) =~= total.take(done).push(i as int));
                    assert(total =~= total.take(done + 1) + fill_plan(
                        pre.rx_frames@, i as int + 1, space as int));
                    assert(self.fill_q.pending() =~= pre.fill_q.pending() + Seq::new(
                        (done + 1) as nat,
                        |k: int| pre.rx_frames@[total[k]].offset,
                    ));
                    assert forall|k: int|
                        0 <= k < pre.n_frames() && !total.take(done + 1).contains(k) implies (
                    #[trigger] self.rx_frames@[k]).status == pre.rx_frames@[k].status by {
                        assert(total.take(done + 1)[done] == i as int);
                        assert(k != i as int);
                        assert(!total.take(done).contains(k));
                    }
                    assert forall|k: int|
                        0 <= k < pre.n_frames() && total.take(done + 1).contains(k) implies (
                    #[trigger] self.rx_frames@[k]).status is InFillQueue by {
                        if k != i as int {
                            assert(total.take(done).contains(k));
                        }
                    }
                    lemma_fill_plan_props(pre.rx_frames@, i as int + 1, space as int);
                    assert forall|k: int| 0 <= k < total.len() implies
                        (done + 1 <= k <==> i as int + 1 <= #[trigger] total[k]) by {
                        if k == done {
                            assert(total[k] == i as int);
                        }
                    }
                }
            } else {
                proof {
                    let rest = fill_plan(pre.rx_frames@, i as int, space as int);
                    let done = total.len() - rest.len();
                    if space > 0 {
                        // Frame i is not free now; it was not queued by this
                        // scan, so it was not free before it either.
                        assert(!total.take(done).contains(i as int));
                        assert(self.rx_frames@[i as int].status == pre.rx_frames@[i as int].status);
                        assert(rest == fill_plan(pre.rx_frames@, i as int + 1, space as int));
                    } else {
                        assert(rest =~= Seq::<int>::empty());
                        assert(fill_plan(pre.rx_frames@, i as int + 1, space as int)
                            =~= Seq::<int>::empty());
                    }
                    assert forall|k: int| 0 <= k < total.len() implies
                        (done <= k <==> i as int + 1 <= #[trigger] total[k]) by {
                        lemma_fill_plan_props(pre.rx_frames@, i as int + 1, space as int);
                        if done <= k && total[k] == i as int {
                            assert(!total.take(done).contains(i as int));
                            assert(pre.rx_frames@[i as int].status is Free);
                            assert(space > 0) by {
                                if space <= 0 {
                                    assert(total.take(done) =~= total);
                                    assert(total.contains(i as int));
                                }
                            }
                            assert(false);
                        }
                    }
                }
            }
            i = i + 1;
        }
        proof {
            let rest = fill_plan(pre.rx_frames@, n as int, space as int);
            assert(rest =~= Seq::<int>::empty());
            assert(total.take(total.len() as int) =~= total);
            // Re-establish the protocol for the grown fill ring.
            assert forall|j: int| 0 <= j < self.fill_q.pending().len() implies {
                let e = #[trigger] self.fill_q.pending()[j];
                &&& self.entry_valid(e)
                &&& self.rx_frames@[self.entry_index(e)].status is InFillQueue
            } by {
                if j < pre.fill_q.pending().len() {
                    let e = pre.fill_q.pending()[j];
                    let idx = pre.entry_index(e);
                    pre.lemma_entry_offset(e);
                    assert(pre.rx_frames@[idx].status is InFillQueue);
                    assert(!total.contains(idx));
                } else {
                    let k = j - pre.fill_q.pending().len();
                    assert(self.fill_q.pending()[j] == pre.rx_frames@[total[k]].offset);
                    assert(total.contains(total[k]));
                }
            }
            assert forall|j: int, k: int|
                0 <= j < k < self.fill_q.pending().len() implies #[trigger] self.fill_q.pending()[
            j] != #[trigger] self.fill_q.pending()[k] by {
                let np = pre.fill_q.pending().len();
                if j < np && k >= np {
                    let ij = pre.entry_index(pre.fill_q.pending()[j]);
                    let ik = total[k - np];
                    pre.lemma_entry_offset(pre.fill_q.pending()[j]);
                    assert(pre.rx_frames@[ij].status is InFillQueue);
                    assert(pre.rx_frames@[ik].status is Free);
                    assert(pre.fill_q.pending()[j] == pre.rx_frames@[ij].offset);
                } else if j >= np {
                    assert(total[j - np] < total[k - np]);
                }
            }
            assert(self.wf());
        }
    }

    /// Drain up to `max` entries from the receive ring: for each deposited
    /// frame, in ring order, extract its payload (cut to the header when
    /// payloads are not wanted), return the frame to the free pool and
    /// count the packet. The payloads are handed back for forwarding.
    pub fn recv_step(&mut self, max: u64) -> (r: Vec<Vec<u8>>)
        requires
            old(self).wf(),
            old(self).stats.pkts_rx + old(self).rx_q.pending().len() <= u64::MAX,
        ensures
            final(self).wf(),
            final(self).fill_q == old(self).fill_q,
            final(self).include_payload == old(self).include_payload,
            final(self).base_offset == old(self).base_offset,
            final(self).frame_size == old(self).frame_size,
            final(self).poll_ms_timeout == old(self).poll_ms_timeout,
            final(self).rx_frames@.len() == old(self).rx_frames@.len(),
            final(self).rx_q.capacity() == old(self).rx_q.capacity(),
            final(self).stats.start_time_ns == old(self).stats.start_time_ns,
            final(self).stats.end_time_ns == old(self).stats.end_time_ns,
            r@.len() == vstd::math::min(max as int, old(self).rx_q.pending().len() as int),
            final(self).rx_q.pending() == old(self).rx_q.pending().skip(r@.len() as int),
            final(self).stats.pkts_rx == old(self).stats.pkts_rx + r@.len(),
            final(self).outstanding_rx_frames == old(self).outstanding_rx_frames - r@.len(),
            // Each payload is what the deposited frame held, cut to the
            // header when payloads are not wanted.
            forall|k: int| 0 <= k < r@.len() ==> #[trigger] r@[k]@ == extract_payload(
                old(self).rx_frames@[
                    old(self).entry_index(old(self).rx_q.pending()[k])].data@,
                old(self).include_payload,
            ),
            // Drained frames return to the free pool; all others are
            // untouched.
            forall|i: int| 0 <= i < old(self).n_frames()
                && old(self).rx_q.pending().take(r@.len() as int).contains(
                    #[trigger] old(self).rx_frames@[i].offset)
                ==> final(self).rx_frames@[i].status is Free,
            forall|i: int| 0 <= i < old(self).n_frames()
                && !old(self).rx_q.pending().take(r@.len() as int).contains(
                    #[trigger] old(self).rx_frames@[i].offset)
                ==> final(self).rx_frames@[i].status == old(self).rx_frames@[i].status,
            forall|i: int| 0 <= i < old(self).n_frames() ==> {
                &&& (#[trigger] final(self).rx_frames@[i]).offset == old(self).rx_frames@[i].offset
                &&& final(self).rx_frames@[i].data == old(self).rx_frames@[i].data
            },
    {
        let ghost pre = *old(self);
        proof {
            pre.lemma_offsets_injective();
        }
        let entries = self.rx_q.consume(max);
        let ghost taken = pre.rx_q.pending().take(entries@.len() as int);
        let mut r: Vec<Vec<u8>> = Vec::new();
        let mut j: usize = 0;
        while j < entries.len()
            invariant
                0 <= j <= entries@.len(),
                pre.wf(),
                entries@ == taken,
                taken == pre.rx_q.pending().take(entries@.len() as int),
                entries@.len() <= pre.rx_q.pending().len(),
                pre.stats.pkts_rx + pre.rx_q.pending().len() <= u64::MAX,
                self.fill_q == pre.fill_q,
                self.include_payload == pre.include_payload,
                self.base_offset == pre.base_offset,
                self.frame_size == pre.frame_size,
                self.poll_ms_timeout == pre.poll_ms_timeout,
                self.rx_frames@.len() == pre.rx_frames@.len(),
                self.rx_q.wf(),
                self.rx_q.capacity() == pre.rx_q.capacity(),
                self.rx_q.pending() == pre.rx_q.pending().skip(entries@.len() as int),
                self.stats.start_time_ns == pre.stats.start_time_ns,
                self.stats.end_time_ns == pre.stats.end_time_ns,
                self.stats.pkts_rx == pre.stats.pkts_rx + j,
                self.outstanding_rx_frames == pre.outstanding_rx_frames - j,
                self.outstanding_rx_frames
                    == count_status(self.rx_frames@, FrameStatus::InFillQueue)
                        + count_status(self.rx_frames@, FrameStatus::Filled),
                r@.len() == j,
                forall|k: int| 0 <= k < j ==> #[trigger] r@[k]@ == extract_payload(
                    pre.rx_frames@[pre.entry_index(taken[k])].data@,
                    pre.include_payload,
                ),
                forall|i: int| 0 <= i < pre.n_frames() && taken.take(j as int).contains(
                    #[trigger] pre.rx_frames@[i].offset)
                    ==> self.rx_frames@[i].status is Free,
                forall|i: int| 0 <= i < pre.n_frames() && !taken.take(j as int).contains(
                    #[trigger] pre.rx_frames@[i].offset)
                    ==> self.rx_frames@[i].status == pre.rx_frames@[i].status,
                forall|i: int| 0 <= i < pre.n_frames() ==> {
                    &&& (#[trigger] self.rx_frames@[i]).offset == pre.rx_frames@[i].offset
                    &&& self.rx_frames@[i].data == pre.rx_frames@[i].data
                },
            decreases entries@.len() - j,
        {
            let e = entries[j];
            proof {
                assert(taken[j as int] == pre.rx_q.pending()[j as int]);
                assert(pre.entry_valid(e));
                assert(pre.rx_frames@[pre.entry_index(e)].status is Filled);
                // Entry j differs from every earlier entry, so its frame is
                // untouched so far.
                assert(!taken.take(j as int).contains(e));
                pre.lemma_entry_offset(e);
                assert(pre.rx_frames@[pre.entry_index(e)].offset == e);
            }
            let idx = ((e - self.base_offset) / (self.frame_size as u64)) as usize;
            proof {
                assert(idx as int == pre.entry_index(e));
                assert(self.rx_frames@[idx as int].status is Filled);
            }
            // Extract the payload, whole or cut to the header.
            let frame_len = self.rx_frames[idx].data.len();
            let limit = if self.include_payload {
                frame_len
            } else if frame_len < HEADER_ONLY_LEN {
                frame_len
            } else {
                HEADER_ONLY_LEN
            };
            let mut payload: Vec<u8> = Vec::new();
            let mut k: usize = 0;
            while k < limit
                invariant
                    0 <= k <= limit,
                    idx < self.rx_frames@.len(),
                    limit <= self.rx_frames@[idx as int].data@.len(),
                    payload@ == self.rx_frames@[idx as int].data@.take(k as int),
                decreases limit - k,
            {
                payload.push(self.rx_frames[idx].data[k]);
                proof {
                    assert(payload@ =~= self.rx_frames@[idx as int].data@.take(k + 1));
                }
                k = k + 1;
            }
            proof {
                assert(payload@ =~= extract_payload(
                    pre.rx_frames@[pre.entry_index(e)].data@,
                    pre.include_payload,
                ));
            }
            r.push(payload);
            proof {
                lemma_count_positive(self.rx_frames@, idx as int, FrameStatus::Filled);
            }
            let ghost frames_before = self.rx_frames@;
            self.rx_frames[idx].status = FrameStatus::Free;
            self.outstanding_rx_frames = self.outstanding_rx_frames - 1;
            self.stats.pkts_rx = self.stats.pkts_rx + 1;
            proof {
                lemma_count_update(
                    frames_before,
                    idx as int,
                    self.rx_frames@[idx as int],
                    FrameStatus::InFillQueue,
                );
                lemma_count_update(
                    frames_before,
                    idx as int,
                    self.rx_frames@[idx as int],
                    FrameStatus::Filled,
                );
                assert forall|i: int|
                    0 <= i < pre.n_frames() && taken.take(j + 1).contains(
                        #[trigger] pre.rx_frames@[i].offset,
                    ) implies self.rx_frames@[i].status is Free by {
                    if i != idx as int && !taken.take(j as int).contains(pre.rx_frames@[i].offset) {
                        let w = choose|w: int|
                            0 <= w < j + 1 && #[trigger] taken.take(j + 1)[w]
                                == pre.rx_frames@[i].offset;
                        assert(w == j);
                        assert(pre.rx_frames@[i].offset == e);
                        pre.lemma_offsets_injective();
                        assert(pre.rx_frames@[idx as int].offset == e);
                        assert(i == idx as int);
                    }
                }
                assert forall|i: int|
                    0 <= i < pre.n_frames() && !taken.take(j + 1).contains(
                        #[trigger] pre.rx_frames@[i].offset,
                    ) implies self.rx_frames@[i].status == pre.rx_frames@[i].status by {
                    assert(taken.take(j + 1)[j as int] == e);
                    assert(i != idx as int);
                    assert(!taken.take(j as int).contains(pre.rx_frames@[i].offset));
                }
            }
            j = j + 1;
        }
        proof {
            assert(taken.take(taken.len() as int) =~= taken);
            // Remaining receive entries still name distinct filled frames.
            assert forall|jj: int| 0 <= jj < self.rx_q.pending().len() implies {
                let e = #[trigger] self.rx_q.pending()[jj];
                &&& self.entry_valid(e)
                &&& self.rx_frames@[self.entry_index(e)].status is Filled
            } by {
                let e = self.rx_q.pending()[jj];
                let nc = entries@.len();
                assert(e == pre.rx_q.pending()[jj + nc]);
                assert(pre.entry_valid(e));
                let i = pre.entry_index(e);
                pre.lemma_entry_offset(e);
                if taken.contains(pre.rx_frames@[i].offset) {
                    let w = choose|w: int|
                        0 <= w < nc && #[trigger] taken[w] == pre.rx_frames@[i].offset;
                    assert(pre.rx_q.pending()[w] == pre.rx_q.pending()[jj + nc]);
                    assert(false);
                }
            }
            assert(self.wf());
        }
        r
    }
}

} // verus!
