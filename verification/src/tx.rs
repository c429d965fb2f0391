use vstd::prelude::*;

verus! {

use vstd::arithmetic::div_mod::{
    lemma_basic_div,
    lemma_fundamental_div_mod,
    lemma_fundamental_div_mod_converse_div,
    lemma_fundamental_div_mod_converse_mod,
    lemma_mod_decreases,
    lemma_mod_multiples_basic,
    lemma_small_mod,
};
use crate::clock::now_ns;
use crate::ring::RingQueue;
use crate::umem::{
    count_status,
    lemma_count_le_len,
    lemma_count_partition,
    lemma_count_update,
    lemma_count_zero_when_absent,
    Frame,
    FrameStatus,
};

/// Transmit-side throughput accounting: a packet counter and wall-clock
/// timestamps in nanoseconds, created when the worker starts, mutated only
/// by that worker, and handed back when its loop exits.
#[derive(Clone, Copy, Debug, PartialEq, Eq, Structural)]
pub struct TxStats {
    pub pkts_tx: u64,
    pub start_time_ns: u64,
    pub end_time_ns: u64,
}

impl TxStats {
    pub fn new() -> (r: TxStats)
        ensures
            r.pkts_tx == 0,
            r.end_time_ns == r.start_time_ns,
    {
        let t = now_ns();
        TxStats { pkts_tx: 0, start_time_ns: t, end_time_ns: t }
    }

    /// Elapsed wall-clock time in nanoseconds, zero when the clock went
    /// backwards. Packets-per-second is the packet count divided by this,
    /// a quotient the caller must guard when the duration is zero.
    pub fn duration(&self) -> (r: u64)
        ensures
            r == if self.end_time_ns >= self.start_time_ns {
                self.end_time_ns - self.start_time_ns
            } else {
                0int
            },
    {
        if self.end_time_ns >= self.start_time_ns {
            self.end_time_ns - self.start_time_ns
        } else {
            0
        }
    }
}

#[derive(Clone, Copy, Debug, PartialEq, Eq, Structural)]
pub struct TxConfig {}

/// The transmit worker's one transient failure: no frame at the cursor is
/// free to carry the payload. The caller backs off and retries the same
/// payload; nothing is dropped.
#[derive(Clone, Copy, Debug, PartialEq, Eq, Structural)]
pub enum XskSendError {
    NoFreeTxFrames,
}

/// The rate limiter's decision: with a nonzero target, a pause is due each
/// time the packet counter stands at a multiple of one tenth of the target.
pub open spec fn rate_limit_due_at(target_pps: u64, pkts: int) -> bool {
    target_pps != 0 && pkts % (target_pps as int / 10) == 0
}

/// How many of the first `n` sends find a pause due, the counter running
/// from zero.
pub open spec fn count_rate_limited(target_pps: u64, n: int) -> int
    decreases n,
{
    if n <= 0 {
        0
    } else {
        count_rate_limited(target_pps, n - 1) + if rate_limit_due_at(target_pps, n - 1) {
            1int
        } else {
            0int
        }
    }
}

/// Over the first `n` sends the limiter pauses once per started stretch of
/// `target_pps / 10` packets: exactly the ceiling of `n` divided by the
/// stretch length.
pub proof fn lemma_count_rate_limited(target_pps: u64, n: int)
    requires
        target_pps >= 10,
        n >= 0,
    ensures
        count_rate_limited(target_pps, n) == (n + target_pps as int / 10 - 1) / (target_pps as int
            / 10),
    decreases n,
{
    let d = target_pps as int / 10;
    if n == 0 {
        lemma_basic_div(d - 1, d);
    } else {
        lemma_count_rate_limited(target_pps, n - 1);
        let m = n - 1;
        lemma_fundamental_div_mod(m, d);
        let q = m / d;
        let r = m % d;
        if r == 0 {
            assert(m + d == (q + 1) * d + 0) by (nonlinear_arith)
                requires
                    m == d * q + r,
                    r == 0,
            ;
            lemma_fundamental_div_mod_converse_div(m + d, d, q + 1, 0);
            assert(m - 1 + d == q * d + (d - 1)) by (nonlinear_arith)
                requires
                    m == d * q + r,
                    r == 0,
            ;
            lemma_fundamental_div_mod_converse_div(m - 1 + d, d, q, d - 1);
        } else {
            assert(m + d == (q + 1) * d + r) by (nonlinear_arith)
                requires
                    m == d * q + r,
            ;
            lemma_fundamental_div_mod_converse_div(m + d, d, q + 1, r);
            assert(m - 1 + d == (q + 1) * d + (r - 1)) by (nonlinear_arith)
                requires
                    m == d * q + r,
            ;
            lemma_fundamental_div_mod_converse_div(m - 1 + d, d, q + 1, r - 1);
        }
    }
}

/// With a target of 100 packets per second, a run of 1000 sends finds a
/// pause due exactly 100 times; at 10 milliseconds each, the run therefore
/// takes at least one second. The bound is a floor, not an exact time.
pub proof fn lemma_rate_limiter_scenario()
    ensures
        count_rate_limited(100, 1000) == 100,
{
    lemma_count_rate_limited(100, 1000);
}

/// The transmit worker: a cursor over its own frames, the transmit and
/// completion rings, batching parameters and statistics. Payload delivery
/// and the retry/rate-limit pauses around `send` belong to the thread that
/// owns the worker; every state change of frames and rings happens here.
pub struct XskTx {
    pub tx_q: RingQueue,
    pub comp_q: RingQueue,
    pub tx_frames: Vec<Frame>,
    pub outstanding_tx_frames: u64,
    pub tx_poll_ms_timeout: i32,
    pub tx_cursor: usize,
    pub frame_size: u32,
    pub stats: TxStats,
    pub batch_size: usize,
    pub target_pps: u64,
    pub pps_threshold: u64,
}

impl XskTx {
    pub open spec fn n_frames(self) -> int {
        self.tx_frames@.len() as int
    }

    /// Frames at `batch_start() .. tx_cursor` are marked for transmission
    /// but not yet flushed to the transmit ring.
    pub open spec fn batch_start(self) -> int {
        self.tx_cursor - self.unflushed()
    }

    pub open spec fn unflushed(self) -> int {
        self.tx_cursor as int % self.batch_size as int
    }

    pub open spec fn entry_index(self, e: u64) -> int {
        e as int / self.frame_size as int
    }

    /// A ring entry is a byte offset naming one of this worker's frames.
    pub open spec fn entry_valid(self, e: u64) -> bool {
        &&& e as int % self.frame_size as int == 0
        &&& 0 <= self.entry_index(e) < self.n_frames()
    }

    /// The kernel half of the ownership protocol, as the worker relies on
    /// it: every completion entry names a distinct frame that is out for
    /// transmission and not part of the unflushed batch.
    pub open spec fn comp_entries_ok(self) -> bool {
        &&& forall|j: int| 0 <= j < self.comp_q.pending().len() ==> {
            let e = #[trigger] self.comp_q.pending()[j];
            &&& self.entry_valid(e)
            &&& self.tx_frames@[self.entry_index(e)].status is OnTxQueue
            &&& !(self.batch_start() <= self.entry_index(e) < self.tx_cursor)
        }
        &&& forall|j: int, k: int|
            0 <= j < k < self.comp_q.pending().len()
                ==> #[trigger] self.comp_q.pending()[j] != #[trigger] self.comp_q.pending()[k]
    }

    /// The worker's invariant: geometry of the frame array, the ownership
    /// protocol across both rings, and the frame census. In particular the
    /// outstanding counter always equals the number of frames out for
    /// transmission, and the transmit ring always has room for a batch.
    pub open spec fn wf(self) -> bool {
        &&& self.tx_q.wf()
        &&& self.comp_q.wf()
        &&& 1 <= self.batch_size <= self.tx_frames@.len()
        &&& self.n_frames() % self.batch_size as int == 0
        &&& (self.tx_cursor as int) < self.n_frames()
        &&& self.frame_size >= 1
        &&& self.n_frames() <= u32::MAX
        &&& self.target_pps == 0 || self.target_pps >= 10
        &&& forall|i: int| 0 <= i < self.n_frames() ==> {
            &&& (#[trigger] self.tx_frames@[i]).offset == i * self.frame_size
            &&& self.tx_frames@[i].data@.len() <= self.frame_size
            &&& (self.tx_frames@[i].status is Free || self.tx_frames@[i].status is OnTxQueue)
        }
        &&& forall|i: int|
            self.batch_start() <= i < self.tx_cursor
                ==> (#[trigger] self.tx_frames@[i]).status is OnTxQueue
        &&& self.comp_entries_ok()
        &&& self.outstanding_tx_frames == count_status(self.tx_frames@, FrameStatus::OnTxQueue)
        &&& self.tx_q.pending().len() + self.comp_q.pending().len() + self.unflushed()
            <= self.outstanding_tx_frames
        &&& self.tx_q.capacity() >= self.n_frames()
    }

    /// How many completions one `send` reclaims: everything pending on the
    /// completion ring, up to the outstanding count.
    pub open spec fn reclaim_count(self) -> int {
        vstd::math::min(self.outstanding_tx_frames as int, self.comp_q.pending().len() as int)
    }

    /// The completion entries one `send` reclaims.
    pub open spec fn reclaimed_entries(self) -> Seq<u64> {
        self.comp_q.pending().take(self.reclaim_count())
    }

    /// Whether the frame at the cursor is free once completions are
    /// reclaimed: exactly the condition under which `send` succeeds.
    pub open spec fn cursor_free_after_reclaim(self) -> bool {
        ||| self.tx_frames@[self.tx_cursor as int].status is Free
        ||| self.reclaimed_entries().contains(self.tx_frames@[self.tx_cursor as int].offset)
    }

    /// Frame conservation: under the worker's invariant every frame is
    /// either free or out for transmission, the two censuses sum to the
    /// whole pool, and the outstanding counter is exactly the
    /// out-for-transmission census. No frame has two owners.
    pub proof fn lemma_frame_conservation(self)
        requires
            self.wf(),
        ensures
            count_status(self.tx_frames@, FrameStatus::Free) + count_status(
                self.tx_frames@,
                FrameStatus::OnTxQueue,
            ) == self.n_frames(),
            self.outstanding_tx_frames == count_status(self.tx_frames@, FrameStatus::OnTxQueue),
    {
        lemma_count_partition(self.tx_frames@);
        lemma_count_zero_when_absent(self.tx_frames@, FrameStatus::InFillQueue);
        lemma_count_zero_when_absent(self.tx_frames@, FrameStatus::Filled);
    }

    pub fn new(
        tx_q: RingQueue,
        comp_q: RingQueue,
        tx_frames: Vec<Frame>,
        frame_size: u32,
        batch_size: usize,
        target_pps: u64,
        pps_threshold: u64,
        tx_poll_ms_timeout: i32,
    ) -> (r: XskTx)
        requires
            tx_q.wf(),
            comp_q.wf(),
            tx_q.pending().len() == 0,
            comp_q.pending().len() == 0,
            1 <= batch_size <= tx_frames@.len(),
            tx_frames@.len() as int % batch_size as int == 0,
            frame_size >= 1,
            tx_frames@.len() <= u32::MAX,
            tx_q.capacity() >= tx_frames@.len(),
            target_pps == 0 || target_pps >= 10,
            forall|i: int| 0 <= i < tx_frames@.len() ==> {
                &&& (#[trigger] tx_frames@[i]).offset == i * frame_size
                &&& tx_frames@[i].data@.len() <= frame_size
                &&& tx_frames@[i].status is Free
            },
        ensures
            r.wf(),
            r.tx_q == tx_q,
            r.comp_q == comp_q,
            r.tx_frames == tx_frames,
            r.outstanding_tx_frames == 0,
            r.tx_cursor == 0,
            r.frame_size == frame_size,
            r.batch_size == batch_size,
            r.target_pps == target_pps,
            r.pps_threshold == pps_threshold,
            r.stats.pkts_tx == 0,
    {
        let stats = TxStats::new();
        let r = XskTx {
            tx_q,
            comp_q,
            tx_frames,
            outstanding_tx_frames: 0,
            tx_poll_ms_timeout,
            tx_cursor: 0,
            frame_size,
            stats,
            batch_size,
            target_pps,
            pps_threshold,
        };
        proof {
            lemma_count_zero_when_absent(r.tx_frames@, FrameStatus::OnTxQueue);
            lemma_small_mod(0nat, batch_size as nat);
            assert(r.unflushed() == 0);
        }
        r
    }

    /// One pause of the coarse throttle is due now. The pause itself, ten
    /// milliseconds once per tenth of the target rate, is taken by the
    /// owning thread; the granularity makes this a coarse bound, not a
    /// precise rate controller.
    pub fn rate_limit_due(&self) -> (r: bool)
        requires
            self.target_pps == 0 || self.target_pps >= 10,
        ensures
            r == rate_limit_due_at(self.target_pps, self.stats.pkts_tx as int),
    {
        if self.target_pps == 0 {
            return false;
        }
        self.stats.pkts_tx % (self.target_pps / 10) == 0
    }

    /// Count one successfully sent payload.
    pub fn record_success(&mut self)
        requires
            old(self).stats.pkts_tx < u64::MAX,
        ensures
            *final(self) == (XskTx {
                stats: TxStats {
                    pkts_tx: (old(self).stats.pkts_tx + 1) as u64,
                    ..old(self).stats
                },
                ..*old(self)
            }),
    {
        self.stats.pkts_tx = self.stats.pkts_tx + 1;
    }

    /// Record the moment the send loop exits, completing the statistics.
    pub fn finish(&mut self)
        ensures
            *final(self) == (XskTx {
                stats: TxStats {
                    end_time_ns: final(self).stats.end_time_ns,
                    ..old(self).stats
                },
                ..*old(self)
            }),
    {
        self.stats.end_time_ns = now_ns();
    }

    /// Mark the frames named by reclaimed completion entries free again.
    fn update_tx_frames(&mut self, free_frames: &Vec<u64>)
        requires
            old(self).frame_size >= 1,
            old(self).tx_frames@.len() <= u32::MAX,
            forall|i: int| 0 <= i < old(self).n_frames()
                ==> (#[trigger] old(self).tx_frames@[i]).offset == i * old(self).frame_size,
            forall|j: int| 0 <= j < free_frames@.len() ==> {
                &&& old(self).entry_valid(#[trigger] free_frames@[j])
                &&& old(self).tx_frames@[old(self).entry_index(free_frames@[j])].status
                    is OnTxQueue
            },
            forall|j: int, k: int|
                0 <= j < k < free_frames@.len()
                    ==> #[trigger] free_frames@[j] != #[trigger] free_frames@[k],
        ensures
            final(self).tx_q == old(self).tx_q,
            final(self).comp_q == old(self).comp_q,
            final(self).outstanding_tx_frames == old(self).outstanding_tx_frames,
            final(self).tx_cursor == old(self).tx_cursor,
            final(self).frame_size == old(self).frame_size,
            final(self).stats == old(self).stats,
            final(self).batch_size == old(self).batch_size,
            final(self).target_pps == old(self).target_pps,
            final(self).pps_threshold == old(self).pps_threshold,
            final(self).tx_poll_ms_timeout == old(self).tx_poll_ms_timeout,
            final(self).tx_frames@.len() == old(self).tx_frames@.len(),
            forall|i: int| 0 <= i < old(self).n_frames() ==> {
                &&& (#[trigger] final(self).tx_frames@[i]).offset == old(self).tx_frames@[i].offset
                &&& final(self).tx_frames@[i].data == old(self).tx_frames@[i].data
            },
            forall|i: int| 0 <= i < old(self).n_frames()
                && free_frames@.contains(#[trigger] old(self).tx_frames@[i].offset)
                ==> final(self).tx_frames@[i].status is Free,
            forall|i: int| 0 <= i < old(self).n_frames()
                && !free_frames@.contains(#[trigger] old(self).tx_frames@[i].offset)
                ==> final(self).tx_frames@[i].status == old(self).tx_frames@[i].status,
            count_status(final(self).tx_frames@, FrameStatus::OnTxQueue)
                == count_status(old(self).tx_frames@, FrameStatus::OnTxQueue)
                    - free_frames@.len(),
    {
        let ghost pre = *old(self);
        let mut j: usize = 0;
        while j < free_frames.len()
            invariant
                j <= free_frames@.len(),
                self.tx_q == pre.tx_q,
                self.comp_q == pre.comp_q,
                self.outstanding_tx_frames == pre.outstanding_tx_frames,
                self.tx_cursor == pre.tx_cursor,
                self.frame_size == pre.frame_size,
                self.stats == pre.stats,
                self.batch_size == pre.batch_size,
                self.target_pps == pre.target_pps,
                self.pps_threshold == pre.pps_threshold,
                self.tx_poll_ms_timeout == pre.tx_poll_ms_timeout,
                self.tx_frames@.len() == pre.tx_frames@.len(),
                pre.frame_size >= 1,
                pre.tx_frames@.len() <= u32::MAX,
                forall|i: int| 0 <= i < pre.n_frames()
                    ==> (#[trigger] pre.tx_frames@[i]).offset == i * pre.frame_size,
                forall|jj: int| 0 <= jj < free_frames@.len() ==> {
                    &&& pre.entry_valid(#[trigger] free_frames@[jj])
                    &&& pre.tx_frames@[pre.entry_index(free_frames@[jj])].status is OnTxQueue
                },
                forall|jj: int, kk: int|
                    0 <= jj < kk < free_frames@.len()
                        ==> #[trigger] free_frames@[jj] != #[trigger] free_frames@[kk],
                forall|i: int| 0 <= i < pre.n_frames() ==> {
                    &&& (#[trigger] self.tx_frames@[i]).offset == pre.tx_frames@[i].offset
                    &&& self.tx_frames@[i].data == pre.tx_frames@[i].data
                },
                forall|i: int| 0 <= i < pre.n_frames()
                    && free_frames@.take(j as int).contains(
                        #[trigger] pre.tx_frames@[i].offset)
                    ==> self.tx_frames@[i].status is Free,
                forall|i: int| 0 <= i < pre.n_frames()
                    && !free_frames@.take(j as int).contains(
                        #[trigger] pre.tx_frames@[i].offset)
                    ==> self.tx_frames@[i].status == pre.tx_frames@[i].status,
                count_status(self.tx_frames@, FrameStatus::OnTxQueue)
                    == count_status(pre.tx_frames@, FrameStatus::OnTxQueue) - j,
            decreases free_frames@.len() - j,
        {
            let e = free_frames[j];
            proof {
                assert(pre.entry_valid(e));
                assert(0 <= pre.entry_index(e) && pre.entry_index(e) < pre.n_frames());
            }
            let idx = (e / (self.frame_size as u64)) as usize;
            proof {
                assert(idx as int == pre.entry_index(e));
                lemma_fundamental_div_mod(e as int, pre.frame_size as int);
                assert(pre.entry_index(e) * pre.frame_size == e as int) by (nonlinear_arith)
                    requires
                        e as int == pre.frame_size as int * (e as int / pre.frame_size as int)
                            + e as int % pre.frame_size as int,
                        e as int % pre.frame_size as int == 0,
                        pre.entry_index(e) == e as int / pre.frame_size as int,
                ;
                assert(pre.tx_frames@[idx as int].offset == e);
                // The entry was not among those already processed, so the
                // frame at idx still has its old status.
                assert(!free_frames@.take(j as int).contains(e));
                assert(self.tx_frames@[idx as int].status is OnTxQueue);
            }
            let ghost frames_before = self.tx_frames@;
            self.tx_frames[idx].status = FrameStatus::Free;
            proof {
                lemma_count_update(
                    frames_before,
                    idx as int,
                    self.tx_frames@[idx as int],
                    FrameStatus::OnTxQueue,
                );
                assert forall|i: int|
                    0 <= i < pre.n_frames() && free_frames@.take(j + 1).contains(
                        #[trigger] pre.tx_frames@[i].offset,
                    ) implies self.tx_frames@[i].status is Free by {
                    if i != idx {
                        let off = pre.tx_frames@[i].offset;
                        if !free_frames@.take(j as int).contains(off) {
                            // It must be the new entry e, but e names idx.
                            let w = choose|w: int|
                                0 <= w < j + 1 && #[trigger] free_frames@.take(j + 1)[w] == off;
                            assert(w == j);
                            assert(off == e);
                            assert(i * pre.frame_size == idx * pre.frame_size);
                            assert(i == idx) by (nonlinear_arith)
                                requires
                                    i * pre.frame_size == idx * pre.frame_size,
                                    pre.frame_size >= 1,
                                    i >= 0,
                                    idx >= 0,
                            ;
                        }
                    }
                }
                assert forall|i: int|
                    0 <= i < pre.n_frames() && !free_frames@.take(j + 1).contains(
                        #[trigger] pre.tx_frames@[i].offset,
                    ) implies self.tx_frames@[i].status == pre.tx_frames@[i].status by {
                    assert(free_frames@.take(j + 1)[j as int] == e);
                    assert(i != idx);
                    assert(!free_frames@.take(j as int).contains(pre.tx_frames@[i].offset));
                }
            }
            j = j + 1;
        }
        proof {
            assert(free_frames@.take(free_frames@.len() as int) =~= free_frames@);
        }
    }

    /// One transmit attempt. Reclaims finished frames from the completion
    /// ring, wakes the kernel when nothing came back and it has parked,
    /// and, if the frame at the cursor is then free, copies the payload in,
    /// marks the frame out for transmission and, on a batch boundary,
    /// flushes the whole batch onto the transmit ring in one accepted
    /// produce call. Fails with `NoFreeTxFrames`, touching no payload,
    /// exactly when no free frame stands at the cursor after reclaiming.
    #[verifier::rlimit(60)]
    pub fn send(&mut self, data: &Vec<u8>) -> (r: Result<(), XskSendError>)
        requires
            old(self).wf(),
            data@.len() <= old(self).frame_size,
        ensures
            final(self).wf(),
            final(self).tx_frames@.len() == old(self).tx_frames@.len(),
            final(self).frame_size == old(self).frame_size,
            final(self).batch_size == old(self).batch_size,
            final(self).target_pps == old(self).target_pps,
            final(self).pps_threshold == old(self).pps_threshold,
            final(self).stats == old(self).stats,
            final(self).tx_q.capacity() == old(self).tx_q.capacity(),
            final(self).comp_q.capacity() == old(self).comp_q.capacity(),
            forall|i: int| 0 <= i < old(self).n_frames()
                ==> (#[trigger] final(self).tx_frames@[i]).offset
                    == old(self).tx_frames@[i].offset,
            // Completions are reclaimed the same way whether or not the
            // attempt then succeeds.
            final(self).comp_q.pending()
                == old(self).comp_q.pending().skip(old(self).reclaim_count()),
            final(self).tx_q.spec_needs_wakeup()
                == (old(self).tx_q.spec_needs_wakeup() && old(self).reclaim_count() != 0),
            forall|i: int| 0 <= i < old(self).n_frames()
                && old(self).reclaimed_entries().contains(
                    #[trigger] old(self).tx_frames@[i].offset)
                && !(r is Ok && i == old(self).tx_cursor)
                ==> final(self).tx_frames@[i].status is Free,
            // No double-send: a frame out for transmission keeps its bytes
            // and its status until a completion entry names it.
            forall|i: int| 0 <= i < old(self).n_frames()
                && old(self).tx_frames@[i].status is OnTxQueue
                && !old(self).reclaimed_entries().contains(
                    #[trigger] old(self).tx_frames@[i].offset)
                ==> final(self).tx_frames@[i].status is OnTxQueue
                    && final(self).tx_frames@[i].data == old(self).tx_frames@[i].data,
            // Success exactly when reclaiming leaves a free frame at the
            // cursor.
            r is Ok <==> old(self).cursor_free_after_reclaim(),
            r is Err ==> {
                &&& final(self).tx_cursor == old(self).tx_cursor
                &&& final(self).outstanding_tx_frames
                    == old(self).outstanding_tx_frames - old(self).reclaim_count()
                &&& final(self).tx_q.pending() == old(self).tx_q.pending()
                &&& forall|i: int| 0 <= i < old(self).n_frames()
                    ==> (#[trigger] final(self).tx_frames@[i]).data
                        == old(self).tx_frames@[i].data
            },
            r is Ok ==> {
                &&& final(self).tx_frames@[old(self).tx_cursor as int].data@ == data@
                &&& final(self).tx_frames@[old(self).tx_cursor as int].status is OnTxQueue
                &&& final(self).tx_cursor == (if old(self).tx_cursor + 1
                        == old(self).tx_frames@.len() { 0int } else {
                        old(self).tx_cursor + 1
                    })
                &&& final(self).outstanding_tx_frames
                    == old(self).outstanding_tx_frames - old(self).reclaim_count() + 1
                // Batch flush: on a boundary, exactly one batch of exactly
                // batch_size frames goes onto the transmit ring; otherwise
                // the ring is untouched.
                &&& if (old(self).tx_cursor + 1) % old(self).batch_size as int == 0 {
                    final(self).tx_q.pending() == old(self).tx_q.pending() + Seq::new(
                        old(self).batch_size as nat,
                        |k: int| old(self).tx_frames@[
                            old(self).tx_cursor + 1 - old(self).batch_size + k
                        ].offset,
                    )
                } else {
                    final(self).tx_q.pending() == old(self).tx_q.pending()
                }
            },
    {
        let ghost pre = *old(self);
        let reclaimed = self.comp_q.consume(self.outstanding_tx_frames);
        proof {
            assert(reclaimed@ == pre.reclaimed_entries());
            assert forall|j: int| 0 <= j < reclaimed@.len() implies {
                &&& pre.entry_valid(#[trigger] reclaimed@[j])
                &&& pre.tx_frames@[pre.entry_index(reclaimed@[j])].status is OnTxQueue
            } by {
                assert(reclaimed@[j] == pre.comp_q.pending()[j]);
            }
        }
        self.outstanding_tx_frames = self.outstanding_tx_frames - reclaimed.len() as u64;
        if reclaimed.len() == 0 {
            if self.tx_q.needs_wakeup() {
                self.tx_q.wakeup();
            }
        }
        self.update_tx_frames(&reclaimed);
        let ghost mid = *self;
        proof {
            // The census matches the adjusted outstanding counter.
            assert(mid.outstanding_tx_frames
                == count_status(mid.tx_frames@, FrameStatus::OnTxQueue));
            lemma_count_le_len(mid.tx_frames@, FrameStatus::OnTxQueue);
            // Remaining completion entries kept their frames: each differs
            // from every reclaimed entry.
            assert forall|j: int| 0 <= j < mid.comp_q.pending().len() implies {
                let e = #[trigger] mid.comp_q.pending()[j];
                &&& mid.entry_valid(e)
                &&& mid.tx_frames@[mid.entry_index(e)].status is OnTxQueue
                &&& !(mid.batch_start() <= mid.entry_index(e) < mid.tx_cursor)
            } by {
                let e = mid.comp_q.pending()[j];
                let rc = pre.reclaim_count();
                assert(e == pre.comp_q.pending()[j + rc]);
                assert(pre.entry_valid(e));
                let i = pre.entry_index(e);
                assert(pre.tx_frames@[i].offset == i * pre.frame_size);
                if reclaimed@.contains(pre.tx_frames@[i].offset) {
                    let w = choose|w: int|
                        0 <= w < rc && #[trigger] reclaimed@[w] == pre.tx_frames@[i].offset;
                    assert(pre.comp_q.pending()[w] == pre.comp_q.pending()[j + rc]);
                    assert(false);
                }
            }
            // Unflushed frames were likewise untouched.
            lemma_mod_decreases(pre.tx_cursor as nat, pre.batch_size as nat);
            assert(0 <= pre.batch_start());
            assert forall|i: int|
                mid.batch_start() <= i < mid.tx_cursor implies (#[trigger] mid.tx_frames@[
                i]).status is OnTxQueue by {
                assert(0 <= i < pre.n_frames());
                if reclaimed@.contains(pre.tx_frames@[i].offset) {
                    let w = choose|w: int|
                        0 <= w < reclaimed@.len() && #[trigger] reclaimed@[w] == pre.tx_frames@[
                            i].offset;
                    assert(pre.entry_index(reclaimed@[w]) == i) by (nonlinear_arith)
                        requires
                            reclaimed@[w] == i * pre.frame_size,
                            pre.frame_size >= 1,
                            0 <= i,
                            pre.entry_index(reclaimed@[w])
                                == reclaimed@[w] as int / pre.frame_size as int,
                    ;
                    assert(!(pre.batch_start() <= pre.entry_index(reclaimed@[w])
                        < pre.tx_cursor));
                    assert(false);
                }
            }
        }
        if !self.tx_frames[self.tx_cursor].status.is_free() {
            proof {
                assert(!pre.cursor_free_after_reclaim()) by {
                    if pre.reclaimed_entries().contains(
                        pre.tx_frames@[pre.tx_cursor as int].offset) {
                        assert(mid.tx_frames@[pre.tx_cursor as int].status is Free);
                    }
                }
                assert(self.wf());
            }
            return Err(XskSendError::NoFreeTxFrames);
        }
        proof {
            assert(pre.cursor_free_after_reclaim()) by {
                if !(pre.tx_frames@[pre.tx_cursor as int].status is Free) {
                    assert(reclaimed@.contains(pre.tx_frames@[pre.tx_cursor as int].offset));
                }
            }
        }
        // Copy the payload into the free frame at the cursor.
        let mut buf: Vec<u8> = Vec::new();
        let mut k: usize = 0;
        while k < data.len()
            invariant
                k <= data@.len(),
                buf@ == data@.take(k as int),
            decreases data@.len() - k,
        {
            buf.push(data[k]);
            proof {
                assert(buf@ =~= data@.take(k + 1));
            }
            k = k + 1;
        }
        proof {
            assert(buf@ =~= data@);
        }
        let cur = self.tx_cursor;
        let ghost frames_mid = self.tx_frames@;
        self.tx_frames[cur].data = buf;
        self.tx_frames[cur].status = FrameStatus::OnTxQueue;
        proof {
            lemma_count_update(
                frames_mid,
                cur as int,
                self.tx_frames@[cur as int],
                FrameStatus::OnTxQueue,
            );
            assert(frames_mid.update(cur as int, self.tx_frames@[cur as int])
                =~= self.tx_frames@);
        }
        self.outstanding_tx_frames = self.outstanding_tx_frames + 1;
        let ghost marked = *self;
        proof {
            assert(marked.outstanding_tx_frames
                == count_status(marked.tx_frames@, FrameStatus::OnTxQueue));
            lemma_count_le_len(marked.tx_frames@, FrameStatus::OnTxQueue);
        }
        if (cur + 1) % self.batch_size == 0 {
            proof {
                // On a boundary the cursor closes a batch: cur % b == b - 1.
                lemma_mod_succ(cur as int, pre.batch_size as int);
                assert(cur as int % pre.batch_size as int == pre.batch_size - 1);
                assert(cur + 1 >= pre.batch_size);
                assert(cur as int + 1 <= pre.n_frames());
                assert(pre.n_frames() <= u32::MAX);
            }
            let start = cur + 1 - self.batch_size;
            let mut batch: Vec<u64> = Vec::new();
            let mut b: usize = start;
            while b < cur + 1
                invariant
                    start <= b <= cur + 1,
                    cur < self.tx_frames@.len(),
                    self.tx_frames@.len() <= u32::MAX,
                    start == cur + 1 - self.batch_size,
                    batch@ == Seq::new((b - start) as nat,
                        |k: int| self.tx_frames@[start + k].offset),
                decreases cur + 1 - b,
            {
                batch.push(self.tx_frames[b].offset);
                proof {
                    assert(batch@ =~= Seq::new((b + 1 - start) as nat,
                        |k: int| self.tx_frames@[start + k].offset));
                }
                b = b + 1;
            }
            let accepted = self.tx_q.produce(&batch);
            proof {
                // The ring always has room for a whole batch: entries on
                // both rings plus the unflushed batch never exceed the
                // outstanding count, which is at most the frame count.
                assert(accepted == pre.batch_size);
                assert(self.tx_q.pending() =~= marked.tx_q.pending()
                    + batch@.take(pre.batch_size as int));
                assert(batch@.take(pre.batch_size as int) =~= batch@);
            }
        }
        let next = if cur + 1 == self.tx_frames.len() {
            0
        } else {
            cur + 1
        };
        self.tx_cursor = next;
        proof {
            if (cur + 1) % pre.batch_size as int == 0 {
                if cur + 1 == pre.n_frames() {
                    lemma_small_mod(0nat, pre.batch_size as nat);
                    assert(self.unflushed() == 0);
                } else {
                    assert(self.unflushed() == 0);
                }
            } else {
                lemma_mod_succ(cur as int, pre.batch_size as int);
                assert(cur + 1 < pre.n_frames()) by {
                    if cur + 1 == pre.n_frames() {
                        lemma_mod_multiples_basic(
                            pre.n_frames() / pre.batch_size as int,
                            pre.batch_size as int,
                        );
                        lemma_fundamental_div_mod(pre.n_frames(), pre.batch_size as int);
                        assert((cur + 1) % pre.batch_size as int == 0);
                    }
                }
                assert(self.batch_start() == cur - cur as int % pre.batch_size as int);
            }
            assert(self.wf());
        }
        Ok(())
    }
}

/// Stepping a counter by one steps its remainder, wrapping at the modulus.
proof fn lemma_mod_succ(c: int, b: int)
    requires
        b >= 1,
        c >= 0,
    ensures
        0 <= c % b < b,
        (c + 1) % b == if c % b == b - 1 {
            0int
        } else {
            c % b + 1
        },
{
    lemma_fundamental_div_mod(c, b);
    let q = c / b;
    let r = c % b;
    if r == b - 1 {
        assert(c + 1 == (q + 1) * b) by (nonlinear_arith)
            requires
                c == b * q + r,
                r == b - 1,
        ;
        lemma_mod_multiples_basic(q + 1, b);
    } else {
        assert(c + 1 == q * b + (r + 1)) by (nonlinear_arith)
            requires
                c == b * q + r,
        ;
        lemma_fundamental_div_mod_converse_mod(c + 1, b, q, r + 1);
    }
}

} // verus!
