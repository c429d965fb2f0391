use vstd::prelude::*;

verus! {

use crate::ring::RingQueue;

/// Liveness of one frame of the shared region. At any instant a frame has
/// exactly one status, and only its current owner may change it or the
/// frame's bytes.
#[derive(Clone, Copy, Debug, PartialEq, Eq, Structural)]
pub enum FrameStatus {
    /// Available to be written by the transmit worker or queued for filling.
    Free,
    /// Handed to the kernel on the fill ring, awaiting an incoming packet.
    InFillQueue,
    /// Returned by the kernel on the receive ring with packet bytes in it.
    Filled,
    /// Handed to the kernel for transmission, not yet reclaimed through the
    /// completion ring.
    OnTxQueue,
}

impl FrameStatus {
    pub fn is_free(&self) -> (r: bool)
        ensures
            r == (*self is Free),
    {
        match self {
            FrameStatus::Free => true,
            _ => false,
        }
    }
}

/// One fixed-size slot of the shared region, addressed by its byte offset
/// (a multiple of the frame size). `data` holds the payload currently
/// written into the slot; its length never exceeds the frame size.
pub struct Frame {
    pub offset: u64,
    pub data: Vec<u8>,
    pub status: FrameStatus,
}

/// How many frames of `frames` carry status `st`.
pub open spec fn count_status(frames: Seq<Frame>, st: FrameStatus) -> nat
    decreases frames.len(),
{
    if frames.len() == 0 {
        0
    } else {
        count_status(frames.drop_last(), st) + if frames.last().status == st {
            1nat
        } else {
            0nat
        }
    }
}

pub proof fn lemma_count_le_len(frames: Seq<Frame>, st: FrameStatus)
    ensures
        count_status(frames, st) <= frames.len(),
    decreases frames.len(),
{
    if frames.len() > 0 {
        lemma_count_le_len(frames.drop_last(), st);
    }
}

/// Changing one frame changes the census by exactly the departure and the
/// arrival of that frame.
pub proof fn lemma_count_update(frames: Seq<Frame>, i: int, f: Frame, st: FrameStatus)
    requires
        0 <= i < frames.len(),
    ensures
        count_status(frames.update(i, f), st) == count_status(frames, st)
            - (if frames[i].status == st { 1int } else { 0int })
            + (if f.status == st { 1int } else { 0int }),
    decreases frames.len(),
{
    let updated = frames.update(i, f);
    if i == frames.len() - 1 {
        assert(updated.drop_last() =~= frames.drop_last());
    } else {
        assert(updated.drop_last() =~= frames.drop_last().update(i, f));
        lemma_count_update(frames.drop_last(), i, f, st);
    }
}

/// Every frame carries exactly one status, so the four censuses partition
/// the pool: this is the frame-conservation law.
pub proof fn lemma_count_partition(frames: Seq<Frame>)
    ensures
        count_status(frames, FrameStatus::Free) + count_status(frames, FrameStatus::InFillQueue)
            + count_status(frames, FrameStatus::Filled)
            + count_status(frames, FrameStatus::OnTxQueue) == frames.len(),
    decreases frames.len(),
{
    if frames.len() > 0 {
        lemma_count_partition(frames.drop_last());
    }
}

/// A frame with status `st` makes the census of `st` positive.
pub proof fn lemma_count_positive(frames: Seq<Frame>, i: int, st: FrameStatus)
    requires
        0 <= i < frames.len(),
        frames[i].status == st,
    ensures
        count_status(frames, st) >= 1,
    decreases frames.len(),
{
    if i < frames.len() - 1 {
        lemma_count_positive(frames.drop_last(), i, st);
    }
}

pub proof fn lemma_count_zero_when_absent(frames: Seq<Frame>, st: FrameStatus)
    requires
        forall|i: int| 0 <= i < frames.len() ==> frames[i].status != st,
    ensures
        count_status(frames, st) == 0,
    decreases frames.len(),
{
    if frames.len() > 0 {
        lemma_count_zero_when_absent(frames.drop_last(), st);
    }
}

/// Configuration of the shared region: how many frames, how large each one
/// is, and how deep the two region-owned rings are.
#[derive(Clone, Copy, Debug, PartialEq, Eq, Structural)]
pub struct UmemConfig {
    pub frame_count: u32,
    pub frame_size: u32,
    pub fill_queue_size: u32,
    pub comp_queue_size: u32,
}

impl UmemConfig {
    pub open spec fn wf(self) -> bool {
        &&& self.frame_count >= 1
        &&& self.frame_size >= 1
        &&& 1 <= self.fill_queue_size <= usize::MAX / 2
        &&& 1 <= self.comp_queue_size <= usize::MAX / 2
        &&& self.frame_count <= usize::MAX / 2
    }

    pub fn frame_size(&self) -> (r: u32)
        ensures
            r == self.frame_size,
    {
        self.frame_size
    }
}

/// Configuration of one socket: the depths of its transmit and receive
/// rings.
#[derive(Clone, Copy, Debug, PartialEq, Eq, Structural)]
pub struct SocketConfig {
    pub tx_queue_size: u32,
    pub rx_queue_size: u32,
}

impl SocketConfig {
    pub open spec fn wf(self) -> bool {
        &&& 1 <= self.tx_queue_size <= usize::MAX / 2
        &&& 1 <= self.rx_queue_size <= usize::MAX / 2
    }
}

/// The registered shared region. Creation and destruction of the real
/// memory map and its kernel registration are the surrounding runtime's
/// business; the library tracks the region's geometry and hands out its
/// frames.
pub struct Umem {
    pub frame_size: u32,
    pub frame_count: u32,
}

impl Umem {
    /// Build the region's bookkeeping: the region handle, the fill and
    /// completion rings, and one free frame per slot, each at offset
    /// `index * frame_size`.
    pub fn create(config: &UmemConfig) -> (r: (Umem, RingQueue, RingQueue, Vec<Frame>))
        requires
            config.wf(),
        ensures
            r.0.frame_size == config.frame_size,
            r.0.frame_count == config.frame_count,
            r.1.wf() && r.1.capacity() == config.fill_queue_size && r.1.pending().len() == 0,
            !r.1.spec_needs_wakeup(),
            r.2.wf() && r.2.capacity() == config.comp_queue_size && r.2.pending().len() == 0,
            !r.2.spec_needs_wakeup(),
            r.3@.len() == config.frame_count,
            forall|i: int| 0 <= i < r.3@.len() ==> {
                &&& (#[trigger] r.3@[i]).offset == i * config.frame_size
                &&& r.3@[i].status is Free
                &&& r.3@[i].data@.len() == 0
            },
    {
        let umem = Umem { frame_size: config.frame_size, frame_count: config.frame_count };
        let fill_q = RingQueue::new(config.fill_queue_size as usize);
        let comp_q = RingQueue::new(config.comp_queue_size as usize);
        let mut frames: Vec<Frame> = Vec::new();
        let mut i: u32 = 0;
        while i < config.frame_count
            invariant
                i <= config.frame_count,
                config.wf(),
                frames@.len() == i,
                forall|k: int| 0 <= k < frames@.len() ==> {
                    &&& (#[trigger] frames@[k]).offset == k * config.frame_size
                    &&& frames@[k].status is Free
                    &&& frames@[k].data@.len() == 0
                },
            decreases config.frame_count - i,
        {
            proof {
                assert((i as int) * (config.frame_size as int) <= 0xffff_ffffu64 * 0xffff_ffffu64)
                    by (nonlinear_arith)
                    requires
                        0 <= i <= 0xffff_ffffu64,
                        0 <= config.frame_size <= 0xffff_ffffu64,
                ;
            }
            let offset: u64 = (i as u64) * (config.frame_size as u64);
            frames.push(Frame { offset, data: Vec::new(), status: FrameStatus::Free });
            i = i + 1;
        }
        (umem, fill_q, comp_q, frames)
    }
}

} // verus!
