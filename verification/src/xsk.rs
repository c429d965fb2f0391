use vstd::prelude::*;

verus! {

use crate::ring::RingQueue;
use crate::rx::{RxStats, XskRx};
use crate::tx::{TxStats, XskTx};
use crate::umem::{Frame, SocketConfig, Umem, UmemConfig};
use crate::MAX_PACKET_SIZE;

/// One entry of the transmit channel: a payload copied into the
/// fixed-capacity wire buffer, plus its true length.
pub struct Packet {
    pub data: Vec<u8>,
    pub len: usize,
}

impl Packet {
    pub open spec fn wf(self) -> bool {
        &&& self.data@.len() == MAX_PACKET_SIZE
        &&& self.len <= MAX_PACKET_SIZE
    }
}

/// A bounded first-in-first-out queue, the shape of the application-facing
/// channels. It never drops: a push against a full queue hands the value
/// back untouched. In the threaded runtime the channel blocks instead; this
/// model makes the full case an explicit result.
pub struct BoundedQueue<T> {
    items: Vec<T>,
    capacity: usize,
}

impl<T> BoundedQueue<T> {
    pub closed spec fn contents(self) -> Seq<T> {
        self.items@
    }

    pub closed spec fn cap(self) -> int {
        self.capacity as int
    }

    pub closed spec fn wf(self) -> bool {
        self.items@.len() <= self.capacity
    }

    pub fn new(capacity: usize) -> (r: BoundedQueue<T>)
        ensures
            r.wf(),
            r.cap() == capacity,
            r.contents() == Seq::<T>::empty(),
    {
        let r = BoundedQueue { items: Vec::new(), capacity };
        proof {
            assert(r.contents() =~= Seq::<T>::empty());
        }
        r
    }

    pub fn len(&self) -> (n: usize)
        ensures
            n == self.contents().len(),
    {
        self.items.len()
    }

    pub fn is_full(&self) -> (r: bool)
        requires
            self.wf(),
        ensures
            r == (self.contents().len() == self.cap()),
    {
        self.items.len() == self.capacity
    }

    /// Append at the back. On a full queue nothing changes and the value
    /// comes back to the caller: no entry is ever silently dropped.
    pub fn try_push(&mut self, v: T) -> (rejected: Option<T>)
        requires
            old(self).wf(),
        ensures
            final(self).wf(),
            final(self).cap() == old(self).cap(),
            old(self).contents().len() < old(self).cap() ==> rejected is None
                && final(self).contents() == old(self).contents().push(v),
            old(self).contents().len() >= old(self).cap() ==> rejected == Some(v)
                && final(self).contents() == old(self).contents(),
    {
        if self.items.len() == self.capacity {
            Some(v)
        } else {
            self.items.push(v);
            None
        }
    }

    /// Put a value back at the front, for a retry.
    pub fn push_front(&mut self, v: T)
        requires
            old(self).wf(),
            old(self).contents().len() < old(self).cap(),
        ensures
            final(self).wf(),
            final(self).cap() == old(self).cap(),
            final(self).contents() == old(self).contents().insert(0, v),
    {
        self.items.insert(0, v);
    }

    /// Remove and return the oldest entry, if any.
    pub fn pop_front(&mut self) -> (r: Option<T>)
        requires
            old(self).wf(),
        ensures
            final(self).wf(),
            final(self).cap() == old(self).cap(),
            old(self).contents().len() == 0 ==> r is None && final(self).contents() == old(
                self).contents(),
            old(self).contents().len() > 0 ==> r == Some(old(self).contents()[0])
                && final(self).contents() == old(self).contents().skip(1),
    {
        if self.items.len() == 0 {
            None
        } else {
            let v = self.items.remove(0);
            proof {
                assert(self.items@ =~= old(self).contents().skip(1));
            }
            Some(v)
        }
    }
}

/// The assembled socket: the shared region, its four rings and the frame
/// partition, before workers take them over. The kernel-side socket
/// creation and interface binding stand outside the model; this builds the
/// bookkeeping they hand back.
pub struct Xsk<'a> {
    pub if_name: &'a str,
    pub fill_q: RingQueue,
    pub comp_q: RingQueue,
    pub tx_q: RingQueue,
    pub rx_q: RingQueue,
    pub tx_frames: Vec<Frame>,
    pub rx_frames: Vec<Frame>,
    pub umem: Umem,
    pub umem_config: UmemConfig,
    pub socket_config: SocketConfig,
}

impl<'a> Xsk<'a> {
    /// Create the region and rings and split the frames: the first
    /// `n_tx_frames` go to the transmit side, the rest to the receive side.
    /// The partition is fixed for the socket's lifetime.
    pub fn new(
        if_name: &'a str,
        queue_id: u32,
        umem_config: UmemConfig,
        socket_config: SocketConfig,
        n_tx_frames: usize,
    ) -> (r: Xsk<'a>)
        requires
            umem_config.wf(),
            socket_config.wf(),
            n_tx_frames <= umem_config.frame_count,
        ensures
            r.if_name == if_name,
            r.umem_config == umem_config,
            r.socket_config == socket_config,
            r.umem.frame_size == umem_config.frame_size,
            r.umem.frame_count == umem_config.frame_count,
            r.fill_q.wf() && r.fill_q.capacity() == umem_config.fill_queue_size
                && r.fill_q.pending().len() == 0,
            r.comp_q.wf() && r.comp_q.capacity() == umem_config.comp_queue_size
                && r.comp_q.pending().len() == 0,
            r.tx_q.wf() && r.tx_q.capacity() == socket_config.tx_queue_size
                && r.tx_q.pending().len() == 0 && !r.tx_q.spec_needs_wakeup(),
            r.rx_q.wf() && r.rx_q.capacity() == socket_config.rx_queue_size
                && r.rx_q.pending().len() == 0,
            r.tx_frames@.len() == n_tx_frames,
            r.rx_frames@.len() == umem_config.frame_count - n_tx_frames,
            forall|i: int| 0 <= i < r.tx_frames@.len() ==> {
                &&& (#[trigger] r.tx_frames@[i]).offset == i * umem_config.frame_size
                &&& r.tx_frames@[i].status is Free
                &&& r.tx_frames@[i].data@.len() == 0
            },
            forall|i: int| 0 <= i < r.rx_frames@.len() ==> {
                &&& (#[trigger] r.rx_frames@[i]).offset == n_tx_frames * umem_config.frame_size
                    + i * umem_config.frame_size
                &&& r.rx_frames@[i].status is Free
                &&& r.rx_frames@[i].data@.len() == 0
            },
    {
        let (umem, fill_q, comp_q, mut frames) = Umem::create(&umem_config);
        let tx_q = RingQueue::new(socket_config.tx_queue_size as usize);
        let rx_q = RingQueue::new(socket_config.rx_queue_size as usize);
        let rx_frames = frames.split_off(n_tx_frames);
        let tx_frames = frames;
        proof {
            assert forall|i: int| 0 <= i < rx_frames@.len() implies (#[trigger] rx_frames@[
            i]).offset == n_tx_frames * umem_config.frame_size + i * umem_config.frame_size by {
                assert((n_tx_frames + i) * umem_config.frame_size == n_tx_frames
                    * umem_config.frame_size + i * umem_config.frame_size) by (nonlinear_arith);
            }
        }
        Xsk {
            if_name,
            fill_q,
            comp_q,
            tx_q,
            rx_q,
            tx_frames,
            rx_frames,
            umem,
            umem_config,
            socket_config,
        }
    }
}

/// What one shutdown call does to the transmit side: the statistics come
/// out exactly when the side was still open, and the side is closed after.
pub open spec fn shutdown_tx_step(pre: Xsk2, post: Xsk2, r: Option<TxStats>) -> bool {
    &&& (r is Some) == pre.tx_open
    &&& !post.tx_open
}

/// The receive-side mirror of `shutdown_tx_step`.
pub open spec fn shutdown_rx_step(pre: Xsk2, post: Xsk2, r: Option<RxStats>) -> bool {
    &&& (r is Some) == pre.rx_open
    &&& !post.rx_open
    &&& post.shutdown
}

/// Shutting the transmit side down twice returns statistics exactly once:
/// the first call yields them whenever the side was open, and a second
/// call, whatever state the first left, yields nothing.
pub proof fn lemma_shutdown_tx_idempotent(
    s0: Xsk2,
    s1: Xsk2,
    s2: Xsk2,
    r1: Option<TxStats>,
    r2: Option<TxStats>,
)
    requires
        shutdown_tx_step(s0, s1, r1),
        shutdown_tx_step(s1, s2, r2),
    ensures
        (r1 is Some) == s0.tx_open,
        r2 is None,
{
}

/// The receive-side mirror of `lemma_shutdown_tx_idempotent`.
pub proof fn lemma_shutdown_rx_idempotent(
    s0: Xsk2,
    s1: Xsk2,
    s2: Xsk2,
    r1: Option<RxStats>,
    r2: Option<RxStats>,
)
    requires
        shutdown_rx_step(s0, s1, r1),
        shutdown_rx_step(s1, s2, r2),
    ensures
        (r1 is Some) == s0.rx_open,
        r2 is None,
{
}

/// The socket orchestrator: it owns the two workers and the two
/// application-facing channels and coordinates shutdown. This is the
/// single-threaded semantics of the engine; the threaded runtime around it
/// spawns one pinned thread per worker and blocks where this model returns
/// an explicit "would block" result.
pub struct Xsk2<'a> {
    pub ifname: &'a str,
    pub umem: Umem,
    pub umem_config: UmemConfig,
    pub socket_config: SocketConfig,
    pub tx: XskTx,
    pub rx: XskRx,
    pub tx_channel: BoundedQueue<Packet>,
    pub rx_channel: BoundedQueue<Vec<u8>>,
    pub tx_open: bool,
    pub rx_open: bool,
    pub shutdown: bool,
}

/// Capacity of each application-facing channel.
pub const CHANNEL_CAPACITY: usize = 100000;

impl<'a> Xsk2<'a> {
    pub open spec fn wf(self) -> bool {
        &&& self.tx.wf()
        &&& self.rx.wf()
        &&& self.tx_channel.wf()
        &&& self.rx_channel.wf()
        &&& self.tx.frame_size >= MAX_PACKET_SIZE
        &&& self.tx_channel.cap() == CHANNEL_CAPACITY
        &&& self.rx_channel.cap() == CHANNEL_CAPACITY
        &&& forall|k: int| 0 <= k < self.tx_channel.contents().len()
            ==> (#[trigger] self.tx_channel.contents()[k]).wf()
    }

    /// Assemble the engine: create the region and rings, partition the
    /// frames, and set up both workers and channels with the default
    /// policy: batch size one, no throttling, full payloads forwarded.
    pub fn new(
        if_name: &'a str,
        queue_id: u32,
        umem_config: UmemConfig,
        socket_config: SocketConfig,
        n_tx_frames: usize,
    ) -> (r: Xsk2<'a>)
        requires
            umem_config.wf(),
            socket_config.wf(),
            1 <= n_tx_frames <= umem_config.frame_count,
            umem_config.frame_size >= MAX_PACKET_SIZE,
            socket_config.tx_queue_size >= n_tx_frames,
        ensures
            r.wf(),
            r.ifname == if_name,
            r.umem_config == umem_config,
            r.socket_config == socket_config,
            r.tx_open && r.rx_open && !r.shutdown,
            r.tx.stats.pkts_tx == 0,
            r.rx.stats.pkts_rx == 0,
            r.tx.batch_size == 1,
            r.tx.target_pps == 0,
            r.tx.pps_threshold == 5000,
            r.rx.include_payload,
            r.tx.tx_frames@.len() == n_tx_frames,
            r.rx.rx_frames@.len() == umem_config.frame_count - n_tx_frames,
            r.tx_channel.contents().len() == 0,
            r.rx_channel.contents().len() == 0,
            r.tx_channel.cap() == CHANNEL_CAPACITY,
            r.rx_channel.cap() == CHANNEL_CAPACITY,
            r.tx.frame_size == umem_config.frame_size,
    {
        let xsk = Xsk::new(if_name, queue_id, umem_config, socket_config, n_tx_frames);
        let Xsk {
            if_name: ifname,
            fill_q,
            comp_q,
            tx_q,
            rx_q,
            tx_frames,
            rx_frames,
            umem,
            umem_config,
            socket_config,
        } = xsk;
        let frame_size = umem_config.frame_size;
        let tx = XskTx::new(tx_q, comp_q, tx_frames, frame_size, 1, 0, 5000, 1);
        proof {
            assert(n_tx_frames as int <= 0xffff_ffff);
            assert(frame_size as int <= 0xffff_ffff);
            assert((n_tx_frames as int) * (frame_size as int) <= 0xffff_ffff * 0xffff_ffff)
                by (nonlinear_arith)
                requires
                    0 <= n_tx_frames as int <= 0xffff_ffff,
                    0 <= frame_size as int <= 0xffff_ffff,
            ;
            assert((n_tx_frames as int) * (frame_size as int) <= u64::MAX);
        }
        let base_offset: u64 = (n_tx_frames as u64) * (frame_size as u64);
        let rx = XskRx::new(rx_q, fill_q, rx_frames, base_offset, frame_size, true, 1);
        let tx_channel: BoundedQueue<Packet> = BoundedQueue::new(CHANNEL_CAPACITY);
        let rx_channel: BoundedQueue<Vec<u8>> = BoundedQueue::new(CHANNEL_CAPACITY);
        Xsk2 {
            ifname,
            umem,
            umem_config,
            socket_config,
            tx,
            rx,
            tx_channel,
            rx_channel,
            tx_open: true,
            rx_open: true,
            shutdown: false,
        }
    }

    /// Enqueue a payload for transmission: copy it into the fixed wire
    /// buffer and queue it on the transmit channel. Returns false, with
    /// every queue untouched, when the channel is full (the threaded
    /// runtime blocks there instead) or transmit is already shut down;
    /// nothing is ever dropped silently.
    pub fn send(&mut self, data: &Vec<u8>) -> (accepted: bool)
        requires
            old(self).wf(),
            data@.len() <= MAX_PACKET_SIZE,
        ensures
            final(self).wf(),
            final(self).tx == old(self).tx,
            final(self).rx == old(self).rx,
            final(self).rx_channel == old(self).rx_channel,
            final(self).tx_open == old(self).tx_open,
            final(self).rx_open == old(self).rx_open,
            final(self).shutdown == old(self).shutdown,
            final(self).tx_channel.cap() == old(self).tx_channel.cap(),
            accepted == (old(self).tx_open && old(self).tx_channel.contents().len() < old(
                self).tx_channel.cap()),
            !accepted ==> final(self).tx_channel.contents() == old(self).tx_channel.contents(),
            accepted ==> {
                let q = final(self).tx_channel.contents();
                &&& q.len() == old(self).tx_channel.contents().len() + 1
                &&& q.drop_last() == old(self).tx_channel.contents()
                &&& q.last().len == data@.len()
                &&& q.last().data@.len() == MAX_PACKET_SIZE
                &&& q.last().data@.take(data@.len() as int) == data@
                &&& forall|k: int|
                    data@.len() <= k < MAX_PACKET_SIZE ==> q.last().data@[k] == 0u8
            },
    {
        if !self.tx_open {
            return false;
        }
        if self.tx_channel.is_full() {
            return false;
        }
        let mut buf: Vec<u8> = Vec::new();
        let mut k: usize = 0;
        while k < data.len()
            invariant
                k <= data@.len(),
                buf@ == data@.take(k as int),
            decreases data@.len() - k,
        {
            buf.push(data[k]);
            proof {
                assert(buf@ =~= data@.take(k + 1));
            }
            k = k + 1;
        }
        while buf.len() < MAX_PACKET_SIZE
            invariant
                data@.len() <= buf@.len() <= MAX_PACKET_SIZE,
                buf@.take(data@.len() as int) == data@,
                forall|j: int| data@.len() <= j < buf@.len() ==> buf@[j] == 0u8,
            decreases MAX_PACKET_SIZE - buf@.len(),
        {
            buf.push(0);
            proof {
                assert(buf@.take(data@.len() as int) =~= data@);
            }
        }
        let packet = Packet { data: buf, len: data.len() };
        let rejected = self.tx_channel.try_push(packet);
        proof {
            assert(rejected is None);
            assert(final(self).tx_channel.contents().drop_last()
                =~= old(self).tx_channel.contents());
        }
        true
    }

    /// Pop the next received payload. Yields nothing when the channel is
    /// empty (the threaded runtime blocks there instead) or the receive
    /// side is already shut down.
    pub fn recv(&mut self) -> (r: Option<Vec<u8>>)
        requires
            old(self).wf(),
        ensures
            final(self).wf(),
            final(self).tx == old(self).tx,
            final(self).rx == old(self).rx,
            final(self).tx_channel == old(self).tx_channel,
            final(self).tx_open == old(self).tx_open,
            final(self).rx_open == old(self).rx_open,
            final(self).shutdown == old(self).shutdown,
            final(self).rx_channel.cap() == old(self).rx_channel.cap(),
            !old(self).rx_open ==> r is None && final(self).rx_channel == old(self).rx_channel,
            old(self).rx_open && old(self).rx_channel.contents().len() == 0 ==> r is None
                && final(self).rx_channel.contents() == old(self).rx_channel.contents(),
            old(self).rx_open && old(self).rx_channel.contents().len() > 0 ==> r == Some(
                old(self).rx_channel.contents()[0])
                && final(self).rx_channel.contents() == old(self).rx_channel.contents().skip(1),
    {
        if !self.rx_open {
            return None;
        }
        self.rx_channel.pop_front()
    }

    /// Close the transmit side: no further payloads are accepted, the
    /// worker's statistics are finalised and returned. They are returned
    /// exactly once; any later call is a no-op yielding nothing.
    pub fn shutdown_tx(&mut self) -> (r: Option<TxStats>)
        requires
            old(self).wf(),
        ensures
            final(self).wf(),
            shutdown_tx_step(*old(self), *final(self), r),
            final(self).rx == old(self).rx,
            final(self).rx_open == old(self).rx_open,
            final(self).shutdown == old(self).shutdown,
            final(self).tx_channel == old(self).tx_channel,
            final(self).rx_channel == old(self).rx_channel,
            r is Some ==> r == Some(final(self).tx.stats)
                && final(self).tx.stats.pkts_tx == old(self).tx.stats.pkts_tx
                && final(self).tx.stats.start_time_ns == old(self).tx.stats.start_time_ns,
            r is None ==> final(self).tx == old(self).tx,
    {
        if self.tx_open {
            self.tx_open = false;
            self.tx.finish();
            Some(self.tx.stats)
        } else {
            None
        }
    }

    /// Close the receive side: raise the shutdown flag the worker polls,
    /// finalise and return its statistics, exactly once.
    pub fn shutdown_rx(&mut self) -> (r: Option<RxStats>)
        requires
            old(self).wf(),
        ensures
            final(self).wf(),
            shutdown_rx_step(*old(self), *final(self), r),
            final(self).tx == old(self).tx,
            final(self).tx_open == old(self).tx_open,
            final(self).tx_channel == old(self).tx_channel,
            final(self).rx_channel == old(self).rx_channel,
            r is Some ==> r == Some(final(self).rx.stats)
                && final(self).rx.stats.pkts_rx == old(self).rx.stats.pkts_rx
                && final(self).rx.stats.start_time_ns == old(self).rx.stats.start_time_ns,
            r is None ==> final(self).rx == old(self).rx,
    {
        self.shutdown = true;
        if self.rx_open {
            self.rx_open = false;
            self.rx.finish();
            Some(self.rx.stats)
        } else {
            None
        }
    }

    /// One turn of the transmit worker: take the next queued payload and
    /// attempt to send it. When no free frame is available the payload goes
    /// back to the front of the channel for a retry (the threaded runtime
    /// backs off and retries there instead); it is never dropped. Returns
    /// whether a payload went out.
    pub fn pump_tx(&mut self) -> (sent: bool)
        requires
            old(self).wf(),
            old(self).tx.stats.pkts_tx < u64::MAX,
        ensures
            final(self).wf(),
            final(self).rx == old(self).rx,
            final(self).rx_channel == old(self).rx_channel,
            final(self).tx_open == old(self).tx_open,
            final(self).rx_open == old(self).rx_open,
            final(self).shutdown == old(self).shutdown,
            final(self).tx_channel.cap() == old(self).tx_channel.cap(),
            old(self).tx_channel.contents().len() == 0 ==> !sent && final(self).tx == old(
                self).tx && final(self).tx_channel.contents() == old(self).tx_channel.contents(),
            old(self).tx_channel.contents().len() > 0 ==> {
                &&& sent == old(self).tx.cursor_free_after_reclaim()
                &&& sent ==> {
                    &&& final(self).tx_channel.contents()
                        == old(self).tx_channel.contents().skip(1)
                    &&& final(self).tx.stats.pkts_tx == old(self).tx.stats.pkts_tx + 1
                    &&& final(self).tx.tx_frames@[old(self).tx.tx_cursor as int].data@
                        == old(self).tx_channel.contents()[0].data@.take(
                            old(self).tx_channel.contents()[0].len as int)
                }
                &&& !sent ==> {
                    &&& final(self).tx_channel.contents() == old(self).tx_channel.contents()
                    &&& final(self).tx.stats == old(self).tx.stats
                }
            },
    {
        let popped = self.tx_channel.pop_front();
        match popped {
            None => false,
            Some(packet) => {
                // Hand the payload's true bytes to the worker.
                let mut buf: Vec<u8> = Vec::new();
                let mut k: usize = 0;
                while k < packet.len
                    invariant
                        k <= packet.len,
                        packet.len <= packet.data@.len(),
                        buf@ == packet.data@.take(k as int),
                    decreases packet.len - k,
                {
                    buf.push(packet.data[k]);
                    proof {
                        assert(buf@ =~= packet.data@.take(k + 1));
                    }
                    k = k + 1;
                }
                match self.tx.send(&buf) {
                    Ok(_) => {
                        self.tx.record_success();
                        true
                    },
                    Err(_) => {
                        self.tx_channel.push_front(packet);
                        proof {
                            assert(final(self).tx_channel.contents() =~= old(
                                self).tx_channel.contents());
                        }
                        false
                    },
                }
            },
        }
    }

    /// One turn of the receive worker: replenish the fill ring, then drain
    /// up to `max` deposited frames and queue their payloads on the receive
    /// channel. It drains no more than the channel can take, so nothing is
    /// dropped; the threaded runtime blocks on a full channel instead.
    /// Returns how many payloads were forwarded.
    pub fn pump_rx(&mut self, max: u64) -> (n: usize)
        requires
            old(self).wf(),
            old(self).rx.stats.pkts_rx + old(self).rx.rx_q.pending().len() <= u64::MAX,
        ensures
            final(self).wf(),
            final(self).tx == old(self).tx,
            final(self).tx_channel == old(self).tx_channel,
            final(self).tx_open == old(self).tx_open,
            final(self).rx_open == old(self).rx_open,
            final(self).shutdown == old(self).shutdown,
            final(self).rx_channel.cap() == old(self).rx_channel.cap(),
            final(self).rx.stats.pkts_rx == old(self).rx.stats.pkts_rx + n,
            final(self).rx_channel.contents().len()
                == old(self).rx_channel.contents().len() + n,
            n <= max,
            // Everything drained is forwarded, in order, cut to the header
            // when payloads are not wanted.
            ({
                let drained = old(self).rx.rx_q.pending().take(n as int);
                &&& final(self).rx.rx_q.pending() == old(self).rx.rx_q.pending().skip(n as int)
                &&& forall|k: int| 0 <= k < n
                    ==> #[trigger] final(self).rx_channel.contents()[
                        old(self).rx_channel.contents().len() + k]@ == crate::rx::extract_payload(
                        old(self).rx.rx_frames@[old(self).rx.entry_index(drained[k])].data@,
                        old(self).rx.include_payload,
                    )
            }),
    {
        self.rx.fill_frames();
        let space = self.rx_channel.len();
        let room = CHANNEL_CAPACITY - space;
        let limit = if max < room as u64 {
            max
        } else {
            room as u64
        };
        let mut payloads = self.rx.recv_step(limit);
        let ghost mid = *self;
        let ghost all = payloads@;
        let n = payloads.len();
        let mut j: usize = 0;
        while j < n
            invariant
                0 <= j <= n,
                n == all.len(),
                payloads@ == all.skip(j as int),
                n + old(self).rx_channel.contents().len() <= old(self).rx_channel.cap(),
                self.rx_channel.wf(),
                self.rx_channel.cap() == old(self).rx_channel.cap(),
                self.rx == mid.rx,
                self.tx == mid.tx,
                self.tx_channel == mid.tx_channel,
                self.tx_open == mid.tx_open,
                self.rx_open == mid.rx_open,
                self.shutdown == mid.shutdown,
                self.rx_channel.contents() == old(self).rx_channel.contents() + all.take(
                    j as int),
            decreases n - j,
        {
            let item = payloads.remove(0);
            proof {
                assert(item == all[j as int]);
                assert(payloads@ =~= all.skip(j + 1));
            }
            let rejected = self.rx_channel.try_push(item);
            proof {
                assert(rejected is None);
                assert(self.rx_channel.contents() =~= old(self).rx_channel.contents()
                    + all.take(j + 1));
            }
            j = j + 1;
        }
        proof {
            assert(all.take(n as int) =~= all);
        }
        n
    }
}

} // verus!
