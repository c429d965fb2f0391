//! A verified model of a zero-copy packet transmit/receive engine.
//!
//! A shared memory region is split into fixed-size frames that are exchanged
//! with the kernel's packet path through four bounded single-producer /
//! single-consumer rings (fill, completion, transmit, receive). This crate
//! holds the frame-ownership protocol, the ring semantics, the transmit and
//! receive worker logic, and the statistics, all with machine-checked
//! contracts. Thread spawning, CPU pinning and the application-facing
//! channels live outside the library.

use vstd::prelude::*;

mod clock;
mod ring;
mod rx;
mod tx;
mod umem;
mod xsk;

pub use ring::RingQueue;
pub use rx::{extract_payload, fill_plan, RxStats, XskRx, HEADER_ONLY_LEN};
pub use tx::{
    count_rate_limited, lemma_rate_limiter_scenario, rate_limit_due_at, TxConfig, TxStats,
    XskSendError, XskTx,
};
pub use umem::{count_status, Frame, FrameStatus, SocketConfig, Umem, UmemConfig};
pub use xsk::{
    lemma_shutdown_rx_idempotent, lemma_shutdown_tx_idempotent, shutdown_rx_step,
    shutdown_tx_step, BoundedQueue, Packet, Xsk, Xsk2, CHANNEL_CAPACITY,
};

verus! {

/// Largest payload the application send path accepts, in bytes.
pub const MAX_PACKET_SIZE: usize = 4096;

} // verus!
