use xsk_engine::{FrameStatus, SocketConfig, TxStats, UmemConfig, Xsk, XskSendError, XskTx};

const FRAME_SIZE: u32 = 4096;

fn make_tx(frame_count: u32, n_tx: usize, batch_size: usize, target_pps: u64) -> XskTx {
    let ucfg = UmemConfig {
        frame_count,
        frame_size: FRAME_SIZE,
        fill_queue_size: 16,
        comp_queue_size: 16,
    };
    let scfg = SocketConfig { tx_queue_size: 32, rx_queue_size: 16 };
    let xsk = Xsk::new("veth0", 0, ucfg, scfg, n_tx);
    XskTx::new(
        xsk.tx_q,
        xsk.comp_q,
        xsk.tx_frames,
        FRAME_SIZE,
        batch_size,
        target_pps,
        5000,
        1,
    )
}

/// The simulated kernel: drain the transmit ring and hand every frame back
/// through the completion ring.
fn kernel_complete_all(tx: &mut XskTx) {
    let taken = tx.tx_q.consume(u64::MAX);
    let n = tx.comp_q.produce(&taken);
    assert_eq!(n, taken.len());
}

fn census(tx: &XskTx) -> (usize, usize) {
    let free = tx
        .tx_frames
        .iter()
        .filter(|f| matches!(f.status, FrameStatus::Free))
        .count();
    let on_tx = tx
        .tx_frames
        .iter()
        .filter(|f| matches!(f.status, FrameStatus::OnTxQueue))
        .count();
    (free, on_tx)
}

#[test]
fn send_writes_payload_and_marks_frame() {
    let mut tx = make_tx(8, 8, 1, 0);
    let payload = vec![1u8, 2, 3, 4];
    assert!(tx.send(&payload).is_ok());
    assert_eq!(tx.tx_frames[0].data, payload);
    assert!(matches!(tx.tx_frames[0].status, FrameStatus::OnTxQueue));
    assert_eq!(tx.tx_cursor, 1);
    assert_eq!(tx.outstanding_tx_frames, 1);
    // Batch size one: the frame went straight onto the transmit ring.
    assert_eq!(tx.tx_q.len(), 1);
}

#[test]
fn batch_flush_submits_whole_batches() {
    // With batch size 4, three prepared frames stay local; the fourth send
    // flushes exactly one batch of exactly four frames.
    let mut tx = make_tx(8, 8, 4, 0);
    for i in 0..3u8 {
        assert!(tx.send(&vec![i; 10]).is_ok());
        assert_eq!(tx.tx_q.len(), 0);
    }
    assert!(tx.send(&vec![3; 10]).is_ok());
    assert_eq!(tx.tx_q.len(), 4);
    // A second run of four: exactly one more flush of exactly four.
    for i in 4..7u8 {
        assert!(tx.send(&vec![i; 10]).is_ok());
        assert_eq!(tx.tx_q.len(), 4);
    }
    assert!(tx.send(&vec![7; 10]).is_ok());
    assert_eq!(tx.tx_q.len(), 8);
    let offsets = tx.tx_q.consume(u64::MAX);
    let expected: Vec<u64> = (0..8).map(|i| i * FRAME_SIZE as u64).collect();
    assert_eq!(offsets, expected);
}

#[test]
fn send_fails_when_no_frame_is_free() {
    let mut tx = make_tx(2, 2, 1, 0);
    assert!(tx.send(&vec![0xAA; 8]).is_ok());
    assert!(tx.send(&vec![0xBB; 8]).is_ok());
    // No completion has come back: the cursor frame is still out.
    let err = tx.send(&vec![0xCC; 8]);
    assert!(matches!(err, Err(XskSendError::NoFreeTxFrames)));
    // The failed attempt wrote nothing anywhere.
    assert_eq!(tx.tx_frames[0].data, vec![0xAA; 8]);
    assert_eq!(tx.tx_frames[1].data, vec![0xBB; 8]);
}

#[test]
fn no_double_send_until_completion() {
    let mut tx = make_tx(2, 2, 1, 0);
    assert!(tx.send(&vec![0xAA; 8]).is_ok());
    assert!(tx.send(&vec![0xBB; 8]).is_ok());
    // The kernel finishes only the first frame.
    let taken = tx.tx_q.consume(1);
    assert_eq!(taken, vec![0]);
    assert_eq!(tx.comp_q.produce(&taken), 1);
    // The retry lands in the reclaimed frame; the frame still out keeps
    // its bytes untouched.
    assert!(tx.send(&vec![0xCC; 8]).is_ok());
    assert_eq!(tx.tx_frames[0].data, vec![0xCC; 8]);
    assert_eq!(tx.tx_frames[1].data, vec![0xBB; 8]);
    assert!(matches!(tx.tx_frames[1].status, FrameStatus::OnTxQueue));
}

#[test]
fn frame_census_is_conserved() {
    let mut tx = make_tx(4, 4, 1, 0);
    let total = tx.tx_frames.len();
    for round in 0..25u8 {
        let _ = tx.send(&vec![round; 16]);
        let (free, on_tx) = census(&tx);
        assert_eq!(free + on_tx, total);
        assert_eq!(tx.outstanding_tx_frames as usize, on_tx);
        if round % 3 == 2 {
            kernel_complete_all(&mut tx);
        }
    }
}

#[test]
fn wakeup_issued_when_nothing_reclaimed() {
    let mut tx = make_tx(2, 2, 1, 0);
    tx.tx_q.set_needs_wakeup(true);
    // Nothing is outstanding, so nothing is reclaimed: the worker must
    // notify the parked kernel.
    assert!(tx.send(&vec![1; 4]).is_ok());
    assert!(!tx.tx_q.needs_wakeup());
}

#[test]
fn rate_limiter_decision_count() {
    // Target 100 pps: a pause is due once per ten packets; over 1000
    // packets that is exactly 100 pauses of 10 ms, at least one second.
    let mut tx = make_tx(8, 8, 1, 100);
    let mut pauses: u64 = 0;
    for i in 0..1000u64 {
        if tx.rate_limit_due() {
            pauses += 1;
        }
        assert!(tx.send(&vec![(i % 251) as u8; 32]).is_ok());
        tx.record_success();
        kernel_complete_all(&mut tx);
    }
    assert_eq!(pauses, 100);
    assert!(pauses * 10 >= 1000);
}

#[test]
fn stats_duration_arithmetic() {
    let s = TxStats { pkts_tx: 7, start_time_ns: 100, end_time_ns: 350 };
    assert_eq!(s.duration(), 250);
    let backwards = TxStats { pkts_tx: 7, start_time_ns: 400, end_time_ns: 350 };
    assert_eq!(backwards.duration(), 0);
    let fresh = TxStats::new();
    assert_eq!(fresh.pkts_tx, 0);
    assert_eq!(fresh.duration(), 0);
}
