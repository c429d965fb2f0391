use xsk_engine::{
    BoundedQueue, FrameStatus, SocketConfig, UmemConfig, Xsk, Xsk2, XskRx, HEADER_ONLY_LEN,
    MAX_PACKET_SIZE,
};

const FRAME_SIZE: u32 = 4096;

fn ucfg(frame_count: u32) -> UmemConfig {
    UmemConfig {
        frame_count,
        frame_size: FRAME_SIZE,
        fill_queue_size: 16,
        comp_queue_size: 16,
    }
}

fn scfg() -> SocketConfig {
    SocketConfig { tx_queue_size: 32, rx_queue_size: 16 }
}

/// The simulated kernel, receive side: take queued frames off the fill
/// ring, deposit `packet_len` bytes in each, and publish them on the
/// receive ring.
fn kernel_deposit(rx: &mut XskRx, count: u64, packet_len: usize, fill_byte: u8) -> usize {
    let taken = rx.fill_q.consume(count);
    for off in &taken {
        let idx = ((off - rx.base_offset) / rx.frame_size as u64) as usize;
        rx.rx_frames[idx].data = vec![fill_byte; packet_len];
        rx.rx_frames[idx].status = FrameStatus::Filled;
    }
    rx.rx_q.produce(&taken)
}

#[test]
fn partition_splits_frames() {
    let xsk = Xsk::new("veth0", 0, ucfg(8), scfg(), 5);
    assert_eq!(xsk.tx_frames.len(), 5);
    assert_eq!(xsk.rx_frames.len(), 3);
    for (i, f) in xsk.tx_frames.iter().enumerate() {
        assert_eq!(f.offset, i as u64 * FRAME_SIZE as u64);
        assert!(matches!(f.status, FrameStatus::Free));
    }
    for (i, f) in xsk.rx_frames.iter().enumerate() {
        assert_eq!(f.offset, (5 + i) as u64 * FRAME_SIZE as u64);
        assert!(matches!(f.status, FrameStatus::Free));
    }
    assert_eq!(xsk.umem.frame_count, 8);
    assert_eq!(xsk.umem_config.frame_size(), FRAME_SIZE);
}

#[test]
fn receive_truncates_to_header_when_payload_unwanted() {
    let xsk = Xsk::new("veth0", 0, ucfg(8), scfg(), 4);
    let base = 4 * FRAME_SIZE as u64;
    let mut rx = XskRx::new(xsk.rx_q, xsk.fill_q, xsk.rx_frames, base, FRAME_SIZE, false, 1);
    rx.fill_frames();
    assert_eq!(kernel_deposit(&mut rx, 1, 1500, 0xEE), 1);
    let payloads = rx.recv_step(10);
    assert_eq!(payloads.len(), 1);
    // A 1500-byte frame comes out cut to the fixed header length.
    assert_eq!(payloads[0].len(), HEADER_ONLY_LEN);
    assert_eq!(payloads[0], vec![0xEE; HEADER_ONLY_LEN]);
    assert_eq!(rx.stats.pkts_rx, 1);
}

#[test]
fn receive_forwards_whole_payload_when_wanted() {
    let xsk = Xsk::new("veth0", 0, ucfg(8), scfg(), 4);
    let base = 4 * FRAME_SIZE as u64;
    let mut rx = XskRx::new(xsk.rx_q, xsk.fill_q, xsk.rx_frames, base, FRAME_SIZE, true, 1);
    rx.fill_frames();
    assert_eq!(kernel_deposit(&mut rx, 2, 1500, 0x5A), 2);
    let payloads = rx.recv_step(10);
    assert_eq!(payloads.len(), 2);
    assert_eq!(payloads[0].len(), 1500);
    assert_eq!(payloads[1].len(), 1500);
    // Drained frames return to the free pool.
    let free = rx
        .rx_frames
        .iter()
        .filter(|f| matches!(f.status, FrameStatus::Free))
        .count();
    assert_eq!(free + rx.outstanding_rx_frames as usize, rx.rx_frames.len());
}

#[test]
fn fill_ring_capacity_bounds_replenishment() {
    let mut cfg = ucfg(8);
    cfg.fill_queue_size = 2;
    let xsk = Xsk::new("veth0", 0, cfg, scfg(), 4);
    let base = 4 * FRAME_SIZE as u64;
    let mut rx = XskRx::new(xsk.rx_q, xsk.fill_q, xsk.rx_frames, base, FRAME_SIZE, true, 1);
    rx.fill_frames();
    // Four frames are free but the fill ring holds only two.
    assert_eq!(rx.fill_q.len(), 2);
    assert!(matches!(rx.rx_frames[0].status, FrameStatus::InFillQueue));
    assert!(matches!(rx.rx_frames[1].status, FrameStatus::InFillQueue));
    assert!(matches!(rx.rx_frames[2].status, FrameStatus::Free));
    assert_eq!(rx.outstanding_rx_frames, 2);
}

#[test]
fn bounded_queue_never_drops() {
    let mut q: BoundedQueue<u32> = BoundedQueue::new(2);
    assert!(q.try_push(1).is_none());
    assert!(q.try_push(2).is_none());
    // A full queue hands the value back untouched instead of dropping it.
    assert_eq!(q.try_push(3), Some(3));
    assert_eq!(q.len(), 2);
    assert_eq!(q.pop_front(), Some(1));
    assert!(q.try_push(3).is_none());
    assert_eq!(q.pop_front(), Some(2));
    assert_eq!(q.pop_front(), Some(3));
    assert_eq!(q.pop_front(), None);
}

#[test]
fn send_encodes_into_wire_buffer() {
    let mut xsk2 = Xsk2::new("veth0", 0, ucfg(8), scfg(), 4);
    assert!(xsk2.send(&vec![9u8; 60]));
    assert!(xsk2.pump_tx());
    assert_eq!(xsk2.tx.stats.pkts_tx, 1);
    // The frame carries exactly the payload bytes, not the padding.
    assert_eq!(xsk2.tx.tx_frames[0].data, vec![9u8; 60]);
}

#[test]
fn send_refused_after_shutdown() {
    let mut xsk2 = Xsk2::new("veth0", 0, ucfg(8), scfg(), 4);
    assert!(xsk2.shutdown_tx().is_some());
    assert!(!xsk2.send(&vec![1u8; 8]));
    // The receive side is still open but empty.
    assert!(xsk2.recv().is_none());
}

#[test]
fn shutdown_returns_stats_exactly_once() {
    let mut xsk2 = Xsk2::new("veth0", 0, ucfg(8), scfg(), 4);
    let first = xsk2.shutdown_tx();
    assert!(first.is_some());
    let second = xsk2.shutdown_tx();
    assert!(second.is_none());
    let third = xsk2.shutdown_tx();
    assert!(third.is_none());
    let first_rx = xsk2.shutdown_rx();
    assert!(first_rx.is_some());
    assert!(xsk2.shutdown);
    let second_rx = xsk2.shutdown_rx();
    assert!(second_rx.is_none());
}

#[test]
fn throughput_accounting_over_thousand_sends() {
    // No throttling, batch size one, 1000 unique payloads.
    let mut xsk2 = Xsk2::new("veth0", 0, ucfg(16), scfg(), 8);
    assert_eq!(xsk2.tx.target_pps, 0);
    assert_eq!(xsk2.tx.batch_size, 1);
    for i in 0..1000u64 {
        let payload = i.to_be_bytes().to_vec();
        assert!(xsk2.send(&payload));
    }
    let mut sent: u64 = 0;
    while sent < 1000 {
        if xsk2.pump_tx() {
            sent += 1;
        } else {
            // No free frame: the kernel finishes what is on the ring.
            let taken = xsk2.tx.tx_q.consume(u64::MAX);
            assert!(!taken.is_empty());
            assert_eq!(xsk2.tx.comp_q.produce(&taken), taken.len());
        }
    }
    let stats = xsk2.shutdown_tx().expect("first shutdown yields statistics");
    assert_eq!(stats.pkts_tx, 1000);
    assert!(stats.duration() > 0);
    let secs = stats.duration() as f64 / 1e9;
    let pps = stats.pkts_tx as f64 / secs;
    assert!((pps - 1000.0 / secs).abs() < 1e-6);
    assert!(pps > 0.0);
}

#[test]
fn receive_path_end_to_end() {
    let mut xsk2 = Xsk2::new("veth0", 0, ucfg(16), scfg(), 8);
    assert!(xsk2.recv().is_none());
    // Prime the fill ring, let the kernel deposit three packets, then pump.
    xsk2.rx.fill_frames();
    assert_eq!(kernel_deposit(&mut xsk2.rx, 3, 200, 0x42), 3);
    let n = xsk2.pump_rx(10);
    assert_eq!(n, 3);
    assert_eq!(xsk2.rx.stats.pkts_rx, 3);
    for _ in 0..3 {
        let payload = xsk2.recv().expect("a forwarded payload");
        assert_eq!(payload, vec![0x42; 200]);
    }
    assert!(xsk2.recv().is_none());
    let stats = xsk2.shutdown_rx().expect("first shutdown yields statistics");
    assert_eq!(stats.pkts_rx, 3);
}

#[test]
fn payload_cap_is_fixed() {
    assert_eq!(MAX_PACKET_SIZE, 4096);
    let mut xsk2 = Xsk2::new("veth0", 0, ucfg(8), scfg(), 4);
    // The largest representable packet is accepted whole.
    assert!(xsk2.send(&vec![7u8; MAX_PACKET_SIZE]));
    assert!(xsk2.pump_tx());
    assert_eq!(xsk2.tx.tx_frames[0].data.len(), MAX_PACKET_SIZE);
}
