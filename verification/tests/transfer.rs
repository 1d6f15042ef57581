use fileport::transfer::next_read_len;
use fileport::transfers::{discard_partial, done_event, progress_due, ProgressGate};
use fileport::{CopyProgress, Direction, FpError, TransferResult, Transfers};

fn copy_in_blocks(data: &[u8], block: usize) -> TransferResult {
    let mut p = CopyProgress::new();
    let mut last = 0;
    for chunk in data.chunks(block) {
        p.check_cancel(false).unwrap();
        let done = p.absorb(chunk);
        assert!(done > last);
        last = done;
    }
    assert_eq!(p.done(), data.len() as u64);
    p.finish()
}

#[test]
fn copy_counts_bytes_and_hashes_them() {
    let data: Vec<u8> = (0..200_000u32).map(|i| (i % 251) as u8).collect();
    let down = copy_in_blocks(&data, 64 * 1024);
    assert_eq!(down.bytes, 200_000);
    assert_eq!(down.blake3, blake3::hash(&data).to_hex().to_string());
    let up = copy_in_blocks(&data, 128 * 1024);
    assert_eq!(up.blake3, down.blake3);
    assert_eq!(up.bytes, down.bytes);
}

#[test]
fn empty_copy_has_the_empty_hash() {
    let r = CopyProgress::new().finish();
    assert_eq!(r.bytes, 0);
    assert_eq!(r.blake3, "af1349b9f5f9a1a6a0404dea36dcc9499bcb25c9adc112b7cc9a93cae41f3262");
}

#[test]
fn cancelled_copy_stops() {
    let p = CopyProgress::new();
    assert!(matches!(p.check_cancel(true), Err(FpError::Cancelled)));
    assert!(p.check_cancel(false).is_ok());
}

#[test]
fn ranged_reads_stop_at_the_end() {
    assert_eq!(next_read_len(0, 300_000, 262_144), 262_144);
    assert_eq!(next_read_len(262_144, 300_000, 262_144), 37_856);
    assert_eq!(next_read_len(299_999, 300_000, 262_144), 1);
}

#[test]
fn transfer_ids_are_fresh_and_finish_removes() {
    let mut t: Transfers<&str> = Transfers::new();
    assert_eq!(t.last_id(), 0);
    let a = t.start("a");
    let b = t.start("b");
    assert_eq!(a, 1);
    assert_eq!(b, 2);
    assert_eq!(t.get(a), Some(&"a"));
    t.finish(a);
    assert_eq!(t.get(a), None);
    assert_eq!(t.get(b), Some(&"b"));
    assert_eq!(t.start("c"), 3);
    assert_eq!(t.last_id(), 3);
}

#[test]
fn progress_reports_are_throttled() {
    assert!(!progress_due(10, Some(100), 5));
    assert!(progress_due(10, Some(100), 80));
    assert!(progress_due(100, Some(100), 0));
    assert!(!progress_due(100, None, 79));
}

#[test]
fn done_events_describe_the_outcome() {
    let ok = done_event(7, Ok(TransferResult { bytes: 3, blake3: "abc".to_string() }));
    assert!(ok.ok && ok.id == 7 && ok.bytes == 3 && ok.blake3.as_deref() == Some("abc") && ok.error.is_none());
    let c = done_event(8, Err(FpError::Cancelled));
    assert!(!c.ok && c.cancelled && c.error.as_deref() == Some("Übertragung abgebrochen") && c.blake3.is_none());
    let nf = done_event(9, Err(FpError::NotFound("/x".to_string())));
    assert!(!nf.cancelled && nf.error.as_deref() == Some("Nicht gefunden: /x"));
    assert!(discard_partial(Direction::Download, false));
    assert!(!discard_partial(Direction::Upload, false));
    assert!(!discard_partial(Direction::Download, true));
}

#[test]
fn progress_gate_throttles_a_transfer() {
    let mut g = ProgressGate::new();
    assert!(g.report(1, Some(10), 0));
    assert!(!g.report(2, Some(10), 50));
    assert!(g.report(3, Some(10), 80));
    assert!(!g.report(4, Some(10), 159));
    assert!(g.report(10, Some(10), 160));
    assert!(g.report(10, Some(10), 161));
    assert!(!g.report(5, None, 200));
    assert!(g.report(6, None, 241));
}

#[test]
fn io_failures_are_reported_with_their_prefix() {
    let e = done_event(4, Err(FpError::Io(std::io::Error::new(std::io::ErrorKind::Other, "Platte voll"))));
    assert_eq!(e.error.as_deref(), Some("E/A-Fehler: Platte voll"));
    assert!(!e.cancelled && !e.ok);
}
