use wan_party_bot::memory::{backfill_chunks, prepare_digest, quote_author_name, transcript, MemoryState};

#[test]
fn blank_messages_are_not_recorded() {
    let mut m = MemoryState::new("");
    assert!(!m.record("ann", "   \n"));
    assert!(m.pending().is_empty());
}

#[test]
fn what_is_recorded_is_taken_back_in_order() {
    let mut m = MemoryState::new("old digest");
    m.record("ann", "hi");
    m.record("bob", "yo");
    let batch = m.take_batch().unwrap();
    assert_eq!(batch, vec![("ann".to_string(), "hi".to_string()), ("bob".to_string(), "yo".to_string())]);
    assert!(m.take_batch().is_none());
    assert_eq!(m.current(), "old digest");
}

#[test]
fn a_burst_asks_for_a_flush_and_the_queue_stays_bounded() {
    let mut m = MemoryState::new("");
    let mut flushes = 0;
    for i in 0..250 {
        if m.record("u", &format!("message {i}")) {
            flushes += 1;
        }
    }
    assert_eq!(flushes, 250 - 39);
    let p = m.pending();
    assert_eq!(p.len(), 200);
    assert_eq!(p[0].1, "message 50");
}

#[test]
fn a_failed_batch_goes_back_in_front() {
    let mut m = MemoryState::new("");
    m.record("a", "1");
    let batch = m.take_batch().unwrap();
    m.record("b", "2");
    m.requeue(batch);
    let p = m.pending();
    assert_eq!(p, vec![("a".to_string(), "1".to_string()), ("b".to_string(), "2".to_string())]);
    m.set_digest("new");
    assert_eq!(m.current(), "new");
}

#[test]
fn transcripts_put_each_message_on_one_line() {
    let t = transcript(&vec![("ann".to_string(), "a\nb".to_string()), ("bob".to_string(), "c".to_string())]);
    assert_eq!(t, "ann: a b\nbob: c");
}

#[test]
fn digests_are_trimmed_and_capped() {
    assert_eq!(prepare_digest("  notes \n"), "notes");
    assert_eq!(prepare_digest(&"z".repeat(9000)).chars().count(), 8000);
}

#[test]
fn quotes_are_filed_by_name_in_chunks() {
    let names = vec![(1, "Ann".to_string())];
    assert_eq!(quote_author_name(&names, 1), "Ann");
    assert_eq!(quote_author_name(&names, -5), "user -5");
    let rows: Vec<(i64, String)> = (0..65).map(|i| (i % 2, format!("q{i}"))).collect();
    let chunks = backfill_chunks(&rows, &names);
    assert_eq!(chunks.len(), 3);
    assert_eq!(chunks[0].len(), 30);
    assert_eq!(chunks[2].len(), 5);
    assert_eq!(chunks[2][4], (0, "user 0".to_string(), "q64".to_string()));
    assert_eq!(chunks[0][1], (1, "Ann".to_string(), "q1".to_string()));
}
