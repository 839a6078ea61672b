use pcap_analyzer::defrag::{DefragEngine, Fragment, IP4DefragEngine};

#[test]
fn unfragmented_passthrough() {
    let mut engine = IP4DefragEngine::new();
    let data = [1u8, 2, 3, 4];
    match engine.update(42, 0, false, &data) {
        Fragment::NoFrag(bytes) => assert_eq!(bytes, &data[..]),
        _ => panic!("expected NoFrag"),
    }
    // no entry was created: a terminal fragment for the same id is an orphan
    assert!(matches!(engine.update(42, 4, false, &data), Fragment::Error));
}

#[test]
fn three_fragments_in_order() {
    let mut engine = IP4DefragEngine::new();
    let a = [1u8, 2, 3, 4];
    let b = [5u8, 6, 7, 8];
    let c = [9u8, 10];
    assert!(matches!(engine.update(7, 0, true, &a), Fragment::Incomplete));
    assert!(matches!(engine.update(7, 4, true, &b), Fragment::Incomplete));
    match engine.update(7, 8, false, &c) {
        Fragment::Complete(buf) => assert_eq!(buf, vec![1, 2, 3, 4, 5, 6, 7, 8, 9, 10]),
        _ => panic!("expected Complete"),
    }
    // the identifier is gone: replaying the terminal fragment is an orphan
    assert!(matches!(engine.update(7, 8, false, &c), Fragment::Error));
}

#[test]
fn overlapping_fragment_last_wins() {
    let mut engine = IP4DefragEngine::new();
    let a = [1u8, 2, 3, 4, 5, 6];
    let b = [7u8, 8];
    assert!(matches!(engine.update(9, 0, true, &a), Fragment::Incomplete));
    // lands at offset 2, inside the six bytes gathered: the tail is discarded
    match engine.update(9, 2, false, &b) {
        Fragment::Complete(buf) => assert_eq!(buf, vec![1, 2, 7, 8]),
        _ => panic!("expected Complete"),
    }
}

#[test]
fn gap_padded_with_sentinel() {
    let mut engine = IP4DefragEngine::new();
    let a = [1u8, 2];
    let c = [3u8, 4];
    assert!(matches!(engine.update(5, 0, true, &a), Fragment::Incomplete));
    // lands at offset 5, three bytes past the end: the gap is filled
    match engine.update(5, 5, false, &c) {
        Fragment::Complete(buf) => assert_eq!(buf, vec![1, 2, 0xFF, 0xFF, 0xFF, 3, 4]),
        _ => panic!("expected Complete"),
    }
}

#[test]
fn orphan_terminal_fragment_is_error() {
    let mut engine = IP4DefragEngine::new();
    let c = [1u8, 2];
    assert!(matches!(engine.update(3, 8, false, &c), Fragment::Error));
    // the table is unchanged: the same datagram can still be reassembled
    assert!(matches!(engine.update(3, 0, true, &c), Fragment::Incomplete));
    match engine.update(3, 2, false, &c) {
        Fragment::Complete(buf) => assert_eq!(buf, vec![1, 2, 1, 2]),
        _ => panic!("expected Complete"),
    }
}

#[test]
fn collision_discards_old_buffer() {
    let mut engine = IP4DefragEngine::new();
    let old_first = [1u8, 2, 3, 4];
    let new_first = [9u8, 8];
    let last = [7u8];
    assert!(matches!(engine.update(11, 0, true, &old_first), Fragment::Incomplete));
    // identifier reused before the datagram finished: the old buffer is dropped
    assert!(matches!(engine.update(11, 0, true, &new_first), Fragment::Incomplete));
    match engine.update(11, 2, false, &last) {
        Fragment::Complete(buf) => assert_eq!(buf, vec![9, 8, 7]),
        _ => panic!("expected Complete"),
    }
}

#[test]
fn replay_of_terminal_fragment_changes_result() {
    let mut engine = IP4DefragEngine::new();
    let a = [1u8, 2];
    let c = [3u8];
    assert!(matches!(engine.update(1, 0, true, &a), Fragment::Incomplete));
    assert!(matches!(engine.update(1, 2, false, &c), Fragment::Complete(_)));
    // replay: the entry is gone, so the same call now reports an error
    assert!(matches!(engine.update(1, 2, false, &c), Fragment::Error));
}

#[test]
fn middle_orphan_fragment_silently_dropped() {
    let mut engine = IP4DefragEngine::new();
    let b = [5u8, 6];
    // a non-terminal fragment with no first fragment: no error is surfaced
    assert!(matches!(engine.update(2, 4, true, &b), Fragment::Incomplete));
    // and it left no state behind: a terminal fragment is still an orphan
    assert!(matches!(engine.update(2, 4, false, &b), Fragment::Error));
}

#[test]
fn middle_fragment_overlap_truncates_in_progress_buffer() {
    let mut engine = IP4DefragEngine::new();
    assert!(matches!(engine.update(4, 0, true, &[1u8, 2, 3, 4]), Fragment::Incomplete));
    // a non-terminal overlap: bytes 2 and 3 are replaced, byte 3's old value lost
    assert!(matches!(engine.update(4, 2, true, &[9u8]), Fragment::Incomplete));
    match engine.update(4, 3, false, &[6u8]) {
        Fragment::Complete(buf) => assert_eq!(buf, vec![1, 2, 9, 6]),
        _ => panic!("expected Complete"),
    }
}
