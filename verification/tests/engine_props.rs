use xtrace::engine::{entry_matches, process_buffer, select_records};
use xtrace::entry::UtmpEntry;
use xtrace::utmp::Utmp;

fn pad(bytes: &[u8], width: usize) -> Vec<u8> {
    let mut v = bytes.to_vec();
    v.resize(width, 0);
    v
}

fn record(pid: i32, host: &str, sec: u32) -> Utmp {
    Utmp {
        ut_type: 7,
        ut_pid: pid,
        ut_line: pad(b"pts/1", 32),
        ut_id: pad(b"ts/1", 4),
        ut_user: pad(b"opc", 32),
        ut_host: pad(host.as_bytes(), 256),
        ut_termination: 0,
        ut_exit: 0,
        ut_session: 1,
        ut_time_sec: sec,
        ut_time_usec: 0,
        ut_addr_v6: [0, 0, 0, 0],
        __unused: vec![0u8; 20],
    }
}

fn entry(pid: i32, host: &str, sec: u32) -> UtmpEntry {
    UtmpEntry::try_from(record(pid, host, sec)).unwrap()
}

#[test]
fn window_bound_keeps_only_newest_three() {
    // Ten matching entries with max_count = 3: exactly three reported,
    // newest first; the seven older positions are retained.
    let entries: Vec<UtmpEntry> = (0..10).map(|i| entry(100 + i, "h", 1000 + i as u32)).collect();
    let (report, retain) = select_records(entries, &None, 3);
    assert_eq!(report.len(), 3);
    let positions: Vec<usize> = report.iter().map(|p| p.0).collect();
    assert_eq!(positions, vec![9, 8, 7]);
    assert_eq!(retain.len(), 10);
    assert_eq!(retain.iter().filter(|r| **r).count(), 7);
    for p in 0..7 {
        assert!(retain[p]);
    }
    for p in 7..10 {
        assert!(!retain[p]);
    }
}

#[test]
fn unmatched_records_are_never_deleted() {
    let entries: Vec<UtmpEntry> = (0..5).map(|i| entry(100 + i, "h", 1000 + i as u32)).collect();
    let conds = Some(vec!["no-such-thing".to_string()]);
    let (report, retain) = select_records(entries, &conds, 2);
    assert!(report.is_empty());
    assert_eq!(retain, vec![true; 5]);
}

#[test]
fn unbounded_when_count_is_zero() {
    let entries: Vec<UtmpEntry> = (0..6).map(|i| entry(100 + i, "h", 1000 + i as u32)).collect();
    let (report, retain) = select_records(entries, &None, 0);
    assert_eq!(report.len(), 6);
    let positions: Vec<usize> = report.iter().map(|p| p.0).collect();
    assert_eq!(positions, vec![5, 4, 3, 2, 1, 0]);
    assert_eq!(retain, vec![false; 6]);
}

#[test]
fn matching_by_pid_hostname_and_unioncode() {
    let e = entry(9527, "box.example", 0);
    assert!(entry_matches(&e, &vec!["9527".to_string()]));
    assert!(entry_matches(&e, &vec!["box.example".to_string()]));
    assert!(entry_matches(&e, &vec![e.unioncode.clone()]));
    assert!(!entry_matches(&e, &vec!["9528".to_string(), "other.example".to_string()]));
    assert!(entry_matches(&e, &vec!["x".to_string(), "9527".to_string()]));

    let neg = entry(-42, "h", 0);
    assert!(entry_matches(&neg, &vec!["-42".to_string()]));
    assert!(!entry_matches(&neg, &vec!["42".to_string()]));
}

#[test]
fn end_to_end_delete_scenario() {
    // Six blocks; positions 1, 3, 5 match the predicate; max_count = 2,
    // deletion requested.  Reported: positions 5 and 3, newest first.
    // Position 1 aged out of the window and is restored, so the
    // rewritten file holds blocks 0, 1, 2, 4 in their original order.
    let mut blocks: Vec<Vec<u8>> = Vec::new();
    for i in 0..6 {
        let pid = if i % 2 == 1 { 9527 } else { 7 };
        blocks.push(record(pid, "h", 2000 + i as u32).as_bytes_vec());
    }
    let data: Vec<u8> = blocks.iter().flatten().copied().collect();
    assert_eq!(data.len(), 6 * 384);

    let conds = Some(vec!["9527".to_string()]);
    let outcome = process_buffer(&data, &conds, 2, true);

    assert_eq!(outcome.decoded_count, 6);
    assert!(outcome.well_formed);
    let positions: Vec<usize> = outcome.entries.iter().map(|p| p.0).collect();
    assert_eq!(positions, vec![5, 3]);
    assert_eq!(outcome.retain, vec![true, true, true, false, true, false]);

    let expected: Vec<u8> = [0usize, 1, 2, 4].iter().flat_map(|i| blocks[*i].clone()).collect();
    assert_eq!(outcome.retained_bytes.unwrap(), expected);
}

#[test]
fn no_delete_produces_no_bytes() {
    let data = record(7, "h", 1).as_bytes_vec();
    let outcome = process_buffer(&data, &None, 5, false);
    assert!(outcome.retained_bytes.is_none());
    assert_eq!(outcome.entries.len(), 1);
    assert_eq!(outcome.entries[0].0, 0);
    assert_eq!(outcome.entries[0].1.pid, Some(7));
}

#[test]
fn invalid_record_stops_decoding_and_preserves_tail() {
    let good = record(7, "h", 1).as_bytes_vec();
    let mut bad_rec = record(7, "h", 2);
    bad_rec.ut_type = 12;
    let bad = bad_rec.as_bytes_vec();
    let good2 = record(8, "h", 3).as_bytes_vec();
    let data: Vec<u8> = [good.clone(), bad.clone(), good2.clone()].concat();

    let outcome = process_buffer(&data, &None, 0, true);
    assert_eq!(outcome.decoded_count, 1);
    assert!(!outcome.well_formed);
    assert_eq!(outcome.retain.len(), 1);
    // The one decoded record matched (no conditions) and sits in the
    // window, so its block is excised; everything after the failure
    // point is preserved verbatim.
    let expected: Vec<u8> = [bad, good2].concat();
    assert_eq!(outcome.retained_bytes.unwrap(), expected);
}

#[test]
fn partial_trailing_block_is_preserved() {
    let good = record(7, "h", 1).as_bytes_vec();
    let mut data = good.clone();
    data.extend_from_slice(&[0xAB; 100]);

    let conds = Some(vec!["nobody".to_string()]);
    let outcome = process_buffer(&data, &conds, 5, true);
    assert_eq!(outcome.decoded_count, 1);
    assert!(outcome.well_formed);
    assert_eq!(outcome.retain, vec![true]);
    // Nothing matched, so the rewritten bytes equal the input, the
    // trailing partial block included.
    assert_eq!(outcome.retained_bytes.unwrap(), data);
}

#[test]
fn window_restores_aged_out_matches_incrementally() {
    // With max_count = 1 every new match evicts the previous one, which
    // must be retained again.
    let entries: Vec<UtmpEntry> = (0..4).map(|i| entry(500 + i, "h", 3000 + i as u32)).collect();
    let (report, retain) = select_records(entries, &None, 1);
    assert_eq!(report.len(), 1);
    assert_eq!(report[0].0, 3);
    assert_eq!(retain, vec![true, true, true, false]);
}
