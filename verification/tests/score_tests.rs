use efficiency_benchmark::decimal::{render_score, parse_score};
use efficiency_benchmark::score::ScoreLedger;

#[test]
fn zero_renders_as_one_digit() {
    assert_eq!(render_score(0), b"0".to_vec());
}

#[test]
fn small_scores_render_exactly() {
    assert_eq!(render_score(3), b"3".to_vec());
    assert_eq!(render_score(10), b"10".to_vec());
    assert_eq!(render_score(1234567), b"1234567".to_vec());
}

#[test]
fn largest_score_renders_exactly() {
    assert_eq!(render_score(u32::MAX), b"4294967295".to_vec());
}

#[test]
fn parse_reads_decimal_text() {
    assert_eq!(parse_score(b"0"), Some(0));
    assert_eq!(parse_score(b"42"), Some(42));
    assert_eq!(parse_score(b"007"), Some(7));
    assert_eq!(parse_score(b"4294967295"), Some(u32::MAX));
}

#[test]
fn parse_rejects_empty_text() {
    assert_eq!(parse_score(b""), None);
}

#[test]
fn parse_rejects_non_digits() {
    assert_eq!(parse_score(b"4a"), None);
    assert_eq!(parse_score(b"-1"), None);
    assert_eq!(parse_score(b"12 "), None);
}

#[test]
fn parse_rejects_too_large_numbers() {
    assert_eq!(parse_score(b"4294967296"), None);
    assert_eq!(parse_score(b"99999999999999999999"), None);
}

#[test]
fn render_then_parse_round_trips() {
    for n in [0u32, 1, 9, 10, 99, 100, 65535, u32::MAX - 1, u32::MAX] {
        assert_eq!(parse_score(&render_score(n)), Some(n));
    }
}

#[test]
fn increment_counts_up_from_fresh_record() {
    let mut ledger = ScoreLedger::new();
    let id = b"benchmark-01-01-2024_10:00.log".to_vec();
    assert_eq!(ledger.increment(&id), 1);
    assert_eq!(ledger.increment(&id), 2);
    assert_eq!(ledger.increment(&id), 3);
    // the record file would hold exactly the ASCII text of the counter
    assert_eq!(render_score(3), b"3".to_vec());
}

#[test]
fn increment_touches_only_its_own_record() {
    let mut ledger = ScoreLedger::new();
    let a = b"benchmark-01-01-2024_10:00.log".to_vec();
    let b = b"benchmark-02-01-2024_09:00.log".to_vec();
    assert_eq!(ledger.increment(&a), 1);
    assert_eq!(ledger.increment(&b), 1);
    assert_eq!(ledger.increment(&a), 2);
    assert_eq!(ledger.increment(&b), 2);
}

#[test]
fn remove_record_resets_a_run() {
    let mut ledger = ScoreLedger::new();
    let id = b"benchmark-01-01-2024_10:00.log".to_vec();
    assert_eq!(ledger.increment(&id), 1);
    assert_eq!(ledger.increment(&id), 2);
    ledger.remove_record(&id);
    assert_eq!(ledger.increment(&id), 1);
}

#[test]
fn highest_score_over_empty_ledger_is_zero() {
    let ledger = ScoreLedger::new();
    assert_eq!(ledger.get_highest_score(), 0);
}

#[test]
fn highest_score_is_the_maximum() {
    let mut ledger = ScoreLedger::new();
    ledger.add_record(b"benchmark-01-01-2024_10:00.log".to_vec(), 3);
    ledger.add_record(b"benchmark-02-01-2024_09:00.log".to_vec(), 5);
    ledger.add_record(b"benchmark-03-01-2024_09:00.log".to_vec(), 2);
    assert_eq!(ledger.get_highest_score(), 5);
}

#[test]
fn highest_score_counts_every_record() {
    let mut ledger = ScoreLedger::new();
    ledger.add_record(b"stray-file".to_vec(), 9);
    ledger.add_record(b"benchmark-01-01-2024_10:00.log".to_vec(), 3);
    assert_eq!(ledger.get_highest_score(), 9);
}

#[test]
fn latest_run_prefers_later_date_over_time() {
    let mut ledger = ScoreLedger::new();
    ledger.add_record(b"benchmark-01-01-2024_10:00.log".to_vec(), 3);
    ledger.add_record(b"benchmark-02-01-2024_09:00.log".to_vec(), 5);
    assert_eq!(ledger.get_latest_score(), 5);
}

#[test]
fn latest_run_breaks_date_ties_by_time() {
    let mut ledger = ScoreLedger::new();
    ledger.add_record(b"benchmark-01-01-2024_09:00.log".to_vec(), 2);
    ledger.add_record(b"benchmark-01-01-2024_10:00.log".to_vec(), 7);
    assert_eq!(ledger.get_latest_score(), 7);
}

#[test]
fn latest_run_over_empty_ledger_is_zero() {
    let ledger = ScoreLedger::new();
    assert_eq!(ledger.get_latest_score(), 0);
}

#[test]
fn latest_run_ignores_names_without_timestamps() {
    let mut ledger = ScoreLedger::new();
    ledger.add_record(b"stray-file".to_vec(), 9);
    assert_eq!(ledger.get_latest_score(), 0);
    ledger.add_record(b"benchmark-01-01-2024_10:00.log".to_vec(), 4);
    assert_eq!(ledger.get_latest_score(), 4);
}
