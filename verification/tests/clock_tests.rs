use efficiency_benchmark::run_id::{current_run_id, parse_record_name};

fn field(bytes: &[u8]) -> u32 {
    std::str::from_utf8(bytes).unwrap().parse().unwrap()
}

#[test]
fn current_run_id_carries_a_valid_stamp() {
    let id = current_run_id().expect("the clock year fits in four digits");
    let stamp = parse_record_name(&id).expect("a fresh run id parses");
    assert_eq!(stamp.date.len(), 10);
    assert_eq!(stamp.time.len(), 5);
    let day = field(&stamp.date[0..2]);
    let month = field(&stamp.date[3..5]);
    let year = field(&stamp.date[6..10]);
    let hour = field(&stamp.time[0..2]);
    let minute = field(&stamp.time[3..5]);
    assert!((1..=31).contains(&day));
    assert!((1..=12).contains(&month));
    assert!(year >= 2024);
    assert!(hour <= 23);
    assert!(minute <= 59);
}
