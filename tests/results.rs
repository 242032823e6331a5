use hal_contract::{Counts, ExecutionResult};

#[test]
fn test_counts_basic() {
    let mut counts = Counts::new();
    counts.insert("00", 500);
    counts.insert("11", 500);

    assert_eq!(counts.get("00"), 500);
    assert_eq!(counts.get("11"), 500);
    assert_eq!(counts.get("01"), 0);
    assert_eq!(counts.total_shots(), 1000);
}

#[test]
fn test_counts_most_frequent() {
    let counts = Counts::from_pairs(vec![("00".to_string(), 100), ("11".to_string(), 900)]);

    let (most, count) = counts.most_frequent().unwrap();
    assert_eq!(most, "11");
    assert_eq!(count, 900);
}

#[test]
fn test_execution_result() {
    let counts = Counts::from_pairs(vec![("00".to_string(), 500), ("11".to_string(), 500)]);

    let result = ExecutionResult::new(counts, 1000).with_execution_time(42);

    assert_eq!(result.shots, 1000);
    assert_eq!(result.execution_time_ms, Some(42));

    let (_most, count, total) = result.most_frequent_share().unwrap();
    let prob = count as f64 / total as f64;
    assert!((prob - 0.5).abs() < 1e-10);
}

#[test]
fn counts_probability_shares_of_scenario() {
    let mut counts = Counts::new();
    counts.insert("00", 300);
    counts.insert("01", 200);
    counts.insert("10", 300);
    counts.insert("11", 200);
    let total = counts.total_shots() as f64;
    assert_eq!(counts.total_shots(), 1000);
    assert!((counts.get("00") as f64 / total - 0.3).abs() < 1e-10);
    assert!((counts.get("11") as f64 / total - 0.2).abs() < 1e-10);
}

#[test]
fn insert_accumulates_on_one_key() {
    let mut counts = Counts::new();
    for v in [3u64, 0, 7, 90] {
        counts.insert("101", v);
    }
    assert_eq!(counts.get("101"), 100);
    assert_eq!(counts.len(), 1);
    let pairs = Counts::from_pairs(vec![("0".to_string(), 2), ("1".to_string(), 5), ("0".to_string(), 4)]);
    assert_eq!(pairs.get("0"), 6);
    assert_eq!(pairs.get("1"), 5);
    assert_eq!(pairs.total_shots(), 11);
}

#[test]
fn empty_counts_have_no_winner_and_zero_total() {
    let counts = Counts::new();
    assert!(counts.is_empty());
    assert_eq!(counts.total_shots(), 0);
    assert!(counts.most_frequent().is_none());
    assert!(counts.iter().is_empty());
    let zero = Counts::from_pairs(vec![("00".to_string(), 0)]);
    assert!(!zero.is_empty());
    let result = ExecutionResult::new(zero, 0);
    assert!(result.most_frequent_share().is_none());
    assert!(ExecutionResult::default().most_frequent_share().is_none());
}

#[test]
fn most_frequent_share_is_max_over_total() {
    let counts = Counts::from_pairs(vec![
        ("000".to_string(), 10),
        ("111".to_string(), 60),
        ("010".to_string(), 30),
    ]);
    let result = ExecutionResult::new(counts, 100);
    let (key, count, total) = result.most_frequent_share().unwrap();
    assert_eq!(key, "111");
    assert_eq!(count, 60);
    assert_eq!(total, 100);
    let mut entries = result.counts.iter();
    entries.sort();
    assert_eq!(
        entries,
        vec![("000".to_string(), 10), ("010".to_string(), 30), ("111".to_string(), 60)]
    );
    let copy = result.duplicate();
    assert_eq!(copy.counts.get("010"), 30);
}

#[test]
fn sorted_lists_largest_counts_first() {
    let counts = Counts::from_pairs(vec![
        ("00".to_string(), 5),
        ("01".to_string(), 50),
        ("10".to_string(), 20),
        ("11".to_string(), 20),
    ]);
    let sorted = counts.sorted();
    assert_eq!(sorted.len(), 4);
    assert_eq!(sorted[0], ("01".to_string(), 50));
    assert_eq!(sorted[1].1, 20);
    assert_eq!(sorted[2].1, 20);
    assert_eq!(sorted[3], ("00".to_string(), 5));
    assert!(Counts::new().sorted().is_empty());
}

#[test]
fn total_that_overflows_is_reported() {
    let counts = Counts::from_pairs(vec![("0".to_string(), u64::MAX), ("1".to_string(), 1)]);
    assert_eq!(counts.try_total_shots(), None);
    let fits = Counts::from_pairs(vec![("0".to_string(), u64::MAX - 1), ("1".to_string(), 1)]);
    assert_eq!(fits.try_total_shots(), Some(u64::MAX));
    assert_eq!(fits.total_shots(), u64::MAX);
}

#[test]
fn test_counts_probabilities() {
    let counts = Counts::from_pairs(vec![
        ("00".to_string(), 300),
        ("01".to_string(), 200),
        ("10".to_string(), 300),
        ("11".to_string(), 200),
    ]);

    let total = counts.total_shots() as f64;
    let prob = |key: &str| counts.get(key) as f64 / total;
    assert!((prob("00") - 0.3).abs() < 1e-10);
    assert!((prob("01") - 0.2).abs() < 1e-10);
}
