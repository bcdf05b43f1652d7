use bm25::counter::Counter;

#[test]
fn counter_starts_empty() {
    let counter = Counter::new();
    assert_eq!(counter.get("cat"), 0);
    assert_eq!(counter.get_counts().len(), 0);
    assert!(counter.get_counts().is_empty());
}

#[test]
fn counter_first_increment_inserts_one() {
    let mut counter = Counter::new();
    counter.increment("cat".to_string());
    assert_eq!(counter.get("cat"), 1);
    assert_eq!(counter.get_counts().get("cat"), Some(&1));
    assert_eq!(counter.get_counts().len(), 1);
}

#[test]
fn counter_counts_each_increment() {
    let mut counter = Counter::new();
    counter.increment("cat".to_string());
    counter.increment("dog".to_string());
    counter.increment("cat".to_string());
    assert_eq!(counter.get("cat"), 2);
    assert_eq!(counter.get("dog"), 1);
    assert_eq!(counter.get("bird"), 0);
    assert_eq!(counter.get_counts().len(), 2);
    assert_eq!(counter.get_counts().get("cat"), Some(&2));
    assert_eq!(counter.get_counts().get("dog"), Some(&1));
    assert_eq!(counter.get_counts().get("bird"), None);
}

#[test]
fn counter_keeps_terms_apart_by_case_and_space() {
    let mut counter = Counter::new();
    counter.increment("Cat".to_string());
    counter.increment("cat".to_string());
    counter.increment("cat ".to_string());
    counter.increment(String::new());
    assert_eq!(counter.get("Cat"), 1);
    assert_eq!(counter.get("cat"), 1);
    assert_eq!(counter.get("cat "), 1);
    assert_eq!(counter.get(""), 1);
    assert_eq!(counter.get_counts().len(), 4);
}

#[test]
fn counter_increment_leaves_other_terms_alone() {
    let mut counter = Counter::new();
    for _ in 0..5 {
        counter.increment("a".to_string());
    }
    counter.increment("b".to_string());
    for _ in 0..1000 {
        counter.increment("c".to_string());
    }
    assert_eq!(counter.get("a"), 5);
    assert_eq!(counter.get("b"), 1);
    assert_eq!(counter.get("c"), 1000);
}
