use ridi_router::gpx_writer::{sort_by_longest, total_order_key, RouteStatElement};
use std::collections::HashMap;

fn stat(len_m: f64, percentage: f64) -> RouteStatElement {
    RouteStatElement { len_m_bits: len_m.to_bits(), percentage_bits: percentage.to_bits() }
}

#[test]
fn sort_by_longest_sorts_descending_by_length() {
    let sorted = sort_by_longest(Vec::from_iter(HashMap::from([
        ("short".to_string(), stat(10.0, 10.0)),
        ("long".to_string(), stat(30.0, 30.0)),
        ("mid".to_string(), stat(20.0, 20.0)),
    ])));

    assert_eq!(sorted[0].0, "long");
    assert_eq!(sorted[1].0, "mid");
    assert_eq!(sorted[2].0, "short");
}

#[test]
fn sort_by_longest_keeps_every_entry() {
    let sorted = sort_by_longest(vec![
        ("a".to_string(), stat(5.0, 1.0)),
        ("b".to_string(), stat(5.0, 2.0)),
        ("c".to_string(), stat(-1.0, 3.0)),
        ("d".to_string(), stat(0.0, 4.0)),
    ]);
    assert_eq!(sorted.len(), 4);
    assert_eq!(sorted[2].0, "d");
    assert_eq!(sorted[3].0, "c");
    let mut first_two: Vec<&str> = sorted[..2].iter().map(|e| e.0.as_str()).collect();
    first_two.sort();
    assert_eq!(first_two, vec!["a", "b"]);
    assert!(sort_by_longest(Vec::new()).is_empty());
}

#[test]
fn total_order_key_follows_total_cmp() {
    let values = [f64::NEG_INFINITY, -2.5, -0.0, 0.0, 1e-300, 3.0, f64::INFINITY, f64::NAN];
    for a in values {
        for b in values {
            let by_key = total_order_key(a.to_bits()).cmp(&total_order_key(b.to_bits()));
            assert_eq!(by_key, a.total_cmp(&b));
        }
    }
    assert_eq!(total_order_key(0), 0);
    assert_eq!(total_order_key(0x8000_0000_0000_0000), -1);
    assert_eq!(total_order_key(u64::MAX), i64::MIN);
}
