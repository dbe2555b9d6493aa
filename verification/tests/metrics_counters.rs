use matrix_pool::errors::MetricsError;
use matrix_pool::metrics::amap::AmapMetrics;
use matrix_pool::metrics::Metrics;

fn value_in(snapshot: &[(String, i64)], key: &str) -> Option<i64> {
    snapshot.iter().find(|(k, _)| k.as_str() == key).map(|&(_, v)| v)
}

#[test]
fn test_metrics_inc_creates_at_zero() {
    let mut m = Metrics::new();
    m.inc("requests").unwrap();
    let snap = m.snapshot();
    assert_eq!(value_in(&snap, "requests"), Some(1));
}

#[test]
fn test_metrics_inc_and_dec() {
    let mut m = Metrics::new();
    m.inc("workers").unwrap();
    m.inc("workers").unwrap();
    m.inc("workers").unwrap();
    m.dec("workers").unwrap();
    let snap = m.snapshot();
    assert_eq!(value_in(&snap, "workers"), Some(2));
}

#[test]
fn test_metrics_dec_creates_at_zero() {
    let mut m = Metrics::new();
    m.dec("backlog").unwrap();
    let snap = m.snapshot();
    assert_eq!(value_in(&snap, "backlog"), Some(-1));
}

#[test]
fn test_metrics_counters_are_independent() {
    let mut m = Metrics::new();
    m.inc("a").unwrap();
    m.inc("b").unwrap();
    m.inc("b").unwrap();
    let snap = m.snapshot();
    assert_eq!(value_in(&snap, "a"), Some(1));
    assert_eq!(value_in(&snap, "b"), Some(2));
    assert_eq!(snap.len(), 2);
}

#[test]
fn test_metrics_empty_snapshot() {
    let m = Metrics::new();
    assert!(m.snapshot().is_empty());
}

#[test]
fn test_amap_inc_registered_key() {
    let names = vec![String::from("calls"), String::from("errors")];
    let mut m = AmapMetrics::new(&names);
    m.inc("calls").unwrap();
    m.inc("calls").unwrap();
    let snap = m.snapshot();
    assert_eq!(value_in(&snap, "calls"), Some(2));
    assert_eq!(value_in(&snap, "errors"), Some(0));
}

#[test]
fn test_amap_inc_unknown_key_fails() {
    let names = vec![String::from("calls")];
    let mut m = AmapMetrics::new(&names);
    assert_eq!(m.inc("missing"), Err(MetricsError::KeyNotFound));
    let snap = m.snapshot();
    assert_eq!(value_in(&snap, "calls"), Some(0));
    assert_eq!(snap.len(), 1);
}

#[test]
fn test_amap_repeated_name_registered_once() {
    let names = vec![String::from("x"), String::from("x")];
    let m = AmapMetrics::new(&names);
    assert_eq!(m.snapshot().len(), 1);
}
