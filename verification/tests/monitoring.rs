use nexus_core::monitoring::{check_due, MetricCollector, MetricValue,
    aggregate_health, connection_status, DatabaseHealthCheck, HealthMonitor, HealthStatus, PerformanceProfiler,
    QueryStats,
};
use nexus_core::str_map::StrMap;
use nexus_core::Error;
use std::sync::atomic::AtomicU64;
use std::sync::Arc;
use std::time::Duration;

#[test]
fn test_health_monitor() {
    let mut monitor = HealthMonitor::new(Duration::from_secs(1));

    let connected = Arc::new(AtomicU64::new(1));
    let db_check = DatabaseHealthCheck::new(connected);
    monitor.add_check(Box::new(db_check));

    let status = monitor.check_health().unwrap();
    assert_eq!(status, HealthStatus::Healthy);
}

#[test]
fn health_monitor_reports_disconnected_database() {
    let mut monitor = HealthMonitor::new(Duration::from_secs(60));
    assert_eq!(monitor.get_status(), HealthStatus::Unknown);
    assert!(monitor.get_last_check().is_none());
    assert!(monitor.is_check_due());
    monitor.add_check(Box::new(DatabaseHealthCheck::new(Arc::new(AtomicU64::new(0)))));
    assert_eq!(monitor.check_health().unwrap(), HealthStatus::Unhealthy);
    assert_eq!(monitor.get_status(), HealthStatus::Unhealthy);
    assert!(monitor.get_last_check().is_some());
    assert!(!monitor.is_check_due());
}

#[test]
fn health_combination() {
    assert_eq!(connection_status(1), HealthStatus::Healthy);
    assert_eq!(connection_status(0), HealthStatus::Unhealthy);
    let results: Vec<Result<HealthStatus, Error>> = vec![Ok(HealthStatus::Healthy), Ok(HealthStatus::Degraded)];
    assert_eq!(aggregate_health(&results), HealthStatus::Degraded);
    let results: Vec<Result<HealthStatus, Error>> =
        vec![Ok(HealthStatus::Degraded), Ok(HealthStatus::Unhealthy), Ok(HealthStatus::Healthy)];
    assert_eq!(aggregate_health(&results), HealthStatus::Unhealthy);
    let results: Vec<Result<HealthStatus, Error>> = vec![Ok(HealthStatus::Healthy), Err(Error::internal("x"))];
    assert_eq!(aggregate_health(&results), HealthStatus::Unknown);
    let none: Vec<Result<HealthStatus, Error>> = vec![];
    assert_eq!(aggregate_health(&none), HealthStatus::Healthy);
}

#[test]
fn monitoring_test_performance_profiler() {
    let mut profiler = PerformanceProfiler::new();
    profiler.start_profile("test_function");
    let start = std::time::Instant::now();
    while start.elapsed() < Duration::from_millis(10) {}
    profiler.end_profile("test_function");

    let profile = profiler.get_profile("test_function").unwrap();
    assert_eq!(profile.execution_count, 1);
    assert!(profile.total_time_nanos >= 10_000_000);
}

#[test]
fn profiler_records_min_max_average() {
    let mut profiler = PerformanceProfiler::new();
    profiler.record_profile("q", 100);
    profiler.record_profile("q", 300);
    let p = profiler.get_profile("q").unwrap();
    assert_eq!(p.execution_count, 2);
    assert_eq!(p.total_time_nanos, 400);
    assert_eq!(p.average_time_nanos, 200);
    assert_eq!(p.min_time_nanos, 100);
    assert_eq!(p.max_time_nanos, 300);
    assert_eq!(profiler.get_all_profiles().len(), 1);
    profiler.clear_profiles();
    assert!(profiler.get_profile("q").is_none());
}

#[test]
fn test_query_stats() {
    let mut stats = QueryStats::new();
    stats.record_query(true, Duration::from_millis(100));
    stats.record_query(false, Duration::from_millis(200));
    stats.record_query(true, Duration::from_millis(150));
    assert_eq!(stats.total_queries, 3);
    assert_eq!(stats.successful_queries, 2);
    assert_eq!(stats.failed_queries, 1);
    assert_eq!(stats.total_execution_time, 450);
    assert_eq!(stats.average_execution_time, 150);
    assert_eq!(stats.successful_queries as f64 / stats.total_queries as f64, 2.0 / 3.0);
}

fn labels(pairs: &[(&str, &str)]) -> StrMap<String> {
    let mut m = StrMap::new();
    for (k, v) in pairs {
        m.insert(k.to_string(), v.to_string());
    }
    m
}

#[test]
fn test_metric_collector() {
    let mut collector = MetricCollector::new(1000);
    collector.record_counter("queries_total", 100, labels(&[("component", "database")]));
    let metrics = collector.get_metrics();
    assert_eq!(metrics.len(), 1);
}

#[test]
fn metric_key_is_name_then_labels() {
    let mut collector = MetricCollector::new(10);
    collector.record_counter("queries_total", 1, labels(&[("component", "database"), ("node", "a")]));
    collector.record_counter("uptime", 5, labels(&[]));
    let metrics = collector.get_metrics();
    assert_eq!(metrics[0].0, "queries_total{\"component\": \"database\", \"node\": \"a\"}");
    assert_eq!(metrics[1].0, "uptime{}");
}

#[test]
fn same_key_keeps_latest_sample() {
    let mut collector = MetricCollector::new(10);
    collector.record_counter("hits", 1, labels(&[("k", "v")]));
    collector.record_counter("hits", 2, labels(&[("k", "v")]));
    let metrics = collector.get_metrics();
    assert_eq!(metrics.len(), 1);
    assert!(matches!(metrics[0].1.value, MetricValue::Counter(2)));
    assert_eq!(collector.get_history().len(), 2);
}

#[test]
fn history_keeps_only_latest_samples() {
    let mut collector = MetricCollector::new(2);
    for i in 0..5u64 {
        collector.record_counter("n", i, labels(&[]));
    }
    let history = collector.get_history();
    assert_eq!(history.len(), 2);
    assert!(matches!(history[0].value, MetricValue::Counter(3)));
    assert!(matches!(history[1].value, MetricValue::Counter(4)));
}

#[test]
fn histogram_counts_buckets_at_or_above_value() {
    let mut collector = MetricCollector::new(10);
    let buckets = vec![1.0f64.to_bits(), 2.5f64.to_bits(), 10.0f64.to_bits()];
    collector.record_histogram("latency", 2.5f64.to_bits(), buckets, labels(&[]), |v: u64, b: u64| {
        f64::from_bits(v) <= f64::from_bits(b)
    });
    let metrics = collector.get_metrics();
    match &metrics[0].1.value {
        MetricValue::Histogram { count, sum_bits, buckets } => {
            assert_eq!(*count, 1);
            assert_eq!(f64::from_bits(*sum_bits), 2.5);
            let counts: Vec<u64> = buckets.iter().map(|b| b.1).collect();
            assert_eq!(counts, vec![0, 1, 1]);
        }
        _ => panic!("expected a histogram"),
    }
}

#[test]
fn summary_pairs_quantiles_with_value() {
    let mut collector = MetricCollector::new(10);
    collector.record_summary("size", 7, vec![50, 99], labels(&[]));
    match &collector.get_metrics()[0].1.value {
        MetricValue::Summary { count, quantiles, .. } => {
            assert_eq!(*count, 1);
            assert_eq!(quantiles, &vec![(50, 7), (99, 7)]);
        }
        _ => panic!("expected a summary"),
    }
}

#[test]
fn metrics_by_name_and_clear() {
    let mut collector = MetricCollector::new(10);
    collector.record_counter("a", 1, labels(&[("x", "1")]));
    collector.record_counter("b", 2, labels(&[]));
    collector.record_gauge("a", 3.5f64.to_bits(), labels(&[("x", "2")]));
    let named = collector.get_metrics_by_name("a");
    assert_eq!(named.len(), 2);
    assert!(matches!(named[0].value, MetricValue::Counter(1)));
    collector.clear_metrics();
    assert!(collector.get_metrics().is_empty());
    assert!(collector.get_history().is_empty());
}

#[test]
fn check_due_compares_elapsed_with_interval() {
    assert!(check_due(5, 3));
    assert!(check_due(3, 3));
    assert!(!check_due(2, 3));
    let mut monitor = HealthMonitor::new(Duration::from_secs(3600));
    assert!(monitor.is_check_due());
    monitor.check_health().unwrap();
    assert!(!monitor.is_check_due());
    let mut eager = HealthMonitor::new(Duration::from_secs(0));
    eager.check_health().unwrap();
    assert!(eager.is_check_due());
}

#[test]
fn ending_unstarted_profile_records_nothing() {
    let mut profiler = PerformanceProfiler::new();
    profiler.end_profile("never");
    assert!(profiler.get_profile("never").is_none());
    profiler.start_profile("op");
    profiler.end_profile("op");
    profiler.start_profile("op");
    profiler.end_profile("op");
    let p = profiler.get_profile("op").unwrap();
    assert_eq!(p.execution_count, 2);
    assert!(p.min_time_nanos <= p.max_time_nanos);
    assert_eq!(p.average_time_nanos, p.total_time_nanos / 2);
}
