//! What is measured of a job.

use overload::metrics::{Change, Metric, MetricKind, Metrics, MetricsFactory};

#[test]
fn test_metrics_factory() {
    let mut factory: MetricsFactory<u32> = MetricsFactory::new();
    let specs = factory.metrics_with_buckets("job_id_1").unwrap_err();
    let names: Vec<&str> = specs.iter().map(|s| s.name.as_str()).collect();
    assert_eq!(
        names,
        vec![
            "upstream_response_time",
            "upstream_request_status_count",
            "upstream_request_count",
            "connection_pool_new_connection_attempt",
            "connection_pool_new_connection_success",
            "connection_pool_connection_broken",
            "connection_pool_connection_dropped",
            "connection_pool_connection_idle",
            "connection_pool_connection_busy",
            "connection_pool_size",
            "assertion_failure",
        ]
    );
    assert!(specs.iter().all(|s| s.job_id == "job_id_1"));
    assert_eq!(specs[0].kind, MetricKind::Histogram);
    assert_eq!(specs[0].labels, vec!["status"]);
    assert_eq!(specs[10].labels, vec!["assertion_id", "reason"]);
    factory.keep("job_id_1".to_string(), 1);
    factory.keep("job_id_2".to_string(), 2);
    assert_eq!(factory.metrics_with_buckets("job_id_2").unwrap(), &2);
    assert!(factory.metrics_with_buckets("job_id_3").is_err());
}

#[test]
fn test_metrics_factory_same_job() {
    let mut factory: MetricsFactory<u32> = MetricsFactory::new();
    assert!(factory.metrics_with_buckets("job_id_1").is_err());
    factory.keep("job_id_1".to_string(), 7);
    assert_eq!(factory.metrics_with_buckets("job_id_1").unwrap(), &7);
    let (handle, metrics) = factory.remove_metrics("job_id_1").unwrap();
    assert_eq!(handle, 7);
    assert_eq!(metrics.len(), 11);
    assert!(factory.metrics_with_buckets("job_id_1").is_err());
    assert!(factory.remove_metrics("job_id_1").is_none());
}

#[test]
fn every_metric_is_taken_down_again() {
    let factory: MetricsFactory<u32> = MetricsFactory::new();
    let set_up: Vec<Metric> =
        factory.metrics_with_buckets("j").unwrap_err().iter().map(|s| s.metric).collect();
    let mut factory: MetricsFactory<u32> = MetricsFactory::new();
    factory.keep("j".to_string(), 1);
    let (_, taken_down) = factory.remove_metrics("j").unwrap();
    for m in &set_up {
        assert_eq!(taken_down.iter().filter(|t| *t == m).count(), 1);
    }
    assert_eq!(set_up.len(), taken_down.len());
}

#[test]
fn changes_of_metrics() {
    let update = Metrics::upstream_request_status_count(5, "200");
    assert_eq!(update.metric, Metric::UpstreamRequestStatusCount);
    assert_eq!(update.labels, vec!["200".to_string()]);
    assert_eq!(update.change, Change::IncrementBy(5));
    let update = Metrics::upstream_response_time("200", 100);
    assert_eq!(update.change, Change::Observe(100));
    assert_eq!(Metrics::pool_size(4).change, Change::SetTo(4));
    assert_eq!(Metrics::pool_connection_busy(-2).change, Change::Add(-2));
    let update = Metrics::assertion_failure(12, "FailedAssert");
    assert_eq!(update.labels, vec!["12".to_string(), "FailedAssert".to_string()]);
    let update = Metrics::assertion_parse_failure("x");
    assert_eq!(update.labels, vec!["parse_err".to_string(), "x".to_string()]);
}
