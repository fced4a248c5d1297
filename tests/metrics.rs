use blaze_bridge::metrics::{
    counter_to_host_value, fits_host_positions, is_reported_metric, spark_metric_updates, update_metrics,
    MetricUpdate, PlanMetrics,
};

fn node(metrics: &[(&str, u64)], children: Vec<PlanMetrics>) -> PlanMetrics {
    PlanMetrics {
        metrics: metrics.iter().map(|(n, v)| (n.to_string(), *v)).collect(),
        children,
    }
}

fn add(name: &str, value: i64) -> MetricUpdate {
    MetricUpdate::Add { name: name.to_string(), value }
}

#[test]
fn metric_walk_flat() {
    let root = node(&[("input_rows", 7), ("custom_x", 9), ("elapsed_compute", 42)], vec![]);
    let calls = spark_metric_updates(&root);
    assert_eq!(calls, vec![add("input_rows", 7), add("elapsed_compute", 42)]);
}

#[test]
fn metric_walk_two_level() {
    let a = node(&[("join_time", 10)], vec![]);
    let b = node(&[("output_batches", 2), ("ignore_me", 5)], vec![]);
    let root = node(&[("output_rows", 3)], vec![a, b]);
    let calls = spark_metric_updates(&root);
    assert_eq!(
        calls,
        vec![
            add("output_rows", 3),
            MetricUpdate::EnterChild(0),
            add("join_time", 10),
            MetricUpdate::LeaveChild,
            MetricUpdate::EnterChild(1),
            add("output_batches", 2),
            MetricUpdate::LeaveChild,
        ]
    );
}

#[test]
fn metric_walk_enters_each_node_once() {
    let leaf1 = node(&[], vec![]);
    let leaf2 = node(&[("input_batches", 1)], vec![]);
    let mid = node(&[], vec![leaf1, leaf2]);
    let leaf3 = node(&[], vec![]);
    let root = node(&[], vec![mid, leaf3]);
    let calls = spark_metric_updates(&root);
    let enters = calls.iter().filter(|c| matches!(c, MetricUpdate::EnterChild(_))).count();
    let leaves = calls.iter().filter(|c| matches!(c, MetricUpdate::LeaveChild)).count();
    assert_eq!(enters, 4);
    assert_eq!(leaves, 4);
    assert_eq!(
        calls,
        vec![
            MetricUpdate::EnterChild(0),
            MetricUpdate::EnterChild(0),
            MetricUpdate::LeaveChild,
            MetricUpdate::EnterChild(1),
            add("input_batches", 1),
            MetricUpdate::LeaveChild,
            MetricUpdate::LeaveChild,
            MetricUpdate::EnterChild(1),
            MetricUpdate::LeaveChild,
        ]
    );
}

#[test]
fn metric_walk_single_empty_node_makes_no_calls() {
    assert!(spark_metric_updates(&node(&[], vec![])).is_empty());
}

#[test]
fn adds_only_allow_listed_names() {
    let metrics: Vec<(String, u64)> = vec![
        ("input_rows".to_string(), 1),
        ("input_batches".to_string(), 2),
        ("output_rows".to_string(), 3),
        ("output_batches".to_string(), 4),
        ("elapsed_compute".to_string(), 5),
        ("join_time".to_string(), 6),
        ("spill_count".to_string(), 7),
        ("Input_rows".to_string(), 8),
        ("".to_string(), 9),
    ];
    let mut out = vec![MetricUpdate::LeaveChild];
    update_metrics(&metrics, &mut out);
    assert_eq!(
        out,
        vec![
            MetricUpdate::LeaveChild,
            add("input_rows", 1),
            add("input_batches", 2),
            add("output_rows", 3),
            add("output_batches", 4),
            add("elapsed_compute", 5),
            add("join_time", 6),
        ]
    );
}

#[test]
fn allow_list_is_case_sensitive() {
    assert!(is_reported_metric(&"join_time".to_string()));
    assert!(!is_reported_metric(&"JOIN_TIME".to_string()));
    assert!(!is_reported_metric(&"join_time ".to_string()));
    assert!(!is_reported_metric(&"mem_used".to_string()));
}

#[test]
fn counters_above_i64_max_saturate() {
    assert_eq!(counter_to_host_value(u64::MAX), i64::MAX);
    assert_eq!(counter_to_host_value(1u64 << 63), i64::MAX);
    assert_eq!(counter_to_host_value(i64::MAX as u64), i64::MAX);
    assert_eq!(counter_to_host_value(0), 0);
    assert_eq!(counter_to_host_value(42), 42);
}

#[test]
fn saturated_counter_reaches_host() {
    let root = node(&[("output_rows", u64::MAX)], vec![]);
    assert_eq!(spark_metric_updates(&root), vec![add("output_rows", i64::MAX)]);
}

#[test]
fn small_trees_fit_host_positions() {
    let root = node(&[], vec![node(&[], vec![node(&[], vec![])]), node(&[], vec![])]);
    assert!(fits_host_positions(&root));
    assert!(fits_host_positions(&node(&[("output_rows", 1)], vec![])));
}
