use dockstat::json::network_in_use_from_inspect;
use dockstat::json::volume_in_use_from_inspect;
use dockstat::manager::aggregate_container_stats;
use dockstat::parse::parse_cpu_count;
use dockstat::records::ContainerStats;

#[test]
fn network_inspect_reads_the_containers_object() {
    let busy = "[{\"Name\":\"web\",\"Containers\":{\"abc\":{\"Name\":\"c1\"}}}]";
    assert!(network_in_use_from_inspect(busy));
    let idle = "[{\"Name\":\"web\",\"Containers\":{}}]";
    assert!(!network_in_use_from_inspect(idle));
    assert!(!network_in_use_from_inspect("[{\"Name\":\"web\"}]"));
    assert!(!network_in_use_from_inspect("[]"));
    assert!(!network_in_use_from_inspect("not json"));
}

#[test]
fn volume_inspect_reads_the_ref_counts() {
    assert!(volume_in_use_from_inspect("[{\"Name\":\"v\",\"RefCount\":2}]"));
    assert!(!volume_in_use_from_inspect("[{\"Name\":\"v\",\"RefCount\":0}]"));
    // No top-level count: the nested usage figure decides.
    assert!(volume_in_use_from_inspect("[{\"Name\":\"v\",\"UsageData\":{\"RefCount\":1}}]"));
    assert!(!volume_in_use_from_inspect("[{\"Name\":\"v\",\"UsageData\":{\"RefCount\":0}}]"));
    // A present top-level zero wins over a busy nested figure.
    assert!(!volume_in_use_from_inspect(
        "[{\"Name\":\"v\",\"RefCount\":0,\"UsageData\":{\"RefCount\":3}}]"
    ));
    assert!(!volume_in_use_from_inspect("[{\"Name\":\"v\"}]"));
    assert!(!volume_in_use_from_inspect("broken"));
}

fn row(cpu: u64, mem: u64, limit: u64, rx: u64, tx: u64, br: u64, bw: u64) -> ContainerStats {
    ContainerStats {
        id: "c".to_string(),
        name: "c".to_string(),
        cpu_percent_milli: cpu,
        memory_usage: mem,
        memory_limit: limit,
        memory_percent_milli: 0,
        network_rx: rx,
        network_tx: tx,
        block_read: br,
        block_write: bw,
    }
}

#[test]
fn remote_rows_aggregate_unweighted() {
    let rows = vec![
        row(12_500, 100, 400, 10, 20, 30, 40),
        row(37_500, 300, 400, 1, 2, 3, 4),
    ];
    let usage = aggregate_container_stats(rows, 4, 1000);
    assert_eq!(usage.cpu_usage_milli, 50_000);
    assert_eq!(usage.cpu_online, 4);
    assert_eq!(usage.memory_usage, 400);
    assert_eq!(usage.memory_limit, 1000);
    assert_eq!(usage.memory_percent_milli, 40_000);
    assert_eq!(usage.network_rx_bytes, 11);
    assert_eq!(usage.network_tx_bytes, 22);
    assert_eq!(usage.block_read_bytes, 33);
    assert_eq!(usage.block_write_bytes, 44);
    assert_eq!(usage.containers_stats.len(), 2);

    let empty = aggregate_container_stats(Vec::new(), 1, 0);
    assert_eq!(empty.cpu_usage_milli, 0);
    assert_eq!(empty.memory_percent_milli, 0);
}

#[test]
fn byte_counter_batches_sum_saturating() {
    assert_eq!(dockstat::manager::sat_sum(&vec![1, 2, 3]), 6);
    assert_eq!(dockstat::manager::sat_sum(&Vec::new()), 0);
    assert_eq!(dockstat::manager::sat_sum(&vec![u64::MAX, 5]), u64::MAX);
}

#[test]
fn core_count_probe_output_parses() {
    assert_eq!(parse_cpu_count("8\n"), 8);
    assert_eq!(parse_cpu_count("  16  "), 16);
    assert_eq!(parse_cpu_count(""), 1);
    assert_eq!(parse_cpu_count("eight"), 1);
    assert_eq!(parse_cpu_count("4 cores"), 1);
}
