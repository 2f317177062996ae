use dockstat::manager::DockerManager;
use dockstat::manager::StatsRow;
use dockstat::stats::PreviousStatsCache;
use dockstat::stats::StatsReading;
use dockstat::stats::compute_cpu;

fn reading(
    cpu_total: u64,
    system_total: u64,
    precpu_total: u64,
    presystem_total: u64,
    online: Option<u64>,
) -> StatsReading {
    StatsReading {
        cpu_total,
        system_total,
        precpu_total,
        presystem_total,
        online_cpus: online,
        percpu: Vec::new(),
        memory_usage: 0,
        memory_limit: 0,
        network_rx: 0,
        network_tx: 0,
        block_read: 0,
        block_write: 0,
    }
}

#[test]
fn two_reads_give_eighty_percent_on_four_cpus() {
    // Two consecutive reads: the CPU counter advances by 200 ms of CPU time
    // while the system counter advances by one second, on a 4-CPU host.
    let mut cache = PreviousStatsCache::new();
    let first = reading(1_000_000_000, 10_000_000_000, 0, 0, Some(4));
    let _ = cache.observe("c1", &first, 1);
    let second = reading(1_200_000_000, 11_000_000_000, 0, 0, Some(4));
    let c = cache.observe("c1", &second, 2);
    assert_eq!(c.percent_milli, 80_000); // 80.0 %
    assert_eq!(c.online_cpus, 4);
}

#[test]
fn zero_system_delta_reports_zero() {
    let mut cache = PreviousStatsCache::new();
    let first = reading(100, 1000, 0, 0, Some(2));
    let _ = cache.observe("c1", &first, 1);
    // The system counter does not move, whatever the CPU counter does.
    let second = reading(90_000, 1000, 0, 0, Some(2));
    let c = cache.observe("c1", &second, 2);
    assert_eq!(c.percent_milli, 0);
}

#[test]
fn percentage_never_exceeds_cpu_bound() {
    let readings = [
        reading(u64::MAX, 1, 0, 0, Some(1)),
        reading(500, 100, 400, 90, Some(2)),
        reading(0, 0, 0, 0, None),
        reading(7, 3, 1, 2, Some(8)),
    ];
    for r in readings.iter() {
        let c = compute_cpu(None, r);
        assert!(c.percent_milli <= c.online_cpus * 100_000);
    }
}

#[test]
fn sanity_violation_falls_back_to_sidecar() {
    // Cache-derived deltas: cpu 200_000, system 10 -> cpu_delta exceeds
    // 10 * system_delta, so the sidecar pre-stats must decide instead.
    let mut cache = PreviousStatsCache::new();
    let first = reading(0, 0, 0, 0, Some(1));
    let _ = cache.observe("c1", &first, 1);
    let second = reading(
        200_000, // cache cpu delta 200_000
        10,  // cache system delta 10
        100_000, // sidecar: cpu delta 100_000
        0,   // sidecar: system delta 10
    Some(1));
    let mut sidecar_only = second.clone();
    let c = cache.observe("c1", &second, 2);
    let expected = compute_cpu(None, &mut sidecar_only);
    assert_eq!(c, expected);
}

#[test]
fn first_observation_uses_sidecar_prestats() {
    let mut cache = PreviousStatsCache::new();
    // 50 % of one CPU per the sidecar pre-stats.
    let r = reading(150, 1000, 100, 900, Some(1));
    let c = cache.observe("c1", &r, 1);
    assert_eq!(c.percent_milli, 50_000);
}

#[test]
fn switching_context_clears_the_cache() {
    let mut m = DockerManager::new();
    // Prime the cache with a first read.
    let first = reading(0, 0, 0, 0, Some(1));
    let _ = m.calculate_cpu_percentage_with_cache("c1", &first, 1);
    // A second read whose sidecar shows no movement: only a surviving cache
    // entry could make the percentage non-zero.
    let second = reading(500, 1000, 500, 1000, Some(1));
    let with_cache = compute_cpu(Some(first.to_snapshot(1)), &second);
    assert!(with_cache.percent_milli > 0);
    m.switch_to_server("local").unwrap();
    let c = m.calculate_cpu_percentage_with_cache("c1", &second, 2);
    assert_eq!(c.percent_milli, 0);
}

#[test]
fn aggregation_sums_rows_unweighted() {
    let mut m = DockerManager::new();
    let rows = vec![
        StatsRow {
            id: "a".to_string(),
            name: "one".to_string(),
            reading: StatsReading {
                cpu_total: 150,
                system_total: 1000,
                precpu_total: 100,
                presystem_total: 900,
                online_cpus: Some(1),
                percpu: Vec::new(),
                memory_usage: 100,
                memory_limit: 400,
                network_rx: 10,
                network_tx: 20,
                block_read: 30,
                block_write: 40,
            },
        },
        StatsRow {
            id: "b".to_string(),
            name: "two".to_string(),
            reading: StatsReading {
                cpu_total: 150,
                system_total: 1000,
                precpu_total: 100,
                presystem_total: 900,
                online_cpus: Some(1),
                percpu: Vec::new(),
                memory_usage: 300,
                memory_limit: 400,
                network_rx: 1,
                network_tx: 2,
                block_read: 3,
                block_write: 4,
            },
        },
    ];
    let usage = m.compute_system_usage(rows, 1000, 7);
    assert_eq!(usage.containers_stats.len(), 2);
    assert_eq!(usage.cpu_usage_milli, 100_000); // 50 % + 50 %
    assert_eq!(usage.memory_usage, 400);
    assert_eq!(usage.memory_limit, 1000);
    assert_eq!(usage.memory_percent_milli, 40_000); // 40.0 %
    assert_eq!(usage.network_rx_bytes, 11);
    assert_eq!(usage.network_tx_bytes, 22);
    assert_eq!(usage.block_read_bytes, 33);
    assert_eq!(usage.block_write_bytes, 44);
    assert_eq!(usage.cpu_online, 1);
    assert_eq!(usage.containers_stats[0].memory_percent_milli, 25_000);
    assert_eq!(usage.containers_stats[1].memory_percent_milli, 75_000);
}
