//! Execution-context manager: which server the operations run against, the
//! per-container statistics cache that is scoped to that context, the
//! aggregation of per-container statistics into a system total, and the
//! classification of daemon error output.

use vstd::prelude::*;
use vstd::string::StrSliceExecFns;
use vstd::string::StringExecFns;

use crate::records::ContainerStats;
use crate::records::DockerStatus;
use crate::records::DockerSystemUsage;
use crate::servers::RemoteServerManager;
use crate::servers::ServerInfo;
use crate::servers::ServerType;
use crate::servers::SshServerConfig;
use crate::stats::CpuCalculate;
use crate::stats::PreviousStatsCache;
use crate::stats::StatsReading;
use crate::stats::StatsSnapshot;
use crate::stats::spec_compute_cpu;
use crate::stats::spec_snapshot_of;
use crate::strutil::spec_contains_seq;
use crate::strutil::spec_lower;
use crate::strutil::str_contains;
use crate::strutil::str_eq;
use crate::strutil::contains_insensitive;

verus! {

/// Which execution target the manager is bound to.
#[derive(Debug)]
pub struct DockerContextConfig {
    pub server_id: String,
    pub server_name: String,
    pub is_remote: bool,
    pub ssh_config: Option<SshServerConfig>,
}

impl Clone for DockerContextConfig {
    fn clone(&self) -> (r: Self)
        ensures
            r == *self,
    {
        DockerContextConfig {
            server_id: self.server_id.clone(),
            server_name: self.server_name.clone(),
            is_remote: self.is_remote,
            ssh_config: match &self.ssh_config {
                Some(c) => Some(c.clone()),
                None => None,
            },
        }
    }
}

/// The context configuration that stands for the local daemon.
pub open spec fn spec_local_context(c: DockerContextConfig) -> bool {
    c.server_id@ == "local"@ && c.server_name@ == "Local"@ && c.is_remote == false && c.ssh_config
        is None
}

fn local_context() -> (r: DockerContextConfig)
    ensures
        spec_local_context(r),
{
    DockerContextConfig {
        server_id: "local".to_owned(),
        server_name: "Local".to_owned(),
        is_remote: false,
        ssh_config: None,
    }
}

/// Owner of the active execution context, the statistics cache scoped to it,
/// and the server registry.
pub struct DockerManager {
    context_config: DockerContextConfig,
    previous_stats: PreviousStatsCache,
    server_manager: RemoteServerManager,
}

impl DockerManager {
    /// The cached previous snapshots, keyed by container id.
    pub closed spec fn spec_cache(&self) -> Map<Seq<char>, StatsSnapshot> {
        self.previous_stats@
    }

    /// The active context configuration.
    pub closed spec fn spec_config(&self) -> DockerContextConfig {
        self.context_config
    }

    /// The owned server registry, as a map from id to entry.
    pub closed spec fn spec_registry(&self) -> Map<Seq<char>, ServerInfo> {
        self.server_manager@
    }

    /// A manager bound to the local daemon, with an empty cache, around an
    /// existing registry.
    pub fn new_with_server_manager(server_manager: RemoteServerManager) -> (r: Self)
        ensures
            spec_local_context(r.spec_config()),
            r.spec_cache() == Map::<Seq<char>, StatsSnapshot>::empty(),
            r.spec_registry() == server_manager@,
    {
        DockerManager {
            context_config: local_context(),
            previous_stats: PreviousStatsCache::new(),
            server_manager,
        }
    }

    /// A manager bound to the local daemon around a fresh registry.
    pub fn new() -> (r: Self)
        ensures
            spec_local_context(r.spec_config()),
            r.spec_cache() == Map::<Seq<char>, StatsSnapshot>::empty(),
            r.spec_registry() == Map::<Seq<char>, ServerInfo>::empty(),
    {
        Self::new_with_server_manager(RemoteServerManager::new())
    }

    /// The active context configuration.
    pub fn get_context_config(&self) -> (r: &DockerContextConfig)
        ensures
            *r == self.spec_config(),
    {
        &self.context_config
    }

    /// The active context configuration (alias kept for callers of the older
    /// name).
    pub fn get_current_context(&self) -> (r: &DockerContextConfig)
        ensures
            *r == self.spec_config(),
    {
        &self.context_config
    }

    /// Whether the active context is a remote server.
    pub fn is_remote(&self) -> (r: bool)
        ensures
            r == self.spec_config().is_remote,
    {
        self.context_config.is_remote
    }

    /// Name of the active server.
    pub fn get_current_server_name(&self) -> (r: &str)
        ensures
            r@ == self.spec_config().server_name@,
    {
        self.context_config.server_name.as_str()
    }

    /// Id of the active server.
    pub fn get_current_server_id(&self) -> (r: &str)
        ensures
            r@ == self.spec_config().server_id@,
    {
        self.context_config.server_id.as_str()
    }

    /// Shared access to the server registry.
    pub fn get_server_manager(&self) -> (r: &RemoteServerManager)
        ensures
            r@ == self.spec_registry(),
    {
        &self.server_manager
    }

    /// Switches the active execution context to a server: to the local
    /// daemon for the id `local`, else to a registered remote server. The
    /// previous-stats cache is cleared on every successful switch, because
    /// counters are not comparable across hosts.
    pub fn switch_to_server(&mut self, server_id: &str) -> (r: Result<(), String>)
        ensures
            final(self).spec_registry() == old(self).spec_registry(),
            match r {
                Ok(()) => {
                    &&& final(self).spec_cache() == Map::<Seq<char>, StatsSnapshot>::empty()
                    &&& if server_id@ == "local"@ {
                        spec_local_context(final(self).spec_config())
                    } else {
                        {
                            let info = old(self).spec_registry()[server_id@];
                            &&& old(self).spec_registry().contains_key(server_id@)
                            &&& info.server_type is Remote
                            &&& final(self).spec_config().server_id@ == server_id@
                            &&& final(self).spec_config().server_name == info.name
                            &&& final(self).spec_config().is_remote == true
                            &&& final(self).spec_config().ssh_config == Some(
                                info.server_type->Remote_0,
                            )
                        }
                    }
                },
                Err(_) => {
                    &&& server_id@ != "local"@
                    &&& (!old(self).spec_registry().contains_key(server_id@) || !(old(
                        self,
                    ).spec_registry()[server_id@].server_type is Remote))
                    &&& final(self).spec_cache() == old(self).spec_cache()
                    &&& final(self).spec_config() == old(self).spec_config()
                },
            },
    {
        if str_eq(server_id, "local") {
            self.context_config = local_context();
            self.previous_stats.clear();
            Ok(())
        } else {
            match self.server_manager.get_server(server_id) {
                None => {
                    let mut m = "Servidor '".to_owned();
                    m.append(server_id);
                    m.append("' nao encontrado");
                    Err(m)
                },
                Some(info) => {
                    match info.server_type {
                        ServerType::Local => Err(
                            "Servidor nao e do tipo remoto".to_owned(),
                        ),
                        ServerType::Remote(cfg) => {
                            self.context_config = DockerContextConfig {
                                server_id: server_id.to_owned(),
                                server_name: info.name,
                                is_remote: true,
                                ssh_config: Some(cfg),
                            };
                            self.previous_stats.clear();
                            Ok(())
                        },
                    }
                },
            }
        }
    }

    /// Computes the CPU figure for one container reading against the cache
    /// and always overwrites the cached snapshot with the new reading.
    pub fn calculate_cpu_percentage_with_cache(
        &mut self,
        container_id: &str,
        reading: &StatsReading,
        now: u64,
    ) -> (c: CpuCalculate)
        ensures
            c == spec_compute_cpu(
                if old(self).spec_cache().contains_key(container_id@) {
                    Some(old(self).spec_cache()[container_id@])
                } else {
                    None
                },
                *reading,
            ),
            final(self).spec_cache() == old(self).spec_cache().insert(
                container_id@,
                spec_snapshot_of(*reading, now),
            ),
            final(self).spec_config() == old(self).spec_config(),
            final(self).spec_registry() == old(self).spec_registry(),
            c.percent_milli <= c.online_cpus * 100_000,
    {
        self.previous_stats.observe(container_id, reading, now)
    }
}

/// One container's identity together with its raw stats reading, ready for
/// the delta engine.
#[derive(Debug)]
pub struct StatsRow {
    pub id: String,
    pub name: String,
    pub reading: StatsReading,
}

/// Saturating addition.
pub open spec fn sat_add(a: u64, b: u64) -> u64 {
    if a + b > u64::MAX {
        u64::MAX
    } else {
        (a + b) as u64
    }
}

fn sat_add_u64(a: u64, b: u64) -> (r: u64)
    ensures
        r == sat_add(a, b),
{
    if a <= u64::MAX - b {
        a + b
    } else {
        u64::MAX
    }
}

/// `part` of `whole` in milli-percent, truncated; 0 when `whole` is 0;
/// saturating at `u64::MAX`.
pub open spec fn spec_percent_milli(part: u64, whole: u64) -> u64 {
    if whole == 0 {
        0
    } else {
        let p = (part * 100_000) / (whole as int);
        if p > u64::MAX {
            u64::MAX
        } else {
            p as u64
        }
    }
}

/// Computes a milli-percent share.
pub fn percent_milli(part: u64, whole: u64) -> (r: u64)
    ensures
        r == spec_percent_milli(part, whole),
{
    if whole == 0 {
        0
    } else {
        let wide: u128 = part as u128 * 100_000u128 / (whole as u128);
        if wide > 0xFFFF_FFFF_FFFF_FFFFu128 {
            u64::MAX
        } else {
            wide as u64
        }
    }
}

/// The saturating sum of a batch of byte counters, as the per-interface and
/// per-device figures of one reading are folded together.
pub fn sat_sum(values: &Vec<u64>) -> (r: u64)
    ensures
        r == spec_sat_sum(values@),
{
    let ghost vv = values@;
    let n = values.len();
    let mut total: u64 = 0;
    let mut i: usize = 0;
    proof {
        assert(vv.take(0) =~= Seq::<u64>::empty());
    }
    while i < n
        invariant
            n == vv.len(),
            values@ == vv,
            i <= n,
            total == spec_sat_sum(vv.take(i as int)),
        decreases n - i,
    {
        proof {
            assert(vv.take(i as int + 1).drop_last() =~= vv.take(i as int));
            assert(vv.take(i as int + 1).last() == vv[i as int]);
        }
        total = sat_add_u64(total, values[i]);
        i = i + 1;
    }
    proof {
        assert(vv.take(n as int) =~= vv);
    }
    total
}

/// The statistics row that one reading produces against a given cache.
pub open spec fn spec_row_stats(
    m: Map<Seq<char>, StatsSnapshot>,
    row: StatsRow,
    now: u64,
) -> ContainerStats {
    let prev = if m.contains_key(row.id@) {
        Some(m[row.id@])
    } else {
        None
    };
    let cpu = spec_compute_cpu(prev, row.reading);
    ContainerStats {
        id: row.id,
        name: row.name,
        cpu_percent_milli: cpu.percent_milli,
        memory_usage: row.reading.memory_usage,
        memory_limit: row.reading.memory_limit,
        memory_percent_milli: spec_percent_milli(
            row.reading.memory_usage,
            row.reading.memory_limit,
        ),
        network_rx: row.reading.network_rx,
        network_tx: row.reading.network_tx,
        block_read: row.reading.block_read,
        block_write: row.reading.block_write,
    }
}

/// Folding a sequence of readings through the cache, in order: the cache
/// after all updates, the statistics rows, and the online-CPU count of the
/// last processed reading (0 when there was none).
pub open spec fn spec_usage_fold(
    m: Map<Seq<char>, StatsSnapshot>,
    rows: Seq<StatsRow>,
    now: u64,
) -> (Map<Seq<char>, StatsSnapshot>, Seq<ContainerStats>, u64)
    decreases rows.len(),
{
    if rows.len() == 0 {
        (m, Seq::empty(), 0)
    } else {
        let (m1, s1, _o1) = spec_usage_fold(m, rows.drop_last(), now);
        let row = rows.last();
        let prev = if m1.contains_key(row.id@) {
            Some(m1[row.id@])
        } else {
            None
        };
        let cpu = spec_compute_cpu(prev, row.reading);
        (
            m1.insert(row.id@, spec_snapshot_of(row.reading, now)),
            s1.push(spec_row_stats(m1, row, now)),
            cpu.online_cpus,
        )
    }
}

/// Saturating sum of a sequence of numbers.
pub open spec fn spec_sat_sum(s: Seq<u64>) -> u64
    decreases s.len(),
{
    if s.len() == 0 {
        0
    } else {
        sat_add(spec_sat_sum(s.drop_last()), s.last())
    }
}

impl DockerManager {
    /// Aggregates one round of per-container readings into the system usage:
    /// every reading is run through the delta engine (updating the cache),
    /// the per-container rows are kept, and the totals are the unweighted
    /// saturating sums over all rows. The memory limit is the caller's
    /// system-wide figure.
    pub fn compute_system_usage(&mut self, rows: Vec<StatsRow>, memory_limit: u64, now: u64) -> (r:
        DockerSystemUsage)
        ensures
            final(self).spec_config() == old(self).spec_config(),
            final(self).spec_registry() == old(self).spec_registry(),
            ({
                let (m2, stats, online) = spec_usage_fold(old(self).spec_cache(), rows@, now);
                &&& final(self).spec_cache() == m2
                &&& r.containers_stats@ == stats
                &&& r.cpu_online == online
                &&& r.cpu_usage_milli == spec_sat_sum(
                    stats.map_values(|c: ContainerStats| c.cpu_percent_milli),
                )
                &&& r.memory_usage == spec_sat_sum(
                    stats.map_values(|c: ContainerStats| c.memory_usage),
                )
                &&& r.memory_limit == memory_limit
                &&& r.memory_percent_milli == spec_percent_milli(r.memory_usage, memory_limit)
                &&& r.network_rx_bytes == spec_sat_sum(
                    stats.map_values(|c: ContainerStats| c.network_rx),
                )
                &&& r.network_tx_bytes == spec_sat_sum(
                    stats.map_values(|c: ContainerStats| c.network_tx),
                )
                &&& r.block_read_bytes == spec_sat_sum(
                    stats.map_values(|c: ContainerStats| c.block_read),
                )
                &&& r.block_write_bytes == spec_sat_sum(
                    stats.map_values(|c: ContainerStats| c.block_write),
                )
            }),
    {
        let ghost m0 = self.spec_cache();
        let ghost rv = rows@;
        let mut rows = rows;
        let mut stats: Vec<ContainerStats> = Vec::new();
        let mut online: u64 = 0;
        let mut total_cpu: u64 = 0;
        let mut total_mem: u64 = 0;
        let mut total_rx: u64 = 0;
        let mut total_tx: u64 = 0;
        let mut total_br: u64 = 0;
        let mut total_bw: u64 = 0;
        let ghost mut done: int = 0;
        proof {
            assert(rv.take(0) =~= Seq::<StatsRow>::empty());
        }
        while rows.len() > 0
            invariant
                0 <= done <= rv.len(),
                rows@ =~= rv.skip(done),
                ({
                    let (m2, s2, o2) = spec_usage_fold(m0, rv.take(done), now);
                    &&& self.spec_cache() == m2
                    &&& stats@ == s2
                    &&& online == o2
                    &&& total_cpu == spec_sat_sum(
                        s2.map_values(|c: ContainerStats| c.cpu_percent_milli),
                    )
                    &&& total_mem == spec_sat_sum(s2.map_values(|c: ContainerStats| c.memory_usage))
                    &&& total_rx == spec_sat_sum(s2.map_values(|c: ContainerStats| c.network_rx))
                    &&& total_tx == spec_sat_sum(s2.map_values(|c: ContainerStats| c.network_tx))
                    &&& total_br == spec_sat_sum(s2.map_values(|c: ContainerStats| c.block_read))
                    &&& total_bw == spec_sat_sum(s2.map_values(|c: ContainerStats| c.block_write))
                }),
                self.spec_config() == old(self).spec_config(),
                self.spec_registry() == old(self).spec_registry(),
                m0 == old(self).spec_cache(),
            decreases rows@.len(),
        {
            let row = rows.remove(0);
            proof {
                assert(row == rv[done]);
                assert(rows@ =~= rv.skip(done + 1));
                assert(rv.take(done + 1).drop_last() =~= rv.take(done));
                assert(rv.take(done + 1).last() == rv[done]);
            }
            let ghost s_before = stats@;
            let cpu = self.previous_stats.observe(row.id.as_str(), &row.reading, now);
            let mem_pct = percent_milli(row.reading.memory_usage, row.reading.memory_limit);
            let st = ContainerStats {
                id: row.id,
                name: row.name,
                cpu_percent_milli: cpu.percent_milli,
                memory_usage: row.reading.memory_usage,
                memory_limit: row.reading.memory_limit,
                memory_percent_milli: mem_pct,
                network_rx: row.reading.network_rx,
                network_tx: row.reading.network_tx,
                block_read: row.reading.block_read,
                block_write: row.reading.block_write,
            };
            online = cpu.online_cpus;
            total_cpu = sat_add_u64(total_cpu, st.cpu_percent_milli);
            total_mem = sat_add_u64(total_mem, st.memory_usage);
            total_rx = sat_add_u64(total_rx, st.network_rx);
            total_tx = sat_add_u64(total_tx, st.network_tx);
            total_br = sat_add_u64(total_br, st.block_read);
            total_bw = sat_add_u64(total_bw, st.block_write);
            stats.push(st);
            proof {
                let (m2, s2, o2) = spec_usage_fold(m0, rv.take(done + 1), now);
                assert(stats@ =~= s2);
                assert(s2.map_values(|c: ContainerStats| c.cpu_percent_milli).drop_last()
                    =~= s_before.map_values(|c: ContainerStats| c.cpu_percent_milli));
                assert(s2.map_values(|c: ContainerStats| c.memory_usage).drop_last()
                    =~= s_before.map_values(|c: ContainerStats| c.memory_usage));
                assert(s2.map_values(|c: ContainerStats| c.network_rx).drop_last()
                    =~= s_before.map_values(|c: ContainerStats| c.network_rx));
                assert(s2.map_values(|c: ContainerStats| c.network_tx).drop_last()
                    =~= s_before.map_values(|c: ContainerStats| c.network_tx));
                assert(s2.map_values(|c: ContainerStats| c.block_read).drop_last()
                    =~= s_before.map_values(|c: ContainerStats| c.block_read));
                assert(s2.map_values(|c: ContainerStats| c.block_write).drop_last()
                    =~= s_before.map_values(|c: ContainerStats| c.block_write));
                done = done + 1;
            }
        }
        proof {
            assert(rv.take(rv.len() as int) =~= rv);
        }
        let mem_pct_total = percent_milli(total_mem, memory_limit);
        DockerSystemUsage {
            cpu_online: online,
            cpu_usage_milli: total_cpu,
            memory_usage: total_mem,
            memory_limit,
            memory_percent_milli: mem_pct_total,
            network_rx_bytes: total_rx,
            network_tx_bytes: total_tx,
            block_read_bytes: total_br,
            block_write_bytes: total_bw,
            containers_stats: stats,
        }
    }
}

/// Folds already-computed per-container rows (the remote CLI path, whose
/// percentages come straight from the stats command) into the system usage:
/// the totals are the unweighted saturating sums over the rows, and the
/// caller supplies the host's CPU count and memory limit.
pub fn aggregate_container_stats(
    rows: Vec<ContainerStats>,
    cpu_online: u64,
    memory_limit: u64,
) -> (r: DockerSystemUsage)
    ensures
        r.containers_stats@ == rows@,
        r.cpu_online == cpu_online,
        r.memory_limit == memory_limit,
        r.cpu_usage_milli == spec_sat_sum(
            rows@.map_values(|c: ContainerStats| c.cpu_percent_milli),
        ),
        r.memory_usage == spec_sat_sum(rows@.map_values(|c: ContainerStats| c.memory_usage)),
        r.memory_percent_milli == spec_percent_milli(r.memory_usage, memory_limit),
        r.network_rx_bytes == spec_sat_sum(rows@.map_values(|c: ContainerStats| c.network_rx)),
        r.network_tx_bytes == spec_sat_sum(rows@.map_values(|c: ContainerStats| c.network_tx)),
        r.block_read_bytes == spec_sat_sum(rows@.map_values(|c: ContainerStats| c.block_read)),
        r.block_write_bytes == spec_sat_sum(rows@.map_values(|c: ContainerStats| c.block_write)),
{
    let ghost rv = rows@;
    let n = rows.len();
    let mut total_cpu: u64 = 0;
    let mut total_mem: u64 = 0;
    let mut total_rx: u64 = 0;
    let mut total_tx: u64 = 0;
    let mut total_br: u64 = 0;
    let mut total_bw: u64 = 0;
    let mut i: usize = 0;
    proof {
        assert(rv.take(0) =~= Seq::<ContainerStats>::empty());
    }
    while i < n
        invariant
            n == rv.len(),
            rows@ == rv,
            i <= n,
            total_cpu == spec_sat_sum(
                rv.take(i as int).map_values(|c: ContainerStats| c.cpu_percent_milli),
            ),
            total_mem == spec_sat_sum(
                rv.take(i as int).map_values(|c: ContainerStats| c.memory_usage),
            ),
            total_rx == spec_sat_sum(
                rv.take(i as int).map_values(|c: ContainerStats| c.network_rx),
            ),
            total_tx == spec_sat_sum(
                rv.take(i as int).map_values(|c: ContainerStats| c.network_tx),
            ),
            total_br == spec_sat_sum(
                rv.take(i as int).map_values(|c: ContainerStats| c.block_read),
            ),
            total_bw == spec_sat_sum(
                rv.take(i as int).map_values(|c: ContainerStats| c.block_write),
            ),
        decreases n - i,
    {
        proof {
            assert(rv.take(i as int + 1).drop_last() =~= rv.take(i as int));
            assert(rv.take(i as int + 1).last() == rv[i as int]);
            assert(rv.take(i as int + 1).map_values(
                |c: ContainerStats| c.cpu_percent_milli,
            ).drop_last() =~= rv.take(i as int).map_values(
                |c: ContainerStats| c.cpu_percent_milli,
            ));
            assert(rv.take(i as int + 1).map_values(|c: ContainerStats| c.memory_usage).drop_last()
                =~= rv.take(i as int).map_values(|c: ContainerStats| c.memory_usage));
            assert(rv.take(i as int + 1).map_values(|c: ContainerStats| c.network_rx).drop_last()
                =~= rv.take(i as int).map_values(|c: ContainerStats| c.network_rx));
            assert(rv.take(i as int + 1).map_values(|c: ContainerStats| c.network_tx).drop_last()
                =~= rv.take(i as int).map_values(|c: ContainerStats| c.network_tx));
            assert(rv.take(i as int + 1).map_values(|c: ContainerStats| c.block_read).drop_last()
                =~= rv.take(i as int).map_values(|c: ContainerStats| c.block_read));
            assert(rv.take(i as int + 1).map_values(|c: ContainerStats| c.block_write).drop_last()
                =~= rv.take(i as int).map_values(|c: ContainerStats| c.block_write));
        }
        let row = &rows[i];
        total_cpu = sat_add_u64(total_cpu, row.cpu_percent_milli);
        total_mem = sat_add_u64(total_mem, row.memory_usage);
        total_rx = sat_add_u64(total_rx, row.network_rx);
        total_tx = sat_add_u64(total_tx, row.network_tx);
        total_br = sat_add_u64(total_br, row.block_read);
        total_bw = sat_add_u64(total_bw, row.block_write);
        i = i + 1;
    }
    proof {
        assert(rv.take(n as int) =~= rv);
    }
    let mem_pct = percent_milli(total_mem, memory_limit);
    DockerSystemUsage {
        cpu_online,
        cpu_usage_milli: total_cpu,
        memory_usage: total_mem,
        memory_limit,
        memory_percent_milli: mem_pct,
        network_rx_bytes: total_rx,
        network_tx_bytes: total_tx,
        block_read_bytes: total_br,
        block_write_bytes: total_bw,
        containers_stats: rows,
    }
}

impl DockerManager {
    /// One container's live figures for display: the CPU calculation against
    /// the cache (which is updated), the memory line, and the receive and
    /// transmit rates.
    pub fn get_single_container_stats(
        &mut self,
        container_name: &str,
        reading: &StatsReading,
        now: u64,
    ) -> (r: (CpuCalculate, String, String, String))
        ensures
            r.0 == spec_compute_cpu(
                if old(self).spec_cache().contains_key(container_name@) {
                    Some(old(self).spec_cache()[container_name@])
                } else {
                    None
                },
                *reading,
            ),
            final(self).spec_cache() == old(self).spec_cache().insert(
                container_name@,
                spec_snapshot_of(*reading, now),
            ),
            final(self).spec_config() == old(self).spec_config(),
            final(self).spec_registry() == old(self).spec_registry(),
            r.1@ == crate::fmt::spec_memory_str(reading.memory_usage, reading.memory_limit),
            r.2@ == crate::fmt::spec_format_bytes_rate(reading.network_rx),
            r.3@ == crate::fmt::spec_format_bytes_rate(reading.network_tx),
    {
        let cpu = self.previous_stats.observe(container_name, reading, now);
        let mem = crate::fmt::memory_str(reading.memory_usage, reading.memory_limit);
        let rx = crate::fmt::format_bytes_rate(reading.network_rx);
        let tx = crate::fmt::format_bytes_rate(reading.network_tx);
        (cpu, mem, rx, tx)
    }
}

/// The `-p` argument of one port mapping: `host:container/protocol`.
pub open spec fn spec_port_arg(p: crate::records::PortMapping) -> Seq<char> {
    crate::strutil::spec_u64_dec(p.host_port as nat) + seq![':'] + crate::strutil::spec_u64_dec(
        p.container_port as nat,
    ) + seq!['/'] + p.protocol@
}

pub open spec fn spec_port_args(ps: Seq<crate::records::PortMapping>) -> Seq<Seq<char>>
    decreases ps.len(),
{
    if ps.len() == 0 {
        Seq::empty()
    } else {
        spec_port_args(ps.drop_last()) + seq!["-p"@, spec_port_arg(ps.last())]
    }
}

/// The `-v` argument of one bind mount: `host:container:ro|rw`.
pub open spec fn spec_volume_arg(v: crate::records::VolumeMapping) -> Seq<char> {
    v.host_path@ + seq![':'] + v.container_path@ + seq![':'] + (if v.read_only {
        "ro"@
    } else {
        "rw"@
    })
}

pub open spec fn spec_volume_args(vs: Seq<crate::records::VolumeMapping>) -> Seq<Seq<char>>
    decreases vs.len(),
{
    if vs.len() == 0 {
        Seq::empty()
    } else {
        spec_volume_args(vs.drop_last()) + seq!["-v"@, spec_volume_arg(vs.last())]
    }
}

/// The `-e` argument of one environment variable: `key=value`.
pub open spec fn spec_env_arg(e: crate::records::EnvVar) -> Seq<char> {
    e.key@ + seq!['='] + e.value@
}

pub open spec fn spec_env_args(es: Seq<crate::records::EnvVar>) -> Seq<Seq<char>>
    decreases es.len(),
{
    if es.len() == 0 {
        Seq::empty()
    } else {
        spec_env_args(es.drop_last()) + seq!["-e"@, spec_env_arg(es.last())]
    }
}

/// The restart-policy arguments; an unknown policy adds none.
pub open spec fn spec_restart_args(policy: Seq<char>) -> Seq<Seq<char>> {
    if policy == "always"@ {
        seq!["--restart"@, "always"@]
    } else if policy == "unless-stopped"@ {
        seq!["--restart"@, "unless-stopped"@]
    } else if policy == "on-failure"@ {
        seq!["--restart"@, "on-failure:3"@]
    } else {
        Seq::empty()
    }
}

/// The space-separated tokens of the optional command.
pub open spec fn spec_cmd_tokens(c: Seq<char>) -> Seq<Seq<char>> {
    crate::strutil::spec_split(c, ' ').filter(|t: Seq<char>| t.len() > 0)
}

/// The full argument list of the `docker run` invocation that a create
/// request stands for.
pub open spec fn spec_run_parts(req: crate::records::CreateContainerRequest) -> Seq<Seq<char>> {
    seq!["run"@, "-d"@, "--name"@, req.name@] + spec_port_args(req.ports@) + spec_volume_args(
        req.volumes@,
    ) + spec_env_args(req.environment@) + spec_restart_args(req.restart_policy@) + seq![
        req.image@,
    ] + (match req.command {
        Some(c) => spec_cmd_tokens(c@),
        None => Seq::empty(),
    })
}

/// Builds the argument list of the `docker run` invocation (without the
/// leading `docker`) that creates and starts the requested container.
pub fn run_command_args(req: &crate::records::CreateContainerRequest) -> (r: Vec<String>)
    ensures
        crate::strutil::views(r@) == spec_run_parts(*req),
{
    let mut parts: Vec<String> = Vec::new();
    parts.push("run".to_owned());
    parts.push("-d".to_owned());
    parts.push("--name".to_owned());
    parts.push(req.name.clone());
    let ghost base0 = seq!["run"@, "-d"@, "--name"@, req.name@];
    proof {
        assert(crate::strutil::views(parts@) =~~= base0);
    }
    let mut i: usize = 0;
    while i < req.ports.len()
        invariant
            i <= req.ports@.len(),
            crate::strutil::views(parts@) == base0 + spec_port_args(req.ports@.take(i as int)),
            base0 == seq!["run"@, "-d"@, "--name"@, req.name@],
        decreases req.ports@.len() - i,
    {
        proof {
            assert(req.ports@.take(i as int + 1).drop_last() =~= req.ports@.take(i as int));
            assert(req.ports@.take(i as int + 1).last() == req.ports@[i as int]);
        }
        let ghost before = crate::strutil::views(parts@);
        let p = &req.ports[i];
        parts.push("-p".to_owned());
        let ghost mid = crate::strutil::views(parts@);
        proof {
            assert(mid =~~= before.push("-p"@));
        }
        let mut arg = crate::strutil::u64_to_string(p.host_port as u64);
        arg.append(":");
        arg.append(crate::strutil::u64_to_string(p.container_port as u64).as_str());
        arg.append("/");
        arg.append(p.protocol.as_str());
        proof {
            reveal_strlit(":");
            reveal_strlit("/");
            assert(":"@ =~= seq![':']);
            assert("/"@ =~= seq!['/']);
            assert(arg@ =~= spec_port_arg(req.ports@[i as int]));
        }
        parts.push(arg);
        proof {
            assert(crate::strutil::views(parts@) =~~= mid.push(arg@));
            assert(crate::strutil::views(parts@) =~~= base0 + spec_port_args(
                req.ports@.take(i as int + 1),
            ));
        }
        i = i + 1;
    }
    proof {
        assert(req.ports@.take(req.ports@.len() as int) =~= req.ports@);
    }
    let ghost base1 = base0 + spec_port_args(req.ports@);
    let mut i: usize = 0;
    while i < req.volumes.len()
        invariant
            i <= req.volumes@.len(),
            crate::strutil::views(parts@) == base1 + spec_volume_args(req.volumes@.take(i as int)),
            base1 == seq!["run"@, "-d"@, "--name"@, req.name@] + spec_port_args(req.ports@),
        decreases req.volumes@.len() - i,
    {
        proof {
            assert(req.volumes@.take(i as int + 1).drop_last() =~= req.volumes@.take(i as int));
            assert(req.volumes@.take(i as int + 1).last() == req.volumes@[i as int]);
        }
        let ghost before = crate::strutil::views(parts@);
        let v = &req.volumes[i];
        parts.push("-v".to_owned());
        let ghost mid = crate::strutil::views(parts@);
        proof {
            assert(mid =~~= before.push("-v"@));
        }
        let mut arg = v.host_path.clone();
        arg.append(":");
        arg.append(v.container_path.as_str());
        arg.append(":");
        if v.read_only {
            arg.append("ro");
        } else {
            arg.append("rw");
        }
        proof {
            reveal_strlit(":");
            assert(":"@ =~= seq![':']);
            assert(arg@ =~= spec_volume_arg(req.volumes@[i as int]));
        }
        parts.push(arg);
        proof {
            assert(crate::strutil::views(parts@) =~~= mid.push(arg@));
            assert(crate::strutil::views(parts@) =~~= base1 + spec_volume_args(
                req.volumes@.take(i as int + 1),
            ));
        }
        i = i + 1;
    }
    proof {
        assert(req.volumes@.take(req.volumes@.len() as int) =~= req.volumes@);
    }
    let ghost base2 = base1 + spec_volume_args(req.volumes@);
    let mut i: usize = 0;
    while i < req.environment.len()
        invariant
            i <= req.environment@.len(),
            crate::strutil::views(parts@) == base2 + spec_env_args(
                req.environment@.take(i as int),
            ),
            base2 == seq!["run"@, "-d"@, "--name"@, req.name@] + spec_port_args(req.ports@)
                + spec_volume_args(req.volumes@),
        decreases req.environment@.len() - i,
    {
        proof {
            assert(req.environment@.take(i as int + 1).drop_last() =~= req.environment@.take(
                i as int,
            ));
            assert(req.environment@.take(i as int + 1).last() == req.environment@[i as int]);
        }
        let ghost before = crate::strutil::views(parts@);
        let e = &req.environment[i];
        parts.push("-e".to_owned());
        let ghost mid = crate::strutil::views(parts@);
        proof {
            assert(mid =~~= before.push("-e"@));
        }
        let mut arg = e.key.clone();
        arg.append("=");
        arg.append(e.value.as_str());
        proof {
            reveal_strlit("=");
            assert("="@ =~= seq!['=']);
            assert(arg@ =~= spec_env_arg(req.environment@[i as int]));
        }
        parts.push(arg);
        proof {
            assert(crate::strutil::views(parts@) =~~= mid.push(arg@));
            assert(crate::strutil::views(parts@) =~~= base2 + spec_env_args(
                req.environment@.take(i as int + 1),
            ));
        }
        i = i + 1;
    }
    proof {
        assert(req.environment@.take(req.environment@.len() as int) =~= req.environment@);
    }
    let ghost base3 = base2 + spec_env_args(req.environment@);
    if str_eq(req.restart_policy.as_str(), "always") {
        parts.push("--restart".to_owned());
        parts.push("always".to_owned());
    } else if str_eq(req.restart_policy.as_str(), "unless-stopped") {
        parts.push("--restart".to_owned());
        parts.push("unless-stopped".to_owned());
    } else if str_eq(req.restart_policy.as_str(), "on-failure") {
        parts.push("--restart".to_owned());
        parts.push("on-failure:3".to_owned());
    }
    proof {
        assert(crate::strutil::views(parts@) =~~= base3 + spec_restart_args(req.restart_policy@));
    }
    let ghost base4 = base3 + spec_restart_args(req.restart_policy@);
    parts.push(req.image.clone());
    proof {
        assert(crate::strutil::views(parts@) =~~= base4 + seq![req.image@]);
    }
    let ghost base5 = base4 + seq![req.image@];
    match &req.command {
        Some(c) => {
            let ghost pred = |t: Seq<char>| t.len() > 0;
            let toks = crate::strutil::split_char(c.as_str(), ' ');
            let ghost tv = crate::strutil::spec_split(c@, ' ');
            let mut j: usize = 0;
            proof {
                reveal(Seq::filter);
                assert(tv.take(0) =~= Seq::<Seq<char>>::empty());
                assert(crate::strutil::views(parts@) =~~= base5 + tv.take(0).filter(pred));
            }
            while j < toks.len()
                invariant
                    j <= toks@.len(),
                    crate::strutil::views(toks@) == tv,
                    crate::strutil::views(parts@) == base5 + tv.take(j as int).filter(pred),
                    pred == (|t: Seq<char>| t.len() > 0),
                decreases toks@.len() - j,
            {
                proof {
                    reveal(Seq::filter);
                    assert(tv.take(j as int + 1).drop_last() =~= tv.take(j as int));
                    assert(tv.take(j as int + 1).last() == tv[j as int]);
                    assert(toks@[j as int]@ == tv[j as int]);
                }
                let ghost before = crate::strutil::views(parts@);
                let t: &String = &toks[j];
                if t.as_str().unicode_len() > 0 {
                    parts.push(t.clone());
                    proof {
                        assert(crate::strutil::views(parts@) =~~= before.push(tv[j as int]));
                    }
                }
                proof {
                    assert(crate::strutil::views(parts@) =~~= base5 + tv.take(j as int + 1).filter(
                        pred,
                    ));
                }
                j = j + 1;
            }
            proof {
                assert(tv.take(tv.len() as int) =~= tv);
                assert(crate::strutil::views(parts@) =~~= spec_run_parts(*req));
            }
        },
        None => {
            proof {
                assert(crate::strutil::views(parts@) =~~= spec_run_parts(*req));
            }
        },
    }
    parts
}

/// The same invocation as one command line, for transports that take a
/// single string.
pub fn build_run_command(req: &crate::records::CreateContainerRequest) -> (r: String)
    ensures
        r@ == crate::strutil::spec_join(spec_run_parts(*req), " "@),
{
    let parts = run_command_args(req);
    crate::strutil::join_strings(&parts, " ")
}

/// Classification of a failed image removal: a conflict with a running
/// container is tagged `IN_USE:`, anything else `OTHER_ERROR:`.
pub open spec fn spec_classify_remove_image(stderr: Seq<char>) -> Seq<char> {
    if spec_contains_seq(spec_lower(stderr), spec_lower("conflict"@)) && spec_contains_seq(
        spec_lower(stderr),
        spec_lower("image is being used by running container"@),
    ) {
        "IN_USE:A imagem esta em uso por um conteiner."@
    } else {
        "OTHER_ERROR:Nao foi possivel remover a imagem. Tente forcar a remocao."@
    }
}

/// Classifies the daemon's error output of a failed image removal.
pub fn classify_remove_image_error(stderr: &str) -> (r: String)
    ensures
        r@ == spec_classify_remove_image(stderr@),
{
    if contains_insensitive(stderr, "conflict") && contains_insensitive(
        stderr,
        "image is being used by running container",
    ) {
        "IN_USE:A imagem esta em uso por um conteiner.".to_owned()
    } else {
        "OTHER_ERROR:Nao foi possivel remover a imagem. Tente forcar a remocao.".to_owned()
    }
}

/// Classification of a failed network removal: active endpoints are tagged
/// `IN_USE:`, a missing network and everything else `OTHER_ERROR:`.
pub open spec fn spec_classify_remove_network(stderr: Seq<char>) -> Seq<char> {
    let low = spec_lower(stderr);
    if spec_contains_seq(low, spec_lower("has active endpoints"@)) || spec_contains_seq(
        low,
        spec_lower("endpoint"@),
    ) {
        "IN_USE:A network possui containers conectados."@
    } else if spec_contains_seq(low, spec_lower("not found"@)) || spec_contains_seq(
        low,
        spec_lower("no such network"@),
    ) {
        "OTHER_ERROR:Network nao encontrada."@
    } else {
        "OTHER_ERROR:Nao foi possivel remover a network: "@ + stderr
    }
}

/// Classifies the daemon's error output of a failed network removal.
pub fn classify_remove_network_error(stderr: &str) -> (r: String)
    ensures
        r@ == spec_classify_remove_network(stderr@),
{
    if contains_insensitive(stderr, "has active endpoints") || contains_insensitive(
        stderr,
        "endpoint",
    ) {
        "IN_USE:A network possui containers conectados.".to_owned()
    } else if contains_insensitive(stderr, "not found") || contains_insensitive(
        stderr,
        "no such network",
    ) {
        "OTHER_ERROR:Network nao encontrada.".to_owned()
    } else {
        let mut m = "OTHER_ERROR:Nao foi possivel remover a network: ".to_owned();
        m.append(stderr);
        m
    }
}

/// Classification of a failed volume removal.
pub open spec fn spec_classify_remove_volume(stderr: Seq<char>) -> Seq<char> {
    let low = spec_lower(stderr);
    if spec_contains_seq(low, spec_lower("volume is in use"@)) || spec_contains_seq(
        low,
        spec_lower("in use"@),
    ) {
        "IN_USE:O volume esta sendo usado por containers."@
    } else if spec_contains_seq(low, spec_lower("not found"@)) || spec_contains_seq(
        low,
        spec_lower("no such volume"@),
    ) {
        "OTHER_ERROR:Volume nao encontrado."@
    } else {
        "OTHER_ERROR:Nao foi possivel remover o volume: "@ + stderr
    }
}

/// Classifies the daemon's error output of a failed volume removal.
pub fn classify_remove_volume_error(stderr: &str) -> (r: String)
    ensures
        r@ == spec_classify_remove_volume(stderr@),
{
    if contains_insensitive(stderr, "volume is in use") || contains_insensitive(
        stderr,
        "in use",
    ) {
        "IN_USE:O volume esta sendo usado por containers.".to_owned()
    } else if contains_insensitive(stderr, "not found") || contains_insensitive(
        stderr,
        "no such volume",
    ) {
        "OTHER_ERROR:Volume nao encontrado.".to_owned()
    } else {
        let mut m = "OTHER_ERROR:Nao foi possivel remover o volume: ".to_owned();
        m.append(stderr);
        m
    }
}

/// Classification of a local daemon check from the two probe commands: the
/// version probe failing means not installed; a successful info probe means
/// running; then permission phrases decide between permission-denied and
/// not-running, with permission-denied as the fallback.
pub open spec fn spec_classify_docker_status(
    version_ok: bool,
    info_ok: bool,
    stderr: Seq<char>,
    stdout: Seq<char>,
) -> DockerStatus {
    if !version_ok {
        DockerStatus::NotInstalled
    } else if info_ok {
        DockerStatus::Running
    } else if spec_contains_seq(stderr, "permission denied"@) || spec_contains_seq(
        stderr,
        "Permission denied"@,
    ) || spec_contains_seq(stderr, "dial unix"@) || spec_contains_seq(
        stderr,
        "connect: permission denied"@,
    ) || spec_contains_seq(stderr, "Got permission denied while trying to connect"@)
        || spec_contains_seq(stdout, "permission denied"@) {
        DockerStatus::PermissionDenied
    } else if spec_contains_seq(stderr, "Cannot connect to the Docker daemon"@)
        || spec_contains_seq(stderr, "Is the docker daemon running?"@) || spec_contains_seq(
        stderr,
        "docker daemon is not running"@,
    ) {
        DockerStatus::NotRunning
    } else {
        DockerStatus::PermissionDenied
    }
}

/// Classifies the output of the local daemon probes into a status.
pub fn classify_docker_status(version_ok: bool, info_ok: bool, stderr: &str, stdout: &str) -> (r:
    DockerStatus)
    ensures
        r == spec_classify_docker_status(version_ok, info_ok, stderr@, stdout@),
{
    if !version_ok {
        DockerStatus::NotInstalled
    } else if info_ok {
        DockerStatus::Running
    } else if str_contains(stderr, "permission denied") || str_contains(
        stderr,
        "Permission denied",
    ) || str_contains(stderr, "dial unix") || str_contains(stderr, "connect: permission denied")
        || str_contains(stderr, "Got permission denied while trying to connect") || str_contains(
        stdout,
        "permission denied",
    ) {
        DockerStatus::PermissionDenied
    } else if str_contains(stderr, "Cannot connect to the Docker daemon") || str_contains(
        stderr,
        "Is the docker daemon running?",
    ) || str_contains(stderr, "docker daemon is not running") {
        DockerStatus::NotRunning
    } else {
        DockerStatus::PermissionDenied
    }
}

} // verus!
