//! Stats delta engine: turns two cumulative-counter snapshots into a CPU
//! percentage, with a per-container cache of the previous reading, a fallback
//! to the sidecar pre-stats bundled with the current reading, and an anomaly
//! guard against implausible values.
//!
//! Percentages are held in fixed point: `percent_milli` is the percentage
//! multiplied by 1000, so `80_000` means `80.0 %`.

use vstd::prelude::*;

verus! {

/// Cached counters from one earlier stats reading of a container.
#[derive(Debug, Clone, Copy, PartialEq, Eq, Structural)]
pub struct StatsSnapshot {
    pub timestamp: u64,
    pub cpu_total: u64,
    pub system_total: u64,
    pub network_rx: u64,
    pub network_tx: u64,
    pub block_read: u64,
    pub block_write: u64,
}

/// One raw stats reading for a container, already reduced to plain counters.
/// Missing fields of the underlying source arrive here as `0` (or `None` for
/// the online-CPU count), per the parser's defaulting rules.
#[derive(Debug, Clone)]
pub struct StatsReading {
    pub cpu_total: u64,
    pub system_total: u64,
    /// Sidecar pre-stats: the previous-period CPU counter bundled with the
    /// current reading by the stats source.
    pub precpu_total: u64,
    /// Sidecar pre-stats: the previous-period system counter.
    pub presystem_total: u64,
    pub online_cpus: Option<u64>,
    /// Per-core usage entries; empty when the source reports none.
    pub percpu: Vec<u64>,
    pub memory_usage: u64,
    pub memory_limit: u64,
    pub network_rx: u64,
    pub network_tx: u64,
    pub block_read: u64,
    pub block_write: u64,
}

/// Result of one CPU computation: the usage in milli-percent and the CPU
/// count it was scaled by (`0` when the reading was rejected as anomalous).
#[derive(Debug, Clone, Copy, PartialEq, Eq, Structural)]
pub struct CpuCalculate {
    pub percent_milli: u64,
    pub online_cpus: u64,
}

/// Saturating subtraction: a counter that moved backwards yields a delta of 0,
/// never an underflow.
pub open spec fn sat_sub(a: u64, b: u64) -> u64 {
    if a >= b {
        (a - b) as u64
    } else {
        0
    }
}

/// Deltas taken against the cached previous snapshot.
pub open spec fn spec_cache_deltas(prev: StatsSnapshot, r: StatsReading) -> (u64, u64) {
    (sat_sub(r.cpu_total, prev.cpu_total), sat_sub(r.system_total, prev.system_total))
}

/// Deltas taken against the sidecar pre-stats of the current reading.
pub open spec fn spec_sidecar_deltas(r: StatsReading) -> (u64, u64) {
    (sat_sub(r.cpu_total, r.precpu_total), sat_sub(r.system_total, r.presystem_total))
}

/// Sanity bound on cache-derived deltas: they are trusted only when the
/// system counter moved and the CPU delta is within 10x of the system delta.
pub open spec fn spec_cache_trusted(prev: StatsSnapshot, r: StatsReading) -> bool {
    let (cd, sd) = spec_cache_deltas(prev, r);
    sd > 0 && cd <= sd * 10
}

/// The deltas the engine actually uses: cached ones when present and sane,
/// sidecar pre-stats otherwise.
pub open spec fn spec_deltas(prev: Option<StatsSnapshot>, r: StatsReading) -> (u64, u64) {
    match prev {
        Some(p) => if spec_cache_trusted(p, r) {
            spec_cache_deltas(p, r)
        } else {
            spec_sidecar_deltas(r)
        },
        None => spec_sidecar_deltas(r),
    }
}

/// Number of per-core usage entries that are non-zero.
pub open spec fn spec_active_core_count(s: Seq<u64>) -> nat
    decreases s.len(),
{
    if s.len() == 0 {
        0
    } else {
        spec_active_core_count(s.drop_last()) + if s.last() > 0 {
            1nat
        } else {
            0nat
        }
    }
}

/// Cap on the CPU count so that fixed-point arithmetic cannot overflow.
pub open spec fn spec_cpu_cap() -> u64 {
    0xFFFF_FFFF
}

/// The CPU count used for scaling: the reported online-CPU count if present,
/// else the number of active per-core entries, else 1; capped at `u32::MAX`.
pub open spec fn spec_num_cpus(r: StatsReading) -> u64 {
    let raw: nat = match r.online_cpus {
        Some(n) => n as nat,
        None => if spec_active_core_count(r.percpu@) == 0 {
            1
        } else {
            spec_active_core_count(r.percpu@)
        },
    };
    if raw > spec_cpu_cap() {
        spec_cpu_cap()
    } else {
        raw as u64
    }
}

/// The full CPU computation: deltas, scaling, the zero cases, and the anomaly
/// guard. The result is always within `[0, online_cpus * 100_000]`.
pub open spec fn spec_compute_cpu(prev: Option<StatsSnapshot>, r: StatsReading) -> CpuCalculate {
    let (cd, sd) = spec_deltas(prev, r);
    let n = spec_num_cpus(r);
    if sd == 0 || cd == 0 {
        CpuCalculate { percent_milli: 0, online_cpus: n }
    } else {
        let p = (cd * n * 100_000) / (sd as int);
        if p > n * 100_000 {
            CpuCalculate { percent_milli: 0, online_cpus: 0 }
        } else {
            CpuCalculate { percent_milli: p as u64, online_cpus: n }
        }
    }
}

/// The snapshot that the cache keeps after a reading was processed.
pub open spec fn spec_snapshot_of(r: StatsReading, now: u64) -> StatsSnapshot {
    StatsSnapshot {
        timestamp: now,
        cpu_total: r.cpu_total,
        system_total: r.system_total,
        network_rx: r.network_rx,
        network_tx: r.network_tx,
        block_read: r.block_read,
        block_write: r.block_write,
    }
}

impl StatsReading {
    /// The snapshot that will replace the cache entry for this reading.
    pub fn to_snapshot(&self, now: u64) -> (s: StatsSnapshot)
        ensures
            s == spec_snapshot_of(*self, now),
    {
        StatsSnapshot {
            timestamp: now,
            cpu_total: self.cpu_total,
            system_total: self.system_total,
            network_rx: self.network_rx,
            network_tx: self.network_tx,
            block_read: self.block_read,
            block_write: self.block_write,
        }
    }
}

fn saturating_sub_u64(a: u64, b: u64) -> (r: u64)
    ensures
        r == sat_sub(a, b),
{
    if a >= b {
        a - b
    } else {
        0
    }
}

fn active_core_count(percpu: &Vec<u64>) -> (n: u64)
    ensures
        n as nat == spec_active_core_count(percpu@) || (n == u64::MAX && spec_active_core_count(
            percpu@,
        ) >= u64::MAX),
{
    let mut count: u64 = 0;
    let mut i: usize = 0;
    while i < percpu.len()
        invariant
            i <= percpu@.len(),
            count as nat == spec_active_core_count(percpu@.take(i as int)) || (count == u64::MAX
                && spec_active_core_count(percpu@.take(i as int)) >= u64::MAX),
        decreases percpu@.len() - i,
    {
        proof {
            assert(percpu@.take(i as int + 1).drop_last() =~= percpu@.take(i as int));
            assert(percpu@.take(i as int + 1).last() == percpu@[i as int]);
        }
        if percpu[i] > 0 && count < u64::MAX {
            count = count + 1;
        }
        i = i + 1;
    }
    proof {
        assert(percpu@.take(percpu@.len() as int) =~= percpu@);
    }
    count
}

/// The CPU count used for scaling this reading, per `spec_num_cpus`.
pub fn num_cpus_of(r: &StatsReading) -> (n: u64)
    ensures
        n == spec_num_cpus(*r),
{
    let raw: u64 = match r.online_cpus {
        Some(n) => n,
        None => {
            let active = active_core_count(&r.percpu);
            if active == 0 {
                1
            } else {
                active
            }
        },
    };
    if raw > 0xFFFF_FFFF {
        0xFFFF_FFFF
    } else {
        raw
    }
}

/// Computes the CPU percentage of one reading against an optional cached
/// previous snapshot. Pure: the caller owns the cache update.
pub fn compute_cpu(prev: Option<StatsSnapshot>, r: &StatsReading) -> (c: CpuCalculate)
    ensures
        c == spec_compute_cpu(prev, *r),
        c.percent_milli <= c.online_cpus * 100_000,
{
    let n = num_cpus_of(r);
    let (cd, sd) = match &prev {
        Some(p) => {
            let cache_cd = saturating_sub_u64(r.cpu_total, p.cpu_total);
            let cache_sd = saturating_sub_u64(r.system_total, p.system_total);
            if cache_sd > 0 && cache_cd as u128 <= cache_sd as u128 * 10 {
                (cache_cd, cache_sd)
            } else {
                (
                    saturating_sub_u64(r.cpu_total, r.precpu_total),
                    saturating_sub_u64(r.system_total, r.presystem_total),
                )
            }
        },
        None => (
            saturating_sub_u64(r.cpu_total, r.precpu_total),
            saturating_sub_u64(r.system_total, r.presystem_total),
        ),
    };
    if sd == 0 || cd == 0 {
        CpuCalculate { percent_milli: 0, online_cpus: n }
    } else {
        proof {
            assert(cd as int * n as int <= 0xFFFF_FFFF_FFFF_FFFFu64 as int * 0xFFFF_FFFFu64 as int)
                by (nonlinear_arith)
                requires
                    cd <= 0xFFFF_FFFF_FFFF_FFFFu64,
                    n <= 0xFFFF_FFFFu64,
            ;
            assert((cd as int * n as int) * 100_000 <= (0xFFFF_FFFF_FFFF_FFFFu64 as int
                * 0xFFFF_FFFFu64 as int) * 100_000) by (nonlinear_arith)
                requires
                    cd as int * n as int <= 0xFFFF_FFFF_FFFF_FFFFu64 as int * 0xFFFF_FFFFu64 as int,
            ;
        }
        let wide: u128 = cd as u128 * n as u128 * 100_000u128;
        let p: u128 = wide / (sd as u128);
        assert(p == (cd * n * 100_000) / (sd as int)) by (nonlinear_arith)
            requires
                sd > 0,
                wide == cd * n * 100_000,
                p == wide as int / (sd as int),
        ;
        if p > n as u128 * 100_000u128 {
            CpuCalculate { percent_milli: 0, online_cpus: 0 }
        } else {
            CpuCalculate { percent_milli: p as u64, online_cpus: n }
        }
    }
}

/// The association-list map underlying the cache: later entries win.
pub open spec fn assoc_map(es: Seq<(String, StatsSnapshot)>) -> Map<Seq<char>, StatsSnapshot>
    decreases es.len(),
{
    if es.len() == 0 {
        Map::empty()
    } else {
        assoc_map(es.drop_last()).insert(es.last().0@, es.last().1)
    }
}

/// No two entries share a key.
pub open spec fn unique_keys(es: Seq<(String, StatsSnapshot)>) -> bool {
    forall|i: int, j: int| 0 <= i < j < es.len() ==> es[i].0@ != es[j].0@
}

proof fn lemma_assoc_absent(es: Seq<(String, StatsSnapshot)>, k: Seq<char>)
    requires
        forall|i: int| 0 <= i < es.len() ==> es[i].0@ != k,
    ensures
        !assoc_map(es).contains_key(k),
    decreases es.len(),
{
    if es.len() > 0 {
        lemma_assoc_absent(es.drop_last(), k);
    }
}

proof fn lemma_assoc_find(es: Seq<(String, StatsSnapshot)>, i: int)
    requires
        unique_keys(es),
        0 <= i < es.len(),
    ensures
        assoc_map(es).contains_key(es[i].0@),
        assoc_map(es)[es[i].0@] == es[i].1,
    decreases es.len(),
{
    if i < es.len() - 1 {
        lemma_assoc_find(es.drop_last(), i);
        assert(es.last().0@ != es[i].0@);
    }
}

proof fn lemma_assoc_remove(es: Seq<(String, StatsSnapshot)>, i: int)
    requires
        unique_keys(es),
        0 <= i < es.len(),
    ensures
        assoc_map(es.remove(i)) =~= assoc_map(es).remove(es[i].0@),
    decreases es.len(),
{
    let k = es[i].0@;
    if i == es.len() - 1 {
        assert(es.remove(i) =~= es.drop_last());
        lemma_assoc_absent(es.drop_last(), k);
        assert(assoc_map(es.drop_last()).insert(k, es[i].1).remove(k) =~= assoc_map(
            es.drop_last(),
        ));
    } else {
        lemma_assoc_remove(es.drop_last(), i);
        assert(es.remove(i).drop_last() =~= es.drop_last().remove(i));
        assert(es.remove(i).last() == es.last());
        assert(es.last().0@ != k);
        assert(assoc_map(es.remove(i)) == assoc_map(es.drop_last().remove(i)).insert(
            es.last().0@,
            es.last().1,
        ));
        assert(assoc_map(es.drop_last()).remove(k).insert(es.last().0@, es.last().1)
            =~= assoc_map(es.drop_last()).insert(es.last().0@, es.last().1).remove(k));
    }
}

/// Per-container cache of the most recent counter snapshot, keyed by the
/// container id. Viewed as a map from the id's characters to the snapshot.
pub struct PreviousStatsCache {
    entries: Vec<(String, StatsSnapshot)>,
}

impl View for PreviousStatsCache {
    type V = Map<Seq<char>, StatsSnapshot>;

    closed spec fn view(&self) -> Map<Seq<char>, StatsSnapshot> {
        assoc_map(self.entries@)
    }
}

impl PreviousStatsCache {
    #[verifier::type_invariant]
    spec fn inv(&self) -> bool {
        unique_keys(self.entries@)
    }

    /// An empty cache.
    pub fn new() -> (c: Self)
        ensures
            c@ == Map::<Seq<char>, StatsSnapshot>::empty(),
    {
        PreviousStatsCache { entries: Vec::new() }
    }

    /// Drops every entry; the cache is empty afterwards.
    pub fn clear(&mut self)
        ensures
            final(self)@ == Map::<Seq<char>, StatsSnapshot>::empty(),
    {
        let mut es: Vec<(String, StatsSnapshot)> = Vec::new();
        core::mem::swap(&mut es, &mut self.entries);
        es.clear();
        self.entries = es;
    }

    /// Looks up the cached snapshot for a container id.
    pub fn get(&self, id: &str) -> (r: Option<StatsSnapshot>)
        ensures
            match r {
                Some(s) => self@.contains_key(id@) && s == self@[id@],
                None => !self@.contains_key(id@),
            },
    {
        proof {
            use_type_invariant(self);
        }
        let n = self.entries.len();
        let mut i: usize = 0;
        while i < n
            invariant
                n == self.entries@.len(),
                unique_keys(self.entries@),
                self@ == assoc_map(self.entries@),
                i <= n,
                forall|j: int| 0 <= j < i ==> self.entries@[j].0@ != id@,
            decreases n - i,
        {
            if crate::strutil::str_eq(self.entries[i].0.as_str(), id) {
                proof {
                    lemma_assoc_find(self.entries@, i as int);
                }
                return Some(self.entries[i].1);
            }
            i = i + 1;
        }
        proof {
            lemma_assoc_absent(self.entries@, id@);
        }
        None
    }

    /// Stores (or replaces) the snapshot for a container id.
    pub fn insert(&mut self, id: &str, snap: StatsSnapshot)
        ensures
            final(self)@ == old(self)@.insert(id@, snap),
    {
        proof {
            use_type_invariant(&*self);
        }
        let ghost e0 = self.entries@;
        let mut es: Vec<(String, StatsSnapshot)> = Vec::new();
        core::mem::swap(&mut es, &mut self.entries);
        let n = es.len();
        let mut i: usize = 0;
        let mut found: Option<usize> = None;
        while i < n
            invariant
                n == es@.len(),
                i <= n,
                match found {
                    Some(fi) => fi < i && es@[fi as int].0@ == id@,
                    None => forall|j: int| 0 <= j < i ==> es@[j].0@ != id@,
                },
            decreases n - i,
        {
            if found.is_none() && crate::strutil::str_eq(es[i].0.as_str(), id) {
                found = Some(i);
            }
            i = i + 1;
        }
        match found {
            Some(fi) => {
                proof {
                    lemma_assoc_remove(e0, fi as int);
                }
                let _ = es.remove(fi);
                proof {
                    assert forall|j: int| 0 <= j < es@.len() implies es@[j].0@ != id@ by {
                        if j < fi {
                            assert(es@[j] == e0[j]);
                        } else {
                            assert(es@[j] == e0[j + 1]);
                        }
                    }
                    assert forall|a: int, b: int| 0 <= a < b < es@.len() implies es@[a].0@
                        != es@[b].0@ by {
                        let a0 = if a < fi {
                            a
                        } else {
                            a + 1
                        };
                        let b0 = if b < fi {
                            b
                        } else {
                            b + 1
                        };
                        assert(es@[a] == e0[a0]);
                        assert(es@[b] == e0[b0]);
                    }
                }
                let ghost e1 = es@;
                es.push((id.to_owned(), snap));
                proof {
                    assert(es@.drop_last() =~= e1);
                    lemma_assoc_absent(e1, id@);
                    assert(assoc_map(es@) == assoc_map(e1).insert(id@, snap));
                    assert(assoc_map(e1).insert(id@, snap) =~= assoc_map(e0).insert(id@, snap));
                }
            },
            None => {
                let ghost e1 = es@;
                es.push((id.to_owned(), snap));
                proof {
                    assert(es@.drop_last() =~= e1);
                    assert(assoc_map(es@) == assoc_map(e1).insert(id@, snap));
                }
            },
        }
        self.entries = es;
    }

    /// Processes one stats reading for a container: computes the CPU figure
    /// against the cached previous snapshot and always overwrites the cache
    /// entry with the new reading, whichever branch produced the figure.
    pub fn observe(&mut self, id: &str, r: &StatsReading, now: u64) -> (c: CpuCalculate)
        ensures
            c == spec_compute_cpu(
                if old(self)@.contains_key(id@) {
                    Some(old(self)@[id@])
                } else {
                    None
                },
                *r,
            ),
            final(self)@ == old(self)@.insert(id@, spec_snapshot_of(*r, now)),
            c.percent_milli <= c.online_cpus * 100_000,
    {
        let prev = self.get(id);
        let c = compute_cpu(prev, r);
        self.insert(id, r.to_snapshot(now));
        c
    }
}

/// Law: whatever the counters hold, the deltas are saturating (never below
/// zero) and the reported usage never exceeds `online_cpus * 100 %`.
pub proof fn lemma_cpu_percent_bounded(prev: Option<StatsSnapshot>, r: StatsReading)
    ensures
        spec_compute_cpu(prev, r).percent_milli <= spec_compute_cpu(prev, r).online_cpus * 100_000,
        spec_deltas(prev, r).0 >= 0 && spec_deltas(prev, r).1 >= 0,
{
}

/// Law: a zero system delta reports exactly 0 %, whatever the CPU delta.
pub proof fn lemma_zero_system_delta_zero_percent(prev: Option<StatsSnapshot>, r: StatsReading)
    requires
        spec_deltas(prev, r).1 == 0,
    ensures
        spec_compute_cpu(prev, r).percent_milli == 0,
{
}

/// Law: when a cache entry exists but fails the sanity bound, the engine
/// computes exactly what the sidecar pre-stats alone would give.
pub proof fn lemma_sanity_violation_uses_sidecar(prev: StatsSnapshot, r: StatsReading)
    requires
        !spec_cache_trusted(prev, r),
    ensures
        spec_compute_cpu(Some(prev), r) == spec_compute_cpu(None, r),
{
}

} // verus!
