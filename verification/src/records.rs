//! The records that the kernel side fills, one per task or per CPU.
use crate::hist::{Hist, MAX_SLOTS};
use vstd::prelude::*;

verus! {

/// Length of a task's command name, padding included.
pub const TASK_COMM_LEN: usize = 16;

/// Number of CPUs that the kernel side keeps room for.
pub const MAX_CPUS: usize = 1024;

/// Number of selectable events that the kernel side keeps room for.
pub const MAX_GENERIC_EVENTS: usize = 8;

/// A histogram without samples.
pub open spec fn is_zero_hist(h: Hist) -> bool {
    h@ == Seq::new(MAX_SLOTS as nat, |i: int| 0u32)
}

/// A command name of padding alone.
pub open spec fn is_zero_comm(comm: [u8; TASK_COMM_LEN]) -> bool {
    comm@ == Seq::new(TASK_COMM_LEN as nat, |i: int| 0u8)
}

/// Event counters at zero.
pub open spec fn is_zero_counters(counters: [u64; MAX_GENERIC_EVENTS]) -> bool {
    counters@ == Seq::new(MAX_GENERIC_EVENTS as nat, |i: int| 0u64)
}

fn zero_comm() -> (comm: [u8; TASK_COMM_LEN])
    ensures
        is_zero_comm(comm),
{
    let comm: [u8; TASK_COMM_LEN] = [0; 16];
    assert(comm@ =~= Seq::new(TASK_COMM_LEN as nat, |i: int| 0u8));
    comm
}

fn zero_counters() -> (counters: [u64; MAX_GENERIC_EVENTS])
    ensures
        is_zero_counters(counters),
{
    let counters: [u64; MAX_GENERIC_EVENTS] = [0; 8];
    assert(counters@ =~= Seq::new(MAX_GENERIC_EVENTS as nat, |i: int| 0u64));
    counters
}

/// A task's histogram, as the kernel side stores it.
#[derive(Copy, Clone)]
pub struct HistData {
    pub hist: Hist,
    pub comm: [u8; TASK_COMM_LEN],
    pub cgroup_id: u64,
}

impl HistData {
    /// Every part of the record is zero.
    pub open spec fn is_zero(self) -> bool {
        &&& is_zero_hist(self.hist)
        &&& is_zero_comm(self.comm)
        &&& self.cgroup_id == 0
    }

    /// The record before any sample.
    pub fn zero() -> (r: Self)
        ensures
            r.is_zero(),
    {
        HistData {
            hist: Hist::zero(),
            comm: zero_comm(),
            cgroup_id: 0,
        }
    }
}

/// How long a task ran, apart by how the run ended.
#[derive(Copy, Clone)]
pub struct TimesliceStats {
    pub voluntary: Hist,
    pub involuntary: Hist,
    pub involuntary_count: u64,
}

impl TimesliceStats {
    /// Every part of the record is zero.
    pub open spec fn is_zero(self) -> bool {
        &&& is_zero_hist(self.voluntary)
        &&& is_zero_hist(self.involuntary)
        &&& self.involuntary_count == 0
    }

    /// The record before any sample.
    pub fn zero() -> (r: Self)
        ensures
            r.is_zero(),
    {
        TimesliceStats {
            voluntary: Hist::zero(),
            involuntary: Hist::zero(),
            involuntary_count: 0,
        }
    }
}

impl Default for TimesliceStats {
    fn default() -> (r: Self)
        ensures
            r.is_zero(),
    {
        TimesliceStats::zero()
    }
}

/// A task's time slices, as the kernel side stores them.
#[derive(Copy, Clone)]
pub struct TimesliceData {
    pub stats: TimesliceStats,
    pub comm: [u8; TASK_COMM_LEN],
    pub cgroup_id: u64,
}

impl TimesliceData {
    /// Every part of the record is zero.
    pub open spec fn is_zero(self) -> bool {
        &&& self.stats.is_zero()
        &&& is_zero_comm(self.comm)
        &&& self.cgroup_id == 0
    }

    /// The record before any sample.
    pub fn zero() -> (r: Self)
        ensures
            r.is_zero(),
    {
        TimesliceData {
            stats: TimesliceStats::zero(),
            comm: zero_comm(),
            cgroup_id: 0,
        }
    }
}

/// The run queue lengths that a task met.
#[derive(Copy, Clone)]
pub struct NrRunningData {
    pub hist: Hist,
    pub comm: [u8; TASK_COMM_LEN],
    pub cgroup_id: u64,
}

impl NrRunningData {
    /// Every part of the record is zero.
    pub open spec fn is_zero(self) -> bool {
        &&& is_zero_hist(self.hist)
        &&& is_zero_comm(self.comm)
        &&& self.cgroup_id == 0
    }

    /// The record before any sample.
    pub fn zero() -> (r: Self)
        ensures
            r.is_zero(),
    {
        NrRunningData {
            hist: Hist::zero(),
            comm: zero_comm(),
            cgroup_id: 0,
        }
    }
}

/// How often a task changed CPU.
#[derive(Copy, Clone)]
pub struct MigrationData {
    pub count: u64,
    pub cross_ccx_count: u64,
    pub cross_numa_count: u64,
    pub comm: [u8; TASK_COMM_LEN],
    pub cgroup_id: u64,
}

impl MigrationData {
    /// Every part of the record is zero.
    pub open spec fn is_zero(self) -> bool {
        &&& self.count == 0
        &&& self.cross_ccx_count == 0
        &&& self.cross_numa_count == 0
        &&& is_zero_comm(self.comm)
        &&& self.cgroup_id == 0
    }

    /// The record before any sample.
    pub fn zero() -> (r: Self)
        ensures
            r.is_zero(),
    {
        MigrationData {
            count: 0,
            cross_ccx_count: 0,
            cross_numa_count: 0,
            comm: zero_comm(),
            cgroup_id: 0,
        }
    }
}

/// The delays from waking to wakeup of a task.
#[derive(Copy, Clone)]
pub struct WakingData {
    pub hist: Hist,
    pub comm: [u8; TASK_COMM_LEN],
    pub cgroup_id: u64,
}

impl WakingData {
    /// Every part of the record is zero.
    pub open spec fn is_zero(self) -> bool {
        &&& is_zero_hist(self.hist)
        &&& is_zero_comm(self.comm)
        &&& self.cgroup_id == 0
    }

    /// The record before any sample.
    pub fn zero() -> (r: Self)
        ensures
            r.is_zero(),
    {
        WakingData {
            hist: Hist::zero(),
            comm: zero_comm(),
            cgroup_id: 0,
        }
    }
}

/// Cycles and instructions of a task.
#[derive(Copy, Clone)]
pub struct CpuPerfData {
    pub user_cycles_hist: Hist,
    pub kernel_cycles_hist: Hist,
    pub total_user_cycles: u64,
    pub total_kernel_cycles: u64,
    pub total_user_instructions: u64,
    pub total_kernel_instructions: u64,
    pub sample_count: u64,
}

impl CpuPerfData {
    /// Every part of the record is zero.
    pub open spec fn is_zero(self) -> bool {
        &&& is_zero_hist(self.user_cycles_hist)
        &&& is_zero_hist(self.kernel_cycles_hist)
        &&& self.total_user_cycles == 0
        &&& self.total_kernel_cycles == 0
        &&& self.total_user_instructions == 0
        &&& self.total_kernel_instructions == 0
        &&& self.sample_count == 0
    }

    /// The record before any sample.
    pub fn zero() -> (r: Self)
        ensures
            r.is_zero(),
    {
        CpuPerfData {
            user_cycles_hist: Hist::zero(),
            kernel_cycles_hist: Hist::zero(),
            total_user_cycles: 0,
            total_kernel_cycles: 0,
            total_user_instructions: 0,
            total_kernel_instructions: 0,
            sample_count: 0,
        }
    }
}

impl Default for CpuPerfData {
    fn default() -> (r: Self)
        ensures
            r.is_zero(),
    {
        CpuPerfData::zero()
    }
}

/// Cycles and instructions of a task, as the kernel side stores them.
#[derive(Copy, Clone)]
pub struct CpuPerfDataFull {
    pub data: CpuPerfData,
    pub comm: [u8; TASK_COMM_LEN],
    pub cgroup_id: u64,
}

impl CpuPerfDataFull {
    /// Every part of the record is zero.
    pub open spec fn is_zero(self) -> bool {
        &&& self.data.is_zero()
        &&& is_zero_comm(self.comm)
        &&& self.cgroup_id == 0
    }

    /// The record before any sample.
    pub fn zero() -> (r: Self)
        ensures
            r.is_zero(),
    {
        CpuPerfDataFull {
            data: CpuPerfData::zero(),
            comm: zero_comm(),
            cgroup_id: 0,
        }
    }
}

/// The counter values at the last switch on a CPU.
#[derive(Copy, Clone)]
pub struct CpuPerfCtx {
    pub last_user_cycles: u64,
    pub last_kernel_cycles: u64,
    pub last_user_instructions: u64,
    pub last_kernel_instructions: u64,
    pub running_pid: u32,
}

impl CpuPerfCtx {
    /// Every part of the record is zero.
    pub open spec fn is_zero(self) -> bool {
        &&& self.last_user_cycles == 0
        &&& self.last_kernel_cycles == 0
        &&& self.last_user_instructions == 0
        &&& self.last_kernel_instructions == 0
        &&& self.running_pid == 0
    }

    /// The record before any sample.
    pub fn zero() -> (r: Self)
        ensures
            r.is_zero(),
    {
        CpuPerfCtx {
            last_user_cycles: 0,
            last_kernel_cycles: 0,
            last_user_instructions: 0,
            last_kernel_instructions: 0,
            running_pid: 0,
        }
    }
}

/// The selected events of a task, as the kernel side stores them.
#[derive(Copy, Clone)]
pub struct GenericPerfData {
    pub counters: [u64; MAX_GENERIC_EVENTS],
    pub comm: [u8; TASK_COMM_LEN],
    pub cgroup_id: u64,
}

impl GenericPerfData {
    /// Every part of the record is zero.
    pub open spec fn is_zero(self) -> bool {
        &&& is_zero_counters(self.counters)
        &&& is_zero_comm(self.comm)
        &&& self.cgroup_id == 0
    }

    /// The record before any sample.
    pub fn zero() -> (r: Self)
        ensures
            r.is_zero(),
    {
        GenericPerfData {
            counters: zero_counters(),
            comm: zero_comm(),
            cgroup_id: 0,
        }
    }
}

/// The values of the selected events at the last switch on a CPU.
#[derive(Copy, Clone)]
pub struct GenericPerfCtx {
    pub last_values: [u64; MAX_GENERIC_EVENTS],
    pub running_pid: u32,
}

impl GenericPerfCtx {
    /// Every part of the record is zero.
    pub open spec fn is_zero(self) -> bool {
        &&& is_zero_counters(self.last_values)
        &&& self.running_pid == 0
    }

    /// The record before any sample.
    pub fn zero() -> (r: Self)
        ensures
            r.is_zero(),
    {
        GenericPerfCtx {
            last_values: zero_counters(),
            running_pid: 0,
        }
    }
}

/// Every number of a `HistData` before any sample is zero.
pub proof fn law_zero_hist_data(r: HistData)
    requires
        r.is_zero(),
    ensures
        forall|n: int| 0 <= n < 64 ==> #[trigger] r.hist.slots@[n] == 0,
        forall|n: int| 0 <= n < 16 ==> #[trigger] r.comm@[n] == 0,
        r.cgroup_id == 0,
{
}

/// Every number of a `TimesliceStats` before any sample is zero.
pub proof fn law_zero_timeslice_stats(r: TimesliceStats)
    requires
        r.is_zero(),
    ensures
        forall|n: int| 0 <= n < 64 ==> #[trigger] r.voluntary.slots@[n] == 0,
        forall|n: int| 0 <= n < 64 ==> #[trigger] r.involuntary.slots@[n] == 0,
        r.involuntary_count == 0,
{
}

/// Every number of a `TimesliceData` before any sample is zero.
pub proof fn law_zero_timeslice_data(r: TimesliceData)
    requires
        r.is_zero(),
    ensures
        forall|n: int| 0 <= n < 64 ==> #[trigger] r.stats.voluntary.slots@[n] == 0,
        forall|n: int| 0 <= n < 64 ==> #[trigger] r.stats.involuntary.slots@[n] == 0,
        r.stats.involuntary_count == 0,
        forall|n: int| 0 <= n < 16 ==> #[trigger] r.comm@[n] == 0,
        r.cgroup_id == 0,
{
}

/// Every number of a `NrRunningData` before any sample is zero.
pub proof fn law_zero_nr_running_data(r: NrRunningData)
    requires
        r.is_zero(),
    ensures
        forall|n: int| 0 <= n < 64 ==> #[trigger] r.hist.slots@[n] == 0,
        forall|n: int| 0 <= n < 16 ==> #[trigger] r.comm@[n] == 0,
        r.cgroup_id == 0,
{
}

/// Every number of a `MigrationData` before any sample is zero.
pub proof fn law_zero_migration_data(r: MigrationData)
    requires
        r.is_zero(),
    ensures
        r.count == 0,
        r.cross_ccx_count == 0,
        r.cross_numa_count == 0,
        forall|n: int| 0 <= n < 16 ==> #[trigger] r.comm@[n] == 0,
        r.cgroup_id == 0,
{
}

/// Every number of a `WakingData` before any sample is zero.
pub proof fn law_zero_waking_data(r: WakingData)
    requires
        r.is_zero(),
    ensures
        forall|n: int| 0 <= n < 64 ==> #[trigger] r.hist.slots@[n] == 0,
        forall|n: int| 0 <= n < 16 ==> #[trigger] r.comm@[n] == 0,
        r.cgroup_id == 0,
{
}

/// Every number of a `CpuPerfData` before any sample is zero.
pub proof fn law_zero_cpu_perf_data(r: CpuPerfData)
    requires
        r.is_zero(),
    ensures
        forall|n: int| 0 <= n < 64 ==> #[trigger] r.user_cycles_hist.slots@[n] == 0,
        forall|n: int| 0 <= n < 64 ==> #[trigger] r.kernel_cycles_hist.slots@[n] == 0,
        r.total_user_cycles == 0,
        r.total_kernel_cycles == 0,
        r.total_user_instructions == 0,
        r.total_kernel_instructions == 0,
        r.sample_count == 0,
{
}

/// Every number of a `CpuPerfDataFull` before any sample is zero.
pub proof fn law_zero_cpu_perf_data_full(r: CpuPerfDataFull)
    requires
        r.is_zero(),
    ensures
        forall|n: int| 0 <= n < 64 ==> #[trigger] r.data.user_cycles_hist.slots@[n] == 0,
        forall|n: int| 0 <= n < 64 ==> #[trigger] r.data.kernel_cycles_hist.slots@[n] == 0,
        r.data.total_user_cycles == 0,
        r.data.total_kernel_cycles == 0,
        r.data.total_user_instructions == 0,
        r.data.total_kernel_instructions == 0,
        r.data.sample_count == 0,
        forall|n: int| 0 <= n < 16 ==> #[trigger] r.comm@[n] == 0,
        r.cgroup_id == 0,
{
}

/// Every number of a `CpuPerfCtx` before any sample is zero.
pub proof fn law_zero_cpu_perf_ctx(r: CpuPerfCtx)
    requires
        r.is_zero(),
    ensures
        r.last_user_cycles == 0,
        r.last_kernel_cycles == 0,
        r.last_user_instructions == 0,
        r.last_kernel_instructions == 0,
        r.running_pid == 0,
{
}

/// Every number of a `GenericPerfData` before any sample is zero.
pub proof fn law_zero_generic_perf_data(r: GenericPerfData)
    requires
        r.is_zero(),
    ensures
        forall|n: int| 0 <= n < 8 ==> #[trigger] r.counters@[n] == 0,
        forall|n: int| 0 <= n < 16 ==> #[trigger] r.comm@[n] == 0,
        r.cgroup_id == 0,
{
}

/// Every number of a `GenericPerfCtx` before any sample is zero.
pub proof fn law_zero_generic_perf_ctx(r: GenericPerfCtx)
    requires
        r.is_zero(),
    ensures
        forall|n: int| 0 <= n < 8 ==> #[trigger] r.last_values@[n] == 0,
        r.running_pid == 0,
{
}

} // verus!
