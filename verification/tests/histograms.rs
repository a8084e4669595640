use rsched::hist::{hist_slot, log2_slot, log2_u32, log2_u64, Hist, MAX_SLOTS};
use rsched::records::{
    CpuPerfCtx, CpuPerfData, CpuPerfDataFull, GenericPerfCtx, GenericPerfData, HistData,
    MigrationData, NrRunningData, TimesliceData, TimesliceStats, WakingData,
};

#[test]
fn log2_of_small_and_large_values() {
    assert_eq!(log2_u64(0), 0);
    assert_eq!(log2_u64(1), 0);
    assert_eq!(log2_u64(2), 1);
    assert_eq!(log2_u64(3), 1);
    assert_eq!(log2_u64(1000), 9);
    assert_eq!(log2_u64(1 << 32), 32);
    assert_eq!(log2_u64(u64::MAX), 63);
    assert_eq!(log2_u32(0xFFFF_FFFF), 31);
    assert_eq!(log2_u32(0x1_0000_0000), 32);
    assert_eq!(log2_slot(u64::MAX), 63);
    assert_eq!(log2_slot(17), 4);
}

#[test]
fn log2_brackets_every_power_of_two() {
    for r in 0..64u32 {
        let v = 1u64 << r;
        assert_eq!(log2_u64(v), r);
        assert_eq!(log2_u32(v), r);
        if v > 2 {
            assert_eq!(log2_u64(v - 1), r - 1);
        }
    }
}

#[test]
fn slots_of_delays() {
    assert_eq!(hist_slot(0), 0);
    assert_eq!(hist_slot(9_999), 0);
    assert_eq!(hist_slot(10_000), 1);
    assert_eq!(hist_slot(499_999), 49);
    assert_eq!(hist_slot(500_000), 50);
    assert_eq!(hist_slot(511_999), 50);
    assert_eq!(hist_slot(512_000), 51);
    assert_eq!(hist_slot(1_023_999), 51);
    assert_eq!(hist_slot(1_024_000), 52);
    assert_eq!(hist_slot(u64::MAX), 63);
}

#[test]
fn slots_never_go_down() {
    let mut last = 0;
    for i in 0..20_000u64 {
        let slot = hist_slot(i * 997 * 13);
        assert!(slot >= last);
        assert!((slot as usize) < MAX_SLOTS);
        last = slot;
    }
}

#[test]
fn slot_ranges() {
    for slot in 0..50u64 {
        assert_eq!(hist_slot(slot * 10_000) as u64, slot);
        assert_eq!(hist_slot(slot * 10_000 + 9_999) as u64, slot);
    }
    for slot in 51..63u32 {
        let low = 1u64 << (slot - 42);
        assert_eq!(hist_slot(low * 1000), slot);
        assert_eq!(hist_slot((2 * low - 1) * 1000), slot);
    }
}

#[test]
fn the_edge_slots() {
    for us in 500..512u64 {
        assert_eq!(hist_slot(us * 1000), 50);
    }
    assert_eq!(hist_slot(((1 << 21) - 1) * 1000), 62);
    assert_eq!(hist_slot((1 << 21) * 1000), 63);
}

#[test]
fn merging_adds_slot_by_slot() {
    let mut a = Hist::zero();
    let mut b = Hist::default();
    a.slots[0] = 3;
    a.slots[63] = u32::MAX;
    b.slots[0] = 4;
    b.slots[7] = 9;
    let sum = a.total_count() + b.total_count();
    a.merge_from(&b);
    assert_eq!(a.slots[0], 7);
    assert_eq!(a.slots[7], 9);
    assert_eq!(a.slots[63], u32::MAX);
    assert_eq!(a.slots[1], 0);
    assert_eq!(a.total_count(), sum);
    assert_eq!(a.total_count(), u32::MAX as u64 + 16);
}

#[test]
fn an_empty_histogram_holds_nothing() {
    assert_eq!(Hist::zero().total_count(), 0);
    assert_eq!(Hist::default().total_count(), 0);
}

#[test]
fn a_full_histogram_does_not_run_over() {
    let h = Hist { slots: [u32::MAX; MAX_SLOTS] };
    assert_eq!(h.total_count(), 64 * (u32::MAX as u64));
}

#[test]
fn records_start_at_zero() {
    assert_eq!(HistData::zero().comm, [0; 16]);
    assert_eq!(HistData::zero().cgroup_id, 0);
    assert_eq!(HistData::zero().hist.total_count(), 0);
    assert_eq!(TimesliceStats::zero().involuntary_count, 0);
    assert_eq!(TimesliceStats::default().voluntary.total_count(), 0);
    assert_eq!(TimesliceData::zero().stats.involuntary.total_count(), 0);
    assert_eq!(NrRunningData::zero().hist.total_count(), 0);
    let m = MigrationData::zero();
    assert_eq!((m.count, m.cross_ccx_count, m.cross_numa_count, m.cgroup_id), (0, 0, 0, 0));
    assert_eq!(WakingData::zero().comm, [0; 16]);
    assert_eq!(CpuPerfData::zero().sample_count, 0);
    assert_eq!(CpuPerfData::default().total_kernel_instructions, 0);
    assert_eq!(CpuPerfDataFull::zero().data.total_user_cycles, 0);
    assert_eq!(CpuPerfCtx::zero().running_pid, 0);
    assert_eq!(GenericPerfData::zero().counters, [0; 8]);
    assert_eq!(GenericPerfCtx::zero().last_values, [0; 8]);
}
