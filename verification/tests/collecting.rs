use rsched::collector::{
    comm_bytes, comm_str, Drain, DrainAction, MigHist, MigrationCounts, RschedCollector, WithComm,
};
use rsched::hist::Hist;
use rsched::records::{
    CpuPerfDataFull, GenericPerfData, HistData, MigrationData, NrRunningData, TimesliceData,
    WakingData,
};

fn comm(name: &[u8]) -> [u8; 16] {
    let mut c = [0u8; 16];
    c[..name.len()].copy_from_slice(name);
    c
}

fn drained<T: Clone>(entries: &[(u32, Option<T>)]) -> Drain<T> {
    let keys = entries.iter().map(|e| Some(e.0)).collect();
    let mut drain = Drain::start(keys);
    let mut at = 0;
    loop {
        match drain.next() {
            DrainAction::Read(key) => {
                assert_eq!(key, entries[at].0);
                drain.took(entries[at].1.clone());
            }
            DrainAction::Remove(key) => {
                assert_eq!(key, entries[at].0);
                drain.removed();
                at += 1;
            }
            DrainAction::Done => break,
        }
    }
    assert_eq!(at, entries.len());
    drain
}

#[test]
fn command_names() {
    assert_eq!(comm_str(&comm(b"bash")), "bash");
    assert_eq!(comm_str(&comm(b"0123456789abcdef")), "0123456789abcdef");
    assert_eq!(comm_str(&comm(b"")), "");
    assert_eq!(comm_str(&comm(b"  kworker/0:1 ")), "kworker/0:1");
    assert_eq!(comm_str(&comm(b"a\0b")), "a");
    assert_eq!(comm_str(&comm("μs".as_bytes())), "μs");
    assert_eq!(comm_str(&comm(b"x\xff\xfey")), "x\u{fffd}\u{fffd}y");
    assert_eq!(comm_bytes(&comm(b"ab\0c")), vec![b'a', b'b']);
}

#[test]
fn names_are_clean_whatever_their_bytes() {
    for first in 0..=255u8 {
        for second in [0u8, 9, 0x20, 0x41, 0x80, 0xc2, 0xe0, 0xff] {
            let mut c = comm(b"??..");
            c[0] = first;
            c[1] = second;
            let s = comm_str(&c);
            assert!(!s.contains('\0'));
            assert_eq!(s.trim(), s);
        }
    }
}

#[test]
fn bytes_behind_a_zero_do_not_matter() {
    let plain = comm(b"ab");
    let mut noisy = plain;
    for (i, b) in noisy.iter_mut().enumerate().skip(3) {
        *b = (i * 37) as u8;
    }
    assert_eq!(comm_str(&plain), comm_str(&noisy));
    assert_eq!(comm_str(&noisy), "ab");
}

#[test]
fn an_undisturbed_table_is_collected_whole() {
    let mut table = std::collections::HashMap::new();
    for key in [3u32, 1, 4, 15] {
        let mut h = Hist::zero();
        h.slots[0] = key;
        table.insert(key, h);
    }
    for expected in [4, 0] {
        let before = table.clone();
        let mut drain = Drain::start(table.keys().map(|k| Some(*k)).collect());
        loop {
            match drain.next() {
                DrainAction::Read(key) => drain.took(table.get(&key).copied()),
                DrainAction::Remove(key) => {
                    table.remove(&key);
                    drain.removed();
                }
                DrainAction::Done => break,
            }
        }
        let map = RschedCollector::collect_cpu_histograms(&drain);
        assert_eq!(map.len(), expected);
        assert!(before.iter().all(|(k, h)| map[k].slots == h.slots));
        assert!(table.is_empty());
    }
}

#[test]
fn unreadable_keys_are_left_out() {
    let drain: Drain<Hist> = Drain::start(vec![None, Some(4), None, Some(2)]);
    assert!(drain.next() == DrainAction::Read(4));
}

#[test]
fn every_key_is_read_and_then_removed() {
    let mut drain: Drain<Hist> = Drain::start(vec![Some(1), Some(2)]);
    let mut seen = Vec::new();
    loop {
        let action = drain.next();
        match action {
            DrainAction::Read(_) => drain.took(None),
            DrainAction::Remove(_) => drain.removed(),
            DrainAction::Done => break,
        }
        seen.push(action);
    }
    assert!(
        seen == vec![
            DrainAction::Read(1),
            DrainAction::Remove(1),
            DrainAction::Read(2),
            DrainAction::Remove(2),
        ]
    );
}

#[test]
fn histograms_come_with_name_and_group() {
    let mut a = HistData::zero();
    a.hist.slots[3] = 5;
    a.comm = comm(b"init");
    a.cgroup_id = 77;
    let drain = drained(&[(1, Some(a)), (2, None)]);
    let map = RschedCollector::collect_histograms(&drain);
    assert_eq!(map.len(), 1);
    assert_eq!(map[&1].0.slots[3], 5);
    assert_eq!(map[&1].1, "init");
    assert_eq!(map[&1].2, 77);
    let map = RschedCollector::collect_sleep_durations(&drain);
    assert_eq!(map[&1].0.total_count(), 5);
}

#[test]
fn the_last_read_of_a_key_counts() {
    let mut a = MigrationData::zero();
    a.count = 1;
    let mut b = MigrationData::zero();
    b.count = 2;
    b.cross_ccx_count = 3;
    b.cross_numa_count = 4;
    let drain = drained(&[(9, Some(a)), (9, Some(b)), (9, None)]);
    let map = RschedCollector::collect_migration_counts(&drain);
    assert_eq!(map.len(), 1);
    assert_eq!(map[&9].0.total, 2);
    assert_eq!(map[&9].0.cross_ccx, 3);
    assert_eq!(map[&9].0.cross_numa, 4);
}

#[test]
fn plain_tables() {
    let mut h = Hist::zero();
    h.slots[1] = 8;
    let drain = drained(&[(0, Some(h)), (1, None), (2, Some(Hist::zero()))]);
    let map = RschedCollector::collect_cpu_histograms(&drain);
    assert_eq!(map.len(), 2);
    assert_eq!(map[&0].slots[1], 8);
    let map = RschedCollector::collect_cpu_idle_histograms(&drain);
    assert!(map.contains_key(&2));
    assert!(!map.contains_key(&1));
}

#[test]
fn the_other_tables() {
    let mut n = NrRunningData::zero();
    n.hist.slots[0] = 1;
    n.comm = comm(b"n");
    assert_eq!(RschedCollector::collect_nr_running_hists(&drained(&[(1, Some(n))]))[&1].1, "n");
    let mut w = WakingData::zero();
    w.cgroup_id = 5;
    assert_eq!(RschedCollector::collect_waking_delays(&drained(&[(1, Some(w))]))[&1].2, 5);
    let mut t = TimesliceData::zero();
    t.stats.involuntary_count = 6;
    let map = RschedCollector::collect_timeslice_stats(&drained(&[(1, Some(t))]));
    assert_eq!(map[&1].0.involuntary_count, 6);
    let mut c = CpuPerfDataFull::zero();
    c.data.sample_count = 7;
    assert_eq!(RschedCollector::collect_cpu_perf(&drained(&[(1, Some(c))]))[&1].0.sample_count, 7);
    let mut g = GenericPerfData::zero();
    g.counters[7] = 8;
    assert_eq!(RschedCollector::collect_generic_perf(&drained(&[(1, Some(g))]))[&1].0[7], 8);
    let _ = RschedCollector::new();
}

#[test]
fn records_give_up_their_parts() {
    let mut g = GenericPerfData::zero();
    g.counters[0] = 3;
    g.comm = comm(b"g ");
    g.cgroup_id = 4;
    assert_eq!(g.extract_data()[0], 3);
    assert_eq!(g.extract_comm(), "g");
    assert_eq!(g.extract_cgroup_id(), 4);
}

#[test]
fn migration_records_start_at_zero() {
    let h = MigHist::default();
    assert_eq!(h.slots.len(), 1025);
    assert!(h.clone().slots.iter().all(|s| *s == 0));
    assert_eq!(MigrationCounts::default().total, 0);
}
