use rsched::events::EventPlan;
use rsched::groups::MetricGroups;
use rsched::run_loop::{runtime_message, LoopAction, RunLoop};
use rsched::session::{
    due_readings, due_setups, generic_table, ipc_table, Options, OutputMode, Reading, Table,
};
use rsched::trace::{tracepoints, AttachAction, Attaching, Tracepoint};

const SEC: u128 = 1_000_000_000;

fn options() -> Options {
    Options {
        comm: vec![],
        global_comm: vec![],
        cgroup: vec![],
        pid: None,
        min_latency: None,
        no_collapse: false,
        detailed: false,
        run_time: None,
        group: vec!["latency".to_string()],
    }
}

fn latency() -> MetricGroups {
    let mut m = MetricGroups::default();
    assert!(m.select("latency", &Ok(())).is_ok());
    m
}

/// Runs one round without a limit in sight, and gives what is collected.
fn round(run: &mut RunLoop, elapsed: u128) -> LoopAction {
    assert!(run.advance(elapsed) == LoopAction::ReadClock);
    assert!(matches!(run.advance(elapsed), LoopAction::Sleep(_)));
    run.advance(elapsed)
}

#[test]
fn every_tick_shows_where_nothing_is_due_every_second() {
    let mut run = RunLoop::new(5, None, false, false);
    assert!(run.advance(0) == LoopAction::ReadClock);
    assert!(run.advance(0) == LoopAction::Sleep(5 * SEC));
    assert!(run.advance(5 * SEC) == LoopAction::Collect { show: true });
    assert!(round(&mut run, 6 * SEC) == LoopAction::Collect { show: true });
}

#[test]
fn displays_come_every_interval() {
    let mut run = RunLoop::new(3, None, true, false);
    for tick in 1..=12 {
        assert!(round(&mut run, 0) == LoopAction::Collect { show: tick % 3 == 0 });
    }
    let mut run = RunLoop::new(0, None, false, true);
    assert!(round(&mut run, 0) == LoopAction::Collect { show: true });
    let mut run = RunLoop::new(1, None, true, true);
    assert!(round(&mut run, 0) == LoopAction::Collect { show: true });
    assert!(round(&mut run, 0) == LoopAction::Collect { show: true });
}

#[test]
fn an_interval_of_zero_ends_the_run() {
    let mut run = RunLoop::new(0, None, false, false);
    assert!(run.advance(0) == LoopAction::ReadClock);
    assert!(run.advance(0) == LoopAction::End);
}

#[test]
fn the_limit_of_a_run() {
    let mut run = RunLoop::new(10, Some(4), false, false);
    assert!(run.advance(0) == LoopAction::ReadClock);
    assert!(run.advance(SEC) == LoopAction::Sleep(3 * SEC));
    assert!(run.advance(4 * SEC) == LoopAction::EndAtLimit);
    let mut run = RunLoop::new(10, Some(4), false, false);
    assert!(run.advance(4 * SEC) == LoopAction::EndAtLimit);
    let mut run = RunLoop::new(1, Some(4), false, false);
    assert!(run.advance(4 * SEC - 1) == LoopAction::ReadClock);
    assert!(run.advance(4 * SEC - 1) == LoopAction::End);
    let mut run = RunLoop::new(1, Some(4), false, false);
    assert!(run.advance(0) == LoopAction::ReadClock);
    assert!(run.advance(4 * SEC - 1_000_000) == LoopAction::Sleep(1_000_000));
    let mut run = RunLoop::new(1, Some(4), false, false);
    assert!(run.advance(0) == LoopAction::ReadClock);
    assert!(run.advance(5 * SEC) == LoopAction::End);
    assert_eq!(runtime_message(4), "\nRuntime limit reached (4 seconds)");
}

#[test]
fn large_numbers_do_not_run_over() {
    let mut run = RunLoop::new(u64::MAX, Some(u64::MAX), false, false);
    assert!(run.advance(0) == LoopAction::ReadClock);
    assert!(run.advance(0) == LoopAction::Sleep(u64::MAX as u128 * SEC));
    assert!(run.advance(u128::MAX) == LoopAction::EndAtLimit);
    let mut run = RunLoop::new(u64::MAX, None, true, false);
    assert!(round(&mut run, 0) == LoopAction::Collect { show: false });
}

#[test]
fn no_banner_for_the_defaults() {
    assert!(options().banner(&latency(), &None).is_empty());
}

#[test]
fn the_whole_banner() {
    let mut o = options();
    o.comm = vec!["a".to_string(), "b".to_string()];
    o.global_comm = vec!["g".to_string()];
    o.cgroup = vec!["x".to_string(), "y".to_string()];
    o.pid = Some(12);
    o.min_latency = Some(30);
    o.no_collapse = true;
    o.run_time = Some(60);
    assert_eq!(
        o.banner(&latency(), &Some(vec![3, 40])),
        vec![
            "Options active:",
            "  - Command patterns: a, b",
            "  - Global command pattern: g",
            "  - Cgroup patterns: x, y (matched 2 cgroups)",
            "  - Resolved cgroup IDs: [3, 40]",
            "  - PID: 12",
            "  - Minimum latency: 30μs",
            "  - Not collapsing by command name",
            "  - Runtime limit: 60 seconds",
            "  - Metric groups: latency",
        ]
    );
}

#[test]
fn parts_of_the_banner() {
    let mut o = options();
    o.cgroup = vec!["x".to_string()];
    o.comm = vec!["a".to_string()];
    o.global_comm = vec!["g".to_string(), "h".to_string()];
    assert_eq!(
        o.banner(&MetricGroups::default(), &None),
        vec![
            "Options active:",
            "  - Command pattern: a",
            "  - Global command patterns: g, h",
            "  - Cgroup pattern: x (matched 0 cgroups)",
        ]
    );
    let mut o = options();
    o.group = vec!["slice".to_string()];
    let mut m = MetricGroups::default();
    assert!(m.select("slice", &Ok(())).is_ok());
    assert_eq!(o.banner(&m, &None), vec!["Options active:", "  - Metric groups: slice"]);
    let mut o = options();
    o.cgroup = vec!["x".to_string()];
    assert_eq!(
        o.banner(&latency(), &Some(vec![])),
        vec![
            "Options active:",
            "  - Cgroup pattern: x (matched 0 cgroups)",
            "  - Resolved cgroup IDs: []",
            "  - Metric groups: latency",
        ]
    );
}

#[test]
fn output_modes() {
    let mut o = options();
    assert!(o.output_mode() == OutputMode::Collapsed);
    o.no_collapse = true;
    assert!(o.output_mode() == OutputMode::Grouped);
    o.detailed = true;
    assert!(o.output_mode() == OutputMode::Detailed);
}

#[test]
fn filters() {
    let mut o = options();
    o.pid = Some(3);
    let f = o.filter_options(None, Some(vec!["g".to_string()]), None, latency());
    assert_eq!(f.pid_filter, Some(3));
    assert_eq!(f.min_latency_us, 0);
    assert_eq!(f.global_comm_patterns, Some(vec!["g".to_string()]));
    assert!(f.comm_patterns.is_none() && f.cgroup_filter.is_none() && f.metric_groups.latency);
    o.min_latency = Some(9);
    assert_eq!(o.filter_options(None, None, None, latency()).min_latency_us, 9);
}

#[test]
fn points_to_trace() {
    assert!(
        tracepoints(false, false)
            == vec![
                Tracepoint::Wakeup,
                Tracepoint::WakeupNew,
                Tracepoint::Switch,
                Tracepoint::ProcessExit,
            ]
    );
    assert!(
        tracepoints(true, true)
            == vec![
                Tracepoint::Wakeup,
                Tracepoint::WakeupNew,
                Tracepoint::Waking,
                Tracepoint::Switch,
                Tracepoint::MigrateTask,
                Tracepoint::ProcessExit,
            ]
    );
    assert_eq!(Tracepoint::ProcessExit.name(), "sched_process_exit");
    assert_eq!(Tracepoint::ProcessExit.btf_program(), "handle_process_exit_btf");
    assert_eq!(Tracepoint::MigrateTask.raw_program(), "handle_sched_migrate_task_raw");
}

#[test]
fn a_point_falls_back_to_its_raw_program() {
    let mut a = Attaching::start(tracepoints(false, false));
    assert!(a.next() == AttachAction::Btf(Tracepoint::Wakeup));
    a.tried(true);
    assert!(a.next() == AttachAction::Btf(Tracepoint::WakeupNew));
    a.tried(false);
    assert!(a.next() == AttachAction::Raw(Tracepoint::WakeupNew));
    a.tried(true);
    assert!(a.next() == AttachAction::Btf(Tracepoint::Switch));
    a.tried(true);
    assert!(a.next() == AttachAction::Btf(Tracepoint::ProcessExit));
    a.tried(false);
    assert!(a.next() == AttachAction::Raw(Tracepoint::ProcessExit));
    a.tried(true);
    assert!(a.next() == AttachAction::Done);
    assert_eq!(
        Tracepoint::Switch.fallback_note("denied"),
        "BTF tracepoint sched_switch failed: denied, will use raw_tp"
    );
}

#[test]
fn readings_that_are_due() {
    let m = latency();
    assert!(due_readings(&m, false, false, false).is_empty());
    assert!(
        due_readings(&m, true, false, true)
            == vec![
                Reading::Table(Table::Hists),
                Reading::Table(Table::CpuHists),
                Reading::Table(Table::NrRunningHists),
            ]
    );
    let mut m = MetricGroups::default();
    assert!(m.select("all", &Ok(())).is_ok());
    assert!(
        due_readings(&m, true, true, false)
            == vec![
                Reading::Table(Table::MigrationCounts),
                Reading::Table(Table::GenericPerfStats),
            ]
    );
    let all = due_readings(&m, true, true, true);
    assert_eq!(all.len(), 11);
    assert!(all[9] == Reading::Schedstat);
    assert!(all[10] == Reading::Table(Table::CpuPerfStats));
    assert_eq!(Table::CpuPerfStats.name(), "CPU_PERF_STATS");
    assert_eq!(Table::WakingDelay.name(), "WAKING_DELAY");
    assert_eq!(due_readings(&m, false, false, true).len(), 9);
}

#[test]
fn setups_that_are_due() {
    let plan = |has_ipc: bool, configs: Vec<(u32, u64)>| EventPlan {
        names: configs.iter().map(|_| "e".to_string()).collect(),
        configs,
        has_ipc,
    };
    let mut m = MetricGroups::default();
    assert_eq!(due_setups(&m, &plan(true, vec![(1, 1)])), (false, false));
    assert!(m.select("perf", &Ok(())).is_ok());
    assert_eq!(due_setups(&m, &plan(true, vec![])), (true, false));
    assert_eq!(due_setups(&m, &plan(false, vec![(1, 1)])), (false, true));
    assert_eq!(due_setups(&m, &plan(true, vec![(1, 1)])), (true, true));
}

#[test]
fn statistics_are_read_for_a_display() {
    let mut m = MetricGroups::default();
    assert!(due_readings(&m, true, false, true).is_empty());
    assert!(m.select("schedstat", &Ok(())).is_ok());
    assert!(due_readings(&m, true, false, true) == vec![Reading::Schedstat]);
    assert!(due_readings(&m, true, false, false).is_empty());
}

#[test]
fn tables_of_counters() {
    assert_eq!(generic_table(0), "GENERIC_PERF_ARRAY_0");
    assert_eq!(generic_table(7), "GENERIC_PERF_ARRAY_7");
    assert_eq!(ipc_table(0), "USER_CYCLES_ARRAY");
    assert_eq!(ipc_table(3), "KERNEL_INSTRUCTIONS_ARRAY");
}
