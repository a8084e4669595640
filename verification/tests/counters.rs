use rsched::listing::{EventInfo, ListAction, ListReply, Listing, PmuInfo};
use rsched::perf::{
    attach_outcome, attach_to_map, Counter, GenericProgress, IpcProgress, OpenAction, OpenStep,
    Opening, PerfCounterSetup, PerfEventAttr, SetupAction, SetupReply, PERF_ATTR_BIT_EXCLUDE_HV,
    PERF_ATTR_BIT_EXCLUDE_IDLE, PERF_ATTR_BIT_EXCLUDE_KERNEL, PERF_ATTR_BIT_EXCLUDE_USER,
    PERF_EVENT_ATTR_SIZE, PERF_EVENT_IOC_ENABLE, PERF_EVENT_IOC_RESET,
};

#[test]
fn test_perf_event_attr_size() {
    assert_eq!(
        std::mem::size_of::<PerfEventAttr>(),
        112,
        "PerfEventAttr size mismatch"
    );
}

#[test]
fn the_size_field_is_the_size() {
    assert_eq!(PERF_EVENT_ATTR_SIZE as usize, std::mem::size_of::<PerfEventAttr>());
    assert_eq!(PerfEventAttr::default().size, 0);
}

#[test]
fn descriptions_of_counters() {
    let both = PERF_ATTR_BIT_EXCLUDE_HV | PERF_ATTR_BIT_EXCLUDE_IDLE;
    let c = Counter::Ipc { config: 1, cpu: 3, exclude_kernel: true, exclude_user: false };
    let a = c.attr();
    assert_eq!((a.type_, a.size, a.config), (0, 112, 1));
    assert_eq!(a.flags, both | PERF_ATTR_BIT_EXCLUDE_KERNEL);
    assert_eq!(c.cpu(), 3);
    let c = Counter::Ipc { config: 0, cpu: 0, exclude_kernel: true, exclude_user: true };
    assert_eq!(
        c.attr().flags,
        both | PERF_ATTR_BIT_EXCLUDE_KERNEL | PERF_ATTR_BIT_EXCLUDE_USER
    );
    let c = Counter::Typed { perf_type: 4, config: 0x1c2, cpu: 9 };
    let a = c.attr();
    assert_eq!((a.type_, a.config, a.flags), (4, 0x1c2, 0xc0));
    assert_eq!((a.sample_period, a.clockid, a.reserved_2), (0, 0, 0));
    assert_eq!(c.cpu(), 9);
}

#[test]
fn the_call_that_opens_a_counter() {
    for c in [
        Counter::Ipc { config: 1, cpu: 3, exclude_kernel: true, exclude_user: false },
        Counter::Typed { perf_type: 4, config: 7, cpu: 3 },
    ] {
        let call = c.call();
        assert_eq!((call.pid, call.cpu, call.group_fd, call.flags), (-1, 3, -1, 8));
        assert_eq!(call.attr.flags, c.attr().flags);
        assert_eq!(call.attr.config, c.attr().config);
        assert_eq!(call.attr.type_, c.attr().type_);
        assert_eq!(call.attr.size, 112);
    }
}

#[test]
fn messages_about_counters() {
    let c = Counter::Ipc { config: 1, cpu: 3, exclude_kernel: true, exclude_user: false };
    assert_eq!(
        c.failure_message(OpenStep::Open, "denied"),
        "Failed to open perf event (CPU 3, config 1, exclude_kernel=true, exclude_user=false): denied"
    );
    assert_eq!(
        c.exclusion_note(OpenStep::Open),
        Some("Note: CPU 3 may not support hardware event exclusion flags".to_string())
    );
    assert_eq!(c.exclusion_note(OpenStep::Enable), None);
    assert_eq!(c.exclusion_note(OpenStep::Reset), None);
    assert_eq!(c.failure_message(OpenStep::Enable, "x"), "Failed to enable perf event: x");
    assert_eq!(c.failure_message(OpenStep::Reset, "x"), "Failed to reset perf event: x");
    let c = Counter::Ipc { config: 1, cpu: 3, exclude_kernel: false, exclude_user: false };
    assert_eq!(c.exclusion_note(OpenStep::Open), None);
    let c = Counter::Typed { perf_type: 4, config: 0x1c2, cpu: 9 };
    assert_eq!(
        c.failure_message(OpenStep::Open, "denied"),
        "Failed to open perf event (CPU 9, type=4, config=0x1c2): denied"
    );
    assert_eq!(c.exclusion_note(OpenStep::Open), None);
}

#[test]
fn opening_a_counter() {
    let mut o = Opening::Open;
    assert!(o.after(7) == OpenAction::Request { fd: 7, request: PERF_EVENT_IOC_ENABLE });
    assert!(o.after(0) == OpenAction::Request { fd: 7, request: PERF_EVENT_IOC_RESET });
    assert!(o.after(0) == OpenAction::Opened(7));
}

#[test]
fn giving_up_closes_what_was_opened() {
    let mut o = Opening::Open;
    assert!(o.after(-1) == OpenAction::GiveUp { step: OpenStep::Open, close: None });
    let mut o = Opening::Open;
    o.after(7);
    assert!(o.after(-1) == OpenAction::GiveUp { step: OpenStep::Enable, close: Some(7) });
    let mut o = Opening::Open;
    o.after(7);
    o.after(0);
    assert!(o.after(-1) == OpenAction::GiveUp { step: OpenStep::Reset, close: Some(7) });
}

#[test]
fn handing_over_a_counter() {
    let u = attach_to_map(5, 3, 11);
    assert_eq!((u.map_fd, u.key, u.value, u.flags), (5, 3, 11, 0));
    assert_eq!(attach_outcome(0, "x"), Ok(()));
    assert_eq!(
        attach_outcome(-1, "x"),
        Err("Failed to attach perf event fd to map: x".to_string())
    );
}

#[test]
fn ipc_counters_on_two_cpus() {
    let mut setup = PerfCounterSetup::new();
    let mut p = IpcProgress::on(2);
    let mut action = setup.setup_and_attach(&mut p, SetupReply::Start);
    let mut fd = 10;
    let mut opened = Vec::new();
    let mut attached = Vec::new();
    loop {
        action = match action {
            SetupAction::Open(c) => {
                opened.push(c);
                let reply = SetupReply::Opened(fd);
                fd += 1;
                setup.setup_and_attach(&mut p, reply)
            }
            SetupAction::Attach { table, cpu, fd } => {
                attached.push((table, cpu, fd));
                setup.setup_and_attach(&mut p, SetupReply::Attached)
            }
            SetupAction::Done => break,
        };
    }
    assert_eq!(opened.len(), 8);
    assert!(
        opened[1] == Counter::Ipc { config: 0, cpu: 0, exclude_kernel: false, exclude_user: true }
    );
    assert!(
        opened[6] == Counter::Ipc { config: 1, cpu: 1, exclude_kernel: true, exclude_user: false }
    );
    assert_eq!(attached[0], (0, 0, 10));
    assert_eq!(attached[7], (3, 1, 17));
    assert_eq!(setup.open_fds(), (10..18).collect::<Vec<i32>>());
}

#[test]
fn a_cpu_that_is_not_complete_is_not_kept() {
    let mut setup = PerfCounterSetup::new();
    let mut p = IpcProgress::on(1);
    setup.setup_and_attach(&mut p, SetupReply::Start);
    for fd in 0..3 {
        setup.setup_and_attach(&mut p, SetupReply::Opened(fd));
        setup.setup_and_attach(&mut p, SetupReply::Attached);
    }
    assert!(setup.open_fds().is_empty());
}

#[test]
fn selected_events_join_the_counters_of_their_cpu() {
    let mut setup = PerfCounterSetup::new();
    let mut p = IpcProgress::on(1);
    let mut action = setup.setup_and_attach(&mut p, SetupReply::Start);
    let mut fd = 0;
    while action != SetupAction::Done {
        let reply = match action {
            SetupAction::Open(_) => {
                fd += 1;
                SetupReply::Opened(fd)
            }
            _ => SetupReply::Attached,
        };
        action = setup.setup_and_attach(&mut p, reply);
    }
    let mut p = GenericProgress::on(vec![(4, 1), (8, 2), (9, 9)], 2, 3);
    let mut action = setup.setup_generic_events(&mut p, SetupReply::Start);
    let mut attached = Vec::new();
    assert_eq!(p.failure_message("why"), "Generic event slot 0 on CPU 0: why");
    while action != SetupAction::Done {
        let reply = match action {
            SetupAction::Open(Counter::Typed { perf_type, config, cpu }) => {
                SetupReply::Opened((perf_type * 100 + config as u32 * 10 + cpu as u32) as i32)
            }
            SetupAction::Attach { table, cpu, fd } => {
                attached.push((table, cpu, fd));
                SetupReply::Attached
            }
            _ => panic!("unexpected action"),
        };
        action = setup.setup_generic_events(&mut p, reply);
    }
    assert_eq!(
        attached,
        vec![(0, 0, 410), (0, 1, 411), (0, 2, 412), (1, 0, 820), (1, 1, 821), (1, 2, 822)]
    );
    assert_eq!(setup.open_fds(), vec![1, 2, 3, 4, 410, 820, 411, 821, 412, 822]);
}

#[test]
fn rows_beyond_the_cpus_stay() {
    let mut setup = PerfCounterSetup::new();
    let mut p = GenericProgress::on(vec![(1, 1)], 1, 3);
    setup.setup_generic_events(&mut p, SetupReply::Start);
    for fd in 1..4 {
        setup.setup_generic_events(&mut p, SetupReply::Opened(fd));
        setup.setup_generic_events(&mut p, SetupReply::Attached);
    }
    let mut p = GenericProgress::on(vec![(2, 2)], 1, 1);
    setup.setup_generic_events(&mut p, SetupReply::Start);
    setup.setup_generic_events(&mut p, SetupReply::Opened(9));
    let action = setup.setup_generic_events(&mut p, SetupReply::Attached);
    assert!(action == SetupAction::Done);
    assert_eq!(setup.open_fds(), vec![1, 9, 2, 3]);
}

#[test]
fn the_setup_covers_the_machine() {
    let mut setup = PerfCounterSetup::new();
    let mut p = IpcProgress::on_this_machine();
    let mut action = setup.setup_and_attach(&mut p, SetupReply::Start);
    let mut opened = 0;
    while action != SetupAction::Done {
        let reply = match action {
            SetupAction::Open(_) => {
                opened += 1;
                SetupReply::Opened(opened as i32)
            }
            _ => SetupReply::Attached,
        };
        action = setup.setup_and_attach(&mut p, reply);
    }
    assert_eq!(opened, 4 * num_cpus::get());
    let mut p = GenericProgress::on_this_machine(vec![(0, 0)], 8);
    assert!(matches!(
        setup.setup_generic_events(&mut p, SetupReply::Start),
        SetupAction::Open(_)
    ));
}

#[test]
fn no_event_or_no_cpu_means_no_work() {
    let mut setup = PerfCounterSetup::new();
    let mut p = GenericProgress::on(vec![], 8, 4);
    assert!(setup.setup_generic_events(&mut p, SetupReply::Start) == SetupAction::Done);
    let mut p = GenericProgress::on(vec![(1, 1)], 8, 0);
    assert!(setup.setup_generic_events(&mut p, SetupReply::Start) == SetupAction::Done);
    let mut p = IpcProgress::on(0);
    assert!(setup.setup_and_attach(&mut p, SetupReply::Start) == SetupAction::Done);
}

fn pmu(present: bool, name: Option<&str>, first_event: i32) -> ListReply {
    ListReply::Pmu(Some(PmuInfo {
        present,
        name: name.map(|n| n.to_string()),
        desc: Some("a unit".to_string()),
        nevents: 2,
        first_event,
    }))
}

#[test]
fn listing_units_and_events() {
    let mut l = Listing::of(4);
    let (line, action) = l.step(&ListReply::Start);
    assert_eq!(line, Some("=== libpfm4 Events ===".to_string()));
    assert!(action == ListAction::Initialize);
    let (line, action) = l.step(&ListReply::Initialized(0));
    assert!(line.is_none() && action == ListAction::QueryPmu(0));
    let (line, action) = l.step(&ListReply::Pmu(None));
    assert!(line.is_none() && action == ListAction::QueryPmu(1));
    let (line, action) = l.step(&pmu(false, Some("absent"), 3));
    assert!(line.is_none() && action == ListAction::QueryPmu(2));
    let (line, action) = l.step(&pmu(true, Some("core"), 3));
    assert_eq!(line, Some("PMU: core - a unit (2 events)".to_string()));
    assert!(action == ListAction::QueryEvent(3));
    let event = EventInfo { name: Some("CYCLES".to_string()), desc: None };
    let (line, action) = l.step(&ListReply::Event(Some(event)));
    assert_eq!(line, Some(format!("  {:<40} {}", "CYCLES", "")));
    assert!(action == ListAction::QueryNext(3));
    let (line, action) = l.step(&ListReply::Next(4));
    assert!(line.is_none() && action == ListAction::QueryEvent(4));
    let (line, action) = l.step(&ListReply::Event(None));
    assert!(line.is_none() && action == ListAction::QueryPmu(3));
    let (line, action) = l.step(&pmu(true, None, -1));
    assert_eq!(line, Some("PMU: ? - a unit (2 events)".to_string()));
    assert!(action == ListAction::Terminate && action.outcome().is_none());
    let (line, action) = l.step(&ListReply::Terminated);
    assert!(line.is_none() && action == ListAction::Done);
    assert_eq!(action.outcome(), Some(Ok(())));
}

#[test]
fn the_last_event_of_a_unit() {
    let mut l = Listing::of(1);
    l.step(&ListReply::Start);
    l.step(&ListReply::Initialized(0));
    l.step(&pmu(true, None, 0));
    let event = EventInfo { name: None, desc: Some("what".to_string()) };
    let (line, _) = l.step(&ListReply::Event(Some(event)));
    assert_eq!(line, Some(format!("  {:<40} {}", "?", "what")));
    let (_, action) = l.step(&ListReply::Next(-1));
    assert!(action == ListAction::Terminate);
    let mut none = Listing::of(0);
    none.step(&ListReply::Start);
    assert!(none.step(&ListReply::Initialized(0)).1 == ListAction::Terminate);
}

#[test]
fn a_failed_start_ends_the_listing() {
    for status in [-1, 1, i32::MIN] {
        let mut l = Listing::of(4);
        l.step(&ListReply::Start);
        let (line, action) = l.step(&ListReply::Initialized(status));
        assert!(line.is_none() && action == ListAction::Fail);
        assert_eq!(
            action.outcome(),
            Some(Err("Failed to initialize libpfm4".to_string()))
        );
    }
}
