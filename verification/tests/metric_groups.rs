use rsched::events::{plan_events, PmuEvent, PmuEventSet};
use rsched::groups::{event_to_look_up, parse_metric_groups, GroupError, MetricGroups};

fn known(event: &str) -> Result<(), String> {
    match event {
        "ipc" | "cycles" | "l1-misses" => Ok(()),
        other => Err(format!("no event {}", other)),
    }
}

fn parse(names: &[&str]) -> Result<MetricGroups, GroupError> {
    let groups: Vec<String> = names.iter().map(|n| n.to_string()).collect();
    let lookups = groups
        .iter()
        .map(|g| match event_to_look_up(g) {
            Some(event) => known(&event),
            None => Ok(()),
        })
        .collect();
    parse_metric_groups(&groups, &lookups)
}

fn parsed(names: &[&str]) -> MetricGroups {
    match parse(names) {
        Ok(m) => m,
        Err(e) => panic!("{}", e.message()),
    }
}

fn message(names: &[&str]) -> String {
    match parse(names) {
        Ok(_) => panic!("accepted"),
        Err(e) => e.message(),
    }
}

#[test]
fn the_default_group() {
    let m = parsed(&["latency"]);
    assert!(m.latency && m.cpu_latency);
    assert!(!m.slice && !m.sleep && !m.cpu_idle && !m.perf && !m.schedstat);
    assert!(!m.waking && !m.migration);
    assert!(m.perf_events.is_empty());
    assert_eq!(m.active_names(), vec!["latency"]);
}

#[test]
fn no_group_at_all() {
    let m = parsed(&[]);
    assert!(m.active_names().is_empty());
}

#[test]
fn all_and_most() {
    let all = parsed(&["all"]);
    assert!(all.latency && all.cpu_latency && all.slice && all.sleep && all.cpu_idle);
    assert!(all.perf && all.schedstat && all.waking && all.migration);
    assert_eq!(all.perf_events, vec!["ipc"]);
    let most = parsed(&["most"]);
    assert!(!most.waking && most.migration && most.schedstat && most.perf);
    let both = parsed(&["most", "waking"]);
    assert_eq!(both.active_names(), all.active_names());
    assert_eq!(
        all.active_names(),
        vec!["latency", "slice", "sleep", "perf=ipc", "schedstat", "waking", "migration"]
    );
}

#[test]
fn events_are_listed_once() {
    let m = parsed(&["perf", "perf=cycles", "perf=ipc", "cycles", "all"]);
    assert_eq!(m.perf_events, vec!["ipc", "cycles"]);
    let m = parsed(&["perf=cycles", "all"]);
    assert_eq!(m.perf_events, vec!["cycles"]);
    let m = parsed(&["l1-misses", "perf=cycles"]);
    assert_eq!(m.active_names(), vec!["perf=l1-misses,cycles"]);
}

#[test]
fn single_groups() {
    let m = parsed(&["slice", "sleep", "schedstat", "waking", "migration"]);
    assert!(m.slice && m.sleep && m.cpu_idle && m.schedstat && m.waking && m.migration);
    assert!(!m.latency && !m.perf);
}

#[test]
fn giving_a_group_twice_changes_nothing() {
    for name in ["all", "most", "latency", "slice", "sleep", "perf", "perf=cycles", "cycles"] {
        let once = parsed(&[name]);
        let twice = parsed(&[name, name]);
        assert_eq!(once.active_names(), twice.active_names());
        assert_eq!(once.perf_events, twice.perf_events);
    }
}

#[test]
fn rejected_names() {
    assert_eq!(message(&["perf=nope"]), "no event nope");
    assert_eq!(message(&["perf="]), "no event ");
    assert_eq!(
        message(&["latency", "nope", "perf=nope"]),
        "Unknown metric group: nope. Valid groups are: latency, slice, sleep, perf[=events], schedstat, waking, migration, most, all"
    );
    assert!(matches!(parse(&["Latency"]), Err(GroupError::Unknown(g)) if g == "Latency"));
    assert!(matches!(parse(&["perf=x", "nope"]), Err(GroupError::Event(e)) if e == "no event x"));
}

#[test]
fn which_names_need_an_event() {
    assert_eq!(event_to_look_up("all"), None);
    assert_eq!(event_to_look_up("migration"), None);
    assert_eq!(event_to_look_up("perf"), Some("ipc".to_string()));
    assert_eq!(event_to_look_up("perf=a=b"), Some("a=b".to_string()));
    assert_eq!(event_to_look_up("perfx"), Some("perfx".to_string()));
}

#[test]
fn selecting_step_by_step() {
    let mut m = MetricGroups::default();
    assert!(m.select("sleep", &Err("unused".to_string())).is_ok());
    assert!(m.select("bogus", &Err("why".to_string())).is_err());
    assert!(m.sleep && !m.perf);
}

fn set(name: &str, is_ipc: bool, events: usize) -> PmuEventSet {
    let events = (0..events).map(|i| PmuEvent { perf_type: 4, config: i as u64 }).collect();
    PmuEventSet { name: name.to_string(), events, is_ipc }
}

#[test]
fn event_plans() {
    let plan = match plan_events(&vec![set("a", false, 2), set("ipc", true, 3), set("b", false, 1)]) {
        Ok(plan) => plan,
        Err(_) => panic!("refused"),
    };
    assert_eq!(plan.names, vec!["a", "a", "b"]);
    assert_eq!(plan.configs, vec![(4, 0), (4, 1), (4, 0)]);
    assert!(plan.has_ipc);
    let plan = match plan_events(&vec![]) {
        Ok(plan) => plan,
        Err(_) => panic!("refused"),
    };
    assert!(!plan.has_ipc && plan.names.is_empty() && plan.configs.is_empty());
    assert!(plan_events(&vec![set("a", false, 8)]).is_ok());
}

#[test]
fn too_many_events() {
    match plan_events(&vec![set("a", false, 8), set("b", false, 1)]) {
        Ok(_) => panic!("accepted"),
        Err(e) => assert_eq!(e.message(), "Too many generic perf events (9, max 8)"),
    }
}
