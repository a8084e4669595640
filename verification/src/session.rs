//! What a run is asked to do, and what follows from it.
use crate::events::EventPlan;
use crate::groups::MetricGroups;
use crate::perf::IPC_COUNTERS;
use crate::records::MAX_GENERIC_EVENTS;
use crate::run_loop::RunState;
use crate::text::{
    decimal, decimal_text, join_texts, joined, lemma_texts_push, same_text, texts,
};
use std::collections::HashSet;
use vstd::prelude::*;

verus! {

/// The options of a run.
pub struct Options {
    /// Name patterns of commands.
    pub comm: Vec<String>,
    /// Name patterns of commands, whatever their control group.
    pub global_comm: Vec<String>,
    /// Name patterns of control groups.
    pub cgroup: Vec<String>,
    pub pid: Option<u32>,
    /// The least latency that is shown, in microseconds.
    pub min_latency: Option<u64>,
    pub no_collapse: bool,
    pub detailed: bool,
    /// Seconds after which the run ends.
    pub run_time: Option<u64>,
    /// The names of the metric groups.
    pub group: Vec<String>,
}

/// How the results are laid out.
#[derive(PartialEq, Eq, Structural, Clone, Copy)]
pub enum OutputMode {
    Detailed,
    Collapsed,
    Grouped,
}

/// What is shown.
pub struct FilterOptions {
    pub comm_patterns: Option<Vec<String>>,
    pub global_comm_patterns: Option<Vec<String>>,
    pub pid_filter: Option<u32>,
    pub cgroup_filter: Option<HashSet<u64>>,
    pub min_latency_us: u64,
    pub metric_groups: MetricGroups,
}

/// The line of a list of patterns, if there is any.
pub open spec fn pattern_lines(one: Seq<char>, many: Seq<char>, patterns: Seq<Seq<char>>) -> Seq<
    Seq<char>,
> {
    if patterns.len() == 0 {
        seq![]
    } else if patterns.len() == 1 {
        seq![one + patterns[0]]
    } else {
        seq![many + joined(patterns, ", "@)]
    }
}

/// A list of numbers as it is shown.
pub open spec fn number_list(numbers: Seq<u64>) -> Seq<char> {
    "["@ + joined(numbers.map_values(|n: u64| decimal(n as nat)), ", "@) + "]"@
}

/// The lines about control groups, if any are asked for.
pub open spec fn cgroup_lines(patterns: Seq<Seq<char>>, ids: Option<Seq<u64>>) -> Seq<Seq<char>> {
    if patterns.len() == 0 {
        seq![]
    } else {
        let count = match ids {
            Some(list) => list.len(),
            None => 0,
        };
        let matched = " (matched "@ + decimal(count) + " cgroups)"@;
        let first = if patterns.len() == 1 {
            "  - Cgroup pattern: "@ + patterns[0] + matched
        } else {
            "  - Cgroup patterns: "@ + joined(patterns, ", "@) + matched
        };
        match ids {
            Some(list) => seq![first, "  - Resolved cgroup IDs: "@ + number_list(list)],
            None => seq![first],
        }
    }
}

impl Options {
    /// Some option differs from its default.
    pub open spec fn any_active(self) -> bool {
        ||| self.comm@.len() > 0
        ||| self.global_comm@.len() > 0
        ||| self.cgroup@.len() > 0
        ||| self.pid is Some
        ||| self.min_latency is Some
        ||| self.no_collapse
        ||| self.run_time is Some
        ||| texts(self.group@) != seq!["latency"@]
    }

    /// The lines that tell which options are active.
    pub open spec fn banner_lines(self, groups: MetricGroups, ids: Option<Seq<u64>>) -> Seq<
        Seq<char>,
    > {
        if !self.any_active() {
            seq![]
        } else {
            seq!["Options active:"@] + pattern_lines(
                "  - Command pattern: "@,
                "  - Command patterns: "@,
                texts(self.comm@),
            ) + pattern_lines(
                "  - Global command pattern: "@,
                "  - Global command patterns: "@,
                texts(self.global_comm@),
            ) + cgroup_lines(texts(self.cgroup@), ids) + (match self.pid {
                Some(pid) => seq!["  - PID: "@ + decimal(pid as nat)],
                None => seq![],
            }) + (match self.min_latency {
                Some(us) => seq!["  - Minimum latency: "@ + decimal(us as nat) + "μs"@],
                None => seq![],
            }) + (if self.no_collapse {
                seq!["  - Not collapsing by command name"@]
            } else {
                seq![]
            }) + (match self.run_time {
                Some(secs) => seq!["  - Runtime limit: "@ + decimal(secs as nat) + " seconds"@],
                None => seq![],
            }) + (if groups@.names().len() > 0 {
                seq!["  - Metric groups: "@ + joined(groups@.names(), ", "@)]
            } else {
                seq![]
            })
        }
    }

    /// How the results are laid out.
    pub fn output_mode(&self) -> (mode: OutputMode)
        ensures
            mode == (if self.detailed {
                OutputMode::Detailed
            } else if !self.no_collapse {
                OutputMode::Collapsed
            } else {
                OutputMode::Grouped
            }),
    {
        if self.detailed {
            OutputMode::Detailed
        } else if !self.no_collapse {
            OutputMode::Collapsed
        } else {
            OutputMode::Grouped
        }
    }

    /// Whether some option differs from its default.
    fn is_active(&self) -> (active: bool)
        ensures
            active == self.any_active(),
    {
        let only_latency = self.group.len() == 1 && same_text(self.group[0].as_str(), "latency");
        proof {
            assert(texts(self.group@).len() == self.group@.len());
            if only_latency {
                assert(texts(self.group@) =~= seq!["latency"@]);
            } else if texts(self.group@) == seq!["latency"@] {
                assert(texts(self.group@)[0] == self.group@[0]@);
            }
        }
        self.comm.len() > 0 || self.global_comm.len() > 0 || self.cgroup.len() > 0
            || self.pid.is_some() || self.min_latency.is_some() || self.no_collapse
            || self.run_time.is_some() || !only_latency
    }

    /// The lines that tell which options are active, where `ids` are the control groups
    /// that were found.
    pub fn banner(&self, groups: &MetricGroups, ids: &Option<Vec<u64>>) -> (lines: Vec<String>)
        ensures
            texts(lines@) == self.banner_lines(
                *groups,
                match *ids {
                    Some(list) => Some(list@),
                    None => None,
                },
            ),
    {
        let mut lines: Vec<String> = Vec::new();
        if !self.is_active() {
            assert(texts(lines@) =~= seq![]);
            return lines;
        }
        lines.push("Options active:".to_owned());
        assert(texts(lines@) =~= seq!["Options active:"@]);
        push_patterns(
            &mut lines,
            "  - Command pattern: ",
            "  - Command patterns: ",
            &self.comm,
        );
        push_patterns(
            &mut lines,
            "  - Global command pattern: ",
            "  - Global command patterns: ",
            &self.global_comm,
        );
        push_cgroups(&mut lines, &self.cgroup, ids);
        if let Some(pid) = self.pid {
            let mut line = "  - PID: ".to_owned();
            line.append(decimal_text(pid as u64).as_str());
            push_line(&mut lines, line);
        }
        if let Some(threshold) = self.min_latency {
            let mut line = "  - Minimum latency: ".to_owned();
            line.append(decimal_text(threshold).as_str());
            line.append("μs");
            push_line(&mut lines, line);
        }
        if self.no_collapse {
            push_line(&mut lines, "  - Not collapsing by command name".to_owned());
        }
        if let Some(run_time) = self.run_time {
            let mut line = "  - Runtime limit: ".to_owned();
            line.append(decimal_text(run_time).as_str());
            line.append(" seconds");
            push_line(&mut lines, line);
        }
        let names = groups.active_names();
        if names.len() > 0 {
            let mut line = "  - Metric groups: ".to_owned();
            line.append(join_texts(&names, ", ").as_str());
            push_line(&mut lines, line);
        }
        assert(texts(lines@) =~= self.banner_lines(
            *groups,
            match *ids {
                Some(list) => Some(list@),
                None => None,
            },
        ));
        lines
    }

    /// What is shown, given the patterns and the control groups that the options stand
    /// for. Without a threshold every latency is shown.
    pub fn filter_options(
        &self,
        comm_patterns: Option<Vec<String>>,
        global_comm_patterns: Option<Vec<String>>,
        cgroup_filter: Option<HashSet<u64>>,
        metric_groups: MetricGroups,
    ) -> (f: FilterOptions)
        ensures
            f == (FilterOptions {
                comm_patterns,
                global_comm_patterns,
                pid_filter: self.pid,
                cgroup_filter,
                min_latency_us: match self.min_latency {
                    Some(us) => us,
                    None => 0,
                },
                metric_groups,
            }),
    {
        FilterOptions {
            comm_patterns,
            global_comm_patterns,
            pid_filter: self.pid,
            cgroup_filter,
            min_latency_us: match self.min_latency {
                Some(us) => us,
                None => 0,
            },
            metric_groups,
        }
    }
}

fn push_line(lines: &mut Vec<String>, line: String)
    ensures
        texts(final(lines)@) == texts(old(lines)@) + seq![line@],
{
    proof {
        lemma_texts_push(lines@, line);
    }
    lines.push(line);
    assert(texts(lines@) =~= texts(old(lines)@) + seq![line@]);
}

fn push_patterns(lines: &mut Vec<String>, one: &str, many: &str, patterns: &Vec<String>)
    ensures
        texts(final(lines)@) == texts(old(lines)@) + pattern_lines(one@, many@, texts(patterns@)),
{
    if patterns.len() == 1 {
        let mut line = one.to_owned();
        line.append(patterns[0].as_str());
        push_line(lines, line);
        assert(texts(patterns@)[0] == patterns@[0]@);
    } else if patterns.len() > 1 {
        let mut line = many.to_owned();
        line.append(join_texts(patterns, ", ").as_str());
        push_line(lines, line);
    } else {
        assert(texts(lines@) =~= texts(old(lines)@) + pattern_lines(one@, many@, texts(patterns@)));
    }
}

fn number_list_text(numbers: &Vec<u64>) -> (s: String)
    ensures
        s@ == number_list(numbers@),
{
    let mut parts: Vec<String> = Vec::new();
    let mut i: usize = 0;
    let ghost all = numbers@.map_values(|n: u64| decimal(n as nat));
    while i < numbers.len()
        invariant
            i <= numbers.len(),
            all == numbers@.map_values(|n: u64| decimal(n as nat)),
            texts(parts@) == all.take(i as int),
        decreases numbers.len() - i,
    {
        let part = decimal_text(numbers[i]);
        proof {
            lemma_texts_push(parts@, part);
        }
        parts.push(part);
        i = i + 1;
        assert(texts(parts@) =~= all.take(i as int));
    }
    assert(texts(parts@) =~= all);
    let mut s = "[".to_owned();
    s.append(join_texts(&parts, ", ").as_str());
    s.append("]");
    s
}

fn push_cgroups(lines: &mut Vec<String>, patterns: &Vec<String>, ids: &Option<Vec<u64>>)
    ensures
        texts(final(lines)@) == texts(old(lines)@) + cgroup_lines(
            texts(patterns@),
            match *ids {
                Some(list) => Some(list@),
                None => None,
            },
        ),
{
    let ghost before = texts(lines@);
    if patterns.len() == 0 {
        assert(texts(lines@) =~= before + seq![]);
        return;
    }
    let count = match ids {
        Some(list) => list.len(),
        None => 0,
    };
    let mut matched = " (matched ".to_owned();
    matched.append(decimal_text(count as u64).as_str());
    matched.append(" cgroups)");
    let mut line = String::new();
    if patterns.len() == 1 {
        line = "  - Cgroup pattern: ".to_owned();
        line.append(patterns[0].as_str());
        assert(texts(patterns@)[0] == patterns@[0]@);
    } else {
        line = "  - Cgroup patterns: ".to_owned();
        line.append(join_texts(patterns, ", ").as_str());
    }
    line.append(matched.as_str());
    push_line(lines, line);
    if let Some(list) = ids {
        let mut shown = "  - Resolved cgroup IDs: ".to_owned();
        shown.append(number_list_text(list).as_str());
        push_line(lines, shown);
    }
    assert(texts(lines@) =~= before + cgroup_lines(
        texts(patterns@),
        match *ids {
            Some(list) => Some(list@),
            None => None,
        },
    ));
}

/// The tables of the kernel side that are emptied.
#[derive(PartialEq, Eq, Structural, Clone, Copy)]
pub enum Table {
    MigrationCounts,
    GenericPerfStats,
    Hists,
    CpuHists,
    TimesliceHists,
    NrRunningHists,
    WakingDelay,
    SleepHists,
    CpuIdleHists,
    CpuPerfStats,
}

impl Table {
    /// The name of the table on the kernel side.
    pub fn name(self) -> (s: &'static str)
        ensures
            s@ == (match self {
                Table::MigrationCounts => "MIGRATION_COUNTS"@,
                Table::GenericPerfStats => "GENERIC_PERF_STATS"@,
                Table::Hists => "HISTS"@,
                Table::CpuHists => "CPU_HISTS"@,
                Table::TimesliceHists => "TIMESLICE_HISTS"@,
                Table::NrRunningHists => "NR_RUNNING_HISTS"@,
                Table::WakingDelay => "WAKING_DELAY"@,
                Table::SleepHists => "SLEEP_HISTS"@,
                Table::CpuIdleHists => "CPU_IDLE_HISTS"@,
                Table::CpuPerfStats => "CPU_PERF_STATS"@,
            }),
    {
        match self {
            Table::MigrationCounts => "MIGRATION_COUNTS",
            Table::GenericPerfStats => "GENERIC_PERF_STATS",
            Table::Hists => "HISTS",
            Table::CpuHists => "CPU_HISTS",
            Table::TimesliceHists => "TIMESLICE_HISTS",
            Table::NrRunningHists => "NR_RUNNING_HISTS",
            Table::WakingDelay => "WAKING_DELAY",
            Table::SleepHists => "SLEEP_HISTS",
            Table::CpuIdleHists => "CPU_IDLE_HISTS",
            Table::CpuPerfStats => "CPU_PERF_STATS",
        }
    }
}

/// What is read at a tick.
#[derive(PartialEq, Eq, Structural, Clone, Copy)]
pub enum Reading {
    /// A table of the kernel side, which is emptied.
    Table(Table),
    /// The kernel's own statistics.
    Schedstat,
}

impl Reading {
    /// Whether it is read at a tick; most are read only where a display is due.
    pub open spec fn due(
        self,
        groups: MetricGroups,
        has_ipc: bool,
        has_generic: bool,
        show: bool,
    ) -> bool {
        match self {
            Reading::Table(Table::MigrationCounts) => groups.migration,
            Reading::Table(Table::GenericPerfStats) => has_generic,
            Reading::Table(Table::Hists) => show && groups.latency,
            Reading::Table(Table::CpuHists) => show && groups.cpu_latency,
            Reading::Table(Table::TimesliceHists) => show && groups.slice,
            Reading::Table(Table::NrRunningHists) => show && groups.latency,
            Reading::Table(Table::WakingDelay) => show && groups.waking,
            Reading::Table(Table::SleepHists) => show && groups.sleep,
            Reading::Table(Table::CpuIdleHists) => show && groups.cpu_idle,
            Reading::Schedstat => show && groups.schedstat,
            Reading::Table(Table::CpuPerfStats) => show && groups.perf && has_ipc,
        }
    }

    fn is_due(
        self,
        groups: &MetricGroups,
        has_ipc: bool,
        has_generic: bool,
        show: bool,
    ) -> (due: bool)
        ensures
            due == self.due(*groups, has_ipc, has_generic, show),
    {
        match self {
            Reading::Table(Table::MigrationCounts) => groups.migration,
            Reading::Table(Table::GenericPerfStats) => has_generic,
            Reading::Table(Table::Hists) => show && groups.latency,
            Reading::Table(Table::CpuHists) => show && groups.cpu_latency,
            Reading::Table(Table::TimesliceHists) => show && groups.slice,
            Reading::Table(Table::NrRunningHists) => show && groups.latency,
            Reading::Table(Table::WakingDelay) => show && groups.waking,
            Reading::Table(Table::SleepHists) => show && groups.sleep,
            Reading::Table(Table::CpuIdleHists) => show && groups.cpu_idle,
            Reading::Schedstat => show && groups.schedstat,
            Reading::Table(Table::CpuPerfStats) => show && groups.perf && has_ipc,
        }
    }
}

/// All readings, in their order.
pub open spec fn all_readings() -> Seq<Reading> {
    seq![
        Reading::Table(Table::MigrationCounts),
        Reading::Table(Table::GenericPerfStats),
        Reading::Table(Table::Hists),
        Reading::Table(Table::CpuHists),
        Reading::Table(Table::TimesliceHists),
        Reading::Table(Table::NrRunningHists),
        Reading::Table(Table::WakingDelay),
        Reading::Table(Table::SleepHists),
        Reading::Table(Table::CpuIdleHists),
        Reading::Schedstat,
        Reading::Table(Table::CpuPerfStats),
    ]
}

/// What is read at a tick, in order.
pub fn due_readings(groups: &MetricGroups, has_ipc: bool, has_generic: bool, show: bool) -> (list:
    Vec<Reading>)
    ensures
        list@ == all_readings().filter(|r: Reading| r.due(*groups, has_ipc, has_generic, show)),
{
    let all: Vec<Reading> = vec![
        Reading::Table(Table::MigrationCounts),
        Reading::Table(Table::GenericPerfStats),
        Reading::Table(Table::Hists),
        Reading::Table(Table::CpuHists),
        Reading::Table(Table::TimesliceHists),
        Reading::Table(Table::NrRunningHists),
        Reading::Table(Table::WakingDelay),
        Reading::Table(Table::SleepHists),
        Reading::Table(Table::CpuIdleHists),
        Reading::Schedstat,
        Reading::Table(Table::CpuPerfStats),
    ];
    assert(all@ =~= all_readings());
    let ghost is_due = |r: Reading| r.due(*groups, has_ipc, has_generic, show);
    let mut list: Vec<Reading> = Vec::new();
    let mut i: usize = 0;
    assert(all@.take(0).filter(is_due) =~= Seq::empty()) by {
        reveal(Seq::filter);
    }
    while i < all.len()
        invariant
            i <= all.len(),
            is_due == (|r: Reading| r.due(*groups, has_ipc, has_generic, show)),
            list@ == all@.take(i as int).filter(is_due),
        decreases all.len() - i,
    {
        proof {
            reveal(Seq::filter);
            assert(all@.take(i + 1).drop_last() =~= all@.take(i as int));
            assert(all@.take(i + 1).last() == all@[i as int]);
        }
        if all[i].is_due(groups, has_ipc, has_generic, show) {
            list.push(all[i]);
        }
        i = i + 1;
    }
    assert(all@.take(i as int) =~= all@);
    list
}

/// Which counters are set up: those for instructions per cycle, and those of the selected
/// events.
pub fn due_setups(groups: &MetricGroups, plan: &EventPlan) -> (r: (bool, bool))
    ensures
        r == (groups.perf && plan.has_ipc, groups.perf && plan.configs@.len() > 0),
{
    (groups.perf && plan.has_ipc, groups.perf && plan.configs.len() > 0)
}

/// The table of the selected event at a position.
pub fn generic_table(slot: usize) -> (name: String)
    requires
        slot < MAX_GENERIC_EVENTS,
    ensures
        name@ == "GENERIC_PERF_ARRAY_"@ + decimal(slot as nat),
{
    let mut name = "GENERIC_PERF_ARRAY_".to_owned();
    name.append(decimal_text(slot as u64).as_str());
    name
}

/// The table of a counter for instructions per cycle.
pub fn ipc_table(which: usize) -> (name: &'static str)
    requires
        which < IPC_COUNTERS,
    ensures
        name@ == (if which == 0 {
            "USER_CYCLES_ARRAY"@
        } else if which == 1 {
            "KERNEL_CYCLES_ARRAY"@
        } else if which == 2 {
            "USER_INSTRUCTIONS_ARRAY"@
        } else {
            "KERNEL_INSTRUCTIONS_ARRAY"@
        }),
{
    if which == 0 {
        "USER_CYCLES_ARRAY"
    } else if which == 1 {
        "KERNEL_CYCLES_ARRAY"
    } else if which == 2 {
        "USER_INSTRUCTIONS_ARRAY"
    } else {
        "KERNEL_INSTRUCTIONS_ARRAY"
    }
}

/// What is read at every tick is read at a display too, and a run ticks every second
/// exactly where something is read without a display.
pub proof fn law_readings_without_display(
    groups: MetricGroups,
    has_ipc: bool,
    has_generic: bool,
    interval: nat,
    run_time: Option<nat>,
)
    ensures
        forall|r: Reading|
            r.due(groups, has_ipc, has_generic, false) ==> #[trigger] r.due(
                groups,
                has_ipc,
                has_generic,
                true,
            ),
        RunState::fresh(interval, run_time, groups.migration, has_generic).per_second <==> exists|
            r: Reading,
        | #[trigger] r.due(groups, has_ipc, has_generic, false),
{
    assert(Reading::Table(Table::MigrationCounts).due(groups, has_ipc, has_generic, false)
        == groups.migration);
    assert(Reading::Table(Table::GenericPerfStats).due(groups, has_ipc, has_generic, false)
        == has_generic);
}

/// The place of a reading in the order in which readings are made.
pub open spec fn rank(reading: Reading) -> int {
    match reading {
        Reading::Table(Table::MigrationCounts) => 0,
        Reading::Table(Table::GenericPerfStats) => 1,
        Reading::Table(Table::Hists) => 2,
        Reading::Table(Table::CpuHists) => 3,
        Reading::Table(Table::TimesliceHists) => 4,
        Reading::Table(Table::NrRunningHists) => 5,
        Reading::Table(Table::WakingDelay) => 6,
        Reading::Table(Table::SleepHists) => 7,
        Reading::Table(Table::CpuIdleHists) => 8,
        Reading::Schedstat => 9,
        Reading::Table(Table::CpuPerfStats) => 10,
    }
}

/// What a part of a list of readings holds.
proof fn lemma_readings_filtered(
    all: Seq<Reading>,
    wanted: spec_fn(Reading) -> bool,
    reading: Reading,
)
    requires
        forall|i: int, j: int|
            0 <= i < j < all.len() ==> #[trigger] rank(all[i]) < #[trigger] rank(all[j]),
    ensures
        all.filter(wanted).contains(reading) <==> all.contains(reading) && wanted(reading),
        forall|i: int, j: int|
            0 <= i < j < all.filter(wanted).len() ==> #[trigger] rank(all.filter(wanted)[i])
                < #[trigger] rank(all.filter(wanted)[j]),
    decreases all.len(),
{
    reveal(Seq::filter);
    if all.len() > 0 {
        let init = all.drop_last();
        let last = all.last();
        let kept = init.filter(wanted);
        let list = all.filter(wanted);
        lemma_readings_filtered(init, wanted, reading);
        assert(all[all.len() - 1] == last);
        if init.contains(reading) {
            let i = choose|i: int| 0 <= i < init.len() && init[i] == reading;
            assert(all[i] == reading);
        }
        if all.contains(reading) && reading != last {
            let i = choose|i: int| 0 <= i < all.len() && all[i] == reading;
            assert(init[i] == reading);
        }
        if wanted(last) {
            assert(list == kept.push(last));
            if kept.contains(reading) {
                let i = choose|i: int| 0 <= i < kept.len() && kept[i] == reading;
                assert(list[i] == reading);
            }
            assert(list[kept.len() as int] == last);
            if list.contains(reading) && reading != last {
                let i = choose|i: int| 0 <= i < list.len() && list[i] == reading;
                assert(kept[i] == reading);
            }
            assert forall|i: int, j: int| 0 <= i < j < list.len() implies #[trigger] rank(list[i])
                < #[trigger] rank(list[j]) by {
                if j < kept.len() {
                    assert(list[i] == kept[i] && list[j] == kept[j]);
                } else {
                    lemma_readings_filtered(init, wanted, kept[i]);
                    assert(kept.contains(kept[i]));
                    let k = choose|k: int| 0 <= k < init.len() && init[k] == kept[i];
                    assert(all[k] == kept[i]);
                    assert(rank(all[k]) < rank(all[all.len() - 1]));
                }
            }
        }
    }
}

/// What is read at a tick: migrations and selected events at every tick where they are asked
/// for, everything else only where a display is due and its group is selected; nothing else,
/// nothing twice, and always in the same order.
pub proof fn law_due_readings(
    groups: MetricGroups,
    has_ipc: bool,
    has_generic: bool,
    show: bool,
    list: Seq<Reading>,
)
    requires
        list == all_readings().filter(|r: Reading| r.due(groups, has_ipc, has_generic, show)),
    ensures
        list.contains(Reading::Table(Table::MigrationCounts)) <==> groups.migration,
        list.contains(Reading::Table(Table::GenericPerfStats)) <==> has_generic,
        list.contains(Reading::Table(Table::Hists)) <==> show && groups.latency,
        list.contains(Reading::Table(Table::CpuHists)) <==> show && groups.cpu_latency,
        list.contains(Reading::Table(Table::TimesliceHists)) <==> show && groups.slice,
        list.contains(Reading::Table(Table::NrRunningHists)) <==> show && groups.latency,
        list.contains(Reading::Table(Table::WakingDelay)) <==> show && groups.waking,
        list.contains(Reading::Table(Table::SleepHists)) <==> show && groups.sleep,
        list.contains(Reading::Table(Table::CpuIdleHists)) <==> show && groups.cpu_idle,
        list.contains(Reading::Schedstat) <==> show && groups.schedstat,
        list.contains(Reading::Table(Table::CpuPerfStats)) <==> show && groups.perf && has_ipc,
        forall|i: int, j: int|
            0 <= i < j < list.len() ==> #[trigger] rank(list[i]) < #[trigger] rank(list[j]),
{
    let all = all_readings();
    let wanted = |r: Reading| r.due(groups, has_ipc, has_generic, show);
    assert forall|r: Reading| #[trigger] all.contains(r) by {
        assert(all[rank(r)] == r);
    }
    assert forall|r: Reading| #[trigger] list.contains(r) <==> wanted(r) by {
        lemma_readings_filtered(all, wanted, r);
        assert(all.contains(r));
    }
    lemma_readings_filtered(all, wanted, Reading::Schedstat);
}

/// A list with one more part.
proof fn lemma_part_appended(list: Seq<Seq<char>>, part: Seq<Seq<char>>, grown: Seq<Seq<char>>)
    requires
        grown == list + part,
    ensures
        grown.len() == list.len() + part.len(),
        forall|i: int| 0 <= i < list.len() ==> #[trigger] grown[i] == list[i],
        part.len() > 0 ==> grown[list.len() as int] == part[0],
        part.len() > 1 ==> grown[list.len() as int + 1] == part[1],
{
}

/// The lines about the options: none where every option has its default, else a heading and
/// then one line for each option that has not, in a fixed order; control groups have a second
/// line with the ids that were found.
pub proof fn law_lines_of_the_banner(o: Options, groups: MetricGroups, ids: Option<Seq<u64>>)
    ensures
        ({
            let lines = o.banner_lines(groups, ids);
            let active = o.comm@.len() > 0 || o.global_comm@.len() > 0 || o.cgroup@.len() > 0
                || o.pid is Some || o.min_latency is Some || o.no_collapse || o.run_time is Some
                || !(o.group@.len() == 1 && o.group@[0]@ == "latency"@);
            let comm = 1 + if o.comm@.len() > 0 { 1int } else { 0 };
            let global = comm + if o.global_comm@.len() > 0 { 1int } else { 0 };
            let cgroup = global + if o.cgroup@.len() == 0 {
                0int
            } else if ids is Some {
                2
            } else {
                1
            };
            let pid = cgroup + if o.pid is Some { 1int } else { 0 };
            let latency = pid + if o.min_latency is Some { 1int } else { 0 };
            let collapse = latency + if o.no_collapse { 1int } else { 0 };
            let run_time = collapse + if o.run_time is Some { 1int } else { 0 };
            let names = groups@.names();
            let total = run_time + if names.len() > 0 { 1int } else { 0 };
            let count = if ids is Some { ids->0.len() } else { 0 };
            &&& !active ==> lines.len() == 0
            &&& active ==> {
                &&& lines.len() == total
                &&& lines[0] == "Options active:"@
                &&& o.comm@.len() == 1 ==> lines[1] == "  - Command pattern: "@ + o.comm@[0]@
                &&& o.comm@.len() > 1 ==> lines[1] == "  - Command patterns: "@ + joined(
                    texts(o.comm@),
                    ", "@,
                )
                &&& o.global_comm@.len() == 1 ==> lines[comm] == "  - Global command pattern: "@
                    + o.global_comm@[0]@
                &&& o.global_comm@.len() > 1 ==> lines[comm] == "  - Global command patterns: "@
                    + joined(texts(o.global_comm@), ", "@)
                &&& o.cgroup@.len() == 1 ==> lines[global] == "  - Cgroup pattern: "@
                    + o.cgroup@[0]@ + (" (matched "@ + decimal(count) + " cgroups)"@)
                &&& o.cgroup@.len() > 1 ==> lines[global] == "  - Cgroup patterns: "@ + joined(
                    texts(o.cgroup@),
                    ", "@,
                ) + (" (matched "@ + decimal(count) + " cgroups)"@)
                &&& o.cgroup@.len() > 0 && ids is Some ==> lines[global + 1]
                    == "  - Resolved cgroup IDs: "@ + ("["@ + joined(
                    Seq::new(ids->0.len(), |i: int| decimal(ids->0[i] as nat)),
                    ", "@,
                ) + "]"@)
                &&& o.pid is Some ==> lines[cgroup] == "  - PID: "@ + decimal(o.pid->0 as nat)
                &&& o.min_latency is Some ==> lines[pid] == "  - Minimum latency: "@ + decimal(
                    o.min_latency->0 as nat,
                ) + "μs"@
                &&& o.no_collapse ==> lines[latency] == "  - Not collapsing by command name"@
                &&& o.run_time is Some ==> lines[collapse] == "  - Runtime limit: "@ + decimal(
                    o.run_time->0 as nat,
                ) + " seconds"@
                &&& names.len() > 0 ==> lines[run_time] == "  - Metric groups: "@ + joined(
                    names,
                    ", "@,
                )
            }
        }),
{
    let lines = o.banner_lines(groups, ids);
    lemma_active(o);
    if o.any_active() {
        let p1 = pattern_lines(
            "  - Command pattern: "@,
            "  - Command patterns: "@,
            texts(o.comm@),
        );
        let p2 = pattern_lines(
            "  - Global command pattern: "@,
            "  - Global command patterns: "@,
            texts(o.global_comm@),
        );
        let p3 = cgroup_lines(texts(o.cgroup@), ids);
        let p4 = match o.pid {
            Some(pid) => seq!["  - PID: "@ + decimal(pid as nat)],
            None => seq![],
        };
        let p5 = match o.min_latency {
            Some(us) => seq!["  - Minimum latency: "@ + decimal(us as nat) + "μs"@],
            None => seq![],
        };
        let p6 = if o.no_collapse {
            seq!["  - Not collapsing by command name"@]
        } else {
            seq![]
        };
        let p7 = match o.run_time {
            Some(secs) => seq!["  - Runtime limit: "@ + decimal(secs as nat) + " seconds"@],
            None => seq![],
        };
        let p8 = if groups@.names().len() > 0 {
            seq!["  - Metric groups: "@ + joined(groups@.names(), ", "@)]
        } else {
            seq![]
        };
        lemma_parts_in_order("Options active:"@, p1, p2, p3, p4, p5, p6, p7, p8, lines);
        lemma_pattern_part("  - Command pattern: "@, "  - Command patterns: "@, o.comm@);
        lemma_pattern_part(
            "  - Global command pattern: "@,
            "  - Global command patterns: "@,
            o.global_comm@,
        );
        lemma_cgroup_part(o.cgroup@, ids);
    }
}

/// Where each of the parts of a list begins.
proof fn lemma_parts_in_order(
    first: Seq<char>,
    p1: Seq<Seq<char>>,
    p2: Seq<Seq<char>>,
    p3: Seq<Seq<char>>,
    p4: Seq<Seq<char>>,
    p5: Seq<Seq<char>>,
    p6: Seq<Seq<char>>,
    p7: Seq<Seq<char>>,
    p8: Seq<Seq<char>>,
    lines: Seq<Seq<char>>,
)
    requires
        lines == seq![first] + p1 + p2 + p3 + p4 + p5 + p6 + p7 + p8,
    ensures
        ({
            let n1 = 1 + p1.len() as int;
            let n2 = n1 + p2.len();
            let n3 = n2 + p3.len();
            let n4 = n3 + p4.len();
            let n5 = n4 + p5.len();
            let n6 = n5 + p6.len();
            let n7 = n6 + p7.len();
            &&& lines.len() == n7 + p8.len()
            &&& lines[0] == first
            &&& p1.len() > 0 ==> lines[1] == p1[0]
            &&& p2.len() > 0 ==> lines[n1] == p2[0]
            &&& p3.len() > 0 ==> lines[n2] == p3[0]
            &&& p3.len() > 1 ==> lines[n2 + 1] == p3[1]
            &&& p4.len() > 0 ==> lines[n3] == p4[0]
            &&& p5.len() > 0 ==> lines[n4] == p5[0]
            &&& p6.len() > 0 ==> lines[n5] == p6[0]
            &&& p7.len() > 0 ==> lines[n6] == p7[0]
            &&& p8.len() > 0 ==> lines[n7] == p8[0]
        }),
{
    let s0 = seq![first];
    let s1 = s0 + p1;
    let s2 = s1 + p2;
    let s3 = s2 + p3;
    let s4 = s3 + p4;
    let s5 = s4 + p5;
    let s6 = s5 + p6;
    let s7 = s6 + p7;
    lemma_part_appended(s0, p1, s1);
    lemma_part_appended(s1, p2, s2);
    lemma_part_appended(s2, p3, s3);
    lemma_part_appended(s3, p4, s4);
    lemma_part_appended(s4, p5, s5);
    lemma_part_appended(s5, p6, s6);
    lemma_part_appended(s6, p7, s7);
    lemma_part_appended(s7, p8, lines);
}

/// The line of a list of patterns.
proof fn lemma_pattern_part(one: Seq<char>, many: Seq<char>, patterns: Seq<String>)
    ensures
        pattern_lines(one, many, texts(patterns)).len() == if patterns.len() > 0 {
            1nat
        } else {
            0
        },
        patterns.len() == 1 ==> pattern_lines(one, many, texts(patterns))[0] == one + patterns[0]@,
        patterns.len() > 1 ==> pattern_lines(one, many, texts(patterns))[0] == many + joined(
            texts(patterns),
            ", "@,
        ),
{
    assert(texts(patterns).len() == patterns.len());
    if patterns.len() == 1 {
        assert(texts(patterns)[0] == patterns[0]@);
    }
}

/// The lines about control groups.
proof fn lemma_cgroup_part(patterns: Seq<String>, ids: Option<Seq<u64>>)
    ensures
        ({
            let lines = cgroup_lines(texts(patterns), ids);
            let count = if ids is Some {
                ids->0.len()
            } else {
                0
            };
            let matched = " (matched "@ + decimal(count) + " cgroups)"@;
            &&& lines.len() == if patterns.len() == 0 {
                0nat
            } else if ids is Some {
                2
            } else {
                1
            }
            &&& patterns.len() == 1 ==> lines[0] == "  - Cgroup pattern: "@ + patterns[0]@ + matched
            &&& patterns.len() > 1 ==> lines[0] == "  - Cgroup patterns: "@ + joined(
                texts(patterns),
                ", "@,
            ) + matched
            &&& patterns.len() > 0 && ids is Some ==> lines[1] == "  - Resolved cgroup IDs: "@ + (
            "["@ + joined(Seq::new(ids->0.len(), |i: int| decimal(ids->0[i] as nat)), ", "@)
                + "]"@)
        }),
{
    assert(texts(patterns).len() == patterns.len());
    if patterns.len() == 1 {
        assert(texts(patterns)[0] == patterns[0]@);
    }
    if let Some(list) = ids {
        assert(list.map_values(|n: u64| decimal(n as nat)) =~= Seq::new(
            list.len(),
            |i: int| decimal(ids->0[i] as nat),
        ));
    }
}

/// When some option differs from its default.
proof fn lemma_active(o: Options)
    ensures
        o.any_active() <==> (o.comm@.len() > 0 || o.global_comm@.len() > 0 || o.cgroup@.len() > 0
            || o.pid is Some || o.min_latency is Some || o.no_collapse || o.run_time is Some || !(
        o.group@.len() == 1 && o.group@[0]@ == "latency"@)),
{
    let names = texts(o.group@);
    assert(names.len() == o.group@.len());
    if o.group@.len() == 1 && o.group@[0]@ == "latency"@ {
        assert(names =~= seq!["latency"@]);
    } else if names == seq!["latency"@] {
        assert(names[0] == o.group@[0]@);
    }
}

} // verus!
