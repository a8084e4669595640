//! Which metrics are collected and shown.
use crate::text::{
    join_texts, joined, lemma_texts_push, same_text, strip_prefix_text, texts,
};
use vstd::prelude::*;

verus! {

/// The metrics that are collected and shown.
pub struct MetricGroups {
    pub latency: bool,
    pub cpu_latency: bool,
    pub slice: bool,
    pub sleep: bool,
    pub cpu_idle: bool,
    pub perf: bool,
    pub perf_events: Vec<String>,
    pub schedstat: bool,
    pub waking: bool,
    pub migration: bool,
}

/// A `MetricGroups` with its event names as texts.
#[verifier::ext_equal]
pub struct GroupsView {
    pub latency: bool,
    pub cpu_latency: bool,
    pub slice: bool,
    pub sleep: bool,
    pub cpu_idle: bool,
    pub perf: bool,
    pub perf_events: Seq<Seq<char>>,
    pub schedstat: bool,
    pub waking: bool,
    pub migration: bool,
}

/// What the name of a metric group stands for.
pub enum GroupKind {
    All,
    Most,
    Latency,
    Slice,
    Sleep,
    /// The event that is counted.
    Perf(Seq<char>),
    Schedstat,
    Waking,
    Migration,
    /// No group of its own: it may be the name of an event.
    Other,
}

/// What a name stands for.
pub open spec fn kind_of(group: Seq<char>) -> GroupKind {
    if group == "all"@ {
        GroupKind::All
    } else if group == "most"@ {
        GroupKind::Most
    } else if group == "latency"@ {
        GroupKind::Latency
    } else if group == "slice"@ {
        GroupKind::Slice
    } else if group == "sleep"@ {
        GroupKind::Sleep
    } else if group == "perf"@ {
        GroupKind::Perf("ipc"@)
    } else if "perf="@.is_prefix_of(group) {
        GroupKind::Perf(group.skip("perf="@.len() as int))
    } else if group == "schedstat"@ {
        GroupKind::Schedstat
    } else if group == "waking"@ {
        GroupKind::Waking
    } else if group == "migration"@ {
        GroupKind::Migration
    } else {
        GroupKind::Other
    }
}

/// The event that has to be looked up before a name can be taken, if there is one.
pub open spec fn asked_event(group: Seq<char>) -> Option<Seq<char>> {
    match kind_of(group) {
        GroupKind::Perf(event) => Some(event),
        GroupKind::Other => Some(group),
        _ => None,
    }
}

/// A list of events with one more, unless it is there already.
pub open spec fn with_event(events: Seq<Seq<char>>, event: Seq<char>) -> Seq<Seq<char>> {
    if events.contains(event) {
        events
    } else {
        events.push(event)
    }
}

/// Why a list of group names is rejected.
pub enum GroupError {
    /// The event of a `perf` group is not known, for this reason.
    Event(String),
    /// This is the name of no group and of no event.
    Unknown(String),
}

/// A `GroupError` with its texts.
pub enum GroupErrorView {
    Event(Seq<char>),
    Unknown(Seq<char>),
}

/// The groups with all that the name `most` stands for. Where no event is counted yet,
/// instructions per cycle are.
pub open spec fn with_most(m: GroupsView) -> GroupsView {
    GroupsView {
        latency: true,
        cpu_latency: true,
        slice: true,
        sleep: true,
        cpu_idle: true,
        perf: true,
        perf_events: if m.perf_events.len() == 0 {
            seq!["ipc"@]
        } else {
            m.perf_events
        },
        schedstat: true,
        migration: true,
        ..m
    }
}

/// The groups after one more name, where `lookup` says whether its event is known and,
/// where it is not, why.
pub open spec fn selected(
    m: GroupsView,
    group: Seq<char>,
    lookup: Result<(), Seq<char>>,
) -> Result<GroupsView, GroupErrorView> {
    match kind_of(group) {
        GroupKind::All => Ok(GroupsView { waking: true, ..with_most(m) }),
        GroupKind::Most => Ok(with_most(m)),
        GroupKind::Latency => Ok(GroupsView { latency: true, cpu_latency: true, ..m }),
        GroupKind::Slice => Ok(GroupsView { slice: true, ..m }),
        GroupKind::Sleep => Ok(GroupsView { sleep: true, cpu_idle: true, ..m }),
        GroupKind::Perf(event) => match lookup {
            Ok(()) => Ok(
                GroupsView { perf: true, perf_events: with_event(m.perf_events, event), ..m },
            ),
            Err(e) => Err(GroupErrorView::Event(e)),
        },
        GroupKind::Schedstat => Ok(GroupsView { schedstat: true, ..m }),
        GroupKind::Waking => Ok(GroupsView { waking: true, ..m }),
        GroupKind::Migration => Ok(GroupsView { migration: true, ..m }),
        GroupKind::Other => match lookup {
            Ok(()) => Ok(
                GroupsView { perf: true, perf_events: with_event(m.perf_events, group), ..m },
            ),
            Err(_) => Err(GroupErrorView::Unknown(group)),
        },
    }
}

/// The texts of a list of lookups.
pub open spec fn lookup_texts(lookups: Seq<Result<(), String>>) -> Seq<Result<(), Seq<char>>> {
    lookups.map_values(|l: Result<(), String>| lookup_text(l))
}

/// The text of a lookup.
pub open spec fn lookup_text(lookup: Result<(), String>) -> Result<(), Seq<char>> {
    match lookup {
        Ok(()) => Ok(()),
        Err(e) => Err(e@),
    }
}

/// The groups that a list of names stands for, taken in order; the first name that is
/// rejected decides.
pub open spec fn parsed(groups: Seq<Seq<char>>, lookups: Seq<Result<(), Seq<char>>>) -> Result<
    GroupsView,
    GroupErrorView,
>
    decreases groups.len(),
{
    if groups.len() == 0 {
        Ok(GroupsView::none())
    } else {
        match parsed(groups.drop_last(), lookups) {
            Ok(m) => selected(m, groups.last(), lookups[groups.len() - 1]),
            Err(e) => Err(e),
        }
    }
}

impl GroupsView {
    /// No metric at all.
    pub open spec fn none() -> GroupsView {
        GroupsView {
            latency: false,
            cpu_latency: false,
            slice: false,
            sleep: false,
            cpu_idle: false,
            perf: false,
            perf_events: Seq::empty(),
            schedstat: false,
            waking: false,
            migration: false,
        }
    }

    /// What every selection keeps: the CPU side goes with the task side, and there is a
    /// list of different events exactly where events are counted.
    pub open spec fn consistent(self) -> bool {
        &&& self.cpu_latency == self.latency
        &&& self.cpu_idle == self.sleep
        &&& self.perf <==> self.perf_events.len() > 0
        &&& self.perf_events.no_duplicates()
    }

    /// Everything of `self` is also in `other`.
    pub open spec fn covered_by(self, other: GroupsView) -> bool {
        &&& self.latency ==> other.latency
        &&& self.cpu_latency ==> other.cpu_latency
        &&& self.slice ==> other.slice
        &&& self.sleep ==> other.sleep
        &&& self.cpu_idle ==> other.cpu_idle
        &&& self.perf ==> other.perf
        &&& self.perf_events.is_prefix_of(other.perf_events)
        &&& self.schedstat ==> other.schedstat
        &&& self.waking ==> other.waking
        &&& self.migration ==> other.migration
    }

    /// The names of the groups, as they are shown.
    pub open spec fn names(self) -> Seq<Seq<char>> {
        Seq::empty() + (if self.latency {
            seq!["latency"@]
        } else {
            seq![]
        }) + (if self.slice {
            seq!["slice"@]
        } else {
            seq![]
        }) + (if self.sleep {
            seq!["sleep"@]
        } else {
            seq![]
        }) + (if self.perf {
            seq!["perf="@ + joined(self.perf_events, ","@)]
        } else {
            seq![]
        }) + (if self.schedstat {
            seq!["schedstat"@]
        } else {
            seq![]
        }) + (if self.waking {
            seq!["waking"@]
        } else {
            seq![]
        }) + (if self.migration {
            seq!["migration"@]
        } else {
            seq![]
        })
    }
}

impl GroupError {
    pub open spec fn view(&self) -> GroupErrorView {
        match self {
            GroupError::Event(e) => GroupErrorView::Event(e@),
            GroupError::Unknown(g) => GroupErrorView::Unknown(g@),
        }
    }

    /// What is wrong, in words.
    pub fn message(&self) -> (text: String)
        ensures
            match self@ {
                GroupErrorView::Event(e) => text@ == e,
                GroupErrorView::Unknown(g) => text@ == "Unknown metric group: "@ + g
                    + ". Valid groups are: latency, slice, sleep, perf[=events], schedstat, waking, migration, most, all"@,
            },
    {
        match self {
            GroupError::Event(e) => e.clone(),
            GroupError::Unknown(g) => {
                let mut text = "Unknown metric group: ".to_owned();
                text.append(g.as_str());
                text.append(
                    ". Valid groups are: latency, slice, sleep, perf[=events], schedstat, waking, migration, most, all",
                );
                text
            },
        }
    }
}

/// A name, sorted by what it stands for.
enum Choice {
    All,
    Most,
    Latency,
    Slice,
    Sleep,
    Perf(String),
    Schedstat,
    Waking,
    Migration,
    Other,
}

impl Choice {
    spec fn view(&self) -> GroupKind {
        match self {
            Choice::All => GroupKind::All,
            Choice::Most => GroupKind::Most,
            Choice::Latency => GroupKind::Latency,
            Choice::Slice => GroupKind::Slice,
            Choice::Sleep => GroupKind::Sleep,
            Choice::Perf(e) => GroupKind::Perf(e@),
            Choice::Schedstat => GroupKind::Schedstat,
            Choice::Waking => GroupKind::Waking,
            Choice::Migration => GroupKind::Migration,
            Choice::Other => GroupKind::Other,
        }
    }

    fn of(group: &str) -> (c: Choice)
        ensures
            c@ == kind_of(group@),
    {
        if same_text(group, "all") {
            Choice::All
        } else if same_text(group, "most") {
            Choice::Most
        } else if same_text(group, "latency") {
            Choice::Latency
        } else if same_text(group, "slice") {
            Choice::Slice
        } else if same_text(group, "sleep") {
            Choice::Sleep
        } else if same_text(group, "perf") {
            Choice::Perf("ipc".to_owned())
        } else if let Some(event) = strip_prefix_text(group, "perf=") {
            proof {
                let prefix = "perf="@;
                assert(group@.take(prefix.len() as int) =~= prefix);
                assert(prefix.is_prefix_of(group@));
                assert(group@.skip(prefix.len() as int) =~= event@);
            }
            Choice::Perf(event)
        } else if same_text(group, "schedstat") {
            Choice::Schedstat
        } else if same_text(group, "waking") {
            Choice::Waking
        } else if same_text(group, "migration") {
            Choice::Migration
        } else {
            Choice::Other
        }
    }
}

/// The event that has to be looked up before a name can be taken, if there is one.
pub fn event_to_look_up(group: &str) -> (event: Option<String>)
    ensures
        match event {
            Some(e) => asked_event(group@) == Some(e@),
            None => asked_event(group@) is None,
        },
{
    match Choice::of(group) {
        Choice::Perf(event) => Some(event),
        Choice::Other => Some(group.to_owned()),
        _ => None,
    }
}

impl Default for MetricGroups {
    fn default() -> (m: Self)
        ensures
            m@ == GroupsView::none(),
    {
        let m = MetricGroups {
            latency: false,
            cpu_latency: false,
            slice: false,
            sleep: false,
            cpu_idle: false,
            perf: false,
            perf_events: Vec::new(),
            schedstat: false,
            waking: false,
            migration: false,
        };
        assert(m@ =~= GroupsView::none());
        m
    }
}

impl MetricGroups {
    pub open spec fn view(&self) -> GroupsView {
        GroupsView {
            latency: self.latency,
            cpu_latency: self.cpu_latency,
            slice: self.slice,
            sleep: self.sleep,
            cpu_idle: self.cpu_idle,
            perf: self.perf,
            perf_events: texts(self.perf_events@),
            schedstat: self.schedstat,
            waking: self.waking,
            migration: self.migration,
        }
    }

    /// Counts one more event, unless it is counted already.
    fn add_event(&mut self, event: String)
        ensures
            final(self)@ == (GroupsView {
                perf: true,
                perf_events: with_event(old(self)@.perf_events, event@),
                ..old(self)@
            }),
    {
        self.perf = true;
        let mut i: usize = 0;
        while i < self.perf_events.len()
            invariant
                i <= self.perf_events.len(),
                self@ == (GroupsView { perf: true, ..old(self)@ }),
                forall|j: int| 0 <= j < i ==> #[trigger] self@.perf_events[j] != event@,
            decreases self.perf_events.len() - i,
        {
            if self.perf_events[i] == event {
                assert(self@.perf_events[i as int] == event@);
                return;
            }
            assert(self@.perf_events[i as int] != event@);
            i = i + 1;
        }
        assert(!self@.perf_events.contains(event@));
        proof {
            lemma_texts_push(self.perf_events@, event);
        }
        self.perf_events.push(event);
    }

    /// Counts the default event where none is counted.
    fn default_event(&mut self)
        ensures
            final(self)@ == (GroupsView {
                perf: true,
                perf_events: if old(self)@.perf_events.len() == 0 {
                    seq!["ipc"@]
                } else {
                    old(self)@.perf_events
                },
                ..old(self)@
            }),
    {
        self.perf = true;
        if self.perf_events.len() == 0 {
            self.perf_events.push("ipc".to_owned());
            assert(self@.perf_events =~= seq!["ipc"@]);
        }
    }

    /// Takes one more name; `lookup` says whether its event is known and, where it is not,
    /// why. A name that is rejected changes nothing.
    pub fn select(&mut self, group: &str, lookup: &Result<(), String>) -> (r: Result<
        (),
        GroupError,
    >)
        ensures
            match selected(old(self)@, group@, lookup_text(*lookup)) {
                Ok(m) => r is Ok && final(self)@ == m,
                Err(e) => r is Err && r->Err_0@ == e && *final(self) == *old(self),
            },
    {
        match Choice::of(group) {
            Choice::All => {
                self.latency = true;
                self.cpu_latency = true;
                self.slice = true;
                self.sleep = true;
                self.cpu_idle = true;
                self.default_event();
                self.schedstat = true;
                self.waking = true;
                self.migration = true;
            },
            Choice::Most => {
                self.latency = true;
                self.cpu_latency = true;
                self.slice = true;
                self.sleep = true;
                self.cpu_idle = true;
                self.default_event();
                self.schedstat = true;
                self.migration = true;
            },
            Choice::Latency => {
                self.latency = true;
                self.cpu_latency = true;
            },
            Choice::Slice => {
                self.slice = true;
            },
            Choice::Sleep => {
                self.sleep = true;
                self.cpu_idle = true;
            },
            Choice::Perf(event) => match lookup {
                Ok(()) => {
                    self.add_event(event);
                },
                Err(e) => {
                    return Err(GroupError::Event(e.clone()));
                },
            },
            Choice::Schedstat => {
                self.schedstat = true;
            },
            Choice::Waking => {
                self.waking = true;
            },
            Choice::Migration => {
                self.migration = true;
            },
            Choice::Other => match lookup {
                Ok(()) => {
                    self.add_event(group.to_owned());
                },
                Err(_) => {
                    return Err(GroupError::Unknown(group.to_owned()));
                },
            },
        }
        Ok(())
    }

    /// The names of the groups, as they are shown.
    pub fn active_names(&self) -> (names: Vec<String>)
        ensures
            texts(names@) == self@.names(),
    {
        let mut names: Vec<String> = Vec::new();
        if self.latency {
            names.push("latency".to_owned());
        }
        if self.slice {
            names.push("slice".to_owned());
        }
        if self.sleep {
            names.push("sleep".to_owned());
        }
        if self.perf {
            let mut perf = "perf=".to_owned();
            perf.append(join_texts(&self.perf_events, ",").as_str());
            names.push(perf);
        }
        if self.schedstat {
            names.push("schedstat".to_owned());
        }
        if self.waking {
            names.push("waking".to_owned());
        }
        if self.migration {
            names.push("migration".to_owned());
        }
        assert(texts(names@) =~= self@.names());
        names
    }
}

/// The metric groups that a list of names stands for, where the lookup at each position
/// says whether the event of the name there is known. A name without an event needs no
/// lookup: what stands at its position does not matter.
pub fn parse_metric_groups(groups: &Vec<String>, lookups: &Vec<Result<(), String>>) -> (r: Result<
    MetricGroups,
    GroupError,
>)
    requires
        lookups.len() == groups.len(),
    ensures
        match parsed(texts(groups@), lookup_texts(lookups@)) {
            Ok(m) => r is Ok && r->Ok_0@ == m,
            Err(e) => r is Err && r->Err_0@ == e,
        },
{
    let mut metric_groups = MetricGroups::default();
    let ghost names = texts(groups@);
    let ghost looked = lookup_texts(lookups@);
    let mut i: usize = 0;
    while i < groups.len()
        invariant
            i <= groups.len(),
            lookups.len() == groups.len(),
            names == texts(groups@),
            looked == lookup_texts(lookups@),
            parsed(names.take(i as int), looked) == Ok::<_, GroupErrorView>(metric_groups@),
        decreases groups.len() - i,
    {
        assert(names.take(i + 1).drop_last() =~= names.take(i as int));
        assert(names.take(i + 1).last() == groups@[i as int]@);
        if let Err(e) = metric_groups.select(groups[i].as_str(), &lookups[i]) {
            proof {
                lemma_parsed_stop(names, looked, i + 1);
            }
            return Err(e);
        }
        i = i + 1;
    }
    assert(names.take(i as int) =~= names);
    Ok(metric_groups)
}

/// The first name that is rejected decides.
proof fn lemma_parsed_stop(
    groups: Seq<Seq<char>>,
    lookups: Seq<Result<(), Seq<char>>>,
    n: int,
)
    requires
        0 <= n <= groups.len(),
        parsed(groups.take(n), lookups) is Err,
    ensures
        parsed(groups, lookups) == parsed(groups.take(n), lookups),
    decreases groups.len() - n,
{
    if n == groups.len() {
        assert(groups.take(n) =~= groups);
    } else {
        assert(groups.take(n + 1).drop_last() =~= groups.take(n));
        lemma_parsed_stop(groups, lookups, n + 1);
    }
}

/// One more name keeps a selection consistent and takes nothing out of it.
pub proof fn law_selecting_only_adds(
    m: GroupsView,
    group: Seq<char>,
    lookup: Result<(), Seq<char>>,
)
    requires
        m.consistent(),
    ensures
        match selected(m, group, lookup) {
            Ok(n) => n.consistent() && m.covered_by(n),
            Err(_) => lookup is Err && asked_event(group) is Some,
        },
{
    match kind_of(group) {
        GroupKind::Perf(event) => lemma_with_event(m.perf_events, event),
        GroupKind::Other => lemma_with_event(m.perf_events, group),
        _ => {},
    }
}

proof fn lemma_with_event(events: Seq<Seq<char>>, event: Seq<char>)
    requires
        events.no_duplicates(),
    ensures
        with_event(events, event).no_duplicates(),
        with_event(events, event).contains(event),
        events.is_prefix_of(with_event(events, event)),
{
    if !events.contains(event) {
        let grown = events.push(event);
        assert(grown[events.len() as int] == event);
        assert forall|i: int, j: int|
            0 <= i < grown.len() && 0 <= j < grown.len() && i != j implies grown[i] != grown[j] by {
            if i < events.len() {
                assert(events.contains(events[i]));
            }
            if j < events.len() {
                assert(events.contains(events[j]));
            }
        }
    }
}

/// Whatever names are given, what they stand for is consistent, and a list is rejected only
/// where some event was looked up in vain.
pub proof fn law_parsed_is_consistent(
    groups: Seq<Seq<char>>,
    lookups: Seq<Result<(), Seq<char>>>,
)
    requires
        groups.len() <= lookups.len(),
    ensures
        match parsed(groups, lookups) {
            Ok(m) => m.consistent(),
            Err(_) => exists|i: int|
                0 <= i < groups.len() && asked_event(#[trigger] groups[i]) is Some && lookups[i]
                    is Err,
        },
    decreases groups.len(),
{
    if groups.len() > 0 {
        let init = groups.drop_last();
        law_parsed_is_consistent(init, lookups);
        match parsed(init, lookups) {
            Ok(m) => {
                law_selecting_only_adds(m, groups.last(), lookups[groups.len() - 1]);
                assert(groups.last() == groups[groups.len() - 1]);
            },
            Err(_) => {
                let i = choose|i: int|
                    0 <= i < init.len() && asked_event(#[trigger] init[i]) is Some && lookups[i]
                        is Err;
                assert(groups[i] == init[i]);
            },
        }
    }
}

/// Giving a name twice is the same as giving it once.
pub proof fn law_selecting_twice(m: GroupsView, group: Seq<char>, lookup: Result<(), Seq<char>>)
    requires
        m.consistent(),
    ensures
        match selected(m, group, lookup) {
            Ok(n) => selected(n, group, lookup) == Ok::<GroupsView, GroupErrorView>(n),
            Err(_) => true,
        },
{
    match kind_of(group) {
        GroupKind::Perf(event) => lemma_with_event(m.perf_events, event),
        GroupKind::Other => lemma_with_event(m.perf_events, group),
        _ => {},
    }
}

/// The group `all` is the group `most` and the group `waking`.
pub proof fn law_all_is_most_and_waking(m: GroupsView, lookup: Result<(), Seq<char>>)
    ensures
        match selected(m, "most"@, lookup) {
            Ok(n) => selected(n, "waking"@, lookup) == selected(m, "all"@, lookup),
            Err(_) => false,
        },
{
    reveal_strlit("all");
    reveal_strlit("most");
    reveal_strlit("latency");
    reveal_strlit("slice");
    reveal_strlit("sleep");
    reveal_strlit("perf");
    reveal_strlit("perf=");
    reveal_strlit("schedstat");
    reveal_strlit("waking");
    assert("all"@.len() != "most"@.len());
    assert("waking"@[0] != "perf="@[0]);
    assert(kind_of("most"@) == GroupKind::Most);
    assert(kind_of("all"@) == GroupKind::All);
    assert(kind_of("waking"@) == GroupKind::Waking);
}

/// The name is not one of the groups with a fixed meaning: it asks for an event.
pub open spec fn asks_for_event(group: Seq<char>) -> bool {
    &&& group != "all"@
    &&& group != "most"@
    &&& group != "latency"@
    &&& group != "slice"@
    &&& group != "sleep"@
    &&& group != "schedstat"@
    &&& group != "waking"@
    &&& group != "migration"@
}

/// The fixed names differ, and none of them starts like the name of an event.
proof fn lemma_names_differ(group: Seq<char>)
    ensures
        kind_of("all"@) is All,
        kind_of("most"@) is Most,
        kind_of("latency"@) is Latency,
        kind_of("slice"@) is Slice,
        kind_of("sleep"@) is Sleep,
        kind_of("schedstat"@) is Schedstat,
        kind_of("waking"@) is Waking,
        kind_of("migration"@) is Migration,
        kind_of("perf"@) == GroupKind::Perf("ipc"@),
        asks_for_event("perf"@),
        asks_for_event(group) <==> kind_of(group) is Perf || kind_of(group) is Other,
        kind_of(group) is Perf <==> group == "perf"@ || "perf="@.is_prefix_of(group),
        !("perf="@.is_prefix_of("perf"@)),
        "perf="@.is_prefix_of(group) ==> kind_of(group) == GroupKind::Perf(group.skip(5)),
{
    reveal_strlit("all");
    reveal_strlit("most");
    reveal_strlit("latency");
    reveal_strlit("slice");
    reveal_strlit("sleep");
    reveal_strlit("perf");
    reveal_strlit("perf=");
    reveal_strlit("schedstat");
    reveal_strlit("waking");
    reveal_strlit("migration");
    assert("most"@[0] != "perf"@[0]);
    assert("slice"@[2] != "sleep"@[2]);
    assert("schedstat"@[0] != "migration"@[0]);
    let prefix = "perf="@;
    assert(prefix.len() == 5);
    assert(prefix[0] == 'p');
    assert(prefix.is_prefix_of(group) ==> group.len() >= 5 && group[0] == 'p');
    assert(!prefix.is_prefix_of("schedstat"@)) by {
        assert("schedstat"@[0] != prefix[0]);
    }
    assert(!prefix.is_prefix_of("waking"@)) by {
        assert("waking"@[0] != prefix[0]);
    }
    assert(!prefix.is_prefix_of("migration"@)) by {
        assert("migration"@[0] != prefix[0]);
    }
    assert(!prefix.is_prefix_of("latency"@)) by {
        assert("latency"@[0] != prefix[0]);
    }
    assert(!prefix.is_prefix_of("slice"@)) by {
        assert("slice"@[0] != prefix[0]);
    }
    assert(!prefix.is_prefix_of("sleep"@)) by {
        assert("sleep"@[0] != prefix[0]);
    }
}

/// A name that is accepted has its effect whatever was selected before: each part of the
/// selection is on afterwards exactly where it was on before or the name stands for it.
pub proof fn law_a_name_has_its_effect(
    m: GroupsView,
    group: Seq<char>,
    lookup: Result<(), Seq<char>>,
)
    requires
        selected(m, group, lookup) is Ok,
    ensures
        ({
            let n = selected(m, group, lookup)->Ok_0;
            let all = group == "all"@;
            let most = group == "all"@ || group == "most"@;
            &&& n.latency == (m.latency || most || group == "latency"@)
            &&& n.cpu_latency == (m.cpu_latency || most || group == "latency"@)
            &&& n.slice == (m.slice || most || group == "slice"@)
            &&& n.sleep == (m.sleep || most || group == "sleep"@)
            &&& n.cpu_idle == (m.cpu_idle || most || group == "sleep"@)
            &&& n.perf == (m.perf || most || asks_for_event(group))
            &&& n.schedstat == (m.schedstat || most || group == "schedstat"@)
            &&& n.waking == (m.waking || all || group == "waking"@)
            &&& n.migration == (m.migration || most || group == "migration"@)
        }),
{
    lemma_names_differ(group);
}

/// A name that asks for an event has it counted: `perf` the event `ipc`, `perf=` the event
/// behind it, and any other name the event of that name. An event is listed once, behind
/// those listed before. The names `all` and `most` ask for `ipc` only where no event is
/// listed; the other names list none.
pub proof fn law_a_name_lists_its_event(
    m: GroupsView,
    group: Seq<char>,
    lookup: Result<(), Seq<char>>,
    event: Seq<char>,
)
    requires
        selected(m, group, lookup) is Ok,
    ensures
        ({
            let before = m.perf_events;
            let after = selected(m, group, lookup)->Ok_0.perf_events;
            let named = (group == "perf"@ && event == "ipc"@) || group == "perf="@ + event || (
            asks_for_event(group) && group != "perf"@ && !("perf="@.is_prefix_of(group)) && event
                == group);
            let most = group == "all"@ || group == "most"@;
            &&& named && before.contains(event) ==> after == before
            &&& named && !before.contains(event) ==> after == before.push(event)
            &&& most && before.len() == 0 ==> after == seq!["ipc"@]
            &&& most && before.len() > 0 ==> after == before
            &&& !most && !asks_for_event(group) ==> after == before
        }),
{
    lemma_names_differ(group);
    if group == "perf="@ + event {
        reveal_strlit("perf=");
        assert("perf="@.is_prefix_of(group)) by {
            assert(group.take(5) =~= "perf="@);
        }
        assert(group.skip(5) =~= event);
        if group == "perf"@ {
            assert(!("perf="@.is_prefix_of("perf"@)));
        }
    }
}

/// A name is rejected exactly where it asks for an event that is not known. For a `perf`
/// name the reason is that of the lookup; any other name is itself unknown.
pub proof fn law_rejected_names(m: GroupsView, group: Seq<char>, lookup: Result<(), Seq<char>>)
    ensures
        selected(m, group, lookup) is Err <==> asks_for_event(group) && lookup is Err,
        selected(m, group, lookup) is Err ==> selected(m, group, lookup)->Err_0 == (if group
            == "perf"@ || "perf="@.is_prefix_of(group) {
            GroupErrorView::Event(lookup->Err_0)
        } else {
            GroupErrorView::Unknown(group)
        }),
{
    lemma_names_differ(group);
}

/// Which event is looked up for a name.
pub proof fn law_looked_up_events(group: Seq<char>, event: Seq<char>)
    ensures
        asked_event(group) is Some <==> asks_for_event(group),
        asked_event("perf"@) == Some("ipc"@),
        asked_event("perf="@ + event) == Some(event),
        asks_for_event(group) && group != "perf"@ && !("perf="@.is_prefix_of(group))
            ==> asked_event(group) == Some(group),
{
    lemma_names_differ(group);
    let named = "perf="@ + event;
    lemma_names_differ(named);
    reveal_strlit("perf=");
    assert(named.take(5) =~= "perf="@);
    assert("perf="@.is_prefix_of(named));
    assert(named.skip(5) =~= event);
}

/// The names are taken one after the other: one more name adds what it stands for to what
/// those before it stand for, and a list that is rejected stays rejected.
pub proof fn law_names_are_taken_in_order(
    groups: Seq<Seq<char>>,
    more: Seq<char>,
    lookups: Seq<Result<(), Seq<char>>>,
)
    ensures
        parsed(Seq::empty(), lookups) == Ok::<GroupsView, GroupErrorView>(
            GroupsView {
                latency: false,
                cpu_latency: false,
                slice: false,
                sleep: false,
                cpu_idle: false,
                perf: false,
                perf_events: seq![],
                schedstat: false,
                waking: false,
                migration: false,
            },
        ),
        parsed(groups, lookups) is Err ==> parsed(groups.push(more), lookups) == parsed(
            groups,
            lookups,
        ),
        parsed(groups, lookups) is Ok ==> parsed(groups.push(more), lookups) == selected(
            parsed(groups, lookups)->Ok_0,
            more,
            lookups[groups.len() as int],
        ),
{
    assert(groups.push(more).drop_last() =~= groups);
}

/// What is in a list that grows by one name.
proof fn lemma_grown_contains(groups: Seq<Seq<char>>, name: Seq<char>)
    requires
        groups.len() > 0,
    ensures
        groups.contains(name) <==> groups.drop_last().contains(name) || groups.last() == name,
{
    let init = groups.drop_last();
    if init.contains(name) {
        let i = choose|i: int| 0 <= i < init.len() && init[i] == name;
        assert(groups[i] == name);
    }
    if groups.last() == name {
        assert(groups[groups.len() - 1] == name);
    }
    if groups.contains(name) {
        let i = choose|i: int| 0 <= i < groups.len() && groups[i] == name;
        if i < init.len() {
            assert(init[i] == name);
        }
    }
}

/// A metric is selected exactly where a name that stands for it is in the list, wherever it
/// stands; and every event that was asked for is counted.
pub proof fn law_every_name_counts(
    groups: Seq<Seq<char>>,
    lookups: Seq<Result<(), Seq<char>>>,
    event: Seq<char>,
)
    requires
        parsed(groups, lookups) is Ok,
    ensures
        ({
            let m = parsed(groups, lookups)->Ok_0;
            let most = groups.contains("all"@) || groups.contains("most"@);
            &&& m.latency == (most || groups.contains("latency"@))
            &&& m.cpu_latency == (most || groups.contains("latency"@))
            &&& m.slice == (most || groups.contains("slice"@))
            &&& m.sleep == (most || groups.contains("sleep"@))
            &&& m.cpu_idle == (most || groups.contains("sleep"@))
            &&& m.schedstat == (most || groups.contains("schedstat"@))
            &&& m.waking == (groups.contains("all"@) || groups.contains("waking"@))
            &&& m.migration == (most || groups.contains("migration"@))
            &&& m.perf <==> most || exists|g: Seq<char>| #[trigger]
                groups.contains(g) && asks_for_event(g)
            &&& most ==> m.perf_events.len() > 0
            &&& groups.contains("perf"@) ==> m.perf_events.contains("ipc"@)
            &&& groups.contains("perf="@ + event) ==> m.perf_events.contains(event)
            &&& groups.contains(event) && asks_for_event(event) && event != "perf"@ && !(
            "perf="@.is_prefix_of(event)) ==> m.perf_events.contains(event)
            &&& m.perf_events.contains(event) ==> {
                ||| groups.contains("perf="@ + event)
                ||| (groups.contains(event) && asks_for_event(event))
                ||| (event == "ipc"@ && (most || groups.contains("perf"@)))
            }
        }),
    decreases groups.len(),
{
    if groups.len() > 0 {
        let init = groups.drop_last();
        let last = groups.last();
        let lookup = lookups[groups.len() - 1];
        law_every_name_counts(init, lookups, event);
        law_every_name_counts(init, lookups, "ipc"@);
        let m = parsed(init, lookups)->Ok_0;
        let n = parsed(groups, lookups)->Ok_0;
        law_a_name_has_its_effect(m, last, lookup);
        law_a_name_lists_its_event(m, last, lookup, event);
        law_a_name_lists_its_event(m, last, lookup, "ipc"@);
        law_a_name_lists_its_event(m, last, lookup, last);
        lemma_names_differ(last);
        if "perf="@.is_prefix_of(last) {
            reveal_strlit("perf=");
            assert("perf="@ + last.skip(5) =~= last);
            law_a_name_lists_its_event(m, last, lookup, last.skip(5));
        }
        lemma_grown_contains(groups, "all"@);
        lemma_grown_contains(groups, "most"@);
        lemma_grown_contains(groups, "latency"@);
        lemma_grown_contains(groups, "slice"@);
        lemma_grown_contains(groups, "sleep"@);
        lemma_grown_contains(groups, "schedstat"@);
        lemma_grown_contains(groups, "waking"@);
        lemma_grown_contains(groups, "migration"@);
        lemma_grown_contains(groups, "perf"@);
        lemma_grown_contains(groups, "perf="@ + event);
        lemma_grown_contains(groups, event);
        assert forall|g: Seq<char>| #[trigger]
            groups.contains(g) <==> init.contains(g) || last == g by {
            lemma_grown_contains(groups, g);
        }
        assert(groups.contains(last));
        if exists|g: Seq<char>| #[trigger] init.contains(g) && asks_for_event(g) {
            let g = choose|g: Seq<char>| #[trigger] init.contains(g) && asks_for_event(g);
            assert(groups.contains(g));
        }
        lemma_event_stays(m.perf_events, n.perf_events, event);
        lemma_event_stays(m.perf_events, n.perf_events, "ipc"@);
    }
}

/// How a list of events grows by at most one.
proof fn lemma_event_stays(before: Seq<Seq<char>>, after: Seq<Seq<char>>, event: Seq<char>)
    ensures
        after == before && before.contains(event) ==> after.contains(event),
        forall|e: Seq<char>|
            after == #[trigger] before.push(e) ==> (after.contains(event) <==> before.contains(
                event,
            ) || e == event),
        after == seq!["ipc"@] ==> (after.contains(event) <==> event == "ipc"@),
{
    assert forall|e: Seq<char>| after == #[trigger] before.push(e) implies (after.contains(event)
        <==> before.contains(event) || e == event) by {
        lemma_grown_contains(after, event);
        assert(after.drop_last() =~= before);
    }
    if after == seq!["ipc"@] {
        assert(after[0] == "ipc"@);
    }
}

/// The first name that asks for an unknown event is what a list is rejected for; a list
/// without such a name is accepted.
pub proof fn law_first_unknown_event_is_the_error(
    groups: Seq<Seq<char>>,
    lookups: Seq<Result<(), Seq<char>>>,
    n: int,
)
    requires
        groups.len() <= lookups.len(),
        0 <= n <= groups.len(),
        forall|j: int|
            0 <= j < n ==> !(asks_for_event(#[trigger] groups[j]) && lookups[j] is Err),
    ensures
        n == groups.len() ==> parsed(groups, lookups) is Ok,
        n < groups.len() && asks_for_event(groups[n]) && lookups[n] is Err ==> parsed(
            groups,
            lookups,
        ) == Err::<GroupsView, _>(
            if groups[n] == "perf"@ || "perf="@.is_prefix_of(groups[n]) {
                GroupErrorView::Event(lookups[n]->Err_0)
            } else {
                GroupErrorView::Unknown(groups[n])
            },
        ),
    decreases groups.len(),
{
    if groups.len() > 0 {
        let init = groups.drop_last();
        let last = groups.len() - 1;
        let k = if n < groups.len() {
            n
        } else {
            last
        };
        assert forall|j: int| 0 <= j < k implies !(asks_for_event(#[trigger] init[j])
            && lookups[j] is Err) by {
            assert(init[j] == groups[j]);
        }
        law_first_unknown_event_is_the_error(init, lookups, k);
        if parsed(init, lookups) is Ok {
            law_rejected_names(parsed(init, lookups)->Ok_0, groups.last(), lookups[last]);
        }
        if n < last {
            assert(init[n] == groups[n]);
        }
    }
}

/// The names that are shown stand in a fixed order, each where its metric is selected.
pub proof fn law_shown_names(m: GroupsView)
    ensures
        ({
            let names = m.names();
            let latency = if m.latency { 1int } else { 0 };
            let slice = latency + if m.slice { 1int } else { 0 };
            let sleep = slice + if m.sleep { 1int } else { 0 };
            let perf = sleep + if m.perf { 1int } else { 0 };
            let schedstat = perf + if m.schedstat { 1int } else { 0 };
            let waking = schedstat + if m.waking { 1int } else { 0 };
            let migration = waking + if m.migration { 1int } else { 0 };
            &&& names.len() == migration
            &&& m.latency ==> names[0] == "latency"@
            &&& m.slice ==> names[latency] == "slice"@
            &&& m.sleep ==> names[slice] == "sleep"@
            &&& m.perf ==> names[sleep] == "perf="@ + joined(m.perf_events, ","@)
            &&& m.schedstat ==> names[perf] == "schedstat"@
            &&& m.waking ==> names[schedstat] == "waking"@
            &&& m.migration ==> names[waking] == "migration"@
        }),
{
    let s0 = Seq::<Seq<char>>::empty();
    let s1 = s0 + (if m.latency { seq!["latency"@] } else { seq![] });
    let s2 = s1 + (if m.slice { seq!["slice"@] } else { seq![] });
    let s3 = s2 + (if m.sleep { seq!["sleep"@] } else { seq![] });
    let perf = "perf="@ + joined(m.perf_events, ","@);
    let s4 = s3 + (if m.perf { seq![perf] } else { seq![] });
    let s5 = s4 + (if m.schedstat { seq!["schedstat"@] } else { seq![] });
    let s6 = s5 + (if m.waking { seq!["waking"@] } else { seq![] });
    let s7 = s6 + (if m.migration { seq!["migration"@] } else { seq![] });
    lemma_appended(s0, m.latency, "latency"@, s1);
    lemma_appended(s1, m.slice, "slice"@, s2);
    lemma_appended(s2, m.sleep, "sleep"@, s3);
    lemma_appended(s3, m.perf, perf, s4);
    lemma_appended(s4, m.schedstat, "schedstat"@, s5);
    lemma_appended(s5, m.waking, "waking"@, s6);
    lemma_appended(s6, m.migration, "migration"@, s7);
    assert(m.names() == s7);
}

/// A list with one more text, where it is wanted.
pub(crate) proof fn lemma_appended(
    list: Seq<Seq<char>>,
    wanted: bool,
    text: Seq<char>,
    grown: Seq<Seq<char>>,
)
    requires
        grown == list + (if wanted {
            seq![text]
        } else {
            seq![]
        }),
    ensures
        grown.len() == list.len() + if wanted { 1int } else { 0 },
        forall|i: int| 0 <= i < list.len() ==> #[trigger] grown[i] == list[i],
        wanted ==> grown[list.len() as int] == text,
{
}

/// What a selection, an error and a lookup show of themselves is what they hold.
pub proof fn law_views_hide_nothing(
    m: MetricGroups,
    error: GroupError,
    lookups: Seq<Result<(), String>>,
    i: int,
)
    requires
        0 <= i < lookups.len(),
    ensures
        m@.latency == m.latency,
        m@.cpu_latency == m.cpu_latency,
        m@.slice == m.slice,
        m@.sleep == m.sleep,
        m@.cpu_idle == m.cpu_idle,
        m@.perf == m.perf,
        m@.perf_events.len() == m.perf_events@.len(),
        forall|k: int|
            0 <= k < m.perf_events@.len() ==> #[trigger] m@.perf_events[k] == m.perf_events@[k]@,
        m@.schedstat == m.schedstat,
        m@.waking == m.waking,
        m@.migration == m.migration,
        match error {
            GroupError::Event(e) => error@ == GroupErrorView::Event(e@),
            GroupError::Unknown(g) => error@ == GroupErrorView::Unknown(g@),
        },
        lookup_texts(lookups).len() == lookups.len(),
        lookup_texts(lookups)[i] == lookup_text(lookups[i]),
        match lookups[i] {
            Ok(()) => lookup_text(lookups[i]) is Ok,
            Err(e) => lookup_text(lookups[i]) == Err::<(), _>(e@),
        },
{
}

} // verus!
