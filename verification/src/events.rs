//! Which hardware events are counted.
use crate::records::MAX_GENERIC_EVENTS;
use crate::text::{decimal, decimal_text, lemma_texts_push, texts};
use vstd::prelude::*;

verus! {

/// An event of the kernel's performance counters.
#[derive(Copy, Clone)]
pub struct PmuEvent {
    pub perf_type: u32,
    pub config: u64,
}

/// The events that a name stands for. Instructions per cycle have counters of their own.
pub struct PmuEventSet {
    pub name: String,
    pub events: Vec<PmuEvent>,
    pub is_ipc: bool,
}

/// The events that need a selectable counter, each with the name it was asked for by, and
/// whether instructions per cycle are counted too.
pub struct EventPlan {
    pub names: Vec<String>,
    pub configs: Vec<(u32, u64)>,
    pub has_ipc: bool,
}

/// More events than there are selectable counters.
pub struct TooManyEvents {
    pub count: usize,
}

/// The type and the configuration of an event.
pub open spec fn config_of(e: PmuEvent) -> (u32, u64) {
    (e.perf_type, e.config)
}

/// The selectable counters that a list of event sets needs, in order.
pub open spec fn counted_configs(sets: Seq<PmuEventSet>) -> Seq<(u32, u64)>
    decreases sets.len(),
{
    if sets.len() == 0 {
        Seq::empty()
    } else if sets.last().is_ipc {
        counted_configs(sets.drop_last())
    } else {
        counted_configs(sets.drop_last()) + sets.last().events@.map_values(
            |e: PmuEvent| config_of(e),
        )
    }
}

/// The names that go with the selectable counters, in order.
pub open spec fn counted_names(sets: Seq<PmuEventSet>) -> Seq<Seq<char>>
    decreases sets.len(),
{
    if sets.len() == 0 {
        Seq::empty()
    } else if sets.last().is_ipc {
        counted_names(sets.drop_last())
    } else {
        counted_names(sets.drop_last()) + Seq::new(
            sets.last().events@.len(),
            |i: int| sets.last().name@,
        )
    }
}

impl TooManyEvents {
    /// What is wrong, in words.
    pub fn message(&self) -> (text: String)
        ensures
            text@ == "Too many generic perf events ("@ + decimal(self.count as nat) + ", max "@
                + decimal(MAX_GENERIC_EVENTS as nat) + ")"@,
    {
        let mut text = "Too many generic perf events (".to_owned();
        text.append(decimal_text(self.count as u64).as_str());
        text.append(", max ");
        text.append(decimal_text(MAX_GENERIC_EVENTS as u64).as_str());
        text.append(")");
        text
    }
}

/// Lays out the counters for a list of event sets.
pub fn plan_events(sets: &Vec<PmuEventSet>) -> (r: Result<EventPlan, TooManyEvents>)
    ensures
        match r {
            Ok(plan) => {
                &&& plan.configs@ == counted_configs(sets@)
                &&& texts(plan.names@) == counted_names(sets@)
                &&& plan.has_ipc <==> exists|i: int| 0 <= i < sets.len() && #[trigger] sets@[i].is_ipc
                &&& counted_configs(sets@).len() <= MAX_GENERIC_EVENTS
            },
            Err(e) => {
                &&& counted_configs(sets@).len() > MAX_GENERIC_EVENTS
                &&& e.count == counted_configs(sets@).len()
            },
        },
{
    let mut names: Vec<String> = Vec::new();
    let mut configs: Vec<(u32, u64)> = Vec::new();
    let mut has_ipc = false;
    let mut i: usize = 0;
    while i < sets.len()
        invariant
            i <= sets.len(),
            configs@ == counted_configs(sets@.take(i as int)),
            texts(names@) == counted_names(sets@.take(i as int)),
            has_ipc <==> exists|j: int| 0 <= j < i && #[trigger] sets@[j].is_ipc,
        decreases sets.len() - i,
    {
        let set = &sets[i];
        assert(sets@.take(i + 1).drop_last() =~= sets@.take(i as int));
        assert(sets@.take(i + 1).last() == *set);
        if set.is_ipc {
            has_ipc = true;
            assert(sets@[i as int].is_ipc);
        } else {
            let ghost configs0 = configs@;
            let ghost names0 = texts(names@);
            let mut k: usize = 0;
            assert(configs@ =~= configs0 + set.events@.take(0).map_values(
                |e: PmuEvent| config_of(e),
            ));
            assert(texts(names@) =~= names0 + Seq::new(0, |j: int| set.name@));
            while k < set.events.len()
                invariant
                    k <= set.events.len(),
                    configs@ == configs0 + set.events@.take(k as int).map_values(
                        |e: PmuEvent| config_of(e),
                    ),
                    texts(names@) == names0 + Seq::new(k as nat, |j: int| set.name@),
                decreases set.events.len() - k,
            {
                let ev = &set.events[k];
                proof {
                    lemma_texts_push(names@, set.name);
                }
                names.push(set.name.clone());
                configs.push((ev.perf_type, ev.config));
                k = k + 1;
                assert(configs@ =~= configs0 + set.events@.take(k as int).map_values(
                    |e: PmuEvent| config_of(e),
                ));
                assert(texts(names@) =~= names0 + Seq::new(k as nat, |j: int| set.name@));
            }
            assert(set.events@.take(k as int) =~= set.events@);
            assert(texts(names@) =~= counted_names(sets@.take(i + 1)));
        }
        i = i + 1;
    }
    assert(sets@.take(i as int) =~= sets@);
    if configs.len() > MAX_GENERIC_EVENTS {
        Err(TooManyEvents { count: configs.len() })
    } else {
        Ok(EventPlan { names, configs, has_ipc })
    }
}

/// Every selectable counter has a name, and no name goes without a counter.
pub proof fn law_each_counter_has_a_name(sets: Seq<PmuEventSet>)
    ensures
        counted_names(sets).len() == counted_configs(sets).len(),
    decreases sets.len(),
{
    if sets.len() > 0 {
        law_each_counter_has_a_name(sets.drop_last());
    }
}

/// The counters of a list of event sets are those of each set, one set after the other: none
/// for instructions per cycle, else one for each event, with its type and configuration and
/// the name of its set.
pub proof fn law_counters_of_event_sets(a: Seq<PmuEventSet>, b: Seq<PmuEventSet>, set: PmuEventSet)
    ensures
        counted_configs(Seq::empty()) == Seq::<(u32, u64)>::empty(),
        counted_names(Seq::empty()) == Seq::<Seq<char>>::empty(),
        counted_configs(a + b) == counted_configs(a) + counted_configs(b),
        counted_names(a + b) == counted_names(a) + counted_names(b),
        set.is_ipc ==> counted_configs(seq![set]).len() == 0 && counted_names(seq![set]).len() == 0,
        !set.is_ipc ==> counted_configs(seq![set]).len() == set.events@.len() && counted_names(
            seq![set],
        ).len() == set.events@.len(),
        !set.is_ipc ==> forall|i: int|
            0 <= i < set.events@.len() ==> #[trigger] counted_configs(seq![set])[i] == (
                set.events@[i].perf_type,
                set.events@[i].config,
            ),
        !set.is_ipc ==> forall|i: int|
            0 <= i < set.events@.len() ==> #[trigger] counted_names(seq![set])[i] == set.name@,
    decreases b.len(),
{
    reveal_with_fuel(counted_configs, 2);
    reveal_with_fuel(counted_names, 2);
    assert(seq![set].drop_last() =~= Seq::<PmuEventSet>::empty());
    assert(seq![set].last() == set);
    if b.len() == 0 {
        assert(a + b =~= a);
        assert(counted_configs(a) + counted_configs(b) =~= counted_configs(a));
        assert(counted_names(a) + counted_names(b) =~= counted_names(a));
    } else {
        law_counters_of_event_sets(a, b.drop_last(), set);
        assert((a + b).drop_last() =~= a + b.drop_last());
        assert((a + b).last() == b.last());
        assert(counted_configs(a + b) =~= counted_configs(a) + counted_configs(b));
        assert(counted_names(a + b) =~= counted_names(a) + counted_names(b));
    }
}

} // verus!
