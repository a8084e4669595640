//! Listing the hardware events that the machine knows.
use crate::text::{pad_text, padded, signed_decimal, signed_decimal_text};
use vstd::prelude::*;

verus! {

/// Width of the column of event names.
pub const NAME_WIDTH: usize = 40;

/// What is known of a unit that counts events. A name or a description that is missing or
/// not in UTF-8 is `None`.
pub struct PmuInfo {
    pub present: bool,
    pub name: Option<String>,
    pub desc: Option<String>,
    pub nevents: i32,
    pub first_event: i32,
}

/// What is known of an event.
pub struct EventInfo {
    pub name: Option<String>,
    pub desc: Option<String>,
}

/// A text, or what stands for a missing one.
pub open spec fn text_or(text: Option<String>, missing: Seq<char>) -> Seq<char> {
    match text {
        Some(t) => t@,
        None => missing,
    }
}

/// The line of a unit.
pub open spec fn pmu_line(info: PmuInfo) -> Seq<char> {
    "PMU: "@ + text_or(info.name, "?"@) + " - "@ + text_or(info.desc, ""@) + " ("@
        + signed_decimal(info.nevents as int) + " events)"@
}

/// The line of an event.
pub open spec fn event_line(info: EventInfo) -> Seq<char> {
    "  "@ + padded(text_or(info.name, "?"@), NAME_WIDTH as nat) + " "@ + text_or(info.desc, ""@)
}

fn text_or_else(text: &Option<String>, missing: &str) -> (s: String)
    ensures
        s@ == text_or(*text, missing@),
{
    match text {
        Some(t) => t.clone(),
        None => missing.to_owned(),
    }
}

/// Writes the line of a unit.
pub fn write_pmu_line(info: &PmuInfo) -> (line: String)
    ensures
        line@ == pmu_line(*info),
{
    let mut line = "PMU: ".to_owned();
    line.append(text_or_else(&info.name, "?").as_str());
    line.append(" - ");
    line.append(text_or_else(&info.desc, "").as_str());
    line.append(" (");
    line.append(signed_decimal_text(info.nevents).as_str());
    line.append(" events)");
    line
}

/// Writes the line of an event.
pub fn write_event_line(info: &EventInfo) -> (line: String)
    ensures
        line@ == event_line(*info),
{
    let mut line = "  ".to_owned();
    line.append(pad_text(text_or_else(&info.name, "?").as_str(), NAME_WIDTH).as_str());
    line.append(" ");
    line.append(text_or_else(&info.desc, "").as_str());
    line
}

/// What the calls of libpfm return when they succeed.
pub const PFM_SUCCESS: i32 = 0;

/// The heading of the list.
pub open spec fn heading() -> Seq<char> {
    "=== libpfm4 Events ==="@
}

/// What is to be done next.
#[derive(PartialEq, Eq, Structural, Clone, Copy)]
pub enum ListAction {
    /// Initialise libpfm.
    Initialize,
    /// Ask what is known of this unit.
    QueryPmu(u32),
    /// Ask what is known of this event.
    QueryEvent(i32),
    /// Ask which event comes after this one.
    QueryNext(i32),
    /// Terminate libpfm.
    Terminate,
    /// Nothing: the list is complete.
    Done,
    /// Nothing: libpfm could not be initialised.
    Fail,
}

impl ListAction {
    /// How the listing ends, where this is its end.
    pub fn outcome(self) -> (r: Option<Result<(), String>>)
        ensures
            match self {
                ListAction::Done => r == Some(Ok::<(), String>(())),
                ListAction::Fail => r is Some && r->0 is Err && r->0->Err_0@
                    == "Failed to initialize libpfm4"@,
                _ => r is None,
            },
    {
        match self {
            ListAction::Done => Some(Ok(())),
            ListAction::Fail => Some(Err("Failed to initialize libpfm4".to_owned())),
            _ => None,
        }
    }
}

/// What came of the last action. For a question, `None` means that it failed.
pub enum ListReply {
    /// Nothing was done yet.
    Start,
    /// What the initialisation returned.
    Initialized(i32),
    Pmu(Option<PmuInfo>),
    Event(Option<EventInfo>),
    /// The next event; negative where there is none.
    Next(i32),
    /// libpfm was terminated.
    Terminated,
}

/// How far a listing has come: the number of units, the unit at hand, and what was done
/// last.
#[derive(PartialEq, Eq, Structural, Clone, Copy)]
pub struct Listing {
    pub units: u32,
    pub unit: u32,
    pub asked: Asked,
}

/// The last action. Questions are about the unit at hand.
#[derive(PartialEq, Eq, Structural, Clone, Copy)]
pub enum Asked {
    Nothing,
    Initialize,
    Unit,
    Event(i32),
    Next(i32),
    Terminate,
    /// The listing has ended.
    Finished,
}

impl Listing {
    pub open spec fn valid(self) -> bool {
        &&& self.unit <= self.units
        &&& match self.asked {
            Asked::Unit | Asked::Event(_) | Asked::Next(_) => self.unit < self.units,
            _ => true,
        }
    }

    /// The reply fits the last action.
    pub open spec fn accepts(self, reply: ListReply) -> bool {
        match reply {
            ListReply::Start => self.asked == Asked::Nothing,
            ListReply::Initialized(_) => self.asked == Asked::Initialize,
            ListReply::Pmu(_) => self.asked == Asked::Unit,
            ListReply::Event(_) => self.asked is Event,
            ListReply::Next(_) => self.asked is Next,
            ListReply::Terminated => self.asked == Asked::Terminate,
        }
    }

    /// Before the first action.
    pub open spec fn fresh(units: u32) -> Listing {
        Listing { units, unit: 0, asked: Asked::Nothing }
    }

    /// Goes on with this unit, or terminates libpfm where there is none.
    pub open spec fn with_unit(self, unit: int) -> (Listing, ListAction) {
        if unit < self.units {
            (
                Listing { unit: unit as u32, asked: Asked::Unit, ..self },
                ListAction::QueryPmu(unit as u32),
            )
        } else {
            (
                Listing { unit: self.units, asked: Asked::Terminate, ..self },
                ListAction::Terminate,
            )
        }
    }

    /// Goes on with this event, or with the next unit where the number is negative.
    pub open spec fn with_event(self, event: int) -> (Listing, ListAction) {
        if event >= 0 {
            (
                Listing { asked: Asked::Event(event as i32), ..self },
                ListAction::QueryEvent(event as i32),
            )
        } else {
            self.with_unit(self.unit + 1)
        }
    }

    /// The state and the action after a reply. Where libpfm cannot be initialised nothing
    /// more is done. Units that are unknown or absent are passed over; an event that is
    /// unknown ends the events of its unit.
    pub open spec fn after(self, reply: ListReply) -> (Listing, ListAction) {
        match reply {
            ListReply::Start => (
                Listing { asked: Asked::Initialize, ..self },
                ListAction::Initialize,
            ),
            ListReply::Initialized(status) => if status == PFM_SUCCESS {
                self.with_unit(0)
            } else {
                (Listing { asked: Asked::Finished, ..self }, ListAction::Fail)
            },
            ListReply::Pmu(Some(info)) => if info.present {
                self.with_event(info.first_event as int)
            } else {
                self.with_unit(self.unit + 1)
            },
            ListReply::Pmu(None) => self.with_unit(self.unit + 1),
            ListReply::Event(Some(_)) => {
                let event = self.asked->Event_0;
                (Listing { asked: Asked::Next(event), ..self }, ListAction::QueryNext(event))
            },
            ListReply::Event(None) => self.with_unit(self.unit + 1),
            ListReply::Next(event) => self.with_event(event as int),
            ListReply::Terminated => (
                Listing { asked: Asked::Finished, ..self },
                ListAction::Done,
            ),
        }
    }

    /// The line that a reply gives, if it gives one.
    pub open spec fn line(reply: ListReply) -> Option<Seq<char>> {
        match reply {
            ListReply::Start => Some(heading()),
            ListReply::Pmu(Some(info)) => if info.present {
                Some(pmu_line(info))
            } else {
                None
            },
            ListReply::Event(Some(info)) => Some(event_line(info)),
            _ => None,
        }
    }

    /// A listing of so many units.
    pub fn of(units: u32) -> (l: Listing)
        ensures
            l == Listing::fresh(units),
            l.valid(),
    {
        Listing { units, unit: 0, asked: Asked::Nothing }
    }

    fn go_to_unit(&mut self, unit: u32) -> (action: ListAction)
        requires
            unit <= old(self).units,
        ensures
            (*final(self), action) == old(self).with_unit(unit as int),
    {
        self.unit = unit;
        if unit < self.units {
            self.asked = Asked::Unit;
            ListAction::QueryPmu(unit)
        } else {
            self.asked = Asked::Terminate;
            ListAction::Terminate
        }
    }

    fn go_to_event(&mut self, event: i32) -> (action: ListAction)
        requires
            old(self).unit < old(self).units,
        ensures
            (*final(self), action) == old(self).with_event(event as int),
    {
        if event >= 0 {
            self.asked = Asked::Event(event);
            ListAction::QueryEvent(event)
        } else {
            self.go_to_unit(self.unit + 1)
        }
    }

    /// Takes what came of the last action; gives the line to print, where there is one, and
    /// what to do next.
    pub fn step(&mut self, reply: &ListReply) -> (r: (Option<String>, ListAction))
        requires
            old(self).valid(),
            old(self).accepts(*reply),
        ensures
            (*final(self), r.1) == old(self).after(*reply),
            final(self).valid(),
            match r.0 {
                Some(text) => Listing::line(*reply) == Some(text@),
                None => Listing::line(*reply) is None,
            },
    {
        match reply {
            ListReply::Start => {
                self.asked = Asked::Initialize;
                (Some("=== libpfm4 Events ===".to_owned()), ListAction::Initialize)
            },
            ListReply::Initialized(status) => {
                if *status == PFM_SUCCESS {
                    (None, self.go_to_unit(0))
                } else {
                    self.asked = Asked::Finished;
                    (None, ListAction::Fail)
                }
            },
            ListReply::Pmu(Some(info)) => {
                if info.present {
                    (Some(write_pmu_line(info)), self.go_to_event(info.first_event))
                } else {
                    (None, self.go_to_unit(self.unit + 1))
                }
            },
            ListReply::Pmu(None) => (None, self.go_to_unit(self.unit + 1)),
            ListReply::Event(Some(info)) => {
                let event = match self.asked {
                    Asked::Event(e) => e,
                    _ => 0,
                };
                self.asked = Asked::Next(event);
                (Some(write_event_line(info)), ListAction::QueryNext(event))
            },
            ListReply::Event(None) => (None, self.go_to_unit(self.unit + 1)),
            ListReply::Next(event) => (None, self.go_to_event(*event)),
            ListReply::Terminated => {
                self.asked = Asked::Finished;
                (None, ListAction::Done)
            },
        }
    }
}

/// What libpfm answers.
pub struct Answers {
    /// What the initialisation returns.
    pub status: i32,
    /// What is known of each unit.
    pub pmu: spec_fn(u32) -> Option<PmuInfo>,
    /// What is known of each event.
    pub event: spec_fn(i32) -> Option<EventInfo>,
    /// Which event comes after each event.
    pub next: spec_fn(i32) -> i32,
}

impl Answers {
    /// What comes of an action. After the end nothing is done any more.
    pub open spec fn reply(self, action: ListAction) -> ListReply {
        match action {
            ListAction::Initialize => ListReply::Initialized(self.status),
            ListAction::QueryPmu(unit) => ListReply::Pmu((self.pmu)(unit)),
            ListAction::QueryEvent(event) => ListReply::Event((self.event)(event)),
            ListAction::QueryNext(event) => ListReply::Next((self.next)(event)),
            ListAction::Terminate => ListReply::Terminated,
            ListAction::Done | ListAction::Fail => ListReply::Start,
        }
    }

    /// The event that is reached from another after so many.
    pub open spec fn nth_event(self, first: i32, n: nat) -> i32
        decreases n,
    {
        if n == 0 {
            first
        } else {
            (self.next)(self.nth_event(first, (n - 1) as nat))
        }
    }

    /// From `first` on there are exactly so many events: each has a number and is known, and
    /// then comes a negative number or an unknown event.
    pub open spec fn has_events(self, first: i32, count: nat) -> bool {
        &&& forall|k: nat|
            k < count ==> #[trigger] self.nth_event(first, k) >= 0 && (self.event)(
                self.nth_event(first, k),
            ) is Some
        &&& self.nth_event(first, count) < 0 || (self.event)(self.nth_event(first, count)) is None
    }

    /// The machine has the unit.
    pub open spec fn is_present(self, unit: u32) -> bool {
        match (self.pmu)(unit) {
            Some(info) => info.present,
            None => false,
        }
    }

    /// The first event of a unit.
    pub open spec fn first_event(self, unit: u32) -> i32 {
        (self.pmu)(unit)->0.first_event
    }

    /// The lines of so many events.
    pub open spec fn event_lines(self, first: i32, count: nat) -> Seq<Seq<char>> {
        Seq::new(count, |k: int| event_line((self.event)(self.nth_event(first, k as nat))->0))
    }

    /// The lines of a unit: none where the machine does not have it, else its own and those
    /// of its events.
    pub open spec fn unit_lines(self, unit: u32, count: nat) -> Seq<Seq<char>> {
        if self.is_present(unit) {
            seq![pmu_line((self.pmu)(unit)->0)] + self.event_lines(self.first_event(unit), count)
        } else {
            seq![]
        }
    }

    /// The lines of the first units, where `counts` gives the number of events of each.
    pub open spec fn lines(self, counts: spec_fn(u32) -> nat, units: nat) -> Seq<Seq<char>>
        decreases units,
    {
        if units == 0 {
            seq![]
        } else {
            self.lines(counts, (units - 1) as nat) + self.unit_lines(
                (units - 1) as u32,
                counts((units - 1) as u32),
            )
        }
    }

    /// The number of questions about a unit.
    pub open spec fn unit_steps(self, unit: u32, count: nat) -> nat {
        if self.is_present(unit) {
            1 + 2 * count + (if self.nth_event(self.first_event(unit), count) >= 0 {
                1nat
            } else {
                0
            })
        } else {
            1
        }
    }

    /// The number of questions about the first units.
    pub open spec fn steps(self, counts: spec_fn(u32) -> nat, units: nat) -> nat
        decreases units,
    {
        if units == 0 {
            0
        } else {
            self.steps(counts, (units - 1) as nat) + self.unit_steps(
                (units - 1) as u32,
                counts((units - 1) as u32),
            )
        }
    }
}

/// A listing under way: what is to be done next, the lines so far, and how often libpfm was
/// terminated.
#[verifier::ext_equal]
pub struct ListRun {
    pub listing: Listing,
    pub action: ListAction,
    pub lines: Seq<Seq<char>>,
    pub terminations: nat,
}

impl ListRun {
    /// A listing of so many units after its start.
    pub open spec fn started(units: u32) -> ListRun {
        let (listing, action) = Listing::fresh(units).after(ListReply::Start);
        ListRun { listing, action, lines: seq![heading()], terminations: 0 }
    }

    /// After one more action was done.
    pub open spec fn stepped(self, answers: Answers) -> ListRun {
        if self.action is Done || self.action is Fail {
            self
        } else {
            let reply = answers.reply(self.action);
            let (listing, action) = self.listing.after(reply);
            ListRun {
                listing,
                action,
                lines: match Listing::line(reply) {
                    Some(line) => self.lines.push(line),
                    None => self.lines,
                },
                terminations: if self.action is Terminate {
                    self.terminations + 1
                } else {
                    self.terminations
                },
            }
        }
    }

    /// After so many more actions were done.
    pub open spec fn run(self, answers: Answers, steps: nat) -> ListRun
        decreases steps,
    {
        if steps == 0 {
            self
        } else {
            self.run(answers, (steps - 1) as nat).stepped(answers)
        }
    }
}

/// Where libpfm cannot be initialised the listing fails at once: no line but the heading is
/// printed, and libpfm is never terminated.
pub proof fn law_failed_start_ends_the_listing(answers: Answers, units: u32, steps: nat)
    requires
        answers.status != PFM_SUCCESS,
        steps >= 1,
    ensures
        ({
            let r = ListRun::started(units).run(answers, steps);
            &&& r.action == ListAction::Fail
            &&& r.lines == seq![heading()]
            &&& r.terminations == 0
        }),
    decreases steps,
{
    if steps == 1 {
        reveal_with_fuel(ListRun::run, 2);
    } else {
        law_failed_start_ends_the_listing(answers, units, (steps - 1) as nat);
    }
}

/// Where libpfm can be initialised the listing succeeds: for each unit that the machine has,
/// in order, its line is printed and then a line for each of its events, from its first
/// event on until a negative number or an unknown event. Then libpfm is terminated, once,
/// and nothing more is done.
pub proof fn law_listing_course(
    answers: Answers,
    counts: spec_fn(u32) -> nat,
    units: u32,
    more: nat,
)
    requires
        answers.status == PFM_SUCCESS,
        forall|u: u32| #[trigger]
            answers.is_present(u) && u < units ==> answers.has_events(
                answers.first_event(u),
                counts(u),
            ),
    ensures
        ({
            let start = ListRun::started(units);
            let asked = 1 + answers.steps(counts, units as nat);
            let before = start.run(answers, asked);
            let after = start.run(answers, asked + 1 + more);
            &&& before.action == ListAction::Terminate
            &&& before.terminations == 0
            &&& before.lines == seq![heading()] + answers.lines(counts, units as nat)
            &&& after.action == ListAction::Done
            &&& after.terminations == 1
            &&& after.lines == before.lines
        }),
    decreases more,
{
    lemma_units_listed(answers, counts, units, units as nat);
    if more > 0 {
        law_listing_course(answers, counts, units, (more - 1) as nat);
    }
}

/// The listing when it comes to a unit, or to its end.
proof fn lemma_units_listed(
    answers: Answers,
    counts: spec_fn(u32) -> nat,
    units: u32,
    unit: nat,
)
    requires
        answers.status == PFM_SUCCESS,
        unit <= units,
        forall|u: u32| #[trigger]
            answers.is_present(u) && u < units ==> answers.has_events(
                answers.first_event(u),
                counts(u),
            ),
    ensures
        ({
            let r = ListRun::started(units).run(answers, 1 + answers.steps(counts, unit));
            &&& (r.listing, r.action) == Listing::fresh(units).with_unit(unit as int)
            &&& r.lines == seq![heading()] + answers.lines(counts, unit)
            &&& r.terminations == 0
        }),
    decreases unit,
{
    let start = ListRun::started(units);
    if unit == 0 {
        reveal_with_fuel(ListRun::run, 2);
        assert(seq![heading()] =~= seq![heading()] + answers.lines(counts, 0));
    } else {
        let prior = (unit - 1) as nat;
        let u = prior as u32;
        lemma_units_listed(answers, counts, units, prior);
        let n = 1 + answers.steps(counts, prior);
        let r0 = start.run(answers, n);
        lemma_unit_listed(answers, r0, counts(u));
        lemma_runs_add(start, answers, n, answers.unit_steps(u, counts(u)));
        assert(n + answers.unit_steps(u, counts(u)) == 1 + answers.steps(counts, unit));
        assert(r0.lines + answers.unit_lines(u, counts(u)) =~= seq![heading()] + answers.lines(
            counts,
            unit,
        ));
    }
}

/// Two runs one after the other are one run.
proof fn lemma_runs_add(r: ListRun, answers: Answers, a: nat, b: nat)
    ensures
        r.run(answers, a + b) == r.run(answers, a).run(answers, b),
    decreases b,
{
    if b > 0 {
        lemma_runs_add(r, answers, a, (b - 1) as nat);
    }
}

/// The listing of one unit.
proof fn lemma_unit_listed(answers: Answers, r: ListRun, count: nat)
    requires
        r.listing.asked == Asked::Unit,
        r.listing.unit < r.listing.units,
        r.action == ListAction::QueryPmu(r.listing.unit),
        answers.is_present(r.listing.unit) ==> answers.has_events(
            answers.first_event(r.listing.unit),
            count,
        ),
    ensures
        ({
            let unit = r.listing.unit;
            let after = r.run(answers, answers.unit_steps(unit, count));
            &&& (after.listing, after.action) == r.listing.with_unit(unit + 1)
            &&& after.lines == r.lines + answers.unit_lines(unit, count)
            &&& after.terminations == r.terminations
        }),
{
    let unit = r.listing.unit;
    reveal_with_fuel(ListRun::run, 2);
    let asked = r.run(answers, 1);
    assert(asked == r.stepped(answers));
    if answers.is_present(unit) {
        let first = answers.first_event(unit);
        lemma_events_listed(answers, r, count, count);
        let n = 1 + 2 * count;
        let end = r.run(answers, n);
        if answers.nth_event(first, count) >= 0 {
            assert(r.run(answers, n + 1) == end.stepped(answers));
        }
    } else {
        assert(asked.lines =~= r.lines + answers.unit_lines(unit, count));
    }
}

/// The listing of a unit when it comes to an event, or to the end of the events.
proof fn lemma_events_listed(answers: Answers, r: ListRun, count: nat, k: nat)
    requires
        r.listing.asked == Asked::Unit,
        r.listing.unit < r.listing.units,
        r.action == ListAction::QueryPmu(r.listing.unit),
        answers.is_present(r.listing.unit),
        answers.has_events(answers.first_event(r.listing.unit), count),
        k <= count,
    ensures
        ({
            let unit = r.listing.unit;
            let first = answers.first_event(unit);
            let after = r.run(answers, 1 + 2 * k);
            &&& (after.listing, after.action) == r.listing.with_event(
                answers.nth_event(first, k) as int,
            )
            &&& after.lines == r.lines + answers.unit_lines(unit, k)
            &&& after.terminations == r.terminations
        }),
    decreases k,
{
    let unit = r.listing.unit;
    let first = answers.first_event(unit);
    reveal_with_fuel(ListRun::run, 2);
    if k == 0 {
        assert(r.run(answers, 1) == r.stepped(answers));
        assert(r.stepped(answers).lines =~= r.lines + answers.unit_lines(unit, 0));
    } else {
        let m = (k - 1) as nat;
        lemma_events_listed(answers, r, count, m);
        let event = answers.nth_event(first, m);
        let r0 = r.run(answers, 1 + 2 * m);
        let r1 = r.run(answers, 2 + 2 * m);
        let r2 = r.run(answers, 1 + 2 * k);
        assert(event >= 0 && (answers.event)(event) is Some);
        assert(r1 == r0.stepped(answers));
        assert(2 + 2 * m == (1 + 2 * k) - 1);
        assert(r2 == r1.stepped(answers));
        assert(r2.lines =~= r.lines + answers.unit_lines(unit, k));
    }
}

/// The line of a unit and of an event: what is missing of a name is a question mark, of a
/// description nothing; the names of events stand in a column.
pub proof fn law_lines_of_the_list(pmu: PmuInfo, event: EventInfo)
    ensures
        pmu_line(pmu) == "PMU: "@ + (if pmu.name is Some {
            pmu.name->0@
        } else {
            "?"@
        }) + " - "@ + (if pmu.desc is Some {
            pmu.desc->0@
        } else {
            ""@
        }) + " ("@ + signed_decimal(pmu.nevents as int) + " events)"@,
        event_line(event) == "  "@ + padded(
            if event.name is Some {
                event.name->0@
            } else {
                "?"@
            },
            40,
        ) + " "@ + (if event.desc is Some {
            event.desc->0@
        } else {
            ""@
        }),
        heading() == "=== libpfm4 Events ==="@,
{
}

/// Whatever a call gives is accepted where that call was to be made.
pub proof fn law_every_answer_is_accepted(
    l: Listing,
    status: i32,
    pmu: Option<PmuInfo>,
    event: Option<EventInfo>,
    next: i32,
)
    ensures
        l.asked == Asked::Nothing ==> l.accepts(ListReply::Start),
        l.asked == Asked::Initialize ==> l.accepts(ListReply::Initialized(status)),
        l.asked == Asked::Unit ==> l.accepts(ListReply::Pmu(pmu)),
        l.asked is Event ==> l.accepts(ListReply::Event(event)),
        l.asked is Next ==> l.accepts(ListReply::Next(next)),
        l.asked == Asked::Terminate ==> l.accepts(ListReply::Terminated),
{
}

} // verus!
