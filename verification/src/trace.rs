//! Which points of the scheduler are traced, and by which programs.
use vstd::prelude::*;

verus! {

/// A point of the scheduler that is traced, and the programs that can trace it: the one
/// with type information is tried first, the raw one stands in for it.
#[derive(PartialEq, Eq, Structural, Clone, Copy)]
pub enum Tracepoint {
    Wakeup,
    WakeupNew,
    Waking,
    Switch,
    MigrateTask,
    ProcessExit,
}

impl Tracepoint {
    /// The kernel's name of the point, as text.
    pub open spec fn name_text(self) -> Seq<char> {
        match self {
            Tracepoint::Wakeup => "sched_wakeup"@,
            Tracepoint::WakeupNew => "sched_wakeup_new"@,
            Tracepoint::Waking => "sched_waking"@,
            Tracepoint::Switch => "sched_switch"@,
            Tracepoint::MigrateTask => "sched_migrate_task"@,
            Tracepoint::ProcessExit => "sched_process_exit"@,
        }
    }

    /// The kernel's name of the point.
    pub fn name(self) -> (s: &'static str)
        ensures
            s@ == self.name_text(),
    {
        match self {
            Tracepoint::Wakeup => "sched_wakeup",
            Tracepoint::WakeupNew => "sched_wakeup_new",
            Tracepoint::Waking => "sched_waking",
            Tracepoint::Switch => "sched_switch",
            Tracepoint::MigrateTask => "sched_migrate_task",
            Tracepoint::ProcessExit => "sched_process_exit",
        }
    }

    /// The program with type information.
    pub fn btf_program(self) -> (s: &'static str)
        ensures
            s@ == (match self {
                Tracepoint::Wakeup => "handle_sched_wakeup_btf"@,
                Tracepoint::WakeupNew => "handle_sched_wakeup_new_btf"@,
                Tracepoint::Waking => "handle_sched_waking_btf"@,
                Tracepoint::Switch => "handle_sched_switch_btf"@,
                Tracepoint::MigrateTask => "handle_sched_migrate_task_btf"@,
                Tracepoint::ProcessExit => "handle_process_exit_btf"@,
            }),
    {
        match self {
            Tracepoint::Wakeup => "handle_sched_wakeup_btf",
            Tracepoint::WakeupNew => "handle_sched_wakeup_new_btf",
            Tracepoint::Waking => "handle_sched_waking_btf",
            Tracepoint::Switch => "handle_sched_switch_btf",
            Tracepoint::MigrateTask => "handle_sched_migrate_task_btf",
            Tracepoint::ProcessExit => "handle_process_exit_btf",
        }
    }

    /// What is said when the program with type information cannot be attached.
    pub fn fallback_note(self, error: &str) -> (text: String)
        ensures
            text@ == "BTF tracepoint "@ + self.name_text() + " failed: "@ + error@
                + ", will use raw_tp"@,
    {
        let mut text = "BTF tracepoint ".to_owned();
        text.append(self.name());
        text.append(" failed: ");
        text.append(error);
        text.append(", will use raw_tp");
        text
    }

    /// The raw program.
    pub fn raw_program(self) -> (s: &'static str)
        ensures
            s@ == (match self {
                Tracepoint::Wakeup => "handle_sched_wakeup_raw"@,
                Tracepoint::WakeupNew => "handle_sched_wakeup_new_raw"@,
                Tracepoint::Waking => "handle_sched_waking_raw"@,
                Tracepoint::Switch => "handle_sched_switch_raw"@,
                Tracepoint::MigrateTask => "handle_sched_migrate_task_raw"@,
                Tracepoint::ProcessExit => "handle_process_exit_raw"@,
            }),
    {
        match self {
            Tracepoint::Wakeup => "handle_sched_wakeup_raw",
            Tracepoint::WakeupNew => "handle_sched_wakeup_new_raw",
            Tracepoint::Waking => "handle_sched_waking_raw",
            Tracepoint::Switch => "handle_sched_switch_raw",
            Tracepoint::MigrateTask => "handle_sched_migrate_task_raw",
            Tracepoint::ProcessExit => "handle_process_exit_raw",
        }
    }
}

/// The points that are traced: some always, two only where they are asked for.
pub open spec fn traced(waking: bool, migration: bool) -> Seq<Tracepoint> {
    seq![Tracepoint::Wakeup, Tracepoint::WakeupNew] + (if waking {
        seq![Tracepoint::Waking]
    } else {
        seq![]
    }) + seq![Tracepoint::Switch] + (if migration {
        seq![Tracepoint::MigrateTask]
    } else {
        seq![]
    }) + seq![Tracepoint::ProcessExit]
}

/// The points that are traced, in the order in which they are attached.
pub fn tracepoints(waking: bool, migration: bool) -> (list: Vec<Tracepoint>)
    ensures
        list@ == traced(waking, migration),
{
    let mut list: Vec<Tracepoint> = Vec::new();
    list.push(Tracepoint::Wakeup);
    list.push(Tracepoint::WakeupNew);
    if waking {
        list.push(Tracepoint::Waking);
    }
    list.push(Tracepoint::Switch);
    if migration {
        list.push(Tracepoint::MigrateTask);
    }
    list.push(Tracepoint::ProcessExit);
    assert(list@ =~= traced(waking, migration));
    list
}

/// What is to be done next while the points are attached.
#[derive(PartialEq, Eq, Structural, Clone, Copy)]
pub enum AttachAction {
    /// Attach the program with type information.
    Btf(Tracepoint),
    /// Attach the raw program.
    Raw(Tracepoint),
    /// Every point is attached.
    Done,
}

/// The attaching of the points, one after the other.
pub struct Attaching {
    points: Vec<Tracepoint>,
    at: usize,
    raw: bool,
}

/// How far the attaching of the points has come.
#[verifier::ext_equal]
pub struct AttachState {
    pub points: Seq<Tracepoint>,
    /// The point that is attached.
    pub at: nat,
    /// Its program with type information could not be attached.
    pub raw: bool,
}

impl AttachState {
    /// Before anything was done.
    pub open spec fn fresh(points: Seq<Tracepoint>) -> AttachState {
        AttachState { points, at: 0, raw: false }
    }

    pub open spec fn valid(self) -> bool {
        &&& self.at <= self.points.len()
        &&& self.raw ==> self.at < self.points.len()
    }

    /// What is to be done next.
    pub open spec fn next(self) -> AttachAction {
        if self.at >= self.points.len() {
            AttachAction::Done
        } else if self.raw {
            AttachAction::Raw(self.points[self.at as int])
        } else {
            AttachAction::Btf(self.points[self.at as int])
        }
    }

    /// The state after a program was attached or could not be.
    pub open spec fn after(self, attached: bool) -> AttachState {
        if attached {
            AttachState { at: self.at + 1, raw: false, ..self }
        } else {
            AttachState { raw: true, ..self }
        }
    }
}

impl Attaching {
    pub closed spec fn view(&self) -> AttachState {
        AttachState { points: self.points@, at: self.at as nat, raw: self.raw }
    }

    /// Starts with the first of the points.
    pub fn start(points: Vec<Tracepoint>) -> (a: Self)
        ensures
            a@ == AttachState::fresh(points@),
            a@.valid(),
    {
        Attaching { points, at: 0, raw: false }
    }

    /// What is to be done next.
    pub fn next(&self) -> (action: AttachAction)
        requires
            self@.valid(),
        ensures
            action == self@.next(),
    {
        if self.at >= self.points.len() {
            AttachAction::Done
        } else if self.raw {
            AttachAction::Raw(self.points[self.at])
        } else {
            AttachAction::Btf(self.points[self.at])
        }
    }

    /// Takes whether the program was attached. A raw program that cannot be attached ends
    /// the attaching.
    pub fn tried(&mut self, attached: bool)
        requires
            old(self)@.valid(),
            old(self)@.next() != AttachAction::Done,
            old(self)@.next() is Raw ==> attached,
        ensures
            final(self)@ == old(self)@.after(attached),
            final(self)@.valid(),
    {
        if attached {
            assert(self.at < self.points.len());
            self.at = self.at + 1;
            self.raw = false;
        } else {
            self.raw = true;
        }
    }
}

/// The attaching when it comes to a point, where `typed` says of each point whether its
/// program with type information can be attached.
pub open spec fn attach_course(
    points: Seq<Tracepoint>,
    typed: spec_fn(int) -> bool,
    count: nat,
) -> AttachState
    decreases count,
{
    if count == 0 {
        AttachState::fresh(points)
    } else {
        let s = attach_course(points, typed, (count - 1) as nat);
        if typed(count - 1) {
            s.after(true)
        } else {
            s.after(false).after(true)
        }
    }
}

/// Each point is attached in turn, by its program with type information where that is
/// possible and by its raw program where it is not, and then nothing is left to do.
pub proof fn law_each_point_is_attached(
    points: Seq<Tracepoint>,
    typed: spec_fn(int) -> bool,
    count: nat,
)
    requires
        count <= points.len(),
    ensures
        ({
            let s = attach_course(points, typed, count);
            &&& s == (AttachState { points, at: count, raw: false })
            &&& count < points.len() ==> s.next() == AttachAction::Btf(points[count as int])
            &&& count < points.len() ==> s.after(false).next() == AttachAction::Raw(
                points[count as int],
            )
            &&& count == points.len() ==> s.next() == AttachAction::Done
        }),
    decreases count,
{
    if count > 0 {
        law_each_point_is_attached(points, typed, (count - 1) as nat);
    }
}

/// The points that are traced: four always, `sched_waking` exactly where it is asked for,
/// `sched_migrate_task` exactly where migrations are, and none twice.
pub proof fn law_traced_points(waking: bool, migration: bool)
    ensures
        ({
            let list = traced(waking, migration);
            &&& list.contains(Tracepoint::Wakeup)
            &&& list.contains(Tracepoint::WakeupNew)
            &&& list.contains(Tracepoint::Switch)
            &&& list.contains(Tracepoint::ProcessExit)
            &&& list.contains(Tracepoint::Waking) <==> waking
            &&& list.contains(Tracepoint::MigrateTask) <==> migration
            &&& list.no_duplicates()
            &&& forall|i: int, j: int|
                0 <= i < j < list.len() ==> #[trigger] place(list[i]) < #[trigger] place(list[j])
        }),
{
    let list = traced(waking, migration);
    assert(list[0] == Tracepoint::Wakeup);
    assert(list[1] == Tracepoint::WakeupNew);
    assert(list.last() == Tracepoint::ProcessExit);
    assert(list[list.len() - 1] == Tracepoint::ProcessExit);
    if waking {
        assert(list[2] == Tracepoint::Waking);
        assert(list[3] == Tracepoint::Switch);
        if migration {
            assert(list[4] == Tracepoint::MigrateTask);
        }
    } else {
        assert(list[2] == Tracepoint::Switch);
        if migration {
            assert(list[3] == Tracepoint::MigrateTask);
        }
    }
}

/// The place of a point in the order in which points are attached.
pub open spec fn place(point: Tracepoint) -> int {
    match point {
        Tracepoint::Wakeup => 0,
        Tracepoint::WakeupNew => 1,
        Tracepoint::Waking => 2,
        Tracepoint::Switch => 3,
        Tracepoint::MigrateTask => 4,
        Tracepoint::ProcessExit => 5,
    }
}

/// The names of the points, each the kernel's own and each different.
pub proof fn law_names_of_points(a: Tracepoint, b: Tracepoint)
    ensures
        Tracepoint::Wakeup.name_text() == "sched_wakeup"@,
        Tracepoint::WakeupNew.name_text() == "sched_wakeup_new"@,
        Tracepoint::Waking.name_text() == "sched_waking"@,
        Tracepoint::Switch.name_text() == "sched_switch"@,
        Tracepoint::MigrateTask.name_text() == "sched_migrate_task"@,
        Tracepoint::ProcessExit.name_text() == "sched_process_exit"@,
        a != b ==> a.name_text() != b.name_text(),
{
    reveal_strlit("sched_wakeup");
    reveal_strlit("sched_wakeup_new");
    reveal_strlit("sched_waking");
    reveal_strlit("sched_switch");
    reveal_strlit("sched_migrate_task");
    reveal_strlit("sched_process_exit");
    assert("sched_wakeup"@.len() == 12);
    assert("sched_wakeup_new"@.len() == 16);
    assert("sched_waking"@.len() == 12);
    assert("sched_switch"@.len() == 12);
    assert("sched_migrate_task"@.len() == 18);
    assert("sched_process_exit"@.len() == 18);
    assert("sched_wakeup"@[9] != "sched_waking"@[9]);
    assert("sched_wakeup"@[6] != "sched_switch"@[6]);
    assert("sched_waking"@[6] != "sched_switch"@[6]);
    assert("sched_migrate_task"@[6] != "sched_process_exit"@[6]);
}

} // verus!
