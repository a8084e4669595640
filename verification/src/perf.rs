//! Opening hardware counters and handing them to the kernel side.
use crate::text::{
    bool_text, bool_word, decimal, decimal_text, digits, digits_text, signed_decimal,
    signed_decimal_text,
};
use vstd::prelude::*;

verus! {

/// The call that opens a counter closes it across `exec`.
pub const PERF_FLAG_FD_CLOEXEC: u64 = 0x8;

pub const PERF_ATTR_BIT_DISABLED: u64 = 0x1;

pub const PERF_ATTR_BIT_INHERIT: u64 = 0x2;

pub const PERF_ATTR_BIT_PINNED: u64 = 0x4;

pub const PERF_ATTR_BIT_EXCLUSIVE: u64 = 0x8;

pub const PERF_ATTR_BIT_EXCLUDE_USER: u64 = 0x10;

pub const PERF_ATTR_BIT_EXCLUDE_KERNEL: u64 = 0x20;

pub const PERF_ATTR_BIT_EXCLUDE_HV: u64 = 0x40;

pub const PERF_ATTR_BIT_EXCLUDE_IDLE: u64 = 0x80;

pub const PERF_TYPE_HARDWARE: u32 = 0;

pub const PERF_COUNT_HW_CPU_CYCLES: u64 = 0;

pub const PERF_COUNT_HW_INSTRUCTIONS: u64 = 1;

pub const PERF_EVENT_IOC_ENABLE: u64 = 0x2400;

pub const PERF_EVENT_IOC_DISABLE: u64 = 0x2401;

pub const PERF_EVENT_IOC_RESET: u64 = 0x2403;

/// The size in bytes of a `PerfEventAttr`.
pub const PERF_EVENT_ATTR_SIZE: u32 = 112;

/// The kernel's description of a counter.
#[derive(Copy, Clone)]
pub struct PerfEventAttr {
    pub type_: u32,
    pub size: u32,
    pub config: u64,
    pub sample_period: u64,
    pub sample_type: u64,
    pub read_format: u64,
    /// The kernel's bit field, as one number.
    pub flags: u64,
    pub wakeup_events: u32,
    pub bp_type: u32,
    pub bp_addr: u64,
    pub bp_len: u64,
    pub branch_sample_type: u64,
    pub sample_regs_user: u64,
    pub sample_stack_user: u32,
    pub clockid: i32,
    pub sample_regs_intr: u64,
    pub aux_watermark: u32,
    pub sample_max_stack: u16,
    pub reserved_2: u16,
}

/// A description with nothing in it.
pub open spec fn blank_attr() -> PerfEventAttr {
    PerfEventAttr {
        type_: 0,
        size: 0,
        config: 0,
        sample_period: 0,
        sample_type: 0,
        read_format: 0,
        flags: 0,
        wakeup_events: 0,
        bp_type: 0,
        bp_addr: 0,
        bp_len: 0,
        branch_sample_type: 0,
        sample_regs_user: 0,
        sample_stack_user: 0,
        clockid: 0,
        sample_regs_intr: 0,
        aux_watermark: 0,
        sample_max_stack: 0,
        reserved_2: 0,
    }
}

impl Default for PerfEventAttr {
    fn default() -> (a: Self)
        ensures
            a == blank_attr(),
    {
        PerfEventAttr {
            type_: 0,
            size: 0,
            config: 0,
            sample_period: 0,
            sample_type: 0,
            read_format: 0,
            flags: 0,
            wakeup_events: 0,
            bp_type: 0,
            bp_addr: 0,
            bp_len: 0,
            branch_sample_type: 0,
            sample_regs_user: 0,
            sample_stack_user: 0,
            clockid: 0,
            sample_regs_intr: 0,
            aux_watermark: 0,
            sample_max_stack: 0,
            reserved_2: 0,
        }
    }
}

/// All tasks, as the kernel is told.
pub const ALL_TASKS: i32 = -1;

/// No group of counters, as the kernel is told.
pub const NO_GROUP: i32 = -1;

/// The arguments of the call `perf_event_open`.
#[derive(Copy, Clone)]
pub struct OpenCall {
    pub attr: PerfEventAttr,
    pub pid: i32,
    pub cpu: i32,
    pub group_fd: i32,
    pub flags: u64,
}

/// A counter to be opened on one CPU, for all tasks.
#[derive(PartialEq, Eq, Structural, Clone, Copy)]
pub enum Counter {
    /// A hardware event, counted in part of the time only.
    Ipc { config: u64, cpu: i32, exclude_kernel: bool, exclude_user: bool },
    /// An event of any type.
    Typed { perf_type: u32, config: u64, cpu: i32 },
}

impl Counter {
    /// The description of the counter: never the hypervisor, never the idle task.
    pub open spec fn attr_spec(self) -> PerfEventAttr {
        match self {
            Counter::Ipc { config, exclude_kernel, exclude_user, .. } => PerfEventAttr {
                type_: PERF_TYPE_HARDWARE,
                size: PERF_EVENT_ATTR_SIZE,
                config,
                flags: (PERF_ATTR_BIT_EXCLUDE_HV + PERF_ATTR_BIT_EXCLUDE_IDLE + (
                if exclude_kernel {
                    PERF_ATTR_BIT_EXCLUDE_KERNEL as int
                } else {
                    0
                }) + (if exclude_user {
                    PERF_ATTR_BIT_EXCLUDE_USER as int
                } else {
                    0
                })) as u64,
                ..blank_attr()
            },
            Counter::Typed { perf_type, config, .. } => PerfEventAttr {
                type_: perf_type,
                size: PERF_EVENT_ATTR_SIZE,
                config,
                flags: (PERF_ATTR_BIT_EXCLUDE_HV + PERF_ATTR_BIT_EXCLUDE_IDLE) as u64,
                ..blank_attr()
            },
        }
    }

    /// The CPU of the counter.
    pub open spec fn cpu_spec(self) -> i32 {
        match self {
            Counter::Ipc { cpu, .. } => cpu,
            Counter::Typed { cpu, .. } => cpu,
        }
    }

    /// The description of the counter.
    pub fn attr(&self) -> (attr: PerfEventAttr)
        ensures
            attr == self.attr_spec(),
    {
        let mut attr: PerfEventAttr = Default::default();
        attr.size = PERF_EVENT_ATTR_SIZE;
        assert(0u64 | 0x20u64 == 0x20u64 && 0u64 | 0x10u64 == 0x10u64 && 0x20u64 | 0x10u64
            == 0x30u64 && 0x40u64 | 0x80u64 == 0xc0u64 && 0u64 | 0xc0u64 == 0xc0u64 && 0x20u64
            | 0xc0u64 == 0xe0u64 && 0x10u64 | 0xc0u64 == 0xd0u64 && 0x30u64 | 0xc0u64 == 0xf0u64)
            by (bit_vector);
        match self {
            Counter::Ipc { config, cpu: _, exclude_kernel, exclude_user } => {
                attr.type_ = PERF_TYPE_HARDWARE;
                attr.config = *config;
                if *exclude_kernel {
                    attr.flags = attr.flags | PERF_ATTR_BIT_EXCLUDE_KERNEL;
                }
                if *exclude_user {
                    attr.flags = attr.flags | PERF_ATTR_BIT_EXCLUDE_USER;
                }
            },
            Counter::Typed { perf_type, config, cpu: _ } => {
                attr.type_ = *perf_type;
                attr.config = *config;
            },
        }
        attr.flags = attr.flags | (PERF_ATTR_BIT_EXCLUDE_HV | PERF_ATTR_BIT_EXCLUDE_IDLE);
        attr
    }

    /// The CPU of the counter.
    pub fn cpu(&self) -> (cpu: i32)
        ensures
            cpu == self.cpu_spec(),
    {
        match self {
            Counter::Ipc { cpu, .. } => *cpu,
            Counter::Typed { cpu, .. } => *cpu,
        }
    }

    /// The call that opens the counter: all tasks on its CPU, in no group, and closed
    /// across `exec`.
    pub fn call(&self) -> (call: OpenCall)
        ensures
            call == (OpenCall {
                attr: self.attr_spec(),
                pid: -1i32,
                cpu: self.cpu_spec(),
                group_fd: -1i32,
                flags: PERF_FLAG_FD_CLOEXEC,
            }),
    {
        OpenCall {
            attr: self.attr(),
            pid: ALL_TASKS,
            cpu: self.cpu(),
            group_fd: NO_GROUP,
            flags: PERF_FLAG_FD_CLOEXEC,
        }
    }

    /// What is said first when a step fails: where the counter cannot be opened and part of
    /// the time is left out, that may be why.
    pub fn exclusion_note(&self, step: OpenStep) -> (note: Option<String>)
        ensures
            match *self {
                Counter::Ipc { cpu, exclude_kernel, exclude_user, .. } => if step == OpenStep::Open
                    && (exclude_kernel || exclude_user) {
                    note is Some && note->0@ == "Note: CPU "@ + signed_decimal(cpu as int)
                        + " may not support hardware event exclusion flags"@
                } else {
                    note is None
                },
                Counter::Typed { .. } => note is None,
            },
    {
        match self {
            Counter::Ipc { config: _, cpu, exclude_kernel, exclude_user } => {
                if step == OpenStep::Open && (*exclude_kernel || *exclude_user) {
                    let mut note = "Note: CPU ".to_owned();
                    note.append(signed_decimal_text(*cpu).as_str());
                    note.append(" may not support hardware event exclusion flags");
                    Some(note)
                } else {
                    None
                }
            },
            Counter::Typed { .. } => None,
        }
    }

    /// What is said when the counter cannot be opened, for a reason of the system.
    pub open spec fn open_message(self, reason: Seq<char>) -> Seq<char> {
        match self {
            Counter::Ipc { config, cpu, exclude_kernel, exclude_user } => {
                "Failed to open perf event (CPU "@ + signed_decimal(cpu as int) + ", config "@
                    + decimal(config as nat) + ", exclude_kernel="@ + bool_word(exclude_kernel)
                    + ", exclude_user="@ + bool_word(exclude_user) + "): "@ + reason
            },
            Counter::Typed { perf_type, config, cpu } => {
                "Failed to open perf event (CPU "@ + signed_decimal(cpu as int) + ", type="@
                    + decimal(perf_type as nat) + ", config=0x"@ + digits(config as nat, 16)
                    + "): "@ + reason
            },
        }
    }

    /// What is said when a step of opening the counter fails, for a reason of the system.
    pub fn failure_message(&self, step: OpenStep, reason: &str) -> (text: String)
        ensures
            step == OpenStep::Open ==> text@ == (match *self {
                Counter::Ipc { config, cpu, exclude_kernel, exclude_user } => {
                    "Failed to open perf event (CPU "@ + signed_decimal(cpu as int) + ", config "@
                        + decimal(config as nat) + ", exclude_kernel="@ + (if exclude_kernel {
                        "true"@
                    } else {
                        "false"@
                    }) + ", exclude_user="@ + (if exclude_user {
                        "true"@
                    } else {
                        "false"@
                    }) + "): "@ + reason@
                },
                Counter::Typed { perf_type, config, cpu } => {
                    "Failed to open perf event (CPU "@ + signed_decimal(cpu as int) + ", type="@
                        + decimal(perf_type as nat) + ", config=0x"@ + digits(config as nat, 16)
                        + "): "@ + reason@
                },
            }),
            match step {
                OpenStep::Open => text@ == self.open_message(reason@),
                OpenStep::Enable => text@ == "Failed to enable perf event: "@ + reason@,
                OpenStep::Reset => text@ == "Failed to reset perf event: "@ + reason@,
            },
    {
        match step {
            OpenStep::Open => {
                let mut text = "Failed to open perf event (CPU ".to_owned();
                match self {
                    Counter::Ipc { config, cpu, exclude_kernel, exclude_user } => {
                        text.append(signed_decimal_text(*cpu).as_str());
                        text.append(", config ");
                        text.append(decimal_text(*config).as_str());
                        text.append(", exclude_kernel=");
                        text.append(bool_text(*exclude_kernel));
                        text.append(", exclude_user=");
                        text.append(bool_text(*exclude_user));
                    },
                    Counter::Typed { perf_type, config, cpu } => {
                        text.append(signed_decimal_text(*cpu).as_str());
                        text.append(", type=");
                        text.append(decimal_text(*perf_type as u64).as_str());
                        text.append(", config=0x");
                        text.append(digits_text(*config, 16).as_str());
                    },
                }
                text.append("): ");
                text.append(reason);
                text
            },
            OpenStep::Enable => {
                let mut text = "Failed to enable perf event: ".to_owned();
                text.append(reason);
                text
            },
            OpenStep::Reset => {
                let mut text = "Failed to reset perf event: ".to_owned();
                text.append(reason);
                text
            },
        }
    }
}

/// The calls that open a counter.
#[derive(PartialEq, Eq, Structural, Clone, Copy)]
pub enum OpenStep {
    Open,
    Enable,
    Reset,
}

/// How far the opening of a counter has come: the call that was made last, and on what.
#[derive(PartialEq, Eq, Structural, Clone, Copy)]
pub enum Opening {
    Open,
    Enable(i32),
    Reset(i32),
}

/// What is to be done after a call.
#[derive(PartialEq, Eq, Structural, Clone, Copy)]
pub enum OpenAction {
    /// Send this request to the counter.
    Request { fd: i32, request: u64 },
    /// The counter is open.
    Opened(i32),
    /// The call failed: close what is to be closed, and give up.
    GiveUp { step: OpenStep, close: Option<i32> },
}

impl Opening {
    /// The state and the action after a call returned.
    pub open spec fn after_spec(self, ret: i64) -> (Opening, OpenAction) {
        match self {
            Opening::Open => if ret < 0 {
                (self, OpenAction::GiveUp { step: OpenStep::Open, close: None })
            } else {
                (
                    Opening::Enable(ret as i32),
                    OpenAction::Request { fd: ret as i32, request: PERF_EVENT_IOC_ENABLE },
                )
            },
            Opening::Enable(fd) => if ret < 0 {
                (self, OpenAction::GiveUp { step: OpenStep::Enable, close: Some(fd) })
            } else {
                (Opening::Reset(fd), OpenAction::Request { fd, request: PERF_EVENT_IOC_RESET })
            },
            Opening::Reset(fd) => if ret < 0 {
                (self, OpenAction::GiveUp { step: OpenStep::Reset, close: Some(fd) })
            } else {
                (self, OpenAction::Opened(fd))
            },
        }
    }

    /// Takes what the last call returned, and says what to do next.
    pub fn after(&mut self, ret: i64) -> (action: OpenAction)
        ensures
            (*final(self), action) == old(self).after_spec(ret),
    {
        match *self {
            Opening::Open => {
                if ret < 0 {
                    OpenAction::GiveUp { step: OpenStep::Open, close: None }
                } else {
                    let fd: i32 = ret as i32;
                    *self = Opening::Enable(fd);
                    OpenAction::Request { fd, request: PERF_EVENT_IOC_ENABLE }
                }
            },
            Opening::Enable(fd) => {
                if ret < 0 {
                    OpenAction::GiveUp { step: OpenStep::Enable, close: Some(fd) }
                } else {
                    *self = Opening::Reset(fd);
                    OpenAction::Request { fd, request: PERF_EVENT_IOC_RESET }
                }
            },
            Opening::Reset(fd) => {
                if ret < 0 {
                    OpenAction::GiveUp { step: OpenStep::Reset, close: Some(fd) }
                } else {
                    OpenAction::Opened(fd)
                }
            },
        }
    }
}

/// A counter is reported open exactly where opening, enabling and resetting it all succeed;
/// one that is given up after it was opened is closed, once.
pub proof fn law_no_open_counter_is_lost(opened: i64, enabled: i64, reset: i64)
    ensures
        opened < 0 ==> Opening::Open.after_spec(opened).1 == (OpenAction::GiveUp {
            step: OpenStep::Open,
            close: None,
        }),
        ({
            let fd = opened as i32;
            let (s1, a1) = Opening::Open.after_spec(opened);
            let (s2, a2) = s1.after_spec(enabled);
            let (s3, a3) = s2.after_spec(reset);
            opened >= 0 ==> {
                &&& a1 == OpenAction::Request { fd, request: 0x2400 }
                &&& enabled < 0 ==> a2 == OpenAction::GiveUp {
                    step: OpenStep::Enable,
                    close: Some(fd),
                }
                &&& enabled >= 0 ==> a2 == OpenAction::Request { fd, request: 0x2403 }
                &&& enabled >= 0 && reset < 0 ==> a3 == OpenAction::GiveUp {
                    step: OpenStep::Reset,
                    close: Some(fd),
                }
                &&& enabled >= 0 && reset >= 0 ==> a3 == OpenAction::Opened(fd)
            }
        }),
{
}

/// The kernel's command that sets an element of a table.
pub const BPF_MAP_UPDATE_ELEM: u32 = 2;

/// An element is set whether or not it was there before.
pub const BPF_ANY: u64 = 0;

/// The setting of an element of a table: the counter for a CPU.
#[derive(PartialEq, Eq, Structural, Clone, Copy)]
pub struct MapUpdate {
    pub map_fd: u32,
    pub key: u32,
    pub value: i32,
    pub flags: u64,
}

/// Puts a counter in a table, at the place of its CPU.
pub fn attach_to_map(map_fd: i32, cpu: usize, fd: i32) -> (update: MapUpdate)
    ensures
        update == (MapUpdate {
            map_fd: map_fd as u32,
            key: cpu as u32,
            value: fd,
            flags: BPF_ANY,
        }),
{
    MapUpdate { map_fd: map_fd as u32, key: cpu as u32, value: fd, flags: BPF_ANY }
}

/// What came of putting a counter in a table, where `reason` is why the call failed if it
/// did.
pub fn attach_outcome(ret: i64, reason: &str) -> (r: Result<(), String>)
    ensures
        match r {
            Ok(()) => ret >= 0,
            Err(e) => ret < 0 && e@ == "Failed to attach perf event fd to map: "@ + reason@,
        },
{
    if ret < 0 {
        let mut text = "Failed to attach perf event fd to map: ".to_owned();
        text.append(reason);
        Err(text)
    } else {
        Ok(())
    }
}

/// Number of counters per CPU from which instructions per cycle are found.
pub const IPC_COUNTERS: usize = 4;

/// Calls `num_cpus::get`. Trusted: there is at least one CPU, as its documentation
/// promises. How many there are is the machine's affair.
#[verifier::external_body]
fn available_cpus() -> (n: usize)
    ensures
        n >= 1,
{
    num_cpus::get()
}

/// The counters from which instructions per cycle are found, on one CPU: cycles and then
/// instructions, each in user mode and then in the kernel.
pub open spec fn ipc_counter(which: nat, cpu: nat) -> Counter {
    Counter::Ipc {
        config: if which < 2 {
            PERF_COUNT_HW_CPU_CYCLES
        } else {
            PERF_COUNT_HW_INSTRUCTIONS
        },
        cpu: cpu as i32,
        exclude_kernel: which % 2 == 0,
        exclude_user: which % 2 == 1,
    }
}

/// What is to be done next while counters are set up.
#[derive(PartialEq, Eq, Structural, Clone, Copy)]
pub enum SetupAction {
    /// Open this counter.
    Open(Counter),
    /// Hand the counter to the kernel side: in the table at this position, for this CPU.
    Attach { table: usize, cpu: usize, fd: i32 },
    /// Every counter is set up.
    Done,
}

/// What came of the last action. An action that failed ends the setup.
#[derive(PartialEq, Eq, Structural, Clone, Copy)]
pub enum SetupReply {
    /// Nothing was done yet.
    Start,
    /// The counter was opened.
    Opened(i32),
    /// The counter was handed over.
    Attached,
}

/// The open counters, CPU by CPU.
pub struct PerfCounterSetup {
    fds: Vec<Vec<i32>>,
}

/// The counters of each CPU as sequences.
pub open spec fn rows(fds: Seq<Vec<i32>>) -> Seq<Seq<i32>> {
    fds.map_values(|row: Vec<i32>| row@)
}

/// All counters, in order.
pub open spec fn flat(rows: Seq<Seq<i32>>) -> Seq<i32>
    decreases rows.len(),
{
    if rows.len() == 0 {
        Seq::empty()
    } else {
        flat(rows.drop_last()) + rows.last()
    }
}

/// How far the setup of the counters for instructions per cycle has come.
pub struct IpcProgress {
    num_cpus: usize,
    cpu: usize,
    pending: Option<i32>,
    row: Vec<i32>,
}

/// The setup of the counters for instructions per cycle, in numbers.
#[verifier::ext_equal]
pub struct IpcState {
    pub num_cpus: nat,
    /// The CPU that is set up.
    pub cpu: nat,
    /// A counter that was opened and is still to be handed over.
    pub pending: Option<i32>,
    /// The counters of this CPU that were handed over.
    pub row: Seq<i32>,
}

impl IpcState {
    /// Before anything was done.
    pub open spec fn fresh(num_cpus: nat) -> IpcState {
        IpcState { num_cpus, cpu: 0, pending: None, row: Seq::empty() }
    }

    pub open spec fn valid(self) -> bool {
        &&& self.cpu <= self.num_cpus <= usize::MAX
        &&& self.row.len() < IPC_COUNTERS
        &&& self.cpu == self.num_cpus ==> self.row.len() == 0 && self.pending is None
    }

    /// The reply fits the last action.
    pub open spec fn accepts(self, reply: SetupReply) -> bool {
        match reply {
            SetupReply::Start => true,
            SetupReply::Opened(_) => self.next() is Open,
            SetupReply::Attached => self.next() is Attach,
        }
    }

    /// What is to be done next.
    pub open spec fn next(self) -> SetupAction {
        if self.cpu >= self.num_cpus {
            SetupAction::Done
        } else {
            match self.pending {
                None => SetupAction::Open(ipc_counter(self.row.len(), self.cpu)),
                Some(fd) => SetupAction::Attach {
                    table: self.row.len() as usize,
                    cpu: self.cpu as usize,
                    fd,
                },
            }
        }
    }

    /// The state after a reply. The counters of a CPU are kept once all of them are
    /// handed over.
    pub open spec fn after(self, reply: SetupReply) -> IpcState {
        match reply {
            SetupReply::Start => self,
            SetupReply::Opened(fd) => IpcState { pending: Some(fd), ..self },
            SetupReply::Attached => if self.row.len() + 1 < IPC_COUNTERS {
                IpcState { pending: None, row: self.row.push(self.pending->0), ..self }
            } else {
                IpcState { cpu: self.cpu + 1, pending: None, row: Seq::empty(), ..self }
            },
        }
    }

    /// The counters that are kept after a reply.
    pub open spec fn kept(self, fds: Seq<Seq<i32>>, reply: SetupReply) -> Seq<Seq<i32>> {
        match reply {
            SetupReply::Attached => if self.row.len() + 1 < IPC_COUNTERS {
                fds
            } else {
                fds.push(self.row.push(self.pending->0))
            },
            _ => fds,
        }
    }
}

impl IpcProgress {
    pub closed spec fn view(&self) -> IpcState {
        IpcState {
            num_cpus: self.num_cpus as nat,
            cpu: self.cpu as nat,
            pending: self.pending,
            row: self.row@,
        }
    }

    /// The setup on the CPUs of this machine.
    pub fn on_this_machine() -> (p: Self)
        ensures
            p@ == IpcState::fresh(p@.num_cpus),
            p@.num_cpus >= 1,
            p@.valid(),
    {
        IpcProgress::on(available_cpus())
    }

    /// The setup on so many CPUs.
    pub fn on(num_cpus: usize) -> (p: Self)
        ensures
            p@ == IpcState::fresh(num_cpus as nat),
            p@.valid(),
    {
        IpcProgress { num_cpus, cpu: 0, pending: None, row: Vec::new() }
    }

    fn next(&self) -> (action: SetupAction)
        requires
            self@.valid(),
        ensures
            action == self@.next(),
    {
        if self.cpu >= self.num_cpus {
            return SetupAction::Done;
        }
        let which = self.row.len();
        match self.pending {
            None => SetupAction::Open(
                Counter::Ipc {
                    config: if which < 2 {
                        PERF_COUNT_HW_CPU_CYCLES
                    } else {
                        PERF_COUNT_HW_INSTRUCTIONS
                    },
                    cpu: self.cpu as i32,
                    exclude_kernel: which % 2 == 0,
                    exclude_user: which % 2 == 1,
                },
            ),
            Some(fd) => SetupAction::Attach { table: which, cpu: self.cpu, fd },
        }
    }
}

/// The rows after one more.
proof fn lemma_rows_push(fds: Seq<Vec<i32>>, row: Vec<i32>)
    ensures
        rows(fds.push(row)) == rows(fds).push(row@),
{
    assert(rows(fds.push(row)) =~= rows(fds).push(row@));
}

impl PerfCounterSetup {
    pub closed spec fn view(&self) -> Seq<Seq<i32>> {
        rows(self.fds@)
    }

    /// No counter at all.
    pub fn new() -> (s: Self)
        ensures
            s@ == Seq::<Seq<i32>>::empty(),
    {
        let s = PerfCounterSetup { fds: Vec::new() };
        assert(s@ =~= Seq::<Seq<i32>>::empty());
        s
    }

    /// One step of the setup of the counters for instructions per cycle: takes what came
    /// of the last action, and says what to do next.
    pub fn setup_and_attach(&mut self, progress: &mut IpcProgress, reply: SetupReply) -> (action:
        SetupAction)
        requires
            old(progress)@.valid(),
            old(progress)@.accepts(reply),
        ensures
            final(progress)@ == old(progress)@.after(reply),
            final(progress)@.valid(),
            final(self)@ == old(progress)@.kept(old(self)@, reply),
            action == final(progress)@.next(),
    {
        match reply {
            SetupReply::Start => {},
            SetupReply::Opened(fd) => {
                progress.pending = Some(fd);
            },
            SetupReply::Attached => {
                if let Some(fd) = progress.pending {
                    progress.row.push(fd);
                    progress.pending = None;
                    if progress.row.len() == IPC_COUNTERS {
                        let mut row: Vec<i32> = Vec::new();
                        std::mem::swap(&mut row, &mut progress.row);
                        proof {
                            lemma_rows_push(self.fds@, row);
                        }
                        self.fds.push(row);
                        progress.cpu = progress.cpu + 1;
                    }
                }
            },
        }
        progress.next()
    }
}

/// The counters after one more on a CPU; CPUs up to it that had none have an empty row.
pub open spec fn with_fd(fds: Seq<Seq<i32>>, cpu: nat, fd: i32) -> Seq<Seq<i32>> {
    let grown = if fds.len() <= cpu {
        fds + Seq::new((cpu + 1 - fds.len()) as nat, |i: int| Seq::<i32>::empty())
    } else {
        fds
    };
    grown.update(cpu as int, grown[cpu as int].push(fd))
}

/// How far the setup of the selected events has come.
pub struct GenericProgress {
    events: Vec<(u32, u64)>,
    slots: usize,
    num_cpus: usize,
    slot: usize,
    cpu: usize,
    pending: Option<i32>,
}

/// The setup of the selected events, in numbers.
#[verifier::ext_equal]
pub struct GenericState {
    /// The type and the configuration of each event.
    pub events: Seq<(u32, u64)>,
    /// How many of the events are set up: those that have a table.
    pub slots: nat,
    pub num_cpus: nat,
    /// The event that is set up.
    pub slot: nat,
    /// The CPU on which it is set up.
    pub cpu: nat,
    /// A counter that was opened and is still to be handed over.
    pub pending: Option<i32>,
}

impl GenericState {
    /// Before anything was done.
    pub open spec fn fresh(events: Seq<(u32, u64)>, tables: nat, num_cpus: nat) -> GenericState {
        GenericState {
            events,
            slots: if events.len() < tables {
                events.len()
            } else {
                tables
            },
            num_cpus,
            slot: 0,
            cpu: 0,
            pending: None,
        }
    }

    /// Nothing is left to do.
    pub open spec fn done(self) -> bool {
        self.slot >= self.slots || self.num_cpus == 0
    }

    pub open spec fn valid(self) -> bool {
        &&& self.slots <= self.events.len() <= usize::MAX
        &&& self.num_cpus <= usize::MAX
        &&& self.slot <= self.slots
        &&& self.cpu < self.num_cpus || self.cpu == 0
        &&& self.done() ==> self.pending is None
    }

    /// The reply fits the last action.
    pub open spec fn accepts(self, reply: SetupReply) -> bool {
        match reply {
            SetupReply::Start => true,
            SetupReply::Opened(_) => self.next() is Open,
            SetupReply::Attached => self.next() is Attach,
        }
    }

    /// What is to be done next: each event in turn, on each CPU in turn.
    pub open spec fn next(self) -> SetupAction {
        if self.done() {
            SetupAction::Done
        } else {
            match self.pending {
                None => SetupAction::Open(
                    Counter::Typed {
                        perf_type: self.events[self.slot as int].0,
                        config: self.events[self.slot as int].1,
                        cpu: self.cpu as i32,
                    },
                ),
                Some(fd) => SetupAction::Attach {
                    table: self.slot as usize,
                    cpu: self.cpu as usize,
                    fd,
                },
            }
        }
    }

    /// The state after a reply.
    pub open spec fn after(self, reply: SetupReply) -> GenericState {
        match reply {
            SetupReply::Start => self,
            SetupReply::Opened(fd) => GenericState { pending: Some(fd), ..self },
            SetupReply::Attached => if self.cpu + 1 < self.num_cpus {
                GenericState { cpu: self.cpu + 1, pending: None, ..self }
            } else {
                GenericState { slot: self.slot + 1, cpu: 0, pending: None, ..self }
            },
        }
    }

    /// The counters that are kept after a reply.
    pub open spec fn kept(self, fds: Seq<Seq<i32>>, reply: SetupReply) -> Seq<Seq<i32>> {
        match reply {
            SetupReply::Attached => with_fd(fds, self.cpu, self.pending->0),
            _ => fds,
        }
    }
}

impl GenericProgress {
    pub closed spec fn view(&self) -> GenericState {
        GenericState {
            events: self.events@,
            slots: self.slots as nat,
            num_cpus: self.num_cpus as nat,
            slot: self.slot as nat,
            cpu: self.cpu as nat,
            pending: self.pending,
        }
    }

    /// The setup on the CPUs of this machine.
    pub fn on_this_machine(events: Vec<(u32, u64)>, tables: usize) -> (p: Self)
        ensures
            p@ == GenericState::fresh(events@, tables as nat, p@.num_cpus),
            p@.num_cpus >= 1,
            p@.valid(),
    {
        GenericProgress::on(events, tables, available_cpus())
    }

    /// The setup on so many CPUs. Events without a table are left out.
    pub fn on(events: Vec<(u32, u64)>, tables: usize, num_cpus: usize) -> (p: Self)
        ensures
            p@ == GenericState::fresh(events@, tables as nat, num_cpus as nat),
            p@.valid(),
    {
        let slots = if events.len() < tables {
            events.len()
        } else {
            tables
        };
        GenericProgress { events, slots, num_cpus, slot: 0, cpu: 0, pending: None }
    }

    fn next(&self) -> (action: SetupAction)
        requires
            self@.valid(),
        ensures
            action == self@.next(),
    {
        if self.slot >= self.slots || self.num_cpus == 0 {
            return SetupAction::Done;
        }
        match self.pending {
            None => SetupAction::Open(
                Counter::Typed {
                    perf_type: self.events[self.slot].0,
                    config: self.events[self.slot].1,
                    cpu: self.cpu as i32,
                },
            ),
            Some(fd) => SetupAction::Attach { table: self.slot, cpu: self.cpu, fd },
        }
    }

    /// What is said when a counter of the event cannot be opened.
    pub fn failure_message(&self, error: &str) -> (text: String)
        ensures
            text@ == "Generic event slot "@ + decimal(self@.slot) + " on CPU "@ + decimal(self@.cpu)
                + ": "@ + error@,
    {
        let mut text = "Generic event slot ".to_owned();
        text.append(decimal_text(self.slot as u64).as_str());
        text.append(" on CPU ");
        text.append(decimal_text(self.cpu as u64).as_str());
        text.append(": ");
        text.append(error);
        text
    }
}

impl PerfCounterSetup {
    /// Keeps one more counter of a CPU.
    fn keep(&mut self, cpu: usize, fd: i32)
        requires
            cpu < usize::MAX,
        ensures
            final(self)@ == with_fd(old(self)@, cpu as nat, fd),
    {
        let ghost before = self@;
        assert(before =~= before + Seq::new(0, |i: int| Seq::<i32>::empty()));
        while self.fds.len() <= cpu
            invariant
                cpu < usize::MAX,
                before.len() <= self.fds.len(),
                before.len() > cpu ==> self@ == before,
                self@ == before + Seq::new(
                    (self.fds.len() - before.len()) as nat,
                    |i: int| Seq::<i32>::empty(),
                ),
                self.fds.len() <= cpu + 1 || self.fds.len() == before.len(),
            decreases cpu + 1 - self.fds.len(),
        {
            let row: Vec<i32> = Vec::new();
            proof {
                lemma_rows_push(self.fds@, row);
                assert(row@ =~= Seq::<i32>::empty());
            }
            self.fds.push(row);
            assert(self@ =~= before + Seq::new(
                (self.fds.len() - before.len()) as nat,
                |i: int| Seq::<i32>::empty(),
            ));
        }
        let ghost grown = self@;
        self.fds[cpu].push(fd);
        assert(self@ =~= grown.update(cpu as int, grown[cpu as int].push(fd)));
    }

    /// One step of the setup of the selected events: takes what came of the last action,
    /// and says what to do next.
    pub fn setup_generic_events(
        &mut self,
        progress: &mut GenericProgress,
        reply: SetupReply,
    ) -> (action: SetupAction)
        requires
            old(progress)@.valid(),
            old(progress)@.accepts(reply),
        ensures
            final(progress)@ == old(progress)@.after(reply),
            final(progress)@.valid(),
            final(self)@ == old(progress)@.kept(old(self)@, reply),
            action == final(progress)@.next(),
    {
        match reply {
            SetupReply::Start => {},
            SetupReply::Opened(fd) => {
                progress.pending = Some(fd);
            },
            SetupReply::Attached => {
                if let Some(fd) = progress.pending {
                    self.keep(progress.cpu, fd);
                    progress.pending = None;
                    if progress.cpu + 1 < progress.num_cpus {
                        progress.cpu = progress.cpu + 1;
                    } else {
                        progress.slot = progress.slot + 1;
                        progress.cpu = 0;
                    }
                }
            },
        }
        progress.next()
    }

    /// All counters, in the order in which they are to be closed.
    pub fn open_fds(&self) -> (list: Vec<i32>)
        ensures
            list@ == flat(self@),
    {
        let mut list: Vec<i32> = Vec::new();
        let mut i: usize = 0;
        while i < self.fds.len()
            invariant
                i <= self.fds.len(),
                list@ == flat(self@.take(i as int)),
            decreases self.fds.len() - i,
        {
            let ghost before = list@;
            let row = &self.fds[i];
            assert(self@.take(i + 1).drop_last() =~= self@.take(i as int));
            assert(self@.take(i + 1).last() == row@);
            let mut k: usize = 0;
            while k < row.len()
                invariant
                    k <= row.len(),
                    list@ == before + row@.take(k as int),
                decreases row.len() - k,
            {
                list.push(row[k]);
                k = k + 1;
                assert(list@ =~= before + row@.take(k as int));
            }
            assert(row@.take(k as int) =~= row@);
            i = i + 1;
        }
        assert(self@.take(i as int) =~= self@);
        list
    }
}

/// The setup of the counters for instructions per cycle after so many counters were
/// opened and handed over, where `answers` gives the number of each.
pub open spec fn ipc_run(
    num_cpus: nat,
    fds: Seq<Seq<i32>>,
    answers: spec_fn(int) -> i32,
    count: nat,
) -> (IpcState, Seq<Seq<i32>>)
    decreases count,
{
    if count == 0 {
        (IpcState::fresh(num_cpus), fds)
    } else {
        let (s, f) = ipc_run(num_cpus, fds, answers, (count - 1) as nat);
        let opened = s.after(SetupReply::Opened(answers(count - 1)));
        (opened.after(SetupReply::Attached), opened.kept(f, SetupReply::Attached))
    }
}

/// The setup goes through the CPUs in order and opens the four counters of each in order;
/// the rows that are kept at any time are those of the CPUs that are complete.
pub proof fn law_ipc_setup_course(
    num_cpus: nat,
    fds: Seq<Seq<i32>>,
    answers: spec_fn(int) -> i32,
    cpu: nat,
    which: nat,
)
    requires
        num_cpus <= usize::MAX,
        cpu < num_cpus,
        which < IPC_COUNTERS,
    ensures
        ({
            let (s, f) = ipc_run(num_cpus, fds, answers, cpu * IPC_COUNTERS as nat + which);
            let fd = answers(cpu * IPC_COUNTERS + which);
            &&& s.next() == SetupAction::Open(ipc_counter(which, cpu))
            &&& s.after(SetupReply::Opened(fd)).next() == SetupAction::Attach {
                table: which as usize,
                cpu: cpu as usize,
                fd,
            }
            &&& f == fds + Seq::new(cpu, |c: int| ipc_row(answers, c))
        }),
        ({
            let (s, f) = ipc_run(num_cpus, fds, answers, num_cpus * IPC_COUNTERS as nat);
            &&& s.next() == SetupAction::Done
            &&& f == fds + Seq::new(num_cpus, |c: int| ipc_row(answers, c))
        }),
{
    lemma_ipc_run(num_cpus, fds, answers, cpu, which);
    lemma_ipc_run(num_cpus, fds, answers, num_cpus, 0);
}

/// The counters of a CPU.
pub open spec fn ipc_row(answers: spec_fn(int) -> i32, cpu: int) -> Seq<i32> {
    Seq::new(IPC_COUNTERS as nat, |j: int| answers(cpu * IPC_COUNTERS + j))
}

proof fn lemma_ipc_run(
    num_cpus: nat,
    fds: Seq<Seq<i32>>,
    answers: spec_fn(int) -> i32,
    cpu: nat,
    which: nat,
)
    requires
        cpu <= num_cpus,
        which < IPC_COUNTERS,
        cpu == num_cpus ==> which == 0,
    ensures
        ipc_run(num_cpus, fds, answers, cpu * IPC_COUNTERS as nat + which) == (
            IpcState {
                num_cpus,
                cpu,
                pending: None,
                row: Seq::new(which, |j: int| answers(cpu * IPC_COUNTERS + j)),
            },
            fds + Seq::new(cpu, |c: int| ipc_row(answers, c)),
        ),
    decreases cpu, which,
{
    let k = cpu * IPC_COUNTERS as nat + which;
    let (s, f) = ipc_run(num_cpus, fds, answers, k);
    if which > 0 {
        lemma_ipc_run(num_cpus, fds, answers, cpu, (which - 1) as nat);
    } else if cpu > 0 {
        lemma_ipc_run(num_cpus, fds, answers, (cpu - 1) as nat, (IPC_COUNTERS - 1) as nat);
        assert(((cpu - 1) as nat) * IPC_COUNTERS as nat + (IPC_COUNTERS - 1) as nat == k - 1);
    }
    assert(s.row =~= Seq::new(which, |j: int| answers(cpu * IPC_COUNTERS + j)));
    if which == 0 && cpu > 0 {
        assert(f.last() =~= ipc_row(answers, cpu - 1));
    }
    assert(f =~= fds + Seq::new(cpu, |c: int| ipc_row(answers, c)));
}

/// The setup of the selected events when it comes to an event on a CPU, where `answers`
/// gives the number of the counter of each event on each CPU.
pub open spec fn generic_run(
    start: GenericState,
    fds: Seq<Seq<i32>>,
    answers: spec_fn(int, int) -> i32,
    slot: nat,
    cpu: nat,
) -> (GenericState, Seq<Seq<i32>>)
    decreases slot, cpu,
{
    if slot == 0 && cpu == 0 {
        (start, fds)
    } else {
        let (pslot, pcpu) = if cpu > 0 {
            (slot, (cpu - 1) as nat)
        } else {
            ((slot - 1) as nat, (start.num_cpus - 1) as nat)
        };
        let (s, f) = generic_run(start, fds, answers, pslot, pcpu);
        let opened = s.after(SetupReply::Opened(answers(pslot as int, pcpu as int)));
        (opened.after(SetupReply::Attached), opened.kept(f, SetupReply::Attached))
    }
}

/// The counters of a CPU at some point: those that were there, and then one for each
/// event that was set up on it.
pub open spec fn generic_row(
    fds: Seq<Seq<i32>>,
    answers: spec_fn(int, int) -> i32,
    cpu: int,
    count: nat,
) -> Seq<i32> {
    (if cpu < fds.len() {
        fds[cpu]
    } else {
        Seq::empty()
    }) + Seq::new(count, |t: int| answers(t, cpu))
}

/// The number of rows when the setup comes to an event on a CPU: there is a row for each
/// CPU that has been set up for some event, and no row is lost.
pub open spec fn rows_after(
    start: GenericState,
    fds: Seq<Seq<i32>>,
    slot: nat,
    cpu: nat,
) -> nat {
    let reached = if slot > 0 {
        start.num_cpus
    } else {
        cpu
    };
    if fds.len() < reached {
        reached
    } else {
        fds.len()
    }
}

/// The setup goes through the events in order and through the CPUs in order for each;
/// every counter is kept with its CPU, behind those that were there, and nothing else
/// changes.
pub proof fn law_generic_setup_course(
    start: GenericState,
    fds: Seq<Seq<i32>>,
    answers: spec_fn(int, int) -> i32,
    slot: nat,
    cpu: nat,
)
    requires
        start == GenericState::fresh(start.events, start.slots, start.num_cpus),
        start.valid(),
        start.num_cpus > 0,
        slot < start.slots,
        cpu < start.num_cpus,
    ensures
        ({
            let (s, f) = generic_run(start, fds, answers, slot, cpu);
            let fd = answers(slot as int, cpu as int);
            &&& s.next() == SetupAction::Open(
                Counter::Typed {
                    perf_type: start.events[slot as int].0,
                    config: start.events[slot as int].1,
                    cpu: cpu as i32,
                },
            )
            &&& s.after(SetupReply::Opened(fd)).next() == SetupAction::Attach {
                table: slot as usize,
                cpu: cpu as usize,
                fd,
            }
            &&& f.len() == rows_after(start, fds, slot, cpu)
            &&& forall|c: int|
                0 <= c < f.len() ==> #[trigger] f[c] == generic_row(
                    fds,
                    answers,
                    c,
                    (if c >= start.num_cpus {
                        0
                    } else if c < cpu {
                        slot + 1
                    } else {
                        slot
                    }) as nat,
                )
        }),
        ({
            let (s, f) = generic_run(start, fds, answers, start.slots, 0);
            &&& s.next() == SetupAction::Done
            &&& f.len() == (if fds.len() < start.num_cpus {
                start.num_cpus
            } else {
                fds.len()
            })
            &&& forall|c: int| start.num_cpus <= c < f.len() ==> #[trigger] f[c] == fds[c]
            &&& forall|c: int|
                0 <= c < start.num_cpus ==> #[trigger] f[c] == generic_row(
                    fds,
                    answers,
                    c,
                    start.slots,
                )
        }),
{
    lemma_generic_run(start, fds, answers, slot, cpu);
    lemma_generic_run(start, fds, answers, start.slots, 0);
    let (s, f) = generic_run(start, fds, answers, start.slots, 0);
    assert forall|c: int| start.num_cpus <= c < f.len() implies #[trigger] f[c] == fds[c] by {
        assert(f[c] =~= fds[c]);
    }
}

proof fn lemma_generic_run(
    start: GenericState,
    fds: Seq<Seq<i32>>,
    answers: spec_fn(int, int) -> i32,
    slot: nat,
    cpu: nat,
)
    requires
        start == GenericState::fresh(start.events, start.slots, start.num_cpus),
        start.num_cpus > 0,
        slot <= start.slots,
        cpu < start.num_cpus,
        slot == start.slots ==> cpu == 0,
    ensures
        ({
            let (s, f) = generic_run(start, fds, answers, slot, cpu);
            &&& s == GenericState { slot, cpu, ..start }
            &&& f.len() == rows_after(start, fds, slot, cpu)
            &&& forall|c: int|
                0 <= c < f.len() ==> #[trigger] f[c] == generic_row(
                    fds,
                    answers,
                    c,
                    (if c >= start.num_cpus {
                        0
                    } else if c < cpu {
                        slot + 1
                    } else {
                        slot
                    }) as nat,
                )
        }),
    decreases slot, cpu,
{
    if slot == 0 && cpu == 0 {
        assert forall|c: int| 0 <= c < fds.len() implies #[trigger] fds[c] == generic_row(
            fds,
            answers,
            c,
            0,
        ) by {
            assert(fds[c] =~= generic_row(fds, answers, c, 0));
        }
    } else {
        let (pslot, pcpu) = if cpu > 0 {
            (slot, (cpu - 1) as nat)
        } else {
            ((slot - 1) as nat, (start.num_cpus - 1) as nat)
        };
        lemma_generic_run(start, fds, answers, pslot, pcpu);
        let (s0, f0) = generic_run(start, fds, answers, pslot, pcpu);
        let (s, f) = generic_run(start, fds, answers, slot, cpu);
        let fd = answers(pslot as int, pcpu as int);
        assert(f == with_fd(f0, pcpu, fd));
        assert forall|c: int| 0 <= c < f.len() implies #[trigger] f[c] == generic_row(
            fds,
            answers,
            c,
            (if c >= start.num_cpus {
                0
            } else if c < cpu {
                slot + 1
            } else {
                slot
            }) as nat,
        ) by {
            if c == pcpu {
                if c < f0.len() {
                    assert(f0[c] == generic_row(fds, answers, c, pslot));
                } else {
                    assert(generic_row(fds, answers, c, pslot) =~= Seq::empty());
                }
                assert(f[c] =~= generic_row(fds, answers, c, pslot + 1));
            } else if c < f0.len() {
                assert(f[c] == f0[c]);
            } else {
                assert(f[c] =~= Seq::empty());
            }
        }
    }
}

/// Every counter that is kept is closed in the end.
pub proof fn law_every_kept_counter_is_closed(kept: Seq<Seq<i32>>, cpu: int, which: int)
    requires
        0 <= cpu < kept.len(),
        0 <= which < kept[cpu].len(),
    ensures
        flat(kept).contains(kept[cpu][which]),
    decreases kept.len(),
{
    let init = kept.drop_last();
    let last = kept.len() - 1;
    if cpu < last {
        law_every_kept_counter_is_closed(init, cpu, which);
        let i = choose|i: int| 0 <= i < flat(init).len() && flat(init)[i] == kept[cpu][which];
        assert(flat(kept)[i] == kept[cpu][which]);
    } else {
        assert(flat(kept)[flat(init).len() + which] == kept[cpu][which]);
    }
}

/// Each exclusion of a hardware counter is set on its own, whatever the other is; the
/// hypervisor and the idle task are always left out, and no other flag is set.
pub proof fn law_exclusions_are_set_apart(
    config: u64,
    cpu: i32,
    exclude_kernel: bool,
    exclude_user: bool,
)
    ensures
        ({
            let flags = (Counter::Ipc { config, cpu, exclude_kernel, exclude_user }).attr_spec().flags;
            &&& flags & 0x10 != 0 <==> exclude_user
            &&& flags & 0x20 != 0 <==> exclude_kernel
            &&& flags & 0x40 != 0
            &&& flags & 0x80 != 0
            &&& flags & !0xf0u64 == 0
        }),
{
    let flags = (Counter::Ipc { config, cpu, exclude_kernel, exclude_user }).attr_spec().flags;
    assert(flags == (if exclude_kernel {
        if exclude_user {
            0xf0u64
        } else {
            0xe0u64
        }
    } else {
        if exclude_user {
            0xd0u64
        } else {
            0xc0u64
        }
    }));
    assert((flags & 0x10 != 0 <==> exclude_user) && (flags & 0x20 != 0 <==> exclude_kernel) && flags
        & 0x40 != 0 && flags & 0x80 != 0 && flags & !0xf0u64 == 0) by (bit_vector)
        requires
            flags == (if exclude_kernel {
                if exclude_user {
                    0xf0u64
                } else {
                    0xe0u64
                }
            } else {
                if exclude_user {
                    0xd0u64
                } else {
                    0xc0u64
                }
            }),
    ;
}

/// The description of a counter names its event and says how long it is; beside the flags
/// nothing else is in it. A counter of any type leaves out the hypervisor and the idle task
/// alone.
pub proof fn law_description_names_the_event(counter: Counter)
    ensures
        ({
            let a = counter.attr_spec();
            &&& match counter {
                Counter::Ipc { config, cpu, .. } => {
                    &&& a.type_ == 0
                    &&& a.config == config
                    &&& counter.cpu_spec() == cpu
                },
                Counter::Typed { perf_type, config, cpu } => {
                    &&& a.type_ == perf_type
                    &&& a.config == config
                    &&& a.flags == 0xc0
                    &&& counter.cpu_spec() == cpu
                },
            }
            &&& a.size == 112
            &&& a.sample_period == 0 && a.sample_type == 0 && a.read_format == 0
            &&& a.wakeup_events == 0 && a.bp_type == 0 && a.bp_addr == 0 && a.bp_len == 0
            &&& a.branch_sample_type == 0 && a.sample_regs_user == 0 && a.sample_stack_user == 0
            &&& a.clockid == 0 && a.sample_regs_intr == 0 && a.aux_watermark == 0
            &&& a.sample_max_stack == 0 && a.reserved_2 == 0
        }),
{
}

/// The four counters of any CPU: cycles and then instructions, each in user mode and then in
/// the kernel, all on that CPU.
pub proof fn law_four_counters_of_a_cpu(cpu: nat, which: nat)
    requires
        cpu <= i32::MAX,
        which < 4,
    ensures
        ipc_counter(which, cpu).cpu_spec() == cpu,
        ipc_counter(which, cpu).attr_spec().type_ == 0,
        ipc_counter(0, cpu).attr_spec().config == 0 && ipc_counter(0, cpu).attr_spec().flags == 0xe0,
        ipc_counter(1, cpu).attr_spec().config == 0 && ipc_counter(1, cpu).attr_spec().flags == 0xd0,
        ipc_counter(2, cpu).attr_spec().config == 1 && ipc_counter(2, cpu).attr_spec().flags == 0xe0,
        ipc_counter(3, cpu).attr_spec().config == 1 && ipc_counter(3, cpu).attr_spec().flags == 0xd0,
        ipc_counter(which, cpu) is Ipc,
{
}

/// Every event that has a table is set up on every CPU, and then the setup is done: nothing
/// is left out, and nothing is set up twice.
pub proof fn law_generic_setup_covers_every_event(
    events: Seq<(u32, u64)>,
    tables: nat,
    num_cpus: nat,
    fds: Seq<Seq<i32>>,
    answers: spec_fn(int, int) -> i32,
    slot: nat,
    cpu: nat,
)
    requires
        events.len() <= usize::MAX,
        0 < num_cpus <= usize::MAX,
        slot < events.len(),
        slot < tables,
        cpu < num_cpus,
    ensures
        ({
            let start = GenericState::fresh(events, tables, num_cpus);
            let (s, f) = generic_run(start, fds, answers, slot, cpu);
            &&& s.next() == SetupAction::Open(
                Counter::Typed {
                    perf_type: events[slot as int].0,
                    config: events[slot as int].1,
                    cpu: cpu as i32,
                },
            )
            &&& s.after(SetupReply::Opened(answers(slot as int, cpu as int))).next()
                == SetupAction::Attach {
                table: slot as usize,
                cpu: cpu as usize,
                fd: answers(slot as int, cpu as int),
            }
        }),
        ({
            let start = GenericState::fresh(events, tables, num_cpus);
            let count = if events.len() < tables {
                events.len()
            } else {
                tables
            };
            let (s, f) = generic_run(start, fds, answers, count, 0);
            &&& s.next() == SetupAction::Done
            &&& cpu < f.len()
            &&& f[cpu as int] == (if cpu < fds.len() {
                fds[cpu as int]
            } else {
                seq![]
            }) + Seq::new(count, |t: int| answers(t, cpu as int))
        }),
{
    let start = GenericState::fresh(events, tables, num_cpus);
    law_generic_setup_course(start, fds, answers, slot, cpu);
    let (s, f) = generic_run(start, fds, answers, start.slots, 0);
    assert(f[cpu as int] == generic_row(fds, answers, cpu as int, start.slots));
}

/// Where there is no event with a table, or no CPU, nothing is set up.
pub proof fn law_nothing_to_set_up(events: Seq<(u32, u64)>, tables: nat, num_cpus: nat)
    ensures
        GenericState::fresh(events, tables, num_cpus).next() is Done <==> events.len() == 0
            || tables == 0 || num_cpus == 0,
        IpcState::fresh(num_cpus).next() is Done <==> num_cpus == 0,
        IpcState::fresh(num_cpus).num_cpus == num_cpus,
        GenericState::fresh(events, tables, num_cpus).num_cpus == num_cpus,
        GenericState::fresh(events, tables, num_cpus).slot == 0,
        GenericState::fresh(events, tables, num_cpus).cpu == 0,
{
}

/// The counters that are closed are those of each CPU, one CPU after the other, and no
/// others.
pub proof fn law_counters_are_closed_in_order(a: Seq<Seq<i32>>, b: Seq<Seq<i32>>, row: Seq<i32>)
    ensures
        flat(Seq::empty()) == Seq::<i32>::empty(),
        flat(seq![row]) == row,
        flat(a + b) == flat(a) + flat(b),
    decreases b.len(),
{
    reveal_with_fuel(flat, 2);
    assert(seq![row].drop_last() =~= Seq::<Seq<i32>>::empty());
    assert(flat(seq![row]) =~= row);
    if b.len() == 0 {
        assert(a + b =~= a);
        assert(flat(a) + flat(b) =~= flat(a));
    } else {
        law_counters_are_closed_in_order(a, b.drop_last(), row);
        assert((a + b).drop_last() =~= a + b.drop_last());
        assert((a + b).last() == b.last());
        assert(flat(a + b) =~= flat(a) + flat(b));
    }
}

/// The numbers by which the kernel knows its calls and flags.
pub proof fn law_numbers_of_the_kernel()
    ensures
        PERF_FLAG_FD_CLOEXEC == 8,
        PERF_ATTR_BIT_DISABLED == 1 && PERF_ATTR_BIT_INHERIT == 2,
        PERF_ATTR_BIT_PINNED == 4 && PERF_ATTR_BIT_EXCLUSIVE == 8,
        PERF_ATTR_BIT_EXCLUDE_USER == 0x10 && PERF_ATTR_BIT_EXCLUDE_KERNEL == 0x20,
        PERF_ATTR_BIT_EXCLUDE_HV == 0x40 && PERF_ATTR_BIT_EXCLUDE_IDLE == 0x80,
        PERF_TYPE_HARDWARE == 0,
        PERF_COUNT_HW_CPU_CYCLES == 0 && PERF_COUNT_HW_INSTRUCTIONS == 1,
        PERF_EVENT_IOC_ENABLE == 0x2400 && PERF_EVENT_IOC_DISABLE == 0x2401,
        PERF_EVENT_IOC_RESET == 0x2403,
        PERF_EVENT_ATTR_SIZE == 112,
        BPF_MAP_UPDATE_ELEM == 2 && BPF_ANY == 0,
        IPC_COUNTERS == 4,
{
}

/// Whatever number an opened counter has, it is accepted where a counter was to be opened; so
/// is that it was handed over.
pub proof fn law_every_reply_is_accepted(s: IpcState, g: GenericState, fd: i32)
    ensures
        s.next() is Open ==> s.accepts(SetupReply::Opened(fd)),
        s.next() is Attach ==> s.accepts(SetupReply::Attached),
        g.next() is Open ==> g.accepts(SetupReply::Opened(fd)),
        g.next() is Attach ==> g.accepts(SetupReply::Attached),
        s.accepts(SetupReply::Start) && g.accepts(SetupReply::Start),
        s.after(SetupReply::Start) == s && g.after(SetupReply::Start) == g,
{
}

} // verus!
