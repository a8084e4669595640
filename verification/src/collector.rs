//! Emptying the kernel side's tables into maps of plain values.
use crate::hist::Hist;
use crate::records::{
    CpuPerfData, CpuPerfDataFull, GenericPerfData, HistData, MigrationData, NrRunningData,
    TimesliceData, TimesliceStats, WakingData, MAX_GENERIC_EVENTS, TASK_COMM_LEN,
};
use crate::text::{
    is_white_space, law_trim_is_idempotent, lemma_trimming_adds_nothing, trim_text, trimmed,
};
use std::collections::HashMap;
use vstd::prelude::*;
use vstd::utf8::{decode_utf8, encode_scalar, encode_utf8, valid_utf8};

verus! {

broadcast use vstd::std_specs::hash::group_hash_axioms;

/// Number of slots of a migration histogram.
pub const MIG_HIST_SLOTS: usize = 1025;

/// A histogram of migrations per second.
pub struct MigHist {
    pub slots: [u32; MIG_HIST_SLOTS],
}

impl Clone for MigHist {
    fn clone(&self) -> (h: Self)
        ensures
            h == *self,
    {
        MigHist { slots: self.slots }
    }
}

impl Default for MigHist {
    fn default() -> (h: Self)
        ensures
            h.slots@ == Seq::new(MIG_HIST_SLOTS as nat, |i: int| 0u32),
    {
        let h = MigHist { slots: [0; 1025] };
        assert(h.slots@ =~= Seq::new(MIG_HIST_SLOTS as nat, |i: int| 0u32));
        h
    }
}

/// How often a task changed CPU, and how often it left its cache or its memory node.
#[derive(Copy, Clone)]
pub struct MigrationCounts {
    pub total: u64,
    pub cross_ccx: u64,
    pub cross_numa: u64,
}

impl Default for MigrationCounts {
    fn default() -> (c: Self)
        ensures
            c == (MigrationCounts { total: 0, cross_ccx: 0, cross_numa: 0 }),
    {
        MigrationCounts { total: 0, cross_ccx: 0, cross_numa: 0 }
    }
}

/// What `String::from_utf8_lossy` makes of bytes that are not UTF-8.
pub uninterp spec fn repaired_utf8(bytes: Seq<u8>) -> Seq<char>;

/// Calls `String::from_utf8_lossy`. Trusted: bytes in UTF-8 are decoded. What stands for
/// other bytes depends on them alone; since only what is not UTF-8 is replaced, and each
/// time by U+FFFD, it holds a NUL only where the bytes hold a zero.
#[verifier::external_body]
fn utf8_text(bytes: &[u8]) -> (s: String)
    ensures
        valid_utf8(bytes@) ==> s@ == decode_utf8(bytes@),
        !valid_utf8(bytes@) ==> s@ == repaired_utf8(bytes@),
        !valid_utf8(bytes@) && !bytes@.contains(0u8) ==> !s@.contains('\0'),
{
    String::from_utf8_lossy(bytes).into_owned()
}

/// The text that bytes stand for.
pub open spec fn text_of_bytes(bytes: Seq<u8>) -> Seq<char> {
    if valid_utf8(bytes) {
        decode_utf8(bytes)
    } else {
        repaired_utf8(bytes)
    }
}

/// The bytes before the first zero.
pub open spec fn before_zero(bytes: Seq<u8>) -> Seq<u8>
    decreases bytes.len(),
{
    if bytes.len() == 0 || bytes[0] == 0 {
        Seq::empty()
    } else {
        seq![bytes[0]] + before_zero(bytes.drop_first())
    }
}

/// A command name as text: the bytes before the padding, without white space around.
pub open spec fn comm_text(comm: [u8; TASK_COMM_LEN]) -> Seq<char> {
    trimmed(text_of_bytes(before_zero(comm@)))
}

/// The bytes of a command name before its padding.
pub fn comm_bytes(comm: &[u8; TASK_COMM_LEN]) -> (bytes: Vec<u8>)
    ensures
        bytes@ == before_zero(comm@),
{
    let mut bytes: Vec<u8> = Vec::new();
    let mut i: usize = 0;
    assert(comm@.skip(0) =~= comm@);
    while i < TASK_COMM_LEN && comm[i] != 0
        invariant
            i <= TASK_COMM_LEN,
            before_zero(comm@) == bytes@ + before_zero(comm@.skip(i as int)),
        decreases TASK_COMM_LEN - i,
    {
        assert(comm@.skip(i as int).drop_first() =~= comm@.skip(i + 1));
        bytes.push(comm[i]);
        i = i + 1;
        assert(before_zero(comm@) =~= bytes@ + before_zero(comm@.skip(i as int)));
    }
    assert(before_zero(comm@) =~= bytes@);
    bytes
}

/// A text that decodes bytes without a zero holds no NUL.
proof fn lemma_decoded_has_no_nul(bytes: Seq<u8>)
    requires
        valid_utf8(bytes),
        !bytes.contains(0u8),
    ensures
        !decode_utf8(bytes).contains('\0'),
{
    let text = decode_utf8(bytes);
    vstd::utf8::decode_utf8_encode_utf8(bytes);
    if text.contains('\0') {
        let i = choose|i: int| 0 <= i < text.len() && text[i] == '\0';
        lemma_nul_is_encoded(text, i);
    }
}

/// A NUL is encoded as a zero.
proof fn lemma_nul_is_encoded(text: Seq<char>, i: int)
    requires
        0 <= i < text.len(),
        text[i] == '\0',
    ensures
        encode_utf8(text).contains(0u8),
    decreases text.len(),
{
    let head = encode_scalar(text[0] as u32);
    let tail = encode_utf8(text.drop_first());
    if i == 0 {
        assert(0u32 & 0x7F == 0) by (bit_vector);
        assert(encode_utf8(text)[0] == 0u8);
    } else {
        lemma_nul_is_encoded(text.drop_first(), i - 1);
        let j = choose|j: int| 0 <= j < tail.len() && tail[j] == 0u8;
        assert(encode_utf8(text)[head.len() + j] == 0u8);
    }
}

/// There is no zero before the first zero.
proof fn lemma_before_zero_has_no_zero(bytes: Seq<u8>)
    ensures
        !before_zero(bytes).contains(0u8),
    decreases bytes.len(),
{
    if bytes.len() > 0 && bytes[0] != 0 {
        let rest = before_zero(bytes.drop_first());
        lemma_before_zero_has_no_zero(bytes.drop_first());
        assert forall|i: int| 0 <= i < before_zero(bytes).len() implies before_zero(bytes)[i]
            != 0 by {
            if i > 0 {
                assert(rest.contains(rest[i - 1]));
            }
        }
    }
}

/// A text as a command name is read: without a NUL, and without white space at either end.
pub open spec fn is_clean(text: Seq<char>) -> bool {
    &&& !text.contains('\0')
    &&& text.len() > 0 ==> !is_white_space(text[0]) && !is_white_space(text.last())
}

/// A command name as text, whatever its bytes are.
pub fn comm_str(comm: &[u8; TASK_COMM_LEN]) -> (s: String)
    ensures
        s@ == comm_text(*comm),
        is_clean(s@),
{
    let bytes = comm_bytes(comm);
    let text = utf8_text(bytes.as_slice());
    proof {
        lemma_before_zero_has_no_zero(comm@);
        if valid_utf8(bytes@) {
            lemma_decoded_has_no_nul(bytes@);
        }
        lemma_trimming_adds_nothing(text@, '\0');
        law_trim_is_idempotent(text@);
    }
    trim_text(text.as_str())
}

/// A record that carries the name and the control group of the task it belongs to.
pub trait WithComm: Sized {
    /// What the record holds besides.
    type Data;

    spec fn data(&self) -> Self::Data;

    spec fn comm(&self) -> [u8; TASK_COMM_LEN];

    spec fn cgroup(&self) -> u64;

    fn extract_data(&self) -> (d: Self::Data)
        ensures
            d == self.data(),
    ;

    fn extract_comm(&self) -> (s: String)
        ensures
            s@ == comm_text(self.comm()),
            is_clean(s@),
    ;

    fn extract_cgroup_id(&self) -> (id: u64)
        ensures
            id == self.cgroup(),
    ;
}

impl WithComm for HistData {
    type Data = Hist;

    open spec fn data(&self) -> Hist {
        self.hist
    }

    open spec fn comm(&self) -> [u8; TASK_COMM_LEN] {
        self.comm
    }

    open spec fn cgroup(&self) -> u64 {
        self.cgroup_id
    }

    fn extract_data(&self) -> (d: Hist) {
        self.hist
    }

    fn extract_comm(&self) -> (s: String) {
        comm_str(&self.comm)
    }

    fn extract_cgroup_id(&self) -> (id: u64) {
        self.cgroup_id
    }
}

impl WithComm for TimesliceData {
    type Data = TimesliceStats;

    open spec fn data(&self) -> TimesliceStats {
        self.stats
    }

    open spec fn comm(&self) -> [u8; TASK_COMM_LEN] {
        self.comm
    }

    open spec fn cgroup(&self) -> u64 {
        self.cgroup_id
    }

    fn extract_data(&self) -> (d: TimesliceStats) {
        self.stats
    }

    fn extract_comm(&self) -> (s: String) {
        comm_str(&self.comm)
    }

    fn extract_cgroup_id(&self) -> (id: u64) {
        self.cgroup_id
    }
}

impl WithComm for CpuPerfDataFull {
    type Data = CpuPerfData;

    open spec fn data(&self) -> CpuPerfData {
        self.data
    }

    open spec fn comm(&self) -> [u8; TASK_COMM_LEN] {
        self.comm
    }

    open spec fn cgroup(&self) -> u64 {
        self.cgroup_id
    }

    fn extract_data(&self) -> (d: CpuPerfData) {
        self.data
    }

    fn extract_comm(&self) -> (s: String) {
        comm_str(&self.comm)
    }

    fn extract_cgroup_id(&self) -> (id: u64) {
        self.cgroup_id
    }
}

impl WithComm for MigrationData {
    type Data = MigrationCounts;

    open spec fn data(&self) -> MigrationCounts {
        MigrationCounts {
            total: self.count,
            cross_ccx: self.cross_ccx_count,
            cross_numa: self.cross_numa_count,
        }
    }

    open spec fn comm(&self) -> [u8; TASK_COMM_LEN] {
        self.comm
    }

    open spec fn cgroup(&self) -> u64 {
        self.cgroup_id
    }

    fn extract_data(&self) -> (d: MigrationCounts) {
        MigrationCounts {
            total: self.count,
            cross_ccx: self.cross_ccx_count,
            cross_numa: self.cross_numa_count,
        }
    }

    fn extract_comm(&self) -> (s: String) {
        comm_str(&self.comm)
    }

    fn extract_cgroup_id(&self) -> (id: u64) {
        self.cgroup_id
    }
}

impl WithComm for GenericPerfData {
    type Data = [u64; MAX_GENERIC_EVENTS];

    open spec fn data(&self) -> [u64; MAX_GENERIC_EVENTS] {
        self.counters
    }

    open spec fn comm(&self) -> [u8; TASK_COMM_LEN] {
        self.comm
    }

    open spec fn cgroup(&self) -> u64 {
        self.cgroup_id
    }

    fn extract_data(&self) -> (d: [u64; MAX_GENERIC_EVENTS]) {
        self.counters
    }

    fn extract_comm(&self) -> (s: String) {
        comm_str(&self.comm)
    }

    fn extract_cgroup_id(&self) -> (id: u64) {
        self.cgroup_id
    }
}

impl WithComm for NrRunningData {
    type Data = Hist;

    open spec fn data(&self) -> Hist {
        self.hist
    }

    open spec fn comm(&self) -> [u8; TASK_COMM_LEN] {
        self.comm
    }

    open spec fn cgroup(&self) -> u64 {
        self.cgroup_id
    }

    fn extract_data(&self) -> (d: Hist) {
        self.hist
    }

    fn extract_comm(&self) -> (s: String) {
        comm_str(&self.comm)
    }

    fn extract_cgroup_id(&self) -> (id: u64) {
        self.cgroup_id
    }
}

impl WithComm for WakingData {
    type Data = Hist;

    open spec fn data(&self) -> Hist {
        self.hist
    }

    open spec fn comm(&self) -> [u8; TASK_COMM_LEN] {
        self.comm
    }

    open spec fn cgroup(&self) -> u64 {
        self.cgroup_id
    }

    fn extract_data(&self) -> (d: Hist) {
        self.hist
    }

    fn extract_comm(&self) -> (s: String) {
        comm_str(&self.comm)
    }

    fn extract_cgroup_id(&self) -> (id: u64) {
        self.cgroup_id
    }
}

/// What is to be done next to a table of the kernel side.
#[derive(PartialEq, Eq, Structural, Clone, Copy)]
pub enum DrainAction {
    /// Read the record of this key.
    Read(u32),
    /// Remove this key.
    Remove(u32),
    /// Nothing is left to do.
    Done,
}

/// The emptying of a table of the kernel side, key by key: each key is read and then
/// removed, whether or not it could be read.
pub struct Drain<T> {
    keys: Vec<u32>,
    reads: Vec<(u32, Option<T>)>,
    removing: bool,
}

/// How far the emptying of a table has come.
#[verifier::ext_equal]
pub struct DrainState<T> {
    /// The keys of the table.
    pub keys: Seq<u32>,
    /// The keys read so far, with the record where there was one.
    pub reads: Seq<(u32, Option<T>)>,
    /// Whether the last key read is still to be removed.
    pub removing: bool,
}

impl<T> DrainState<T> {
    /// Before anything was done.
    pub open spec fn fresh(keys: Seq<u32>) -> Self {
        DrainState { keys, reads: Seq::empty(), removing: false }
    }

    /// The keys were read in their order, and one is to be removed only after it was read.
    pub open spec fn valid(self) -> bool {
        &&& self.reads.len() <= self.keys.len()
        &&& forall|i: int| 0 <= i < self.reads.len() ==> #[trigger] self.reads[i].0 == self.keys[i]
        &&& self.removing ==> self.reads.len() > 0
    }

    /// What is to be done next.
    pub open spec fn next(self) -> DrainAction {
        if self.removing {
            DrainAction::Remove(self.reads.last().0)
        } else if self.reads.len() < self.keys.len() {
            DrainAction::Read(self.keys[self.reads.len() as int])
        } else {
            DrainAction::Done
        }
    }

    /// After the next key was read.
    pub open spec fn after_read(self, value: Option<T>) -> Self {
        DrainState {
            reads: self.reads.push((self.keys[self.reads.len() as int], value)),
            removing: true,
            ..self
        }
    }

    /// After the last key read was removed.
    pub open spec fn after_remove(self) -> Self {
        DrainState { removing: false, ..self }
    }
}

/// The keys that could be read.
pub open spec fn readable(keys: Seq<Option<u32>>) -> Seq<u32>
    decreases keys.len(),
{
    if keys.len() == 0 {
        Seq::empty()
    } else {
        match keys.last() {
            Some(k) => readable(keys.drop_last()).push(k),
            None => readable(keys.drop_last()),
        }
    }
}

impl<T> Drain<T> {
    pub closed spec fn view(&self) -> DrainState<T> {
        DrainState { keys: self.keys@, reads: self.reads@, removing: self.removing }
    }

    /// Starts with the keys of a table; those that could not be read are left out.
    pub fn start(keys: Vec<Option<u32>>) -> (d: Self)
        ensures
            d@ == DrainState::<T>::fresh(readable(keys@)),
            d@.valid(),
    {
        let mut list: Vec<u32> = Vec::new();
        let mut i: usize = 0;
        while i < keys.len()
            invariant
                i <= keys.len(),
                list@ == readable(keys@.take(i as int)),
            decreases keys.len() - i,
        {
            assert(keys@.take(i + 1).drop_last() =~= keys@.take(i as int));
            if let Some(k) = keys[i] {
                list.push(k);
            }
            i = i + 1;
        }
        assert(keys@.take(i as int) =~= keys@);
        Drain { keys: list, reads: Vec::new(), removing: false }
    }

    /// What is to be done next.
    pub fn next(&self) -> (action: DrainAction)
        requires
            self@.valid(),
        ensures
            action == self@.next(),
    {
        if self.removing {
            DrainAction::Remove(self.reads[self.reads.len() - 1].0)
        } else if self.reads.len() < self.keys.len() {
            DrainAction::Read(self.keys[self.reads.len()])
        } else {
            DrainAction::Done
        }
    }

    /// Takes what reading the key gave: its record, or nothing.
    pub fn took(&mut self, value: Option<T>)
        requires
            old(self)@.valid(),
            old(self)@.next() is Read,
        ensures
            final(self)@ == old(self)@.after_read(value),
            final(self)@.valid(),
    {
        let key = self.keys[self.reads.len()];
        self.reads.push((key, value));
        self.removing = true;
    }

    /// Takes note that the removal of the key was tried.
    pub fn removed(&mut self)
        requires
            old(self)@.valid(),
            old(self)@.next() is Remove,
        ensures
            final(self)@ == old(self)@.after_remove(),
            final(self)@.valid(),
    {
        self.removing = false;
    }
}

/// What the reads of a table amount to: for each key its last record. Keys that
/// held nothing are left out.
pub open spec fn collected_plain<T>(reads: Seq<(u32, Option<T>)>) -> Map<u32, T>
    decreases reads.len(),
{
    if reads.len() == 0 {
        Map::empty()
    } else {
        let before = collected_plain(reads.drop_last());
        match reads.last().1 {
            Some(t) => before.insert(reads.last().0, t),
            None => before,
        }
    }
}

/// What the reads of a table of task records amount to: for each key what its last record
/// holds, with the task's name and control group.
pub open spec fn collected<T: WithComm>(reads: Seq<(u32, Option<T>)>) -> Map<
    u32,
    (T::Data, Seq<char>, u64),
> {
    collected_plain(reads).map_values(|t: T| (t.data(), comm_text(t.comm()), t.cgroup()))
}

/// A map of task records with each name as its text.
pub open spec fn with_text<D>(m: Map<u32, (D, String, u64)>) -> Map<u32, (D, Seq<char>, u64)> {
    m.map_values(|v: (D, String, u64)| (v.0, v.1@, v.2))
}

/// The selected events of tasks, by process id, with name and control group.
pub type GenericPerfResult = HashMap<u32, ([u64; MAX_GENERIC_EVENTS], String, u64)>;

/// Reads the tables of the kernel side.
pub struct RschedCollector;

impl RschedCollector {
    pub fn new() -> (c: Self)
        ensures
            c == RschedCollector,
    {
        RschedCollector
    }

    fn collect_with_comm_map<T: WithComm>(drain: &Drain<T>) -> (results: HashMap<
        u32,
        (T::Data, String, u64),
    >)
        ensures
            with_text(results@) == collected(drain@.reads),
    {
        let mut results: HashMap<u32, (T::Data, String, u64)> = HashMap::new();
        let mut i: usize = 0;
        assert(with_text(results@) =~= collected(drain@.reads.take(0)));
        while i < drain.reads.len()
            invariant
                i <= drain.reads.len(),
                with_text(results@) == collected(drain@.reads.take(i as int)),
            decreases drain.reads.len() - i,
        {
            let ghost before = results@;
            assert(drain@.reads.take(i + 1).drop_last() =~= drain@.reads.take(i as int));
            assert(drain@.reads.take(i + 1).last() == drain.reads@[i as int]);
            let key = drain.reads[i].0;
            if let Some(data) = &drain.reads[i].1 {
                let entry = (data.extract_data(), data.extract_comm(), data.extract_cgroup_id());
                results.insert(key, entry);
                assert(with_text(results@) =~= with_text(before).insert(
                    key,
                    (entry.0, entry.1@, entry.2),
                ));
            }
            i = i + 1;
            assert(with_text(results@) =~= collected(drain@.reads.take(i as int)));
        }
        assert(drain@.reads.take(i as int) =~= drain@.reads);
        results
    }

    fn collect_plain_map<T: Copy>(drain: &Drain<T>) -> (results: HashMap<u32, T>)
        ensures
            results@ == collected_plain(drain@.reads),
    {
        let mut results: HashMap<u32, T> = HashMap::new();
        let mut i: usize = 0;
        while i < drain.reads.len()
            invariant
                i <= drain.reads.len(),
                results@ == collected_plain(drain@.reads.take(i as int)),
            decreases drain.reads.len() - i,
        {
            assert(drain@.reads.take(i + 1).drop_last() =~= drain@.reads.take(i as int));
            assert(drain@.reads.take(i + 1).last() == drain.reads@[i as int]);
            let key = drain.reads[i].0;
            if let Some(data) = &drain.reads[i].1 {
                results.insert(key, *data);
            }
            i = i + 1;
        }
        assert(drain@.reads.take(i as int) =~= drain@.reads);
        results
    }

    /// The scheduling delays of tasks.
    pub fn collect_histograms(drain: &Drain<HistData>) -> (results: HashMap<u32, (Hist, String, u64)>)
        ensures
            with_text(results@) == collected(drain@.reads),
    {
        Self::collect_with_comm_map(drain)
    }

    /// The scheduling delays on CPUs.
    pub fn collect_cpu_histograms(drain: &Drain<Hist>) -> (results: HashMap<u32, Hist>)
        ensures
            results@ == collected_plain(drain@.reads),
    {
        Self::collect_plain_map(drain)
    }

    /// The idle times of CPUs.
    pub fn collect_cpu_idle_histograms(drain: &Drain<Hist>) -> (results: HashMap<u32, Hist>)
        ensures
            results@ == collected_plain(drain@.reads),
    {
        Self::collect_plain_map(drain)
    }

    /// The run queue lengths that tasks met.
    pub fn collect_nr_running_hists(drain: &Drain<NrRunningData>) -> (results: HashMap<u32, (Hist, String, u64)>)
        ensures
            with_text(results@) == collected(drain@.reads),
    {
        Self::collect_with_comm_map(drain)
    }

    /// The delays from waking to wakeup of tasks.
    pub fn collect_waking_delays(drain: &Drain<WakingData>) -> (results: HashMap<u32, (Hist, String, u64)>)
        ensures
            with_text(results@) == collected(drain@.reads),
    {
        Self::collect_with_comm_map(drain)
    }

    /// The sleep times of tasks.
    pub fn collect_sleep_durations(drain: &Drain<HistData>) -> (results: HashMap<u32, (Hist, String, u64)>)
        ensures
            with_text(results@) == collected(drain@.reads),
    {
        Self::collect_with_comm_map(drain)
    }

    /// The time slices of tasks.
    pub fn collect_timeslice_stats(drain: &Drain<TimesliceData>) -> (results: HashMap<u32, (TimesliceStats, String, u64)>)
        ensures
            with_text(results@) == collected(drain@.reads),
    {
        Self::collect_with_comm_map(drain)
    }

    /// The migrations of tasks.
    pub fn collect_migration_counts(drain: &Drain<MigrationData>) -> (results: HashMap<u32, (MigrationCounts, String, u64)>)
        ensures
            with_text(results@) == collected(drain@.reads),
    {
        Self::collect_with_comm_map(drain)
    }

    /// The cycles and instructions of tasks.
    pub fn collect_cpu_perf(drain: &Drain<CpuPerfDataFull>) -> (results: HashMap<u32, (CpuPerfData, String, u64)>)
        ensures
            with_text(results@) == collected(drain@.reads),
    {
        Self::collect_with_comm_map(drain)
    }

    /// The selected events of tasks.
    pub fn collect_generic_perf(drain: &Drain<GenericPerfData>) -> (results: GenericPerfResult)
        ensures
            with_text(results@) == collected(drain@.reads),
    {
        Self::collect_with_comm_map(drain)
    }
}

/// The state after so many actions of the emptying of a table, where `answers` gives the
/// record of the key at each position.
pub open spec fn drain_after<T>(
    keys: Seq<u32>,
    answers: spec_fn(int) -> Option<T>,
    steps: nat,
) -> DrainState<T>
    decreases steps,
{
    if steps == 0 {
        DrainState::fresh(keys)
    } else {
        let s = drain_after(keys, answers, (steps - 1) as nat);
        match s.next() {
            DrainAction::Read(_) => s.after_read(answers(s.reads.len() as int)),
            DrainAction::Remove(_) => s.after_remove(),
            DrainAction::Done => s,
        }
    }
}

/// Each key is read once and removed once, right after it was read, in the order of the
/// keys; then nothing is left to do and every key has its answer.
pub proof fn law_drain_reads_then_removes<T>(
    keys: Seq<u32>,
    answers: spec_fn(int) -> Option<T>,
    k: nat,
)
    requires
        k <= keys.len(),
    ensures
        drain_after(keys, answers, 2 * k).reads == Seq::new(k, |i: int| (keys[i], answers(i))),
        k < keys.len() ==> {
            &&& drain_after(keys, answers, 2 * k).next() == DrainAction::Read(keys[k as int])
            &&& drain_after(keys, answers, 2 * k + 1).next() == DrainAction::Remove(keys[k as int])
        },
        k == keys.len() ==> drain_after(keys, answers, 2 * k).next() == DrainAction::Done,
{
    lemma_drain_state(keys, answers, k);
}

proof fn lemma_drain_state<T>(keys: Seq<u32>, answers: spec_fn(int) -> Option<T>, k: nat)
    requires
        k <= keys.len(),
    ensures
        drain_after(keys, answers, 2 * k) == (DrainState {
            keys,
            reads: Seq::new(k, |i: int| (keys[i], answers(i))),
            removing: false,
        }),
        k < keys.len() ==> drain_after(keys, answers, 2 * k + 1) == (DrainState {
            keys,
            reads: Seq::new(k + 1, |i: int| (keys[i], answers(i))),
            removing: true,
        }),
    decreases k,
{
    if k > 0 {
        lemma_drain_state(keys, answers, (k - 1) as nat);
        let s = drain_after(keys, answers, (2 * k - 1) as nat);
        assert(2 * ((k - 1) as nat) + 1 == 2 * k - 1);
        assert(s.next() is Remove);
        assert(drain_after(keys, answers, 2 * k) == s.after_remove());
    }
    assert(drain_after(keys, answers, 2 * k) =~= (DrainState {
        keys,
        reads: Seq::new(k, |i: int| (keys[i], answers(i))),
        removing: false,
    }));
    if k < keys.len() {
        let s = drain_after(keys, answers, 2 * k);
        assert(drain_after(keys, answers, 2 * k + 1) == s.after_read(answers(k as int)));
        assert(s.after_read(answers(k as int)).reads =~= Seq::new(
            k + 1,
            |i: int| (keys[i], answers(i)),
        ));
    }
}

/// The keys of a table were all read: each stands in the list, and nothing else does.
pub open spec fn lists_keys<T>(keys: Seq<Option<u32>>, table: Map<u32, T>) -> bool {
    &&& forall|i: int| 0 <= i < keys.len() ==> #[trigger] keys[i] is Some
    &&& forall|k: u32| #[trigger] table.contains_key(k) <==> keys.contains(Some(k))
}

/// The emptying of a table and what is left of the table after so many actions, where
/// every read and every removal succeeds and nobody else writes to the table.
pub open spec fn table_after<T>(table: Map<u32, T>, keys: Seq<u32>, steps: nat) -> (
    DrainState<T>,
    Map<u32, T>,
)
    decreases steps,
{
    if steps == 0 {
        (DrainState::fresh(keys), table)
    } else {
        let (s, rest) = table_after(table, keys, (steps - 1) as nat);
        match s.next() {
            DrainAction::Read(k) => (
                s.after_read(
                    if rest.contains_key(k) {
                        Some(rest[k])
                    } else {
                        None
                    },
                ),
                rest,
            ),
            DrainAction::Remove(k) => (s.after_remove(), rest.remove(k)),
            DrainAction::Done => (s, rest),
        }
    }
}

/// The emptying of a table that nobody disturbs gives the whole table and leaves nothing
/// in it, so that emptying it again gives nothing.
pub proof fn law_drained_table_is_collected<T>(
    table: Map<u32, T>,
    keys: Seq<Option<u32>>,
    again: Seq<Option<u32>>,
)
    requires
        lists_keys(keys, table),
        lists_keys(again, Map::<u32, T>::empty()),
    ensures
        ({
            let (s, rest) = table_after(table, readable(keys), 2 * keys.len());
            let (second, left) = table_after(rest, readable(again), 2 * again.len());
            &&& s.next() == DrainAction::Done
            &&& collected_plain(s.reads) == table
            &&& rest == Map::<u32, T>::empty()
            &&& second.next() == DrainAction::Done
            &&& collected_plain(second.reads) == Map::<u32, T>::empty()
            &&& left == Map::<u32, T>::empty()
        }),
{
    lemma_all_drained(table, keys);
    lemma_all_drained(Map::<u32, T>::empty(), again);
}

/// The emptying of a table of task records that nobody disturbs gives, for exactly the keys
/// of the table, what each record holds with the task's name and control group; it leaves
/// nothing in the table, so that emptying it again gives nothing.
pub proof fn law_drained_tasks_are_collected<T: WithComm>(
    table: Map<u32, T>,
    keys: Seq<Option<u32>>,
    again: Seq<Option<u32>>,
)
    requires
        lists_keys(keys, table),
        lists_keys(again, Map::<u32, T>::empty()),
    ensures
        ({
            let (s, rest) = table_after(table, readable(keys), 2 * keys.len());
            let (second, left) = table_after(rest, readable(again), 2 * again.len());
            &&& s.next() == DrainAction::Done
            &&& collected(s.reads).dom() == table.dom()
            &&& forall|k: u32| #[trigger]
                table.contains_key(k) ==> collected(s.reads)[k] == (
                    table[k].data(),
                    comm_text(table[k].comm()),
                    table[k].cgroup(),
                )
            &&& rest == Map::<u32, T>::empty()
            &&& second.next() == DrainAction::Done
            &&& collected(second.reads) == Map::<u32, (T::Data, Seq<char>, u64)>::empty()
            &&& left == Map::<u32, T>::empty()
        }),
{
    law_drained_table_is_collected(table, keys, again);
    let (s, rest) = table_after(table, readable(keys), 2 * keys.len());
    let (second, left) = table_after(rest, readable(again), 2 * again.len());
    assert(collected(s.reads).dom() =~= table.dom());
    assert(collected(second.reads) =~= Map::<u32, (T::Data, Seq<char>, u64)>::empty());
}

/// Keys that were all read are all kept.
proof fn lemma_all_readable(keys: Seq<Option<u32>>)
    requires
        forall|i: int| 0 <= i < keys.len() ==> #[trigger] keys[i] is Some,
    ensures
        readable(keys) == Seq::new(keys.len(), |i: int| keys[i]->0),
    decreases keys.len(),
{
    if keys.len() > 0 {
        let init = keys.drop_last();
        assert forall|i: int| 0 <= i < init.len() implies #[trigger] init[i] is Some by {
            assert(keys[i] is Some);
        }
        lemma_all_readable(init);
        assert(keys.last() is Some);
    }
    assert(readable(keys) =~= Seq::new(keys.len(), |i: int| keys[i]->0));
}

proof fn lemma_all_drained<T>(table: Map<u32, T>, keys: Seq<Option<u32>>)
    requires
        lists_keys(keys, table),
    ensures
        ({
            let (s, rest) = table_after(table, readable(keys), 2 * keys.len());
            &&& s.next() == DrainAction::Done
            &&& collected_plain(s.reads) == table
            &&& rest == Map::<u32, T>::empty()
        }),
{
    let n = keys.len();
    let list = readable(keys);
    lemma_all_readable(keys);
    lemma_table_after(table, list, n);
    let (s, rest) = table_after(table, list, 2 * n);
    assert(list.take(n as int) =~= list);
    assert forall|k: u32| table.contains_key(k) implies list.contains(k) by {
        let i = choose|i: int| 0 <= i < keys.len() && keys[i] == Some(k);
        assert(list[i] == k);
    }
    assert(collected_plain(s.reads) =~= table);
    assert(rest =~= Map::<u32, T>::empty());
}

/// After so many keys were read and removed, what was collected and what is left of the
/// table make up the table.
proof fn lemma_table_after<T>(table: Map<u32, T>, keys: Seq<u32>, n: nat)
    requires
        n <= keys.len(),
    ensures
        ({
            let (s, rest) = table_after(table, keys, 2 * n);
            &&& s.keys == keys
            &&& s.reads.len() == n
            &&& !s.removing
            &&& forall|k: u32| #[trigger]
                rest.contains_key(k) <==> table.contains_key(k) && !keys.take(n as int).contains(k)
            &&& forall|k: u32| #[trigger] rest.contains_key(k) ==> rest[k] == table[k]
            &&& forall|k: u32| #[trigger]
                collected_plain(s.reads).contains_key(k) <==> table.contains_key(k) && keys.take(
                    n as int,
                ).contains(k)
            &&& forall|k: u32| #[trigger]
                collected_plain(s.reads).contains_key(k) ==> collected_plain(s.reads)[k] == table[k]
        }),
    decreases n,
{
    if n > 0 {
        let m = (n - 1) as nat;
        lemma_table_after(table, keys, m);
        let key = keys[m as int];
        let (s0, rest0) = table_after(table, keys, 2 * m);
        let (s1, rest1) = table_after(table, keys, 2 * m + 1);
        let (s2, rest2) = table_after(table, keys, 2 * n);
        assert(s0.next() == DrainAction::Read(key));
        assert(s1.next() == DrainAction::Remove(key));
        assert(2 * m + 1 == 2 * n - 1);
        assert(s2 == s1.after_remove() && rest2 == rest0.remove(key));
        assert(s2.reads.drop_last() =~= s0.reads);
        let c0 = collected_plain(s0.reads);
        let c2 = collected_plain(s2.reads);
        assert(s2.reads.last().0 == key);
        assert(c2 == (if rest0.contains_key(key) {
            c0.insert(key, rest0[key])
        } else {
            c0
        }));
        assert forall|k: u32| keys.take(n as int).contains(k) <==> keys.take(m as int).contains(k)
            || k == key by {
            lemma_taken_grows(keys, m as int, k);
        }
        assert forall|k: u32| #[trigger]
            rest2.contains_key(k) <==> table.contains_key(k) && !keys.take(n as int).contains(k) by {
            assert(rest2.contains_key(k) <==> rest0.contains_key(k) && k != key);
        }
        assert forall|k: u32| #[trigger] rest2.contains_key(k) implies rest2[k] == table[k] by {
            assert(rest0.contains_key(k));
        }
        assert forall|k: u32| #[trigger]
            c2.contains_key(k) <==> table.contains_key(k) && keys.take(n as int).contains(k) by {
            assert(c2.contains_key(k) <==> c0.contains_key(k) || (k == key && rest0.contains_key(
                key,
            )));
        }
        assert forall|k: u32| #[trigger] c2.contains_key(k) implies c2[k] == table[k] by {
            if k != key || !rest0.contains_key(key) {
                assert(c0.contains_key(k));
            }
        }
    } else {
        assert(keys.take(0) =~= Seq::empty());
    }
}

proof fn lemma_taken_grows(keys: Seq<u32>, m: int, k: u32)
    requires
        0 <= m < keys.len(),
    ensures
        keys.take(m + 1).contains(k) <==> keys.take(m).contains(k) || k == keys[m],
{
    let grown = keys.take(m + 1);
    if keys.take(m).contains(k) {
        let i = choose|i: int| 0 <= i < m && keys.take(m)[i] == k;
        assert(grown[i] == k);
    }
    assert(grown[m] == keys[m]);
    if grown.contains(k) {
        let i = choose|i: int| 0 <= i < m + 1 && grown[i] == k;
        if i < m {
            assert(keys.take(m)[i] == k);
        }
    }
}

/// The last read of a key that gave a record decides what stands for the key.
pub proof fn law_last_read_wins<T>(reads: Seq<(u32, Option<T>)>, i: int)
    requires
        0 <= i < reads.len(),
        reads[i].1 is Some,
        forall|j: int|
            i < j < reads.len() && (#[trigger] reads[j]).0 == reads[i].0 ==> reads[j].1 is None,
    ensures
        collected_plain(reads).contains_key(reads[i].0),
        collected_plain(reads)[reads[i].0] == reads[i].1->0,
    decreases reads.len(),
{
    let last = reads.len() - 1;
    if i < last {
        let init = reads.drop_last();
        assert forall|j: int| i < j < init.len() && (#[trigger] init[j]).0
            == init[i].0 implies init[j].1 is None by {
            assert(init[j] == reads[j]);
        }
        law_last_read_wins(init, i);
        assert(reads.last() == reads[last]);
    }
}

/// A key of which no read gave a record has no place in the result.
pub proof fn law_unread_keys_are_absent<T>(reads: Seq<(u32, Option<T>)>, key: u32)
    requires
        forall|i: int|
            0 <= i < reads.len() && (#[trigger] reads[i]).0 == key ==> reads[i].1 is None,
    ensures
        !collected_plain(reads).contains_key(key),
    decreases reads.len(),
{
    if reads.len() > 0 {
        let init = reads.drop_last();
        assert forall|i: int| 0 <= i < init.len() && (#[trigger] init[i]).0
            == key implies init[i].1 is None by {
            assert(init[i] == reads[i]);
        }
        law_unread_keys_are_absent(init, key);
        assert(reads.last() == reads[reads.len() - 1]);
    }
}

/// The bytes behind a zero never matter.
pub proof fn law_bytes_behind_zero_do_not_matter(
    a: [u8; TASK_COMM_LEN],
    b: [u8; TASK_COMM_LEN],
    k: int,
)
    requires
        0 <= k < TASK_COMM_LEN,
        a@[k] == 0,
        forall|i: int| 0 <= i <= k ==> #[trigger] a@[i] == b@[i],
    ensures
        comm_text(a) == comm_text(b),
{
    lemma_before_zero_agrees(a@, b@, k);
}

proof fn lemma_before_zero_agrees(a: Seq<u8>, b: Seq<u8>, k: int)
    requires
        0 <= k < a.len(),
        k < b.len(),
        a[k] == 0,
        forall|i: int| 0 <= i <= k ==> #[trigger] a[i] == b[i],
    ensures
        before_zero(a) == before_zero(b),
    decreases k,
{
    assert(a[0] == b[0]);
    if k > 0 {
        assert forall|i: int| 0 <= i <= k - 1 implies #[trigger] a.drop_first()[i]
            == b.drop_first()[i] by {
            assert(a[i + 1] == b[i + 1]);
        }
        lemma_before_zero_agrees(a.drop_first(), b.drop_first(), k - 1);
    }
}

/// A command name that fills its field with plain characters, or is padded with zeros,
/// is read as it was written, as long as it neither starts nor ends with white space.
pub proof fn law_plain_name_is_kept(name: Seq<char>, comm: [u8; TASK_COMM_LEN])
    requires
        name.len() <= TASK_COMM_LEN,
        vstd::utf8::is_ascii_chars(name),
        forall|i: int| 0 <= i < name.len() ==> #[trigger] name[i] as u32 != 0,
        name.len() > 0 ==> !is_white_space(name[0]) && !is_white_space(name.last()),
        forall|i: int| 0 <= i < name.len() ==> #[trigger] comm@[i] == name[i] as u8,
        name.len() < TASK_COMM_LEN ==> comm@[name.len() as int] == 0,
    ensures
        comm_text(comm) == name,
{
    let bytes = Seq::new(name.len(), |i: int| name[i] as u8);
    vstd::utf8::is_ascii_chars_encode_utf8(name);
    assert(vstd::utf8::encode_utf8(name) =~= bytes);
    vstd::utf8::encode_utf8_valid_utf8(name);
    vstd::utf8::encode_utf8_decode_utf8(name);
    lemma_before_zero(comm@, name.len());
    assert(before_zero(comm@) =~= bytes);
}

proof fn lemma_before_zero(bytes: Seq<u8>, n: nat)
    requires
        n <= bytes.len(),
        forall|i: int| 0 <= i < n ==> #[trigger] bytes[i] != 0,
        n < bytes.len() ==> bytes[n as int] == 0,
    ensures
        before_zero(bytes) == bytes.take(n as int),
    decreases n,
{
    if n > 0 {
        lemma_before_zero(bytes.drop_first(), (n - 1) as nat);
    }
    assert(before_zero(bytes) =~= bytes.take(n as int));
}

/// The bytes before the first zero: they start the bytes, hold no zero, and end at the end of
/// the bytes or before a zero.
pub proof fn law_bytes_before_zero(bytes: Seq<u8>)
    ensures
        before_zero(bytes).len() <= bytes.len(),
        forall|i: int|
            0 <= i < before_zero(bytes).len() ==> #[trigger] before_zero(bytes)[i] == bytes[i],
        forall|i: int| 0 <= i < before_zero(bytes).len() ==> #[trigger] bytes[i] != 0,
        before_zero(bytes).len() < bytes.len() ==> bytes[before_zero(bytes).len() as int] == 0,
    decreases bytes.len(),
{
    if bytes.len() > 0 && bytes[0] != 0 {
        let tail = bytes.drop_first();
        let kept = before_zero(bytes);
        law_bytes_before_zero(tail);
        assert(kept =~= seq![bytes[0]] + before_zero(tail));
        assert forall|i: int| 0 <= i < kept.len() implies #[trigger] kept[i] == bytes[i] by {
            if i > 0 {
                assert(before_zero(tail)[i - 1] == tail[i - 1]);
            }
        }
        assert forall|i: int| 0 <= i < kept.len() implies #[trigger] bytes[i] != 0 by {
            if i > 0 {
                assert(tail[i - 1] != 0);
            }
        }
    }
}

/// A command name is the text of its bytes before the first zero, without the white space
/// around it: decoded where they are UTF-8, repaired where they are not.
pub proof fn law_name_is_the_text_before_zero(comm: [u8; TASK_COMM_LEN], n: int)
    requires
        0 <= n <= TASK_COMM_LEN,
        forall|i: int| 0 <= i < n ==> #[trigger] comm@[i] != 0,
        n < TASK_COMM_LEN ==> comm@[n] == 0,
    ensures
        valid_utf8(comm@.take(n)) ==> comm_text(comm) == trimmed(decode_utf8(comm@.take(n))),
        !valid_utf8(comm@.take(n)) ==> comm_text(comm) == trimmed(repaired_utf8(comm@.take(n))),
{
    lemma_before_zero(comm@, n as nat);
}

/// The keys of a table are those that could be read, in their order.
pub proof fn law_readable_keys(a: Seq<Option<u32>>, b: Seq<Option<u32>>, key: u32)
    ensures
        readable(Seq::empty()) == Seq::<u32>::empty(),
        readable(seq![Some(key)]) == seq![key],
        readable(seq![None]) == Seq::<u32>::empty(),
        readable(a + b) == readable(a) + readable(b),
    decreases b.len(),
{
    reveal_with_fuel(readable, 2);
    assert(seq![Some(key)].drop_last() =~= Seq::<Option<u32>>::empty());
    assert(seq![None::<u32>].drop_last() =~= Seq::<Option<u32>>::empty());
    assert(readable(seq![Some(key)]) =~= seq![key]);
    if b.len() == 0 {
        assert(a + b =~= a);
        assert(readable(a) + readable(b) =~= readable(a));
    } else {
        law_readable_keys(a, b.drop_last(), key);
        assert((a + b).drop_last() =~= a + b.drop_last());
        assert((a + b).last() == b.last());
        assert(readable(a + b) =~= readable(a) + readable(b));
    }
}

/// The position holds the last record that was read of its key.
pub open spec fn is_last_read<T>(reads: Seq<(u32, Option<T>)>, i: int) -> bool {
    &&& 0 <= i < reads.len()
    &&& reads[i].1 is Some
    &&& forall|j: int|
        i < j < reads.len() && (#[trigger] reads[j]).0 == reads[i].0 ==> reads[j].1 is None
}

/// Only keys of which a record was read are collected.
pub proof fn law_collected_keys_were_read<T>(reads: Seq<(u32, Option<T>)>, key: u32)
    requires
        collected_plain(reads).contains_key(key),
    ensures
        exists|i: int| #[trigger] is_last_read(reads, i) && reads[i].0 == key,
    decreases reads.len(),
{
    let init = reads.drop_last();
    let last = reads.len() - 1;
    if reads.last().0 == key && reads.last().1 is Some {
        assert(is_last_read(reads, last));
    } else {
        law_collected_keys_were_read(init, key);
        let i = choose|i: int| #[trigger] is_last_read(init, i) && init[i].0 == key;
        assert forall|j: int| i < j < reads.len() && (#[trigger] reads[j]).0
            == reads[i].0 implies reads[j].1 is None by {
            if j < last {
                assert(init[j] == reads[j]);
            }
        }
        assert(is_last_read(reads, i));
    }
}

/// What a map of task records with its names as texts says of the map itself.
pub proof fn law_texts_of_a_map<D>(m: Map<u32, (D, String, u64)>, key: u32)
    ensures
        with_text(m).contains_key(key) <==> m.contains_key(key),
        m.contains_key(key) ==> with_text(m)[key] == (m[key].0, m[key].1@, m[key].2),
{
}

/// What is collected of a task's scheduling delays and sleep times is what its last record holds, with the
/// record's name and control group.
pub proof fn law_collected_hist_data(
    reads: Seq<(u32, Option<HistData>)>,
    results: Map<u32, (Hist, String, u64)>,
    i: int,
)
    requires
        with_text(results) == collected(reads),
        is_last_read(reads, i),
    ensures
        ({
            let r = reads[i].1->0;
            &&& results.contains_key(reads[i].0)
            &&& results[reads[i].0].0 == r.hist
            &&& results[reads[i].0].1@ == comm_text(r.comm)
            &&& results[reads[i].0].2 == r.cgroup_id
        }),
{
    law_last_read_wins(reads, i);
    law_texts_of_a_map(results, reads[i].0);
    assert(collected(reads).contains_key(reads[i].0));
}

/// What is collected of a task's time slices is what its last record holds, with the
/// record's name and control group.
pub proof fn law_collected_timeslices(
    reads: Seq<(u32, Option<TimesliceData>)>,
    results: Map<u32, (TimesliceStats, String, u64)>,
    i: int,
)
    requires
        with_text(results) == collected(reads),
        is_last_read(reads, i),
    ensures
        ({
            let r = reads[i].1->0;
            &&& results.contains_key(reads[i].0)
            &&& results[reads[i].0].0 == r.stats
            &&& results[reads[i].0].1@ == comm_text(r.comm)
            &&& results[reads[i].0].2 == r.cgroup_id
        }),
{
    law_last_read_wins(reads, i);
    law_texts_of_a_map(results, reads[i].0);
    assert(collected(reads).contains_key(reads[i].0));
}

/// What is collected of a task's run queue lengths is what its last record holds, with the
/// record's name and control group.
pub proof fn law_collected_run_queues(
    reads: Seq<(u32, Option<NrRunningData>)>,
    results: Map<u32, (Hist, String, u64)>,
    i: int,
)
    requires
        with_text(results) == collected(reads),
        is_last_read(reads, i),
    ensures
        ({
            let r = reads[i].1->0;
            &&& results.contains_key(reads[i].0)
            &&& results[reads[i].0].0 == r.hist
            &&& results[reads[i].0].1@ == comm_text(r.comm)
            &&& results[reads[i].0].2 == r.cgroup_id
        }),
{
    law_last_read_wins(reads, i);
    law_texts_of_a_map(results, reads[i].0);
    assert(collected(reads).contains_key(reads[i].0));
}

/// What is collected of a task's waking delays is what its last record holds, with the
/// record's name and control group.
pub proof fn law_collected_wakings(
    reads: Seq<(u32, Option<WakingData>)>,
    results: Map<u32, (Hist, String, u64)>,
    i: int,
)
    requires
        with_text(results) == collected(reads),
        is_last_read(reads, i),
    ensures
        ({
            let r = reads[i].1->0;
            &&& results.contains_key(reads[i].0)
            &&& results[reads[i].0].0 == r.hist
            &&& results[reads[i].0].1@ == comm_text(r.comm)
            &&& results[reads[i].0].2 == r.cgroup_id
        }),
{
    law_last_read_wins(reads, i);
    law_texts_of_a_map(results, reads[i].0);
    assert(collected(reads).contains_key(reads[i].0));
}

/// What is collected of a task's cycles and instructions is what its last record holds, with the
/// record's name and control group.
pub proof fn law_collected_cpu_perf(
    reads: Seq<(u32, Option<CpuPerfDataFull>)>,
    results: Map<u32, (CpuPerfData, String, u64)>,
    i: int,
)
    requires
        with_text(results) == collected(reads),
        is_last_read(reads, i),
    ensures
        ({
            let r = reads[i].1->0;
            &&& results.contains_key(reads[i].0)
            &&& results[reads[i].0].0 == r.data
            &&& results[reads[i].0].1@ == comm_text(r.comm)
            &&& results[reads[i].0].2 == r.cgroup_id
        }),
{
    law_last_read_wins(reads, i);
    law_texts_of_a_map(results, reads[i].0);
    assert(collected(reads).contains_key(reads[i].0));
}

/// What is collected of a task's selected events is what its last record holds, with the
/// record's name and control group.
pub proof fn law_collected_generic_perf(
    reads: Seq<(u32, Option<GenericPerfData>)>,
    results: Map<u32, ([u64; MAX_GENERIC_EVENTS], String, u64)>,
    i: int,
)
    requires
        with_text(results) == collected(reads),
        is_last_read(reads, i),
    ensures
        ({
            let r = reads[i].1->0;
            &&& results.contains_key(reads[i].0)
            &&& results[reads[i].0].0 == r.counters
            &&& results[reads[i].0].1@ == comm_text(r.comm)
            &&& results[reads[i].0].2 == r.cgroup_id
        }),
{
    law_last_read_wins(reads, i);
    law_texts_of_a_map(results, reads[i].0);
    assert(collected(reads).contains_key(reads[i].0));
}

/// What is collected of a task's migrations is what its last record holds, with the
/// record's name and control group.
pub proof fn law_collected_migrations(
    reads: Seq<(u32, Option<MigrationData>)>,
    results: Map<u32, (MigrationCounts, String, u64)>,
    i: int,
)
    requires
        with_text(results) == collected(reads),
        is_last_read(reads, i),
    ensures
        ({
            let r = reads[i].1->0;
            &&& results.contains_key(reads[i].0)
            &&& results[reads[i].0].0.total == r.count
            &&& results[reads[i].0].0.cross_ccx == r.cross_ccx_count
            &&& results[reads[i].0].0.cross_numa == r.cross_numa_count
            &&& results[reads[i].0].1@ == comm_text(r.comm)
            &&& results[reads[i].0].2 == r.cgroup_id
        }),
{
    law_last_read_wins(reads, i);
    law_texts_of_a_map(results, reads[i].0);
    assert(collected(reads).contains_key(reads[i].0));
}

/// A key is collected only where a record was read of it.
pub proof fn law_collected_tasks_were_read<T: WithComm>(
    reads: Seq<(u32, Option<T>)>,
    results: Map<u32, (T::Data, String, u64)>,
    key: u32,
)
    requires
        with_text(results) == collected(reads),
        results.contains_key(key),
    ensures
        exists|i: int| #[trigger] is_last_read(reads, i) && reads[i].0 == key,
{
    law_texts_of_a_map(results, key);
    law_collected_keys_were_read(reads, key);
}

} // verus!
