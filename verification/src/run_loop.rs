//! When to sleep, when to collect, when to show, and when to stop.
use crate::text::{decimal, decimal_text};
use vstd::prelude::*;

verus! {

/// Nanoseconds of a second.
pub const NANOS_PER_SEC: u128 = 1_000_000_000;

/// Nanoseconds of a millisecond.
pub const NANOS_PER_MILLI: u128 = 1_000_000;

/// Where in its round a run stands: each round looks at the clock before it sleeps, again
/// to find out how long to sleep, and once more after it slept.
#[derive(PartialEq, Eq, Structural, Clone, Copy)]
pub enum Stage {
    BeforeSleep,
    FallingAsleep,
    AfterSleep,
}

/// What is to be done next. After each of these but the last two the clock is read again.
#[derive(PartialEq, Eq, Structural, Clone, Copy)]
pub enum LoopAction {
    /// Nothing but to read the clock.
    ReadClock,
    /// Sleep for so many nanoseconds.
    Sleep(u128),
    /// Collect what is due every tick, and the rest too where a display is due.
    Collect { show: bool },
    /// End the run.
    End,
    /// End the run and say that its time is used up.
    EndAtLimit,
}

/// The course of a run.
pub struct RunLoop {
    /// Seconds between two displays.
    interval: u64,
    /// Seconds after which the run ends, where it has an end.
    run_time: Option<u64>,
    /// Whether data is collected every second.
    per_second: bool,
    /// Ticks since the last display.
    ticks_since_display: u64,
    stage: Stage,
}

/// The course of a run as numbers.
pub struct RunState {
    pub interval: nat,
    pub run_time: Option<nat>,
    pub per_second: bool,
    pub ticks: nat,
    pub stage: Stage,
}

impl RunState {
    /// A run before its first tick. Some metrics have to be collected every second.
    pub open spec fn fresh(
        interval: nat,
        run_time: Option<nat>,
        migration: bool,
        generic_events: bool,
    ) -> RunState {
        RunState {
            interval,
            run_time,
            per_second: migration || generic_events,
            ticks: 0,
            stage: Stage::BeforeSleep,
        }
    }

    /// The count of ticks stays below the interval: it never runs over.
    pub open spec fn valid(self) -> bool {
        self.ticks == 0 || self.ticks < self.interval
    }

    /// The length of a tick in nanoseconds.
    pub open spec fn tick_nanos(self) -> nat {
        if self.per_second {
            NANOS_PER_SEC as nat
        } else {
            self.interval * NANOS_PER_SEC as nat
        }
    }

    /// Whether the run is over after so many nanoseconds.
    pub open spec fn over(self, elapsed: nat) -> bool {
        match self.run_time {
            Some(secs) => elapsed >= secs * NANOS_PER_SEC as nat,
            None => false,
        }
    }

    /// How long to sleep after so many nanoseconds: a tick, or what is left of the run.
    pub open spec fn sleep_nanos(self, elapsed: nat) -> nat {
        match self.run_time {
            Some(secs) => {
                let limit = secs * NANOS_PER_SEC as nat;
                let remaining = if elapsed < limit {
                    (limit - elapsed) as nat
                } else {
                    0
                };
                if remaining < self.tick_nanos() {
                    remaining
                } else {
                    self.tick_nanos()
                }
            },
            None => self.tick_nanos(),
        }
    }

    /// Whether the next tick ends with a display.
    pub open spec fn shows_next(self) -> bool {
        !self.per_second || self.ticks + 1 >= self.interval
    }

    /// After one more tick.
    pub open spec fn after_tick(self) -> RunState {
        RunState {
            ticks: if self.shows_next() {
                0
            } else {
                self.ticks + 1
            },
            ..self
        }
    }

    /// The action and the state after the clock was read.
    pub open spec fn advanced(self, elapsed: nat) -> (LoopAction, RunState) {
        match self.stage {
            Stage::BeforeSleep => if self.over(elapsed) {
                (LoopAction::EndAtLimit, self)
            } else {
                (LoopAction::ReadClock, RunState { stage: Stage::FallingAsleep, ..self })
            },
            Stage::FallingAsleep => if self.sleep_nanos(elapsed) >= NANOS_PER_MILLI {
                (
                    LoopAction::Sleep(self.sleep_nanos(elapsed) as u128),
                    RunState { stage: Stage::AfterSleep, ..self },
                )
            } else {
                (LoopAction::End, self)
            },
            Stage::AfterSleep => if self.over(elapsed) {
                (LoopAction::EndAtLimit, self)
            } else {
                (
                    LoopAction::Collect { show: self.shows_next() },
                    RunState { stage: Stage::BeforeSleep, ..self.after_tick() },
                )
            },
        }
    }
}

impl RunLoop {
    pub closed spec fn view(&self) -> RunState {
        RunState {
            interval: self.interval as nat,
            run_time: match self.run_time {
                Some(secs) => Some(secs as nat),
                None => None,
            },
            per_second: self.per_second,
            ticks: self.ticks_since_display as nat,
            stage: self.stage,
        }
    }

    /// A run before its first tick.
    pub fn new(
        interval: u64,
        run_time: Option<u64>,
        migration: bool,
        generic_events: bool,
    ) -> (r: Self)
        ensures
            r@ == RunState::fresh(
                interval as nat,
                match run_time {
                    Some(secs) => Some(secs as nat),
                    None => None,
                },
                migration,
                generic_events,
            ),
            r@.valid(),
    {
        RunLoop {
            interval,
            run_time,
            per_second: migration || generic_events,
            ticks_since_display: 0,
            stage: Stage::BeforeSleep,
        }
    }

    /// The length of a tick in nanoseconds.
    fn tick_nanos(&self) -> (nanos: u128)
        ensures
            nanos == self@.tick_nanos(),
    {
        if self.per_second {
            NANOS_PER_SEC
        } else {
            self.interval as u128 * NANOS_PER_SEC
        }
    }

    /// Whether the run is over after so many nanoseconds.
    fn is_over(&self, elapsed_nanos: u128) -> (over: bool)
        ensures
            over == self@.over(elapsed_nanos as nat),
    {
        match self.run_time {
            Some(secs) => elapsed_nanos >= secs as u128 * NANOS_PER_SEC,
            None => false,
        }
    }

    /// How long to sleep after so many nanoseconds. Less than a millisecond is not slept:
    /// the run ends instead.
    fn sleep_for(&self, elapsed_nanos: u128) -> (nanos: Option<u128>)
        ensures
            nanos == (if self@.sleep_nanos(elapsed_nanos as nat) >= NANOS_PER_MILLI {
                Some(self@.sleep_nanos(elapsed_nanos as nat) as u128)
            } else {
                None
            }),
    {
        let tick = self.tick_nanos();
        let sleep: u128 = match self.run_time {
            Some(secs) => {
                let limit: u128 = secs as u128 * NANOS_PER_SEC;
                let remaining: u128 = if elapsed_nanos < limit {
                    limit - elapsed_nanos
                } else {
                    0
                };
                if remaining < tick {
                    remaining
                } else {
                    tick
                }
            },
            None => tick,
        };
        if sleep >= NANOS_PER_MILLI {
            Some(sleep)
        } else {
            None
        }
    }

    /// Counts a tick, and says whether it ends with a display.
    fn tick(&mut self) -> (show: bool)
        requires
            old(self)@.valid(),
        ensures
            show == old(self)@.shows_next(),
            final(self)@ == old(self)@.after_tick(),
            final(self)@.valid(),
    {
        if !self.per_second {
            self.ticks_since_display = 0;
            return true;
        }
        if self.interval == 0 || self.ticks_since_display >= self.interval - 1 {
            self.ticks_since_display = 0;
            true
        } else {
            self.ticks_since_display = self.ticks_since_display + 1;
            false
        }
    }
}

impl RunLoop {
    /// Takes the time since the start of the run, and says what to do next.
    pub fn advance(&mut self, elapsed_nanos: u128) -> (action: LoopAction)
        requires
            old(self)@.valid(),
        ensures
            (action, final(self)@) == old(self)@.advanced(elapsed_nanos as nat),
            final(self)@.valid(),
    {
        match self.stage {
            Stage::BeforeSleep => {
                if self.is_over(elapsed_nanos) {
                    LoopAction::EndAtLimit
                } else {
                    self.stage = Stage::FallingAsleep;
                    LoopAction::ReadClock
                }
            },
            Stage::FallingAsleep => match self.sleep_for(elapsed_nanos) {
                Some(nanos) => {
                    self.stage = Stage::AfterSleep;
                    LoopAction::Sleep(nanos)
                },
                None => LoopAction::End,
            },
            Stage::AfterSleep => {
                if self.is_over(elapsed_nanos) {
                    LoopAction::EndAtLimit
                } else {
                    let show = self.tick();
                    self.stage = Stage::BeforeSleep;
                    LoopAction::Collect { show }
                }
            },
        }
    }
}

/// What is printed when the run time is used up.
pub fn runtime_message(run_time: u64) -> (text: String)
    ensures
        text@ == "\nRuntime limit reached ("@ + decimal(run_time as nat) + " seconds)"@,
{
    let mut text = "\nRuntime limit reached (".to_owned();
    text.append(decimal_text(run_time).as_str());
    text.append(" seconds)");
    text
}

/// The state after so many ticks.
pub open spec fn after_ticks(s: RunState, n: nat) -> RunState
    decreases n,
{
    if n == 0 {
        s
    } else {
        after_ticks(s, (n - 1) as nat).after_tick()
    }
}

/// Where data is collected every second, every `interval`th tick ends with a display and
/// no other does; else every tick does.
pub proof fn law_display_cadence(s: RunState, n: nat)
    requires
        s.ticks == 0,
    ensures
        after_ticks(s, n).valid(),
        s.per_second && s.interval > 0 ==> (after_ticks(s, n).shows_next() <==> (n + 1)
            % s.interval == 0),
        !s.per_second || s.interval == 0 ==> after_ticks(s, n).shows_next(),
{
    lemma_after_ticks(s, n);
    if s.interval > 0 {
        lemma_mod_step(n as int, s.interval as int);
    }
}

/// The remainder of the next number.
proof fn lemma_mod_step(n: int, i: int)
    requires
        n >= 0,
        i > 0,
    ensures
        (n + 1) % i == (if n % i + 1 == i {
            0
        } else {
            n % i + 1
        }),
        0 <= n % i < i,
{
    let q = n / i;
    let r = n % i;
    vstd::arithmetic::div_mod::lemma_fundamental_div_mod(n, i);
    if r + 1 == i {
        assert(n + 1 == (q + 1) * i) by (nonlinear_arith)
            requires
                n == i * q + r,
                r + 1 == i,
        ;
        vstd::arithmetic::div_mod::lemma_mod_multiples_basic(q + 1, i);
    } else {
        assert(n + 1 == q * i + (r + 1)) by (nonlinear_arith)
            requires
                n == i * q + r,
        ;
        vstd::arithmetic::div_mod::lemma_fundamental_div_mod_converse(n + 1, i, q, r + 1);
    }
}

proof fn lemma_after_ticks(s: RunState, n: nat)
    requires
        s.ticks == 0,
    ensures
        after_ticks(s, n) == (RunState {
            ticks: if s.per_second && s.interval > 0 {
                n % s.interval
            } else {
                0
            },
            ..s
        }),
        s.interval > 0 ==> n % s.interval < s.interval,
    decreases n,
{
    if n == 0 {
        if s.interval > 0 {
            vstd::arithmetic::div_mod::lemma_small_mod(0, s.interval);
        }
    } else {
        lemma_after_ticks(s, (n - 1) as nat);
        if s.interval > 0 {
            lemma_mod_step(n - 1, s.interval as int);
        }
    }
}

/// A round that is not cut short looks at the clock, sleeps, and collects; the next round
/// starts one tick later.
pub proof fn law_round_course(s: RunState, first: nat, second: nat, third: nat)
    requires
        s.stage == Stage::BeforeSleep,
        !s.over(first),
        s.sleep_nanos(second) >= NANOS_PER_MILLI,
        !s.over(third),
    ensures
        ({
            let (a1, s1) = s.advanced(first);
            let (a2, s2) = s1.advanced(second);
            let (a3, s3) = s2.advanced(third);
            &&& a1 == LoopAction::ReadClock
            &&& a2 == LoopAction::Sleep(s.sleep_nanos(second) as u128)
            &&& a3 == LoopAction::Collect { show: s.shows_next() }
            &&& s3 == s.after_tick()
        }),
{
}

/// A sleep is never longer than a tick and never goes past the end of the run; nothing is
/// slept once the run is over.
pub proof fn law_sleep_keeps_the_limit(s: RunState, elapsed: nat)
    ensures
        s.sleep_nanos(elapsed) <= s.tick_nanos(),
        s.run_time is Some && !s.over(elapsed) ==> elapsed + s.sleep_nanos(elapsed)
            <= s.run_time->0 * NANOS_PER_SEC as nat,
        s.over(elapsed) ==> s.sleep_nanos(elapsed) == 0,
{
}

/// A run before its first tick: it ticks every second exactly where migrations or selected
/// events are collected.
pub proof fn law_start_of_a_run(
    interval: nat,
    run_time: Option<nat>,
    migration: bool,
    generic_events: bool,
)
    ensures
        ({
            let s = RunState::fresh(interval, run_time, migration, generic_events);
            &&& s.interval == interval
            &&& s.run_time == run_time
            &&& s.per_second <==> migration || generic_events
            &&& s.ticks == 0
            &&& s.stage == Stage::BeforeSleep
        }),
{
}

/// A run whose time is used up when the clock is read before or after a sleep ends and says
/// so; no other does.
pub proof fn law_end_of_a_run(s: RunState, elapsed: nat)
    requires
        s.stage != Stage::FallingAsleep,
    ensures
        s.advanced(elapsed).0 is EndAtLimit <==> s.run_time is Some && elapsed >= s.run_time->0
            * 1_000_000_000,
        !(s.advanced(elapsed).0 is End) && !(s.advanced(elapsed).0 is Sleep),
        s.stage == Stage::BeforeSleep && !(s.advanced(elapsed).0 is EndAtLimit) ==> s.advanced(
            elapsed,
        ).0 is ReadClock && s.advanced(elapsed).1 == (RunState { stage: Stage::FallingAsleep, ..s }),
        s.stage == Stage::AfterSleep && !(s.advanced(elapsed).0 is EndAtLimit) ==> s.advanced(
            elapsed,
        ).0 is Collect && s.advanced(elapsed).1.stage == Stage::BeforeSleep,
{
}

/// A run sleeps for a whole tick, or exactly to its end where that comes sooner. It ends
/// instead where that is less than a millisecond.
pub proof fn law_length_of_a_sleep(s: RunState, elapsed: nat)
    requires
        s.stage == Stage::FallingAsleep,
        s.interval <= u64::MAX,
    ensures
        ({
            let tick = if s.per_second {
                1_000_000_000
            } else {
                s.interval * 1_000_000_000
            };
            let (action, next) = s.advanced(elapsed);
            match action {
                LoopAction::Sleep(nanos) => {
                    &&& nanos >= 1_000_000
                    &&& nanos <= tick
                    &&& s.run_time is None ==> nanos == tick
                    &&& s.run_time is Some ==> {
                        &&& elapsed + nanos <= s.run_time->0 * 1_000_000_000
                        &&& nanos == tick || elapsed + nanos == s.run_time->0 * 1_000_000_000
                    }
                    &&& next == (RunState { stage: Stage::AfterSleep, ..s })
                },
                LoopAction::End => tick < 1_000_000 || (s.run_time is Some && s.run_time->0
                    * 1_000_000_000 < elapsed + 1_000_000),
                _ => false,
            }
        }),
{
}

/// The state after so many rounds, where `clock` gives what the clock shows each time it is
/// read, three times in each round.
pub open spec fn after_rounds(s: RunState, clock: spec_fn(nat) -> nat, rounds: nat) -> RunState
    decreases rounds,
{
    if rounds == 0 {
        s
    } else {
        let n = (rounds - 1) as nat;
        after_rounds(s, clock, n).advanced(clock(3 * n)).1.advanced(clock(3 * n + 1)).1.advanced(
            clock(3 * n + 2),
        ).1
    }
}

/// A run that is not at its end collects once in each round. Where data is collected every
/// second, every `interval`th round ends with a display and no other does; else every round
/// does.
pub proof fn law_displays_of_a_run(
    interval: nat,
    run_time: Option<nat>,
    migration: bool,
    generic_events: bool,
    clock: spec_fn(nat) -> nat,
    rounds: nat,
)
    requires
        migration || generic_events || interval > 0,
        forall|k: nat|
            run_time is Some ==> #[trigger] clock(k) + 1_000_000 <= run_time->0 * 1_000_000_000,
    ensures
        ({
            let s = after_rounds(
                RunState::fresh(interval, run_time, migration, generic_events),
                clock,
                rounds,
            );
            let (a1, s1) = s.advanced(clock(3 * rounds));
            let (a2, s2) = s1.advanced(clock(3 * rounds + 1));
            let (a3, s3) = s2.advanced(clock(3 * rounds + 2));
            &&& a1 is ReadClock
            &&& a2 is Sleep
            &&& a3 is Collect
            &&& a3->show <==> !(migration || generic_events) || interval == 0 || (rounds + 1)
                % interval == 0
        }),
{
    let start = RunState::fresh(interval, run_time, migration, generic_events);
    lemma_rounds(interval, run_time, migration, generic_events, clock, rounds);
    law_display_cadence(start, rounds);
    lemma_after_ticks(start, rounds);
    let s = after_ticks(start, rounds);
    assert(!s.over(clock(3 * rounds)));
    assert(!s.over(clock(3 * rounds + 2)));
    assert(s.sleep_nanos(clock(3 * rounds + 1)) >= 1_000_000);
    law_round_course(s, clock(3 * rounds), clock(3 * rounds + 1), clock(3 * rounds + 2));
}

proof fn lemma_rounds(
    interval: nat,
    run_time: Option<nat>,
    migration: bool,
    generic_events: bool,
    clock: spec_fn(nat) -> nat,
    rounds: nat,
)
    requires
        migration || generic_events || interval > 0,
        forall|k: nat|
            run_time is Some ==> #[trigger] clock(k) + 1_000_000 <= run_time->0 * 1_000_000_000,
    ensures
        after_rounds(
            RunState::fresh(interval, run_time, migration, generic_events),
            clock,
            rounds,
        ) == after_ticks(RunState::fresh(interval, run_time, migration, generic_events), rounds),
    decreases rounds,
{
    let start = RunState::fresh(interval, run_time, migration, generic_events);
    if rounds > 0 {
        let n = (rounds - 1) as nat;
        lemma_rounds(interval, run_time, migration, generic_events, clock, n);
        lemma_after_ticks(start, n);
        let s = after_ticks(start, n);
        assert(!s.over(clock(3 * n)));
        assert(!s.over(clock(3 * n + 2)));
        assert(s.sleep_nanos(clock(3 * n + 1)) >= 1_000_000);
        law_round_course(s, clock(3 * n), clock(3 * n + 1), clock(3 * n + 2));
    }
}

} // verus!
