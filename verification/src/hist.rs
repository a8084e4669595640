//! Latency histograms: how a delay is placed in a slot, and how histograms add up.
use vstd::arithmetic::power2::{lemma_pow2_pos, lemma_pow2_unfold, pow2};
use vstd::prelude::*;

verus! {

/// Number of slots of a histogram.
pub const MAX_SLOTS: usize = 64;

/// Delays below this many microseconds fall in slots of equal width.
pub const LINEAR_THRESHOLD: u64 = 500;

/// Width of a linear slot, in microseconds.
pub const LINEAR_STEP: u64 = 10;

/// Number of linear slots.
pub const LINEAR_SLOTS: u32 = 50;

/// The largest `r` with `2^r <= v`; zero for zero.
pub open spec fn floor_log2(v: nat) -> nat
    decreases v,
{
    if v <= 1 {
        0
    } else {
        1 + floor_log2(v / 2)
    }
}

/// The sum of the counts of a sequence of slots.
pub open spec fn slot_sum(slots: Seq<u32>) -> nat
    decreases slots.len(),
{
    if slots.len() == 0 {
        0
    } else {
        slot_sum(slots.drop_last()) + slots.last() as nat
    }
}

/// The slot of a delay of `us` whole microseconds: linear below the threshold, one
/// slot up to 512, then one slot for each power of two, the last slot taking the rest.
pub open spec fn slot_of_micros(us: nat) -> nat {
    if us < LINEAR_THRESHOLD {
        us / LINEAR_STEP as nat
    } else if us < 512 {
        LINEAR_SLOTS as nat
    } else {
        let slot = (LINEAR_SLOTS + floor_log2(us) - 8) as nat;
        if slot < MAX_SLOTS {
            slot
        } else {
            (MAX_SLOTS - 1) as nat
        }
    }
}

/// A histogram of counts.
#[derive(Copy, Clone)]
pub struct Hist {
    pub slots: [u32; MAX_SLOTS],
}

impl Hist {
    /// The counts as a sequence.
    pub open spec fn view(&self) -> Seq<u32> {
        self.slots@
    }

    /// The number of samples in the histogram.
    pub open spec fn total(&self) -> nat {
        slot_sum(self@)
    }

    /// An empty histogram.
    pub fn zero() -> (h: Self)
        ensures
            h@ == Seq::new(MAX_SLOTS as nat, |i: int| 0u32),
    {
        let h = Hist { slots: [0; 64] };
        assert(h@ =~= Seq::new(MAX_SLOTS as nat, |i: int| 0u32));
        h
    }

    /// Adds the counts of `other`, slot by slot.
    pub fn merge_from(&mut self, other: &Self)
        requires
            forall|i: int|
                0 <= i < MAX_SLOTS ==> #[trigger] old(self)@[i] + other@[i] <= u32::MAX,
        ensures
            final(self)@ == Seq::new(
                MAX_SLOTS as nat,
                |i: int| (old(self)@[i] + other@[i]) as u32,
            ),
    {
        let ghost before = self@;
        let mut i: usize = 0;
        while i < MAX_SLOTS
            invariant
                i <= MAX_SLOTS,
                before.len() == MAX_SLOTS,
                self@.len() == MAX_SLOTS,
                forall|j: int| 0 <= j < MAX_SLOTS ==> #[trigger] before[j] + other@[j] <= u32::MAX,
                forall|j: int| 0 <= j < i ==> #[trigger] self@[j] == before[j] + other@[j],
                forall|j: int| i <= j < MAX_SLOTS ==> #[trigger] self@[j] == before[j],
            decreases MAX_SLOTS - i,
        {
            assert(self@[i as int] == before[i as int]);
            self.slots[i] = self.slots[i] + other.slots[i];
            i = i + 1;
        }
        assert(self@ =~= Seq::new(MAX_SLOTS as nat, |j: int| (before[j] + other@[j]) as u32));
    }

    /// The number of samples in the histogram.
    pub fn total_count(&self) -> (sum: u64)
        ensures
            sum as nat == self.total(),
    {
        let mut sum: u64 = 0;
        let mut i: usize = 0;
        while i < MAX_SLOTS
            invariant
                i <= MAX_SLOTS,
                self@.len() == MAX_SLOTS,
                sum as nat == slot_sum(self@.take(i as int)),
                sum <= i * 0xFFFF_FFFFu64,
            decreases MAX_SLOTS - i,
        {
            assert(self@.take(i + 1).drop_last() =~= self@.take(i as int));
            sum = sum + self.slots[i] as u64;
            i = i + 1;
        }
        assert(self@.take(MAX_SLOTS as int) =~= self@);
        sum
    }
}

impl Default for Hist {
    fn default() -> (h: Self)
        ensures
            h@ == Seq::new(MAX_SLOTS as nat, |i: int| 0u32),
    {
        Hist::zero()
    }
}

/// A quotient of one by `2^r` means that the logarithm is `r`.
proof fn lemma_quotient_one(v: nat, r: nat)
    requires
        v / pow2(r) == 1,
    ensures
        floor_log2(v) == r,
    decreases r,
{
    lemma_pow2_pos(r);
    if r == 0 {
        vstd::arithmetic::power2::lemma2_to64();
    } else {
        let h = pow2((r - 1) as nat);
        lemma_pow2_unfold(r);
        lemma_pow2_pos((r - 1) as nat);
        vstd::arithmetic::div_mod::lemma_div_denominator(v as int, 2, h as int);
        lemma_quotient_one(v / 2, (r - 1) as nat);
        assert(v >= 2) by (nonlinear_arith)
            requires
                v / pow2(r) == 1,
                pow2(r) == 2 * h,
                h >= 1,
        ;
    }
}

/// Floor of the base-two logarithm, found bit by bit from the highest: whether the value
/// needs 32 more bits, then 16, 8, 4, 2 and 1. Zero for zero.
pub fn log2_u32(v: u64) -> (r: u32)
    ensures
        r as nat == floor_log2(v as nat),
{
    let ghost v0 = v;
    let mut v: u64 = v;
    let mut r: u32 = if v > 0xFFFF_FFFF { 32 } else { 0 };
    assert((v0 >> r) <= 0xFFFF_FFFF && (r > 0 ==> (v0 >> r) > 0)) by (bit_vector)
        requires
            r == (if v0 > 0xFFFF_FFFF { 32u32 } else { 0u32 }),
    ;
    v = v >> r;
    let mut shift: u32 = if v > 0xFFFF { 16 } else { 0 };
    assert((v >> shift) == v0 >> (r | shift) && (v >> shift) <= 0xFFFF && ((r | shift) > 0 ==> (v
        >> shift) > 0) && (r | shift) & 15 == 0 && (r | shift) < 64) by (bit_vector)
        requires
            v == v0 >> r,
            v <= 0xFFFF_FFFF,
            r > 0 ==> v > 0,
            r == 0 || r == 32,
            shift == (if v > 0xFFFF { 16u32 } else { 0u32 }),
    ;
    v = v >> shift;
    r = r | shift;
    shift = if v > 0xFF { 8 } else { 0 };
    assert((v >> shift) == v0 >> (r | shift) && (v >> shift) <= 0xFF && ((r | shift) > 0 ==> (v
        >> shift) > 0) && (r | shift) & 7 == 0 && (r | shift) < 64) by (bit_vector)
        requires
            v == v0 >> r,
            v <= 0xFFFF,
            r > 0 ==> v > 0,
            r & 15 == 0,
            r < 64,
            shift == (if v > 0xFF { 8u32 } else { 0u32 }),
    ;
    v = v >> shift;
    r = r | shift;
    shift = if v > 0xF { 4 } else { 0 };
    assert((v >> shift) == v0 >> (r | shift) && (v >> shift) <= 0xF && ((r | shift) > 0 ==> (v
        >> shift) > 0) && (r | shift) & 3 == 0 && (r | shift) < 64) by (bit_vector)
        requires
            v == v0 >> r,
            v <= 0xFF,
            r > 0 ==> v > 0,
            r & 7 == 0,
            r < 64,
            shift == (if v > 0xF { 4u32 } else { 0u32 }),
    ;
    v = v >> shift;
    r = r | shift;
    shift = if v > 0x3 { 2 } else { 0 };
    assert((v >> shift) == v0 >> (r | shift) && (v >> shift) <= 0x3 && ((r | shift) > 0 ==> (v
        >> shift) > 0) && (r | shift) & 1 == 0 && (r | shift) < 64) by (bit_vector)
        requires
            v == v0 >> r,
            v <= 0xF,
            r > 0 ==> v > 0,
            r & 3 == 0,
            r < 64,
            shift == (if v > 0x3 { 2u32 } else { 0u32 }),
    ;
    v = v >> shift;
    r = r | shift;
    let last: u32 = (v >> 1) as u32;
    assert((r | last) < 64 && (v0 > 0 ==> v0 >> ((r | last) as u64) == 1) && (v0 == 0 ==> (r | last)
        == 0)) by (bit_vector)
        requires
            v == v0 >> r,
            v <= 3,
            r > 0 ==> v > 0,
            r & 1 == 0,
            r < 64,
            last == (v >> 1) as u32,
    ;
    r = r | last;
    proof {
        if v0 > 0 {
            vstd::bits::lemma_u64_shr_is_div(v0, r as u64);
            lemma_quotient_one(v0 as nat, r as nat);
        }
    }
    r
}

/// Shifting out the low `k` bits takes `k` off the logarithm.
proof fn lemma_log2_of_quotient(v: nat, k: nat)
    requires
        v / pow2(k) >= 1,
    ensures
        floor_log2(v) == k + floor_log2(v / pow2(k)),
    decreases k,
{
    lemma_pow2_pos(k);
    if k == 0 {
        vstd::arithmetic::power2::lemma2_to64();
    } else {
        let h = pow2((k - 1) as nat);
        lemma_pow2_unfold(k);
        lemma_pow2_pos((k - 1) as nat);
        vstd::arithmetic::div_mod::lemma_div_denominator(v as int, 2, h as int);
        lemma_log2_of_quotient(v / 2, (k - 1) as nat);
        assert(v >= 2) by (nonlinear_arith)
            requires
                v / pow2(k) >= 1,
                pow2(k) == 2 * h,
                h >= 1,
        ;
    }
}

/// The logarithm of a 64-bit value is at most 63.
pub proof fn lemma_floor_log2_u64(v: u64)
    ensures
        floor_log2(v as nat) < 64,
        v > 0 ==> pow2(floor_log2(v as nat)) <= v < pow2(floor_log2(v as nat) + 1),
{
    lemma_floor_log2_bounds(v as nat);
    vstd::arithmetic::power2::lemma2_to64_rest();
    if floor_log2(v as nat) >= 64 {
        vstd::arithmetic::power2::lemma2_to64();
        if floor_log2(v as nat) > 64 {
            vstd::arithmetic::power2::lemma_pow2_strictly_increases(64, floor_log2(v as nat));
        }
    }
}

/// The logarithm brackets its argument: `2^r <= v < 2^(r + 1)`.
pub proof fn lemma_floor_log2_bounds(v: nat)
    ensures
        v > 0 ==> pow2(floor_log2(v)) <= v < pow2(floor_log2(v) + 1),
    decreases v,
{
    if v <= 1 {
        vstd::arithmetic::power2::lemma2_to64();
    } else {
        lemma_floor_log2_bounds(v / 2);
        lemma_pow2_unfold(floor_log2(v));
        lemma_pow2_unfold(floor_log2(v) + 1);
    }
}

/// Floor of the base-two logarithm; zero for zero.
pub fn log2_u64(v: u64) -> (r: u32)
    ensures
        r as nat == floor_log2(v as nat),
        r < 64,
{
    let hi: u32 = (v >> 32) as u32;
    proof {
        lemma_floor_log2_u64(v);
        assert((v >> 32) <= 0xFFFF_FFFF) by (bit_vector);
        vstd::bits::lemma_u64_shr_is_div(v, 32);
        if hi != 0 {
            lemma_log2_of_quotient(v as nat, 32);
        }
    }
    if hi != 0 {
        log2_u32(hi as u64) + 32
    } else {
        log2_u32(v)
    }
}

/// The slot of a value on a purely logarithmic scale.
pub fn log2_slot(v: u64) -> (slot: u32)
    ensures
        slot as nat == floor_log2(v as nat),
        slot < MAX_SLOTS,
{
    let slot = log2_u64(v);
    if slot < MAX_SLOTS as u32 {
        slot
    } else {
        MAX_SLOTS as u32 - 1
    }
}

/// The histogram slot of a delay in nanoseconds.
pub fn hist_slot(delay_ns: u64) -> (slot: u32)
    ensures
        slot as nat == slot_of_micros(delay_ns as nat / 1000),
        slot < MAX_SLOTS,
        delay_ns < 500_000 ==> slot == delay_ns / 10_000,
        500_000 <= delay_ns < 512_000 ==> slot == 50,
        512_000 <= delay_ns ==> 50 < slot < 64 && pow2((slot - 42) as nat) * 1000 <= delay_ns,
        512_000 <= delay_ns && slot < 63 ==> delay_ns < pow2((slot - 41) as nat) * 1000,
{
    proof {
        let us = delay_ns as nat / 1000;
        let slot = slot_of_micros(us);
        law_edge_slot_ranges(us);
        if us >= 512 {
            law_log2_is_monotonic(512, us);
            reveal_with_fuel(floor_log2, 10);
            if slot < 63 {
                law_log_slot_range(us, slot);
            }
        }
    }
    let delay_us = delay_ns / 1000;
    if delay_us < LINEAR_THRESHOLD {
        let slot: u32 = (delay_us / LINEAR_STEP) as u32;
        if slot < LINEAR_SLOTS {
            slot
        } else {
            LINEAR_SLOTS - 1
        }
    } else if delay_us < 512 {
        LINEAR_SLOTS
    } else {
        let log2_val = log2_u64(delay_us);
        proof {
            law_log2_is_monotonic(512, delay_us as nat);
            reveal_with_fuel(floor_log2, 10);
        }
        let slot: u32 = LINEAR_SLOTS + (log2_val - 8);
        if slot < MAX_SLOTS as u32 {
            slot
        } else {
            MAX_SLOTS as u32 - 1
        }
    }
}

/// A larger value never has a smaller logarithm.
pub proof fn law_log2_is_monotonic(a: nat, b: nat)
    requires
        a <= b,
    ensures
        floor_log2(a) <= floor_log2(b),
    decreases b,
{
    if a > 1 {
        law_log2_is_monotonic(a / 2, b / 2);
    }
}

/// A longer delay never falls in an earlier slot, and every slot number is valid.
pub proof fn law_hist_slot_is_monotonic(a_ns: u64, b_ns: u64)
    requires
        a_ns <= b_ns,
    ensures
        slot_of_micros(a_ns as nat / 1000) <= slot_of_micros(b_ns as nat / 1000),
        slot_of_micros(b_ns as nat / 1000) < MAX_SLOTS,
{
    let a = a_ns as nat / 1000;
    let b = b_ns as nat / 1000;
    law_log2_is_monotonic(a, b);
    if b >= 512 {
        law_log2_is_monotonic(512, b);
        reveal_with_fuel(floor_log2, 10);
    }
}

/// Which delays a slot of the logarithmic part stands for: slot `50 + k` holds exactly
/// the delays of at least `2^(8 + k)` and less than `2^(9 + k)` microseconds.
pub proof fn law_log_slot_range(us: nat, slot: nat)
    requires
        LINEAR_SLOTS < slot < MAX_SLOTS - 1,
    ensures
        slot_of_micros(us) == slot <==> pow2((slot - 42) as nat) <= us < pow2((slot - 41) as nat),
{
    let r = floor_log2(us);
    let k = (slot - 42) as nat;
    lemma_floor_log2_bounds(us);
    reveal_with_fuel(floor_log2, 10);
    if us < 512 {
        vstd::arithmetic::power2::lemma2_to64();
        if k > 9 {
            vstd::arithmetic::power2::lemma_pow2_strictly_increases(9, k);
        }
    } else {
        law_log2_is_monotonic(512, us);
        if r + 1 < k {
            vstd::arithmetic::power2::lemma_pow2_strictly_increases(r + 1, k);
        } else if k + 1 < r {
            vstd::arithmetic::power2::lemma_pow2_strictly_increases(k + 1, r);
        }
    }
}

/// Which delays a linear slot stands for: slot `s` holds exactly the delays of at least
/// `10 s` and less than `10 s + 10` microseconds.
pub proof fn law_linear_slot_range(us: nat, slot: nat)
    requires
        slot < LINEAR_SLOTS,
    ensures
        slot_of_micros(us) == slot <==> slot * LINEAR_STEP <= us < slot * LINEAR_STEP + LINEAR_STEP,
{
    if us >= 512 {
        law_log2_is_monotonic(512, us);
        reveal_with_fuel(floor_log2, 10);
    }
}

/// Which delays the remaining two slots stand for: slot 50 holds those from 500 to 511
/// microseconds, and the last slot those of at least `2^21` microseconds.
pub proof fn law_edge_slot_ranges(us: nat)
    ensures
        slot_of_micros(us) == LINEAR_SLOTS <==> LINEAR_THRESHOLD <= us < 512,
        slot_of_micros(us) == MAX_SLOTS - 1 <==> us >= pow2(21),
{
    let r = floor_log2(us);
    vstd::arithmetic::power2::lemma2_to64();
    if us >= 512 {
        law_log2_is_monotonic(512, us);
        reveal_with_fuel(floor_log2, 10);
        lemma_floor_log2_bounds(us);
        if r < 20 {
            vstd::arithmetic::power2::lemma_pow2_strictly_increases(r + 1, 21);
        } else if r > 21 {
            vstd::arithmetic::power2::lemma_pow2_strictly_increases(21, r);
        }
    }
}

/// A histogram of zeros holds no sample.
proof fn lemma_zero_sum(n: nat)
    ensures
        slot_sum(Seq::new(n, |i: int| 0u32)) == 0,
    decreases n,
{
    let s = Seq::new(n, |i: int| 0u32);
    if n > 0 {
        lemma_zero_sum((n - 1) as nat);
        assert(s.drop_last() =~= Seq::new((n - 1) as nat, |i: int| 0u32));
    }
}

/// Sums of slot-wise sums.
proof fn lemma_sum_adds(a: Seq<u32>, b: Seq<u32>, m: Seq<u32>)
    requires
        a.len() == b.len(),
        a.len() == m.len(),
        forall|i: int| 0 <= i < a.len() ==> #[trigger] m[i] == a[i] + b[i],
    ensures
        slot_sum(m) == slot_sum(a) + slot_sum(b),
    decreases a.len(),
{
    if a.len() > 0 {
        lemma_sum_adds(a.drop_last(), b.drop_last(), m.drop_last());
    }
}

/// An empty histogram holds no sample.
pub proof fn law_zero_holds_nothing(h: Hist)
    requires
        h@ == Seq::new(MAX_SLOTS as nat, |i: int| 0u32),
    ensures
        h.total() == 0,
{
    lemma_zero_sum(MAX_SLOTS as nat);
}

/// Merging loses and invents no sample: the totals add up.
pub proof fn law_merge_adds_totals(a: Hist, b: Hist, merged: Hist)
    requires
        forall|i: int| 0 <= i < MAX_SLOTS ==> #[trigger] a@[i] + b@[i] <= u32::MAX,
        merged@ == Seq::new(MAX_SLOTS as nat, |i: int| (a@[i] + b@[i]) as u32),
    ensures
        merged.total() == a.total() + b.total(),
{
    lemma_sum_adds(a@, b@, merged@);
}

/// Every sample counts once: changing the count of one slot changes the total by as much.
pub proof fn law_each_slot_counts_once(slots: Seq<u32>, i: int, count: u32)
    requires
        0 <= i < slots.len(),
    ensures
        slot_sum(slots.update(i, count)) + slots[i] == slot_sum(slots) + count,
        slot_sum(Seq::empty()) == 0,
        slot_sum(slots) >= slots[i],
    decreases slots.len(),
{
    let changed = slots.update(i, count);
    if i == slots.len() - 1 {
        assert(changed.drop_last() =~= slots.drop_last());
    } else {
        law_each_slot_counts_once(slots.drop_last(), i, count);
        assert(changed.drop_last() =~= slots.drop_last().update(i, count));
    }
}

/// The logarithm is the number of times that a value can be halved before it is less than
/// two: doubling a value adds one, and so does doubling it and adding one.
pub proof fn law_doubling_adds_one(v: nat)
    ensures
        floor_log2(0) == 0,
        floor_log2(1) == 0,
        v > 0 ==> floor_log2(2 * v) == floor_log2(v) + 1,
        v > 0 ==> floor_log2(2 * v + 1) == floor_log2(v) + 1,
        v > 0 ==> pow2(floor_log2(v)) <= v < pow2(floor_log2(v) + 1),
{
    lemma_floor_log2_bounds(v);
    if v > 0 {
        assert((2 * v) / 2 == v);
        assert((2 * v + 1) / 2 == v);
    }
}

/// The total of a histogram is the sum of its counts.
pub proof fn law_total_is_the_sum(h: Hist)
    ensures
        h@ == h.slots@,
        h.total() == slot_sum(h.slots@),
{
}

} // verus!
