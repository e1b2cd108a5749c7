//! The two capabilities a search state supplies: a starting point for each
//! worker, and a step to the next state.
use vstd::prelude::*;

verus! {

/// Produces the state that worker `thread` of `thread_count` starts from.
pub trait Start: Sized {
    fn start_for_thread(thread: usize, thread_count: usize) -> (r: Self)
        requires
            thread < thread_count,
    ;
}

/// Moves a state to its successor, wrapping around at the end of the space.
pub trait Advance: Sized {
    /// The state that follows this one.
    spec fn succ(self) -> Self;

    fn advance(&mut self)
        ensures
            *final(self) == old(self).succ(),
    ;
}

/// The successor of `v` among the `m` consecutive integers starting at `lo`.
pub open spec fn wrapping_succ(v: int, lo: int, m: int) -> int {
    lo + (v - lo + 1) % m
}

/// The offset at which worker `thread` of `count` starts in a space of the
/// integers `0..=max`: the space is cut into `count` runs of `max / count`.
pub open spec fn partition_start(thread: int, count: int, max: int) -> int {
    if thread > max {
        0
    } else if count > max {
        thread
    } else {
        (max / count) * thread
    }
}

pub(crate) proof fn lemma_partition_fits(t: int, c: int, max: int)
    requires
        0 <= t < c,
        0 <= max,
    ensures
        0 <= (max / c) * t <= max,
{
    assert(0 <= (max / c) * t <= max) by (nonlinear_arith)
        requires
            0 <= t < c,
            0 <= max,
    ;
}

/// `v` after `n` steps of `wrapping_succ`.
pub open spec fn succ_times(v: int, lo: int, m: int, n: nat) -> int
    decreases n,
{
    if n == 0 {
        v
    } else {
        wrapping_succ(succ_times(v, lo, m, (n - 1) as nat), lo, m)
    }
}

proof fn lemma_succ_times(v: int, lo: int, m: int, n: nat)
    requires
        m > 0,
        lo <= v < lo + m,
    ensures
        succ_times(v, lo, m, n) == lo + (v - lo + n) % m,
    decreases n,
{
    if n > 0 {
        lemma_succ_times(v, lo, m, (n - 1) as nat);
        let x = v - lo + n - 1;
        vstd::arithmetic::div_mod::lemma_add_mod_noop_right(1, x, m);
        assert(succ_times(v, lo, m, n) == lo + ((x % m) + 1) % m);
        assert(1 + x == v - lo + n);
    } else {
        vstd::arithmetic::div_mod::lemma_small_mod((v - lo) as nat, m as nat);
    }
}

/// Wraparound: in a space of `m` consecutive integers from `lo`, `m` steps
/// of `wrapping_succ` lead every value back to itself, and no fewer do. With `lo` zero or the
/// type's minimum and `m` two to the bit width, this is what `advance` does
/// on each fixed-width integer type.
pub proof fn lemma_wraparound(v: int, lo: int, m: int)
    requires
        m > 0,
        lo <= v < lo + m,
    ensures
        succ_times(v, lo, m, m as nat) == v,
        forall|k: nat| 0 < k < m ==> #[trigger] succ_times(v, lo, m, k) != v,
{
    assert forall|k: nat| 0 < k < m implies #[trigger] succ_times(v, lo, m, k) != v by {
        lemma_succ_times(v, lo, m, k);
        let d = v - lo;
        if d + k < m {
            vstd::arithmetic::div_mod::lemma_small_mod((d + k) as nat, m as nat);
        } else {
            vstd::arithmetic::div_mod::lemma_mod_sub_multiples_vanish(d + k, m);
            vstd::arithmetic::div_mod::lemma_small_mod((d + k - m) as nat, m as nat);
        }
    }
    lemma_succ_times(v, lo, m, m as nat);
    vstd::arithmetic::div_mod::lemma_mod_add_multiples_vanish(v - lo, m);
    vstd::arithmetic::div_mod::lemma_small_mod((v - lo) as nat, m as nat);
}

/// `s` after `n` steps of `Advance::succ`.
pub open spec fn advance_times<S: Advance>(s: S, n: nat) -> S
    decreases n,
{
    if n == 0 {
        s
    } else {
        advance_times(s, (n - 1) as nat).succ()
    }
}

/// Where `v` reads each state as one of the `m` integers from `lo` and a
/// step is `wrapping_succ` on what it reads, `n` steps read as `succ_times`.
proof fn lemma_times_read<S: Advance>(x: S, n: nat, v: spec_fn(S) -> int, lo: int, m: int)
    requires
        m > 0,
        forall|y: S| #[trigger] v(y.succ()) == wrapping_succ(v(y), lo, m),
    ensures
        v(advance_times(x, n)) == succ_times(v(x), lo, m, n),
    decreases n,
{
    if n > 0 {
        lemma_times_read(x, (n - 1) as nat, v, lo, m);
    }
}
proof fn lemma_wraparound_u8(x: u8)
    ensures
        advance_times(x, (u8::MAX + 1) as nat) == x,
        forall|k: nat| 0 < k < u8::MAX + 1 ==> #[trigger] advance_times(x, k) != x,
{
    let v = |y: u8| y as int;
    assert forall|y: u8| #[trigger] v(y.succ()) == wrapping_succ(v(y), 0, u8::MAX + 1) by {
        vstd::arithmetic::div_mod::lemma_mod_bound(y as int - (0) + 1, u8::MAX + 1);
    }
    lemma_times_read(x, (u8::MAX + 1) as nat, v, 0, u8::MAX + 1);
    lemma_wraparound(x as int, 0, u8::MAX + 1);
    assert forall|k: nat| 0 < k < u8::MAX + 1 implies #[trigger] advance_times(x, k) != x by {
        lemma_times_read(x, k, v, 0, u8::MAX + 1);
    }
}

proof fn lemma_wraparound_i8(x: i8)
    ensures
        advance_times(x, (u8::MAX + 1) as nat) == x,
        forall|k: nat| 0 < k < u8::MAX + 1 ==> #[trigger] advance_times(x, k) != x,
{
    let v = |y: i8| y as int;
    assert forall|y: i8| #[trigger] v(y.succ()) == wrapping_succ(v(y), i8::MIN as int, u8::MAX + 1) by {
        vstd::arithmetic::div_mod::lemma_mod_bound(y as int - (i8::MIN as int) + 1, u8::MAX + 1);
    }
    lemma_times_read(x, (u8::MAX + 1) as nat, v, i8::MIN as int, u8::MAX + 1);
    lemma_wraparound(x as int, i8::MIN as int, u8::MAX + 1);
    assert forall|k: nat| 0 < k < u8::MAX + 1 implies #[trigger] advance_times(x, k) != x by {
        lemma_times_read(x, k, v, i8::MIN as int, u8::MAX + 1);
    }
}

proof fn lemma_wraparound_u16(x: u16)
    ensures
        advance_times(x, (u16::MAX + 1) as nat) == x,
        forall|k: nat| 0 < k < u16::MAX + 1 ==> #[trigger] advance_times(x, k) != x,
{
    let v = |y: u16| y as int;
    assert forall|y: u16| #[trigger] v(y.succ()) == wrapping_succ(v(y), 0, u16::MAX + 1) by {
        vstd::arithmetic::div_mod::lemma_mod_bound(y as int - (0) + 1, u16::MAX + 1);
    }
    lemma_times_read(x, (u16::MAX + 1) as nat, v, 0, u16::MAX + 1);
    lemma_wraparound(x as int, 0, u16::MAX + 1);
    assert forall|k: nat| 0 < k < u16::MAX + 1 implies #[trigger] advance_times(x, k) != x by {
        lemma_times_read(x, k, v, 0, u16::MAX + 1);
    }
}

proof fn lemma_wraparound_i16(x: i16)
    ensures
        advance_times(x, (u16::MAX + 1) as nat) == x,
        forall|k: nat| 0 < k < u16::MAX + 1 ==> #[trigger] advance_times(x, k) != x,
{
    let v = |y: i16| y as int;
    assert forall|y: i16| #[trigger] v(y.succ()) == wrapping_succ(v(y), i16::MIN as int, u16::MAX + 1) by {
        vstd::arithmetic::div_mod::lemma_mod_bound(y as int - (i16::MIN as int) + 1, u16::MAX + 1);
    }
    lemma_times_read(x, (u16::MAX + 1) as nat, v, i16::MIN as int, u16::MAX + 1);
    lemma_wraparound(x as int, i16::MIN as int, u16::MAX + 1);
    assert forall|k: nat| 0 < k < u16::MAX + 1 implies #[trigger] advance_times(x, k) != x by {
        lemma_times_read(x, k, v, i16::MIN as int, u16::MAX + 1);
    }
}

proof fn lemma_wraparound_u32(x: u32)
    ensures
        advance_times(x, (u32::MAX + 1) as nat) == x,
        forall|k: nat| 0 < k < u32::MAX + 1 ==> #[trigger] advance_times(x, k) != x,
{
    let v = |y: u32| y as int;
    assert forall|y: u32| #[trigger] v(y.succ()) == wrapping_succ(v(y), 0, u32::MAX + 1) by {
        vstd::arithmetic::div_mod::lemma_mod_bound(y as int - (0) + 1, u32::MAX + 1);
    }
    lemma_times_read(x, (u32::MAX + 1) as nat, v, 0, u32::MAX + 1);
    lemma_wraparound(x as int, 0, u32::MAX + 1);
    assert forall|k: nat| 0 < k < u32::MAX + 1 implies #[trigger] advance_times(x, k) != x by {
        lemma_times_read(x, k, v, 0, u32::MAX + 1);
    }
}

proof fn lemma_wraparound_i32(x: i32)
    ensures
        advance_times(x, (u32::MAX + 1) as nat) == x,
        forall|k: nat| 0 < k < u32::MAX + 1 ==> #[trigger] advance_times(x, k) != x,
{
    let v = |y: i32| y as int;
    assert forall|y: i32| #[trigger] v(y.succ()) == wrapping_succ(v(y), i32::MIN as int, u32::MAX + 1) by {
        vstd::arithmetic::div_mod::lemma_mod_bound(y as int - (i32::MIN as int) + 1, u32::MAX + 1);
    }
    lemma_times_read(x, (u32::MAX + 1) as nat, v, i32::MIN as int, u32::MAX + 1);
    lemma_wraparound(x as int, i32::MIN as int, u32::MAX + 1);
    assert forall|k: nat| 0 < k < u32::MAX + 1 implies #[trigger] advance_times(x, k) != x by {
        lemma_times_read(x, k, v, i32::MIN as int, u32::MAX + 1);
    }
}

proof fn lemma_wraparound_u64(x: u64)
    ensures
        advance_times(x, (u64::MAX + 1) as nat) == x,
        forall|k: nat| 0 < k < u64::MAX + 1 ==> #[trigger] advance_times(x, k) != x,
{
    let v = |y: u64| y as int;
    assert forall|y: u64| #[trigger] v(y.succ()) == wrapping_succ(v(y), 0, u64::MAX + 1) by {
        vstd::arithmetic::div_mod::lemma_mod_bound(y as int - (0) + 1, u64::MAX + 1);
    }
    lemma_times_read(x, (u64::MAX + 1) as nat, v, 0, u64::MAX + 1);
    lemma_wraparound(x as int, 0, u64::MAX + 1);
    assert forall|k: nat| 0 < k < u64::MAX + 1 implies #[trigger] advance_times(x, k) != x by {
        lemma_times_read(x, k, v, 0, u64::MAX + 1);
    }
}

proof fn lemma_wraparound_i64(x: i64)
    ensures
        advance_times(x, (u64::MAX + 1) as nat) == x,
        forall|k: nat| 0 < k < u64::MAX + 1 ==> #[trigger] advance_times(x, k) != x,
{
    let v = |y: i64| y as int;
    assert forall|y: i64| #[trigger] v(y.succ()) == wrapping_succ(v(y), i64::MIN as int, u64::MAX + 1) by {
        vstd::arithmetic::div_mod::lemma_mod_bound(y as int - (i64::MIN as int) + 1, u64::MAX + 1);
    }
    lemma_times_read(x, (u64::MAX + 1) as nat, v, i64::MIN as int, u64::MAX + 1);
    lemma_wraparound(x as int, i64::MIN as int, u64::MAX + 1);
    assert forall|k: nat| 0 < k < u64::MAX + 1 implies #[trigger] advance_times(x, k) != x by {
        lemma_times_read(x, k, v, i64::MIN as int, u64::MAX + 1);
    }
}

proof fn lemma_wraparound_u128(x: u128)
    ensures
        advance_times(x, (u128::MAX + 1) as nat) == x,
        forall|k: nat| 0 < k < u128::MAX + 1 ==> #[trigger] advance_times(x, k) != x,
{
    let v = |y: u128| y as int;
    assert forall|y: u128| #[trigger] v(y.succ()) == wrapping_succ(v(y), 0, u128::MAX + 1) by {
        vstd::arithmetic::div_mod::lemma_mod_bound(y as int - (0) + 1, u128::MAX + 1);
    }
    lemma_times_read(x, (u128::MAX + 1) as nat, v, 0, u128::MAX + 1);
    lemma_wraparound(x as int, 0, u128::MAX + 1);
    assert forall|k: nat| 0 < k < u128::MAX + 1 implies #[trigger] advance_times(x, k) != x by {
        lemma_times_read(x, k, v, 0, u128::MAX + 1);
    }
}

proof fn lemma_wraparound_i128(x: i128)
    ensures
        advance_times(x, (u128::MAX + 1) as nat) == x,
        forall|k: nat| 0 < k < u128::MAX + 1 ==> #[trigger] advance_times(x, k) != x,
{
    let v = |y: i128| y as int;
    assert forall|y: i128| #[trigger] v(y.succ()) == wrapping_succ(v(y), i128::MIN as int, u128::MAX + 1) by {
        vstd::arithmetic::div_mod::lemma_mod_bound(y as int - (i128::MIN as int) + 1, u128::MAX + 1);
    }
    lemma_times_read(x, (u128::MAX + 1) as nat, v, i128::MIN as int, u128::MAX + 1);
    lemma_wraparound(x as int, i128::MIN as int, u128::MAX + 1);
    assert forall|k: nat| 0 < k < u128::MAX + 1 implies #[trigger] advance_times(x, k) != x by {
        lemma_times_read(x, k, v, i128::MIN as int, u128::MAX + 1);
    }
}
/// Wraparound of every fixed-width integer state: `2^bits` calls of
/// `advance` lead each value back to itself, and no fewer do, so a worker
/// passes through the whole space before it repeats.
pub proof fn lemma_integer_wraparound()
    ensures
        forall|x: u8| #[trigger] advance_times(x, (u8::MAX + 1) as nat) == x,
        forall|x: u8, k: nat| 0 < k < u8::MAX + 1 ==> #[trigger] advance_times(x, k) != x,
        forall|x: i8| #[trigger] advance_times(x, (u8::MAX + 1) as nat) == x,
        forall|x: i8, k: nat| 0 < k < u8::MAX + 1 ==> #[trigger] advance_times(x, k) != x,
        forall|x: u16| #[trigger] advance_times(x, (u16::MAX + 1) as nat) == x,
        forall|x: u16, k: nat| 0 < k < u16::MAX + 1 ==> #[trigger] advance_times(x, k) != x,
        forall|x: i16| #[trigger] advance_times(x, (u16::MAX + 1) as nat) == x,
        forall|x: i16, k: nat| 0 < k < u16::MAX + 1 ==> #[trigger] advance_times(x, k) != x,
        forall|x: u32| #[trigger] advance_times(x, (u32::MAX + 1) as nat) == x,
        forall|x: u32, k: nat| 0 < k < u32::MAX + 1 ==> #[trigger] advance_times(x, k) != x,
        forall|x: i32| #[trigger] advance_times(x, (u32::MAX + 1) as nat) == x,
        forall|x: i32, k: nat| 0 < k < u32::MAX + 1 ==> #[trigger] advance_times(x, k) != x,
        forall|x: u64| #[trigger] advance_times(x, (u64::MAX + 1) as nat) == x,
        forall|x: u64, k: nat| 0 < k < u64::MAX + 1 ==> #[trigger] advance_times(x, k) != x,
        forall|x: i64| #[trigger] advance_times(x, (u64::MAX + 1) as nat) == x,
        forall|x: i64, k: nat| 0 < k < u64::MAX + 1 ==> #[trigger] advance_times(x, k) != x,
        forall|x: u128| #[trigger] advance_times(x, (u128::MAX + 1) as nat) == x,
        forall|x: u128, k: nat| 0 < k < u128::MAX + 1 ==> #[trigger] advance_times(x, k) != x,
        forall|x: i128| #[trigger] advance_times(x, (u128::MAX + 1) as nat) == x,
        forall|x: i128, k: nat| 0 < k < u128::MAX + 1 ==> #[trigger] advance_times(x, k) != x,
{
    assert forall|x: u8| #[trigger] advance_times(x, (u8::MAX + 1) as nat) == x by {
        lemma_wraparound_u8(x);
    }
    assert forall|x: u8, k: nat| 0 < k < u8::MAX + 1 implies #[trigger] advance_times(x, k) != x by {
        lemma_wraparound_u8(x);
    }
    assert forall|x: i8| #[trigger] advance_times(x, (u8::MAX + 1) as nat) == x by {
        lemma_wraparound_i8(x);
    }
    assert forall|x: i8, k: nat| 0 < k < u8::MAX + 1 implies #[trigger] advance_times(x, k) != x by {
        lemma_wraparound_i8(x);
    }
    assert forall|x: u16| #[trigger] advance_times(x, (u16::MAX + 1) as nat) == x by {
        lemma_wraparound_u16(x);
    }
    assert forall|x: u16, k: nat| 0 < k < u16::MAX + 1 implies #[trigger] advance_times(x, k) != x by {
        lemma_wraparound_u16(x);
    }
    assert forall|x: i16| #[trigger] advance_times(x, (u16::MAX + 1) as nat) == x by {
        lemma_wraparound_i16(x);
    }
    assert forall|x: i16, k: nat| 0 < k < u16::MAX + 1 implies #[trigger] advance_times(x, k) != x by {
        lemma_wraparound_i16(x);
    }
    assert forall|x: u32| #[trigger] advance_times(x, (u32::MAX + 1) as nat) == x by {
        lemma_wraparound_u32(x);
    }
    assert forall|x: u32, k: nat| 0 < k < u32::MAX + 1 implies #[trigger] advance_times(x, k) != x by {
        lemma_wraparound_u32(x);
    }
    assert forall|x: i32| #[trigger] advance_times(x, (u32::MAX + 1) as nat) == x by {
        lemma_wraparound_i32(x);
    }
    assert forall|x: i32, k: nat| 0 < k < u32::MAX + 1 implies #[trigger] advance_times(x, k) != x by {
        lemma_wraparound_i32(x);
    }
    assert forall|x: u64| #[trigger] advance_times(x, (u64::MAX + 1) as nat) == x by {
        lemma_wraparound_u64(x);
    }
    assert forall|x: u64, k: nat| 0 < k < u64::MAX + 1 implies #[trigger] advance_times(x, k) != x by {
        lemma_wraparound_u64(x);
    }
    assert forall|x: i64| #[trigger] advance_times(x, (u64::MAX + 1) as nat) == x by {
        lemma_wraparound_i64(x);
    }
    assert forall|x: i64, k: nat| 0 < k < u64::MAX + 1 implies #[trigger] advance_times(x, k) != x by {
        lemma_wraparound_i64(x);
    }
    assert forall|x: u128| #[trigger] advance_times(x, (u128::MAX + 1) as nat) == x by {
        lemma_wraparound_u128(x);
    }
    assert forall|x: u128, k: nat| 0 < k < u128::MAX + 1 implies #[trigger] advance_times(x, k) != x by {
        lemma_wraparound_u128(x);
    }
    assert forall|x: i128| #[trigger] advance_times(x, (u128::MAX + 1) as nat) == x by {
        lemma_wraparound_i128(x);
    }
    assert forall|x: i128, k: nat| 0 < k < u128::MAX + 1 implies #[trigger] advance_times(x, k) != x by {
        lemma_wraparound_i128(x);
    }
}

/// Partitioning: while there are no more workers than values, the start of
/// each worker lies in `0..=max` and strictly above the start of every
/// worker with a lower index, so the runs between consecutive starts are
/// disjoint and none is empty. When workers are fewer than `max`, each run
/// is `max / count` long.
pub proof fn lemma_partition_ordered(t1: int, t2: int, count: int, max: int)
    requires
        0 <= t1 < t2 < count,
        count <= max + 1,
    ensures
        0 <= partition_start(t1, count, max) < partition_start(t2, count, max) <= max,
        count <= max ==> partition_start(t1 + 1, count, max) - partition_start(t1, count, max)
            == max / count,
{
    if count <= max {
        assert(max / count >= 1) by {
            vstd::arithmetic::div_mod::lemma_div_is_ordered(count, max, count);
            vstd::arithmetic::div_mod::lemma_div_basics(count);
        }
        lemma_partition_fits(t2, count, max);
        assert((max / count) * t1 < (max / count) * t2) by (nonlinear_arith)
            requires
                max / count >= 1,
                t1 < t2,
        ;
        assert((max / count) * (t1 + 1) - (max / count) * t1 == max / count) by (nonlinear_arith);
    }
}

impl Start for u8 {
    fn start_for_thread(thread: usize, thread_count: usize) -> (r: u8)
        ensures
            r as int == partition_start(thread as int, thread_count as int, u8::MAX as int),
    {
        if thread <= u8::MAX as usize {
            if thread_count <= u8::MAX as usize {
                let t = thread as u8;
                let c = thread_count as u8;
                proof {
                    lemma_partition_fits(t as int, c as int, u8::MAX as int);
                }
                (u8::MAX / c) * t
            } else {
                thread as u8
            }
        } else {
            0
        }
    }
}

impl Advance for u8 {
    open spec fn succ(self) -> u8 {
        wrapping_succ(self as int, 0, u8::MAX + 1) as u8
    }

    fn advance(&mut self)
        ensures
            *final(self) as int == wrapping_succ(*old(self) as int, 0, u8::MAX + 1),
    {
        *self = self.wrapping_add(1);
    }
}

impl Start for i8 {
    fn start_for_thread(thread: usize, thread_count: usize) -> (r: i8)
        ensures
            r == partition_start(thread as int, thread_count as int, u8::MAX as int) as i8,
    {
        u8::start_for_thread(thread, thread_count) as i8
    }
}

impl Advance for i8 {
    open spec fn succ(self) -> i8 {
        wrapping_succ(self as int, i8::MIN as int, u8::MAX + 1) as i8
    }

    fn advance(&mut self)
        ensures
            *final(self) as int == wrapping_succ(*old(self) as int, i8::MIN as int, u8::MAX + 1),
    {
        *self = self.wrapping_add(1);
    }
}

impl Start for u16 {
    fn start_for_thread(thread: usize, thread_count: usize) -> (r: u16)
        ensures
            r as int == partition_start(thread as int, thread_count as int, u16::MAX as int),
    {
        if thread <= u16::MAX as usize {
            if thread_count <= u16::MAX as usize {
                let t = thread as u16;
                let c = thread_count as u16;
                proof {
                    lemma_partition_fits(t as int, c as int, u16::MAX as int);
                }
                (u16::MAX / c) * t
            } else {
                thread as u16
            }
        } else {
            0
        }
    }
}

impl Advance for u16 {
    open spec fn succ(self) -> u16 {
        wrapping_succ(self as int, 0, u16::MAX + 1) as u16
    }

    fn advance(&mut self)
        ensures
            *final(self) as int == wrapping_succ(*old(self) as int, 0, u16::MAX + 1),
    {
        *self = self.wrapping_add(1);
    }
}

impl Start for i16 {
    fn start_for_thread(thread: usize, thread_count: usize) -> (r: i16)
        ensures
            r == partition_start(thread as int, thread_count as int, u16::MAX as int) as i16,
    {
        u16::start_for_thread(thread, thread_count) as i16
    }
}

impl Advance for i16 {
    open spec fn succ(self) -> i16 {
        wrapping_succ(self as int, i16::MIN as int, u16::MAX + 1) as i16
    }

    fn advance(&mut self)
        ensures
            *final(self) as int == wrapping_succ(*old(self) as int, i16::MIN as int, u16::MAX + 1),
    {
        *self = self.wrapping_add(1);
    }
}

impl Start for u32 {
    fn start_for_thread(thread: usize, thread_count: usize) -> (r: u32)
        ensures
            r as int == partition_start(thread as int, thread_count as int, u32::MAX as int),
    {
        if thread <= u32::MAX as usize {
            if thread_count <= u32::MAX as usize {
                let t = thread as u32;
                let c = thread_count as u32;
                proof {
                    lemma_partition_fits(t as int, c as int, u32::MAX as int);
                }
                (u32::MAX / c) * t
            } else {
                thread as u32
            }
        } else {
            0
        }
    }
}

impl Advance for u32 {
    open spec fn succ(self) -> u32 {
        wrapping_succ(self as int, 0, u32::MAX + 1) as u32
    }

    fn advance(&mut self)
        ensures
            *final(self) as int == wrapping_succ(*old(self) as int, 0, u32::MAX + 1),
    {
        *self = self.wrapping_add(1);
    }
}

impl Start for i32 {
    fn start_for_thread(thread: usize, thread_count: usize) -> (r: i32)
        ensures
            r == partition_start(thread as int, thread_count as int, u32::MAX as int) as i32,
    {
        u32::start_for_thread(thread, thread_count) as i32
    }
}

impl Advance for i32 {
    open spec fn succ(self) -> i32 {
        wrapping_succ(self as int, i32::MIN as int, u32::MAX + 1) as i32
    }

    fn advance(&mut self)
        ensures
            *final(self) as int == wrapping_succ(*old(self) as int, i32::MIN as int, u32::MAX + 1),
    {
        *self = self.wrapping_add(1);
    }
}

impl Start for u64 {
    fn start_for_thread(thread: usize, thread_count: usize) -> (r: u64)
        ensures
            r as int == partition_start(thread as int, thread_count as int, u64::MAX as int),
    {
        proof {
            assert(usize::MAX <= u64::MAX);
        }
        let t = thread as u64;
        let c = thread_count as u64;
        proof {
            lemma_partition_fits(t as int, c as int, u64::MAX as int);
        }
        (u64::MAX / c) * t
    }
}

impl Advance for u64 {
    open spec fn succ(self) -> u64 {
        wrapping_succ(self as int, 0, u64::MAX + 1) as u64
    }

    fn advance(&mut self)
        ensures
            *final(self) as int == wrapping_succ(*old(self) as int, 0, u64::MAX + 1),
    {
        *self = self.wrapping_add(1);
    }
}

impl Start for i64 {
    fn start_for_thread(thread: usize, thread_count: usize) -> (r: i64)
        ensures
            r == partition_start(thread as int, thread_count as int, u64::MAX as int) as i64,
    {
        u64::start_for_thread(thread, thread_count) as i64
    }
}

impl Advance for i64 {
    open spec fn succ(self) -> i64 {
        wrapping_succ(self as int, i64::MIN as int, u64::MAX + 1) as i64
    }

    fn advance(&mut self)
        ensures
            *final(self) as int == wrapping_succ(*old(self) as int, i64::MIN as int, u64::MAX + 1),
    {
        *self = self.wrapping_add(1);
    }
}

impl Start for u128 {
    fn start_for_thread(thread: usize, thread_count: usize) -> (r: u128)
        ensures
            r as int == partition_start(thread as int, thread_count as int, u128::MAX as int),
    {
        proof {
            assert(usize::MAX <= u128::MAX);
        }
        let t = thread as u128;
        let c = thread_count as u128;
        proof {
            lemma_partition_fits(t as int, c as int, u128::MAX as int);
        }
        (u128::MAX / c) * t
    }
}

impl Advance for u128 {
    open spec fn succ(self) -> u128 {
        wrapping_succ(self as int, 0, u128::MAX + 1) as u128
    }

    fn advance(&mut self)
        ensures
            *final(self) as int == wrapping_succ(*old(self) as int, 0, u128::MAX + 1),
    {
        *self = self.wrapping_add(1);
    }
}

impl Start for i128 {
    fn start_for_thread(thread: usize, thread_count: usize) -> (r: i128)
        ensures
            r == partition_start(thread as int, thread_count as int, u128::MAX as int) as i128,
    {
        u128::start_for_thread(thread, thread_count) as i128
    }
}

impl Advance for i128 {
    open spec fn succ(self) -> i128 {
        wrapping_succ(self as int, i128::MIN as int, u128::MAX + 1) as i128
    }

    fn advance(&mut self)
        ensures
            *final(self) as int == wrapping_succ(*old(self) as int, i128::MIN as int, u128::MAX + 1),
    {
        *self = self.wrapping_add(1);
    }
}

} // verus!
