//! Fixed-length byte arrays as search states: a big-endian counter.
use crate::space::{advance_times, lemma_partition_fits, partition_start, Advance, Start};
use vstd::prelude::*;

verus! {

/// `256` to the power `n`: how many values `n` bytes hold.
pub open spec fn byte_space(n: nat) -> nat
    decreases n,
{
    if n == 0 {
        1
    } else {
        256 * byte_space((n - 1) as nat)
    }
}

/// The byte at index `i` of the `w`-byte big-endian form of `v`.
pub open spec fn be_digit(v: nat, w: nat, i: int) -> u8 {
    ((v / byte_space((w - 1 - i) as nat)) % 256) as u8
}

/// The `w`-byte big-endian form of `v`, taken modulo `256^w`.
pub open spec fn be_bytes(v: nat, w: nat) -> Seq<u8> {
    Seq::new(w, |i: int| be_digit(v, w, i))
}

/// How many leading bytes of an `n`-byte state carry the partition offset.
pub open spec fn offset_width(n: nat) -> nat {
    if n < 4 {
        n
    } else {
        4
    }
}

/// The state that worker `thread` of `count` starts from: the first
/// `offset_width(n)` bytes hold, big-endian, the partition start within
/// that many bytes; the remaining bytes are zero.
pub open spec fn bytes_start(thread: int, count: int, n: nat) -> Seq<u8> {
    let w = offset_width(n);
    be_bytes(partition_start(thread, count, byte_space(w) - 1) as nat, w) + Seq::new(
        (n - w) as nat,
        |i: int| 0u8,
    )
}

/// Big-endian increment with carry; all bytes at their maximum wrap to zero.
pub open spec fn bytes_succ(s: Seq<u8>) -> Seq<u8>
    decreases s.len(),
{
    if s.len() == 0 {
        s
    } else if s.last() < 255 {
        s.drop_last().push((s.last() + 1) as u8)
    } else {
        bytes_succ(s.drop_last()).push(0u8)
    }
}

/// `s` after `n` steps of `bytes_succ`.
pub open spec fn bytes_succ_times(s: Seq<u8>, n: nat) -> Seq<u8>
    decreases n,
{
    if n == 0 {
        s
    } else {
        bytes_succ(bytes_succ_times(s, (n - 1) as nat))
    }
}

/// `n` zero bytes.
pub open spec fn zeros(n: nat) -> Seq<u8> {
    Seq::new(n, |i: int| 0u8)
}

/// Bytes at their maximum at the end of `s` turn into zeros, and the carry
/// goes on into what stands before them.
proof fn lemma_carry(s: Seq<u8>, k: int)
    requires
        0 <= k <= s.len(),
        forall|j: int| k <= j < s.len() ==> s[j] == 255,
    ensures
        bytes_succ(s) == bytes_succ(s.take(k)) + zeros((s.len() - k) as nat),
    decreases s.len() - k,
{
    if k == s.len() {
        assert(s.take(k) =~= s);
        assert(bytes_succ(s.take(k)) + zeros(0) =~= bytes_succ(s.take(k)));
    } else {
        let p = s.drop_last();
        lemma_carry(p, k);
        assert(p.take(k) =~= s.take(k));
        assert(bytes_succ(s) =~= bytes_succ(s.take(k)) + zeros((s.len() - k) as nat));
    }
}

proof fn lemma_succ_len(s: Seq<u8>)
    ensures
        bytes_succ(s).len() == s.len(),
    decreases s.len(),
{
    if s.len() > 0 {
        lemma_succ_len(s.drop_last());
    }
}

proof fn lemma_times_add(s: Seq<u8>, a: nat, b: nat)
    ensures
        bytes_succ_times(s, a + b) == bytes_succ_times(bytes_succ_times(s, a), b),
    decreases b,
{
    if b > 0 {
        lemma_times_add(s, a, (b - 1) as nat);
        assert((a + b - 1) as nat == a + (b - 1) as nat);
    }
}

/// Steps that leave the last byte below its maximum only raise that byte.
proof fn lemma_last_byte_steps(p: Seq<u8>, x: u8, j: nat)
    requires
        x + j <= 255,
    ensures
        bytes_succ_times(p.push(x), j) == p.push((x + j) as u8),
    decreases j,
{
    if j > 0 {
        lemma_last_byte_steps(p, x, (j - 1) as nat);
        let q = p.push((x + j - 1) as u8);
        assert(q.drop_last() =~= p);
    }
}

/// 256 steps on `p` followed by one byte are one step on `p`.
proof fn lemma_full_cycle(p: Seq<u8>, x: u8)
    ensures
        bytes_succ_times(p.push(x), 256) == bytes_succ(p).push(x),
{
    let up = (255 - x) as nat;
    lemma_last_byte_steps(p, x, up);
    lemma_times_add(p.push(x), up, 1);
    let top = p.push(255u8);
    assert(top.drop_last() =~= p);
    assert(bytes_succ_times(top, 1) == bytes_succ(p).push(0u8));
    lemma_times_add(p.push(x), up + 1, x as nat);
    lemma_last_byte_steps(bytes_succ(p), 0u8, x as nat);
    assert(up + 1 + x == 256);
}

proof fn lemma_lift(p: Seq<u8>, x: u8, k: nat)
    ensures
        bytes_succ_times(p.push(x), 256 * k) == bytes_succ_times(p, k).push(x),
    decreases k,
{
    if k > 0 {
        lemma_lift(p, x, (k - 1) as nat);
        lemma_times_add(p.push(x), 256 * (k - 1) as nat, 256);
        assert(256 * (k - 1) as nat + 256 == 256 * k);
        lemma_full_cycle(bytes_succ_times(p, (k - 1) as nat), x);
    }
}

/// Wraparound of byte arrays: stepping an `n`-byte state `256^n` times, once
/// for each value it can hold, leads back to the bytes it started from.
pub proof fn lemma_bytes_wraparound(s: Seq<u8>)
    ensures
        bytes_succ_times(s, byte_space(s.len())) == s,
    decreases s.len(),
{
    if s.len() == 0 {
        reveal_with_fuel(bytes_succ_times, 2);
        assert(bytes_succ(s) =~= s);
    } else {
        let p = s.drop_last();
        let x = s.last();
        assert(p.push(x) =~= s);
        lemma_lift(p, x, byte_space(p.len()));
        lemma_bytes_wraparound(p);
    }
}

/// An array that reads as `bytes_succ` of `a` is `array_succ(a)`.
proof fn lemma_array_succ<const N: usize>(a: [u8; N], b: [u8; N])
    requires
        b@ == bytes_succ(a@),
    ensures
        b == array_succ(a),
{
    let c = array_succ(a);
    assert(c@ == bytes_succ(a@));
    assert(b =~= c);
}

/// `a` with its first `k` bytes replaced by those of `t`.
spec fn overwrite<const N: usize>(a: [u8; N], t: Seq<u8>, k: nat) -> [u8; N]
    decreases k,
{
    if k == 0 {
        a
    } else {
        vstd::array::spec_array_update(overwrite(a, t, (k - 1) as nat), k - 1, t[k - 1])
    }
}

proof fn lemma_overwrite<const N: usize>(a: [u8; N], t: Seq<u8>, k: nat)
    requires
        k <= N,
        t.len() == N,
    ensures
        forall|i: int| 0 <= i < k ==> overwrite(a, t, k)@[i] == t[i],
    decreases k,
{
    if k > 0 {
        lemma_overwrite(a, t, (k - 1) as nat);
    }
}

/// Every array has a successor that reads as `bytes_succ` of it.
proof fn lemma_array_succ_view<const N: usize>(a: [u8; N])
    ensures
        array_succ(a)@ == bytes_succ(a@),
{
    let t = bytes_succ(a@);
    lemma_succ_len(a@);
    let b = overwrite(a, t, N as nat);
    lemma_overwrite(a, t, N as nat);
    assert(b@ =~= t);
}

proof fn lemma_array_times_view<const N: usize>(a: [u8; N], n: nat)
    ensures
        advance_times(a, n)@ == bytes_succ_times(a@, n),
    decreases n,
{
    if n > 0 {
        lemma_array_times_view(a, (n - 1) as nat);
        lemma_array_succ_view(advance_times(a, (n - 1) as nat));
    }
}

/// Wraparound of byte-array states: `256^N` calls of `advance` on an
/// `N`-byte array lead it back to the bytes it started from.
pub proof fn lemma_array_wraparound<const N: usize>(a: [u8; N])
    ensures
        advance_times(a, byte_space(N as nat)) == a,
{
    lemma_array_times_view(a, byte_space(N as nat));
    lemma_bytes_wraparound(a@);
    assert(advance_times(a, byte_space(N as nat)) =~= a);
}

/// The partition start among the integers `0..=max`, for a `max` of at
/// most four bytes.
fn partition_start_u32(thread: usize, thread_count: usize, max: u32) -> (r: u32)
    requires
        thread < thread_count,
    ensures
        r as int == partition_start(thread as int, thread_count as int, max as int),
{
    if thread <= max as usize {
        if thread_count <= max as usize {
            let t = thread as u32;
            let c = thread_count as u32;
            proof {
                lemma_partition_fits(t as int, c as int, max as int);
            }
            (max / c) * t
        } else {
            thread as u32
        }
    } else {
        0
    }
}

impl<const N: usize> Start for [u8; N] {
    fn start_for_thread(thread: usize, thread_count: usize) -> (r: [u8; N])
        ensures
            r@ == bytes_start(thread as int, thread_count as int, N as nat),
    {
        let mut ret = [0u8; N];
        let w: usize = if N < 4 { N } else { 4 };
        let max: u32 = if w == 0 {
            0
        } else if w == 1 {
            0xff
        } else if w == 2 {
            0xffff
        } else if w == 3 {
            0xff_ffff
        } else {
            0xffff_ffff
        };
        proof {
            reveal_with_fuel(byte_space, 5);
        }
        assert(max as int == byte_space(w as nat) - 1);
        let v = partition_start_u32(thread, thread_count, max);
        let mut d: u64 = 1;
        let mut i: usize = w;
        while i > 0
            invariant
                w == offset_width(N as nat),
                i <= w <= 4,
                ret@.len() == N,
                d as int == byte_space((w - i) as nat),
                forall|j: int| 0 <= j < i ==> ret@[j] == 0u8,
                forall|j: int| w <= j < N ==> ret@[j] == 0u8,
                forall|j: int| i <= j < w ==> ret@[j] == be_digit(v as nat, w as nat, j),
            decreases i,
        {
            proof {
                reveal_with_fuel(byte_space, 5);
            }
            ret[i - 1] = ((v as u64 / d) % 256) as u8;
            assert(byte_space((w - i + 1) as nat) == 256 * byte_space((w - i) as nat));
            d = d * 256;
            i = i - 1;
        }
        assert(ret@ =~= bytes_start(thread as int, thread_count as int, N as nat));
        ret
    }
}

/// The array of `N` bytes that reads as `bytes_succ` of `a`.
pub open spec fn array_succ<const N: usize>(a: [u8; N]) -> [u8; N] {
    choose|b: [u8; N]| b@ == bytes_succ(a@)
}

impl<const N: usize> Advance for [u8; N] {
    open spec fn succ(self) -> [u8; N] {
        array_succ(self)
    }

    fn advance(&mut self)
        ensures
            final(self)@ == bytes_succ(old(self)@),
    {
        let ghost s = self@;
        let mut i: usize = N;
        while i > 0
            invariant
                s == old(self)@,
                s.len() == N,
                self@.len() == N,
                i <= N,
                forall|j: int| 0 <= j < i ==> self@[j] == s[j],
                forall|j: int| i <= j < N ==> self@[j] == 0u8,
                forall|j: int| i <= j < N ==> s[j] == 255u8,
            decreases i,
        {
            if self[i - 1] < u8::MAX {
                self[i - 1] = self[i - 1] + 1;
                proof {
                    let k = (i - 1) as int;
                    lemma_carry(s, i as int);
                    let t = s.take(i as int);
                    assert(t.drop_last() =~= s.take(k));
                    assert(self@ =~= bytes_succ(s));
                    lemma_array_succ(*old(self), *self);
                }
                return;
            }
            self[i - 1] = 0;
            i = i - 1;
        }
        proof {
            lemma_carry(s, 0);
            assert(self@ =~= bytes_succ(s));
            lemma_array_succ(*old(self), *self);
        }
    }
}

} // verus!
