//! What one worker does between two looks at the stop signal.
use vstd::prelude::*;

verus! {

/// At most `n` checks from `s`, stopping at the first that yields a result:
/// the state they leave, and that result if there was one.
pub open spec fn batch<S, R>(step: spec_fn(S) -> (S, Option<R>), s: S, n: nat) -> (S, Option<R>)
    decreases n,
{
    if n == 0 {
        (s, None)
    } else {
        let (next, out) = step(s);
        if out is Some {
            (next, out)
        } else {
            batch(step, next, (n - 1) as nat)
        }
    }
}

/// The state after `j` checks from `s`, whatever they yielded.
pub open spec fn walk<S, R>(step: spec_fn(S) -> (S, Option<R>), s: S, j: nat) -> S
    decreases j,
{
    if j == 0 {
        s
    } else {
        walk(step, step(s).0, (j - 1) as nat)
    }
}

/// A search that first succeeds at the check after `k` empty ones, from a
/// known state, yields exactly that check's result and state, in a batch of
/// any size above `k`.
pub proof fn lemma_first_success<S, R>(step: spec_fn(S) -> (S, Option<R>), s: S, k: nat, n: nat)
    requires
        k < n,
        forall|j: nat| j < k ==> (#[trigger] step(walk(step, s, j))).1 is None,
        step(walk(step, s, k)).1 is Some,
    ensures
        batch(step, s, n) == step(walk(step, s, k)),
    decreases k,
{
    if k > 0 {
        let next = step(s).0;
        assert(step(walk(step, s, 0)).1 is None);
        assert forall|j: nat| j < (k - 1) as nat implies (#[trigger] step(walk(step, next, j))).1 is None by {
            assert(walk(step, s, j + 1) == walk(step, next, j));
            assert(step(walk(step, s, j + 1)).1 is None);
        }
        assert(walk(step, s, k) == walk(step, next, (k - 1) as nat));
        lemma_first_success(step, next, (k - 1) as nat, (n - 1) as nat);
    }
}

/// Cutting a search into batches changes nothing: when a batch of `a` checks
/// yields no result, a batch of `b` more from where it stopped ends as one
/// batch of `a + b` checks would have.
pub proof fn lemma_batches_compose<S, R>(step: spec_fn(S) -> (S, Option<R>), s: S, a: nat, b: nat)
    requires
        batch(step, s, a).1 is None,
    ensures
        batch(step, batch(step, s, a).0, b) == batch(step, s, a + b),
    decreases a,
{
    if a > 0 {
        lemma_batches_compose(step, step(s).0, (a - 1) as nat, b);
        assert((a + b - 1) as nat == (a - 1) as nat + b);
    }
}

/// Runs the checking function `f` on `state` up to `iters` times and returns
/// the first result it yields, or `None` when all `iters` checks came out
/// empty. With no iterations nothing is called and the state stays as it is.
/// For any `step` that `f` follows (each call on a state gives the state and
/// the output that `step` maps it to), the outcome and the state left behind
/// are those of `batch`.
pub fn run_batch<S, R, F>(f: &F, state: &mut S, iters: usize) -> (r: Option<R>)
    where
        F: Fn(&mut S) -> Option<R>,
    requires
        forall|s: &mut S| f.requires((s,)),
    ensures
        iters == 0 ==> r is None && *final(state) == *old(state),
        forall|step: spec_fn(S) -> (S, Option<R>)|
            (forall|s: &mut S, out: Option<R>| #[trigger] f.ensures((s,), out) ==> step(*s) == (
            *final(s),
            out,
        )) ==> #[trigger] batch(step, *old(state), iters as nat) == (*final(state), r),
{
    let ghost s0 = *state;
    let mut result: Option<R> = None;
    let mut i: usize = 0;
    while i < iters && result.is_none()
        invariant
            forall|s: &mut S| f.requires((s,)),
            i <= iters,
            i == 0 ==> result is None && *state == s0,
            forall|step: spec_fn(S) -> (S, Option<R>)|
                (forall|s: &mut S, out: Option<R>| #[trigger] f.ensures((s,), out) ==> step(*s) == (
                *final(s),
                out,
            )) ==> #[trigger] batch(step, s0, iters as nat) == if result is Some {
                (*state, result)
            } else {
                batch(step, *state, (iters - i) as nat)
            },
        decreases iters - i,
    {
        result = f(state);
        i = i + 1;
    }
    result
}

} // verus!
