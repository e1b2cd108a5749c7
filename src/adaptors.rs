//! Reshaping checking functions into the form the search runs.
use crate::space::{Advance, Start};
use rand::distributions::{Distribution, Standard};
use vstd::prelude::*;

verus! {

/// Advances the state before each check, so that `f` only has to read it:
/// each call steps the state to its successor and returns what `f` gives on
/// that successor.
pub fn auto_advance<S, R, F>(f: F) -> (g: impl Fn(&mut S) -> R)
    where
        S: Advance,
        F: Fn(&S) -> R,
    requires
        forall|s: &S| f.requires((s,)),
    ensures
        forall|s: &mut S| g.requires((s,)),
        forall|s: &mut S, r: R| #[trigger] g.ensures((s,), r) ==> {
            &&& *final(s) == (*s).succ()
            &&& f.ensures((&*final(s),), r)
        },
{
    move |s: &mut S| -> (r: R)
        ensures
            *final(s) == (*old(s)).succ(),
            f.ensures((&*final(s),), r),
        {
            s.advance();
            f(s)
        }
}

/// Turns a success flag into a result: a check that succeeds yields a clone
/// of the state it succeeded on, one that fails yields nothing.
pub fn output_input<S, F>(f: F) -> (g: impl Fn(&mut S) -> Option<S>)
    where
        F: Fn(&mut S) -> bool,
        S: Clone,
    requires
        forall|s: &mut S| f.requires((s,)),
    ensures
        forall|s: &mut S| g.requires((s,)),
        forall|s: &mut S, r: Option<S>| #[trigger] g.ensures((s,), r) ==> exists|t: &mut S, ok: bool|
            {
                &&& #[trigger] f.ensures((t,), ok)
                &&& *t == *s
                &&& *final(t) == *final(s)
                &&& (ok <==> r is Some)
                &&& r matches Some(c) ==> cloned(*final(s), c)
            },
{
    move |s: &mut S| -> (r: Option<S>)
        ensures
            exists|t: &mut S, ok: bool|
                {
                    &&& #[trigger] f.ensures((t,), ok)
                    &&& *t == *old(s)
                    &&& *final(t) == *final(s)
                    &&& (ok <==> r is Some)
                    &&& r matches Some(c) ==> cloned(*final(s), c)
                },
        {
            if f(s) {
                Some(s.clone())
            } else {
                None
            }
        }
}

/// A state whose workers each start from a value drawn from the operating
/// system's secure random source, whatever their index.
#[derive(Debug, PartialEq, Eq, Clone)]
pub struct RandomStart<S>(pub S);

/// Relies on rand's `Rng::gen` over `OsRng`: a value drawn from the operating
/// system's secure random source. Nothing is known of which.
#[verifier::external_body]
fn draw_random<S>() -> S
    where
        Standard: Distribution<S>,
{
    rand::Rng::gen(&mut rand::rngs::OsRng)
}

impl Start for RandomStart<u8> {
    fn start_for_thread(_thread: usize, _thread_count: usize) -> (r: RandomStart<u8>) {
        RandomStart(draw_random())
    }
}

impl Start for RandomStart<u16> {
    fn start_for_thread(_thread: usize, _thread_count: usize) -> (r: RandomStart<u16>) {
        RandomStart(draw_random())
    }
}

impl Start for RandomStart<u32> {
    fn start_for_thread(_thread: usize, _thread_count: usize) -> (r: RandomStart<u32>) {
        RandomStart(draw_random())
    }
}

impl Start for RandomStart<u64> {
    fn start_for_thread(_thread: usize, _thread_count: usize) -> (r: RandomStart<u64>) {
        RandomStart(draw_random())
    }
}

impl Start for RandomStart<u128> {
    fn start_for_thread(_thread: usize, _thread_count: usize) -> (r: RandomStart<u128>) {
        RandomStart(draw_random())
    }
}

impl Start for RandomStart<i8> {
    fn start_for_thread(_thread: usize, _thread_count: usize) -> (r: RandomStart<i8>) {
        RandomStart(draw_random())
    }
}

impl Start for RandomStart<i16> {
    fn start_for_thread(_thread: usize, _thread_count: usize) -> (r: RandomStart<i16>) {
        RandomStart(draw_random())
    }
}

impl Start for RandomStart<i32> {
    fn start_for_thread(_thread: usize, _thread_count: usize) -> (r: RandomStart<i32>) {
        RandomStart(draw_random())
    }
}

impl Start for RandomStart<i64> {
    fn start_for_thread(_thread: usize, _thread_count: usize) -> (r: RandomStart<i64>) {
        RandomStart(draw_random())
    }
}

impl Start for RandomStart<i128> {
    fn start_for_thread(_thread: usize, _thread_count: usize) -> (r: RandomStart<i128>) {
        RandomStart(draw_random())
    }
}

/// Lets `f` work on the value inside a randomly started state.
pub fn random_start<S, R, F>(f: F) -> (g: impl Fn(&mut RandomStart<S>) -> R)
    where
        RandomStart<S>: Start,
        F: Fn(&mut S) -> R,
    requires
        forall|s: &mut S| f.requires((s,)),
    ensures
        forall|s: &mut RandomStart<S>| g.requires((s,)),
        forall|s: &mut RandomStart<S>, r: R| #[trigger] g.ensures((s,), r) ==> exists|t: &mut S|
            {
                &&& #[trigger] f.ensures((t,), r)
                &&& *t == (*s).0
                &&& *final(t) == (*final(s)).0
            },
{
    move |s: &mut RandomStart<S>| -> (r: R)
        ensures
            exists|t: &mut S|
                {
                    &&& #[trigger] f.ensures((t,), r)
                    &&& *t == (*old(s)).0
                    &&& *final(t) == (*final(s)).0
                },
        {
            f(&mut s.0)
        }
}

} // verus!
