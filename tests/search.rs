use brute_force::config::{thread_count_from_env, DEFAULT_ITERS_PER_STOP_CHECK};
use brute_force::{
    auto_advance, output_input, random_start, run_batch, settle, Advance, Config, Outcome,
    RandomStart, Start,
};
use curve25519_dalek::scalar::Scalar;

fn advance_times<S: Advance>(s: &mut S, n: u64) {
    for _ in 0..n {
        s.advance();
    }
}

#[test]
fn integers_wrap_around() {
    for x in [0u8, 1, 200, 255] {
        let mut y = x;
        advance_times(&mut y, 256);
        assert_eq!(y, x);
    }
    for x in [i8::MIN, -1, 0, i8::MAX] {
        let mut y = x;
        advance_times(&mut y, 256);
        assert_eq!(y, x);
    }
    let mut z = 40_000u16;
    advance_times(&mut z, 65_536);
    assert_eq!(z, 40_000);
    let mut w = -3i16;
    advance_times(&mut w, 65_536);
    assert_eq!(w, -3);
}

#[test]
fn integer_advance_wraps_at_the_ends() {
    let mut a = u8::MAX;
    a.advance();
    assert_eq!(a, 0);
    let mut b = i8::MAX;
    b.advance();
    assert_eq!(b, i8::MIN);
    let mut c = u128::MAX;
    c.advance();
    assert_eq!(c, 0);
    let mut d = 41u64;
    d.advance();
    assert_eq!(d, 42);
}

#[test]
fn integer_partitions() {
    assert_eq!(u8::start_for_thread(0, 1), 0);
    assert_eq!(u8::start_for_thread(0, 2), 0);
    assert_eq!(u8::start_for_thread(1, 2), 127);
    assert_eq!(u8::start_for_thread(3, 4), 189);
    assert_eq!(u32::start_for_thread(1, 2), u32::MAX / 2);
    assert_eq!(u64::start_for_thread(2, 3), (u64::MAX / 3) * 2);
    assert_eq!(u128::start_for_thread(1, 4), u128::MAX / 4);
    assert_eq!(i8::start_for_thread(1, 2), 127);
    assert_eq!(i8::start_for_thread(3, 4), -67);
    // More workers than values: each worker starts at its own index.
    assert_eq!(u8::start_for_thread(7, 300), 7);
    assert_eq!(u8::start_for_thread(256, 300), 0);
}

#[test]
fn integer_partitions_are_ordered() {
    for count in 1..=256usize {
        let mut prev: Option<u8> = None;
        for t in 0..count {
            let s = u8::start_for_thread(t, count);
            if let Some(p) = prev {
                assert!(p < s);
            }
            prev = Some(s);
        }
    }
}

#[test]
fn byte_array_starts() {
    assert_eq!(<[u8; 4]>::start_for_thread(1, 2), [0x7f, 0xff, 0xff, 0xff]);
    assert_eq!(<[u8; 6]>::start_for_thread(1, 2), [0x7f, 0xff, 0xff, 0xff, 0, 0]);
    assert_eq!(<[u8; 5]>::start_for_thread(0, 3), [0, 0, 0, 0, 0]);
    assert_eq!(<[u8; 2]>::start_for_thread(1, 2), [0x7f, 0xff]);
    assert_eq!(<[u8; 1]>::start_for_thread(1, 2), [127]);
    assert_eq!(<[u8; 3]>::start_for_thread(2, 3), [0xaa, 0xaa, 0xaa]);
    assert_eq!(<[u8; 0]>::start_for_thread(0, 1), []);
}

#[test]
fn byte_array_carry() {
    let mut a = [0u8, 255];
    a.advance();
    assert_eq!(a, [1, 0]);
    let mut b = [255u8, 255, 255];
    b.advance();
    assert_eq!(b, [0, 0, 0]);
    let mut c = [3u8, 7];
    c.advance();
    assert_eq!(c, [3, 8]);
    let mut d = [9u8, 255, 255];
    d.advance();
    assert_eq!(d, [10, 0, 0]);
}

#[test]
fn byte_arrays_wrap_around() {
    let mut a = [0x12u8, 0xfe];
    advance_times(&mut a, 65_536);
    assert_eq!(a, [0x12, 0xfe]);
    let mut b = [0xffu8];
    advance_times(&mut b, 256);
    assert_eq!(b, [0xff]);
    let mut c = [1u8, 2, 3];
    advance_times(&mut c, 1 << 24);
    assert_eq!(c, [1, 2, 3]);
}

#[test]
fn one_worker_finds_two_hundred() {
    let mut state = u8::start_for_thread(0, 1);
    assert_eq!(state, 0);
    let calls = std::cell::Cell::new(0u32);
    let check = output_input(auto_advance(|s: &u8| {
        calls.set(calls.get() + 1);
        *s == 200
    }));
    let r = run_batch(&check, &mut state, DEFAULT_ITERS_PER_STOP_CHECK);
    assert_eq!(r, Some(200));
    assert_eq!(state, 200);
    assert_eq!(calls.get(), 200);
}

#[test]
fn batch_stops_after_its_iterations() {
    let mut state = 0u8;
    let check = output_input(auto_advance(|s: &u8| *s == 200));
    assert_eq!(run_batch(&check, &mut state, 150), None);
    assert_eq!(state, 150);
    assert_eq!(run_batch(&check, &mut state, 0), None);
    assert_eq!(state, 150);
    assert_eq!(run_batch(&check, &mut state, 100), Some(200));
}

#[test]
fn second_worker_owns_one_thirty() {
    let first = u8::start_for_thread(0, 2);
    let second = u8::start_for_thread(1, 2);
    assert_eq!((first, second), (0, 127));
    let check = output_input(auto_advance(|s: &u8| *s == 130));
    let mut s0 = first;
    assert_eq!(run_batch(&check, &mut s0, (second - first) as usize), None);
    let mut s1 = second;
    assert_eq!(run_batch(&check, &mut s1, 10), Some(130));
}

#[test]
fn panicked_worker_overrides_result() {
    assert_eq!(settle(Some(5u8), true), Outcome::WorkerPanicked);
    assert_eq!(settle(None::<u8>, true), Outcome::WorkerPanicked);
    assert_eq!(settle(Some(5u8), false), Outcome::Found(5));
    assert_eq!(settle(None::<u8>, false), Outcome::NoResult);
}

#[test]
fn config_defaults() {
    let c = Config::default();
    assert_eq!(c.threads, None);
    assert_eq!(c.iters_per_stop_check, 512);
}

#[test]
fn thread_count_precedence() {
    let mut c = Config::default();
    assert_eq!(c.choose_threads(Some("6"), 8), 6);
    assert_eq!(c.choose_threads(Some("six"), 8), 8);
    assert_eq!(c.choose_threads(None, 8), 8);
    c.threads = Some(3);
    assert_eq!(c.choose_threads(Some("6"), 8), 3);
    assert_eq!(c.get_threads(Some("6")), 3);
    c.threads = None;
    assert_eq!(c.get_threads(Some("5")), 5);
    assert!(c.get_threads(None) >= 1);
}

#[test]
fn env_thread_counts() {
    assert_eq!(thread_count_from_env("12"), Some(12));
    assert_eq!(thread_count_from_env("+12"), Some(12));
    assert_eq!(thread_count_from_env("007"), Some(7));
    assert_eq!(thread_count_from_env(""), None);
    assert_eq!(thread_count_from_env("+"), None);
    assert_eq!(thread_count_from_env("-1"), None);
    assert_eq!(thread_count_from_env(" 4"), None);
    assert_eq!(thread_count_from_env("1_000"), None);
    assert_eq!(thread_count_from_env("99999999999999999999999"), None);
}

#[test]
fn random_start_reaches_inner_state() {
    let _ = RandomStart::<u64>::start_for_thread(0, 1);
    let check = random_start(|s: &mut u8| {
        s.advance();
        if *s == 3 {
            Some(*s)
        } else {
            None
        }
    });
    let mut state = RandomStart(0u8);
    assert_eq!(run_batch(&check, &mut state, 10), Some(3));
    assert_eq!(state, RandomStart(3));
}

#[test]
fn scalar_advance_adds_one() {
    let mut s = Scalar::ZERO;
    s.advance();
    assert_eq!(s, Scalar::ONE);
    s.advance();
    assert_eq!(s, Scalar::ONE + Scalar::ONE);
    let a = Scalar::start_for_thread(0, 2);
    let b = Scalar::start_for_thread(1, 2);
    assert_ne!(a, b);
}

#[test]
fn auto_advance_steps_before_checking() {
    let g = auto_advance(|s: &u8| *s);
    let mut a = 255u8;
    assert_eq!(g(&mut a), 0);
    assert_eq!(a, 0);
    let mut t = 5u8;
    assert_eq!(g(&mut t), 6);
    assert_eq!(t, 6);
    let h = auto_advance(|s: &i8| *s);
    let mut b = 127i8;
    assert_eq!(h(&mut b), -128);
    assert_eq!(b, -128);
    let k = auto_advance(|s: &[u8; 2]| *s);
    let mut x = [0x01u8, 0xff];
    assert_eq!(k(&mut x), [0x02, 0x00]);
    assert_eq!(x, [0x02, 0x00]);
    let m = auto_advance(|s: &[u8; 3]| *s);
    let mut y = [0xffu8, 0xff, 0xff];
    assert_eq!(m(&mut y), [0, 0, 0]);
    assert_eq!(y, [0, 0, 0]);
}

#[test]
fn output_input_returns_the_advanced_state() {
    let g = output_input(auto_advance(|s: &u8| *s % 2 == 0));
    let mut s = 3u8;
    assert_eq!(g(&mut s), Some(4));
    assert_eq!(s, 4);
    assert_eq!(g(&mut s), None);
    assert_eq!(s, 5);
}

#[test]
fn integers_do_not_repeat_early() {
    let start = 77u8;
    let mut s = start;
    for _ in 1..256 {
        s.advance();
        assert_ne!(s, start);
    }
    s.advance();
    assert_eq!(s, start);
}
