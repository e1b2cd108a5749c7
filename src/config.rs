//! How a run is configured, and how its thread count is settled.
use vstd::prelude::*;

verus! {

/// The iterations a worker runs between two looks at the stop signal,
/// unless configured otherwise.
pub const DEFAULT_ITERS_PER_STOP_CHECK: usize = 512;

#[non_exhaustive]
#[derive(PartialEq, Eq, Debug, Clone, Copy)]
pub struct Config {
    /// Number of threads to use. Falls back on the `BRUTE_FORCE_THREADS`
    /// environment variable, or if that does not hold a count, the number
    /// of logical CPU cores.
    pub threads: Option<usize>,
    /// The number of iterations to perform between checking if the
    /// computation is done (or timed out).
    pub iters_per_stop_check: usize,
}

impl Default for Config {
    fn default() -> (r: Config)
        ensures
            r.threads is None,
            r.iters_per_stop_check == DEFAULT_ITERS_PER_STOP_CHECK,
    {
        Config { threads: None, iters_per_stop_check: DEFAULT_ITERS_PER_STOP_CHECK }
    }
}

pub open spec fn is_decimal_digit(c: char) -> bool {
    '0' <= c <= '9'
}

/// The number that a string of decimal digits writes.
pub open spec fn decimal_value(s: Seq<char>) -> nat
    decreases s.len(),
{
    if s.len() == 0 {
        0
    } else {
        decimal_value(s.drop_last()) * 10 + ((s.last() as u32) - ('0' as u32)) as nat
    }
}

/// What `usize`'s `FromStr` makes of `s`: an optional `+` followed by one or
/// more decimal digits, whose value fits in a `usize`; anything else (a sign
/// alone, white space, a `-`, an underscore) is rejected.
pub open spec fn parsed_usize(s: Seq<char>) -> Option<usize> {
    let digits = if s.len() > 0 && s[0] == '+' {
        s.drop_first()
    } else {
        s
    };
    if digits.len() > 0 && (forall|i: int| 0 <= i < digits.len() ==> is_decimal_digit(#[trigger] digits[i]))
        && decimal_value(digits) <= usize::MAX {
        Some(decimal_value(digits) as usize)
    } else {
        None
    }
}

/// Relies on `str::parse::<usize>`, whose documented grammar `parsed_usize`
/// states.
#[verifier::external_body]
fn parse_usize(s: &str) -> (r: Option<usize>)
    ensures
        r == parsed_usize(s@),
{
    s.parse::<usize>().ok()
}

/// Relies on `num_cpus::get`: the number of logical cores available to this
/// process, which its documentation promises is at least one. Beyond that it
/// depends on the machine.
#[verifier::external_body]
fn logical_cores() -> (r: usize)
    ensures
        r >= 1,
{
    num_cpus::get()
}

/// The thread count that an environment value names, if it names one.
pub fn thread_count_from_env(value: &str) -> (r: Option<usize>)
    ensures
        r == parsed_usize(value@),
{
    parse_usize(value)
}

/// The thread count a run uses, by precedence: the configured count; else
/// the environment value, where it parses; else the core count.
pub open spec fn chosen_threads(threads: Option<usize>, env_value: Option<Seq<char>>, cores: usize) -> usize {
    match threads {
        Some(t) => t,
        None => match env_value {
            Some(v) => match parsed_usize(v) {
                Some(n) => n,
                None => cores,
            },
            None => cores,
        },
    }
}

/// The characters of an environment value, if it is set.
pub open spec fn env_chars(env_value: Option<&str>) -> Option<Seq<char>> {
    match env_value {
        Some(v) => Some(v@),
        None => None,
    }
}

impl Config {
    /// Settles the thread count from this configuration, the value of the
    /// environment variable if it is set, and the number of cores.
    pub fn choose_threads(&self, env_value: Option<&str>, cores: usize) -> (r: usize)
        ensures
            r == chosen_threads(
                self.threads,
                env_chars(env_value),
                cores,
            ),
    {
        if let Some(threads) = self.threads {
            return threads;
        }
        if let Some(v) = env_value {
            if let Some(t) = parse_usize(v) {
                return t;
            }
        }
        cores
    }

    /// Settles the thread count as `choose_threads` does, with this
    /// machine's logical core count, which is at least one.
    pub fn get_threads(&self, env_value: Option<&str>) -> (r: usize)
        ensures
            exists|cores: usize|
                cores >= 1 && r == #[trigger] chosen_threads(
                    self.threads,
                    env_chars(env_value),
                    cores,
                ),
    {
        let cores = logical_cores();
        self.choose_threads(env_value, cores)
    }
}

} // verus!
