//! Command-line arguments: `<program> <mode> [iterations]`.
use vstd::prelude::*;

verus! {

/// How the iterations are dispatched.
#[derive(Clone, Copy, Debug, PartialEq, Eq, Structural)]
pub enum Mode {
    /// One blocking invocation after another.
    Sync,
    /// All invocations submitted as tasks, then joined.
    Async,
}

/// A parsed run: mode and a positive iteration count.
#[derive(Clone, Copy, Debug, PartialEq, Eq, Structural)]
pub struct RunConfig {
    pub mode: Mode,
    pub iterations: usize,
}

/// What the arguments ask for.
#[derive(Clone, Copy, Debug, PartialEq, Eq, Structural)]
pub enum Command {
    /// Too few arguments: print the usage line, run nothing.
    Usage,
    /// The mode is neither `sync` nor `async`: print an error, run nothing.
    InvalidMode,
    /// Run the benchmark.
    Run(RunConfig),
}

/// Iteration count used when none is given or it is not a positive integer.
pub const DEFAULT_ITERATIONS: usize = 10;

pub open spec fn is_digit(c: char) -> bool {
    '0' <= c <= '9'
}

pub open spec fn all_digits(s: Seq<char>) -> bool {
    forall|i: int| 0 <= i < s.len() ==> is_digit(#[trigger] s[i])
}

/// The number that a string of decimal digits denotes.
pub open spec fn digits_value(s: Seq<char>) -> int
    decreases s.len(),
{
    if s.len() == 0 {
        0
    } else {
        digits_value(s.drop_last()) * 10 + (s.last() as int - '0' as int)
    }
}

/// The digits of an unsigned number, after an optional leading `+`.
pub open spec fn unsigned_digits(s: Seq<char>) -> Seq<char> {
    if s.len() > 0 && s[0] == '+' {
        s.drop_first()
    } else {
        s
    }
}

/// The value of `s` read as a `usize` in decimal: an optional `+`, then one
/// or more digits, with a value that fits.
pub open spec fn parsed_count(s: Seq<char>) -> Option<nat> {
    let d = unsigned_digits(s);
    if d.len() > 0 && all_digits(d) && digits_value(d) <= usize::MAX {
        Some(digits_value(d) as nat)
    } else {
        None
    }
}

/// The iteration count that the token `s` gives: its value when that is a
/// positive integer, else the default.
pub open spec fn iterations_of(s: Seq<char>) -> nat {
    match parsed_count(s) {
        Some(n) => if n >= 1 { n } else { DEFAULT_ITERATIONS as nat },
        None => DEFAULT_ITERATIONS as nat,
    }
}

/// The mode that the token `s` names.
pub open spec fn mode_of(s: Seq<char>) -> Option<Mode> {
    if s == "sync"@ {
        Some(Mode::Sync)
    } else if s == "async"@ {
        Some(Mode::Async)
    } else {
        None
    }
}

/// What the argument list (program name first) asks for.
pub open spec fn command_of(args: Seq<String>) -> Command {
    if args.len() < 2 {
        Command::Usage
    } else {
        match mode_of(args[1]@) {
            None => Command::InvalidMode,
            Some(mode) => Command::Run(
                RunConfig {
                    mode,
                    iterations: if args.len() > 2 {
                        iterations_of(args[2]@) as usize
                    } else {
                        DEFAULT_ITERATIONS
                    },
                },
            ),
        }
    }
}

proof fn lemma_digits_value_nonneg(s: Seq<char>)
    requires
        all_digits(s),
    ensures
        digits_value(s) >= 0,
    decreases s.len(),
{
    if s.len() > 0 {
        lemma_digits_value_nonneg(s.drop_last());
    }
}

/// A prefix of a digit string never denotes more than the whole string.
proof fn lemma_digits_value_prefix(s: Seq<char>, j: int)
    requires
        all_digits(s),
        0 <= j <= s.len(),
    ensures
        digits_value(s.subrange(0, j)) <= digits_value(s),
    decreases s.len(),
{
    if j < s.len() {
        let t = s.drop_last();
        assert(s.subrange(0, j) =~= t.subrange(0, j));
        lemma_digits_value_prefix(t, j);
        lemma_digits_value_nonneg(t);
    } else {
        assert(s.subrange(0, j) =~= s);
    }
}

/// Reads `s` as a `usize` in decimal, as `str::parse::<usize>` does.
pub fn parse_count(s: &str) -> (r: Option<usize>)
    ensures
        r matches Some(v) ==> parsed_count(s@) == Some(v as nat),
        r is None ==> parsed_count(s@) is None,
{
    let n = s.unicode_len();
    let mut start: usize = 0;
    if n > 0 && s.get_char(0) == '+' {
        start = 1;
    }
    let ghost d = unsigned_digits(s@);
    proof {
        assert(d =~= s@.subrange(start as int, n as int));
    }
    if start >= n {
        return None;
    }
    let mut v: usize = 0;
    let mut i: usize = start;
    while i < n
        invariant
            n == s@.len(),
            start <= i <= n,
            d == s@.subrange(start as int, n as int),
            d == unsigned_digits(s@),
            all_digits(d.subrange(0, i - start)),
            v as int == digits_value(d.subrange(0, i - start)),
        decreases n - i,
    {
        let c = s.get_char(i);
        let ghost k = i - start;
        proof {
            assert(d[k] == c);
        }
        if c < '0' || c > '9' {
            proof {
                assert(!is_digit(d[k]));
                assert(!all_digits(d));
            }
            return None;
        }
        let dig = (c as u32 - '0' as u32) as usize;
        proof {
            let p = d.subrange(0, k + 1);
            assert(p.drop_last() =~= d.subrange(0, k));
            assert(digits_value(p) == v * 10 + dig);
            assert(all_digits(p));
        }
        if v > (usize::MAX - dig) / 10 {
            proof {
                assert(v * 10 + dig > usize::MAX) by (nonlinear_arith)
                    requires
                        v > (usize::MAX - dig) / 10,
                        dig <= 9,
                ;
                if all_digits(d) {
                    lemma_digits_value_prefix(d, k + 1);
                    assert(digits_value(d) > usize::MAX);
                }
                assert(parsed_count(s@) is None);
            }
            return None;
        }
        assert(v * 10 + dig <= usize::MAX) by (nonlinear_arith)
            requires
                v <= (usize::MAX - dig) / 10,
                dig <= 9,
        ;
        v = v * 10 + dig;
        i = i + 1;
    }
    proof {
        assert(d.subrange(0, n - start) =~= d);
    }
    Some(v)
}

/// The iteration count given by the token `s`: its value when it is a
/// positive integer, else `DEFAULT_ITERATIONS`.
pub fn parse_iterations(s: &str) -> (r: usize)
    ensures
        r as nat == iterations_of(s@),
        r >= 1,
{
    match parse_count(s) {
        Some(v) => if v >= 1 { v } else { DEFAULT_ITERATIONS },
        None => DEFAULT_ITERATIONS,
    }
}

/// Whether two strings hold the same characters.
fn same_text(a: &str, b: &str) -> (r: bool)
    ensures
        r == (a@ == b@),
{
    let n = a.unicode_len();
    if n != b.unicode_len() {
        return false;
    }
    let mut i: usize = 0;
    while i < n
        invariant
            n == a@.len(),
            n == b@.len(),
            i <= n,
            forall|j: int| 0 <= j < i ==> a@[j] == b@[j],
        decreases n - i,
    {
        if a.get_char(i) != b.get_char(i) {
            return false;
        }
        i = i + 1;
    }
    proof {
        assert(a@ =~= b@);
    }
    true
}

/// The mode that the token `s` names, if any.
pub fn parse_mode(s: &str) -> (r: Option<Mode>)
    ensures
        r == mode_of(s@),
{
    if same_text(s, "sync") {
        Some(Mode::Sync)
    } else if same_text(s, "async") {
        Some(Mode::Async)
    } else {
        None
    }
}

/// What the argument list (program name first) asks for.
pub fn parse_args(args: &Vec<String>) -> (c: Command)
    ensures
        c == command_of(args@),
        c matches Command::Run(cfg) ==> cfg.iterations >= 1,
{
    if args.len() < 2 {
        return Command::Usage;
    }
    match parse_mode(args[1].as_str()) {
        None => Command::InvalidMode,
        Some(mode) => {
            let iterations = if args.len() > 2 {
                parse_iterations(args[2].as_str())
            } else {
                DEFAULT_ITERATIONS
            };
            Command::Run(RunConfig { mode, iterations })
        },
    }
}

/// Parsing depends on the arguments' text alone: two argument lists with the
/// same text give the same command, hence the same mode and iteration count.
pub proof fn lemma_parse_deterministic(a: Seq<String>, b: Seq<String>)
    requires
        a.len() == b.len(),
        forall|i: int| 0 <= i < a.len() ==> a[i]@ == b[i]@,
    ensures
        command_of(a) == command_of(b),
{
    if a.len() >= 2 {
        assert(a[1]@ == b[1]@);
        if a.len() > 2 {
            assert(a[2]@ == b[2]@);
        }
    }
}

} // verus!
