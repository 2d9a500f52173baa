//! A program that does nothing but work, for profilers to look at.
use vstd::prelude::*;

use crate::text::{dec, quoted, quoted_text, same_text};

verus! {

/// What the program does.
#[derive(Clone, Copy, Debug, PartialEq, Eq, Structural)]
pub struct Config {
    pub seconds: u64,
    pub threads: usize,
    /// How deep the stacks are.
    pub depth: u32,
    /// After how many rounds a thread gives way; never where zero.
    pub yield_every: u64,
    /// How long it sleeps then, in microseconds.
    pub sleep_us: u64,
    /// Whether there is a stack helper.
    pub helper: bool,
}

/// What the program does unless it is told otherwise: two threads at most, and one
/// where there is one processor.
pub open spec fn default_config(parallelism: Option<usize>) -> Config {
    Config {
        seconds: 10,
        threads: match parallelism {
            Some(n) => if n < 1 {
                1
            } else if n > 2 {
                2
            } else {
                n
            },
            None => 2,
        },
        depth: 12,
        yield_every: 256,
        sleep_us: 1_000,
        helper: false,
    }
}

impl Config {
    /// What the program does unless it is told otherwise.
    pub fn with_parallelism(parallelism: Option<usize>) -> (c: Self)
        ensures
            c == default_config(parallelism),
    {
        let threads: usize = match parallelism {
            Some(n) => if n < 1 {
                1
            } else if n > 2 {
                2
            } else {
                n
            },
            None => 2,
        };
        Config { seconds: 10, threads, depth: 12, yield_every: 256, sleep_us: 1_000, helper: false }
    }
}

/// Why a text is no number.
#[derive(Clone, Copy, Debug, PartialEq, Eq, Structural)]
pub enum NumberError {
    Empty,
    InvalidDigit,
    TooLarge,
}

/// What is said of an error.
pub open spec fn number_error_text(e: NumberError) -> Seq<char> {
    match e {
        NumberError::Empty => "cannot parse integer from empty string"@,
        NumberError::InvalidDigit => "invalid digit found in string"@,
        NumberError::TooLarge => "number too large to fit in target type"@,
    }
}

impl NumberError {
    /// What is said of the error.
    pub fn message(&self) -> (s: &'static str)
        ensures
            s@ == number_error_text(*self),
    {
        match self {
            NumberError::Empty => "cannot parse integer from empty string",
            NumberError::InvalidDigit => "invalid digit found in string",
            NumberError::TooLarge => "number too large to fit in target type",
        }
    }
}

/// The value of a decimal digit.
pub open spec fn digit_value(c: char) -> Option<int> {
    if '0' <= c <= '9' {
        Some(c as int - '0' as int)
    } else {
        None
    }
}

/// The number that digits stand for, from `so_far` on, where all are digits and it is
/// no larger than `max`. The first digit that makes it too large, or is none, is the
/// error.
pub open spec fn digits_value(s: Seq<char>, so_far: int, max: int) -> Result<int, NumberError>
    decreases s.len(),
{
    if s.len() == 0 {
        Ok(so_far)
    } else {
        match digit_value(s[0]) {
            Some(d) => if so_far * 10 + d > max {
                Err(NumberError::TooLarge)
            } else {
                digits_value(s.skip(1), so_far * 10 + d, max)
            },
            None => Err(NumberError::InvalidDigit),
        }
    }
}

/// The number that a text stands for: digits, with or without a plus in front.
pub open spec fn number_in(s: Seq<char>, max: int) -> Result<int, NumberError> {
    if s.len() == 0 {
        Err(NumberError::Empty)
    } else if s[0] == '+' && s.len() > 1 {
        digits_value(s.skip(1), 0, max)
    } else {
        digits_value(s, 0, max)
    }
}

/// The value of a decimal digit.
fn digit_of(c: char) -> (d: Option<u64>)
    ensures
        match d {
            Some(d) => digit_value(c) == Some(d as int) && d < 10,
            None => digit_value(c) is None,
        },
{
    match c {
        '0' => Some(0),
        '1' => Some(1),
        '2' => Some(2),
        '3' => Some(3),
        '4' => Some(4),
        '5' => Some(5),
        '6' => Some(6),
        '7' => Some(7),
        '8' => Some(8),
        '9' => Some(9),
        _ => None,
    }
}

/// The number that a text stands for, no larger than `max`.
pub fn parse_number(s: &str, max: u64) -> (r: Result<u64, NumberError>)
    ensures
        match r {
            Ok(n) => number_in(s@, max as int) == Ok::<int, NumberError>(n as int),
            Err(e) => number_in(s@, max as int) == Err::<int, NumberError>(e),
        },
{
    let n: usize = s.unicode_len();
    if n == 0 {
        return Err(NumberError::Empty);
    }
    let mut i: usize = 0;
    if s.get_char(0) == '+' && n > 1 {
        i = 1;
    }
    let mut value: u64 = 0;
    let ghost whole = number_in(s@, max as int);
    assert(s@.skip(0) =~= s@);
    while i < n
        invariant
            n == s@.len(),
            i <= n,
            value <= max,
            whole == number_in(s@, max as int),
            whole == digits_value(s@.skip(i as int), value as int, max as int),
        decreases n - i,
    {
        assert(s@.skip(i as int)[0] == s@[i as int]);
        assert(s@.skip(i as int).skip(1) =~= s@.skip(i + 1));
        match digit_of(s.get_char(i)) {
            Some(d) => {
                if value > max / 10 {
                    assert(value * 10 > max);
                    return Err(NumberError::TooLarge);
                }
                let tens: u64 = value * 10;
                if d > max - tens {
                    return Err(NumberError::TooLarge);
                }
                value = tens + d;
            },
            None => {
                return Err(NumberError::InvalidDigit);
            },
        }
        i = i + 1;
    }
    Ok(value)
}

/// An option of the program.
#[derive(Clone, Copy, Debug, PartialEq, Eq, Structural)]
pub enum Flag {
    Seconds,
    Threads,
    Depth,
    YieldEvery,
    SleepUs,
    Helper,
    Help,
}

/// The option that an argument is.
pub open spec fn flag_of(arg: Seq<char>) -> Option<Flag> {
    if arg == "--seconds"@ {
        Some(Flag::Seconds)
    } else if arg == "--threads"@ {
        Some(Flag::Threads)
    } else if arg == "--depth"@ {
        Some(Flag::Depth)
    } else if arg == "--yield-every"@ {
        Some(Flag::YieldEvery)
    } else if arg == "--sleep-us"@ {
        Some(Flag::SleepUs)
    } else if arg == "--helper"@ {
        Some(Flag::Helper)
    } else if arg == "--help"@ || arg == "-h"@ {
        Some(Flag::Help)
    } else {
        None
    }
}

/// The option that an argument is.
fn flag(arg: &str) -> (f: Option<Flag>)
    ensures
        f == flag_of(arg@),
{
    if same_text(arg, "--seconds") {
        Some(Flag::Seconds)
    } else if same_text(arg, "--threads") {
        Some(Flag::Threads)
    } else if same_text(arg, "--depth") {
        Some(Flag::Depth)
    } else if same_text(arg, "--yield-every") {
        Some(Flag::YieldEvery)
    } else if same_text(arg, "--sleep-us") {
        Some(Flag::SleepUs)
    } else if same_text(arg, "--helper") {
        Some(Flag::Helper)
    } else if same_text(arg, "--help") || same_text(arg, "-h") {
        Some(Flag::Help)
    } else {
        None
    }
}

/// The largest number that an option takes.
pub open spec fn flag_max(f: Flag) -> u64 {
    match f {
        Flag::Threads => usize::MAX as u64,
        Flag::Depth => u32::MAX as u64,
        _ => u64::MAX,
    }
}

/// The settings after an option with a number. There is one thread at least.
pub open spec fn config_with(c: Config, f: Flag, n: u64) -> Config {
    match f {
        Flag::Seconds => Config { seconds: n, ..c },
        Flag::Threads => Config {
            threads: if n == 0 {
                1
            } else {
                n as usize
            },
            ..c
        },
        Flag::Depth => Config { depth: n as u32, ..c },
        Flag::YieldEvery => Config { yield_every: n, ..c },
        Flag::SleepUs => Config { sleep_us: n, ..c },
        _ => c,
    }
}

/// What is said of a value that is no number.
pub open spec fn bad_value_text(arg: Seq<char>, raw: Seq<char>, e: NumberError) -> Seq<char> {
    "invalid "@ + arg + " value "@ + quoted_text(raw) + ": "@ + number_error_text(e)
}

/// The settings after the arguments from `i` on, or what is said of them.
pub open spec fn config_from(args: Seq<String>, i: int, c: Config) -> Result<Config, Seq<char>>
    decreases args.len() - i,
{
    if i < 0 || i >= args.len() {
        Ok(c)
    } else {
        match flag_of(args[i]@) {
            None => Err("unknown argument "@ + quoted_text(args[i]@)),
            Some(Flag::Help) => Err(
                "stax-workload generates CPU and scheduler activity for stax"@,
            ),
            Some(Flag::Helper) => config_from(args, i + 1, Config { helper: true, ..c }),
            Some(f) => if i + 1 >= args.len() {
                Err(args[i]@ + " requires a value"@)
            } else {
                match number_in(args[i + 1]@, flag_max(f) as int) {
                    Ok(n) => config_from(args, i + 2, config_with(c, f, n as u64)),
                    Err(e) => Err(bad_value_text(args[i]@, args[i + 1]@, e)),
                }
            },
        }
    }
}

/// What is said of a value that is no number.
fn bad_value(arg: &str, raw: &str, e: NumberError) -> (s: String)
    ensures
        s@ == bad_value_text(arg@, raw@, e),
{
    let mut s = "invalid ".to_owned();
    s.append(arg);
    s.append(" value ");
    s.append(quoted(raw).as_str());
    s.append(": ");
    s.append(e.message());
    s
}

/// The settings that the arguments make, or what is said of them.
pub fn parse_args(args: &Vec<String>, parallelism: Option<usize>) -> (r: Result<Config, String>)
    ensures
        match r {
            Ok(c) => config_from(args@, 0, default_config(parallelism)) == Ok::<Config, Seq<char>>(
                c,
            ),
            Err(m) => config_from(args@, 0, default_config(parallelism)) == Err::<
                Config,
                Seq<char>,
            >(m@),
        },
{
    let mut c = Config::with_parallelism(parallelism);
    let ghost whole = config_from(args@, 0, default_config(parallelism));
    let mut i: usize = 0;
    while i < args.len()
        invariant
            i <= args@.len(),
            whole == config_from(args@, 0, default_config(parallelism)),
            whole == config_from(args@, i as int, c),
        decreases args@.len() - i,
    {
        let arg = args[i].as_str();
        match flag(arg) {
            None => {
                let mut m = "unknown argument ".to_owned();
                m.append(quoted(arg).as_str());
                return Err(m);
            },
            Some(Flag::Help) => {
                return Err(
                    "stax-workload generates CPU and scheduler activity for stax".to_owned(),
                );
            },
            Some(Flag::Helper) => {
                c.helper = true;
                i = i + 1;
            },
            Some(f) => {
                if i + 1 >= args.len() {
                    let mut m = arg.to_owned();
                    m.append(" requires a value");
                    return Err(m);
                }
                let raw = args[i + 1].as_str();
                let max: u64 = match f {
                    Flag::Threads => usize::MAX as u64,
                    Flag::Depth => u32::MAX as u64,
                    _ => u64::MAX,
                };
                let n: u64 = match parse_number(raw, max) {
                    Ok(n) => n,
                    Err(e) => {
                        return Err(bad_value(arg, raw, e));
                    },
                };
                proof {
                    lemma_number_fits(raw@, max as int);
                }
                match f {
                    Flag::Seconds => {
                        c.seconds = n;
                    },
                    Flag::Threads => {
                        c.threads = if n == 0 {
                            1
                        } else {
                            n as usize
                        };
                    },
                    Flag::Depth => {
                        c.depth = n as u32;
                    },
                    Flag::YieldEvery => {
                        c.yield_every = n;
                    },
                    Flag::SleepUs => {
                        c.sleep_us = n;
                    },
                    _ => {},
                }
                i = i + 2;
            },
        }
    }
    Ok(c)
}

/// A number that was found is no larger than allowed.
proof fn lemma_number_fits(s: Seq<char>, max: int)
    requires
        max >= 0,
    ensures
        number_in(s, max) matches Ok(n) ==> 0 <= n <= max,
{
    if s.len() > 0 {
        lemma_digits_fit(s, 0, max);
        lemma_digits_fit(s.skip(1), 0, max);
    }
}

/// The same of digits.
proof fn lemma_digits_fit(s: Seq<char>, so_far: int, max: int)
    requires
        0 <= so_far <= max,
    ensures
        digits_value(s, so_far, max) matches Ok(n) ==> 0 <= n <= max,
    decreases s.len(),
{
    if s.len() > 0 {
        match digit_value(s[0]) {
            Some(d) => {
                if so_far * 10 + d <= max {
                    lemma_digits_fit(s.skip(1), so_far * 10 + d, max);
                }
            },
            None => {},
        }
    }
}

/// The bits of `x`, moved up by `n`, those that leave at the top coming in below.
pub open spec fn rotl(x: u64, n: u64) -> u64 {
    (x << n) | (x >> ((64 - n) as u64))
}

/// The bits of `x`, moved up by `n`.
fn rotate_left(x: u64, n: u64) -> (r: u64)
    requires
        0 < n < 64,
    ensures
        r == rotl(x, n),
{
    (x << n) | (x >> (64 - n))
}

/// The bits of `x`, moved down by `n`, those that leave below coming in at the top.
pub open spec fn rotr(x: u64, n: u64) -> u64 {
    (x >> n) | (x << ((64 - n) as u64))
}

/// The bits of `x`, moved down by `n`.
fn rotate_right(x: u64, n: u64) -> (r: u64)
    requires
        0 < n < 64,
    ensures
        r == rotr(x, n),
{
    (x >> n) | (x << (64 - n))
}

/// A number, well stirred.
pub open spec fn mixed(value: u64) -> u64 {
    let a = (value ^ (value >> 30)).wrapping_mul(0xbf58_476d_1ce4_e5b9);
    let b = (a ^ (a >> 27)).wrapping_mul(0x94d0_49bb_1331_11eb);
    b ^ (b >> 31)
}

/// A number, well stirred.
pub fn mix(value: u64) -> (r: u64)
    ensures
        r == mixed(value),
{
    let a: u64 = (value ^ (value >> 30)).wrapping_mul(0xbf58_476d_1ce4_e5b9);
    let b: u64 = (a ^ (a >> 27)).wrapping_mul(0x94d0_49bb_1331_11eb);
    b ^ (b >> 31)
}

/// What comes of work on a stack `depth` deep.
pub open spec fn burned(seed: u64, depth: u32) -> u64
    decreases depth,
{
    if depth == 0 {
        mixed(seed)
    } else {
        let left = burned(rotl(seed, 7) ^ (depth as u64), (depth - 1) as u32);
        mixed(left ^ rotr(seed, (depth % 63 + 1) as u64))
    }
}

/// Works on a stack `depth` deep.
pub fn stack_burn(seed: u64, depth: u32) -> (r: u64)
    ensures
        r == burned(seed, depth),
    decreases depth,
{
    if depth == 0 {
        return mix(seed);
    }
    let left: u64 = stack_burn(rotate_left(seed, 7) ^ (depth as u64), depth - 1);
    mix(left ^ rotate_right(seed, (depth % 63 + 1) as u64))
}

/// A thread that works.
#[derive(Clone, Copy, Debug, PartialEq, Eq, Structural)]
pub struct Burner {
    pub seed: u64,
    pub iterations: u64,
}

/// What a thread does between two rounds.
#[derive(Clone, Copy, Debug, PartialEq, Eq, Structural)]
pub enum Pause {
    Nothing,
    Yield,
    /// It gives way, and sleeps so many microseconds.
    Sleep { us: u64 },
}

impl Burner {
    /// The thread numbered `worker_id` before its first round.
    pub fn new(worker_id: u64) -> (b: Self)
        ensures
            b == (Burner {
                seed: 0x9e37_79b9_7f4a_7c15u64 ^ rotl(worker_id, 17),
                iterations: 0,
            }),
    {
        Burner { seed: 0x9e37_79b9_7f4a_7c15u64 ^ rotate_left(worker_id, 17), iterations: 0 }
    }

    /// The thread after a round.
    pub open spec fn after_round(self, depth: u32) -> Burner {
        Burner {
            seed: self.seed ^ burned(self.seed.wrapping_add(self.iterations), depth),
            iterations: self.iterations.wrapping_add(1),
        }
    }

    /// Works for a round, and says what is done before the next.
    pub fn round(&mut self, config: &Config) -> (p: Pause)
        ensures
            *final(self) == old(self).after_round(config.depth),
            p == (if config.yield_every != 0 && final(self).iterations % config.yield_every == 0 {
                if config.sleep_us != 0 {
                    Pause::Sleep { us: config.sleep_us }
                } else {
                    Pause::Yield
                }
            } else {
                Pause::Nothing
            }),
    {
        let out: u64 = stack_burn(self.seed.wrapping_add(self.iterations), config.depth);
        self.seed = self.seed ^ out;
        self.iterations = self.iterations.wrapping_add(1);
        if config.yield_every != 0 && self.iterations % config.yield_every == 0 {
            if config.sleep_us != 0 {
                Pause::Sleep { us: config.sleep_us }
            } else {
                Pause::Yield
            }
        } else {
            Pause::Nothing
        }
    }

    /// What the thread comes to.
    pub fn checksum(&self) -> (c: u64)
        ensures
            c == self.seed ^ self.iterations,
    {
        self.seed ^ self.iterations
    }
}

/// One more digit behind a number.
proof fn lemma_one_more_digit(s: Seq<char>, c: char, so_far: int, max: int)
    ensures
        digits_value(s.push(c), so_far, max) == (match digits_value(s, so_far, max) {
            Ok(m) => match digit_value(c) {
                Some(d) => if m * 10 + d > max {
                    Err::<int, NumberError>(NumberError::TooLarge)
                } else {
                    Ok(m * 10 + d)
                },
                None => Err(NumberError::InvalidDigit),
            },
            Err(e) => Err(e),
        }),
    decreases s.len(),
{
    let t = s.push(c);
    if s.len() == 0 {
        assert(t[0] == c);
        assert(t.skip(1) =~= seq![]);
        reveal_with_fuel(digits_value, 2);
    } else {
        assert(t[0] == s[0]);
        assert(t.skip(1) =~= s.skip(1).push(c));
        match digit_value(s[0]) {
            Some(d) => {
                lemma_one_more_digit(s.skip(1), c, so_far * 10 + d, max);
            },
            None => {},
        }
    }
}

proof fn lemma_digits_of_decimals(n: nat, max: int)
    requires
        max >= 0,
    ensures
        n <= max ==> digits_value(dec(n), 0, max) == Ok::<int, NumberError>(n as int),
        n > max ==> digits_value(dec(n), 0, max) == Err::<int, NumberError>(NumberError::TooLarge),
        dec(n).len() > 0,
        dec(n)[0] != '+',
    decreases n,
{
    let none = Seq::<char>::empty();
    let d = crate::text::digit_char((n % 10) as nat);
    assert(digit_value(d) == Some((n % 10) as int));
    if n < 10 {
        assert(dec(n) =~= none.push(d));
        lemma_one_more_digit(none, d, 0, max);
    } else {
        lemma_digits_of_decimals(n / 10, max);
        lemma_one_more_digit(dec(n / 10), d, 0, max);
        assert(dec(n)[0] == dec(n / 10)[0]);
    }
}

/// The law of numbers: one that is written in decimal is read back where it fits, with or without a
/// plus sign in front of it, and refused as too large where it does not fit.
pub proof fn written_numbers_are_read(n: nat, max: u64)
    ensures
        n <= max ==> number_in(dec(n), max as int) == Ok::<int, NumberError>(n as int),
        n <= max ==> number_in(seq!['+'] + dec(n), max as int) == Ok::<int, NumberError>(n as int),
        n > max ==> number_in(dec(n), max as int) == Err::<int, NumberError>(NumberError::TooLarge),
{
    lemma_digits_of_decimals(n, max as int);
    assert((seq!['+'] + dec(n)).skip(1) =~= dec(n));
}

/// The law of other text: nothing is no number, nor is what a character that is no digit follows on
/// digits in.
pub proof fn other_text_is_no_number(n: nat, c: char, rest: Seq<char>, max: u64)
    requires
        n <= max,
        !('0' <= c && c <= '9'),
    ensures
        number_in(dec(n).push(c) + rest, max as int) == Err::<int, NumberError>(
            NumberError::InvalidDigit,
        ),
        number_in(seq![], max as int) == Err::<int, NumberError>(NumberError::Empty),
    decreases rest.len(),
{
    lemma_digits_of_decimals(n, max as int);
    let head = dec(n).push(c);
    if rest.len() == 0 {
        assert(head + rest =~= head);
        lemma_one_more_digit(dec(n), c, 0, max as int);
    } else {
        other_text_is_no_number(n, c, rest.drop_last(), max);
        assert(head + rest =~= (head + rest.drop_last()).push(rest.last()));
        lemma_one_more_digit(head + rest.drop_last(), rest.last(), 0, max as int);
    }
    assert((head + rest)[0] == dec(n)[0]);
}

/// The flags that there are.
proof fn lemma_flags(a: Seq<char>)
    ensures
        a == "--seconds"@ ==> flag_of(a) == Some(Flag::Seconds),
        a == "--threads"@ ==> flag_of(a) == Some(Flag::Threads),
        a == "--depth"@ ==> flag_of(a) == Some(Flag::Depth),
        a == "--yield-every"@ ==> flag_of(a) == Some(Flag::YieldEvery),
        a == "--sleep-us"@ ==> flag_of(a) == Some(Flag::SleepUs),
        a == "--helper"@ ==> flag_of(a) == Some(Flag::Helper),
        a == "--help"@ || a == "-h"@ ==> flag_of(a) == Some(Flag::Help),
{
    reveal_strlit("--seconds");
    reveal_strlit("--threads");
    reveal_strlit("--depth");
    reveal_strlit("--yield-every");
    reveal_strlit("--sleep-us");
    reveal_strlit("--helper");
    reveal_strlit("--help");
    reveal_strlit("-h");
    assert("--seconds"@.len() == 9 && "--threads"@.len() == 9);
    assert("--depth"@.len() == 7 && "--yield-every"@.len() == 13);
    assert("--sleep-us"@.len() == 10 && "--helper"@.len() == 8);
    assert("--help"@.len() == 6 && "-h"@.len() == 2);
    assert("--seconds"@[2] == 's' && "--threads"@[2] == 't');
}

/// The law of options: each sets what it names to the number behind it, and nothing else; what comes
/// later wins.
#[verifier::spinoff_prover]
#[verifier::rlimit(40)]
pub proof fn options_set_what_they_name(args: Seq<String>, i: int, c: Config, n: u64)
    requires
        0 <= i,
        i + 1 < args.len(),
        args[i + 1]@ == dec(n as nat),
    ensures
        args[i]@ == "--seconds"@ ==> config_from(args, i, c) == config_from(
            args,
            i + 2,
            Config { seconds: n, ..c },
        ),
        args[i]@ == "--threads"@ && n <= usize::MAX ==> config_from(args, i, c) == config_from(
            args,
            i + 2,
            Config {
                threads: if n == 0 {
                    1
                } else {
                    n as usize
                },
                ..c
            },
        ),
        args[i]@ == "--depth"@ && n <= u32::MAX ==> config_from(args, i, c) == config_from(
            args,
            i + 2,
            Config { depth: n as u32, ..c },
        ),
        args[i]@ == "--yield-every"@ ==> config_from(args, i, c) == config_from(
            args,
            i + 2,
            Config { yield_every: n, ..c },
        ),
        args[i]@ == "--sleep-us"@ ==> config_from(args, i, c) == config_from(
            args,
            i + 2,
            Config { sleep_us: n, ..c },
        ),
        args[i]@ == "--helper"@ ==> config_from(args, i, c) == config_from(
            args,
            i + 1,
            Config { helper: true, ..c },
        ),
        args[i]@ == "--help"@ || args[i]@ == "-h"@ ==> config_from(args, i, c) is Err,
        args[i]@ == "--depth"@ && n > u32::MAX ==> config_from(args, i, c) is Err,
        config_from(args, args.len() as int, c) == Ok::<Config, Seq<char>>(c),
{
    written_numbers_are_read(n as nat, u64::MAX);
    written_numbers_are_read(n as nat, u32::MAX as u64);
    written_numbers_are_read(n as nat, usize::MAX as u64);
    lemma_flags(args[i]@);
}

/// The law of default settings: one or two threads, as many as the machine runs at once.
pub proof fn default_threads_fit_the_machine(n: usize)
    ensures
        default_config(None).threads == 2,
        n >= 2 ==> default_config(Some(n)).threads == 2,
        n <= 1 ==> default_config(Some(n)).threads == 1,
        default_config(Some(n)).seconds == 10,
        default_config(Some(n)).depth == 12,
        default_config(Some(n)).yield_every == 256,
        default_config(Some(n)).sleep_us == 1_000,
        !default_config(Some(n)).helper,
        default_config(None).seconds == 10,
        default_config(None).depth == 12,
        default_config(None).yield_every == 256,
        default_config(None).sleep_us == 1_000,
        !default_config(None).helper,
{
}

} // verus!
