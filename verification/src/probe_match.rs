//! Arithmetic and stack comparison behind the pairing of samples with probes.
use vstd::arithmetic::div_mod::lemma_div_is_ordered;
use vstd::prelude::*;

verus! {

/// How far apart a sample and a probe may lie and still be a pair.
pub const PROBE_PAIR_WINDOW_NS: u64 = 600_000;

/// The ratio between a machine's clock ticks and nanoseconds.
#[derive(Clone, Copy, Debug, PartialEq, Eq, Structural)]
pub struct Timebase {
    pub numer: u32,
    pub denom: u32,
}

/// The ratio that a clock reports as (`numer`, `denom`). A clock that reports no
/// denominator is taken to tick in nanoseconds.
pub fn mach_timebase_numer_denom(numer: u32, denom: u32) -> (tb: Timebase)
    ensures
        tb == (if denom == 0 {
            Timebase { numer: 1, denom: 1 }
        } else {
            Timebase { numer, denom }
        }),
{
    if denom == 0 {
        Timebase { numer: 1, denom: 1 }
    } else {
        Timebase { numer, denom }
    }
}

/// The quotient of `a` by `b`, rounded towards zero.
pub open spec fn div_towards_zero(a: int, b: int) -> int {
    if a >= 0 {
        a / b
    } else {
        -((-a) / b)
    }
}

/// `ticks` of the clock in nanoseconds, rounded towards zero.
pub open spec fn ns_of_ticks(tb: Timebase, ticks: int) -> int {
    if tb.denom == 0 {
        ticks
    } else {
        div_towards_zero(ticks * tb.numer, tb.denom as int)
    }
}

/// A signed number of ticks whose nanoseconds are known to fit.
pub open spec fn is_tick_difference(ticks: int) -> bool {
    -(u64::MAX as int) <= ticks <= u64::MAX
}

/// `ticks` of the clock in nanoseconds, rounded towards zero.
pub fn ticks_to_ns(tb: Timebase, ticks: i128) -> (ns: i128)
    requires
        is_tick_difference(ticks as int),
    ensures
        ns == ns_of_ticks(tb, ticks as int),
        tb.denom != 0 ==> -(u64::MAX * u32::MAX) <= ns <= u64::MAX * u32::MAX,
        tb.denom == 0 ==> ns == ticks,
{
    if tb.denom == 0 {
        ticks
    } else {
        let n: i128 = tb.numer as i128;
        let d: i128 = tb.denom as i128;
        let negative = ticks < 0;
        let magnitude: i128 = if negative {
            -ticks
        } else {
            ticks
        };
        assert(0 <= magnitude * n <= u64::MAX * u32::MAX) by (nonlinear_arith)
            requires
                0 <= magnitude <= u64::MAX,
                0 <= n <= u32::MAX,
        ;
        let product: i128 = magnitude * n;
        let quotient: i128 = product / d;
        assert(0 <= quotient <= product) by (nonlinear_arith)
            requires
                quotient == product / d,
                d >= 1,
                product >= 0,
        ;
        if negative {
            assert(ticks * tb.numer == -(magnitude * n)) by (nonlinear_arith)
                requires
                    magnitude == -ticks,
                    n == tb.numer,
            ;
            if product == 0 {
                assert(quotient == 0);
            }
            -quotient
        } else {
            quotient
        }
    }
}

/// The nanoseconds from `earlier` to `later`: none if `later` is the earlier one,
/// and at most what fits.
pub open spec fn elapsed_ns(tb: Timebase, later: u64, earlier: u64) -> u64 {
    if later < earlier {
        0
    } else {
        let ns = ns_of_ticks(tb, later - earlier);
        if ns > u64::MAX {
            u64::MAX
        } else {
            ns as u64
        }
    }
}

/// The nanoseconds from `earlier` to `later`.
pub fn elapsed_ticks_to_ns(tb: Timebase, later: u64, earlier: u64) -> (ns: u64)
    ensures
        ns == elapsed_ns(tb, later, earlier),
{
    if later < earlier {
        return 0;
    }
    let ns: i128 = ticks_to_ns(tb, later as i128 - earlier as i128);
    assert(ns >= 0) by {
        lemma_ns_nonnegative(tb, later - earlier);
    }
    if ns > u64::MAX as i128 {
        u64::MAX
    } else {
        ns as u64
    }
}

/// A nonnegative number of ticks is a nonnegative number of nanoseconds.
proof fn lemma_ns_nonnegative(tb: Timebase, ticks: int)
    requires
        ticks >= 0,
    ensures
        ns_of_ticks(tb, ticks) >= 0,
{
    if tb.denom != 0 {
        assert(ticks * tb.numer >= 0) by (nonlinear_arith)
            requires
                ticks >= 0,
        ;
        assert((ticks * tb.numer) / (tb.denom as int) >= 0) by (nonlinear_arith)
            requires
                ticks * tb.numer >= 0,
                tb.denom > 0,
        ;
    }
}

/// The nanoseconds between two instants, of which zero stands for "not taken".
pub open spec fn elapsed_ns_if_set(tb: Timebase, later: u64, earlier: u64) -> u64 {
    if later == 0 || earlier == 0 {
        0
    } else {
        elapsed_ns(tb, later, earlier)
    }
}

/// The nanoseconds between two instants, of which zero stands for "not taken".
pub fn elapsed_ticks_to_ns_if_set(tb: Timebase, later: u64, earlier: u64) -> (ns: u64)
    ensures
        ns == elapsed_ns_if_set(tb, later, earlier),
{
    if later == 0 || earlier == 0 {
        0
    } else {
        elapsed_ticks_to_ns(tb, later, earlier)
    }
}

/// The distance between two instants in nanoseconds, at most what fits.
pub open spec fn tick_distance_ns(tb: Timebase, a: u64, b: u64) -> u64 {
    if a >= b {
        elapsed_ns(tb, a, b)
    } else {
        elapsed_ns(tb, b, a)
    }
}

/// The distance between two instants in nanoseconds.
pub fn abs_tick_delta_ns(tb: Timebase, a: u64, b: u64) -> (ns: u64)
    ensures
        ns == tick_distance_ns(tb, a, b),
{
    if a >= b {
        elapsed_ticks_to_ns(tb, a, b)
    } else {
        elapsed_ticks_to_ns(tb, b, a)
    }
}

/// The distance is the magnitude of the signed difference, rounded the same way
/// on both sides of zero.
pub proof fn tick_distance_is_magnitude(tb: Timebase, a: u64, b: u64)
    ensures
        ({
            let signed = ns_of_ticks(tb, a - b);
            let magnitude = if signed < 0 {
                -signed
            } else {
                signed
            };
            tick_distance_ns(tb, a, b) == (if magnitude > u64::MAX {
                u64::MAX as int
            } else {
                magnitude
            })
        }),
{
    lemma_ns_nonnegative(tb, a - b + (if a < b { 2 * (b - a) } else { 0 }));
    if tb.denom != 0 {
        let d = b - a;
        assert(d * tb.numer == -((-d) * tb.numer)) by (nonlinear_arith);
        assert((a - b) * tb.numer == -((b - a) * tb.numer)) by (nonlinear_arith);
        if a < b {
            assert((b - a) * tb.numer >= 0) by (nonlinear_arith)
                requires
                    a < b,
            ;
            if (b - a) * tb.numer == 0 {
                assert(0int / (tb.denom as int) == 0) by (nonlinear_arith)
                    requires
                        tb.denom > 0,
                ;
            }
        }
    }
}

/// Instants further away on the same side are at least as distant.
pub proof fn tick_distance_grows(tb: Timebase, from: u64, near: u64, far: u64)
    requires
        (from <= near <= far) || (far <= near <= from),
    ensures
        tick_distance_ns(tb, near, from) <= tick_distance_ns(tb, far, from),
{
    let x = if from <= near {
        near - from
    } else {
        from - near
    };
    let y = if from <= far {
        far - from
    } else {
        from - far
    };
    assert(0 <= x <= y);
    lemma_ns_nonnegative(tb, x);
    lemma_ns_nonnegative(tb, y);
    if tb.denom != 0 {
        assert(x * tb.numer <= y * tb.numer) by (nonlinear_arith)
            requires
                x <= y,
        ;
        assert(0 <= x * tb.numer && 0 <= y * tb.numer) by (nonlinear_arith)
            requires
                0 <= x,
                0 <= y,
        ;
        lemma_div_is_ordered(x * tb.numer, y * tb.numer, tb.denom as int);
    }
}

/// The distance is symmetric.
pub proof fn tick_distance_is_symmetric(tb: Timebase, a: u64, b: u64)
    ensures
        tick_distance_ns(tb, a, b) == tick_distance_ns(tb, b, a),
{
}

/// The `n` frames of `a` from `i` on are those of `b` from `j` on.
pub open spec fn is_common_run(a: Seq<u64>, b: Seq<u64>, i: int, j: int, n: int) -> bool {
    &&& 0 <= i
    &&& 0 <= j
    &&& 0 <= n
    &&& i + n <= a.len()
    &&& j + n <= b.len()
    &&& a.subrange(i, i + n) == b.subrange(j, j + n)
}

/// `n` is the length of the longest stretch of frames that `a` and `b` share.
pub open spec fn is_longest_common_run(a: Seq<u64>, b: Seq<u64>, n: int) -> bool {
    &&& exists|i: int, j: int| #[trigger] is_common_run(a, b, i, j, n)
    &&& forall|i: int, j: int, m: int| #[trigger] is_common_run(a, b, i, j, m) ==> m <= n
}

/// The length of the longest stretch of frames that `a` and `b` share.
pub open spec fn common_run(a: Seq<u64>, b: Seq<u64>) -> int {
    choose|n: int| is_longest_common_run(a, b, n)
}

/// The longest shared stretch has one length.
pub proof fn common_run_is_unique(a: Seq<u64>, b: Seq<u64>, n: int)
    requires
        is_longest_common_run(a, b, n),
    ensures
        common_run(a, b) == n,
{
    let m = common_run(a, b);
    assert(is_longest_common_run(a, b, m));
    let (i, j) = choose|i: int, j: int| #[trigger] is_common_run(a, b, i, j, n);
    let (p, q) = choose|p: int, q: int| #[trigger] is_common_run(a, b, p, q, m);
    assert(n <= m && m <= n);
}

/// The length of the stretch of equal frames that starts at `i` in `a` and at `j`
/// in `b`.
fn run_length_at(a: &[u64], b: &[u64], i: usize, j: usize) -> (k: usize)
    requires
        i <= a@.len(),
        j <= b@.len(),
    ensures
        is_common_run(a@, b@, i as int, j as int, k as int),
        forall|m: int| #[trigger] is_common_run(a@, b@, i as int, j as int, m) ==> m <= k,
{
    let mut k: usize = 0;
    assert(a@.subrange(i as int, i as int) =~= b@.subrange(j as int, j as int));
    while k < a.len() - i && k < b.len() - j && a[i + k] == b[j + k]
        invariant
            i <= a@.len(),
            j <= b@.len(),
            k <= a@.len() - i,
            k <= b@.len() - j,
            a@.subrange(i as int, i + k) == b@.subrange(j as int, j + k),
        decreases a@.len() - i - k,
    {
        assert(a@.subrange(i as int, i + k + 1) =~= a@.subrange(i as int, i + k).push(a@[i + k]));
        assert(b@.subrange(j as int, j + k + 1) =~= b@.subrange(j as int, j + k).push(b@[j + k]));
        k = k + 1;
    }
    proof {
        assert forall|m: int| #[trigger] is_common_run(a@, b@, i as int, j as int, m) implies m <= k by {
            if m > k {
                assert(a@.subrange(i as int, i + m)[k as int] == b@.subrange(j as int, j + m)[k as int]);
            }
        }
    }
    k
}

/// The length of the longest stretch of frames that `a` and `b` share.
pub fn longest_common_run(a: &[u64], b: &[u64]) -> (n: usize)
    ensures
        is_longest_common_run(a@, b@, n as int),
        n == common_run(a@, b@),
        n <= a@.len(),
        n <= b@.len(),
{
    let mut best: usize = 0;
    let mut i: usize = 0;
    assert(a@.subrange(0, 0) =~= b@.subrange(0, 0));
    assert(is_common_run(a@, b@, 0, 0, 0));
    while i < a.len()
        invariant
            i <= a@.len(),
            exists|p: int, q: int| #[trigger] is_common_run(a@, b@, p, q, best as int),
            forall|p: int, q: int, m: int|
                p < i && #[trigger] is_common_run(a@, b@, p, q, m) ==> m <= best,
        decreases a@.len() - i,
    {
        let mut j: usize = 0;
        while j < b.len()
            invariant
                i < a@.len(),
                j <= b@.len(),
                exists|p: int, q: int| #[trigger] is_common_run(a@, b@, p, q, best as int),
                forall|p: int, q: int, m: int|
                    p < i && #[trigger] is_common_run(a@, b@, p, q, m) ==> m <= best,
                forall|q: int, m: int|
                    q < j && #[trigger] is_common_run(a@, b@, i as int, q, m) ==> m <= best,
            decreases b@.len() - j,
        {
            let k: usize = run_length_at(a, b, i, j);
            if k > best {
                best = k;
            }
            j = j + 1;
        }
        i = i + 1;
    }
    proof {
        common_run_is_unique(a@, b@, best as int);
    }
    best
}

/// The call stack of a probe, callee first: the interrupted instruction, the
/// return address where the walk does not already start with it, and the walk.
pub open spec fn probe_stack(pc: u64, lr: u64, walked: Seq<u64>) -> Seq<u64> {
    if lr != 0 && lr != pc && !(walked.len() > 0 && walked[0] == lr) {
        seq![pc, lr] + walked
    } else {
        seq![pc] + walked
    }
}

/// The call stack of a probe, callee first.
pub fn logical_probe_stack(pc: u64, lr: u64, walked: &[u64]) -> (stack: Vec<u64>)
    ensures
        stack@ == probe_stack(pc, lr, walked@),
{
    let mut stack: Vec<u64> = Vec::new();
    stack.push(pc);
    if lr != 0 && lr != pc && !(walked.len() > 0 && walked[0] == lr) {
        stack.push(lr);
    }
    let ghost head = stack@;
    stack.extend_from_slice(walked);
    assert(stack@ =~= head + walked@);
    assert(stack@ =~= probe_stack(pc, lr, walked@));
    stack
}

/// The law of the clock: the nanoseconds of some ticks are their number times the ratio, rounded
/// towards zero; backwards it is as long as forwards.
pub proof fn ticks_are_scaled(tb: Timebase, ticks: int)
    requires
        tb.denom != 0,
        ticks >= 0,
    ensures
        ns_of_ticks(tb, ticks) * tb.denom <= ticks * tb.numer < (ns_of_ticks(tb, ticks) + 1)
            * tb.denom,
        ns_of_ticks(tb, -ticks) == -ns_of_ticks(tb, ticks),
{
    let a = ticks * tb.numer;
    let b = tb.denom as int;
    assert(a >= 0) by (nonlinear_arith)
        requires
            a == ticks * tb.numer,
            ticks >= 0,
    ;
    assert((-ticks) * tb.numer == -a) by (nonlinear_arith)
        requires
            a == ticks * tb.numer,
    ;
    vstd::arithmetic::div_mod::lemma_fundamental_div_mod(a, b);
    assert((a / b) * b <= a < (a / b + 1) * b) by (nonlinear_arith)
        requires
            b > 0,
            a == b * (a / b) + a % b,
            0 <= a % b < b,
    ;
    if a == 0 {
        assert(0int / b == 0) by (nonlinear_arith)
            requires
                b > 0,
        ;
    }
}

/// The law of a plain clock: where a tick is a nanosecond, distances are differences.
pub proof fn plain_ticks_are_nanoseconds(tb: Timebase, a: u64, b: u64)
    requires
        tb.numer == 1,
        tb.denom == 1,
    ensures
        a >= b ==> elapsed_ns(tb, a, b) == a - b,
        a < b ==> elapsed_ns(tb, a, b) == 0,
        a >= b ==> tick_distance_ns(tb, a, b) == a - b,
        a < b ==> tick_distance_ns(tb, a, b) == b - a,
        a != 0 && b != 0 ==> elapsed_ns_if_set(tb, a, b) == elapsed_ns(tb, a, b),
        a == 0 || b == 0 ==> elapsed_ns_if_set(tb, a, b) == 0,
{
    assert(forall|x: int| #[trigger] (x * 1) == x);
    assert((a - b) / 1 == a - b && (b - a) / 1 == b - a);
}

/// The law of probe stacks: the interrupted instruction comes first and the walk last; the return
/// address stands between them only where it is known and the walk does not begin with it.
pub proof fn probe_stacks_begin_at_the_instruction(pc: u64, lr: u64, walked: Seq<u64>)
    ensures
        probe_stack(pc, lr, walked)[0] == pc,
        probe_stack(pc, lr, walked).len() >= walked.len() + 1,
        walked.is_suffix_of(probe_stack(pc, lr, walked)),
        lr == 0 || lr == pc || (walked.len() > 0 && walked[0] == lr) ==> probe_stack(
            pc,
            lr,
            walked,
        ).len() == walked.len() + 1,
        !(lr == 0 || lr == pc || (walked.len() > 0 && walked[0] == lr)) ==> probe_stack(
            pc,
            lr,
            walked,
        ).len() == walked.len() + 2 && probe_stack(pc, lr, walked)[1] == lr,
{
    let s = probe_stack(pc, lr, walked);
    assert(walked =~= s.subrange(s.len() - walked.len(), s.len() as int));
}

} // verus!
