//! Which samples and intervals a view takes into account.
use vstd::prelude::*;

use crate::binaries::{opt_symbol, BinaryRegistry};
use crate::symbol_groups::{classify, label_at, NameView};
use crate::text::{opt_text, same_text};
use crate::timeline::since;

verus! {

/// A stretch of time, counted from the start of the recording.
#[derive(Clone, Copy, Debug, PartialEq, Eq, Structural)]
pub struct TimeRange {
    pub start_ns: u64,
    pub end_ns: u64,
}

/// A symbol as a view names it.
pub struct SymbolRef {
    pub function_name: Option<String>,
    pub binary: Option<String>,
}

/// Which samples and intervals a view takes into account.
pub struct LiveFilter {
    pub time_range: Option<TimeRange>,
    pub exclude_symbols: Vec<SymbolRef>,
}

/// The filter lets everything pass.
pub open spec fn lets_all_pass(f: LiveFilter) -> bool {
    f.time_range is None && f.exclude_symbols@.len() == 0
}

/// Whether the filter lets everything pass.
pub fn is_filter_empty(filter: &LiveFilter) -> (r: bool)
    ensures
        r == lets_all_pass(*filter),
{
    filter.time_range.is_none() && filter.exclude_symbols.len() == 0
}

/// The instant lies in the range.
pub open spec fn in_time_range(r: Option<TimeRange>, start: u64, t: u64) -> bool {
    match r {
        Some(r) => r.start_ns <= since(start, t) < r.end_ns,
        None => true,
    }
}

/// Whether the instant lies in the range.
pub fn is_in_time_range(r: &Option<TimeRange>, start: u64, t: u64) -> (ok: bool)
    ensures
        ok == in_time_range(*r, start, t),
{
    match r {
        Some(r) => {
            let rel: u64 = t.saturating_sub(start);
            r.start_ns <= rel && rel < r.end_ns
        },
        None => true,
    }
}

/// The symbol is the one that the view names.
pub open spec fn names_symbol(r: SymbolRef, name: NameView) -> bool {
    match name {
        Some(n) => opt_text(r.function_name) == Some(n.0) && opt_text(r.binary) == Some(n.1),
        None => r.function_name is None && r.binary is None,
    }
}

/// One of the symbols is the one at `address`.
pub open spec fn is_excluded(bins: BinaryRegistry, ex: Seq<SymbolRef>, address: u64) -> bool {
    exists|i: int| 0 <= i < ex.len() && names_symbol(#[trigger] ex[i], label_at(bins, address).name)
}

/// Something recorded at `t` with this stack passes: its time is in range, and no
/// excluded symbol is on its stack.
pub open spec fn passes(
    f: LiveFilter,
    start: u64,
    bins: BinaryRegistry,
    t: u64,
    stack: Seq<u64>,
) -> bool {
    &&& in_time_range(f.time_range, start, t)
    &&& forall|i: int|
        0 <= i < stack.len() ==> !is_excluded(bins, f.exclude_symbols@, #[trigger] stack[i])
}

/// Whether one of the symbols is the one at `address`.
fn excludes(bins: &BinaryRegistry, ex: &Vec<SymbolRef>, address: u64) -> (r: bool)
    requires
        bins.wf(),
    ensures
        r == is_excluded(*bins, ex@, address),
{
    let label = classify(bins, address);
    let mut i: usize = 0;
    while i < ex.len()
        invariant
            i <= ex@.len(),
            label@ == label_at(*bins, address),
            forall|j: int|
                0 <= j < i ==> !names_symbol(#[trigger] ex@[j], label_at(*bins, address).name),
        decreases ex@.len() - i,
    {
        let e = &ex[i];
        let hit = match (&label.name, &e.function_name, &e.binary) {
            (Some(n), Some(f), Some(b)) => same_text(n.function_name.as_str(), f.as_str())
                && same_text(n.binary.as_str(), b.as_str()),
            (None, None, None) => true,
            _ => false,
        };
        assert(hit == names_symbol(ex@[i as int], label_at(*bins, address).name));
        if hit {
            return true;
        }
        i = i + 1;
    }
    false
}

/// Whether something recorded at `timestamp` with this stack passes.
pub fn passes_filter(
    filter: &LiveFilter,
    session_start_ns: u64,
    bins: &BinaryRegistry,
    timestamp: u64,
    stack: &[u64],
) -> (r: bool)
    requires
        bins.wf(),
    ensures
        r == passes(*filter, session_start_ns, *bins, timestamp, stack@),
{
    if !is_in_time_range(&filter.time_range, session_start_ns, timestamp) {
        return false;
    }
    if filter.exclude_symbols.len() == 0 {
        return true;
    }
    let mut i: usize = 0;
    while i < stack.len()
        invariant
            bins.wf(),
            i <= stack@.len(),
            forall|j: int|
                0 <= j < i ==> !is_excluded(*bins, filter.exclude_symbols@, #[trigger] stack@[j]),
        decreases stack@.len() - i,
    {
        if excludes(bins, &filter.exclude_symbols, stack[i]) {
            return false;
        }
        i = i + 1;
    }
    true
}

/// A filter that is empty lets everything pass.
pub proof fn empty_filter_lets_all_pass(
    f: LiveFilter,
    start: u64,
    bins: BinaryRegistry,
    t: u64,
    stack: Seq<u64>,
)
    requires
        lets_all_pass(f),
    ensures
        passes(f, start, bins, t, stack),
{
}

/// Whether a version has not been published yet; it counts as published then.
pub fn should_publish_revision(current: u64, last_seen: &mut Option<u64>) -> (r: bool)
    ensures
        *final(last_seen) == Some(current),
        r == (*old(last_seen) != Some(current)),
{
    match *last_seen {
        Some(last) => {
            if last == current {
                return false;
            }
        },
        None => {},
    }
    *last_seen = Some(current);
    true
}

/// The law of time ranges: an instant counts from the start of the recording, the start of the range
/// belongs to it and its end does not. An instant in front of the recording counts as its start.
pub proof fn ranges_hold_their_start(r: TimeRange, start: u64, t: u64)
    ensures
        start <= t ==> in_time_range(Some(r), start, t) == (start + r.start_ns <= t && t < start
            + r.end_ns),
        t < start ==> in_time_range(Some(r), start, t) == (r.start_ns == 0 && r.end_ns > 0),
        in_time_range(None, start, t),
{
}

/// The law of excluded symbols: a stack with an address in a symbol that is named by its function and
/// its binary does not pass, wherever on the stack it is.
pub proof fn excluded_symbols_hide_their_stacks(
    f: LiveFilter,
    start: u64,
    bins: BinaryRegistry,
    t: u64,
    stack: Seq<u64>,
    i: int,
    k: int,
)
    requires
        0 <= i < stack.len(),
        0 <= k < f.exclude_symbols@.len(),
        f.exclude_symbols@[k].function_name is Some,
        f.exclude_symbols@[k].binary is Some,
        label_at(bins, stack[i]).name == Some(
            (f.exclude_symbols@[k].function_name->0@, f.exclude_symbols@[k].binary->0@),
        ),
    ensures
        !passes(f, start, bins, t, stack),
{
    assert(names_symbol(f.exclude_symbols@[k], label_at(bins, stack[i]).name));
    assert(is_excluded(bins, f.exclude_symbols@, stack[i]));
}

/// The law of stacks that pass: where no excluded symbol is that of an address on the stack, only the
/// time decides.
pub proof fn other_stacks_pass(
    f: LiveFilter,
    start: u64,
    bins: BinaryRegistry,
    t: u64,
    stack: Seq<u64>,
)
    requires
        forall|i: int, k: int|
            #![trigger stack[i], f.exclude_symbols@[k]]
            0 <= i < stack.len() && 0 <= k < f.exclude_symbols@.len() && label_at(
                bins,
                stack[i],
            ).name is Some ==> f.exclude_symbols@[k].function_name is None
                || f.exclude_symbols@[k].binary is None
                || f.exclude_symbols@[k].function_name->0@ != (label_at(bins, stack[i]).name->0).0
                || f.exclude_symbols@[k].binary->0@ != (label_at(bins, stack[i]).name->0).1,
        forall|i: int, k: int|
            #![trigger stack[i], f.exclude_symbols@[k]]
            0 <= i < stack.len() && 0 <= k < f.exclude_symbols@.len() && label_at(
                bins,
                stack[i],
            ).name is None ==> f.exclude_symbols@[k].function_name is Some
                || f.exclude_symbols@[k].binary is Some,
    ensures
        passes(f, start, bins, t, stack) == (match f.time_range {
            None => true,
            Some(r) => if start <= t {
                start + r.start_ns <= t && t < start + r.end_ns
            } else {
                r.start_ns == 0 && r.end_ns > 0
            },
        }),
{
    assert forall|i: int| 0 <= i < stack.len() implies !is_excluded(
        bins,
        f.exclude_symbols@,
        #[trigger] stack[i],
    ) by {
        assert forall|k: int| 0 <= k < f.exclude_symbols@.len() implies !names_symbol(
            #[trigger] f.exclude_symbols@[k],
            label_at(bins, stack[i]).name,
        ) by {
            assert(stack[i] == stack[i]);
        }
    }
}

/// The law of parts: a stack passes where each of its parts does.
pub proof fn stacks_pass_by_their_parts(
    f: LiveFilter,
    start: u64,
    bins: BinaryRegistry,
    t: u64,
    upper: Seq<u64>,
    lower: Seq<u64>,
)
    ensures
        passes(f, start, bins, t, upper + lower) == (passes(f, start, bins, t, upper) && passes(
            f,
            start,
            bins,
            t,
            lower,
        )),
{
    let whole = upper + lower;
    assert forall|i: int| 0 <= i < upper.len() implies #[trigger] upper[i] == whole[i] by {}
    assert forall|i: int| 0 <= i < lower.len() implies #[trigger] lower[i] == whole[i + upper.len()] by {}
    if passes(f, start, bins, t, whole) {
        assert forall|i: int| 0 <= i < upper.len() implies !is_excluded(
            bins,
            f.exclude_symbols@,
            #[trigger] upper[i],
        ) by {
            assert(whole[i] == upper[i]);
        }
        assert forall|i: int| 0 <= i < lower.len() implies !is_excluded(
            bins,
            f.exclude_symbols@,
            #[trigger] lower[i],
        ) by {
            assert(whole[i + upper.len()] == lower[i]);
        }
    }
    if passes(f, start, bins, t, upper) && passes(f, start, bins, t, lower) {
        assert forall|i: int| 0 <= i < whole.len() implies !is_excluded(
            bins,
            f.exclude_symbols@,
            #[trigger] whole[i],
        ) by {
            if i < upper.len() {
                assert(upper[i] == whole[i]);
            } else {
                assert(lower[i - upper.len()] == whole[i]);
            }
        }
    }
}

} // verus!
