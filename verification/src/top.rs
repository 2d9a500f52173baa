//! The list of symbols that take the most time.
use vstd::prelude::*;

use crate::binaries::{opt_symbol, BinaryRegistry};
use crate::flame::{AddressEntry, AddressStats, Aggregation};
use crate::offcpu::{off_cpu_total_proto, OffCpuBreakdown, PmcAccum};
use crate::probe_diff::first_n;
use crate::probe_timing::sat_add;
use crate::sort::{
    existing_order, goes_before, is_reordering, is_stable_order, sort_by_keys, stable_order_gives_sorted,
    stable_sorted, Order,
};
use crate::sums::{as_fits, sum_of};
use crate::symbol_groups::{
    amount_off, classify, key_views, label_at, lemma_key_views_order, lemma_time_off, time_off, Label,
    LabelKey, LabelKeyView, LabelView, Quantity,
};
use crate::text::{clone_opt_text, hex, hex_prefixed, hex_string, opt_text, same_text};

verus! {

/// What the list is ordered by.
#[derive(Clone, Copy, Debug, PartialEq, Eq, Structural)]
pub enum TopSort {
    /// Time spent in the symbol itself.
    BySelf,
    /// Time spent in the symbol and what it calls.
    ByTotal,
}

/// One row of the list.
pub struct TopEntry {
    pub address: u64,
    pub function_name: Option<String>,
    pub binary: Option<String>,
    pub is_main: bool,
    pub language: String,
    pub self_on_cpu_ns: u64,
    pub total_on_cpu_ns: u64,
    pub self_off_cpu: OffCpuBreakdown,
    pub total_off_cpu: OffCpuBreakdown,
    pub self_pet_samples: u64,
    pub total_pet_samples: u64,
    pub self_off_cpu_intervals: u64,
    pub total_off_cpu_intervals: u64,
    pub self_pmc: PmcAccum,
    pub total_pmc: PmcAccum,
}

/// The model of a [`TopEntry`].
pub struct TopView {
    pub address: u64,
    pub function_name: Option<Seq<char>>,
    pub binary: Option<Seq<char>>,
    pub is_main: bool,
    pub language: Seq<char>,
    pub stats: AddressStats,
}

impl View for TopEntry {
    type V = TopView;

    open spec fn view(&self) -> TopView {
        TopView {
            address: self.address,
            function_name: opt_text(self.function_name),
            binary: opt_text(self.binary),
            is_main: self.is_main,
            language: self.language@,
            stats: AddressStats {
                self_on_cpu_ns: self.self_on_cpu_ns,
                total_on_cpu_ns: self.total_on_cpu_ns,
                self_off_cpu: self.self_off_cpu,
                total_off_cpu: self.total_off_cpu,
                self_pet_samples: self.self_pet_samples,
                total_pet_samples: self.total_pet_samples,
                self_off_cpu_intervals: self.self_off_cpu_intervals,
                total_off_cpu_intervals: self.total_off_cpu_intervals,
                self_pmc: self.self_pmc,
                total_pmc: self.total_pmc,
            },
        }
    }
}

/// The sum of two measurements.
pub open spec fn stats_plus(a: AddressStats, b: AddressStats) -> AddressStats {
    AddressStats {
        self_on_cpu_ns: sat_add(a.self_on_cpu_ns, b.self_on_cpu_ns),
        total_on_cpu_ns: sat_add(a.total_on_cpu_ns, b.total_on_cpu_ns),
        self_off_cpu: a.self_off_cpu.plus(b.self_off_cpu),
        total_off_cpu: a.total_off_cpu.plus(b.total_off_cpu),
        self_pet_samples: sat_add(a.self_pet_samples, b.self_pet_samples),
        total_pet_samples: sat_add(a.total_pet_samples, b.total_pet_samples),
        self_off_cpu_intervals: sat_add(a.self_off_cpu_intervals, b.self_off_cpu_intervals),
        total_off_cpu_intervals: sat_add(a.total_off_cpu_intervals, b.total_off_cpu_intervals),
        self_pmc: a.self_pmc.plus(b.self_pmc),
        total_pmc: a.total_pmc.plus(b.total_pmc),
    }
}

/// The addresses of one symbol, added up. The address with the most time of its own
/// represents them.
pub struct TopGroup {
    key_function: String,
    key_binary: String,
    representative_self_ns: u64,
    entry: TopEntry,
}

/// The model of a [`TopGroup`].
pub struct TopGroupView {
    pub key: (Seq<char>, Seq<char>),
    pub representative_self_ns: u64,
    pub entry: TopView,
}

impl View for TopGroup {
    type V = TopGroupView;

    closed spec fn view(&self) -> TopGroupView {
        TopGroupView {
            key: (self.key_function@, self.key_binary@),
            representative_self_ns: self.representative_self_ns,
            entry: self.entry@,
        }
    }
}

/// The group that an address belongs to: that of its symbol, or one of its own.
pub open spec fn top_key(label: LabelView, address: u64) -> (Seq<char>, Seq<char>) {
    match label.name {
        Some(n) => n,
        None => (hex_prefixed(address as nat), seq![]),
    }
}

/// The row of a group with one address.
pub open spec fn single_entry(label: LabelView, e: AddressEntry) -> TopView {
    TopView {
        address: e.address,
        function_name: match label.name {
            Some(n) => Some(n.0),
            None => None,
        },
        binary: match label.name {
            Some(n) => Some(n.1),
            None => None,
        },
        is_main: label.is_main,
        language: label.language,
        stats: e.stats,
    }
}

/// `i` is the group `key`.
pub open spec fn is_top_group(gs: Seq<TopGroupView>, key: (Seq<char>, Seq<char>), i: int) -> bool {
    0 <= i < gs.len() && gs[i].key == key
}

/// The groups with one more address.
pub open spec fn top_with(gs: Seq<TopGroupView>, label: LabelView, e: AddressEntry) -> Seq<TopGroupView> {
    let key = top_key(label, e.address);
    if exists|i: int| is_top_group(gs, key, i) {
        let i = choose|i: int| is_top_group(gs, key, i);
        let g = gs[i];
        let leads = e.stats.self_on_cpu_ns > g.representative_self_ns;
        gs.update(
            i,
            TopGroupView {
                key,
                representative_self_ns: if leads {
                    e.stats.self_on_cpu_ns
                } else {
                    g.representative_self_ns
                },
                entry: TopView {
                    address: if leads {
                        e.address
                    } else {
                        g.entry.address
                    },
                    stats: stats_plus(g.entry.stats, e.stats),
                    ..g.entry
                },
            },
        )
    } else {
        gs.push(
            TopGroupView {
                key,
                representative_self_ns: e.stats.self_on_cpu_ns,
                entry: single_entry(label, e),
            },
        )
    }
}

/// The addresses, grouped by symbol in the order in which each first shows.
pub open spec fn top_groups(bins: BinaryRegistry, es: Seq<AddressEntry>) -> Seq<TopGroupView>
    decreases es.len(),
{
    if es.len() == 0 {
        seq![]
    } else {
        top_with(top_groups(bins, es.drop_last()), label_at(bins, es.last().address), es.last())
    }
}

/// No key has two groups.
pub open spec fn top_keys_distinct(gs: Seq<TopGroupView>) -> bool {
    forall|i: int, j: int| 0 <= i < j < gs.len() ==> (#[trigger] gs[i]).key != (#[trigger] gs[j]).key
}

/// Grouping gives every symbol one group.
pub proof fn every_symbol_has_one_row(bins: BinaryRegistry, es: Seq<AddressEntry>)
    ensures
        top_keys_distinct(top_groups(bins, es)),
    decreases es.len(),
{
    if es.len() > 0 {
        every_symbol_has_one_row(bins, es.drop_last());
        let before = top_groups(bins, es.drop_last());
        let after = top_groups(bins, es);
        let key = top_key(label_at(bins, es.last().address), es.last().address);
        assert forall|i: int, j: int| 0 <= i < j < after.len() implies (#[trigger] after[i]).key != (
        #[trigger] after[j]).key by {
            if j < before.len() {
                assert(before[i].key != before[j].key);
            } else {
                assert(!is_top_group(before, key, i));
            }
        }
    }
}

/// The time of a row on and off the CPU, its own.
pub open spec fn self_time(r: TopView) -> u64 {
    sat_add(r.stats.self_on_cpu_ns, r.stats.self_off_cpu.total())
}

/// The time of a row on and off the CPU, with what it calls.
pub open spec fn total_time(r: TopView) -> u64 {
    sat_add(r.stats.total_on_cpu_ns, r.stats.total_off_cpu.total())
}

/// Rows are listed by time, the longest first; those with the same times by name
/// and address.
pub open spec fn top_row_key(sort: TopSort, r: TopView) -> LabelKeyView {
    let own = (u64::MAX - self_time(r)) as u64;
    let all = (u64::MAX - total_time(r)) as u64;
    LabelKeyView {
        first: match sort {
            TopSort::BySelf => own,
            TopSort::ByTotal => all,
        },
        second: match sort {
            TopSort::BySelf => all,
            TopSort::ByTotal => own,
        },
        function_name: r.function_name,
        binary: r.binary,
        address: r.address,
    }
}

/// The keys by which rows are listed.
pub open spec fn top_row_keys(sort: TopSort, rows: Seq<TopView>) -> Seq<LabelKeyView> {
    rows.map_values(|r: TopView| top_row_key(sort, r))
}

/// The rows of all groups.
pub open spec fn top_rows(gs: Seq<TopGroupView>) -> Seq<TopView> {
    gs.map_values(|g: TopGroupView| g.entry)
}

/// The models of groups.
pub open spec fn top_group_views(s: Seq<TopGroup>) -> Seq<TopGroupView> {
    s.map_values(|g: TopGroup| g@)
}

/// The models of rows.
pub open spec fn top_views(s: Seq<TopEntry>) -> Seq<TopView> {
    s.map_values(|e: TopEntry| e@)
}

impl TopEntry {
    /// Adds what was measured at another address.
    fn add_stats(&mut self, b: &AddressStats)
        ensures
            final(self)@ == (TopView { stats: stats_plus(old(self)@.stats, *b), ..old(self)@ }),
    {
        self.self_on_cpu_ns = self.self_on_cpu_ns.saturating_add(b.self_on_cpu_ns);
        self.total_on_cpu_ns = self.total_on_cpu_ns.saturating_add(b.total_on_cpu_ns);
        self.self_off_cpu.add_other(&b.self_off_cpu);
        self.total_off_cpu.add_other(&b.total_off_cpu);
        self.self_pet_samples = self.self_pet_samples.saturating_add(b.self_pet_samples);
        self.total_pet_samples = self.total_pet_samples.saturating_add(b.total_pet_samples);
        self.self_off_cpu_intervals = self.self_off_cpu_intervals.saturating_add(
            b.self_off_cpu_intervals,
        );
        self.total_off_cpu_intervals = self.total_off_cpu_intervals.saturating_add(
            b.total_off_cpu_intervals,
        );
        self.self_pmc.add_other(&b.self_pmc);
        self.total_pmc.add_other(&b.total_pmc);
    }
}

/// A group with one address.
fn new_group(label: Label, key_function: String, key_binary: String, e: &AddressEntry) -> (g: TopGroup)
    requires
        (key_function@, key_binary@) == top_key(label@, e.address),
    ensures
        g@ == (TopGroupView {
            key: top_key(label@, e.address),
            representative_self_ns: e.stats.self_on_cpu_ns,
            entry: single_entry(label@, *e),
        }),
{
    let s = e.stats;
    let Label { name, is_main, language } = label;
    let (function_name, binary) = match name {
        Some(n) => (Some(n.function_name), Some(n.binary)),
        None => (None, None),
    };
    TopGroup {
        key_function,
        key_binary,
        representative_self_ns: s.self_on_cpu_ns,
        entry: TopEntry {
            address: e.address,
            function_name,
            binary,
            is_main,
            language,
            self_on_cpu_ns: s.self_on_cpu_ns,
            total_on_cpu_ns: s.total_on_cpu_ns,
            self_off_cpu: s.self_off_cpu,
            total_off_cpu: s.total_off_cpu,
            self_pet_samples: s.self_pet_samples,
            total_pet_samples: s.total_pet_samples,
            self_off_cpu_intervals: s.self_off_cpu_intervals,
            total_off_cpu_intervals: s.total_off_cpu_intervals,
            self_pmc: s.self_pmc,
            total_pmc: s.total_pmc,
        },
    }
}

/// Groups the addresses by symbol.
fn collect_groups(bins: &BinaryRegistry, es: &Vec<AddressEntry>) -> (gs: Vec<TopGroup>)
    requires
        bins.wf(),
    ensures
        top_group_views(gs@) == top_groups(*bins, es@),
{
    let mut gs: Vec<TopGroup> = Vec::new();
    let mut n: usize = 0;
    assert(es@.take(0) =~= seq![]);
    assert(top_group_views(gs@) =~= seq![]);
    while n < es.len()
        invariant
            bins.wf(),
            n <= es@.len(),
            top_group_views(gs@) == top_groups(*bins, es@.take(n as int)),
        decreases es@.len() - n,
    {
        let e = es[n];
        let label = classify(bins, e.address);
        let (key_function, key_binary) = match &label.name {
            Some(s) => (s.function_name.clone(), s.binary.clone()),
            None => (hex_string(e.address), String::new()),
        };
        let ghost views = top_group_views(gs@);
        let ghost key = top_key(label@, e.address);
        proof {
            assert(key.1 =~= key_binary@);
            assert(es@.take(n + 1).drop_last() =~= es@.take(n as int));
            assert(es@.take(n + 1).last() == e);
        }
        let mut i: usize = 0;
        let mut found = false;
        while i < gs.len() && !found
            invariant
                i <= gs@.len(),
                views == top_group_views(gs@),
                key == (key_function@, key_binary@),
                forall|j: int| 0 <= j < i ==> !is_top_group(views, key, j),
                found ==> is_top_group(views, key, i as int) && i < gs@.len(),
            decreases gs@.len() - i + (if found { 0int } else { 1int }),
        {
            assert(views[i as int] == gs@[i as int]@);
            if same_text(gs[i].key_function.as_str(), key_function.as_str()) && same_text(
                gs[i].key_binary.as_str(),
                key_binary.as_str(),
            ) {
                found = true;
            } else {
                i = i + 1;
            }
        }
        if found {
            proof {
                every_symbol_has_one_row(*bins, es@.take(n as int));
                let k = choose|k: int| is_top_group(views, key, k);
                assert(is_top_group(views, key, k));
                if k < i {
                    assert(views[k].key != views[i as int].key);
                } else if i < k {
                    assert(views[i as int].key != views[k].key);
                }
            }
            let g = &mut gs[i];
            g.entry.add_stats(&e.stats);
            if e.stats.self_on_cpu_ns > g.representative_self_ns {
                g.entry.address = e.address;
                g.representative_self_ns = e.stats.self_on_cpu_ns;
            }
            assert(top_group_views(gs@) =~= top_with(views, label@, e));
        } else {
            assert(forall|k: int| !is_top_group(views, key, k));
            let ghost lv = label@;
            gs.push(new_group(label, key_function, key_binary, &e));
            assert(top_group_views(gs@) =~= top_with(views, lv, e));
        }
        n = n + 1;
    }
    assert(es@.take(n as int) =~= es@);
    gs
}

/// The rows of all groups.
fn take_rows(gs: Vec<TopGroup>) -> (rows: Vec<TopEntry>)
    ensures
        top_views(rows@) == top_rows(top_group_views(gs@)),
{
    let ghost src = gs@;
    let n: usize = gs.len();
    let mut gs = gs;
    let mut back: Vec<TopEntry> = Vec::new();
    let mut k: usize = 0;
    while k < n
        invariant
            k <= n,
            n == src.len(),
            gs@ == src.take(n - k),
            back@.len() == k,
            forall|a: int| 0 <= a < k ==> (#[trigger] back@[a])@ == src[n - 1 - a]@.entry,
        decreases n - k,
    {
        match gs.pop() {
            Some(g) => {
                back.push(g.entry);
            },
            None => {},
        }
        k = k + 1;
        assert(gs@ =~= src.take(n - k));
    }
    let mut rows: Vec<TopEntry> = Vec::new();
    let mut m: usize = 0;
    while m < n
        invariant
            m <= n,
            n == src.len(),
            back@.len() == n - m,
            forall|a: int| 0 <= a < n - m ==> (#[trigger] back@[a])@ == src[n - 1 - a]@.entry,
            rows@.len() == m,
            forall|a: int| 0 <= a < m ==> (#[trigger] rows@[a])@ == src[a]@.entry,
        decreases n - m,
    {
        let ghost held = back@;
        match back.pop() {
            Some(x) => {
                assert(x == held[n - 1 - m]);
                rows.push(x);
            },
            None => {},
        }
        m = m + 1;
    }
    assert(top_views(rows@) =~= top_rows(top_group_views(src)));
    rows
}

/// Lists the symbols of a recording that take the most time, `limit` of them.
pub fn group_top_entries(
    aggregation: &Aggregation,
    bins: &BinaryRegistry,
    sort: TopSort,
    limit: usize,
) -> (out: Vec<TopEntry>)
    requires
        bins.wf(),
    ensures
        ({
            let rows = top_rows(top_groups(*bins, aggregation.by_address@));
            top_views(out@) == first_n(stable_sorted(top_row_keys(sort, rows), rows), limit)
        }),
{
    let gs = collect_groups(bins, &aggregation.by_address);
    let rows = take_rows(gs);
    let ghost views = top_views(rows@);
    let mut keys: Vec<LabelKey> = Vec::new();
    let mut i: usize = 0;
    assert(key_views(keys@) =~= top_row_keys(sort, views.take(0)));
    while i < rows.len()
        invariant
            i <= rows@.len(),
            views == top_views(rows@),
            key_views(keys@) == top_row_keys(sort, views.take(i as int)),
        decreases rows@.len() - i,
    {
        let r = &rows[i];
        let own: u64 = u64::MAX - r.self_on_cpu_ns.saturating_add(
            off_cpu_total_proto(&r.self_off_cpu),
        );
        let all: u64 = u64::MAX - r.total_on_cpu_ns.saturating_add(
            off_cpu_total_proto(&r.total_off_cpu),
        );
        let (first, second) = match sort {
            TopSort::BySelf => (own, all),
            TopSort::ByTotal => (all, own),
        };
        let ghost held = keys@;
        keys.push(
            LabelKey {
                first,
                second,
                function_name: clone_opt_text(&r.function_name),
                binary: clone_opt_text(&r.binary),
                address: r.address,
            },
        );
        proof {
            assert(keys@.last()@ == top_row_key(sort, r@));
            assert(key_views(keys@) =~= key_views(held).push(top_row_key(sort, r@)));
            assert(top_row_keys(sort, views.take(i + 1)) =~= top_row_keys(
                sort,
                views.take(i as int),
            ).push(top_row_key(sort, r@)));
        }
        i = i + 1;
    }
    assert(views.take(i as int) =~= views);
    let ghost src = rows@;
    let ghost ks = keys@;
    proof {
        assert(keys@.len() == key_views(keys@).len());
    }
    let mut out = sort_by_keys(rows, &keys);
    proof {
        let order = choose|order: Seq<usize>| #[trigger]
            is_stable_order(ks, order) && is_reordering(src, order, out@);
        lemma_key_views_order(ks, order);
        stable_order_gives_sorted(key_views(ks), views, order);
        let sorted = stable_sorted(key_views(ks), views);
        assert forall|k: int| 0 <= k < out@.len() implies sorted[k] == (#[trigger] out@[k])@ by {
            assert(order[k] < ks.len());
            assert(sorted[k] == views[order[k] as int]);
        }
        assert(top_views(out@) =~= sorted);
    }
    let ghost sorted = top_views(out@);
    if out.len() > limit {
        out.truncate(limit);
    }
    assert(top_views(out@) =~= first_n(sorted, limit));
    out
}

/// How much was measured at an address, its own.
pub open spec fn amount_own(q: Quantity, s: AddressStats) -> int {
    match q {
        Quantity::OnCpu => s.self_on_cpu_ns as int,
        Quantity::PetSamples => s.self_pet_samples as int,
        Quantity::OffCpuIntervals => s.self_off_cpu_intervals as int,
        Quantity::Cycles => s.self_pmc.cycles as int,
        Quantity::Instructions => s.self_pmc.instructions as int,
        Quantity::L1dMisses => s.self_pmc.l1d_misses as int,
        Quantity::BranchMispreds => s.self_pmc.branch_mispreds as int,
        _ => amount_off(q, s.self_off_cpu),
    }
}

/// How much was measured at an address, with what it calls.
pub open spec fn amount_all(q: Quantity, s: AddressStats) -> int {
    match q {
        Quantity::OnCpu => s.total_on_cpu_ns as int,
        Quantity::PetSamples => s.total_pet_samples as int,
        Quantity::OffCpuIntervals => s.total_off_cpu_intervals as int,
        Quantity::Cycles => s.total_pmc.cycles as int,
        Quantity::Instructions => s.total_pmc.instructions as int,
        Quantity::L1dMisses => s.total_pmc.l1d_misses as int,
        Quantity::BranchMispreds => s.total_pmc.branch_mispreds as int,
        _ => amount_off(q, s.total_off_cpu),
    }
}

/// Measurements add up.
proof fn lemma_amounts_plus(q: Quantity, a: AddressStats, b: AddressStats)
    ensures
        amount_own(q, stats_plus(a, b)) == as_fits(amount_own(q, a) + amount_own(q, b)),
        amount_all(q, stats_plus(a, b)) == as_fits(amount_all(q, a) + amount_all(q, b)),
        amount_own(q, a) >= 0,
        amount_all(q, a) >= 0,
{
    let sum = stats_plus(a, b);
    match q {
        Quantity::OnCpu => {
            assert(sum.self_on_cpu_ns == as_fits(a.self_on_cpu_ns + b.self_on_cpu_ns));
            assert(sum.total_on_cpu_ns == as_fits(a.total_on_cpu_ns + b.total_on_cpu_ns));
        },
        Quantity::Idle => {
            assert(sum.self_off_cpu.idle_ns == as_fits(a.self_off_cpu.idle_ns + b.self_off_cpu.idle_ns));
            assert(sum.total_off_cpu.idle_ns == as_fits(a.total_off_cpu.idle_ns + b.total_off_cpu.idle_ns));
        },
        Quantity::Lock => {
            assert(sum.self_off_cpu.lock_ns == as_fits(a.self_off_cpu.lock_ns + b.self_off_cpu.lock_ns));
            assert(sum.total_off_cpu.lock_ns == as_fits(a.total_off_cpu.lock_ns + b.total_off_cpu.lock_ns));
        },
        Quantity::Semaphore => {
            assert(sum.self_off_cpu.semaphore_ns == as_fits(a.self_off_cpu.semaphore_ns + b.self_off_cpu.semaphore_ns));
            assert(sum.total_off_cpu.semaphore_ns == as_fits(a.total_off_cpu.semaphore_ns + b.total_off_cpu.semaphore_ns));
        },
        Quantity::Ipc => {
            assert(sum.self_off_cpu.ipc_ns == as_fits(a.self_off_cpu.ipc_ns + b.self_off_cpu.ipc_ns));
            assert(sum.total_off_cpu.ipc_ns == as_fits(a.total_off_cpu.ipc_ns + b.total_off_cpu.ipc_ns));
        },
        Quantity::IoRead => {
            assert(sum.self_off_cpu.io_read_ns == as_fits(a.self_off_cpu.io_read_ns + b.self_off_cpu.io_read_ns));
            assert(sum.total_off_cpu.io_read_ns == as_fits(a.total_off_cpu.io_read_ns + b.total_off_cpu.io_read_ns));
        },
        Quantity::IoWrite => {
            assert(sum.self_off_cpu.io_write_ns == as_fits(a.self_off_cpu.io_write_ns + b.self_off_cpu.io_write_ns));
            assert(sum.total_off_cpu.io_write_ns == as_fits(a.total_off_cpu.io_write_ns + b.total_off_cpu.io_write_ns));
        },
        Quantity::Readiness => {
            assert(sum.self_off_cpu.readiness_ns == as_fits(a.self_off_cpu.readiness_ns + b.self_off_cpu.readiness_ns));
            assert(sum.total_off_cpu.readiness_ns == as_fits(a.total_off_cpu.readiness_ns + b.total_off_cpu.readiness_ns));
        },
        Quantity::Sleep => {
            assert(sum.self_off_cpu.sleep_ns == as_fits(a.self_off_cpu.sleep_ns + b.self_off_cpu.sleep_ns));
            assert(sum.total_off_cpu.sleep_ns == as_fits(a.total_off_cpu.sleep_ns + b.total_off_cpu.sleep_ns));
        },
        Quantity::Connect => {
            assert(sum.self_off_cpu.connect_ns == as_fits(a.self_off_cpu.connect_ns + b.self_off_cpu.connect_ns));
            assert(sum.total_off_cpu.connect_ns == as_fits(a.total_off_cpu.connect_ns + b.total_off_cpu.connect_ns));
        },
        Quantity::OtherReason => {
            assert(sum.self_off_cpu.other_ns == as_fits(a.self_off_cpu.other_ns + b.self_off_cpu.other_ns));
            assert(sum.total_off_cpu.other_ns == as_fits(a.total_off_cpu.other_ns + b.total_off_cpu.other_ns));
        },
        Quantity::PetSamples => {
            assert(sum.self_pet_samples == as_fits(a.self_pet_samples + b.self_pet_samples));
            assert(sum.total_pet_samples == as_fits(a.total_pet_samples + b.total_pet_samples));
        },
        Quantity::OffCpuIntervals => {
            assert(sum.self_off_cpu_intervals == as_fits(a.self_off_cpu_intervals + b.self_off_cpu_intervals));
            assert(sum.total_off_cpu_intervals == as_fits(a.total_off_cpu_intervals + b.total_off_cpu_intervals));
        },
        Quantity::Cycles => {
            assert(sum.self_pmc.cycles == as_fits(a.self_pmc.cycles + b.self_pmc.cycles));
            assert(sum.total_pmc.cycles == as_fits(a.total_pmc.cycles + b.total_pmc.cycles));
        },
        Quantity::Instructions => {
            assert(sum.self_pmc.instructions == as_fits(a.self_pmc.instructions + b.self_pmc.instructions));
            assert(sum.total_pmc.instructions == as_fits(a.total_pmc.instructions + b.total_pmc.instructions));
        },
        Quantity::L1dMisses => {
            assert(sum.self_pmc.l1d_misses == as_fits(a.self_pmc.l1d_misses + b.self_pmc.l1d_misses));
            assert(sum.total_pmc.l1d_misses == as_fits(a.total_pmc.l1d_misses + b.total_pmc.l1d_misses));
        },
        Quantity::BranchMispreds => {
            assert(sum.self_pmc.branch_mispreds == as_fits(a.self_pmc.branch_mispreds + b.self_pmc.branch_mispreds));
            assert(sum.total_pmc.branch_mispreds == as_fits(a.total_pmc.branch_mispreds + b.total_pmc.branch_mispreds));
        },
    }
}

/// How much was measured at each of the addresses that belong to one row, and nothing at the others.
pub open spec fn amounts_of_row(
    bins: BinaryRegistry,
    es: Seq<AddressEntry>,
    key: (Seq<char>, Seq<char>),
    f: spec_fn(AddressStats) -> int,
) -> Seq<int> {
    es.map_values(
        |e: AddressEntry|
            if top_key(label_at(bins, e.address), e.address) == key {
                f(e.stats)
            } else {
                0
            },
    )
}

/// One more address in the sum over a row.
proof fn lemma_amounts_of_row(
    bins: BinaryRegistry,
    es: Seq<AddressEntry>,
    key: (Seq<char>, Seq<char>),
    f: spec_fn(AddressStats) -> int,
)
    requires
        es.len() > 0,
    ensures
        sum_of(amounts_of_row(bins, es, key, f)) == sum_of(
            amounts_of_row(bins, es.drop_last(), key, f),
        ) + (if top_key(label_at(bins, es.last().address), es.last().address) == key {
            f(es.last().stats)
        } else {
            0
        }),
{
    assert(amounts_of_row(bins, es, key, f).drop_last() =~= amounts_of_row(
        bins,
        es.drop_last(),
        key,
        f,
    ));
}

/// A row that no address belongs to has nothing.
proof fn lemma_no_row(
    bins: BinaryRegistry,
    es: Seq<AddressEntry>,
    key: (Seq<char>, Seq<char>),
    f: spec_fn(AddressStats) -> int,
)
    requires
        forall|k: int| !is_top_group(top_groups(bins, es), key, k),
    ensures
        sum_of(amounts_of_row(bins, es, key, f)) == 0,
    decreases es.len(),
{
    if es.len() > 0 {
        let init = es.drop_last();
        let before = top_groups(bins, init);
        let after = top_groups(bins, es);
        let j = every_address_has_its_row(bins, es, es.len() - 1);
        assert(!is_top_group(after, key, j));
        assert forall|k: int| !is_top_group(before, key, k) by {
            assert(!is_top_group(after, key, k));
            if 0 <= k < before.len() {
                assert(after[k].key == before[k].key);
            }
        }
        lemma_no_row(bins, init, key, f);
        lemma_amounts_of_row(bins, es, key, f);
    }
}

/// The law of addresses: each belongs to a row.
pub proof fn every_address_has_its_row(bins: BinaryRegistry, es: Seq<AddressEntry>, i: int) -> (k:
    int)
    requires
        0 <= i < es.len(),
    ensures
        0 <= k < top_groups(bins, es).len(),
        top_groups(bins, es)[k].key == (match label_at(bins, es[i].address).name {
            Some(n) => n,
            None => ("0x"@ + hex(es[i].address as nat), Seq::<char>::empty()),
        }),
    decreases es.len(),
{
    let before = top_groups(bins, es.drop_last());
    let after = top_groups(bins, es);
    let e = es.last();
    let key = top_key(label_at(bins, e.address), e.address);
    if i < es.len() - 1 {
        let k = every_address_has_its_row(bins, es.drop_last(), i);
        assert(after[k].key == before[k].key);
        k
    } else if exists|k: int| is_top_group(before, key, k) {
        let k = choose|k: int| is_top_group(before, key, k);
        assert(after[k].key == key);
        k
    } else {
        assert(after[before.len() as int].key == key);
        before.len() as int
    }
}

/// The law of rows: what a row shows is the sum over the addresses of its symbol, at most what fits.
/// That holds of the time on the CPU, of the time off it for each reason, and of everything else
/// that is counted, for the addresses themselves and with what they call.
#[verifier::spinoff_prover]
#[verifier::rlimit(40)]
pub proof fn rows_hold_the_sums_of_their_addresses(
    bins: BinaryRegistry,
    es: Seq<AddressEntry>,
    q: Quantity,
    k: int,
)
    requires
        0 <= k < top_groups(bins, es).len(),
    ensures
        ({
            let row = top_groups(bins, es)[k];
            let own = amounts_of_row(bins, es, row.key, |s: AddressStats| amount_own(q, s));
            let all = amounts_of_row(bins, es, row.key, |s: AddressStats| amount_all(q, s));
            &&& amount_own(q, row.entry.stats) == as_fits(sum_of(own))
            &&& amount_all(q, row.entry.stats) == as_fits(sum_of(all))
            &&& sum_of(own) >= 0
            &&& sum_of(all) >= 0
        }),
    decreases es.len(),
{
    let own = |s: AddressStats| amount_own(q, s);
    let all = |s: AddressStats| amount_all(q, s);
    let init = es.drop_last();
    let before = top_groups(bins, init);
    let after = top_groups(bins, es);
    let e = es.last();
    let key = top_key(label_at(bins, e.address), e.address);
    let row = after[k];
    lemma_amounts_of_row(bins, es, row.key, own);
    lemma_amounts_of_row(bins, es, row.key, all);
    lemma_amounts_plus(q, e.stats, e.stats);
    if exists|i: int| is_top_group(before, key, i) {
        let i = choose|i: int| is_top_group(before, key, i);
        rows_hold_the_sums_of_their_addresses(bins, init, q, k);
        if k == i {
            lemma_amounts_plus(q, before[k].entry.stats, e.stats);
        } else {
            every_symbol_has_one_row(bins, init);
            if k < i {
                assert(before[k].key != before[i].key);
            } else {
                assert(before[i].key != before[k].key);
            }
            assert(after[k] == before[k]);
        }
    } else if k < before.len() {
        rows_hold_the_sums_of_their_addresses(bins, init, q, k);
        assert(!is_top_group(before, key, k));
        assert(after[k] == before[k]);
    } else {
        lemma_no_row(bins, init, key, own);
        lemma_no_row(bins, init, key, all);
    }
}

/// The law of representatives: a row stands at the address of its symbol that has the most time of
/// its own on the CPU, and is named as that address is.
pub proof fn rows_stand_at_their_busiest(bins: BinaryRegistry, es: Seq<AddressEntry>, k: int) -> (r:
    int)
    requires
        0 <= k < top_groups(bins, es).len(),
    ensures
        0 <= r < es.len(),
        ({
            let row = top_groups(bins, es)[k];
            let label = label_at(bins, es[r].address);
            &&& row.entry.address == es[r].address
            &&& row.key == top_key(label, es[r].address)
            &&& row.representative_self_ns == es[r].stats.self_on_cpu_ns
            &&& forall|i: int|
                0 <= i < es.len() && top_key(
                    label_at(bins, (#[trigger] es[i]).address),
                    es[i].address,
                ) == row.key ==> es[i].stats.self_on_cpu_ns <= es[r].stats.self_on_cpu_ns
        }),
    decreases es.len(),
{
    let init = es.drop_last();
    let before = top_groups(bins, init);
    let after = top_groups(bins, es);
    let e = es.last();
    let key = top_key(label_at(bins, e.address), e.address);
    let last = es.len() - 1;
    assert(forall|i: int| 0 <= i < last ==> init[i] == es[i]);
    if exists|i: int| is_top_group(before, key, i) {
        let i = choose|i: int| is_top_group(before, key, i);
        let r = rows_stand_at_their_busiest(bins, init, k);
        assert(init[r] == es[r]);
        assert(forall|j: int| 0 <= j < last ==> #[trigger] es[j] == init[j]);
        if k == i {
            if e.stats.self_on_cpu_ns > before[k].representative_self_ns {
                last
            } else {
                r
            }
        } else {
            every_symbol_has_one_row(bins, init);
            if k < i {
                assert(before[k].key != before[i].key);
            } else {
                assert(before[i].key != before[k].key);
            }
            r
        }
    } else if k < before.len() {
        let r = rows_stand_at_their_busiest(bins, init, k);
        assert(init[r] == es[r]);
        assert(forall|j: int| 0 <= j < last ==> #[trigger] es[j] == init[j]);
        assert(!is_top_group(before, key, k));
        r
    } else {
        assert forall|i: int| 0 <= i < es.len() && top_key(
            label_at(bins, (#[trigger] es[i]).address),
            es[i].address,
        ) == key implies es[i].stats.self_on_cpu_ns <= e.stats.self_on_cpu_ns by {
            if i < last {
                let j = every_address_has_its_row(bins, init, i);
                assert(is_top_group(before, key, j));
            }
        }
        last
    }
}

/// The law of names: a row is shown under the name of its symbol, or under none where its address
/// has none.
pub proof fn rows_are_named_by_their_symbol(bins: BinaryRegistry, es: Seq<AddressEntry>, k: int)
    requires
        0 <= k < top_groups(bins, es).len(),
    ensures
        ({
            let row = top_groups(bins, es)[k];
            &&& row.entry.function_name is Some == row.entry.binary is Some
            &&& row.entry.function_name matches Some(f) ==> row.key == (f, row.entry.binary->0)
            &&& row.entry.function_name is None ==> row.key.1 == Seq::<char>::empty()
        }),
    decreases es.len(),
{
    let before = top_groups(bins, es.drop_last());
    if k < before.len() {
        rows_are_named_by_their_symbol(bins, es.drop_last(), k);
    }
}

/// The time of a row on and off the CPU: of its own, or with what it calls.
pub open spec fn time_shown(sort: TopSort, r: TopView) -> int {
    match sort {
        TopSort::BySelf => as_fits(
            r.stats.self_on_cpu_ns + as_fits(time_off(r.stats.self_off_cpu)),
        ) as int,
        TopSort::ByTotal => as_fits(
            r.stats.total_on_cpu_ns + as_fits(time_off(r.stats.total_off_cpu)),
        ) as int,
    }
}

/// The law of listing: what is listed are the rows with the most time, as many as are asked for, the
/// longest first; a row that is left out has no more time than any that is shown. Of rows with as much
/// time, those with more of the other time come first.
pub proof fn longest_rows_come_first(sort: TopSort, rows: Seq<TopView>, limit: usize, i: int, j: int)
    requires
        rows.len() <= usize::MAX,
        0 <= i < j < rows.len(),
    ensures
        ({
            let sorted = stable_sorted(top_row_keys(sort, rows), rows);
            let shown = first_n(sorted, limit);
            &&& sorted.len() == rows.len()
            &&& time_shown(sort, sorted[i]) >= time_shown(sort, sorted[j])
            &&& time_shown(sort, sorted[i]) == time_shown(sort, sorted[j]) ==> (match sort {
                TopSort::BySelf => time_shown(TopSort::ByTotal, sorted[i]) >= time_shown(
                    TopSort::ByTotal,
                    sorted[j],
                ),
                TopSort::ByTotal => time_shown(TopSort::BySelf, sorted[i]) >= time_shown(
                    TopSort::BySelf,
                    sorted[j],
                ),
            })
            &&& shown.len() == (if limit < rows.len() {
                limit as int
            } else {
                rows.len() as int
            })
            &&& i < shown.len() ==> shown[i] == sorted[i]
            &&& rows.contains(sorted[i])
        }),
{
    let keys = top_row_keys(sort, rows);
    let order = existing_order(keys);
    stable_order_gives_sorted(keys, rows, order);
    let sorted = stable_sorted(keys, rows);
    assert(goes_before(keys, order[i] as int, order[j] as int));
    assert(order[i] < keys.len() && order[j] < keys.len());
    let a = rows[order[i] as int];
    let b = rows[order[j] as int];
    assert(keys[order[i] as int] == top_row_key(sort, a));
    assert(keys[order[j] as int] == top_row_key(sort, b));
    lemma_time_off(a.stats.self_off_cpu);
    lemma_time_off(a.stats.total_off_cpu);
    lemma_time_off(b.stats.self_off_cpu);
    lemma_time_off(b.stats.total_off_cpu);
}

} // verus!
