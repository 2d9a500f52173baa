//! Call tree nodes grouped by the symbol that their address falls into.
use vstd::prelude::*;

use crate::binaries::{opt_symbol, BinaryRegistry, SymbolInfo, UNKNOWN_LANGUAGE};
use crate::offcpu::{OffCpuBreakdown, PmcAccum};
use crate::probe_timing::sat_add;
use crate::sort::{is_stable_order, stable_order, stable_order_gives_sorted, stable_sorted, Order, Rank};
use crate::sums::{
    as_fits, sorting_keeps_sums, sum_of, sum_of_bounds, sum_of_one_more, sum_of_update,
};
use crate::text::{
    opt_text, opt_text_le, opt_text_le_antisymmetric, opt_text_le_total, opt_text_le_transitive,
    opt_text_may_precede, same_text,
};

verus! {

/// One node of a call tree: what was spent at and below it, and its callees by
/// address.
pub struct StackNode {
    pub on_cpu_ns: u64,
    pub off_cpu: OffCpuBreakdown,
    pub pet_samples: u64,
    pub off_cpu_intervals: u64,
    pub pmc: PmcAccum,
    pub children: Vec<StackChild>,
}

/// One callee in a call tree.
pub struct StackChild {
    pub address: u64,
    pub node: StackNode,
}

/// The name of a symbol: function and image.
pub struct SymbolName {
    pub function_name: String,
    pub binary: String,
}

/// The model of an optional [`SymbolName`].
pub type NameView = Option<(Seq<char>, Seq<char>)>;

/// The model of an optional name.
pub open spec fn name_view(n: Option<SymbolName>) -> NameView {
    match n {
        Some(s) => Some((s.function_name@, s.binary@)),
        None => None,
    }
}

/// Whether two names are the same.
pub fn same_name(a: &Option<SymbolName>, b: &Option<SymbolName>) -> (r: bool)
    ensures
        r == (name_view(*a) == name_view(*b)),
{
    match (a, b) {
        (Some(x), Some(y)) => same_text(x.function_name.as_str(), y.function_name.as_str())
            && same_text(x.binary.as_str(), y.binary.as_str()),
        (None, None) => true,
        _ => false,
    }
}

/// What an address is shown as.
pub struct Label {
    pub name: Option<SymbolName>,
    pub is_main: bool,
    pub language: String,
}

/// The model of a [`Label`].
pub struct LabelView {
    pub name: NameView,
    pub is_main: bool,
    pub language: Seq<char>,
}

impl View for Label {
    type V = LabelView;

    open spec fn view(&self) -> LabelView {
        LabelView { name: name_view(self.name), is_main: self.is_main, language: self.language@ }
    }
}

/// What a symbol is shown as.
pub open spec fn label_of(s: Option<SymbolInfo>) -> LabelView {
    match s {
        Some(s) => LabelView {
            name: Some((s.function_name, s.binary)),
            is_main: s.is_main,
            language: s.language,
        },
        None => LabelView { name: None, is_main: false, language: UNKNOWN_LANGUAGE@ },
    }
}

/// What an address is shown as.
pub open spec fn label_at(bins: BinaryRegistry, address: u64) -> LabelView {
    label_of(bins.symbol_at(address))
}

/// What an address is shown as.
pub fn classify(bins: &BinaryRegistry, address: u64) -> (l: Label)
    requires
        bins.wf(),
    ensures
        l@ == label_at(*bins, address),
{
    match bins.lookup_symbol(address) {
        Some(r) => {
            assert(bins.symbol_at(address) == Some(r@));
            Label {
                name: Some(SymbolName { function_name: r.function_name, binary: r.binary }),
                is_main: r.is_main,
                language: r.language,
            }
        },
        None => Label { name: None, is_main: false, language: UNKNOWN_LANGUAGE.to_owned() },
    }
}

/// A key that orders rows: two numbers, then the name, then the address.
pub struct LabelKey {
    pub first: u64,
    pub second: u64,
    pub function_name: Option<String>,
    pub binary: Option<String>,
    pub address: u64,
}

/// The model of a [`LabelKey`].
pub struct LabelKeyView {
    pub first: u64,
    pub second: u64,
    pub function_name: Option<Seq<char>>,
    pub binary: Option<Seq<char>>,
    pub address: u64,
}

impl View for LabelKey {
    type V = LabelKeyView;

    open spec fn view(&self) -> LabelKeyView {
        LabelKeyView {
            first: self.first,
            second: self.second,
            function_name: opt_text(self.function_name),
            binary: opt_text(self.binary),
            address: self.address,
        }
    }
}

impl Order for LabelKeyView {
    open spec fn le(self, other: Self) -> bool {
        if self.first != other.first {
            self.first < other.first
        } else if self.second != other.second {
            self.second < other.second
        } else if self.function_name != other.function_name {
            opt_text_le(self.function_name, other.function_name)
        } else if self.binary != other.binary {
            opt_text_le(self.binary, other.binary)
        } else {
            self.address <= other.address
        }
    }

    proof fn total(a: Self, b: Self) {
        opt_text_le_total(a.function_name, b.function_name);
        opt_text_le_total(a.binary, b.binary);
    }

    proof fn transitive(a: Self, b: Self, c: Self) {
        lemma_text_lex(a.function_name, b.function_name, c.function_name);
        lemma_text_lex(a.binary, b.binary, c.binary);
    }
}

/// Strictly increasing strings stay apart.
proof fn lemma_text_lex(a: Option<Seq<char>>, b: Option<Seq<char>>, c: Option<Seq<char>>)
    ensures
        opt_text_le(a, b) && opt_text_le(b, c) ==> opt_text_le(a, c),
        opt_text_le(a, b) && opt_text_le(b, c) && a != b ==> a != c,
        opt_text_le(a, b) && opt_text_le(b, c) && b != c ==> a != c,
{
    if opt_text_le(a, b) && opt_text_le(b, c) {
        opt_text_le_transitive(a, b, c);
        if a == c {
            opt_text_le_antisymmetric(a, b);
        }
    }
}

impl Order for LabelKey {
    open spec fn le(self, other: Self) -> bool {
        self@.le(other@)
    }

    proof fn total(a: Self, b: Self) {
        LabelKeyView::total(a@, b@);
    }

    proof fn transitive(a: Self, b: Self, c: Self) {
        LabelKeyView::transitive(a@, b@, c@);
    }
}

impl Rank for LabelKey {
    fn may_precede(&self, other: &Self) -> (r: bool) {
        if self.first != other.first {
            self.first < other.first
        } else if self.second != other.second {
            self.second < other.second
        } else if !crate::text::same_opt_text(&self.function_name, &other.function_name) {
            opt_text_may_precede(&self.function_name, &other.function_name)
        } else if !crate::text::same_opt_text(&self.binary, &other.binary) {
            opt_text_may_precede(&self.binary, &other.binary)
        } else {
            self.address <= other.address
        }
    }
}

/// The models of keys.
pub open spec fn key_views(s: Seq<LabelKey>) -> Seq<LabelKeyView> {
    s.map_values(|k: LabelKey| k@)
}

/// Keys put records in the same order as their models do.
pub proof fn lemma_key_views_order(keys: Seq<LabelKey>, order: Seq<usize>)
    requires
        is_stable_order(keys, order),
    ensures
        is_stable_order(key_views(keys), order),
{
    assert forall|i: int, j: int| 0 <= i < j < order.len() implies #[trigger] crate::sort::goes_before(
        key_views(keys),
        order[i] as int,
        order[j] as int,
    ) by {
        assert(crate::sort::goes_before(keys, order[i] as int, order[j] as int));
    }
}

/// A node that is to be grouped, and the address that decides its group.
#[derive(Clone, Copy)]
pub struct LevelItem<'a> {
    pub address: u64,
    pub node: &'a StackNode,
}

/// What a group of nodes adds up to. It is represented by the member with the most
/// time on the CPU, and by the first of those.
pub struct SymbolAcc {
    pub on_cpu_ns: u64,
    pub off_cpu: OffCpuBreakdown,
    pub pet_samples: u64,
    pub off_cpu_intervals: u64,
    pub pmc: PmcAccum,
    pub rep_address: u64,
    pub rep_self_ns: u64,
    pub is_main: bool,
    pub language: String,
}

/// The model of a [`SymbolAcc`].
pub struct AccView {
    pub on_cpu_ns: u64,
    pub off_cpu: OffCpuBreakdown,
    pub pet_samples: u64,
    pub off_cpu_intervals: u64,
    pub pmc: PmcAccum,
    pub rep_address: u64,
    pub rep_self_ns: u64,
    pub is_main: bool,
    pub language: Seq<char>,
}

impl View for SymbolAcc {
    type V = AccView;

    open spec fn view(&self) -> AccView {
        AccView {
            on_cpu_ns: self.on_cpu_ns,
            off_cpu: self.off_cpu,
            pet_samples: self.pet_samples,
            off_cpu_intervals: self.off_cpu_intervals,
            pmc: self.pmc,
            rep_address: self.rep_address,
            rep_self_ns: self.rep_self_ns,
            is_main: self.is_main,
            language: self.language@,
        }
    }
}

impl AccView {
    /// Nothing added up yet, represented by `address`.
    pub open spec fn none(address: u64, is_main: bool, language: Seq<char>) -> AccView {
        AccView {
            on_cpu_ns: 0,
            off_cpu: OffCpuBreakdown::none(),
            pet_samples: 0,
            off_cpu_intervals: 0,
            pmc: PmcAccum::none(),
            rep_address: address,
            rep_self_ns: 0,
            is_main,
            language,
        }
    }

    /// What a group starts from. Where it is `seeded`, its first member represents
    /// it until one with time on the CPU does.
    pub open spec fn start(seeded: bool, address: u64, label: LabelView) -> AccView {
        if seeded {
            AccView::none(address, label.is_main, label.language)
        } else {
            AccView::none(0, false, UNKNOWN_LANGUAGE@)
        }
    }

    /// The sum with one more node.
    pub open spec fn plus(self, address: u64, node: StackNode, label: LabelView) -> AccView {
        let leads = node.on_cpu_ns > self.rep_self_ns;
        AccView {
            on_cpu_ns: sat_add(self.on_cpu_ns, node.on_cpu_ns),
            off_cpu: self.off_cpu.plus(node.off_cpu),
            pet_samples: sat_add(self.pet_samples, node.pet_samples),
            off_cpu_intervals: sat_add(self.off_cpu_intervals, node.off_cpu_intervals),
            pmc: self.pmc.plus(node.pmc),
            rep_address: if leads {
                address
            } else {
                self.rep_address
            },
            rep_self_ns: if leads {
                node.on_cpu_ns
            } else {
                self.rep_self_ns
            },
            is_main: if leads {
                label.is_main
            } else {
                self.is_main
            },
            language: if leads {
                label.language
            } else {
                self.language
            },
        }
    }

    /// The time on and off the CPU together.
    pub open spec fn total(self) -> u64 {
        sat_add(self.on_cpu_ns, self.off_cpu.total())
    }
}

impl SymbolAcc {
    /// Nothing added up yet, represented by `address`.
    pub fn new(address: u64, is_main: bool, language: &str) -> (a: SymbolAcc)
        ensures
            a@ == AccView::none(address, is_main, language@),
    {
        SymbolAcc {
            on_cpu_ns: 0,
            off_cpu: OffCpuBreakdown::default(),
            pet_samples: 0,
            off_cpu_intervals: 0,
            pmc: PmcAccum::default(),
            rep_address: address,
            rep_self_ns: 0,
            is_main,
            language: language.to_owned(),
        }
    }

    /// Adds one node.
    pub fn accumulate(&mut self, address: u64, node: &StackNode, is_main: bool, language: &str)
        ensures
            forall|l: LabelView|
                l.is_main == is_main && l.language == language@ ==> final(self)@ == #[trigger] old(
                    self,
                )@.plus(address, *node, l),
    {
        self.on_cpu_ns = self.on_cpu_ns.saturating_add(node.on_cpu_ns);
        self.off_cpu.add_other(&node.off_cpu);
        self.pet_samples = self.pet_samples.saturating_add(node.pet_samples);
        self.off_cpu_intervals = self.off_cpu_intervals.saturating_add(node.off_cpu_intervals);
        self.pmc.add_other(&node.pmc);
        if node.on_cpu_ns > self.rep_self_ns {
            self.rep_address = address;
            self.rep_self_ns = node.on_cpu_ns;
            self.is_main = is_main;
            self.language = language.to_owned();
        }
    }

    /// The time on and off the CPU together.
    pub fn total(&self) -> (t: u64)
        ensures
            t == self@.total(),
    {
        self.on_cpu_ns.saturating_add(self.off_cpu.total_ns())
    }
}

/// The nodes of one symbol: what they add up to, and their positions.
pub struct SymbolGroup {
    pub name: Option<SymbolName>,
    pub acc: SymbolAcc,
    pub members: Vec<usize>,
}

/// The model of a [`SymbolGroup`].
pub struct GroupView {
    pub name: NameView,
    pub acc: AccView,
    pub members: Seq<usize>,
}

impl View for SymbolGroup {
    type V = GroupView;

    open spec fn view(&self) -> GroupView {
        GroupView { name: name_view(self.name), acc: self.acc@, members: self.members@ }
    }
}

/// The models of groups.
pub open spec fn group_views(s: Seq<SymbolGroup>) -> Seq<GroupView> {
    s.map_values(|g: SymbolGroup| g@)
}

/// `i` is the group of the symbol `name`.
pub open spec fn is_group(gs: Seq<GroupView>, name: NameView, i: int) -> bool {
    0 <= i < gs.len() && gs[i].name == name
}

/// The groups with the node at position `at` added.
pub open spec fn grouped_with(
    gs: Seq<GroupView>,
    seeded: bool,
    at: usize,
    item: LevelItem,
    label: LabelView,
) -> Seq<GroupView> {
    if exists|i: int| is_group(gs, label.name, i) {
        let i = choose|i: int| is_group(gs, label.name, i);
        gs.update(
            i,
            GroupView {
                name: label.name,
                acc: gs[i].acc.plus(item.address, *item.node, label),
                members: gs[i].members.push(at),
            },
        )
    } else {
        gs.push(
            GroupView {
                name: label.name,
                acc: AccView::start(seeded, item.address, label).plus(
                    item.address,
                    *item.node,
                    label,
                ),
                members: seq![at],
            },
        )
    }
}

/// The first `n` nodes, grouped by symbol in the order in which each first shows.
pub open spec fn groups_of(
    bins: BinaryRegistry,
    items: Seq<LevelItem>,
    seeded: bool,
    n: nat,
) -> Seq<GroupView>
    decreases n,
{
    if n == 0 {
        seq![]
    } else {
        grouped_with(
            groups_of(bins, items, seeded, (n - 1) as nat),
            seeded,
            (n - 1) as usize,
            items[n - 1],
            label_at(bins, items[n - 1].address),
        )
    }
}

/// No symbol has two groups.
pub open spec fn names_distinct(gs: Seq<GroupView>) -> bool {
    forall|i: int, j: int| 0 <= i < j < gs.len() ==> (#[trigger] gs[i]).name != (#[trigger] gs[j]).name
}

/// A position is in the group of its symbol.
pub open spec fn in_group(gs: Seq<GroupView>, g: int, at: usize) -> bool {
    0 <= g < gs.len() && gs[g].members.contains(at)
}

/// A position is in some group.
pub open spec fn has_group(gs: Seq<GroupView>, at: usize) -> bool {
    exists|g: int| in_group(gs, g, at)
}

/// Every node is in one group: the one of its symbol.
pub proof fn every_node_is_in_one_group(
    bins: BinaryRegistry,
    items: Seq<LevelItem>,
    seeded: bool,
    n: nat,
)
    requires
        n <= items.len() <= usize::MAX,
    ensures
        names_distinct(groups_of(bins, items, seeded, n)),
        forall|g: int, at: usize| #[trigger]
            in_group(groups_of(bins, items, seeded, n), g, at) ==> at < n && groups_of(
                bins,
                items,
                seeded,
                n,
            )[g].name == label_at(bins, items[at as int].address).name,
        forall|at: usize|
            at < n ==> #[trigger] has_group(groups_of(bins, items, seeded, n), at),
        forall|g: int|
            0 <= g < groups_of(bins, items, seeded, n).len() ==> (#[trigger] groups_of(
                bins,
                items,
                seeded,
                n,
            )[g]).members.len() > 0,
    decreases n,
{
    if n > 0 {
        every_node_is_in_one_group(bins, items, seeded, (n - 1) as nat);
        let before = groups_of(bins, items, seeded, (n - 1) as nat);
        let at = (n - 1) as usize;
        let label = label_at(bins, items[n - 1].address);
        let after = groups_of(bins, items, seeded, n);
        let home = if exists|i: int| is_group(before, label.name, i) {
            choose|i: int| is_group(before, label.name, i)
        } else {
            before.len() as int
        };
        assert(after[home].members.last() == at);
        assert(in_group(after, home, at));
        assert forall|g: int, x: usize| #[trigger] in_group(after, g, x) implies x < n
            && after[g].name == label_at(bins, items[x as int].address).name by {
            if g == home {
                let k = after[g].members.index_of(x);
                if k < after[g].members.len() - 1 {
                    assert(before[g].members[k] == x);
                    assert(in_group(before, g, x));
                }
            } else {
                assert(in_group(before, g, x));
            }
        }
        assert forall|x: usize| x < n implies #[trigger] has_group(after, x) by {
            if x < n - 1 {
                assert(has_group(before, x));
                let g = choose|g: int| #[trigger] in_group(before, g, x);
                let k = before[g].members.index_of(x);
                assert(after[g].members[k] == x);
                assert(in_group(after, g, x));
            }
        }
        assert forall|i: int, j: int| 0 <= i < j < after.len() implies (#[trigger] after[i]).name != (
        #[trigger] after[j]).name by {
            if j < before.len() {
                assert(before[i].name != before[j].name);
            } else {
                assert(!is_group(before, label.name, i));
            }
        }
        assert forall|g: int| 0 <= g < after.len() implies (#[trigger] after[g]).members.len() > 0 by {
            if g < before.len() {
                assert(before[g].members.len() > 0);
            }
        }
    }
}

/// Groups nodes by symbol.
pub fn group_items<'a>(bins: &BinaryRegistry, items: &Vec<LevelItem<'a>>, seeded: bool) -> (gs: Vec<
    SymbolGroup,
>)
    requires
        bins.wf(),
    ensures
        group_views(gs@) == groups_of(*bins, items@, seeded, items@.len()),
{
    let mut gs: Vec<SymbolGroup> = Vec::new();
    let mut n: usize = 0;
    assert(group_views(gs@) =~= groups_of(*bins, items@, seeded, 0));
    while n < items.len()
        invariant
            bins.wf(),
            n <= items@.len(),
            group_views(gs@) == groups_of(*bins, items@, seeded, n as nat),
        decreases items@.len() - n,
    {
        let item = items[n];
        let label = classify(bins, item.address);
        let ghost views = group_views(gs@);
        let mut i: usize = 0;
        let mut found = false;
        while i < gs.len() && !found
            invariant
                i <= gs@.len(),
                views == group_views(gs@),
                forall|j: int| 0 <= j < i ==> !is_group(views, label@.name, j),
                found ==> is_group(views, label@.name, i as int) && i < gs@.len(),
            decreases gs@.len() - i + (if found { 0int } else { 1int }),
        {
            assert(views[i as int] == gs@[i as int]@);
            if same_name(&gs[i].name, &label.name) {
                found = true;
            } else {
                i = i + 1;
            }
        }
        if found {
            proof {
                every_node_is_in_one_group(*bins, items@, seeded, n as nat);
                let k = choose|k: int| is_group(views, label@.name, k);
                assert(is_group(views, label@.name, k));
                if k < i {
                    assert(views[k].name != views[i as int].name);
                } else if i < k {
                    assert(views[i as int].name != views[k].name);
                }
            }
            let g = &mut gs[i];
            g.acc.accumulate(item.address, item.node, label.is_main, label.language.as_str());
            g.members.push(n);
            assert(group_views(gs@) =~= grouped_with(views, seeded, n, item, label@));
        } else {
            assert(forall|k: int| !is_group(views, label@.name, k));
            let mut acc = if seeded {
                SymbolAcc::new(item.address, label.is_main, label.language.as_str())
            } else {
                SymbolAcc::new(0, false, UNKNOWN_LANGUAGE)
            };
            acc.accumulate(item.address, item.node, label.is_main, label.language.as_str());
            let mut members: Vec<usize> = Vec::new();
            members.push(n);
            assert(members@ =~= seq![n]);
            let ghost name = label@.name;
            let ghost lv = label@;
            gs.push(SymbolGroup { name: label.name, acc, members });
            assert(group_views(gs@) =~= grouped_with(views, seeded, n, item, lv));
        }
        n = n + 1;
    }
    gs
}

/// Groups are listed by their time on and off the CPU, the longest first; those
/// with the same time by name.
pub open spec fn group_key(g: GroupView) -> LabelKeyView {
    LabelKeyView {
        first: (u64::MAX - g.acc.total()) as u64,
        second: 0,
        function_name: match g.name {
            Some(n) => Some(n.0),
            None => None,
        },
        binary: match g.name {
            Some(n) => Some(n.1),
            None => None,
        },
        address: 0,
    }
}

/// The keys by which groups are listed.
pub open spec fn group_keys(gs: Seq<GroupView>) -> Seq<LabelKeyView> {
    gs.map_values(|g: GroupView| group_key(g))
}

/// The groups with at least `threshold` of time, in the order in which they came.
pub open spec fn above(gs: Seq<GroupView>, threshold: u64) -> Seq<GroupView>
    decreases gs.len(),
{
    if gs.len() == 0 {
        gs
    } else if gs.last().acc.total() >= threshold {
        above(gs.drop_last(), threshold).push(gs.last())
    } else {
        above(gs.drop_last(), threshold)
    }
}

/// The groups with at least `threshold` of time, as they are listed.
pub open spec fn listed(gs: Seq<GroupView>, threshold: u64) -> Seq<GroupView> {
    stable_sorted(group_keys(above(gs, threshold)), above(gs, threshold))
}

/// The positions of the groups with at least `threshold` of time, as they are
/// listed.
pub fn list_groups(gs: &Vec<SymbolGroup>, threshold: u64) -> (order: Vec<usize>)
    ensures
        order@.len() == listed(group_views(gs@), threshold).len(),
        forall|i: int|
            0 <= i < order@.len() ==> (#[trigger] order@[i]) < gs@.len() && gs@[order@[i] as int]@
                == listed(group_views(gs@), threshold)[i],
{
    let ghost views = group_views(gs@);
    let mut kept: Vec<usize> = Vec::new();
    let mut keys: Vec<LabelKey> = Vec::new();
    let mut i: usize = 0;
    assert(views.take(0) =~= seq![]);
    while i < gs.len()
        invariant
            i <= gs@.len(),
            views == group_views(gs@),
            kept@.len() == keys@.len(),
            above(views.take(i as int), threshold).len() == kept@.len(),
            forall|k: int|
                0 <= k < kept@.len() ==> (#[trigger] kept@[k]) < gs@.len() && above(
                    views.take(i as int),
                    threshold,
                )[k] == gs@[kept@[k] as int]@,
            key_views(keys@) == group_keys(above(views.take(i as int), threshold)),
        decreases gs@.len() - i,
    {
        let g = &gs[i];
        let total: u64 = g.acc.total();
        let ghost before = above(views.take(i as int), threshold);
        proof {
            assert(views.take(i + 1).drop_last() =~= views.take(i as int));
            assert(views.take(i + 1).last() == g@);
        }
        if total >= threshold {
            let ghost held = keys@;
            let (function_name, binary) = match &g.name {
                Some(n) => (Some(n.function_name.clone()), Some(n.binary.clone())),
                None => (None, None),
            };
            keys.push(
                LabelKey { first: u64::MAX - total, second: 0, function_name, binary, address: 0 },
            );
            kept.push(i);
            proof {
                assert(keys@.last()@ == group_key(g@));
                assert(key_views(keys@) =~= key_views(held).push(group_key(g@)));
                assert(group_keys(before.push(g@)) =~= group_keys(before).push(group_key(g@)));
            }
        }
        i = i + 1;
    }
    assert(views.take(i as int) =~= views);
    let picked = stable_order(&keys);
    let ghost kept_views = above(views, threshold);
    proof {
        lemma_key_views_order(keys@, picked@);
        stable_order_gives_sorted(key_views(keys@), kept_views, picked@);
    }
    let mut order: Vec<usize> = Vec::new();
    let mut k: usize = 0;
    while k < picked.len()
        invariant
            k <= picked@.len(),
            picked@.len() == kept@.len(),
            kept_views.len() == kept@.len(),
            kept_views == above(group_views(gs@), threshold),
            is_stable_order(keys@, picked@),
            keys@.len() == kept@.len(),
            listed(group_views(gs@), threshold).len() == picked@.len(),
            forall|a: int|
                0 <= a < picked@.len() ==> #[trigger] listed(group_views(gs@), threshold)[a]
                    == kept_views[picked@[a] as int],
            forall|a: int|
                0 <= a < kept@.len() ==> (#[trigger] kept@[a]) < gs@.len() && kept_views[a]
                    == gs@[kept@[a] as int]@,
            order@.len() == k,
            forall|a: int|
                0 <= a < k ==> (#[trigger] order@[a]) < gs@.len() && gs@[order@[a] as int]@
                    == listed(group_views(gs@), threshold)[a],
        decreases picked@.len() - k,
    {
        assert(picked@[k as int] < keys@.len());
        order.push(kept[picked[k]]);
        proof {
            let x = picked@[k as int] as int;
            assert(kept_views[x] == gs@[kept@[x] as int]@);
            assert(listed(group_views(gs@), threshold)[k as int] == kept_views[x]);
        }
        k = k + 1;
    }
    order
}

/// Something that is measured at the nodes of a call tree.
#[derive(Clone, Copy, Debug, PartialEq, Eq, Structural)]
pub enum Quantity {
    OnCpu,
    Idle,
    Lock,
    Semaphore,
    Ipc,
    IoRead,
    IoWrite,
    Readiness,
    Sleep,
    Connect,
    OtherReason,
    PetSamples,
    OffCpuIntervals,
    Cycles,
    Instructions,
    L1dMisses,
    BranchMispreds,
}

/// How much of the time off the CPU is of one reason; nothing where it is no reason.
pub open spec fn amount_off(q: Quantity, b: OffCpuBreakdown) -> int {
    match q {
        Quantity::Idle => b.idle_ns as int,
        Quantity::Lock => b.lock_ns as int,
        Quantity::Semaphore => b.semaphore_ns as int,
        Quantity::Ipc => b.ipc_ns as int,
        Quantity::IoRead => b.io_read_ns as int,
        Quantity::IoWrite => b.io_write_ns as int,
        Quantity::Readiness => b.readiness_ns as int,
        Quantity::Sleep => b.sleep_ns as int,
        Quantity::Connect => b.connect_ns as int,
        Quantity::OtherReason => b.other_ns as int,
        _ => 0,
    }
}

/// How much was measured at a node.
pub open spec fn amount_at(q: Quantity, node: StackNode) -> int {
    match q {
        Quantity::OnCpu => node.on_cpu_ns as int,
        Quantity::PetSamples => node.pet_samples as int,
        Quantity::OffCpuIntervals => node.off_cpu_intervals as int,
        Quantity::Cycles => node.pmc.cycles as int,
        Quantity::Instructions => node.pmc.instructions as int,
        Quantity::L1dMisses => node.pmc.l1d_misses as int,
        Quantity::BranchMispreds => node.pmc.branch_mispreds as int,
        _ => amount_off(q, node.off_cpu),
    }
}

/// How much a group adds up to.
pub open spec fn amount_in(q: Quantity, acc: AccView) -> int {
    match q {
        Quantity::OnCpu => acc.on_cpu_ns as int,
        Quantity::PetSamples => acc.pet_samples as int,
        Quantity::OffCpuIntervals => acc.off_cpu_intervals as int,
        Quantity::Cycles => acc.pmc.cycles as int,
        Quantity::Instructions => acc.pmc.instructions as int,
        Quantity::L1dMisses => acc.pmc.l1d_misses as int,
        Quantity::BranchMispreds => acc.pmc.branch_mispreds as int,
        _ => amount_off(q, acc.off_cpu),
    }
}

/// How much was measured at each of some nodes.
pub open spec fn amounts(q: Quantity, items: Seq<LevelItem>) -> Seq<int> {
    items.map_values(|it: LevelItem| amount_at(q, *it.node))
}

/// How much was measured at each member of a group.
pub open spec fn member_amounts(q: Quantity, items: Seq<LevelItem>, members: Seq<usize>) -> Seq<int> {
    members.map_values(|m: usize| amount_at(q, *items[m as int].node))
}

/// The sums over the members, group by group.
spec fn group_sums(q: Quantity, items: Seq<LevelItem>, gs: Seq<GroupView>) -> Seq<int> {
    gs.map_values(|g: GroupView| sum_of(member_amounts(q, items, g.members)))
}

/// One more node adds what was measured there.
pub proof fn lemma_plus_amount(q: Quantity, acc: AccView, address: u64, node: StackNode, label: LabelView)
    ensures
        amount_in(q, acc.plus(address, node, label)) == as_fits(
            amount_in(q, acc) + amount_at(q, node),
        ),
{
    let sum = acc.plus(address, node, label);
    match q {
        Quantity::OnCpu => {
            assert(sum.on_cpu_ns == as_fits(acc.on_cpu_ns + node.on_cpu_ns));
        },
        Quantity::Idle => {
            assert(sum.off_cpu.idle_ns == as_fits(acc.off_cpu.idle_ns + node.off_cpu.idle_ns));
        },
        Quantity::Lock => {
            assert(sum.off_cpu.lock_ns == as_fits(acc.off_cpu.lock_ns + node.off_cpu.lock_ns));
        },
        Quantity::Semaphore => {
            assert(sum.off_cpu.semaphore_ns == as_fits(acc.off_cpu.semaphore_ns + node.off_cpu.semaphore_ns));
        },
        Quantity::Ipc => {
            assert(sum.off_cpu.ipc_ns == as_fits(acc.off_cpu.ipc_ns + node.off_cpu.ipc_ns));
        },
        Quantity::IoRead => {
            assert(sum.off_cpu.io_read_ns == as_fits(acc.off_cpu.io_read_ns + node.off_cpu.io_read_ns));
        },
        Quantity::IoWrite => {
            assert(sum.off_cpu.io_write_ns == as_fits(acc.off_cpu.io_write_ns + node.off_cpu.io_write_ns));
        },
        Quantity::Readiness => {
            assert(sum.off_cpu.readiness_ns == as_fits(acc.off_cpu.readiness_ns + node.off_cpu.readiness_ns));
        },
        Quantity::Sleep => {
            assert(sum.off_cpu.sleep_ns == as_fits(acc.off_cpu.sleep_ns + node.off_cpu.sleep_ns));
        },
        Quantity::Connect => {
            assert(sum.off_cpu.connect_ns == as_fits(acc.off_cpu.connect_ns + node.off_cpu.connect_ns));
        },
        Quantity::OtherReason => {
            assert(sum.off_cpu.other_ns == as_fits(acc.off_cpu.other_ns + node.off_cpu.other_ns));
        },
        Quantity::PetSamples => {
            assert(sum.pet_samples == as_fits(acc.pet_samples + node.pet_samples));
        },
        Quantity::OffCpuIntervals => {
            assert(sum.off_cpu_intervals == as_fits(acc.off_cpu_intervals + node.off_cpu_intervals));
        },
        Quantity::Cycles => {
            assert(sum.pmc.cycles == as_fits(acc.pmc.cycles + node.pmc.cycles));
        },
        Quantity::Instructions => {
            assert(sum.pmc.instructions == as_fits(acc.pmc.instructions + node.pmc.instructions));
        },
        Quantity::L1dMisses => {
            assert(sum.pmc.l1d_misses == as_fits(acc.pmc.l1d_misses + node.pmc.l1d_misses));
        },
        Quantity::BranchMispreds => {
            assert(sum.pmc.branch_mispreds == as_fits(acc.pmc.branch_mispreds + node.pmc.branch_mispreds));
        },
    }
}

/// Nothing has been measured at first.
proof fn lemma_start_amount(q: Quantity, seeded: bool, address: u64, label: LabelView)
    ensures
        amount_in(q, AccView::start(seeded, address, label)) == 0,
{
}

/// The law of groups: what a group adds up to is the sum over its members, at most what fits. That
/// holds of the time on the CPU, of the time off it for each reason, and of everything else that
/// is counted.
#[verifier::spinoff_prover]
#[verifier::rlimit(40)]
pub proof fn groups_hold_the_sums_of_their_members(
    bins: BinaryRegistry,
    items: Seq<LevelItem>,
    seeded: bool,
    n: nat,
    q: Quantity,
    k: int,
)
    requires
        n <= items.len() <= usize::MAX,
        0 <= k < groups_of(bins, items, seeded, n).len(),
    ensures
        amount_in(q, groups_of(bins, items, seeded, n)[k].acc) == as_fits(
            sum_of(member_amounts(q, items, groups_of(bins, items, seeded, n)[k].members)),
        ),
        sum_of(member_amounts(q, items, groups_of(bins, items, seeded, n)[k].members)) >= 0,
    decreases n,
{
    let before = groups_of(bins, items, seeded, (n - 1) as nat);
    let after = groups_of(bins, items, seeded, n);
    let at = (n - 1) as usize;
    let item = items[n - 1];
    let label = label_at(bins, item.address);
    let x = amount_at(q, *item.node);
    if exists|i: int| is_group(before, label.name, i) {
        let i = choose|i: int| is_group(before, label.name, i);
        groups_hold_the_sums_of_their_members(bins, items, seeded, (n - 1) as nat, q, k);
        if k == i {
            let held = member_amounts(q, items, before[k].members);
            sum_of_one_more(held, x);
            assert(member_amounts(q, items, after[k].members) =~= held.push(x));
            lemma_plus_amount(q, before[k].acc, item.address, *item.node, label);
        } else {
            assert(after[k] == before[k]);
        }
    } else if k < before.len() {
        groups_hold_the_sums_of_their_members(bins, items, seeded, (n - 1) as nat, q, k);
        assert(after[k] == before[k]);
    } else {
        let none = Seq::<int>::empty();
        sum_of_one_more(none, x);
        assert(after[k].members =~= seq![at]);
        assert(member_amounts(q, items, after[k].members) =~= none.push(x));
        lemma_start_amount(q, seeded, item.address, label);
        let start = AccView::start(seeded, item.address, label);
        lemma_plus_amount(q, start, item.address, *item.node, label);
    }
}

/// The members of all groups together are the nodes.
proof fn lemma_group_sums(
    bins: BinaryRegistry,
    items: Seq<LevelItem>,
    seeded: bool,
    n: nat,
    q: Quantity,
)
    requires
        n <= items.len() <= usize::MAX,
    ensures
        sum_of(group_sums(q, items, groups_of(bins, items, seeded, n))) == sum_of(
            amounts(q, items).take(n as int),
        ),
    decreases n,
{
    let all = amounts(q, items);
    if n == 0 {
        assert(group_sums(q, items, groups_of(bins, items, seeded, 0)) =~= seq![]);
        assert(all.take(0) =~= seq![]);
    } else {
        lemma_group_sums(bins, items, seeded, (n - 1) as nat, q);
        let before = groups_of(bins, items, seeded, (n - 1) as nat);
        let after = groups_of(bins, items, seeded, n);
        let at = (n - 1) as usize;
        let item = items[n - 1];
        let label = label_at(bins, item.address);
        let x = amount_at(q, *item.node);
        let sums = group_sums(q, items, before);
        assert(all.take(n as int).drop_last() =~= all.take(n - 1));
        assert(all.take(n as int).last() == x);
        if exists|i: int| is_group(before, label.name, i) {
            let i = choose|i: int| is_group(before, label.name, i);
            let held = member_amounts(q, items, before[i].members);
            sum_of_one_more(held, x);
            assert(member_amounts(q, items, after[i].members) =~= held.push(x));
            sum_of_update(sums, i, sums[i] + x);
            assert(group_sums(q, items, after) =~= sums.update(i, sums[i] + x));
        } else {
            let none = Seq::<int>::empty();
            sum_of_one_more(none, x);
            let new = after[before.len() as int].members;
            assert(new =~= seq![at]);
            assert(member_amounts(q, items, new) =~= none.push(x));
            sum_of_one_more(sums, x);
            assert(group_sums(q, items, after) =~= sums.push(x));
        }
    }
}

/// The law of levels: as long as it fits, what the groups of a level add up to is what was measured
/// at its nodes. Nothing gets lost and nothing is counted twice.
pub proof fn levels_keep_what_was_measured(
    bins: BinaryRegistry,
    items: Seq<LevelItem>,
    seeded: bool,
    q: Quantity,
)
    requires
        items.len() <= usize::MAX,
        sum_of(amounts(q, items)) <= u64::MAX,
    ensures
        sum_of(
            groups_of(bins, items, seeded, items.len()).map_values(
                |g: GroupView| amount_in(q, g.acc),
            ),
        ) == sum_of(amounts(q, items)),
{
    let n = items.len();
    let gs = groups_of(bins, items, seeded, n);
    let sums = group_sums(q, items, gs);
    lemma_group_sums(bins, items, seeded, n, q);
    assert(amounts(q, items).take(n as int) =~= amounts(q, items));
    assert forall|k: int| 0 <= k < sums.len() implies #[trigger] sums[k] >= 0 by {
        groups_hold_the_sums_of_their_members(bins, items, seeded, n, q, k);
    }
    sum_of_bounds(sums);
    let held = gs.map_values(|g: GroupView| amount_in(q, g.acc));
    assert forall|k: int| 0 <= k < held.len() implies held[k] == #[trigger] sums[k] by {
        groups_hold_the_sums_of_their_members(bins, items, seeded, n, q, k);
    }
    assert(held =~= sums);
}

/// The law of representatives: no member of a group has more time on the CPU than the one that
/// represents it; where any has time on the CPU, the group is shown under the address of its
/// representative, as what that address is shown as, and no member before it has as much.
pub proof fn groups_are_shown_by_their_busiest(
    bins: BinaryRegistry,
    items: Seq<LevelItem>,
    seeded: bool,
    n: nat,
    k: int,
)
    requires
        n <= items.len() <= usize::MAX,
        0 <= k < groups_of(bins, items, seeded, n).len(),
    ensures
        ({
            let g = groups_of(bins, items, seeded, n)[k];
            let spent = |i: int| items[g.members[i] as int].node.on_cpu_ns;
            &&& forall|i: int| 0 <= i < g.members.len() ==> #[trigger] spent(i) <= g.acc.rep_self_ns
            &&& g.acc.rep_self_ns > 0 ==> exists|r: int|
                {
                    &&& 0 <= r < g.members.len()
                    &&& #[trigger] spent(r) == g.acc.rep_self_ns
                    &&& g.acc.rep_address == items[g.members[r] as int].address
                    &&& g.acc.is_main == label_at(bins, g.acc.rep_address).is_main
                    &&& g.acc.language == label_at(bins, g.acc.rep_address).language
                    &&& forall|i: int| 0 <= i < r ==> #[trigger] spent(i) < g.acc.rep_self_ns
                }
            &&& seeded && g.acc.rep_self_ns == 0 ==> g.acc.rep_address == items[
                g.members[0] as int
            ].address
        }),
    decreases n,
{
    let before = groups_of(bins, items, seeded, (n - 1) as nat);
    let after = groups_of(bins, items, seeded, n);
    let item = items[n - 1];
    let label = label_at(bins, item.address);
    every_node_is_in_one_group(bins, items, seeded, (n - 1) as nat);
    let g = after[k];
    let spent = |i: int| items[g.members[i] as int].node.on_cpu_ns;
    let known = exists|i: int| is_group(before, label.name, i);
    let home = if known {
        choose|i: int| is_group(before, label.name, i)
    } else {
        before.len() as int
    };
    if k != home {
        groups_are_shown_by_their_busiest(bins, items, seeded, (n - 1) as nat, k);
        assert(after[k] == before[k]);
    } else if known {
        groups_are_shown_by_their_busiest(bins, items, seeded, (n - 1) as nat, k);
        let b = before[k];
        let last = b.members.len() as int;
        let was = |i: int| items[b.members[i] as int].node.on_cpu_ns;
        assert(forall|i: int| 0 <= i < last ==> g.members[i] == b.members[i]);
        assert(forall|i: int| 0 <= i < last ==> spent(i) == #[trigger] was(i));
        assert(g.members[last] == (n - 1) as usize);
        assert(spent(last) == item.node.on_cpu_ns);
        assert forall|i: int| 0 <= i < g.members.len() implies #[trigger] spent(i)
            <= g.acc.rep_self_ns by {
            if i < last {
                assert(was(i) <= b.acc.rep_self_ns);
            }
        }
        if item.node.on_cpu_ns > b.acc.rep_self_ns {
            assert forall|i: int| 0 <= i < last implies #[trigger] spent(i) < g.acc.rep_self_ns by {
                assert(was(i) <= b.acc.rep_self_ns);
            }
            assert(spent(last) == g.acc.rep_self_ns);
        } else if b.acc.rep_self_ns > 0 {
            let r = choose|r: int|
                {
                    &&& 0 <= r < b.members.len()
                    &&& #[trigger] was(r) == b.acc.rep_self_ns
                    &&& b.acc.rep_address == items[b.members[r] as int].address
                    &&& b.acc.is_main == label_at(bins, b.acc.rep_address).is_main
                    &&& b.acc.language == label_at(bins, b.acc.rep_address).language
                    &&& forall|i: int| 0 <= i < r ==> #[trigger] was(i) < b.acc.rep_self_ns
                };
            assert(spent(r) == g.acc.rep_self_ns);
            assert forall|i: int| 0 <= i < r implies #[trigger] spent(i) < g.acc.rep_self_ns by {
                assert(was(i) < b.acc.rep_self_ns);
            }
        }
    } else {
        assert(g.members =~= seq![(n - 1) as usize]);
        assert(spent(0) == item.node.on_cpu_ns);
    }
}

/// The law of listing: groups with more time on and off the CPU come first, those with the same
/// time by name; with no threshold all of them are listed.
pub proof fn longest_groups_come_first(gs: Seq<GroupView>, threshold: u64, i: int, j: int)
    requires
        gs.len() <= usize::MAX,
        0 <= i < j < listed(gs, threshold).len(),
    ensures
        listed(gs, threshold)[i].acc.total() >= listed(gs, threshold)[j].acc.total(),
        listed(gs, threshold)[j].acc.total() >= threshold,
        gs.contains(listed(gs, threshold)[i]),
        listed(gs, threshold)[i].acc.total() == listed(gs, threshold)[j].acc.total() ==> opt_text_le(
            match listed(gs, threshold)[i].name {
                Some(n) => Some(n.0),
                None => None,
            },
            match listed(gs, threshold)[j].name {
                Some(n) => Some(n.0),
                None => None,
            },
        ),
{
    let kept = above(gs, threshold);
    let keys = group_keys(kept);
    lemma_above(gs, threshold);
    let order = crate::sort::existing_order(keys);
    stable_order_gives_sorted(keys, kept, order);
    assert(crate::sort::goes_before(keys, order[i] as int, order[j] as int));
    assert(order[i] < keys.len() && order[j] < keys.len());
    let a = kept[order[i] as int];
    let b = kept[order[j] as int];
    assert(keys[order[i] as int] == group_key(a) && keys[order[j] as int] == group_key(b));
    opt_text_le_total(group_key(a).function_name, group_key(a).function_name);
}

/// What is above the threshold.
pub proof fn lemma_above(gs: Seq<GroupView>, threshold: u64)
    ensures
        above(gs, threshold).len() <= gs.len(),
        forall|i: int|
            0 <= i < above(gs, threshold).len() ==> gs.contains(
                #[trigger] above(gs, threshold)[i],
            ) && above(gs, threshold)[i].acc.total() >= threshold,
        threshold == 0 ==> above(gs, threshold) == gs,
        forall|k: int|
            0 <= k < gs.len() && (#[trigger] gs[k]).acc.total() >= threshold ==> above(
                gs,
                threshold,
            ).contains(gs[k]),
    decreases gs.len(),
{
    if gs.len() > 0 {
        let init = gs.drop_last();
        lemma_above(init, threshold);
        let before = above(init, threshold);
        let after = above(gs, threshold);
        assert forall|i: int| 0 <= i < after.len() implies gs.contains(#[trigger] after[i])
            && after[i].acc.total() >= threshold by {
            if i < before.len() {
                assert(before[i] == after[i]);
                assert(init.contains(before[i]));
                let k = choose|k: int| 0 <= k < init.len() && init[k] == before[i];
                assert(gs[k] == after[i]);
            } else {
                assert(gs[gs.len() - 1] == after[i]);
            }
        }
        assert forall|k: int| 0 <= k < gs.len() && (#[trigger] gs[k]).acc.total()
            >= threshold implies after.contains(gs[k]) by {
            if k < init.len() {
                assert(init[k] == gs[k]);
                assert(before.contains(init[k]));
                let i = choose|i: int| 0 <= i < before.len() && before[i] == init[k];
                assert(after[i] == gs[k]);
            } else {
                assert(after[after.len() - 1] == gs[k]);
            }
        }
        if threshold == 0 {
            assert(after =~= gs);
        }
    } else {
        assert(above(gs, threshold) =~= gs);
    }
}

/// The law of a level without a threshold: listing keeps what was measured.
pub proof fn listing_keeps_what_was_measured(gs: Seq<GroupView>, q: Quantity)
    requires
        gs.len() <= usize::MAX,
    ensures
        listed(gs, 0).len() == gs.len(),
        sum_of(listed(gs, 0).map_values(|g: GroupView| amount_in(q, g.acc))) == sum_of(
            gs.map_values(|g: GroupView| amount_in(q, g.acc)),
        ),
{
    lemma_above(gs, 0);
    let keys = group_keys(gs);
    let order = crate::sort::existing_order(keys);
    stable_order_gives_sorted(keys, gs, order);
    let f = |g: GroupView| amount_in(q, g.acc);
    sorting_keeps_sums(keys, gs, f);
    assert(listed(gs, 0).map_values(|g: GroupView| amount_in(q, g.acc)) =~= stable_sorted(
        keys,
        gs,
    ).map_values(f));
    assert(gs.map_values(|g: GroupView| amount_in(q, g.acc)) =~= gs.map_values(f));
}

/// The time off the CPU over all reasons.
pub open spec fn time_off(b: OffCpuBreakdown) -> int {
    sum_of(
        seq![
            b.idle_ns as int,
            b.lock_ns as int,
            b.semaphore_ns as int,
            b.ipc_ns as int,
            b.io_read_ns as int,
            b.io_write_ns as int,
            b.readiness_ns as int,
            b.sleep_ns as int,
            b.connect_ns as int,
            b.other_ns as int,
        ],
    )
}

/// The time off the CPU, reason by reason.
pub proof fn lemma_time_off(b: OffCpuBreakdown)
    ensures
        time_off(b) == b.idle_ns + b.lock_ns + b.semaphore_ns + b.ipc_ns + b.io_read_ns
            + b.io_write_ns + b.readiness_ns + b.sleep_ns + b.connect_ns + b.other_ns,
{
    let s0 = Seq::<int>::empty();
    let s1 = s0.push(b.idle_ns as int);
    let s2 = s1.push(b.lock_ns as int);
    let s3 = s2.push(b.semaphore_ns as int);
    let s4 = s3.push(b.ipc_ns as int);
    let s5 = s4.push(b.io_read_ns as int);
    let s6 = s5.push(b.io_write_ns as int);
    let s7 = s6.push(b.readiness_ns as int);
    let s8 = s7.push(b.sleep_ns as int);
    let s9 = s8.push(b.connect_ns as int);
    let s10 = s9.push(b.other_ns as int);
    sum_of_one_more(s0, b.idle_ns as int);
    sum_of_one_more(s1, b.lock_ns as int);
    sum_of_one_more(s2, b.semaphore_ns as int);
    sum_of_one_more(s3, b.ipc_ns as int);
    sum_of_one_more(s4, b.io_read_ns as int);
    sum_of_one_more(s5, b.io_write_ns as int);
    sum_of_one_more(s6, b.readiness_ns as int);
    sum_of_one_more(s7, b.sleep_ns as int);
    sum_of_one_more(s8, b.connect_ns as int);
    sum_of_one_more(s9, b.other_ns as int);
    assert(s10 =~= seq![
        b.idle_ns as int,
        b.lock_ns as int,
        b.semaphore_ns as int,
        b.ipc_ns as int,
        b.io_read_ns as int,
        b.io_write_ns as int,
        b.readiness_ns as int,
        b.sleep_ns as int,
        b.connect_ns as int,
        b.other_ns as int,
    ]);
}

/// The law of totals: they count the time on the CPU and the time off it for every reason.
pub proof fn totals_count_every_reason(acc: AccView)
    ensures
        acc.off_cpu.total() == as_fits(time_off(acc.off_cpu)),
        acc.total() == as_fits(acc.on_cpu_ns + as_fits(time_off(acc.off_cpu))),
{
    lemma_time_off(acc.off_cpu);
}

/// The law of labels: an address is shown by the function and the binary of its symbol, and under no
/// name where it has none.
pub proof fn labels_show_the_symbol(bins: BinaryRegistry, address: u64)
    ensures
        bins.symbol_at(address) is None ==> label_at(bins, address).name is None && !label_at(
            bins,
            address,
        ).is_main,
        bins.symbol_at(address) matches Some(s) ==> label_at(bins, address) == (LabelView {
            name: Some((s.function_name, s.binary)),
            is_main: s.is_main,
            language: s.language,
        }),
{
}

} // verus!
