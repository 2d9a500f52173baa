//! The flame graph: a call tree by symbol.
use vstd::prelude::*;

use crate::binaries::{BinaryRegistry, UNKNOWN_LANGUAGE};
use crate::interner::{
    asked_opt, extends, extends_transitive, interned, interning_goes_on, stands_for,
    stands_for_opt, stands_for_stays, texts, StringInterner,
};
use crate::offcpu::{OffCpuBreakdown, PmcAccum};
use crate::probe_timing::sat_add;
use crate::sums::{as_fits, sum_of, sum_of_both, sum_of_bounds};
use crate::symbol_groups::{
    amount_at, amount_in, amount_off, amounts, every_node_is_in_one_group, group_items,
    group_views, groups_hold_the_sums_of_their_members, groups_of, in_group, label_at, lemma_above,
    levels_keep_what_was_measured, list_groups, listed, listing_keeps_what_was_measured,
    longest_groups_come_first, member_amounts, time_off, totals_count_every_reason, GroupView,
    LevelItem, Quantity, StackChild, StackNode, SymbolGroup,
};

verus! {

/// One node of a flame graph. Names are ids of a table of strings.
pub struct FlameNode {
    pub address: u64,
    pub on_cpu_ns: u64,
    pub off_cpu: OffCpuBreakdown,
    pub pet_samples: u64,
    pub off_cpu_intervals: u64,
    pub function_name: Option<u32>,
    pub binary: Option<u32>,
    pub is_main: bool,
    pub language: u32,
    pub cycles: u64,
    pub instructions: u64,
    pub l1d_misses: u64,
    pub branch_mispreds: u64,
    pub children: Vec<FlameNode>,
}

/// The node shows the group. Counters are shown where `counters` says so.
pub open spec fn shows_group(
    node: FlameNode,
    strings: Seq<Seq<char>>,
    g: GroupView,
    counters: bool,
) -> bool {
    &&& node.address == g.acc.rep_address
    &&& node.on_cpu_ns == g.acc.on_cpu_ns
    &&& node.off_cpu == g.acc.off_cpu
    &&& node.pet_samples == g.acc.pet_samples
    &&& node.off_cpu_intervals == g.acc.off_cpu_intervals
    &&& stands_for_opt(
        strings,
        node.function_name,
        match g.name {
            Some(n) => Some(n.0),
            None => None,
        },
    )
    &&& stands_for_opt(
        strings,
        node.binary,
        match g.name {
            Some(n) => Some(n.1),
            None => None,
        },
    )
    &&& node.is_main == g.acc.is_main
    &&& stands_for(strings, node.language, g.acc.language)
    &&& node.cycles == if counters {
        g.acc.pmc.cycles
    } else {
        0
    }
    &&& node.instructions == if counters {
        g.acc.pmc.instructions
    } else {
        0
    }
    &&& node.l1d_misses == if counters {
        g.acc.pmc.l1d_misses
    } else {
        0
    }
    &&& node.branch_mispreds == if counters {
        g.acc.pmc.branch_mispreds
    } else {
        0
    }
}

/// The callees of a node.
pub open spec fn callees_of(node: StackNode) -> Seq<LevelItem<'static>> {
    node.children@.map_values(|c: StackChild| LevelItem { address: c.address, node: &c.node })
}

/// The callees of the nodes at some positions, one node after the other.
pub open spec fn callees_of_all(items: Seq<LevelItem>, at: Seq<usize>) -> Seq<LevelItem<'static>>
    decreases at.len(),
{
    if at.len() == 0 {
        seq![]
    } else {
        callees_of_all(items, at.drop_last()) + callees_of(*items[at.last() as int].node)
    }
}

/// How one level of a flame graph is drawn.
#[derive(Clone, Copy, Debug, PartialEq, Eq, Structural)]
pub struct FlameStyle {
    /// Groups start with their first member as their representative.
    pub seeded: bool,
    /// Groups with less time are left out.
    pub threshold: u64,
    /// Hardware counters are shown.
    pub counters: bool,
}

/// The nodes show the groups of `items`, and below each the callees of its members.
pub open spec fn is_level(
    nodes: Seq<FlameNode>,
    strings: Seq<Seq<char>>,
    bins: BinaryRegistry,
    items: Seq<LevelItem>,
    style: FlameStyle,
) -> bool
    decreases nodes,
{
    let gs = listed(groups_of(bins, items, style.seeded, items.len()), style.threshold);
    &&& nodes.len() == gs.len()
    &&& forall|i: int|
        0 <= i < nodes.len() ==> shows_group(#[trigger] nodes[i], strings, gs[i], style.counters)
            && is_level(
            nodes[i].children@,
            strings,
            bins,
            callees_of_all(items, gs[i].members),
            style,
        )
}

/// The strings that the node of a group names, in their order: its function and its binary where
/// they are known, and its language.
pub open spec fn group_texts(g: GroupView) -> Seq<Seq<char>> {
    match g.name {
        Some(n) => seq![n.0, n.1, g.acc.language],
        None => seq![g.acc.language],
    }
}

/// The strings that the first `n` nodes of a level name, in the order in which they are drawn:
/// what is below a node comes before the node.
pub open spec fn level_texts(
    nodes: Seq<FlameNode>,
    n: nat,
    bins: BinaryRegistry,
    items: Seq<LevelItem>,
    style: FlameStyle,
) -> Seq<Seq<char>>
    decreases nodes, n,
{
    if n == 0 || n > nodes.len() {
        seq![]
    } else {
        let gs = listed(groups_of(bins, items, style.seeded, items.len()), style.threshold);
        let last = nodes[n - 1];
        let before = level_texts(nodes, (n - 1) as nat, bins, items, style);
        let below = level_texts(
            last.children@,
            last.children@.len(),
            bins,
            callees_of_all(items, gs[n - 1].members),
            style,
        );
        before + below + group_texts(gs[n - 1])
    }
}

/// What nodes name does not depend on those behind them.
proof fn lemma_texts_of_first(
    nodes: Seq<FlameNode>,
    more: Seq<FlameNode>,
    n: nat,
    bins: BinaryRegistry,
    items: Seq<LevelItem>,
    style: FlameStyle,
)
    requires
        n <= nodes.len() <= more.len(),
        forall|i: int| 0 <= i < n ==> #[trigger] nodes[i] == more[i],
    ensures
        level_texts(nodes, n, bins, items, style) == level_texts(more, n, bins, items, style),
    decreases n,
{
    if n > 0 {
        lemma_texts_of_first(nodes, more, (n - 1) as nat, bins, items, style);
        assert(nodes[n - 1] == more[n - 1]);
    }
}

/// A level stays what it is when strings are added to the table.
pub proof fn level_stays(
    nodes: Seq<FlameNode>,
    a: Seq<Seq<char>>,
    b: Seq<Seq<char>>,
    bins: BinaryRegistry,
    items: Seq<LevelItem>,
    style: FlameStyle,
)
    requires
        is_level(nodes, a, bins, items, style),
        extends(a, b),
    ensures
        is_level(nodes, b, bins, items, style),
    decreases nodes,
{
    let gs = listed(groups_of(bins, items, style.seeded, items.len()), style.threshold);
    assert forall|i: int| 0 <= i < nodes.len() implies shows_group(
        #[trigger] nodes[i],
        b,
        gs[i],
        style.counters,
    ) && is_level(
        nodes[i].children@,
        b,
        bins,
        callees_of_all(items, gs[i].members),
        style,
    ) by {
        let node = nodes[i];
        shown_group_stays(node, a, b, gs[i], style.counters);
        level_stays(node.children@, a, b, bins, callees_of_all(items, gs[i].members), style);
    }
}

/// A node shows its group also when strings are added to the table.
pub proof fn shown_group_stays(
    node: FlameNode,
    a: Seq<Seq<char>>,
    b: Seq<Seq<char>>,
    g: GroupView,
    counters: bool,
)
    requires
        shows_group(node, a, g, counters),
        extends(a, b),
    ensures
        shows_group(node, b, g, counters),
{
    if node.function_name is Some {
        stands_for_stays(a, b, node.function_name.unwrap(), g.name.unwrap().0);
    }
    if node.binary is Some {
        stands_for_stays(a, b, node.binary.unwrap(), g.name.unwrap().1);
    }
    stands_for_stays(a, b, node.language, g.acc.language);
}

/// The tree below a node has at most `h` levels, itself included.
pub open spec fn within_height(node: StackNode, h: nat) -> bool
    decreases h,
{
    h > 0 && forall|i: int|
        0 <= i < node.children@.len() ==> within_height(
            (#[trigger] node.children@[i]).node,
            (h - 1) as nat,
        )
}

/// Room for more levels is room.
pub proof fn height_grows(node: StackNode, h: nat, k: nat)
    requires
        within_height(node, h),
        h <= k,
    ensures
        within_height(node, k),
    decreases h,
{
    assert forall|i: int| 0 <= i < node.children@.len() implies within_height(
        (#[trigger] node.children@[i]).node,
        (k - 1) as nat,
    ) by {
        height_grows(node.children@[i].node, (h - 1) as nat, (k - 1) as nat);
    }
}

/// Every tree has a height.
pub proof fn some_height(node: StackNode) -> (h: nat)
    ensures
        within_height(node, h),
    decreases node,
{
    let below = some_height_below(node.children@);
    below + 1
}

/// Some trees have a height in common.
proof fn some_height_below(children: Seq<StackChild>) -> (h: nat)
    ensures
        forall|i: int| 0 <= i < children.len() ==> within_height((#[trigger] children[i]).node, h),
    decreases children,
{
    if children.len() == 0 {
        0
    } else {
        let rest = children.drop_last();
        let a = some_height_below(rest);
        let last = children[children.len() - 1];
        let b = some_height(last.node);
        let h = if a >= b {
            a
        } else {
            b
        };
        assert forall|i: int| 0 <= i < children.len() implies within_height(
            (#[trigger] children[i]).node,
            h,
        ) by {
            if i < rest.len() {
                assert(rest[i] == children[i]);
                height_grows(children[i].node, a, h);
            } else {
                height_grows(children[i].node, b, h);
            }
        }
        h
    }
}

/// The trees of all items have at most `h` levels.
pub open spec fn items_within(items: Seq<LevelItem>, h: nat) -> bool {
    forall|i: int| 0 <= i < items.len() ==> within_height(*(#[trigger] items[i]).node, h)
}

/// The callees of some nodes, one node after the other.
pub fn collect_callees<'a>(
    items: &Vec<LevelItem<'a>>,
    at: &Vec<usize>,
    Ghost(h): Ghost<nat>,
) -> (out: Vec<LevelItem<'a>>)
    requires
        forall|k: int| 0 <= k < at@.len() ==> #[trigger] at@[k] < items@.len(),
        items_within(items@, h),
        h > 0,
    ensures
        out@ == callees_of_all(items@, at@),
        items_within(out@, (h - 1) as nat),
{
    let mut out: Vec<LevelItem<'a>> = Vec::new();
    let mut k: usize = 0;
    assert(at@.take(0) =~= seq![]);
    while k < at.len()
        invariant
            k <= at@.len(),
            forall|j: int| 0 <= j < at@.len() ==> #[trigger] at@[j] < items@.len(),
            items_within(items@, h),
            h > 0,
            out@ == callees_of_all(items@, at@.take(k as int)),
            items_within(out@, (h - 1) as nat),
        decreases at@.len() - k,
    {
        assert(at@[k as int] < items@.len());
        let node: &'a StackNode = items[at[k]].node;
        let ghost before = out@;
        proof {
            assert(within_height(*items@[at@[k as int] as int].node, h));
            assert(at@.take(k + 1).drop_last() =~= at@.take(k as int));
            assert(at@.take(k + 1).last() == at@[k as int]);
            assert(before + callees_of(*node).take(0) =~= before);
        }
        let mut c: usize = 0;
        while c < node.children.len()
            invariant
                c <= node.children@.len(),
                within_height(*node, h),
                h > 0,
                out@ == before + callees_of(*node).take(c as int),
                items_within(out@, (h - 1) as nat),
            decreases node.children@.len() - c,
        {
            let ghost held = out@;
            out.push(LevelItem { address: node.children[c].address, node: &node.children[c].node });
            proof {
                let item = callees_of(*node)[c as int];
                assert(within_height(node.children@[c as int].node, (h - 1) as nat));
                assert(out@ =~= held.push(item));
                assert(callees_of(*node).take(c + 1) =~= callees_of(*node).take(c as int).push(item));
                assert(out@ =~= before + callees_of(*node).take(c + 1));
            }
            c = c + 1;
        }
        assert(callees_of(*node).take(c as int) =~= callees_of(*node));
        k = k + 1;
    }
    assert(at@.take(k as int) =~= at@);
    out
}

/// The positions that a group of a level lists are positions of the level.
pub proof fn listed_members_are_positions(
    bins: BinaryRegistry,
    items: Seq<LevelItem>,
    seeded: bool,
    g: GroupView,
    k: int,
)
    requires
        items.len() <= usize::MAX,
        0 <= k < groups_of(bins, items, seeded, items.len()).len(),
        g == groups_of(bins, items, seeded, items.len())[k],
    ensures
        forall|m: int| 0 <= m < g.members.len() ==> #[trigger] g.members[m] < items.len(),
{
    every_node_is_in_one_group(bins, items, seeded, items.len());
    let gs = groups_of(bins, items, seeded, items.len());
    assert forall|m: int| 0 <= m < g.members.len() implies #[trigger] g.members[m] < items.len() by {
        assert(gs[k].members.contains(g.members[m]));
        assert(in_group(gs, k, g.members[m]));
    }
}

/// Asking for what a group names, one string after the other.
pub proof fn interning_a_group(table: Seq<Seq<char>>, g: GroupView)
    ensures
        ({
            let named = interned(
                table,
                asked_opt(
                    match g.name {
                        Some(n) => Some(n.0),
                        None => None,
                    },
                ),
            );
            let placed = interned(
                named,
                asked_opt(
                    match g.name {
                        Some(n) => Some(n.1),
                        None => None,
                    },
                ),
            );
            interned(placed, seq![g.acc.language]) == interned(table, group_texts(g))
        }),
{
    let language = seq![g.acc.language];
    match g.name {
        Some(n) => {
            interning_goes_on(table, seq![n.0], seq![n.1]);
            interning_goes_on(table, seq![n.0] + seq![n.1], language);
            assert(seq![n.0] + seq![n.1] + language =~= group_texts(g));
        },
        None => {
            assert(group_texts(g) =~= language);
        },
    }
}

/// The node of a group, whose callees are drawn already.
pub fn group_node(
    g: &SymbolGroup,
    children: Vec<FlameNode>,
    counters: bool,
    interner: &mut StringInterner,
) -> (node: FlameNode)
    requires
        old(interner).wf(),
    ensures
        final(interner).wf(),
        final(interner).table() == interned(old(interner).table(), group_texts(g@)),
        extends(old(interner).table(), final(interner).table()),
        shows_group(node, final(interner).table(), g@, counters),
        node.children == children,
{
    let ghost t0 = interner.table();
    let function_name = interner.intern_opt(
        match &g.name {
            Some(n) => Some(n.function_name.as_str()),
            None => None,
        },
    );
    let ghost t1 = interner.table();
    let binary = interner.intern_opt(
        match &g.name {
            Some(n) => Some(n.binary.as_str()),
            None => None,
        },
    );
    let ghost t2 = interner.table();
    let language: u32 = interner.intern_str(g.acc.language.as_str());
    let ghost t3 = interner.table();
    proof {
        extends_transitive(t0, t1, t2);
        extends_transitive(t0, t2, t3);
        extends_transitive(t1, t2, t3);
        interning_a_group(t0, g@);
        if function_name is Some {
            stands_for_stays(t1, t3, function_name.unwrap(), g@.name.unwrap().0);
        }
        if binary is Some {
            stands_for_stays(t2, t3, binary.unwrap(), g@.name.unwrap().1);
        }
    }
    FlameNode {
        address: g.acc.rep_address,
        on_cpu_ns: g.acc.on_cpu_ns,
        off_cpu: g.acc.off_cpu,
        pet_samples: g.acc.pet_samples,
        off_cpu_intervals: g.acc.off_cpu_intervals,
        function_name,
        binary,
        is_main: g.acc.is_main,
        language,
        cycles: if counters {
            g.acc.pmc.cycles
        } else {
            0
        },
        instructions: if counters {
            g.acc.pmc.instructions
        } else {
            0
        },
        l1d_misses: if counters {
            g.acc.pmc.l1d_misses
        } else {
            0
        },
        branch_mispreds: if counters {
            g.acc.pmc.branch_mispreds
        } else {
            0
        },
        children,
    }
}

/// Draws the groups of `items`, and below each the callees of its members.
pub fn build_children<'a>(
    bins: &BinaryRegistry,
    items: &Vec<LevelItem<'a>>,
    style: FlameStyle,
    interner: &mut StringInterner,
    Ghost(h): Ghost<nat>,
) -> (nodes: Vec<FlameNode>)
    requires
        bins.wf(),
        old(interner).wf(),
        items_within(items@, h),
    ensures
        final(interner).wf(),
        final(interner).table() == interned(
            old(interner).table(),
            level_texts(nodes@, nodes@.len(), *bins, items@, style),
        ),
        extends(old(interner).table(), final(interner).table()),
        is_level(nodes@, final(interner).table(), *bins, items@, style),
    decreases h,
{
    let groups = group_items(bins, items, style.seeded);
    let order = list_groups(&groups, style.threshold);
    let ghost gs = listed(
        groups_of(*bins, items@, style.seeded, items@.len()),
        style.threshold,
    );
    let mut nodes: Vec<FlameNode> = Vec::new();
    let mut i: usize = 0;
    proof {
        assert(items.len() <= usize::MAX);
        assert(interner.table().take(interner.table().len() as int) =~= interner.table());
    }
    while i < order.len()
        invariant
            bins.wf(),
            interner.wf(),
            items_within(items@, h),
            items@.len() <= usize::MAX,
            group_views(groups@) == groups_of(*bins, items@, style.seeded, items@.len()),
            gs == listed(
                groups_of(*bins, items@, style.seeded, items@.len()),
                style.threshold,
            ),
            order@.len() == gs.len(),
            forall|k: int|
                0 <= k < order@.len() ==> (#[trigger] order@[k]) < groups@.len()
                    && groups@[order@[k] as int]@ == gs[k],
            i <= order@.len(),
            nodes@.len() == i,
            interner.table() == interned(
                old(interner).table(),
                level_texts(nodes@, i as nat, *bins, items@, style),
            ),
            extends(old(interner).table(), interner.table()),
            forall|k: int|
                0 <= k < i ==> shows_group(
                    #[trigger] nodes@[k],
                    interner.table(),
                    gs[k],
                    style.counters,
                ) && is_level(
                    nodes@[k].children@,
                    interner.table(),
                    *bins,
                    callees_of_all(items@, gs[k].members),
                    style,
                ),
        decreases order@.len() - i,
    {
        assert(order@[i as int] < groups@.len());
        let g = &groups[order[i]];
        proof {
            assert(group_views(groups@)[order@[i as int] as int] == g@);
            listed_members_are_positions(
                *bins,
                items@,
                style.seeded,
                g@,
                order@[i as int] as int,
            );
            every_node_is_in_one_group(*bins, items@, style.seeded, items@.len());
            assert(g@.members.len() > 0);
            assert(g@.members[0] < items@.len());
            assert(within_height(*items@[g@.members[0] as int].node, h));
        }
        let ghost t0 = interner.table();
        let below = collect_callees(items, &g.members, Ghost(h));
        let children = build_children(bins, &below, style, interner, Ghost((h - 1) as nat));
        let ghost t1 = interner.table();
        let node = group_node(g, children, style.counters, interner);
        let ghost t2 = interner.table();
        proof {
            extends_transitive(t0, t1, t2);
            extends_transitive(old(interner).table(), t0, t2);
            level_stays(node.children@, t1, t2, *bins, below@, style);
            assert forall|k: int| 0 <= k < i implies shows_group(
                #[trigger] nodes@[k],
                t2,
                gs[k],
                style.counters,
            ) && is_level(
                nodes@[k].children@,
                t2,
                *bins,
                callees_of_all(items@, gs[k].members),
                style,
            ) by {
                shown_group_stays(nodes@[k], t0, t2, gs[k], style.counters);
                level_stays(
                    nodes@[k].children@,
                    t0,
                    t2,
                    *bins,
                    callees_of_all(items@, gs[k].members),
                    style,
                );
            }
        }
        let ghost drawn = nodes@;
        nodes.push(node);
        proof {
            let before = level_texts(drawn, i as nat, *bins, items@, style);
            let named = level_texts(
                node.children@,
                node.children@.len(),
                *bins,
                callees_of_all(items@, gs[i as int].members),
                style,
            );
            lemma_texts_of_first(drawn, nodes@, i as nat, *bins, items@, style);
            interning_goes_on(old(interner).table(), before, named);
            interning_goes_on(old(interner).table(), before + named, group_texts(gs[i as int]));
            assert(nodes@[i as int] == node);
        }
        i = i + 1;
    }
    nodes
}

/// The node has the symbol with these ids.
pub open spec fn has_symbol(node: FlameNode, function_name: Option<u32>, binary: Option<u32>) -> bool {
    node.function_name is Some && node.function_name == function_name && node.binary == binary
}

/// Whether two nodes have the same, known symbol.
pub fn symbol_eq(a: &FlameNode, function_name: Option<u32>, binary: Option<u32>) -> (r: bool)
    ensures
        r == has_symbol(*a, function_name, binary),
{
    a.function_name.is_some() && same_id(a.function_name, function_name) && same_id(
        a.binary,
        binary,
    )
}

/// Whether two optional ids are the same.
fn same_id(a: Option<u32>, b: Option<u32>) -> (r: bool)
    ensures
        r == (a == b),
{
    match (a, b) {
        (Some(x), Some(y)) => x == y,
        (None, None) => true,
        _ => false,
    }
}

/// What is called below a run of single calls from a symbol to itself.
pub open spec fn below_recursion(
    children: Seq<FlameNode>,
    function_name: Option<u32>,
    binary: Option<u32>,
) -> Seq<FlameNode>
    decreases children,
{
    if children.len() == 1 && has_symbol(children[0], function_name, binary) {
        below_recursion(children[0].children@, function_name, binary)
    } else {
        children
    }
}

/// The two nodes agree but for what is below them.
pub open spec fn same_but_children(a: FlameNode, b: FlameNode) -> bool {
    &&& a.address == b.address
    &&& a.on_cpu_ns == b.on_cpu_ns
    &&& a.off_cpu == b.off_cpu
    &&& a.pet_samples == b.pet_samples
    &&& a.off_cpu_intervals == b.off_cpu_intervals
    &&& a.function_name == b.function_name
    &&& a.binary == b.binary
    &&& a.is_main == b.is_main
    &&& a.language == b.language
    &&& a.cycles == b.cycles
    &&& a.instructions == b.instructions
    &&& a.l1d_misses == b.l1d_misses
    &&& a.branch_mispreds == b.branch_mispreds
}

/// `folded` is `node` with every run of single calls from a symbol to itself made
/// into one node.
pub open spec fn is_folded(node: FlameNode, folded: FlameNode) -> bool
    decreases folded,
{
    &&& same_but_children(node, folded)
    &&& are_folded(
        below_recursion(node.children@, node.function_name, node.binary),
        folded.children@,
    )
}

/// The nodes are folded one by one.
pub open spec fn are_folded(nodes: Seq<FlameNode>, folded: Seq<FlameNode>) -> bool
    decreases folded,
{
    &&& nodes.len() == folded.len()
    &&& forall|i: int| 0 <= i < folded.len() ==> is_folded(nodes[i], #[trigger] folded[i])
}

/// Makes every run of single calls from a symbol to itself into one node.
pub fn fold_recursion(node: FlameNode) -> (r: FlameNode)
    ensures
        is_folded(node, r),
    decreases node, 0nat,
{
    let FlameNode {
        address,
        on_cpu_ns,
        off_cpu,
        pet_samples,
        off_cpu_intervals,
        function_name,
        binary,
        is_main,
        language,
        cycles,
        instructions,
        l1d_misses,
        branch_mispreds,
        children,
    } = node;
    let children = fold_below(children, function_name, binary);
    FlameNode {
        address,
        on_cpu_ns,
        off_cpu,
        pet_samples,
        off_cpu_intervals,
        function_name,
        binary,
        is_main,
        language,
        cycles,
        instructions,
        l1d_misses,
        branch_mispreds,
        children,
    }
}

/// Folds what is below a node with the symbol of these ids.
fn fold_below(children: Vec<FlameNode>, function_name: Option<u32>, binary: Option<u32>) -> (r: Vec<
    FlameNode,
>)
    ensures
        are_folded(below_recursion(children@, function_name, binary), r@),
    decreases children, 1nat,
{
    let ghost src = children@;
    if children.len() == 1 && symbol_eq(&children[0], function_name, binary) {
        let mut children = children;
        match children.pop() {
            Some(only) => {
                assert(only == src[0]);
                fold_below(only.children, function_name, binary)
            },
            None => children,
        }
    } else {
        fold_all(children)
    }
}

/// Folds some nodes one by one.
pub fn fold_all(children: Vec<FlameNode>) -> (r: Vec<FlameNode>)
    ensures
        are_folded(children@, r@),
    decreases children, 0nat,
{
    let ghost src = children@;
    let ghost given = children;
    let n: usize = children.len();
    let mut rest = children;
    let mut back: Vec<FlameNode> = Vec::new();
    let mut k: usize = 0;
    while k < n
        invariant
            k <= n,
            n == src.len(),
            given == children,
            src == given@,
            rest@ == src.take(n - k),
            back@.len() == k,
            forall|a: int| 0 <= a < k ==> is_folded(src[n - 1 - a], #[trigger] back@[a]),
        decreases n - k,
    {
        match rest.pop() {
            Some(node) => {
                assert(node == src[n - 1 - k]);
                assert(decreases_to!(given => node));
                let folded = fold_recursion(node);
                back.push(folded);
            },
            None => {},
        }
        k = k + 1;
        assert(rest@ =~= src.take(n - k));
    }
    let mut r: Vec<FlameNode> = Vec::new();
    let mut m: usize = 0;
    while m < n
        invariant
            m <= n,
            n == src.len(),
            back@.len() == n - m,
            forall|a: int| 0 <= a < n - m ==> is_folded(src[n - 1 - a], #[trigger] back@[a]),
            r@.len() == m,
            forall|a: int| 0 <= a < m ==> is_folded(src[a], #[trigger] r@[a]),
        decreases n - m,
    {
        let ghost held = back@;
        match back.pop() {
            Some(x) => {
                assert(x == held[n - 1 - m]);
                r.push(x);
            },
            None => {},
        }
        m = m + 1;
    }
    r
}

/// The trees of some items have a height in common.
pub proof fn some_items_height(items: Seq<LevelItem>) -> (h: nat)
    ensures
        items_within(items, h),
    decreases items.len(),
{
    if items.len() == 0 {
        0
    } else {
        let a = some_items_height(items.drop_last());
        let b = some_height(*items.last().node);
        let h = if a >= b {
            a
        } else {
            b
        };
        assert forall|i: int| 0 <= i < items.len() implies within_height(
            *(#[trigger] items[i]).node,
            h,
        ) by {
            if i < items.len() - 1 {
                assert(items.drop_last()[i] == items[i]);
                height_grows(*items[i].node, a, h);
            } else {
                height_grows(*items[i].node, b, h);
            }
        }
        h
    }
}

/// What was measured at one address.
#[derive(Clone, Copy, Debug, PartialEq, Eq, Structural)]
pub struct AddressStats {
    pub self_on_cpu_ns: u64,
    pub total_on_cpu_ns: u64,
    pub self_off_cpu: OffCpuBreakdown,
    pub total_off_cpu: OffCpuBreakdown,
    pub self_pet_samples: u64,
    pub total_pet_samples: u64,
    pub self_off_cpu_intervals: u64,
    pub total_off_cpu_intervals: u64,
    pub self_pmc: PmcAccum,
    pub total_pmc: PmcAccum,
}

/// An address with what was measured there.
#[derive(Clone, Copy, Debug, PartialEq, Eq, Structural)]
pub struct AddressEntry {
    pub address: u64,
    pub stats: AddressStats,
}

/// What a recording adds up to: by address, and as a call tree.
pub struct Aggregation {
    pub by_address: Vec<AddressEntry>,
    pub flame_root: StackNode,
    pub total_on_cpu_ns: u64,
    pub total_off_cpu: OffCpuBreakdown,
}

/// The name of the root of a flame graph.
pub const ALL_LABEL: &'static str = "(all)";

/// What the nodes below the root add up to, at most what fits.
#[derive(Clone, Copy, Debug, PartialEq, Eq, Structural)]
pub struct FlameSums {
    pub pet_samples: u64,
    pub off_cpu_intervals: u64,
    pub cycles: u64,
    pub instructions: u64,
    pub l1d_misses: u64,
    pub branch_mispreds: u64,
}

/// What some nodes add up to.
pub open spec fn flame_sums(nodes: Seq<FlameNode>) -> FlameSums
    decreases nodes.len(),
{
    if nodes.len() == 0 {
        FlameSums {
            pet_samples: 0,
            off_cpu_intervals: 0,
            cycles: 0,
            instructions: 0,
            l1d_misses: 0,
            branch_mispreds: 0,
        }
    } else {
        let s = flame_sums(nodes.drop_last());
        let n = nodes.last();
        FlameSums {
            pet_samples: sat_add(s.pet_samples, n.pet_samples),
            off_cpu_intervals: sat_add(s.off_cpu_intervals, n.off_cpu_intervals),
            cycles: sat_add(s.cycles, n.cycles),
            instructions: sat_add(s.instructions, n.instructions),
            l1d_misses: sat_add(s.l1d_misses, n.l1d_misses),
            branch_mispreds: sat_add(s.branch_mispreds, n.branch_mispreds),
        }
    }
}

/// What some nodes add up to.
fn sum_nodes(nodes: &Vec<FlameNode>) -> (s: FlameSums)
    ensures
        s == flame_sums(nodes@),
{
    let mut s = FlameSums {
        pet_samples: 0,
        off_cpu_intervals: 0,
        cycles: 0,
        instructions: 0,
        l1d_misses: 0,
        branch_mispreds: 0,
    };
    let mut i: usize = 0;
    assert(nodes@.take(0) =~= seq![]);
    while i < nodes.len()
        invariant
            i <= nodes@.len(),
            s == flame_sums(nodes@.take(i as int)),
        decreases nodes@.len() - i,
    {
        let n = &nodes[i];
        proof {
            assert(nodes@.take(i + 1).drop_last() =~= nodes@.take(i as int));
            assert(nodes@.take(i + 1).last() == *n);
        }
        s = FlameSums {
            pet_samples: s.pet_samples.saturating_add(n.pet_samples),
            off_cpu_intervals: s.off_cpu_intervals.saturating_add(n.off_cpu_intervals),
            cycles: s.cycles.saturating_add(n.cycles),
            instructions: s.instructions.saturating_add(n.instructions),
            l1d_misses: s.l1d_misses.saturating_add(n.l1d_misses),
            branch_mispreds: s.branch_mispreds.saturating_add(n.branch_mispreds),
        };
        i = i + 1;
    }
    assert(nodes@.take(i as int) =~= nodes@);
    s
}

/// A flame graph with its table of strings.
pub struct FlamegraphUpdate {
    pub total_on_cpu_ns: u64,
    pub total_off_cpu: OffCpuBreakdown,
    pub strings: Vec<String>,
    pub root: FlameNode,
}

/// The style of the flame graph: nothing is left out.
pub open spec fn flame_style() -> FlameStyle {
    FlameStyle { seeded: true, threshold: 0, counters: true }
}

/// The strings that the root of a flame graph names.
pub open spec fn root_texts() -> Seq<Seq<char>> {
    seq![UNKNOWN_LANGUAGE@, ALL_LABEL@]
}

/// `u` is the flame graph of `a`: the symbols called from the root of its call
/// tree, folded where they only call themselves, below a node for all of them.
/// The table holds what the nodes name as they are drawn, before they are folded, and behind it
/// what the root names.
pub open spec fn is_flamegraph(a: Aggregation, bins: BinaryRegistry, u: FlamegraphUpdate) -> bool {
    let strings = texts(u.strings@);
    let sums = flame_sums(u.root.children@);
    &&& u.total_on_cpu_ns == a.total_on_cpu_ns
    &&& u.total_off_cpu == a.total_off_cpu
    &&& strings.no_duplicates()
    &&& exists|raw: Seq<FlameNode>| #[trigger]
        is_level(raw, strings, bins, callees_of(a.flame_root), flame_style()) && are_folded(
            raw,
            u.root.children@,
        ) && strings == interned(
            seq![],
            level_texts(raw, raw.len(), bins, callees_of(a.flame_root), flame_style())
                + root_texts(),
        )
    &&& u.root.address == 0
    &&& u.root.on_cpu_ns == a.total_on_cpu_ns
    &&& u.root.off_cpu == a.total_off_cpu
    &&& u.root.pet_samples == sums.pet_samples
    &&& u.root.off_cpu_intervals == sums.off_cpu_intervals
    &&& stands_for_opt(strings, u.root.function_name, Some(ALL_LABEL@))
    &&& u.root.binary is None
    &&& !u.root.is_main
    &&& stands_for(strings, u.root.language, UNKNOWN_LANGUAGE@)
    &&& u.root.cycles == sums.cycles
    &&& u.root.instructions == sums.instructions
    &&& u.root.l1d_misses == sums.l1d_misses
    &&& u.root.branch_mispreds == sums.branch_mispreds
}

/// Draws the flame graph of a recording.
pub fn compute_flame_update(aggregation: &Aggregation, bins: &BinaryRegistry) -> (u: FlamegraphUpdate)
    requires
        bins.wf(),
    ensures
        is_flamegraph(*aggregation, *bins, u),
{
    let mut interner = StringInterner::new();
    let mut roots: Vec<LevelItem> = Vec::new();
    roots.push(LevelItem { address: 0, node: &aggregation.flame_root });
    let mut at: Vec<usize> = Vec::new();
    at.push(0);
    let ghost h = some_items_height(roots@);
    proof {
        assert(within_height(*roots@[0].node, h));
        assert(at@.drop_last() =~= seq![]);
        assert(callees_of_all(roots@, at@.drop_last()) =~= seq![]);
        assert(callees_of_all(roots@, at@) =~= callees_of(aggregation.flame_root));
    }
    let items = collect_callees(&roots, &at, Ghost(h));
    let style = FlameStyle { seeded: true, threshold: 0, counters: true };
    let raw = build_children(bins, &items, style, &mut interner, Ghost((h - 1) as nat));
    let ghost drawn = raw@;
    let ghost t0 = interner.table();
    let children = fold_all(raw);
    let language: u32 = interner.intern_str(UNKNOWN_LANGUAGE);
    let ghost t1 = interner.table();
    let sums = sum_nodes(&children);
    let all: u32 = interner.intern_str(ALL_LABEL);
    let ghost t2 = interner.table();
    proof {
        extends_transitive(t0, t1, t2);
        level_stays(drawn, t0, t2, *bins, items@, style);
        stands_for_stays(t1, t2, language, UNKNOWN_LANGUAGE@);
        interner.lemma_wf();
        let named = level_texts(drawn, drawn.len(), *bins, items@, style);
        interning_goes_on(seq![], named, seq![UNKNOWN_LANGUAGE@]);
        interning_goes_on(seq![], named + seq![UNKNOWN_LANGUAGE@], seq![ALL_LABEL@]);
        assert(named + seq![UNKNOWN_LANGUAGE@] + seq![ALL_LABEL@] =~= named + root_texts());
    }
    let root = FlameNode {
        address: 0,
        on_cpu_ns: aggregation.total_on_cpu_ns,
        off_cpu: aggregation.total_off_cpu,
        pet_samples: sums.pet_samples,
        off_cpu_intervals: sums.off_cpu_intervals,
        function_name: Some(all),
        binary: None,
        is_main: false,
        language,
        cycles: sums.cycles,
        instructions: sums.instructions,
        l1d_misses: sums.l1d_misses,
        branch_mispreds: sums.branch_mispreds,
        children,
    };
    let u = FlamegraphUpdate {
        total_on_cpu_ns: aggregation.total_on_cpu_ns,
        total_off_cpu: aggregation.total_off_cpu,
        strings: interner.into_strings(),
        root,
    };
    assert(is_level(drawn, texts(u.strings@), *bins, callees_of(aggregation.flame_root), flame_style()));
    u
}

/// Folding leaves no node whose only callee has its own symbol.
pub proof fn folding_leaves_no_direct_recursion(node: FlameNode, folded: FlameNode)
    requires
        is_folded(node, folded),
    ensures
        !(folded.children@.len() == 1 && has_symbol(
            folded.children@[0],
            folded.function_name,
            folded.binary,
        )),
{
    let below = below_recursion(node.children@, node.function_name, node.binary);
    lemma_below_recursion(node.children@, node.function_name, node.binary);
    if folded.children@.len() == 1 {
        assert(is_folded(below[0], folded.children@[0]));
    }
}

/// What is below a run of single calls is not such a call.
proof fn lemma_below_recursion(
    children: Seq<FlameNode>,
    function_name: Option<u32>,
    binary: Option<u32>,
)
    ensures
        ({
            let below = below_recursion(children, function_name, binary);
            !(below.len() == 1 && has_symbol(below[0], function_name, binary))
        }),
    decreases children,
{
    if children.len() == 1 && has_symbol(children[0], function_name, binary) {
        lemma_below_recursion(children[0].children@, function_name, binary);
    }
}

/// How much a node of a flame graph shows.
pub open spec fn amount_shown(q: Quantity, node: FlameNode) -> int {
    match q {
        Quantity::OnCpu => node.on_cpu_ns as int,
        Quantity::PetSamples => node.pet_samples as int,
        Quantity::OffCpuIntervals => node.off_cpu_intervals as int,
        Quantity::Cycles => node.cycles as int,
        Quantity::Instructions => node.instructions as int,
        Quantity::L1dMisses => node.l1d_misses as int,
        Quantity::BranchMispreds => node.branch_mispreds as int,
        _ => amount_off(q, node.off_cpu),
    }
}

/// It is no hardware counter.
pub open spec fn is_no_counter(q: Quantity) -> bool {
    !(q is Cycles || q is Instructions || q is L1dMisses || q is BranchMispreds)
}

/// How much each of some nodes of a flame graph shows.
pub open spec fn amounts_shown(q: Quantity, nodes: Seq<FlameNode>) -> Seq<int> {
    nodes.map_values(|n: FlameNode| amount_shown(q, n))
}

/// How much was measured at each of the callees of a node.
pub open spec fn callee_amounts(q: Quantity, node: StackNode) -> Seq<int> {
    node.children@.map_values(|c: StackChild| amount_at(q, c.node))
}

/// The law of nodes: each shows what was measured at the nodes of the call tree that it stands
/// for, which are nodes of its level with its symbol, at most what fits; and nodes with more time
/// on and off the CPU come first.
pub proof fn nodes_show_their_members(
    nodes: Seq<FlameNode>,
    strings: Seq<Seq<char>>,
    bins: BinaryRegistry,
    items: Seq<LevelItem>,
    style: FlameStyle,
    q: Quantity,
    i: int,
) -> (members: Seq<usize>)
    requires
        is_level(nodes, strings, bins, items, style),
        items.len() <= usize::MAX,
        0 <= i < nodes.len(),
        style.counters || is_no_counter(q),
    ensures
        amount_shown(q, nodes[i]) == as_fits(sum_of(member_amounts(q, items, members))),
        members.len() > 0,
        forall|k: int|
            0 <= k < members.len() ==> #[trigger] members[k] < items.len() && label_at(
                bins,
                items[members[k] as int].address,
            ).name == label_at(bins, items[members[0] as int].address).name,
{
    let gs = groups_of(bins, items, style.seeded, items.len());
    lemma_groups_are_few(bins, items, style.seeded, items.len());
    let g = listed(gs, style.threshold)[i];
    assert(shows_group(nodes[i], strings, g, style.counters));
    lemma_listed_is_there(gs, style.threshold, i);
    let k = choose|k: int| 0 <= k < gs.len() && gs[k] == g;
    groups_hold_the_sums_of_their_members(bins, items, style.seeded, items.len(), q, k);
    every_node_is_in_one_group(bins, items, style.seeded, items.len());
    assert forall|m: int| 0 <= m < g.members.len() implies #[trigger] g.members[m] < items.len()
        && label_at(bins, items[g.members[m] as int].address).name == g.name by {
        assert(gs[k].members.contains(g.members[m]));
        assert(in_group(gs, k, g.members[m]));
    }
    assert(gs[k].members.len() > 0);
    g.members
}

/// There are no more groups than nodes.
pub proof fn lemma_groups_are_few(bins: BinaryRegistry, items: Seq<LevelItem>, seeded: bool, n: nat)
    ensures
        groups_of(bins, items, seeded, n).len() <= n,
    decreases n,
{
    if n > 0 {
        lemma_groups_are_few(bins, items, seeded, (n - 1) as nat);
    }
}

/// What is listed is one of the groups.
pub proof fn lemma_listed_is_there(gs: Seq<GroupView>, threshold: u64, i: int)
    requires
        gs.len() <= usize::MAX,
        0 <= i < listed(gs, threshold).len(),
    ensures
        gs.contains(listed(gs, threshold)[i]),
{
    let kept = crate::symbol_groups::above(gs, threshold);
    let keys = crate::symbol_groups::group_keys(kept);
    lemma_above(gs, threshold);
    let order = crate::sort::existing_order(keys);
    crate::sort::stable_order_gives_sorted(keys, kept, order);
    assert(order[i] < keys.len());
    assert(gs.contains(kept[order[i] as int]));
}

/// The law of drawn levels: as long as it fits, the nodes of a level from which nothing is left
/// out show together what was measured at the nodes of the call tree on that level.
pub proof fn drawn_levels_keep_what_was_measured(
    nodes: Seq<FlameNode>,
    strings: Seq<Seq<char>>,
    bins: BinaryRegistry,
    items: Seq<LevelItem>,
    style: FlameStyle,
    q: Quantity,
)
    requires
        is_level(nodes, strings, bins, items, style),
        items.len() <= usize::MAX,
        style.threshold == 0,
        style.counters || is_no_counter(q),
        sum_of(amounts(q, items)) <= u64::MAX,
    ensures
        sum_of(amounts_shown(q, nodes)) == sum_of(amounts(q, items)),
{
    let gs = groups_of(bins, items, style.seeded, items.len());
    lemma_groups_are_few(bins, items, style.seeded, items.len());
    levels_keep_what_was_measured(bins, items, style.seeded, q);
    listing_keeps_what_was_measured(gs, q);
    let shown = listed(gs, 0).map_values(|g: GroupView| amount_in(q, g.acc));
    assert forall|i: int| 0 <= i < nodes.len() implies amounts_shown(q, nodes)[i]
        == #[trigger] shown[i] by {
        assert(shows_group(nodes[i], strings, listed(gs, 0)[i], style.counters));
    }
    assert(amounts_shown(q, nodes) =~= shown);
}

/// The law of descent: what was measured at the callees of some nodes is what was measured at the
/// callees of each of them.
pub proof fn callees_are_all_there(q: Quantity, items: Seq<LevelItem>, at: Seq<usize>)
    ensures
        sum_of(amounts(q, callees_of_all(items, at))) == sum_of(
            at.map_values(|m: usize| sum_of(callee_amounts(q, *items[m as int].node))),
        ),
    decreases at.len(),
{
    let each = at.map_values(|m: usize| sum_of(callee_amounts(q, *items[m as int].node)));
    if at.len() == 0 {
        assert(amounts(q, callees_of_all(items, at)) =~= seq![]);
        assert(each =~= seq![]);
    } else {
        callees_are_all_there(q, items, at.drop_last());
        let before = callees_of_all(items, at.drop_last());
        let own = callees_of(*items[at.last() as int].node);
        sum_of_both(amounts(q, before), amounts(q, own));
        assert(amounts(q, before + own) =~= amounts(q, before) + amounts(q, own));
        assert(amounts(q, own) =~= callee_amounts(q, *items[at.last() as int].node));
        assert(each.drop_last() =~= at.drop_last().map_values(
            |m: usize| sum_of(callee_amounts(q, *items[m as int].node)),
        ));
    }
}

/// The law of the flame graph: as long as it fits, what the nodes below the root show together is
/// what was measured at the callees of the root of the call tree: the time on the CPU, the time
/// off it for each reason, samples, intervals and counters.
pub proof fn flame_graphs_keep_what_was_measured(
    a: Aggregation,
    bins: BinaryRegistry,
    u: FlamegraphUpdate,
    q: Quantity,
)
    requires
        is_flamegraph(a, bins, u),
        a.flame_root.children@.len() <= usize::MAX,
        sum_of(callee_amounts(q, a.flame_root)) <= u64::MAX,
    ensures
        sum_of(amounts_shown(q, u.root.children@)) == sum_of(callee_amounts(q, a.flame_root)),
{
    let strings = texts(u.strings@);
    let items = callees_of(a.flame_root);
    let raw = choose|raw: Seq<FlameNode>| #[trigger]
        is_level(raw, strings, bins, items, flame_style()) && are_folded(raw, u.root.children@)
            && strings == interned(
            seq![],
            level_texts(raw, raw.len(), bins, items, flame_style()) + root_texts(),
        );
    assert(amounts(q, items) =~= callee_amounts(q, a.flame_root));
    drawn_levels_keep_what_was_measured(raw, strings, bins, items, flame_style(), q);
    assert forall|i: int| 0 <= i < raw.len() implies amounts_shown(q, u.root.children@)[i]
        == #[trigger] amounts_shown(q, raw)[i] by {
        assert(is_folded(raw[i], u.root.children@[i]));
    }
    assert(amounts_shown(q, u.root.children@) =~= amounts_shown(q, raw));
}

/// The law of the root: it counts what the nodes below it count together, at most what fits, and
/// shows the time of the whole recording.
pub proof fn roots_count_what_is_below(a: Aggregation, bins: BinaryRegistry, u: FlamegraphUpdate)
    requires
        is_flamegraph(a, bins, u),
    ensures
        u.root.on_cpu_ns == a.total_on_cpu_ns,
        u.root.off_cpu == a.total_off_cpu,
        u.root.pet_samples == as_fits(
            sum_of(amounts_shown(Quantity::PetSamples, u.root.children@)),
        ),
        u.root.off_cpu_intervals == as_fits(
            sum_of(amounts_shown(Quantity::OffCpuIntervals, u.root.children@)),
        ),
        u.root.cycles == as_fits(sum_of(amounts_shown(Quantity::Cycles, u.root.children@))),
        u.root.instructions == as_fits(
            sum_of(amounts_shown(Quantity::Instructions, u.root.children@)),
        ),
        u.root.l1d_misses == as_fits(
            sum_of(amounts_shown(Quantity::L1dMisses, u.root.children@)),
        ),
        u.root.branch_mispreds == as_fits(
            sum_of(amounts_shown(Quantity::BranchMispreds, u.root.children@)),
        ),
{
    lemma_flame_sums(u.root.children@);
}

proof fn lemma_flame_sums(nodes: Seq<FlameNode>)
    ensures
        flame_sums(nodes).pet_samples == as_fits(sum_of(amounts_shown(Quantity::PetSamples, nodes))),
        flame_sums(nodes).off_cpu_intervals == as_fits(
            sum_of(amounts_shown(Quantity::OffCpuIntervals, nodes)),
        ),
        flame_sums(nodes).cycles == as_fits(sum_of(amounts_shown(Quantity::Cycles, nodes))),
        flame_sums(nodes).instructions == as_fits(
            sum_of(amounts_shown(Quantity::Instructions, nodes)),
        ),
        flame_sums(nodes).l1d_misses == as_fits(sum_of(amounts_shown(Quantity::L1dMisses, nodes))),
        flame_sums(nodes).branch_mispreds == as_fits(
            sum_of(amounts_shown(Quantity::BranchMispreds, nodes)),
        ),
    decreases nodes.len(),
{
    if nodes.len() > 0 {
        let init = nodes.drop_last();
        lemma_flame_sums(init);
        assert forall|q: Quantity| #[trigger] amounts_shown(q, nodes).drop_last() == amounts_shown(
            q,
            init,
        ) by {
            assert(amounts_shown(q, nodes).drop_last() =~= amounts_shown(q, init));
        }
        assert forall|q: Quantity| sum_of(#[trigger] amounts_shown(q, init)) >= 0 by {
            sum_of_bounds(amounts_shown(q, init));
        }
        assert(amounts_shown(Quantity::PetSamples, nodes).drop_last() == amounts_shown(Quantity::PetSamples, init));
        assert(amounts_shown(Quantity::OffCpuIntervals, nodes).drop_last() == amounts_shown(Quantity::OffCpuIntervals, init));
        assert(amounts_shown(Quantity::Cycles, nodes).drop_last() == amounts_shown(Quantity::Cycles, init));
        assert(amounts_shown(Quantity::Instructions, nodes).drop_last() == amounts_shown(Quantity::Instructions, init));
        assert(amounts_shown(Quantity::L1dMisses, nodes).drop_last() == amounts_shown(Quantity::L1dMisses, init));
        assert(amounts_shown(Quantity::BranchMispreds, nodes).drop_last() == amounts_shown(Quantity::BranchMispreds, init));
    }
}

/// The law of order: a node comes before those with less time on and off the CPU.
pub proof fn longest_nodes_come_first(
    nodes: Seq<FlameNode>,
    strings: Seq<Seq<char>>,
    bins: BinaryRegistry,
    items: Seq<LevelItem>,
    style: FlameStyle,
    i: int,
    j: int,
)
    requires
        is_level(nodes, strings, bins, items, style),
        items.len() <= usize::MAX,
        0 <= i < j < nodes.len(),
    ensures
        as_fits(nodes[i].on_cpu_ns + as_fits(time_off(nodes[i].off_cpu))) >= as_fits(
            nodes[j].on_cpu_ns + as_fits(time_off(nodes[j].off_cpu)),
        ),
{
    let gs = groups_of(bins, items, style.seeded, items.len());
    lemma_groups_are_few(bins, items, style.seeded, items.len());
    longest_groups_come_first(gs, style.threshold, i, j);
    let g = listed(gs, style.threshold)[i];
    let h = listed(gs, style.threshold)[j];
    assert(shows_group(nodes[i], strings, g, style.counters));
    assert(shows_group(nodes[j], strings, h, style.counters));
    totals_count_every_reason(g.acc);
    totals_count_every_reason(h.acc);
}

/// The law of folding: only a single callee of the same symbol goes; other callees stay, each with
/// all that it shows.
pub proof fn folding_keeps_other_callees(node: FlameNode, folded: FlameNode)
    requires
        is_folded(node, folded),
        node.children@.len() != 1 || node.children@[0].function_name is None
            || node.children@[0].function_name != node.function_name || node.children@[0].binary
            != node.binary,
    ensures
        folded.children@.len() == node.children@.len(),
        forall|q: Quantity, i: int|
            0 <= i < node.children@.len() ==> #[trigger] amount_shown(q, folded.children@[i])
                == amount_shown(q, node.children@[i]),
        forall|i: int|
            0 <= i < node.children@.len() ==> (#[trigger] folded.children@[i]).function_name
                == node.children@[i].function_name && folded.children@[i].binary
                == node.children@[i].binary && folded.children@[i].address
                == node.children@[i].address,
{
    assert forall|i: int| 0 <= i < node.children@.len() implies is_folded(
        node.children@[i],
        #[trigger] folded.children@[i],
    ) by {}
}

/// The law of folded runs: a single callee of the same symbol gives way to what it calls.
pub proof fn folding_skips_recursion(node: FlameNode, folded: FlameNode, inner: FlameNode)
    requires
        node.children@.len() == 1,
        node.children@[0].function_name is Some,
        node.children@[0].function_name == node.function_name,
        node.children@[0].binary == node.binary,
        inner.function_name == node.function_name,
        inner.binary == node.binary,
        inner.children@ == node.children@[0].children@,
        is_folded(node, folded),
    ensures
        are_folded(
            below_recursion(inner.children@, inner.function_name, inner.binary),
            folded.children@,
        ),
{
}

} // verus!
