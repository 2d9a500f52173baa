//! The family tree of a symbol: who calls it, and what it calls.
use vstd::prelude::*;

use crate::binaries::{opt_symbol, BinaryRegistry, UNKNOWN_LANGUAGE};
use crate::flame::{
    amount_shown, build_children, callees_of_all, collect_callees, group_node, group_texts,
    interning_a_group, is_level, is_no_counter, items_within, lemma_groups_are_few,
    lemma_listed_is_there, level_stays, level_texts, listed_members_are_positions, shown_group_stays,
    shows_group, some_items_height, within_height, FlameNode, FlameStyle,
};
use crate::interner::{
    extends, extends_transitive, interned, interning_goes_on, stands_for, stands_for_opt,
    stands_for_stays, texts, StringInterner,
};
use crate::offcpu::OffCpuBreakdown;
use crate::probe_timing::sat_add;
use crate::sort::{existing_order, order_lists_every_position, stable_order_gives_sorted};
use crate::sums::{as_fits, none_negative, sum_of, sum_of_both, sum_of_bounds, sum_of_one_more};
use crate::symbol_groups::{
    above, amount_at, amount_in, amount_off, classify, every_node_is_in_one_group, group_items,
    group_keys, group_views, groups_hold_the_sums_of_their_members, groups_of, has_group, in_group,
    label_at, lemma_above, lemma_plus_amount, list_groups, listed, member_amounts, name_view,
    same_name, AccView, GroupView, LabelView, LevelItem, NameView, Quantity, StackChild, StackNode,
    SymbolAcc, SymbolName,
};

verus! {

/// One place of a call tree where the symbol shows: its node, and the addresses
/// above it from the root down.
pub struct Occurrence<'a> {
    pub address: u64,
    pub node: &'a StackNode,
    pub ancestors: Vec<u64>,
}

/// The model of an [`Occurrence`].
pub struct OccView {
    pub address: u64,
    pub node: StackNode,
    pub ancestors: Seq<u64>,
}

/// The models of occurrences.
pub open spec fn occ_views(s: Seq<Occurrence>) -> Seq<OccView> {
    s.map_values(
        |o: Occurrence| OccView { address: o.address, node: *o.node, ancestors: o.ancestors@ },
    )
}

/// The addresses above the callees of a node. The root has no address.
pub open spec fn with_ancestor(ancestors: Seq<u64>, address: u64) -> Seq<u64> {
    if address != 0 {
        ancestors.push(address)
    } else {
        ancestors
    }
}

/// Where the symbol shows at and below a node, callers before callees.
pub open spec fn occurrences(
    bins: BinaryRegistry,
    target: NameView,
    node: StackNode,
    address: u64,
    ancestors: Seq<u64>,
) -> Seq<OccView>
    decreases node,
{
    let here = if address != 0 && label_at(bins, address).name == target {
        seq![OccView { address, node, ancestors }]
    } else {
        seq![]
    };
    here + occurrences_below(bins, target, node.children@, with_ancestor(ancestors, address))
}

/// Where the symbol shows at and below some callees, one after the other.
pub open spec fn occurrences_below(
    bins: BinaryRegistry,
    target: NameView,
    children: Seq<StackChild>,
    ancestors: Seq<u64>,
) -> Seq<OccView>
    decreases children,
{
    if children.len() == 0 {
        seq![]
    } else {
        let last = children[children.len() - 1];
        occurrences_below(bins, target, children.drop_last(), ancestors) + occurrences(
            bins,
            target,
            last.node,
            last.address,
            ancestors,
        )
    }
}

/// A copy of some addresses.
fn copy_addresses(s: &Vec<u64>) -> (r: Vec<u64>)
    ensures
        r@ == s@,
{
    crate::pair_totals::copy_stack(s)
}

/// Collects where the symbol shows at and below a node.
fn walk<'a>(
    bins: &BinaryRegistry,
    target: &Option<SymbolName>,
    node: &'a StackNode,
    address: u64,
    ancestors: &mut Vec<u64>,
    out: &mut Vec<Occurrence<'a>>,
)
    requires
        bins.wf(),
    ensures
        final(ancestors)@ == old(ancestors)@,
        occ_views(final(out)@) == occ_views(old(out)@) + occurrences(
            *bins,
            name_view(*target),
            *node,
            address,
            old(ancestors)@,
        ),
    decreases *node,
{
    let ghost t = name_view(*target);
    let ghost above = ancestors@;
    let ghost out0 = occ_views(out@);
    if address != 0 {
        let label = classify(bins, address);
        if same_name(&label.name, target) {
            let ghost held = out@;
            let path = copy_addresses(ancestors);
            out.push(Occurrence { address, node, ancestors: path });
            assert(occ_views(out@) =~= out0.push(
                OccView { address, node: *node, ancestors: above },
            ));
        }
        ancestors.push(address);
    }
    let ghost here = occ_views(out@);
    let ghost below_path = ancestors@;
    assert(below_path == with_ancestor(above, address));
    let mut i: usize = 0;
    proof {
        assert(node.children@.take(0) =~= seq![]);
        assert(here + occurrences_below(*bins, t, node.children@.take(0), below_path) =~= here);
    }
    while i < node.children.len()
        invariant
            bins.wf(),
            i <= node.children@.len(),
            t == name_view(*target),
            ancestors@ == below_path,
            occ_views(out@) == here + occurrences_below(
                *bins,
                t,
                node.children@.take(i as int),
                below_path,
            ),
        decreases node.children@.len() - i,
    {
        let child = &node.children[i];
        assert(decreases_to!(*node => child.node));
        walk(bins, target, &child.node, child.address, ancestors, out);
        proof {
            let next = node.children@.take(i + 1);
            assert(next.drop_last() =~= node.children@.take(i as int));
            assert(next[next.len() - 1] == *child);
            assert(occ_views(out@) =~= here + occurrences_below(*bins, t, next, below_path));
        }
        i = i + 1;
    }
    assert(node.children@.take(i as int) =~= node.children@);
    if address != 0 {
        let _ = ancestors.pop();
        assert(ancestors@ =~= above);
    }
    assert(occ_views(out@) =~= out0 + occurrences(*bins, t, *node, address, above));
}

/// What the occurrences add up to.
pub open spec fn own_of(bins: BinaryRegistry, occs: Seq<OccView>) -> AccView
    decreases occs.len(),
{
    if occs.len() == 0 {
        AccView::none(0, false, UNKNOWN_LANGUAGE@)
    } else {
        let o = occs.last();
        own_of(bins, occs.drop_last()).plus(o.address, o.node, label_at(bins, o.address))
    }
}

/// What the occurrences add up to.
fn sum_own<'a>(bins: &BinaryRegistry, occs: &Vec<Occurrence<'a>>) -> (acc: SymbolAcc)
    requires
        bins.wf(),
    ensures
        acc@ == own_of(*bins, occ_views(occs@)),
{
    let ghost views = occ_views(occs@);
    let mut acc = SymbolAcc::new(0, false, UNKNOWN_LANGUAGE);
    let mut i: usize = 0;
    assert(views.take(0) =~= seq![]);
    while i < occs.len()
        invariant
            bins.wf(),
            i <= occs@.len(),
            views == occ_views(occs@),
            acc@ == own_of(*bins, views.take(i as int)),
        decreases occs@.len() - i,
    {
        let o = &occs[i];
        let label = classify(bins, o.address);
        proof {
            assert(views.take(i + 1).drop_last() =~= views.take(i as int));
            assert(views.take(i + 1).last() == views[i as int]);
        }
        let ghost before = acc@;
        acc.accumulate(o.address, o.node, label.is_main, label.language.as_str());
        assert(acc@ == before.plus(o.address, *o.node, label@));
        i = i + 1;
    }
    assert(views.take(i as int) =~= views);
    acc
}

/// The positions of the occurrences with more than `depth` callers.
pub open spec fn deep_enough(occs: Seq<OccView>, at: Seq<usize>, depth: int) -> Seq<usize>
    decreases at.len(),
{
    if at.len() == 0 {
        at
    } else if occs[at.last() as int].ancestors.len() > depth {
        deep_enough(occs, at.drop_last(), depth).push(at.last())
    } else {
        deep_enough(occs, at.drop_last(), depth)
    }
}

/// The caller of an occurrence, `depth` calls above its direct caller.
pub open spec fn caller_at(o: OccView, depth: int) -> u64 {
    o.ancestors[o.ancestors.len() - 1 - depth]
}

/// The occurrences under their callers at one depth.
pub open spec fn caller_items(occs: Seq<OccView>, kept: Seq<usize>, depth: int) -> Seq<
    LevelItem<'static>,
> {
    kept.map_values(
        |k: usize| LevelItem { address: caller_at(occs[k as int], depth), node: &occs[k as int].node },
    )
}

/// The occurrences at some positions of `kept`.
pub open spec fn members_of(kept: Seq<usize>, members: Seq<usize>) -> Seq<usize> {
    members.map_values(|m: usize| kept[m as int])
}

/// The nodes show the callers of some occurrences at one depth, and below each the
/// callers above it.
pub open spec fn is_callers_level(
    nodes: Seq<FlameNode>,
    strings: Seq<Seq<char>>,
    bins: BinaryRegistry,
    occs: Seq<OccView>,
    at: Seq<usize>,
    depth: int,
    threshold: u64,
) -> bool
    decreases nodes,
{
    let kept = deep_enough(occs, at, depth);
    let items = caller_items(occs, kept, depth);
    let gs = listed(groups_of(bins, items, false, items.len()), threshold);
    &&& nodes.len() == gs.len()
    &&& forall|i: int|
        0 <= i < nodes.len() ==> shows_group(#[trigger] nodes[i], strings, gs[i], false)
            && is_callers_level(
            nodes[i].children@,
            strings,
            bins,
            occs,
            members_of(kept, gs[i].members),
            depth + 1,
            threshold,
        )
}

/// The strings that the first `n` nodes of a level of callers name, in the order in which they
/// are drawn: what is below a node comes before the node.
pub open spec fn callers_texts(
    nodes: Seq<FlameNode>,
    n: nat,
    bins: BinaryRegistry,
    occs: Seq<OccView>,
    at: Seq<usize>,
    depth: int,
    threshold: u64,
) -> Seq<Seq<char>>
    decreases nodes, n,
{
    if n == 0 || n > nodes.len() {
        seq![]
    } else {
        let kept = deep_enough(occs, at, depth);
        let items = caller_items(occs, kept, depth);
        let gs = listed(groups_of(bins, items, false, items.len()), threshold);
        let last = nodes[n - 1];
        let before = callers_texts(nodes, (n - 1) as nat, bins, occs, at, depth, threshold);
        let below = callers_texts(
            last.children@,
            last.children@.len(),
            bins,
            occs,
            members_of(kept, gs[n - 1].members),
            depth + 1,
            threshold,
        );
        before + below + group_texts(gs[n - 1])
    }
}

/// What nodes name does not depend on those behind them.
proof fn lemma_callers_texts_of_first(
    nodes: Seq<FlameNode>,
    more: Seq<FlameNode>,
    n: nat,
    bins: BinaryRegistry,
    occs: Seq<OccView>,
    at: Seq<usize>,
    depth: int,
    threshold: u64,
)
    requires
        n <= nodes.len() <= more.len(),
        forall|i: int| 0 <= i < n ==> #[trigger] nodes[i] == more[i],
    ensures
        callers_texts(nodes, n, bins, occs, at, depth, threshold) == callers_texts(
            more,
            n,
            bins,
            occs,
            at,
            depth,
            threshold,
        ),
    decreases n,
{
    if n > 0 {
        lemma_callers_texts_of_first(
            nodes,
            more,
            (n - 1) as nat,
            bins,
            occs,
            at,
            depth,
            threshold,
        );
        assert(nodes[n - 1] == more[n - 1]);
    }
}

/// A level stays what it is when strings are added to the table.
proof fn callers_level_stays(
    nodes: Seq<FlameNode>,
    a: Seq<Seq<char>>,
    b: Seq<Seq<char>>,
    bins: BinaryRegistry,
    occs: Seq<OccView>,
    at: Seq<usize>,
    depth: int,
    threshold: u64,
)
    requires
        is_callers_level(nodes, a, bins, occs, at, depth, threshold),
        extends(a, b),
    ensures
        is_callers_level(nodes, b, bins, occs, at, depth, threshold),
    decreases nodes,
{
    let kept = deep_enough(occs, at, depth);
    let items = caller_items(occs, kept, depth);
    let gs = listed(groups_of(bins, items, false, items.len()), threshold);
    assert forall|i: int| 0 <= i < nodes.len() implies shows_group(
        #[trigger] nodes[i],
        b,
        gs[i],
        false,
    ) && is_callers_level(
        nodes[i].children@,
        b,
        bins,
        occs,
        members_of(kept, gs[i].members),
        depth + 1,
        threshold,
    ) by {
        let node = nodes[i];
        shown_group_stays(node, a, b, gs[i], false);
        callers_level_stays(
            node.children@,
            a,
            b,
            bins,
            occs,
            members_of(kept, gs[i].members),
            depth + 1,
            threshold,
        );
    }
}

/// Some positions of occurrences.
pub open spec fn positions_of(at: Seq<usize>, n: int) -> bool {
    forall|k: int| 0 <= k < at.len() ==> #[trigger] at[k] < n
}

/// Keeps the occurrences with more than `depth` callers.
fn keep_deep<'a>(occs: &Vec<Occurrence<'a>>, at: &Vec<usize>, depth: usize) -> (kept: Vec<usize>)
    requires
        positions_of(at@, occs@.len() as int),
    ensures
        kept@ == deep_enough(occ_views(occs@), at@, depth as int),
        positions_of(kept@, occs@.len() as int),
        forall|k: int|
            0 <= k < kept@.len() ==> occs@[#[trigger] kept@[k] as int].ancestors@.len() > depth,
{
    let ghost views = occ_views(occs@);
    let mut kept: Vec<usize> = Vec::new();
    let mut i: usize = 0;
    assert(at@.take(0) =~= seq![]);
    while i < at.len()
        invariant
            i <= at@.len(),
            views == occ_views(occs@),
            positions_of(at@, occs@.len() as int),
            positions_of(kept@, occs@.len() as int),
            kept@ == deep_enough(views, at@.take(i as int), depth as int),
            forall|k: int|
                0 <= k < kept@.len() ==> occs@[#[trigger] kept@[k] as int].ancestors@.len() > depth,
        decreases at@.len() - i,
    {
        assert(at@[i as int] < occs@.len());
        proof {
            assert(at@.take(i + 1).drop_last() =~= at@.take(i as int));
            assert(at@.take(i + 1).last() == at@[i as int]);
            assert(views[at@[i as int] as int].ancestors == occs@[at@[i as int] as int].ancestors@);
        }
        if occs[at[i]].ancestors.len() > depth {
            kept.push(at[i]);
        }
        i = i + 1;
    }
    assert(at@.take(i as int) =~= at@);
    kept
}

/// The occurrences under their callers at one depth.
fn make_caller_items<'a>(occs: &Vec<Occurrence<'a>>, kept: &Vec<usize>, depth: usize) -> (items: Vec<
    LevelItem<'a>,
>)
    requires
        positions_of(kept@, occs@.len() as int),
        forall|k: int|
            0 <= k < kept@.len() ==> occs@[#[trigger] kept@[k] as int].ancestors@.len() > depth,
    ensures
        items@ == caller_items(occ_views(occs@), kept@, depth as int),
{
    let ghost views = occ_views(occs@);
    let mut items: Vec<LevelItem<'a>> = Vec::new();
    let mut i: usize = 0;
    while i < kept.len()
        invariant
            i <= kept@.len(),
            views == occ_views(occs@),
            positions_of(kept@, occs@.len() as int),
            forall|k: int|
                0 <= k < kept@.len() ==> occs@[#[trigger] kept@[k] as int].ancestors@.len() > depth,
            items@ == caller_items(views, kept@.take(i as int), depth as int),
        decreases kept@.len() - i,
    {
        assert(kept@[i as int] < occs@.len());
        let o = &occs[kept[i]];
        let ghost held = items@;
        assert(o.ancestors@.len() > depth);
        let above: usize = o.ancestors.len() - 1 - depth;
        items.push(LevelItem { address: o.ancestors[above], node: o.node });
        proof {
            assert(views[kept@[i as int] as int] == OccView {
                address: o.address,
                node: *o.node,
                ancestors: o.ancestors@,
            });
            assert(caller_items(views, kept@.take(i + 1), depth as int) =~= held.push(
                items@.last(),
            ));
        }
        i = i + 1;
    }
    assert(kept@.take(i as int) =~= kept@);
    items
}

/// The occurrences at some positions of `kept`.
fn pick_members(kept: &Vec<usize>, members: &Vec<usize>, Ghost(n): Ghost<int>) -> (at: Vec<usize>)
    requires
        positions_of(members@, kept@.len() as int),
        positions_of(kept@, n),
    ensures
        at@ == members_of(kept@, members@),
        positions_of(at@, n),
{
    let mut at: Vec<usize> = Vec::new();
    let mut i: usize = 0;
    while i < members.len()
        invariant
            i <= members@.len(),
            positions_of(members@, kept@.len() as int),
            positions_of(kept@, n),
            at@ == members_of(kept@, members@.take(i as int)),
            positions_of(at@, n),
        decreases members@.len() - i,
    {
        assert(members@[i as int] < kept@.len());
        let ghost held = at@;
        at.push(kept[members[i]]);
        assert(members_of(kept@, members@.take(i + 1)) =~= held.push(at@.last()));
        i = i + 1;
    }
    assert(members@.take(i as int) =~= members@);
    at
}

/// No occurrence has more than `bound` callers.
pub open spec fn callers_within(occs: Seq<OccView>, bound: nat) -> bool {
    forall|i: int| 0 <= i < occs.len() ==> (#[trigger] occs[i]).ancestors.len() <= bound
}

/// Some bound on the callers holds.
proof fn some_callers_bound(occs: Seq<OccView>) -> (bound: nat)
    ensures
        callers_within(occs, bound),
    decreases occs.len(),
{
    if occs.len() == 0 {
        0
    } else {
        let a = some_callers_bound(occs.drop_last());
        let b = occs.last().ancestors.len();
        let bound = if a >= b {
            a
        } else {
            b
        };
        assert forall|i: int| 0 <= i < occs.len() implies (#[trigger] occs[i]).ancestors.len()
            <= bound by {
            if i < occs.len() - 1 {
                assert(occs.drop_last()[i] == occs[i]);
            }
        }
        bound
    }
}

/// Draws the callers of some occurrences at one depth, and below each the callers
/// above it.
fn build_callers<'a>(
    bins: &BinaryRegistry,
    occs: &Vec<Occurrence<'a>>,
    at: &Vec<usize>,
    depth: usize,
    threshold: u64,
    interner: &mut StringInterner,
    Ghost(bound): Ghost<nat>,
) -> (nodes: Vec<FlameNode>)
    requires
        bins.wf(),
        old(interner).wf(),
        positions_of(at@, occs@.len() as int),
        callers_within(occ_views(occs@), bound),
        depth <= bound,
    ensures
        final(interner).wf(),
        final(interner).table() == interned(
            old(interner).table(),
            callers_texts(
                nodes@,
                nodes@.len(),
                *bins,
                occ_views(occs@),
                at@,
                depth as int,
                threshold,
            ),
        ),
        extends(old(interner).table(), final(interner).table()),
        is_callers_level(
            nodes@,
            final(interner).table(),
            *bins,
            occ_views(occs@),
            at@,
            depth as int,
            threshold,
        ),
    decreases bound - depth,
{
    let ghost views = occ_views(occs@);
    let kept = keep_deep(occs, at, depth);
    let items = make_caller_items(occs, &kept, depth);
    let groups = group_items(bins, &items, false);
    let order = list_groups(&groups, threshold);
    let ghost gs = listed(groups_of(*bins, items@, false, items@.len()), threshold);
    let mut nodes: Vec<FlameNode> = Vec::new();
    let mut i: usize = 0;
    proof {
        assert(items.len() <= usize::MAX);
        assert(interner.table().take(interner.table().len() as int) =~= interner.table());
    }
    while i < order.len()
        invariant
            bins.wf(),
            interner.wf(),
            views == occ_views(occs@),
            callers_within(views, bound),
            depth <= bound,
            kept@ == deep_enough(views, at@, depth as int),
            positions_of(kept@, occs@.len() as int),
            forall|k: int|
                0 <= k < kept@.len() ==> occs@[#[trigger] kept@[k] as int].ancestors@.len() > depth,
            items@ == caller_items(views, kept@, depth as int),
            items@.len() <= usize::MAX,
            group_views(groups@) == groups_of(*bins, items@, false, items@.len()),
            gs == listed(groups_of(*bins, items@, false, items@.len()), threshold),
            order@.len() == gs.len(),
            forall|k: int|
                0 <= k < order@.len() ==> (#[trigger] order@[k]) < groups@.len()
                    && groups@[order@[k] as int]@ == gs[k],
            i <= order@.len(),
            nodes@.len() == i,
            interner.table() == interned(
                old(interner).table(),
                callers_texts(nodes@, i as nat, *bins, views, at@, depth as int, threshold),
            ),
            extends(old(interner).table(), interner.table()),
            forall|k: int|
                0 <= k < i ==> shows_group(#[trigger] nodes@[k], interner.table(), gs[k], false)
                    && is_callers_level(
                    nodes@[k].children@,
                    interner.table(),
                    *bins,
                    views,
                    members_of(kept@, gs[k].members),
                    depth + 1,
                    threshold,
                ),
        decreases order@.len() - i,
    {
        assert(order@[i as int] < groups@.len());
        let g = &groups[order[i]];
        proof {
            assert(group_views(groups@)[order@[i as int] as int] == g@);
            listed_members_are_positions(*bins, items@, false, g@, order@[i as int] as int);
            every_node_is_in_one_group(*bins, items@, false, items@.len());
            assert(g@.members.len() > 0);
            assert(g@.members[0] < items@.len());
            let first = kept@[g@.members[0] as int];
            assert(occs@[first as int].ancestors@.len() > depth);
            assert(views[first as int].ancestors.len() <= bound);
            assert(occs@[first as int].ancestors.len() > depth);
        }
        let ghost t0 = interner.table();
        let above = pick_members(&kept, &g.members, Ghost(occs@.len() as int));
        let children = build_callers(
            bins,
            occs,
            &above,
            depth + 1,
            threshold,
            interner,
            Ghost(bound),
        );
        let ghost t1 = interner.table();
        let node = group_node(g, children, false, interner);
        let ghost t2 = interner.table();
        proof {
            extends_transitive(t0, t1, t2);
            extends_transitive(old(interner).table(), t0, t2);
            callers_level_stays(
                node.children@,
                t1,
                t2,
                *bins,
                views,
                above@,
                depth + 1,
                threshold,
            );
            assert forall|k: int| 0 <= k < i implies shows_group(
                #[trigger] nodes@[k],
                t2,
                gs[k],
                false,
            ) && is_callers_level(
                nodes@[k].children@,
                t2,
                *bins,
                views,
                members_of(kept@, gs[k].members),
                depth + 1,
                threshold,
            ) by {
                shown_group_stays(nodes@[k], t0, t2, gs[k], false);
                callers_level_stays(
                    nodes@[k].children@,
                    t0,
                    t2,
                    *bins,
                    views,
                    members_of(kept@, gs[k].members),
                    depth + 1,
                    threshold,
                );
            }
        }
        let ghost drawn = nodes@;
        nodes.push(node);
        proof {
            let before = callers_texts(
                drawn,
                i as nat,
                *bins,
                views,
                at@,
                depth as int,
                threshold,
            );
            let named = callers_texts(
                node.children@,
                node.children@.len(),
                *bins,
                views,
                members_of(kept@, gs[i as int].members),
                depth + 1,
                threshold,
            );
            lemma_callers_texts_of_first(
                drawn,
                nodes@,
                i as nat,
                *bins,
                views,
                at@,
                depth as int,
                threshold,
            );
            interning_goes_on(old(interner).table(), before, named);
            interning_goes_on(old(interner).table(), before + named, group_texts(gs[i as int]));
            assert(nodes@[i as int] == node);
        }
        i = i + 1;
    }
    nodes
}

/// The family tree of a symbol with its table of strings.
pub struct NeighborsUpdate {
    pub strings: Vec<String>,
    pub function_name: Option<u32>,
    pub binary: Option<u32>,
    pub is_main: bool,
    pub language: u32,
    pub own_on_cpu_ns: u64,
    pub own_off_cpu: OffCpuBreakdown,
    pub own_pet_samples: u64,
    pub own_off_cpu_intervals: u64,
    pub callers_tree: FlameNode,
    pub callees_tree: FlameNode,
}

/// The least time that a neighbour must have to be drawn: a two-thousandth of the
/// symbol's own.
pub open spec fn neighbor_threshold(own: AccView) -> u64 {
    if own.total() / 2000 > 1 {
        own.total() / 2000
    } else {
        1
    }
}

/// The group that the root of both trees shows: the symbol itself.
pub open spec fn root_group(target_address: u64, label: LabelView, own: AccView) -> GroupView {
    GroupView {
        name: label.name,
        acc: AccView {
            rep_address: target_address,
            is_main: label.is_main,
            language: label.language,
            ..own
        },
        members: seq![],
    }
}

/// All positions below `n`.
pub open spec fn all_positions(n: int) -> Seq<usize> {
    Seq::new(n as nat, |i: int| i as usize)
}

/// The occurrences as nodes under their own address.
pub open spec fn own_items(occs: Seq<OccView>) -> Seq<LevelItem<'static>> {
    occs.map_values(|o: OccView| LevelItem { address: o.address, node: &o.node })
}

/// The table of strings of a family tree: what the symbol names, then what each tree names as it
/// is drawn, its root last.
pub open spec fn family_texts(
    bins: BinaryRegistry,
    occs: Seq<OccView>,
    root: GroupView,
    threshold: u64,
    u: NeighborsUpdate,
) -> Seq<Seq<char>> {
    let callers = u.callers_tree.children@;
    let callees = u.callees_tree.children@;
    let at = all_positions(occs.len() as int);
    let above = callers_texts(callers, callers.len(), bins, occs, at, 0, threshold);
    let below = level_texts(
        callees,
        callees.len(),
        bins,
        callees_of_all(own_items(occs), at),
        FlameStyle { seeded: false, threshold, counters: false },
    );
    interned(
        seq![],
        group_texts(root) + above + group_texts(root) + below + group_texts(root),
    )
}

/// `u` is the family tree of the symbol at `target_address` in the call tree below
/// `flame_root`.
pub open spec fn is_family(
    flame_root: StackNode,
    bins: BinaryRegistry,
    target_address: u64,
    u: NeighborsUpdate,
) -> bool {
    let label = label_at(bins, target_address);
    let occs = occurrences(bins, label.name, flame_root, 0, seq![]);
    let own = own_of(bins, occs);
    let threshold = neighbor_threshold(own);
    let root = root_group(target_address, label, own);
    let strings = texts(u.strings@);
    let at = all_positions(occs.len() as int);
    &&& strings.no_duplicates()
    &&& strings == family_texts(bins, occs, root, threshold, u)
    &&& stands_for_opt(
        strings,
        u.function_name,
        match label.name {
            Some(n) => Some(n.0),
            None => None,
        },
    )
    &&& stands_for_opt(
        strings,
        u.binary,
        match label.name {
            Some(n) => Some(n.1),
            None => None,
        },
    )
    &&& u.is_main == label.is_main
    &&& stands_for(strings, u.language, label.language)
    &&& u.own_on_cpu_ns == own.on_cpu_ns
    &&& u.own_off_cpu == own.off_cpu
    &&& u.own_pet_samples == own.pet_samples
    &&& u.own_off_cpu_intervals == own.off_cpu_intervals
    &&& shows_group(u.callers_tree, strings, root, false)
    &&& is_callers_level(u.callers_tree.children@, strings, bins, occs, at, 0, threshold)
    &&& shows_group(u.callees_tree, strings, root, false)
    &&& is_level(
        u.callees_tree.children@,
        strings,
        bins,
        callees_of_all(own_items(occs), at),
        FlameStyle { seeded: false, threshold, counters: false },
    )
}

/// All positions below `n`.
fn make_positions(n: usize) -> (at: Vec<usize>)
    ensures
        at@ == all_positions(n as int),
        positions_of(at@, n as int),
{
    let mut at: Vec<usize> = Vec::new();
    let mut i: usize = 0;
    while i < n
        invariant
            i <= n,
            at@ == all_positions(i as int),
        decreases n - i,
    {
        at.push(i);
        i = i + 1;
        assert(at@ =~= all_positions(i as int));
    }
    at
}

/// The occurrences as nodes under their own address.
fn make_own_items<'a>(occs: &Vec<Occurrence<'a>>) -> (items: Vec<LevelItem<'a>>)
    ensures
        items@ == own_items(occ_views(occs@)),
{
    let mut items: Vec<LevelItem<'a>> = Vec::new();
    let mut i: usize = 0;
    while i < occs.len()
        invariant
            i <= occs@.len(),
            items@ == own_items(occ_views(occs@.take(i as int))),
        decreases occs@.len() - i,
    {
        items.push(LevelItem { address: occs[i].address, node: occs[i].node });
        i = i + 1;
        assert(items@ =~= own_items(occ_views(occs@.take(i as int))));
    }
    assert(occs@.take(i as int) =~= occs@);
    items
}

/// The root of a tree, whose neighbours are drawn already.
fn root_node(
    target_address: u64,
    name: &Option<SymbolName>,
    is_main: bool,
    language: &str,
    own: &SymbolAcc,
    children: Vec<FlameNode>,
    interner: &mut StringInterner,
) -> (node: FlameNode)
    requires
        old(interner).wf(),
    ensures
        final(interner).wf(),
        final(interner).table() == interned(
            old(interner).table(),
            group_texts(
                root_group(
                    target_address,
                    LabelView { name: name_view(*name), is_main, language: language@ },
                    own@,
                ),
            ),
        ),
        extends(old(interner).table(), final(interner).table()),
        shows_group(
            node,
            final(interner).table(),
            root_group(
                target_address,
                LabelView { name: name_view(*name), is_main, language: language@ },
                own@,
            ),
            false,
        ),
        node.children == children,
{
    let ghost t0 = interner.table();
    let function_name = interner.intern_opt(
        match name {
            Some(n) => Some(n.function_name.as_str()),
            None => None,
        },
    );
    let ghost t1 = interner.table();
    let binary = interner.intern_opt(
        match name {
            Some(n) => Some(n.binary.as_str()),
            None => None,
        },
    );
    let ghost t2 = interner.table();
    let language_id: u32 = interner.intern_str(language);
    let ghost t3 = interner.table();
    proof {
        extends_transitive(t0, t1, t2);
        extends_transitive(t0, t2, t3);
        extends_transitive(t1, t2, t3);
        interning_a_group(
            t0,
            root_group(
                target_address,
                LabelView { name: name_view(*name), is_main, language: language@ },
                own@,
            ),
        );
        if function_name is Some {
            stands_for_stays(t1, t3, function_name.unwrap(), name_view(*name).unwrap().0);
        }
        if binary is Some {
            stands_for_stays(t2, t3, binary.unwrap(), name_view(*name).unwrap().1);
        }
    }
    FlameNode {
        address: target_address,
        on_cpu_ns: own.on_cpu_ns,
        off_cpu: own.off_cpu,
        pet_samples: own.pet_samples,
        off_cpu_intervals: own.off_cpu_intervals,
        function_name,
        binary,
        is_main,
        language: language_id,
        cycles: 0,
        instructions: 0,
        l1d_misses: 0,
        branch_mispreds: 0,
        children,
    }
}

/// Draws the family tree of the symbol at `target_address`: the callers of every
/// place where it shows in the call tree, and what it calls there, both by symbol.
pub fn compute_neighbors_update(
    flame_root: &StackNode,
    bins: &BinaryRegistry,
    target_address: u64,
) -> (u: NeighborsUpdate)
    requires
        bins.wf(),
    ensures
        is_family(*flame_root, *bins, target_address, u),
{
    let label = classify(bins, target_address);
    let mut occs: Vec<Occurrence> = Vec::new();
    let mut ancestors: Vec<u64> = Vec::new();
    assert(occ_views(occs@) =~= seq![]);
    assert(ancestors@ =~= seq![]);
    walk(bins, &label.name, flame_root, 0, &mut ancestors, &mut occs);
    let ghost views = occurrences(*bins, label@.name, *flame_root, 0, seq![]);
    assert(occ_views(occs@) =~= views);
    let own = sum_own(bins, &occs);
    let share: u64 = own.total() / 2000;
    let threshold: u64 = if share > 1 {
        share
    } else {
        1
    };
    let mut interner = StringInterner::new();
    let function_name = interner.intern_opt(
        match &label.name {
            Some(n) => Some(n.function_name.as_str()),
            None => None,
        },
    );
    let ghost t1 = interner.table();
    let binary = interner.intern_opt(
        match &label.name {
            Some(n) => Some(n.binary.as_str()),
            None => None,
        },
    );
    let ghost t2 = interner.table();
    let language: u32 = interner.intern_str(label.language.as_str());
    let ghost t3 = interner.table();
    let at = make_positions(occs.len());
    let ghost bound = some_callers_bound(views);
    let callers = build_callers(bins, &occs, &at, 0, threshold, &mut interner, Ghost(bound));
    let ghost drawn_callers = callers@;
    let ghost t4 = interner.table();
    let callers_tree = root_node(
        target_address,
        &label.name,
        label.is_main,
        label.language.as_str(),
        &own,
        callers,
        &mut interner,
    );
    let ghost t5 = interner.table();
    let items = make_own_items(&occs);
    let ghost h0 = some_items_height(items@);
    let ghost h = h0 + 1;
    proof {
        lemma_items_within_more(items@, h0);
    }
    let below = collect_callees(&items, &at, Ghost(h));
    let style = FlameStyle { seeded: false, threshold, counters: false };
    let callees = build_children(bins, &below, style, &mut interner, Ghost((h - 1) as nat));
    let ghost drawn_callees = callees@;
    let ghost t6 = interner.table();
    let callees_tree = root_node(
        target_address,
        &label.name,
        label.is_main,
        label.language.as_str(),
        &own,
        callees,
        &mut interner,
    );
    let ghost t7 = interner.table();
    proof {
        extends_transitive(t5, t6, t7);
        extends_transitive(t4, t5, t7);
        extends_transitive(t3, t4, t7);
        extends_transitive(t2, t3, t7);
        extends_transitive(t1, t2, t7);
        callers_level_stays(drawn_callers, t4, t7, *bins, views, at@, 0, threshold);
        level_stays(drawn_callees, t6, t7, *bins, below@, style);
        shown_group_stays(
            callers_tree,
            t5,
            t7,
            root_group(target_address, label@, own@),
            false,
        );
        if function_name is Some {
            stands_for_stays(t1, t7, function_name.unwrap(), label@.name.unwrap().0);
        }
        if binary is Some {
            stands_for_stays(t2, t7, binary.unwrap(), label@.name.unwrap().1);
        }
        stands_for_stays(t3, t7, language, label@.language);
        interner.lemma_wf();
        let root = group_texts(root_group(target_address, label@, own@));
        let above = callers_texts(
            drawn_callers,
            drawn_callers.len(),
            *bins,
            views,
            at@,
            0,
            threshold,
        );
        let called = level_texts(drawn_callees, drawn_callees.len(), *bins, below@, style);
        interning_a_group(seq![], root_group(target_address, label@, own@));
        interning_goes_on(seq![], root, above);
        interning_goes_on(seq![], root + above, root);
        interning_goes_on(seq![], root + above + root, called);
        interning_goes_on(seq![], root + above + root + called, root);
    }
    NeighborsUpdate {
        strings: interner.into_strings(),
        function_name,
        binary,
        is_main: label.is_main,
        language,
        own_on_cpu_ns: own.on_cpu_ns,
        own_off_cpu: own.off_cpu,
        own_pet_samples: own.pet_samples,
        own_off_cpu_intervals: own.off_cpu_intervals,
        callers_tree,
        callees_tree,
    }
}

/// Room for one more level.
proof fn lemma_items_within_more(items: Seq<LevelItem>, h: nat)
    requires
        items_within(items, h),
    ensures
        items_within(items, h + 1),
{
    assert forall|i: int| 0 <= i < items.len() implies within_height(
        *(#[trigger] items[i]).node,
        h + 1,
    ) by {
        crate::flame::height_grows(*items[i].node, h, h + 1);
    }
}

/// A way down a call tree: which callee is taken at each step.
pub open spec fn is_way(node: StackNode, way: Seq<int>) -> bool
    decreases way.len(),
{
    way.len() > 0 ==> 0 <= way[0] < node.children@.len() && is_way(
        node.children@[way[0]].node,
        way.drop_first(),
    )
}

/// The node at the end of a way.
pub open spec fn end_of_way(node: StackNode, way: Seq<int>) -> StackNode
    decreases way.len(),
{
    if way.len() == 0 {
        node
    } else {
        end_of_way(node.children@[way[0]].node, way.drop_first())
    }
}

/// The addresses on a way, from the node itself down.
pub open spec fn addresses_on(node: StackNode, address: u64, way: Seq<int>) -> Seq<u64>
    decreases way.len(),
{
    if way.len() == 0 {
        seq![address]
    } else {
        seq![address] + addresses_on(
            node.children@[way[0]].node,
            node.children@[way[0]].address,
            way.drop_first(),
        )
    }
}

/// What shows below one callee shows below all of them.
proof fn lemma_below_holds_each(
    bins: BinaryRegistry,
    target: NameView,
    children: Seq<StackChild>,
    ancestors: Seq<u64>,
    c: int,
    o: OccView,
)
    requires
        0 <= c < children.len(),
        occurrences(bins, target, children[c].node, children[c].address, ancestors).contains(o),
    ensures
        occurrences_below(bins, target, children, ancestors).contains(o),
    decreases children.len(),
{
    let last = children[children.len() - 1];
    let init = children.drop_last();
    let before = occurrences_below(bins, target, init, ancestors);
    let own = occurrences(bins, target, last.node, last.address, ancestors);
    let all = before + own;
    if c == children.len() - 1 {
        let i = choose|i: int| 0 <= i < own.len() && own[i] == o;
        assert(all[before.len() + i] == o);
    } else {
        assert(init[c] == children[c]);
        lemma_below_holds_each(bins, target, init, ancestors, c, o);
        let i = choose|i: int| 0 <= i < before.len() && before[i] == o;
        assert(all[i] == o);
    }
}

/// The law of places: wherever a way down the call tree ends at an address of the symbol, that place
/// is found, with the addresses above it on the way.
pub proof fn every_place_is_found(
    bins: BinaryRegistry,
    target: NameView,
    node: StackNode,
    address: u64,
    ancestors: Seq<u64>,
    way: Seq<int>,
)
    requires
        is_way(node, way),
        addresses_on(node, address, way).last() != 0,
        label_at(bins, addresses_on(node, address, way).last()).name == target,
    ensures
        occurrences(bins, target, node, address, ancestors).contains(
            OccView {
                address: addresses_on(node, address, way).last(),
                node: end_of_way(node, way),
                ancestors: ancestors + addresses_on(node, address, way).drop_last().filter(
                    |a: u64| a != 0,
                ),
            },
        ),
    decreases way.len(),
{
    let named = |a: u64| a != 0;
    let on = addresses_on(node, address, way);
    let path = with_ancestor(ancestors, address);
    let here: Seq<OccView> = if address != 0 && label_at(bins, address).name == target {
        seq![OccView { address, node, ancestors }]
    } else {
        seq![]
    };
    let below = occurrences_below(bins, target, node.children@, path);
    let o = OccView {
        address: on.last(),
        node: end_of_way(node, way),
        ancestors: ancestors + on.drop_last().filter(named),
    };
    reveal(Seq::filter);
    if way.len() == 0 {
        assert(on.drop_last() =~= seq![]);
        assert(ancestors + on.drop_last().filter(named) =~= ancestors);
        assert((here + below)[0] == o);
    } else {
        let child = node.children@[way[0]];
        let rest = addresses_on(child.node, child.address, way.drop_first());
        assert(rest.len() > 0);
        assert(on.last() == rest.last());
        every_place_is_found(bins, target, child.node, child.address, path, way.drop_first());
        assert(on.drop_last() =~= seq![address] + rest.drop_last());
        Seq::filter_distributes_over_add(seq![address], rest.drop_last(), named);
        let one = seq![address];
        assert(one.drop_last().filter(named) =~= seq![]);
        assert(one.last() == address);
        assert(one.filter(named) =~= if address != 0 {
            one
        } else {
            seq![]
        });
        assert(path + rest.drop_last().filter(named) =~= ancestors + on.drop_last().filter(named));
        lemma_below_holds_each(bins, target, node.children@, path, way[0], o);
        let i = choose|i: int| 0 <= i < below.len() && below[i] == o;
        assert((here + below)[here.len() + i] == o);
    }
}

/// The law of found places: only places of the symbol are found.
pub proof fn only_places_of_the_symbol_are_found(
    bins: BinaryRegistry,
    target: NameView,
    node: StackNode,
    address: u64,
    ancestors: Seq<u64>,
)
    ensures
        forall|i: int|
            0 <= i < occurrences(bins, target, node, address, ancestors).len() ==> label_at(
                bins,
                (#[trigger] occurrences(bins, target, node, address, ancestors)[i]).address,
            ).name == target && occurrences(bins, target, node, address, ancestors)[i].address != 0,
    decreases node, 0nat,
{
    lemma_only_places_below(bins, target, node.children@, with_ancestor(ancestors, address));
}

proof fn lemma_only_places_below(
    bins: BinaryRegistry,
    target: NameView,
    children: Seq<StackChild>,
    ancestors: Seq<u64>,
)
    ensures
        forall|i: int|
            0 <= i < occurrences_below(bins, target, children, ancestors).len() ==> label_at(
                bins,
                (#[trigger] occurrences_below(bins, target, children, ancestors)[i]).address,
            ).name == target && occurrences_below(bins, target, children, ancestors)[i].address != 0,
    decreases children, 1nat,
{
    if children.len() > 0 {
        let last = children[children.len() - 1];
        assert(decreases_to!(children => last));
        lemma_only_places_below(bins, target, children.drop_last(), ancestors);
        only_places_of_the_symbol_are_found(bins, target, last.node, last.address, ancestors);
    }
}

/// How much was measured at the places of a symbol at and below a node.
pub open spec fn amount_of_symbol(
    q: Quantity,
    bins: BinaryRegistry,
    target: NameView,
    node: StackNode,
    address: u64,
) -> int
    decreases node,
{
    (if address != 0 && label_at(bins, address).name == target {
        amount_at(q, node)
    } else {
        0
    }) + amount_of_symbol_below(q, bins, target, node.children@)
}

/// How much was measured at the places of a symbol at and below some callees.
pub open spec fn amount_of_symbol_below(
    q: Quantity,
    bins: BinaryRegistry,
    target: NameView,
    children: Seq<StackChild>,
) -> int
    decreases children,
{
    if children.len() == 0 {
        0
    } else {
        let last = children[children.len() - 1];
        amount_of_symbol_below(q, bins, target, children.drop_last()) + amount_of_symbol(
            q,
            bins,
            target,
            last.node,
            last.address,
        )
    }
}

/// How much was measured at each of some places.
pub open spec fn place_amounts(q: Quantity, occs: Seq<OccView>) -> Seq<int> {
    occs.map_values(|o: OccView| amount_at(q, o.node))
}

/// The places of a symbol hold what was measured there, each once.
proof fn lemma_places_add_up(
    q: Quantity,
    bins: BinaryRegistry,
    target: NameView,
    node: StackNode,
    address: u64,
    ancestors: Seq<u64>,
)
    ensures
        sum_of(place_amounts(q, occurrences(bins, target, node, address, ancestors)))
            == amount_of_symbol(q, bins, target, node, address),
    decreases node, 0nat,
{
    let path = with_ancestor(ancestors, address);
    let here: Seq<OccView> = if address != 0 && label_at(bins, address).name == target {
        seq![OccView { address, node, ancestors }]
    } else {
        seq![]
    };
    let below = occurrences_below(bins, target, node.children@, path);
    lemma_places_below_add_up(q, bins, target, node.children@, path);
    sum_of_both(place_amounts(q, here), place_amounts(q, below));
    assert(place_amounts(q, here + below) =~= place_amounts(q, here) + place_amounts(q, below));
    let none = Seq::<int>::empty();
    sum_of_one_more(none, amount_at(q, node));
    assert(place_amounts(q, here) =~= if address != 0 && label_at(bins, address).name == target {
        none.push(amount_at(q, node))
    } else {
        none
    });
}

proof fn lemma_places_below_add_up(
    q: Quantity,
    bins: BinaryRegistry,
    target: NameView,
    children: Seq<StackChild>,
    ancestors: Seq<u64>,
)
    ensures
        sum_of(place_amounts(q, occurrences_below(bins, target, children, ancestors)))
            == amount_of_symbol_below(q, bins, target, children),
    decreases children, 1nat,
{
    if children.len() == 0 {
        assert(place_amounts(q, occurrences_below(bins, target, children, ancestors)) =~= seq![]);
    } else {
        let last = children[children.len() - 1];
        assert(decreases_to!(children => last));
        let before = occurrences_below(bins, target, children.drop_last(), ancestors);
        let own = occurrences(bins, target, last.node, last.address, ancestors);
        lemma_places_below_add_up(q, bins, target, children.drop_last(), ancestors);
        lemma_places_add_up(q, bins, target, last.node, last.address, ancestors);
        sum_of_both(place_amounts(q, before), place_amounts(q, own));
        assert(place_amounts(q, before + own) =~= place_amounts(q, before) + place_amounts(q, own));
    }
}

/// What places add up to.
proof fn lemma_own_adds_up(q: Quantity, bins: BinaryRegistry, occs: Seq<OccView>)
    ensures
        amount_in(q, own_of(bins, occs)) == as_fits(sum_of(place_amounts(q, occs))),
        sum_of(place_amounts(q, occs)) >= 0,
    decreases occs.len(),
{
    if occs.len() == 0 {
        assert(place_amounts(q, occs) =~= seq![]);
    } else {
        let o = occs.last();
        lemma_own_adds_up(q, bins, occs.drop_last());
        lemma_plus_amount(
            q,
            own_of(bins, occs.drop_last()),
            o.address,
            o.node,
            label_at(bins, o.address),
        );
        assert(place_amounts(q, occs).drop_last() =~= place_amounts(q, occs.drop_last()));
        assert(place_amounts(q, occs).last() == amount_at(q, o.node));
    }
}

/// The law of families: what is shown of the symbol itself, and at the root of both trees, is what
/// was measured at its places in the call tree, each counted once, at most what fits.
#[verifier::spinoff_prover]
#[verifier::rlimit(40)]
pub proof fn families_show_their_symbol(
    flame_root: StackNode,
    bins: BinaryRegistry,
    target_address: u64,
    u: NeighborsUpdate,
    q: Quantity,
)
    requires
        is_family(flame_root, bins, target_address, u),
    ensures
        ({
            let shown = as_fits(
                amount_of_symbol(
                    q,
                    bins,
                    label_at(bins, target_address).name,
                    flame_root,
                    0,
                ),
            );
            &&& is_no_counter(q) ==> amount_shown(q, u.callers_tree) == shown && amount_shown(
                q,
                u.callees_tree,
            ) == shown
            &&& q is OnCpu ==> u.own_on_cpu_ns == shown
            &&& q is PetSamples ==> u.own_pet_samples == shown
            &&& q is OffCpuIntervals ==> u.own_off_cpu_intervals == shown
            &&& is_no_counter(q) && !(q is OnCpu) && !(q is PetSamples) && !(q is OffCpuIntervals)
                ==> amount_off(q, u.own_off_cpu) == shown
        }),
{
    let label = label_at(bins, target_address);
    let occs = occurrences(bins, label.name, flame_root, 0, seq![]);
    lemma_places_add_up(q, bins, label.name, flame_root, 0, seq![]);
    lemma_own_adds_up(q, bins, occs);
}

/// The law of the threshold: what has less than the two-thousandth part of the symbol's time is not
/// drawn, and nothing is drawn that has no time.
pub proof fn thresholds_are_a_part_of_the_time(own: AccView)
    ensures
        neighbor_threshold(own) >= 1,
        neighbor_threshold(own) > 1 ==> neighbor_threshold(own) * 2000 <= own.total() < (
        neighbor_threshold(own) + 1) * 2000,
        own.total() < 4000 ==> neighbor_threshold(own) == 1,
        own.total() >= 4000 ==> neighbor_threshold(own) > 1,
{
}

/// The law of depth: the occurrences that are drawn at some depth are those with so many callers.
pub proof fn deeper_levels_have_more_callers(occs: Seq<OccView>, at: Seq<usize>, depth: int)
    ensures
        deep_enough(occs, at, depth) == at.filter(
            |k: usize| occs[k as int].ancestors.len() > depth,
        ),
    decreases at.len(),
{
    reveal(Seq::filter);
    if at.len() > 0 {
        deeper_levels_have_more_callers(occs, at.drop_last(), depth);
    }
}

/// The law of callers: a node on some level above the symbol shows the time of the symbol's places
/// whose caller there, counted from the symbol, is of the node's symbol, at most what fits.
pub proof fn callers_show_the_time_of_places(
    nodes: Seq<FlameNode>,
    strings: Seq<Seq<char>>,
    bins: BinaryRegistry,
    occs: Seq<OccView>,
    at: Seq<usize>,
    depth: int,
    threshold: u64,
    q: Quantity,
    i: int,
) -> (places: Seq<usize>)
    requires
        is_callers_level(nodes, strings, bins, occs, at, depth, threshold),
        at.len() <= usize::MAX,
        positions_of(at, occs.len() as int),
        0 <= i < nodes.len(),
        is_no_counter(q),
    ensures
        places.len() > 0,
        amount_shown(q, nodes[i]) == as_fits(
            sum_of(places.map_values(|k: usize| amount_at(q, occs[k as int].node))),
        ),
        forall|k: int|
            0 <= k < places.len() ==> {
                let o = occs[#[trigger] places[k] as int];
                let first = occs[places[0] as int];
                &&& at.contains(places[k])
                &&& o.ancestors.len() > depth
                &&& label_at(bins, o.ancestors[o.ancestors.len() - 1 - depth]).name == label_at(
                    bins,
                    first.ancestors[first.ancestors.len() - 1 - depth],
                ).name
            },
        is_callers_level(nodes[i].children@, strings, bins, occs, places, depth + 1, threshold),
{
    let kept = deep_enough(occs, at, depth);
    deeper_levels_have_more_callers(occs, at, depth);
    let more = |k: usize| occs[k as int].ancestors.len() > depth;
    at.lemma_filter_len(more);
    let items = caller_items(occs, kept, depth);
    let gs = groups_of(bins, items, false, items.len());
    lemma_groups_are_few(bins, items, false, items.len());
    let g = listed(gs, threshold)[i];
    assert(shows_group(nodes[i], strings, g, false));
    lemma_listed_is_there(gs, threshold, i);
    let k = choose|k: int| 0 <= k < gs.len() && gs[k] == g;
    groups_hold_the_sums_of_their_members(bins, items, false, items.len(), q, k);
    every_node_is_in_one_group(bins, items, false, items.len());
    let places = members_of(kept, g.members);
    assert(gs[k].members.len() > 0);
    assert(member_amounts(q, items, g.members) =~= places.map_values(
        |p: usize| amount_at(q, occs[p as int].node),
    )) by {
        assert forall|m: int| 0 <= m < g.members.len() implies #[trigger] g.members[m]
            < items.len() by {
            assert(gs[k].members.contains(g.members[m]));
            assert(in_group(gs, k, g.members[m]));
        }
        assert forall|m: int| 0 <= m < g.members.len() implies #[trigger] member_amounts(
            q,
            items,
            g.members,
        )[m] == amount_at(q, occs[places[m] as int].node) by {
            assert(g.members[m] < items.len());
        }
    }
    assert forall|m: int| 0 <= m < places.len() implies ({
        let o = occs[#[trigger] places[m] as int];
        &&& at.contains(places[m])
        &&& o.ancestors.len() > depth
        &&& label_at(bins, o.ancestors[o.ancestors.len() - 1 - depth]).name == g.name
    }) by {
        assert(gs[k].members.contains(g.members[m]));
        assert(in_group(gs, k, g.members[m]));
        assert(places[m] == kept[g.members[m] as int]);
        assert(kept.contains(kept[g.members[m] as int]));
        at.lemma_filter_contains_rev(more, places[m]);
        at.lemma_filter_pred(more, g.members[m] as int);
    }
    places
}

/// The law of drawn callers: a place of the symbol with as much time on the CPU as the threshold is
/// among those of some node, on every level on which it has a caller.
pub proof fn busy_places_have_their_callers_drawn(
    nodes: Seq<FlameNode>,
    strings: Seq<Seq<char>>,
    bins: BinaryRegistry,
    occs: Seq<OccView>,
    at: Seq<usize>,
    depth: int,
    threshold: u64,
    p: int,
) -> (i: int)
    requires
        is_callers_level(nodes, strings, bins, occs, at, depth, threshold),
        at.len() <= usize::MAX,
        0 <= p < at.len(),
        occs[at[p] as int].ancestors.len() > depth,
        occs[at[p] as int].node.on_cpu_ns >= threshold,
    ensures
        0 <= i < nodes.len(),
        nodes[i].on_cpu_ns >= occs[at[p] as int].node.on_cpu_ns,
        stands_for_opt(
            strings,
            nodes[i].function_name,
            match label_at(
                bins,
                occs[at[p] as int].ancestors[occs[at[p] as int].ancestors.len() - 1 - depth],
            ).name {
                Some(n) => Some(n.0),
                None => None,
            },
        ),
{
    let kept = deep_enough(occs, at, depth);
    deeper_levels_have_more_callers(occs, at, depth);
    let more = |k: usize| occs[k as int].ancestors.len() > depth;
    at.lemma_filter_len(more);
    at.lemma_filter_contains(more, p);
    let items = caller_items(occs, kept, depth);
    let gs = groups_of(bins, items, false, items.len());
    lemma_groups_are_few(bins, items, false, items.len());
    let m = choose|m: int| 0 <= m < kept.len() && kept[m] == at[p];
    every_node_is_in_one_group(bins, items, false, items.len());
    let pos = m as usize;
    assert(has_group(gs, pos));
    let k = choose|k: int| in_group(gs, k, pos);
    assert(in_group(gs, k, pos));
    let g = gs[k];
    let q = Quantity::OnCpu;
    groups_hold_the_sums_of_their_members(bins, items, false, items.len(), q, k);
    let x = choose|x: int| 0 <= x < g.members.len() && g.members[x] == pos;
    let held = member_amounts(q, items, g.members);
    assert(held[x] == occs[at[p] as int].node.on_cpu_ns);
    assert(none_negative(held));
    sum_of_bounds(held);
    assert(g.acc.on_cpu_ns >= threshold);
    assert(g.acc.total() >= threshold);
    lemma_above(gs, threshold);
    let over = above(gs, threshold);
    assert(over.contains(gs[k]));
    let y = choose|y: int| 0 <= y < over.len() && over[y] == g;
    let keys = group_keys(over);
    let order = existing_order(keys);
    stable_order_gives_sorted(keys, over, order);
    order_lists_every_position(keys, order, y);
    let i = choose|i: int| 0 <= i < order.len() && order[i] == y;
    assert(listed(gs, threshold)[i] == g);
    assert(shows_group(nodes[i], strings, g, false));
    i
}

} // verus!
