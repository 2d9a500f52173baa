//! Functions as graphs: blocks of instructions that run one behind the other, and the ways
//! between them.
use vstd::prelude::*;

use crate::binaries::UNKNOWN_LANGUAGE;
use crate::code::ResolvedAddress;
use crate::disassembly::{
    all_shown, annotate, are_lines_of, decode, instr_views, lie_within, no_binary, no_binary_text,
    resolved_instrs, resolved_isa, AnnotatedLine, Flow, Instr, InstrView,
};
use crate::highlight::TokenHighlighter;

verus! {

/// Instructions that run one behind the other.
pub struct BasicBlock {
    pub id: u32,
    pub start_address: u64,
    pub lines: Vec<AnnotatedLine>,
}

/// How control goes from one block to another.
#[derive(Clone, Copy, Debug, PartialEq, Eq, Structural)]
pub enum CfgEdgeKind {
    Fallthrough,
    Branch,
    ConditionalBranch,
    Call,
}

/// A way from one block to another.
#[derive(Clone, Copy, Debug, PartialEq, Eq, Structural)]
pub struct CfgEdge {
    pub from_id: u32,
    pub to_id: u32,
    pub kind: CfgEdgeKind,
}

/// The graph of a function.
pub struct CfgUpdate {
    pub function_name: String,
    pub language: String,
    pub base_address: u64,
    pub queried_address: u64,
    pub blocks: Vec<BasicBlock>,
    pub edges: Vec<CfgEdge>,
}

/// The address is in the function.
pub open spec fn in_function(a: u64, fn_lo: u64, fn_hi: u64) -> bool {
    fn_lo <= a < fn_hi
}

/// Where a branch goes.
pub open spec fn target_of(flow: Flow) -> Option<u64> {
    match flow {
        Flow::Branch { target } => Some(target),
        Flow::ConditionalBranch { target } => Some(target),
        _ => None,
    }
}

/// Control does not simply go on.
pub open spec fn ends_block(flow: Flow) -> bool {
    match flow {
        Flow::Branch { target } => true,
        Flow::ConditionalBranch { target } => true,
        Flow::Return => true,
        Flow::Indirect => true,
        _ => false,
    }
}

/// The instruction makes a block begin at `a`: it branches there within the function, or it
/// stands in front of it and does not simply go on.
pub open spec fn leads(i: InstrView, fn_lo: u64, fn_hi: u64, a: u64) -> bool {
    ||| target_of(i.flow) == Some(a) && in_function(a, fn_lo, fn_hi)
    ||| ends_block(i.flow) && i.address + i.length == a && a < fn_hi
}

/// A block begins at `a`.
pub open spec fn is_leader(instrs: Seq<InstrView>, fn_lo: u64, fn_hi: u64, a: u64) -> bool {
    ||| instrs.len() > 0 && a == instrs[0].address
    ||| exists|i: int| 0 <= i < instrs.len() && #[trigger] leads(instrs[i], fn_lo, fn_hi, a)
}

/// The addresses ascend.
pub open spec fn ascend(s: Seq<u64>) -> bool {
    forall|i: int, j: int| 0 <= i < j < s.len() ==> s[i] < s[j]
}

/// Where the blocks begin, in order.
pub open spec fn are_leaders(
    instrs: Seq<InstrView>,
    fn_lo: u64,
    fn_hi: u64,
    leaders: Seq<u64>,
) -> bool {
    &&& ascend(leaders)
    &&& forall|a: u64| #[trigger] leaders.contains(a) == is_leader(instrs, fn_lo, fn_hi, a)
}

/// The address is in the block: behind its beginning, and in front of the next one's.
pub open spec fn in_block(leaders: Seq<u64>, a: u64, k: int) -> bool {
    0 <= k < leaders.len() && leaders[k] <= a && (k + 1 < leaders.len() ==> a < leaders[k + 1])
}

/// The block of an address.
pub open spec fn block_of(leaders: Seq<u64>, a: u64) -> Option<int> {
    if exists|k: int| in_block(leaders, a, k) {
        Some(choose|k: int| in_block(leaders, a, k))
    } else {
        None
    }
}

/// The law of blocks: an address is in one block at most.
pub proof fn blocks_do_not_overlap(leaders: Seq<u64>, a: u64, j: int, k: int)
    requires
        ascend(leaders),
        in_block(leaders, a, j),
        in_block(leaders, a, k),
    ensures
        j == k,
{
    if j < k {
        if j + 1 < k {
            assert(leaders[j + 1] < leaders[k]);
        }
    } else if k < j {
        if k + 1 < j {
            assert(leaders[k + 1] < leaders[j]);
        }
    }
}

/// The block of an address is the one that it is in.
proof fn lemma_block_of(leaders: Seq<u64>, a: u64, k: int)
    requires
        ascend(leaders),
        in_block(leaders, a, k),
    ensures
        block_of(leaders, a) == Some(k),
{
    let j = choose|j: int| in_block(leaders, a, j);
    blocks_do_not_overlap(leaders, a, j, k);
}

/// The law of branches: the block that a branch within the function leads to begins at the
/// target.
pub proof fn branches_lead_to_beginnings(
    instrs: Seq<InstrView>,
    fn_lo: u64,
    fn_hi: u64,
    leaders: Seq<u64>,
    i: int,
    target: u64,
)
    requires
        are_leaders(instrs, fn_lo, fn_hi, leaders),
        0 <= i < instrs.len(),
        target_of(instrs[i].flow) == Some(target),
        in_function(target, fn_lo, fn_hi),
    ensures
        block_of(leaders, target) matches Some(k) && 0 <= k < leaders.len() && leaders[k] == target,
{
    assert(leads(instrs[i], fn_lo, fn_hi, target));
    assert(leaders.contains(target));
    let k = choose|k: int| 0 <= k < leaders.len() && leaders[k] == target;
    assert(in_block(leaders, target, k));
    lemma_block_of(leaders, target, k);
}

/// How many of the addresses are not behind `a`.
fn count_up_to(leaders: &Vec<u64>, a: u64) -> (n: usize)
    requires
        ascend(leaders@),
    ensures
        n <= leaders@.len(),
        forall|j: int| 0 <= j < n ==> leaders@[j] <= a,
        forall|j: int| n <= j < leaders@.len() ==> leaders@[j] > a,
{
    let mut lo: usize = 0;
    let mut hi: usize = leaders.len();
    while lo < hi
        invariant
            ascend(leaders@),
            lo <= hi <= leaders@.len(),
            forall|j: int| 0 <= j < lo ==> leaders@[j] <= a,
            forall|j: int| hi <= j < leaders@.len() ==> leaders@[j] > a,
        decreases hi - lo,
    {
        let mid: usize = lo + (hi - lo) / 2;
        if leaders[mid] <= a {
            assert forall|j: int| 0 <= j < mid + 1 implies leaders@[j] <= a by {
                if j < mid {
                    assert(leaders@[j] < leaders@[mid as int]);
                }
            }
            lo = mid + 1;
        } else {
            assert forall|j: int| mid <= j < leaders@.len() implies leaders@[j] > a by {
                if mid < j {
                    assert(leaders@[mid as int] < leaders@[j]);
                }
            }
            hi = mid;
        }
    }
    lo
}

/// The block of an address.
fn block_id_for(leaders: &Vec<u64>, a: u64) -> (r: Option<usize>)
    requires
        ascend(leaders@),
    ensures
        match r {
            Some(k) => k < leaders@.len() && block_of(leaders@, a) == Some(k as int),
            None => block_of(leaders@, a) is None,
        },
{
    let n: usize = count_up_to(leaders, a);
    if n == 0 {
        assert forall|k: int| !in_block(leaders@, a, k) by {
            if 0 <= k < leaders@.len() {
                assert(leaders@[k] > a);
            }
        }
        None
    } else {
        proof {
            assert(in_block(leaders@, a, n - 1));
            lemma_block_of(leaders@, a, n - 1);
        }
        Some(n - 1)
    }
}

/// Adds an address at its place, where it is not there yet.
fn add_leader(leaders: &mut Vec<u64>, a: u64)
    requires
        ascend(old(leaders)@),
    ensures
        ascend(final(leaders)@),
        forall|b: u64| #[trigger]
            final(leaders)@.contains(b) == (old(leaders)@.contains(b) || b == a),
        final(leaders)@.len() <= old(leaders)@.len() + 1,
{
    let n: usize = count_up_to(leaders, a);
    let ghost before = leaders@;
    if n > 0 && leaders[n - 1] == a {
        assert(before[n - 1] == a);
        assert(before.contains(a));
        return;
    }
    leaders.insert(n, a);
    proof {
        let after = leaders@;
        assert(after == before.insert(n as int, a));
        if n > 0 {
            assert(before[n - 1] < a);
        }
        assert forall|i: int, j: int| 0 <= i < j < after.len() implies after[i] < after[j] by {
            let p = if i < n {
                i
            } else {
                i - 1
            };
            let q = if j < n {
                j
            } else {
                j - 1
            };
            if i == n {
                assert(before[q] > a);
            } else if j == n {
                if p < n - 1 {
                    assert(before[p] < before[n - 1]);
                }
            } else {
                assert(before[p] < before[q]);
            }
        }
        assert forall|b: u64| #[trigger] after.contains(b) == (before.contains(b) || b == a) by {
            if before.contains(b) {
                let i = choose|i: int| 0 <= i < before.len() && before[i] == b;
                if i < n {
                    assert(after[i] == b);
                } else {
                    assert(after[i + 1] == b);
                }
            }
            if b == a {
                assert(after[n as int] == a);
            }
            if after.contains(b) && b != a {
                let i = choose|i: int| 0 <= i < after.len() && after[i] == b;
                if i < n {
                    assert(before[i] == b);
                } else {
                    assert(before[i - 1] == b);
                }
            }
        }
    }
}

/// Where the blocks begin.
fn collect_leaders(instrs: &Vec<Instr>, fn_lo: u64, fn_hi: u64) -> (leaders: Vec<u64>)
    requires
        instrs@.len() > 0,
        lie_within(instrs@, u64::MAX as int),
        instrs@.len() <= 0x7fff_ffff,
    ensures
        are_leaders(instr_views(instrs@), fn_lo, fn_hi, leaders@),
        leaders@.len() <= 2 * instrs@.len() + 1,
{
    let ghost views = instr_views(instrs@);
    let mut leaders: Vec<u64> = Vec::new();
    leaders.push(instrs[0].address);
    assert(views[0] == instrs@[0]@);
    assert(leaders@[0] == views[0].address);
    let mut k: usize = 0;
    while k < instrs.len()
        invariant
            k <= instrs@.len(),
            0 < instrs@.len() <= 0x7fff_ffff,
            lie_within(instrs@, u64::MAX as int),
            views == instr_views(instrs@),
            ascend(leaders@),
            leaders@.len() <= 2 * k + 1,
            forall|a: u64| #[trigger]
                leaders@.contains(a) == (a == views[0].address || exists|i: int|
                    0 <= i < k && #[trigger] leads(views[i], fn_lo, fn_hi, a)),
        decreases instrs@.len() - k,
    {
        let instr = &instrs[k];
        let ghost before = leaders@;
        assert(views[k as int] == instr@);
        let target: Option<u64> = match instr.flow {
            Flow::Branch { target } => Some(target),
            Flow::ConditionalBranch { target } => Some(target),
            _ => None,
        };
        match target {
            Some(t) => {
                if fn_lo <= t && t < fn_hi {
                    add_leader(&mut leaders, t);
                }
            },
            None => {},
        }
        let next: u64 = instr.address + instr.length;
        let ends = match instr.flow {
            Flow::Branch { .. } => true,
            Flow::ConditionalBranch { .. } => true,
            Flow::Return => true,
            Flow::Indirect => true,
            _ => false,
        };
        if next < fn_hi && ends {
            add_leader(&mut leaders, next);
        }
        proof {
            assert forall|a: u64| #[trigger] leaders@.contains(a) == (a == views[0].address
                || exists|i: int|
                0 <= i < k + 1 && #[trigger] leads(views[i], fn_lo, fn_hi, a)) by {
                let here = leads(views[k as int], fn_lo, fn_hi, a);
                assert(leaders@.contains(a) == (before.contains(a) || here));
                if before.contains(a) && a != views[0].address {
                    let i = choose|i: int|
                        0 <= i < k && #[trigger] leads(views[i], fn_lo, fn_hi, a);
                    assert(leads(views[i], fn_lo, fn_hi, a));
                }
            }
        }
        k = k + 1;
    }
    leaders
}

/// The lines of a block, in order.
pub open spec fn lines_of(lines: Seq<AnnotatedLine>, leaders: Seq<u64>, k: int) -> Seq<
    AnnotatedLine,
>
    decreases lines.len(),
{
    if lines.len() == 0 {
        seq![]
    } else {
        let before = lines_of(lines.drop_last(), leaders, k);
        if block_of(leaders, lines.last().address) == Some(k) {
            before.push(lines.last())
        } else {
            before
        }
    }
}

/// The first instruction at an address.
pub open spec fn first_at(instrs: Seq<InstrView>, a: u64) -> Option<int>
    decreases instrs.len(),
{
    if instrs.len() == 0 {
        None
    } else {
        match first_at(instrs.drop_last(), a) {
            Some(i) => Some(i),
            None => if instrs.last().address == a {
                Some(instrs.len() - 1)
            } else {
                None
            },
        }
    }
}

/// A way from one block to another, where there is another.
pub open spec fn way(from: int, to: Option<int>, kind: CfgEdgeKind) -> Seq<CfgEdge> {
    match to {
        Some(to) => seq![CfgEdge { from_id: from as u32, to_id: to as u32, kind }],
        None => seq![],
    }
}

/// The block of a place within the function.
pub open spec fn block_within(leaders: Seq<u64>, a: int, fn_lo: u64, fn_hi: u64) -> Option<int> {
    if fn_lo <= a < fn_hi {
        block_of(leaders, a as u64)
    } else {
        None
    }
}

/// The ways out of a block whose last instruction is `d`.
pub open spec fn ways_behind(
    d: InstrView,
    leaders: Seq<u64>,
    fn_lo: u64,
    fn_hi: u64,
    from: int,
) -> Seq<CfgEdge> {
    let next = block_within(leaders, d.address + d.length, 0, fn_hi);
    match d.flow {
        Flow::Sequential => way(from, next, CfgEdgeKind::Fallthrough),
        Flow::Call => way(from, next, CfgEdgeKind::Call),
        Flow::Branch { target } => way(
            from,
            block_within(leaders, target as int, fn_lo, fn_hi),
            CfgEdgeKind::Branch,
        ),
        Flow::ConditionalBranch { target } => way(
            from,
            block_within(leaders, target as int, fn_lo, fn_hi),
            CfgEdgeKind::ConditionalBranch,
        ) + way(from, next, CfgEdgeKind::Fallthrough),
        Flow::Return => seq![],
        Flow::Indirect => seq![],
    }
}

/// The ways out of a block.
pub open spec fn ways_out(
    instrs: Seq<InstrView>,
    lines: Seq<AnnotatedLine>,
    leaders: Seq<u64>,
    fn_lo: u64,
    fn_hi: u64,
    k: int,
) -> Seq<CfgEdge> {
    let own = lines_of(lines, leaders, k);
    if own.len() == 0 {
        seq![]
    } else {
        match first_at(instrs, own.last().address) {
            Some(i) => ways_behind(instrs[i], leaders, fn_lo, fn_hi, k),
            None => seq![],
        }
    }
}

/// The ways out of the first `n` blocks, block by block.
pub open spec fn edges_of(
    instrs: Seq<InstrView>,
    lines: Seq<AnnotatedLine>,
    leaders: Seq<u64>,
    fn_lo: u64,
    fn_hi: u64,
    n: nat,
) -> Seq<CfgEdge>
    decreases n,
{
    if n == 0 {
        seq![]
    } else {
        edges_of(instrs, lines, leaders, fn_lo, fn_hi, (n - 1) as nat) + ways_out(
            instrs,
            lines,
            leaders,
            fn_lo,
            fn_hi,
            n - 1,
        )
    }
}

/// Where blocks begin.
pub open spec fn starts_of(blocks: Seq<BasicBlock>) -> Seq<u64> {
    blocks.map_values(|b: BasicBlock| b.start_address)
}

/// The blocks and the ways between them are those of the function.
pub open spec fn is_graph_of(
    instrs: Seq<InstrView>,
    lines: Seq<AnnotatedLine>,
    fn_lo: u64,
    fn_hi: u64,
    blocks: Seq<BasicBlock>,
    edges: Seq<CfgEdge>,
) -> bool {
    let leaders = starts_of(blocks);
    &&& are_leaders(instrs, fn_lo, fn_hi, leaders)
    &&& forall|k: int|
        0 <= k < blocks.len() ==> (#[trigger] blocks[k]).id == k && blocks[k].lines@ == lines_of(
            lines,
            leaders,
            k,
        )
    &&& edges == edges_of(instrs, lines, leaders, fn_lo, fn_hi, leaders.len())
}

/// The first instruction at an address.
fn find_at(instrs: &Vec<Instr>, a: u64) -> (r: Option<usize>)
    ensures
        match r {
            Some(i) => i < instrs@.len() && first_at(instr_views(instrs@), a) == Some(i as int),
            None => first_at(instr_views(instrs@), a) is None,
        },
{
    let ghost views = instr_views(instrs@);
    let mut i: usize = 0;
    assert(views.take(0) =~= seq![]);
    while i < instrs.len()
        invariant
            i <= instrs@.len(),
            views == instr_views(instrs@),
            first_at(views.take(i as int), a) is None,
        decreases instrs@.len() - i,
    {
        proof {
            assert(views.take(i + 1).drop_last() =~= views.take(i as int));
            assert(views.take(i + 1).last() == instrs@[i as int]@);
        }
        if instrs[i].address == a {
            proof {
                lemma_first_at_stays(views, a, i + 1);
            }
            return Some(i);
        }
        i = i + 1;
    }
    assert(views.take(i as int) =~= views);
    None
}

/// What is first stays first.
proof fn lemma_first_at_stays(instrs: Seq<InstrView>, a: u64, k: int)
    requires
        0 <= k <= instrs.len(),
        first_at(instrs.take(k), a) is Some,
    ensures
        first_at(instrs, a) == first_at(instrs.take(k), a),
    decreases instrs.len() - k,
{
    if k < instrs.len() {
        assert(instrs.take(k + 1).drop_last() =~= instrs.take(k));
        lemma_first_at_stays(instrs, a, k + 1);
    } else {
        assert(instrs.take(k) =~= instrs);
    }
}

/// What is first is there.
proof fn lemma_first_at(instrs: Seq<InstrView>, a: u64)
    ensures
        first_at(instrs, a) matches Some(i) ==> 0 <= i < instrs.len() && instrs[i].address == a,
    decreases instrs.len(),
{
    if instrs.len() > 0 {
        lemma_first_at(instrs.drop_last(), a);
    }
}

/// Adds a way, where there is another block.
fn push_way(edges: &mut Vec<CfgEdge>, from: usize, to: Option<usize>, kind: CfgEdgeKind)
    ensures
        final(edges)@ == old(edges)@ + way(
            from as int,
            match to {
                Some(to) => Some(to as int),
                None => None,
            },
            kind,
        ),
{
    let ghost before = edges@;
    match to {
        Some(to) => {
            edges.push(CfgEdge { from_id: from as u32, to_id: to as u32, kind });
            assert(edges@ =~= before + seq![
                CfgEdge { from_id: from as u32, to_id: to as u32, kind },
            ]);
        },
        None => {
            assert(edges@ =~= before + seq![]);
        },
    }
}

/// Adds the ways out of a block whose last instruction is `d`.
fn push_ways(
    edges: &mut Vec<CfgEdge>,
    d: &Instr,
    leaders: &Vec<u64>,
    fn_lo: u64,
    fn_hi: u64,
    from: usize,
)
    requires
        ascend(leaders@),
        d.address + d.length <= u64::MAX,
    ensures
        final(edges)@ == old(edges)@ + ways_behind(d@, leaders@, fn_lo, fn_hi, from as int),
{
    let ghost before = edges@;
    let next: u64 = d.address + d.length;
    let next_block: Option<usize> = if next < fn_hi {
        block_id_for(leaders, next)
    } else {
        None
    };
    match d.flow {
        Flow::Sequential => push_way(edges, from, next_block, CfgEdgeKind::Fallthrough),
        Flow::Call => push_way(edges, from, next_block, CfgEdgeKind::Call),
        Flow::Branch { target } => {
            let to: Option<usize> = if fn_lo <= target && target < fn_hi {
                block_id_for(leaders, target)
            } else {
                None
            };
            push_way(edges, from, to, CfgEdgeKind::Branch)
        },
        Flow::ConditionalBranch { target } => {
            let to: Option<usize> = if fn_lo <= target && target < fn_hi {
                block_id_for(leaders, target)
            } else {
                None
            };
            push_way(edges, from, to, CfgEdgeKind::ConditionalBranch);
            push_way(edges, from, next_block, CfgEdgeKind::Fallthrough);
            assert(edges@ =~= before + ways_behind(d@, leaders@, fn_lo, fn_hi, from as int));
        },
        Flow::Return => {
            assert(edges@ =~= before + seq![]);
        },
        Flow::Indirect => {
            assert(edges@ =~= before + seq![]);
        },
    }
}

/// Turns lines round, so that the first one comes off first.
fn turned_round(lines: Vec<AnnotatedLine>) -> (out: Vec<AnnotatedLine>)
    ensures
        out@.len() == lines@.len(),
        forall|j: int| 0 <= j < out@.len() ==> #[trigger] out@[j] == lines@[lines@.len() - 1 - j],
{
    let ghost src = lines@;
    let n: usize = lines.len();
    let mut rest = lines;
    let mut out: Vec<AnnotatedLine> = Vec::new();
    while rest.len() > 0
        invariant
            n == src.len(),
            rest@.len() + out@.len() == n,
            rest@ == src.take(rest@.len() as int),
            forall|j: int| 0 <= j < out@.len() ==> #[trigger] out@[j] == src[n - 1 - j],
        decreases rest@.len(),
    {
        let ghost m = rest@.len() as int;
        match rest.pop() {
            Some(line) => {
                assert(line == src[m - 1]);
                assert(rest@ =~= src.take(m - 1));
                out.push(line);
            },
            None => {},
        }
    }
    out
}

/// Empty blocks that begin at the addresses.
fn empty_blocks(leaders: &Vec<u64>) -> (blocks: Vec<BasicBlock>)
    requires
        leaders@.len() <= 0xffff_ffff,
    ensures
        blocks@.len() == leaders@.len(),
        forall|k: int|
            0 <= k < blocks@.len() ==> (#[trigger] blocks@[k]).id == k && blocks@[k].start_address
                == leaders@[k] && blocks@[k].lines@.len() == 0,
{
    let mut blocks: Vec<BasicBlock> = Vec::new();
    let mut k: usize = 0;
    while k < leaders.len()
        invariant
            k <= leaders@.len() <= 0xffff_ffff,
            blocks@.len() == k,
            forall|j: int|
                0 <= j < k ==> (#[trigger] blocks@[j]).id == j && blocks@[j].start_address
                    == leaders@[j] && blocks@[j].lines@.len() == 0,
        decreases leaders@.len() - k,
    {
        blocks.push(
            BasicBlock { id: k as u32, start_address: leaders[k], lines: Vec::new() },
        );
        k = k + 1;
    }
    blocks
}

/// Puts lines into their blocks.
fn fill_blocks(leaders: &Vec<u64>, lines: Vec<AnnotatedLine>) -> (blocks: Vec<BasicBlock>)
    requires
        ascend(leaders@),
        leaders@.len() <= 0xffff_ffff,
    ensures
        starts_of(blocks@) == leaders@,
        forall|k: int|
            0 <= k < blocks@.len() ==> (#[trigger] blocks@[k]).id == k && blocks@[k].lines@
                == lines_of(lines@, leaders@, k),
{
    let ghost src = lines@;
    let n: usize = lines.len();
    let mut stack = turned_round(lines);
    let mut blocks = empty_blocks(leaders);
    let mut i: usize = 0;
    assert(src.take(0) =~= seq![]);
    while i < n
        invariant
            i <= n,
            n == src.len(),
            ascend(leaders@),
            stack@.len() == n - i,
            forall|j: int| 0 <= j < stack@.len() ==> #[trigger] stack@[j] == src[n - 1 - j],
            blocks@.len() == leaders@.len(),
            forall|k: int|
                0 <= k < blocks@.len() ==> (#[trigger] blocks@[k]).id == k
                    && blocks@[k].start_address == leaders@[k] && blocks@[k].lines@ == lines_of(
                    src.take(i as int),
                    leaders@,
                    k,
                ),
        decreases n - i,
    {
        proof {
            assert(src.take(i + 1).drop_last() =~= src.take(i as int));
            assert(src.take(i + 1).last() == src[i as int]);
            assert(stack@[stack@.len() - 1] == src[i as int]);
        }
        match stack.pop() {
            Some(line) => {
                let at: Option<usize> = block_id_for(leaders, line.address);
                match at {
                    Some(k) => {
                        blocks[k].lines.push(line);
                    },
                    None => {},
                }
            },
            None => {},
        }
        i = i + 1;
    }
    assert(src.take(i as int) =~= src);
    assert(starts_of(blocks@) =~= leaders@);
    blocks
}

/// Groups the instructions of a function into blocks, and finds the ways between them.
/// `lines` are the lines of the instructions.
pub fn build_blocks_and_edges(
    instrs: &Vec<Instr>,
    lines: Vec<AnnotatedLine>,
    fn_lo: u64,
    fn_hi: u64,
) -> (r: (Vec<BasicBlock>, Vec<CfgEdge>))
    requires
        lie_within(instrs@, u64::MAX as int),
        instrs@.len() <= 0x7fff_ffff,
        lines@.len() == instrs@.len(),
    ensures
        instrs@.len() == 0 ==> r.0@.len() == 0 && r.1@.len() == 0,
        instrs@.len() > 0 ==> is_graph_of(
            instr_views(instrs@),
            lines@,
            fn_lo,
            fn_hi,
            r.0@,
            r.1@,
        ),
{
    if instrs.len() == 0 {
        return (Vec::new(), Vec::new());
    }
    let ghost views = instr_views(instrs@);
    let ghost src = lines@;
    let leaders = collect_leaders(instrs, fn_lo, fn_hi);
    let blocks = fill_blocks(&leaders, lines);
    assert(starts_of(blocks@).len() == blocks@.len());
    let mut edges: Vec<CfgEdge> = Vec::new();
    let mut k: usize = 0;
    while k < blocks.len()
        invariant
            k <= blocks@.len(),
            views == instr_views(instrs@),
            lie_within(instrs@, u64::MAX as int),
            ascend(leaders@),
            forall|j: int|
                0 <= j < blocks@.len() ==> (#[trigger] blocks@[j]).id == j && blocks@[j].lines@
                    == lines_of(src, leaders@, j),
            edges@ == edges_of(views, src, leaders@, fn_lo, fn_hi, k as nat),
        decreases blocks@.len() - k,
    {
        let ghost before = edges@;
        let own: usize = blocks[k].lines.len();
        if own > 0 {
            let last: u64 = blocks[k].lines[own - 1].address;
            proof {
                lemma_first_at(views, last);
            }
            match find_at(instrs, last) {
                Some(i) => {
                    assert(views[i as int] == instrs@[i as int]@);
                    push_ways(&mut edges, &instrs[i], &leaders, fn_lo, fn_hi, k);
                },
                None => {
                    assert(edges@ =~= before + seq![]);
                },
            }
        } else {
            assert(edges@ =~= before + seq![]);
        }
        k = k + 1;
    }
    (blocks, edges)
}

/// The law of edges: they lead from block to block.
pub proof fn edges_join_blocks(
    instrs: Seq<InstrView>,
    lines: Seq<AnnotatedLine>,
    fn_lo: u64,
    fn_hi: u64,
    blocks: Seq<BasicBlock>,
    edges: Seq<CfgEdge>,
    e: int,
)
    requires
        is_graph_of(instrs, lines, fn_lo, fn_hi, blocks, edges),
        blocks.len() <= 0xffff_ffff,
        0 <= e < edges.len(),
    ensures
        edges[e].from_id < blocks.len(),
        edges[e].to_id < blocks.len(),
{
    let leaders = starts_of(blocks);
    lemma_edges_join(instrs, lines, leaders, fn_lo, fn_hi, leaders.len(), e);
}

proof fn lemma_edges_join(
    instrs: Seq<InstrView>,
    lines: Seq<AnnotatedLine>,
    leaders: Seq<u64>,
    fn_lo: u64,
    fn_hi: u64,
    n: nat,
    e: int,
)
    requires
        n <= leaders.len() <= 0xffff_ffff,
        0 <= e < edges_of(instrs, lines, leaders, fn_lo, fn_hi, n).len(),
    ensures
        edges_of(instrs, lines, leaders, fn_lo, fn_hi, n)[e].from_id < leaders.len(),
        edges_of(instrs, lines, leaders, fn_lo, fn_hi, n)[e].to_id < leaders.len(),
    decreases n,
{
    if n > 0 {
        let before = edges_of(instrs, lines, leaders, fn_lo, fn_hi, (n - 1) as nat);
        if e < before.len() {
            lemma_edges_join(instrs, lines, leaders, fn_lo, fn_hi, (n - 1) as nat, e);
        } else {
            assert forall|a: u64| block_of(leaders, a) is Some implies 0 <= (#[trigger] block_of(
                leaders,
                a,
            )).unwrap() < leaders.len() by {
                assert(in_block(leaders, a, block_of(leaders, a).unwrap()));
            }
        }
    }
}

/// The law of lines: every line that does not stand in front of the first block is in one.
pub proof fn lines_stand_in_blocks(leaders: Seq<u64>, a: u64)
    requires
        ascend(leaders),
        leaders.len() > 0,
        leaders[0] <= a,
    ensures
        block_of(leaders, a) is Some,
    decreases leaders.len(),
{
    let last = leaders.len() - 1;
    if leaders[last] <= a {
        assert(in_block(leaders, a, last));
    } else {
        let init = leaders.drop_last();
        assert(ascend(init));
        lines_stand_in_blocks(init, a);
        let k = choose|k: int| in_block(init, a, k);
        assert(in_block(leaders, a, k));
    }
}

/// The graph of a function that was found. Nothing where one of its instructions cannot be
/// highlighted.
pub fn compute_cfg_update<F: Fn(u64) -> (u64, u64)>(
    resolved: &ResolvedAddress,
    queried_address: u64,
    function_name: String,
    language: String,
    self_lookup: F,
    host_arch: &str,
) -> (r: Option<CfgUpdate>)
    requires
        resolved.base_address + resolved.bytes@.len() <= u64::MAX,
        resolved.bytes@.len() <= 0x7fff_ffff,
        forall|a: u64| call_requires(self_lookup, (a,)),
    ensures
        r is Some == all_shown(resolved_instrs(*resolved, host_arch@)),
        r matches Some(c) ==> c.function_name == function_name && c.language == language
            && c.base_address == resolved.base_address && c.queried_address == queried_address
            && is_cfg_of(self_lookup, *resolved, host_arch@, c),
{
    let instrs = decode(
        resolved_isa(resolved, host_arch),
        resolved.base_address,
        resolved.bytes.as_slice(),
    );
    let mut hl = TokenHighlighter::new();
    let lines = match annotate(&instrs, &mut hl, &self_lookup) {
        Some(l) => l,
        None => {
            return None;
        },
    };
    let ghost shown = lines@;
    let fn_hi: u64 = resolved.base_address + resolved.bytes.len() as u64;
    let (blocks, edges) = build_blocks_and_edges(&instrs, lines, resolved.base_address, fn_hi);
    let c = CfgUpdate {
        function_name,
        language,
        base_address: resolved.base_address,
        queried_address,
        blocks,
        edges,
    };
    assert(has_graph(self_lookup, *resolved, host_arch@, c, shown));
    Some(c)
}

/// The graph is that of the code, with these lines.
pub open spec fn has_graph<F: Fn(u64) -> (u64, u64)>(
    self_lookup: F,
    resolved: ResolvedAddress,
    host_arch: Seq<char>,
    c: CfgUpdate,
    lines: Seq<AnnotatedLine>,
) -> bool {
    let instrs = resolved_instrs(resolved, host_arch);
    &&& are_lines_of(self_lookup, instrs, lines)
    &&& if instrs.len() == 0 {
        c.blocks@.len() == 0 && c.edges@.len() == 0
    } else {
        is_graph_of(
            instrs,
            lines,
            resolved.base_address,
            (resolved.base_address + resolved.bytes@.len()) as u64,
            c.blocks@,
            c.edges@,
        )
    }
}

/// The graph is that of the code.
pub open spec fn is_cfg_of<F: Fn(u64) -> (u64, u64)>(
    self_lookup: F,
    resolved: ResolvedAddress,
    host_arch: Seq<char>,
    c: CfgUpdate,
) -> bool {
    exists|lines: Seq<AnnotatedLine>| #[trigger]
        has_graph(self_lookup, resolved, host_arch, c, lines)
}

/// The graph of an address without code.
pub fn no_code_cfg(address: u64) -> (c: CfgUpdate)
    ensures
        c.function_name@ == no_binary_text(address),
        c.language@ == UNKNOWN_LANGUAGE@,
        c.base_address == address,
        c.queried_address == address,
        c.blocks@.len() == 0,
        c.edges@.len() == 0,
{
    CfgUpdate {
        function_name: no_binary(address),
        language: UNKNOWN_LANGUAGE.to_owned(),
        base_address: address,
        queried_address: address,
        blocks: Vec::new(),
        edges: Vec::new(),
    }
}

/// A block begins at the address.
pub open spec fn begins_at(blocks: Seq<BasicBlock>, k: int, a: int) -> bool {
    0 <= k < blocks.len() && blocks[k].start_address == a
}

/// The address lies in the block: behind its beginning, and in front of the next one's.
pub open spec fn lies_in(blocks: Seq<BasicBlock>, k: int, a: int) -> bool {
    &&& 0 <= k < blocks.len()
    &&& blocks[k].start_address <= a
    &&& k + 1 < blocks.len() ==> a < blocks[k + 1].start_address
}

/// The instruction is the last one of the block, by the lines of the block.
pub open spec fn is_last_of(blocks: Seq<BasicBlock>, b: int, d: InstrView) -> bool {
    &&& 0 <= b < blocks.len()
    &&& blocks[b].lines@.len() > 0
    &&& blocks[b].lines@.last().address == d.address
}

/// There is a way of the kind from one block to another.
pub open spec fn has_way(edges: Seq<CfgEdge>, b: int, c: int, kind: CfgEdgeKind) -> bool {
    exists|e: int|
        0 <= e < edges.len() && (#[trigger] edges[e]).from_id == b && edges[e].to_id == c
            && edges[e].kind == kind
}

/// No two instructions stand at one address.
pub open spec fn stand_apart(instrs: Seq<InstrView>) -> bool {
    forall|i: int, j: int|
        0 <= i < j < instrs.len() ==> (#[trigger] instrs[i]).address != (
        #[trigger] instrs[j]).address
}

/// The only instruction at an address is the first one there.
proof fn lemma_only_one_at(instrs: Seq<InstrView>, i: int)
    requires
        stand_apart(instrs),
        0 <= i < instrs.len(),
    ensures
        first_at(instrs, instrs[i].address) == Some(i),
    decreases instrs.len(),
{
    let a = instrs[i].address;
    let init = instrs.drop_last();
    if i < init.len() {
        assert(stand_apart(init)) by {
            assert forall|x: int, y: int| 0 <= x < y < init.len() implies (
            #[trigger] init[x]).address != (#[trigger] init[y]).address by {
                assert(instrs[x].address != instrs[y].address);
            }
        }
        lemma_only_one_at(init, i);
        assert(init[i].address == a);
    } else {
        lemma_first_at(init, a);
        match first_at(init, a) {
            Some(k) => {
                assert(instrs[k].address != instrs[i].address);
            },
            None => {},
        }
    }
}

/// The ways out of a block are ways of the graph.
proof fn lemma_ways_are_edges(
    instrs: Seq<InstrView>,
    lines: Seq<AnnotatedLine>,
    leaders: Seq<u64>,
    fn_lo: u64,
    fn_hi: u64,
    n: nat,
    k: int,
    w: int,
)
    requires
        0 <= k < n,
        0 <= w < ways_out(instrs, lines, leaders, fn_lo, fn_hi, k).len(),
    ensures
        exists|e: int|
            0 <= e < edges_of(instrs, lines, leaders, fn_lo, fn_hi, n).len() && #[trigger] edges_of(
                instrs,
                lines,
                leaders,
                fn_lo,
                fn_hi,
                n,
            )[e] == ways_out(instrs, lines, leaders, fn_lo, fn_hi, k)[w],
    decreases n,
{
    let before = edges_of(instrs, lines, leaders, fn_lo, fn_hi, (n - 1) as nat);
    let all = edges_of(instrs, lines, leaders, fn_lo, fn_hi, n);
    let own = ways_out(instrs, lines, leaders, fn_lo, fn_hi, k);
    if k == n - 1 {
        assert(all[before.len() + w] == own[w]);
    } else {
        lemma_ways_are_edges(instrs, lines, leaders, fn_lo, fn_hi, (n - 1) as nat, k, w);
        let e = choose|e: int| 0 <= e < before.len() && #[trigger] before[e] == own[w];
        assert(all[e] == own[w]);
    }
}

/// An edge of the graph is a way out of one of its blocks.
proof fn lemma_edges_are_ways(
    instrs: Seq<InstrView>,
    lines: Seq<AnnotatedLine>,
    leaders: Seq<u64>,
    fn_lo: u64,
    fn_hi: u64,
    n: nat,
    e: int,
) -> (r: (int, int))
    requires
        0 <= e < edges_of(instrs, lines, leaders, fn_lo, fn_hi, n).len(),
    ensures
        0 <= r.0 < n,
        0 <= r.1 < ways_out(instrs, lines, leaders, fn_lo, fn_hi, r.0).len(),
        edges_of(instrs, lines, leaders, fn_lo, fn_hi, n)[e] == ways_out(
            instrs,
            lines,
            leaders,
            fn_lo,
            fn_hi,
            r.0,
        )[r.1],
    decreases n,
{
    let before = edges_of(instrs, lines, leaders, fn_lo, fn_hi, (n - 1) as nat);
    if e < before.len() {
        lemma_edges_are_ways(instrs, lines, leaders, fn_lo, fn_hi, (n - 1) as nat, e)
    } else {
        (n - 1, e - before.len())
    }
}

/// The block of an address that is not in front of the first.
proof fn lemma_block_there(blocks: Seq<BasicBlock>, a: u64)
    requires
        ascend(starts_of(blocks)),
        blocks.len() > 0,
        blocks[0].start_address <= a,
    ensures
        block_of(starts_of(blocks), a) matches Some(k) && lies_in(blocks, k, a as int),
{
    let leaders = starts_of(blocks);
    assert(leaders[0] == blocks[0].start_address);
    lines_stand_in_blocks(leaders, a);
    let k = choose|k: int| in_block(leaders, a, k);
    lemma_block_of(leaders, a, k);
    assert(leaders[k] == blocks[k].start_address);
    if k + 1 < blocks.len() {
        assert(leaders[k + 1] == blocks[k + 1].start_address);
    }
}

/// The law of branching: where the last instruction of a block branches to a place in the function,
/// conditionally or not, forwards or backwards, there is a way of that kind from its block to
/// the one that begins at the target.
pub proof fn branches_are_followed(
    instrs: Seq<InstrView>,
    lines: Seq<AnnotatedLine>,
    fn_lo: u64,
    fn_hi: u64,
    blocks: Seq<BasicBlock>,
    edges: Seq<CfgEdge>,
    b: int,
    i: int,
)
    requires
        is_graph_of(instrs, lines, fn_lo, fn_hi, blocks, edges),
        blocks.len() <= 0xffff_ffff,
        stand_apart(instrs),
        0 <= i < instrs.len(),
        is_last_of(blocks, b, instrs[i]),
    ensures
        instrs[i].flow matches Flow::Branch { target } ==> (fn_lo <= target < fn_hi ==> exists|c: int|
            #[trigger] begins_at(blocks, c, target as int) && has_way(
                edges,
                b,
                c,
                CfgEdgeKind::Branch,
            )),
        instrs[i].flow matches Flow::ConditionalBranch { target } ==> (fn_lo <= target < fn_hi
            ==> exists|c: int| #[trigger]
            begins_at(blocks, c, target as int) && has_way(
                edges,
                b,
                c,
                CfgEdgeKind::ConditionalBranch,
            )),
{
    let leaders = starts_of(blocks);
    let d = instrs[i];
    lemma_only_one_at(instrs, i);
    assert(blocks[b].lines@ == lines_of(lines, leaders, b));
    let own = ways_out(instrs, lines, leaders, fn_lo, fn_hi, b);
    assert(own == ways_behind(d, leaders, fn_lo, fn_hi, b));
    match d.flow {
        Flow::Branch { target } => {
            if fn_lo <= target < fn_hi {
                branches_lead_to_beginnings(instrs, fn_lo, fn_hi, leaders, i, target);
                let c = block_of(leaders, target)->0;
                assert(begins_at(blocks, c, target as int));
                lemma_ways_are_edges(instrs, lines, leaders, fn_lo, fn_hi, leaders.len(), b, 0);
                assert(own[0] == CfgEdge {
                    from_id: b as u32,
                    to_id: c as u32,
                    kind: CfgEdgeKind::Branch,
                });
                assert(has_way(edges, b, c, CfgEdgeKind::Branch));
            }
        },
        Flow::ConditionalBranch { target } => {
            if fn_lo <= target < fn_hi {
                branches_lead_to_beginnings(instrs, fn_lo, fn_hi, leaders, i, target);
                let c = block_of(leaders, target)->0;
                assert(begins_at(blocks, c, target as int));
                lemma_ways_are_edges(instrs, lines, leaders, fn_lo, fn_hi, leaders.len(), b, 0);
                assert(own[0] == CfgEdge {
                    from_id: b as u32,
                    to_id: c as u32,
                    kind: CfgEdgeKind::ConditionalBranch,
                });
                assert(has_way(edges, b, c, CfgEdgeKind::ConditionalBranch));
            }
        },
        _ => {},
    }
}

/// The law of going on: where control can go on behind the last instruction of a block, within
/// the function, there is a way from its block to the one that the next place lies in.
pub proof fn going_on_is_followed(
    instrs: Seq<InstrView>,
    lines: Seq<AnnotatedLine>,
    fn_lo: u64,
    fn_hi: u64,
    blocks: Seq<BasicBlock>,
    edges: Seq<CfgEdge>,
    b: int,
    i: int,
)
    requires
        is_graph_of(instrs, lines, fn_lo, fn_hi, blocks, edges),
        blocks.len() <= 0xffff_ffff,
        stand_apart(instrs),
        0 <= i < instrs.len(),
        is_last_of(blocks, b, instrs[i]),
        instrs[0].address <= instrs[i].address,
        instrs[i].address + instrs[i].length < fn_hi,
    ensures
        exists|c: int| #[trigger]
            lies_in(blocks, c, instrs[i].address + instrs[i].length) && match instrs[i].flow {
                Flow::Sequential => has_way(edges, b, c, CfgEdgeKind::Fallthrough),
                Flow::ConditionalBranch { .. } => has_way(edges, b, c, CfgEdgeKind::Fallthrough),
                Flow::Call => has_way(edges, b, c, CfgEdgeKind::Call),
                _ => true,
            },
{
    let leaders = starts_of(blocks);
    let d = instrs[i];
    lemma_only_one_at(instrs, i);
    assert(blocks[b].lines@ == lines_of(lines, leaders, b));
    let own = ways_out(instrs, lines, leaders, fn_lo, fn_hi, b);
    assert(own == ways_behind(d, leaders, fn_lo, fn_hi, b));
    let next = (d.address + d.length) as u64;
    assert(is_leader(instrs, fn_lo, fn_hi, instrs[0].address));
    assert(leaders.contains(instrs[0].address));
    let z = choose|z: int| 0 <= z < leaders.len() && leaders[z] == instrs[0].address;
    assert(leaders[0] <= leaders[z]);
    assert(leaders[0] == blocks[0].start_address);
    lemma_block_there(blocks, next);
    let c = block_of(leaders, next)->0;
    assert(lies_in(blocks, c, next as int));
    match d.flow {
        Flow::Sequential => {
            lemma_ways_are_edges(instrs, lines, leaders, fn_lo, fn_hi, leaders.len(), b, 0);
            assert(own[0].to_id == c && own[0].from_id == b);
            assert(has_way(edges, b, c, CfgEdgeKind::Fallthrough));
        },
        Flow::Call => {
            lemma_ways_are_edges(instrs, lines, leaders, fn_lo, fn_hi, leaders.len(), b, 0);
            assert(own[0].to_id == c && own[0].from_id == b);
            assert(has_way(edges, b, c, CfgEdgeKind::Call));
        },
        Flow::ConditionalBranch { target } => {
            let w = own.len() - 1;
            lemma_ways_are_edges(instrs, lines, leaders, fn_lo, fn_hi, leaders.len(), b, w);
            assert(own[w] == CfgEdge {
                from_id: b as u32,
                to_id: c as u32,
                kind: CfgEdgeKind::Fallthrough,
            });
            assert(has_way(edges, b, c, CfgEdgeKind::Fallthrough));
        },
        _ => {},
    }
}

/// What makes a way: an instruction that is the last of the block goes there in that manner.
pub open spec fn goes_so(
    d: InstrView,
    fn_lo: u64,
    fn_hi: u64,
    blocks: Seq<BasicBlock>,
    c: int,
    kind: CfgEdgeKind,
) -> bool {
    match kind {
        CfgEdgeKind::Branch => d.flow matches Flow::Branch { target } && fn_lo <= target < fn_hi
            && begins_at(blocks, c, target as int),
        CfgEdgeKind::ConditionalBranch => d.flow matches Flow::ConditionalBranch { target }
            && fn_lo <= target < fn_hi && begins_at(blocks, c, target as int),
        CfgEdgeKind::Fallthrough => (d.flow is Sequential || d.flow is ConditionalBranch)
            && d.address + d.length < fn_hi && lies_in(blocks, c, d.address + d.length),
        CfgEdgeKind::Call => d.flow is Call && d.address + d.length < fn_hi && lies_in(
            blocks,
            c,
            d.address + d.length,
        ),
    }
}

/// The law of ways: each leads from the block whose last instruction goes there to the block
/// where it goes; there are no others.
pub proof fn ways_are_taken(
    instrs: Seq<InstrView>,
    lines: Seq<AnnotatedLine>,
    fn_lo: u64,
    fn_hi: u64,
    blocks: Seq<BasicBlock>,
    edges: Seq<CfgEdge>,
    e: int,
)
    requires
        is_graph_of(instrs, lines, fn_lo, fn_hi, blocks, edges),
        blocks.len() <= 0xffff_ffff,
        0 <= e < edges.len(),
    ensures
        exists|i: int|
            0 <= i < instrs.len() && #[trigger] is_last_of(
                blocks,
                edges[e].from_id as int,
                instrs[i],
            ) && goes_so(
                instrs[i],
                fn_lo,
                fn_hi,
                blocks,
                edges[e].to_id as int,
                edges[e].kind,
            ),
{
    let leaders = starts_of(blocks);
    let (b, w) = lemma_edges_are_ways(instrs, lines, leaders, fn_lo, fn_hi, leaders.len(), e);
    let own = ways_out(instrs, lines, leaders, fn_lo, fn_hi, b);
    assert(blocks[b].lines@ == lines_of(lines, leaders, b));
    lemma_first_at(instrs, lines_of(lines, leaders, b).last().address);
    let i = first_at(instrs, lines_of(lines, leaders, b).last().address)->0;
    let d = instrs[i];
    assert(own == ways_behind(d, leaders, fn_lo, fn_hi, b));
    assert forall|a: u64| #[trigger] block_of(leaders, a) is Some implies lies_in(
        blocks,
        block_of(leaders, a)->0,
        a as int,
    ) by {
        let k = block_of(leaders, a)->0;
        assert(in_block(leaders, a, k));
        assert(leaders[k] == blocks[k].start_address);
        if k + 1 < blocks.len() {
            assert(leaders[k + 1] == blocks[k + 1].start_address);
        }
    }
    assert(edges[e].from_id == b);
    assert(is_last_of(blocks, edges[e].from_id as int, d));
    match d.flow {
        Flow::Branch { target } => {
            branches_lead_to_beginnings(instrs, fn_lo, fn_hi, leaders, i, target);
            assert(begins_at(blocks, block_of(leaders, target)->0, target as int));
        },
        Flow::ConditionalBranch { target } => {
            if edges[e].kind == CfgEdgeKind::ConditionalBranch {
                branches_lead_to_beginnings(instrs, fn_lo, fn_hi, leaders, i, target);
                assert(begins_at(blocks, block_of(leaders, target)->0, target as int));
            }
        },
        _ => {},
    }
    assert(goes_so(d, fn_lo, fn_hi, blocks, edges[e].to_id as int, edges[e].kind));
}

/// The law of beginnings: a block begins at the first instruction, wherever an instruction branches
/// to within the function, and behind every instruction that does not simply go on; and nowhere
/// else. So no control goes into the middle of a block, and none leaves it but at its end.
pub proof fn blocks_begin_where_control_arrives(
    instrs: Seq<InstrView>,
    lines: Seq<AnnotatedLine>,
    fn_lo: u64,
    fn_hi: u64,
    blocks: Seq<BasicBlock>,
    edges: Seq<CfgEdge>,
    a: u64,
)
    requires
        is_graph_of(instrs, lines, fn_lo, fn_hi, blocks, edges),
        instrs.len() > 0,
    ensures
        (exists|k: int| #[trigger] begins_at(blocks, k, a as int)) <==> {
            ||| a == instrs[0].address
            ||| exists|i: int|
                0 <= i < instrs.len() && fn_lo <= a < fn_hi && ((#[trigger] instrs[i]).flow
                    == Flow::Branch { target: a } || instrs[i].flow == Flow::ConditionalBranch {
                    target: a,
                })
            ||| exists|i: int|
                0 <= i < instrs.len() && a < fn_hi && (#[trigger] instrs[i]).address
                    + instrs[i].length == a && !(instrs[i].flow is Sequential
                    || instrs[i].flow is Call)
        },
        forall|j: int, k: int|
            0 <= j < k < blocks.len() ==> (#[trigger] blocks[j]).start_address < (
            #[trigger] blocks[k]).start_address,
        forall|k: int| 0 <= k < blocks.len() ==> (#[trigger] blocks[k]).id == k,
{
    let leaders = starts_of(blocks);
    assert(leaders.contains(a) == is_leader(instrs, fn_lo, fn_hi, a));
    if leaders.contains(a) {
        let k = choose|k: int| 0 <= k < leaders.len() && leaders[k] == a;
        assert(begins_at(blocks, k, a as int));
        if a != instrs[0].address {
            let i = choose|i: int|
                0 <= i < instrs.len() && #[trigger] leads(instrs[i], fn_lo, fn_hi, a);
            assert(leads(instrs[i], fn_lo, fn_hi, a));
        }
    }
    if exists|k: int| #[trigger] begins_at(blocks, k, a as int) {
        let k = choose|k: int| #[trigger] begins_at(blocks, k, a as int);
        assert(leaders[k] == a);
    }
    assert forall|i: int| 0 <= i < instrs.len() && fn_lo <= a < fn_hi && ((
    #[trigger] instrs[i]).flow == Flow::Branch { target: a } || instrs[i].flow
        == Flow::ConditionalBranch { target: a }) implies is_leader(instrs, fn_lo, fn_hi, a) by {
        assert(leads(instrs[i], fn_lo, fn_hi, a));
    }
    assert forall|i: int| 0 <= i < instrs.len() && a < fn_hi && (#[trigger] instrs[i]).address
        + instrs[i].length == a && !(instrs[i].flow is Sequential || instrs[i].flow is Call)
    implies is_leader(instrs, fn_lo, fn_hi, a) by {
        assert(leads(instrs[i], fn_lo, fn_hi, a));
    }
    assert forall|j: int, k: int| 0 <= j < k < blocks.len() implies (
    #[trigger] blocks[j]).start_address < (#[trigger] blocks[k]).start_address by {
        assert(leaders[j] < leaders[k]);
    }
}

/// The law of shown lines: each block holds the lines that lie in it, all of them, in their order.
pub proof fn blocks_hold_their_lines(
    instrs: Seq<InstrView>,
    lines: Seq<AnnotatedLine>,
    fn_lo: u64,
    fn_hi: u64,
    blocks: Seq<BasicBlock>,
    edges: Seq<CfgEdge>,
    k: int,
)
    requires
        is_graph_of(instrs, lines, fn_lo, fn_hi, blocks, edges),
        0 <= k < blocks.len(),
    ensures
        blocks[k].lines@ == lines.filter(
            |l: AnnotatedLine| lies_in(blocks, k, l.address as int),
        ),
{
    let leaders = starts_of(blocks);
    lemma_lines_of(blocks, lines, k);
    assert(blocks[k].lines@ == lines_of(lines, leaders, k));
}

proof fn lemma_lines_of(blocks: Seq<BasicBlock>, lines: Seq<AnnotatedLine>, k: int)
    requires
        ascend(starts_of(blocks)),
        0 <= k < blocks.len(),
    ensures
        lines_of(lines, starts_of(blocks), k) == lines.filter(
            |l: AnnotatedLine| lies_in(blocks, k, l.address as int),
        ),
    decreases lines.len(),
{
    let leaders = starts_of(blocks);
    reveal(Seq::filter);
    if lines.len() > 0 {
        lemma_lines_of(blocks, lines.drop_last(), k);
        let a = lines.last().address;
        assert(leaders[k] == blocks[k].start_address);
        if k + 1 < blocks.len() {
            assert(leaders[k + 1] == blocks[k + 1].start_address);
        }
        assert(in_block(leaders, a, k) == lies_in(blocks, k, a as int));
        if in_block(leaders, a, k) {
            lemma_block_of(leaders, a, k);
        } else if block_of(leaders, a) == Some(k) {
            let j = choose|j: int| in_block(leaders, a, j);
            assert(in_block(leaders, a, j));
        }
    }
}

} // verus!
