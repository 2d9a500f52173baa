//! Which events the configurable counters of the processor count.
use vstd::prelude::*;
use vstd::slice::slice_subrange;

use crate::macho::{nul_position, until_nul};
use crate::text::{lossy, lossy_text};

verus! {

/// The class of counters that always count the same.
pub const KPC_CLASS_FIXED_MASK: u32 = 1;

/// The class of counters that can be configured.
pub const KPC_CLASS_CONFIGURABLE_MASK: u32 = 2;

/// How many counters there are at most.
pub const KPC_MAX_COUNTERS: usize = 32;

/// How many events are asked for.
pub const PMU_SLOTS: usize = 2;

/// An event that is asked for.
#[derive(Clone, Copy, Debug, PartialEq, Eq, Structural)]
pub enum PmuSlot {
    L1DCacheMissLoad,
    BranchMispredict,
}

/// An event that is asked for, with the names that it may have.
pub struct PmuEvent {
    pub slot: PmuSlot,
    pub candidates: Vec<&'static str>,
}

/// The events that are asked for, in the order of their counters.
pub open spec fn requested_slots() -> Seq<PmuSlot> {
    seq![PmuSlot::L1DCacheMissLoad, PmuSlot::BranchMispredict]
}

/// The names that an event may have, best first. They differ from chip to chip.
pub open spec fn candidate_names(slot: PmuSlot) -> Seq<Seq<char>> {
    match slot {
        PmuSlot::L1DCacheMissLoad => seq![
            "L1D_CACHE_MISS_LD"@,
            "L1D_CACHE_MISS_LD_NONSPEC"@,
            "L1D_LOAD_MISS"@,
            "MEM_INST_RETIRED.L1_MISS_LOAD"@,
        ],
        PmuSlot::BranchMispredict => seq![
            "BRANCH_MISPRED_NONSPEC"@,
            "BRANCH_MISPREDICT"@,
            "BR_MIS_PRED"@,
            "BR_MIS_PRED_RETIRED"@,
        ],
    }
}

/// The names in a list.
pub open spec fn name_views(s: Seq<&'static str>) -> Seq<Seq<char>> {
    s.map_values(|n: &'static str| n@)
}

/// The event of a slot.
pub fn requested_event(slot: PmuSlot) -> (e: PmuEvent)
    ensures
        e.slot == slot,
        name_views(e.candidates@) == candidate_names(slot),
{
    let mut candidates: Vec<&'static str> = Vec::new();
    match slot {
        PmuSlot::L1DCacheMissLoad => {
            candidates.push("L1D_CACHE_MISS_LD");
            candidates.push("L1D_CACHE_MISS_LD_NONSPEC");
            candidates.push("L1D_LOAD_MISS");
            candidates.push("MEM_INST_RETIRED.L1_MISS_LOAD");
        },
        PmuSlot::BranchMispredict => {
            candidates.push("BRANCH_MISPRED_NONSPEC");
            candidates.push("BRANCH_MISPREDICT");
            candidates.push("BR_MIS_PRED");
            candidates.push("BR_MIS_PRED_RETIRED");
        },
    }
    assert(name_views(candidates@) =~= candidate_names(slot));
    PmuEvent { slot, candidates }
}

/// What the counters were configured to.
pub struct ConfiguredPmu {
    pub configs: Vec<u64>,
    pub class_mask: u32,
    /// How many counters come first that cannot be configured.
    pub fixed_count: usize,
    /// Where the counter of each event stands among those of a sample.
    pub slot_indices: [Option<usize>; 2],
}

/// What to do next in order to configure the counters.
pub enum PmuStep {
    /// Look an event up by name.
    Find(&'static str),
    /// Add the event that was found.
    Add(PmuSlot),
    Done,
}

/// The search for the events that are asked for.
pub struct PmuSearch {
    slot: usize,
    candidate: usize,
    found: bool,
    fixed_count: usize,
    next_index: usize,
    l1d: Option<usize>,
    brmiss: Option<usize>,
}

/// The model of a [`PmuSearch`].
pub struct PmuSearchView {
    /// The event that is searched for.
    pub slot: int,
    /// The name that is tried.
    pub candidate: int,
    /// The event was found under that name.
    pub found: bool,
    pub fixed_count: usize,
    /// Where the next counter stands among those of a sample.
    pub next_index: int,
    pub l1d: Option<usize>,
    pub brmiss: Option<usize>,
}

impl View for PmuSearch {
    type V = PmuSearchView;

    closed spec fn view(&self) -> PmuSearchView {
        PmuSearchView {
            slot: self.slot as int,
            candidate: self.candidate as int,
            found: self.found,
            fixed_count: self.fixed_count,
            next_index: self.next_index as int,
            l1d: self.l1d,
            brmiss: self.brmiss,
        }
    }
}

/// How many counters were given to the events up to now.
pub open spec fn given(index: Option<usize>) -> int {
    if index is Some {
        1
    } else {
        0
    }
}

impl PmuSearchView {
    /// Counters are given one behind the other, behind those that cannot be configured,
    /// and only to events that were searched for.
    pub open spec fn wf(self) -> bool {
        &&& 0 <= self.slot <= 2
        &&& 0 <= self.candidate < 4
        &&& self.slot == 2 ==> !self.found
        &&& self.slot < 1 ==> self.l1d is None
        &&& self.slot < 2 ==> self.brmiss is None
        &&& self.l1d matches Some(i) ==> i == self.fixed_count
        &&& self.brmiss matches Some(i) ==> i == self.fixed_count + given(self.l1d)
        &&& self.next_index == self.fixed_count + given(self.l1d) + given(self.brmiss)
        &&& self.fixed_count <= usize::MAX - 2
    }

    /// The next event.
    pub open spec fn next_slot(self) -> PmuSearchView {
        PmuSearchView { slot: self.slot + 1, candidate: 0, found: false, ..self }
    }

    /// After a name was looked up.
    pub open spec fn after_find(self, found: bool) -> PmuSearchView {
        if found {
            PmuSearchView { found: true, ..self }
        } else if self.candidate + 1 < 4 {
            PmuSearchView { candidate: self.candidate + 1, ..self }
        } else {
            self.next_slot()
        }
    }

    /// After an event was added, or could not be.
    pub open spec fn after_add(self, added: bool) -> PmuSearchView {
        let base = self.next_slot();
        if added {
            PmuSearchView {
                next_index: self.next_index + 1,
                l1d: if self.slot == 0 {
                    Some(self.next_index as usize)
                } else {
                    self.l1d
                },
                brmiss: if self.slot == 1 {
                    Some(self.next_index as usize)
                } else {
                    self.brmiss
                },
                ..base
            }
        } else {
            base
        }
    }

    /// Some event has a counter.
    pub open spec fn resolved_any(self) -> bool {
        self.l1d is Some || self.brmiss is Some
    }
}

/// The slot at a position.
fn slot_at(i: usize) -> (s: PmuSlot)
    requires
        i < 2,
    ensures
        s == requested_slots()[i as int],
{
    if i == 0 {
        PmuSlot::L1DCacheMissLoad
    } else {
        PmuSlot::BranchMispredict
    }
}

impl PmuSearch {
    /// Starts with the first name of the first event. `fixed_count` counters cannot be
    /// configured.
    pub fn new(fixed_count: usize) -> (s: Self)
        requires
            fixed_count <= usize::MAX - 2,
        ensures
            s@.wf(),
            s@ == (PmuSearchView {
                slot: 0,
                candidate: 0,
                found: false,
                fixed_count,
                next_index: fixed_count as int,
                l1d: None,
                brmiss: None,
            }),
    {
        PmuSearch {
            slot: 0,
            candidate: 0,
            found: false,
            fixed_count,
            next_index: fixed_count,
            l1d: None,
            brmiss: None,
        }
    }

    /// What to do next.
    pub fn step(&self) -> (s: PmuStep)
        requires
            self@.wf(),
        ensures
            match s {
                PmuStep::Find(name) => self@.slot < 2 && !self@.found && name@ == candidate_names(
                    requested_slots()[self@.slot],
                )[self@.candidate],
                PmuStep::Add(slot) => self@.slot < 2 && self@.found && slot
                    == requested_slots()[self@.slot],
                PmuStep::Done => self@.slot == 2,
            },
    {
        if self.slot >= 2 {
            return PmuStep::Done;
        }
        let slot = slot_at(self.slot);
        if self.found {
            return PmuStep::Add(slot);
        }
        let event = requested_event(slot);
        assert(candidate_names(slot).len() == 4);
        assert(name_views(event.candidates@).len() == event.candidates@.len());
        assert(name_views(event.candidates@)[self.candidate as int]
            == event.candidates@[self.candidate as int]@);
        PmuStep::Find(event.candidates[self.candidate])
    }

    /// Takes up whether the name was found.
    pub fn on_find(&mut self, found: bool)
        requires
            old(self)@.wf(),
            old(self)@.slot < 2,
            !old(self)@.found,
        ensures
            final(self)@.wf(),
            final(self)@ == old(self)@.after_find(found),
    {
        if found {
            self.found = true;
        } else if self.candidate + 1 < 4 {
            self.candidate = self.candidate + 1;
        } else {
            self.slot = self.slot + 1;
            self.candidate = 0;
        }
    }

    /// Takes up whether the event could be added.
    pub fn on_add(&mut self, added: bool)
        requires
            old(self)@.wf(),
            old(self)@.slot < 2,
            old(self)@.found,
        ensures
            final(self)@.wf(),
            final(self)@ == old(self)@.after_add(added),
    {
        if added {
            if self.slot == 0 {
                self.l1d = Some(self.next_index);
            } else {
                self.brmiss = Some(self.next_index);
            }
            self.next_index = self.next_index + 1;
        }
        self.slot = self.slot + 1;
        self.candidate = 0;
        self.found = false;
    }

    /// Whether some event has a counter. Without one there is nothing to configure.
    pub fn resolved_any(&self) -> (r: bool)
        ensures
            r == self@.resolved_any(),
    {
        self.l1d.is_some() || self.brmiss.is_some()
    }
}

/// What came of configuring the counters with the events that were found.
pub struct PmuAnswers {
    pub forced: bool,
    /// How many configurations there are.
    pub count: Option<usize>,
    /// The configurations, with room for all counters.
    pub configs: Option<Vec<u64>>,
    /// The classes of the counters.
    pub classes: Option<u32>,
}

/// The classes to count: those of the events, or all that can be configured, and those that
/// cannot.
pub open spec fn class_mask_of(classes: Option<u32>) -> u32 {
    match classes {
        Some(c) => KPC_CLASS_FIXED_MASK | c,
        None => KPC_CLASS_FIXED_MASK | KPC_CLASS_CONFIGURABLE_MASK,
    }
}

/// The smaller of two lengths.
pub open spec fn min_len(a: int, b: int) -> int {
    if a < b {
        a
    } else {
        b
    }
}

/// Ends configuring. Nothing where no event was found, or where the counters could not be
/// had.
pub fn configure(search: &PmuSearch, answers: PmuAnswers) -> (r: Option<ConfiguredPmu>)
    requires
        search@.wf(),
        answers.configs matches Some(c) ==> c@.len() == KPC_MAX_COUNTERS,
    ensures
        r is Some == (search@.resolved_any() && answers.forced && answers.count is Some
            && answers.configs is Some),
        r matches Some(p) ==> p.fixed_count == search@.fixed_count && p.slot_indices@ == seq![
            search@.l1d,
            search@.brmiss,
        ] && p.class_mask == class_mask_of(answers.classes) && p.configs@
            == answers.configs.unwrap()@.take(
            min_len(answers.count.unwrap() as int, KPC_MAX_COUNTERS as int),
        ),
{
    if !search.resolved_any() || !answers.forced {
        return None;
    }
    let count: usize = match answers.count {
        Some(n) => n,
        None => {
            return None;
        },
    };
    let mut configs = match answers.configs {
        Some(c) => c,
        None => {
            return None;
        },
    };
    let ghost all = configs@;
    if count < KPC_MAX_COUNTERS {
        configs.truncate(count);
    }
    assert(configs@ =~= all.take(min_len(count as int, KPC_MAX_COUNTERS as int)));
    let class_mask: u32 = match answers.classes {
        Some(c) => KPC_CLASS_FIXED_MASK | c,
        None => KPC_CLASS_FIXED_MASK | KPC_CLASS_CONFIGURABLE_MASK,
    };
    let slot_indices: [Option<usize>; 2] = [search.l1d, search.brmiss];
    assert(slot_indices@ =~= seq![search@.l1d, search@.brmiss]);
    Some(ConfiguredPmu { configs, class_mask, fixed_count: search.fixed_count, slot_indices })
}

/// The law of counters: no two events have the same one, and none has one that cannot be
/// configured.
pub proof fn counters_are_not_shared(s: PmuSearchView)
    requires
        s.wf(),
    ensures
        s.l1d is Some && s.brmiss is Some ==> s.l1d != s.brmiss,
        s.l1d matches Some(i) ==> s.fixed_count <= i < s.next_index,
        s.brmiss matches Some(i) ==> s.fixed_count <= i < s.next_index,
{
}

/// How much of the search is left.
pub open spec fn steps_left(s: PmuSearchView) -> int {
    if s.slot >= 2 {
        0
    } else {
        (2 - s.slot) * 8 - s.candidate - given_found(s.found)
    }
}

/// One for what was found.
pub open spec fn given_found(found: bool) -> int {
    if found {
        1
    } else {
        0
    }
}

/// The law of searching: it comes to an end.
pub proof fn searching_ends(s: PmuSearchView, yes: bool)
    requires
        s.wf(),
        s.slot < 2,
    ensures
        !s.found ==> 0 <= steps_left(s.after_find(yes)) < steps_left(s),
        s.found ==> 0 <= steps_left(s.after_add(yes)) < steps_left(s),
{
}

/// The path of a library, without the null byte behind it.
pub fn bytes_to_path(bytes: &[u8]) -> (s: String)
    ensures
        s@ == lossy_text(until_nul(bytes@)),
{
    let n: usize = nul_position(bytes);
    lossy(slice_subrange(bytes, 0, n))
}

/// The law of names: all four of an event are tried, one after the other, as long as it is not found;
/// one that is found under none is given up.
pub proof fn every_name_is_tried(s: PmuSearchView)
    requires
        s.wf(),
        s.slot < 2,
        !s.found,
        s.candidate == 0,
    ensures
        s.after_find(false) == (PmuSearchView { candidate: 1, ..s }),
        s.after_find(false).after_find(false) == (PmuSearchView { candidate: 2, ..s }),
        s.after_find(false).after_find(false).after_find(false) == (PmuSearchView {
            candidate: 3,
            ..s
        }),
        s.after_find(false).after_find(false).after_find(false).after_find(false) == (
        PmuSearchView { slot: s.slot + 1, ..s }),
        s.after_find(true) == (PmuSearchView { found: true, ..s }),
{
}

/// The law of added events: they stand behind the counters that cannot be configured, in the order in
/// which they were added; one that could not be added has no counter and takes none.
pub proof fn added_events_stand_in_order(s: PmuSearchView)
    requires
        s.wf(),
        s.slot < 2,
        s.found,
    ensures
        s.slot == 0 ==> s.after_add(true).l1d == Some(s.fixed_count),
        s.slot == 1 && s.l1d is Some ==> s.after_add(true).brmiss == Some(
            (s.fixed_count + 1) as usize,
        ) && s.after_add(true).l1d == s.l1d,
        s.slot == 1 && s.l1d is None ==> s.after_add(true).brmiss == Some(s.fixed_count),
        s.after_add(false).l1d == s.l1d && s.after_add(false).brmiss == s.brmiss,
        s.after_add(false).next_index == s.next_index,
        s.after_add(true).next_index == s.next_index + 1,
        s.after_add(true).slot == s.slot + 1 && s.after_add(false).slot == s.slot + 1,
{
}

/// The law of counter classes: the fixed counters are always on, beside those that were found, and
/// without any found the configurable ones are.
pub proof fn fixed_counters_are_always_on(c: u32)
    ensures
        class_mask_of(Some(c)) & 1 == 1,
        class_mask_of(Some(c)) & c == c,
        class_mask_of(Some(c)) & !c & 0xffff_fffe == 0,
        class_mask_of(None) == 3,
{
    assert((1u32 | c) & 1 == 1) by (bit_vector);
    assert((1u32 | c) & c == c) by (bit_vector);
    assert((1u32 | c) & !c & 0xffff_fffe == 0) by (bit_vector);
    assert(1u32 | 2u32 == 3) by (bit_vector);
}

/// The law of counter names: each slot has names of its own, the plainest of them first.
pub proof fn slots_have_their_names()
    ensures
        requested_slots() == seq![PmuSlot::L1DCacheMissLoad, PmuSlot::BranchMispredict],
        candidate_names(PmuSlot::L1DCacheMissLoad).len() == 4,
        candidate_names(PmuSlot::L1DCacheMissLoad)[0] == "L1D_CACHE_MISS_LD"@,
        candidate_names(PmuSlot::L1DCacheMissLoad)[1] == "L1D_CACHE_MISS_LD_NONSPEC"@,
        candidate_names(PmuSlot::L1DCacheMissLoad)[2] == "L1D_LOAD_MISS"@,
        candidate_names(PmuSlot::L1DCacheMissLoad)[3] == "MEM_INST_RETIRED.L1_MISS_LOAD"@,
        candidate_names(PmuSlot::BranchMispredict).len() == 4,
        candidate_names(PmuSlot::BranchMispredict)[0] == "BRANCH_MISPRED_NONSPEC"@,
        candidate_names(PmuSlot::BranchMispredict)[1] == "BRANCH_MISPREDICT"@,
        candidate_names(PmuSlot::BranchMispredict)[2] == "BR_MIS_PRED"@,
        candidate_names(PmuSlot::BranchMispredict)[3] == "BR_MIS_PRED_RETIRED"@,
{
}

} // verus!
