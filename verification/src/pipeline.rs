//! What becomes of the trace records of a session.
//!
//! Records of the scheduler go to the tracker of CPU intervals, records of the
//! profiler become samples. Periodic work on images, thread names and generated
//! code is scheduled here, too.
use std::collections::BTreeMap;
use vstd::prelude::*;

use crate::kdebug::{
    class_of, kdbg_class, kdbg_subclass, subclass_of, KdBuf, DBG_MACH, DBG_MACH_SCHED, DBG_PERF,
};
use crate::parser::{
    completes_nothing, samples_come_through_whole, Parser, ParserStats, ParserView, Sample,
    SampleRecords, SampleView,
};
use crate::probe_timing::sat_add;
use crate::sums::as_fits;
use crate::text::{dec, push_dec};

verus! {

/// How often the images of the target are looked at, in nanoseconds.
pub const IMAGE_RESCAN_PERIOD: u64 = 250_000_000;

/// How often the names of its threads are looked at.
pub const THREAD_NAME_RESCAN_PERIOD: u64 = 50_000_000;

/// How often its generated code is looked for.
pub const JITDUMP_PROBE_PERIOD: u64 = 500_000_000;

/// What a session was set up with: the target, and where the configured counters
/// stand among those of a sample.
#[derive(Clone, Copy, Debug, PartialEq, Eq, Structural)]
pub struct PipelineConfig {
    pub pid: u32,
    pub frequency_hz: u32,
    pub pmc_idx_l1d: Option<usize>,
    pub pmc_idx_brmiss: Option<usize>,
}

/// The counters of a sample, by name.
#[derive(Clone, Copy, Debug, PartialEq, Eq, Structural)]
pub struct SampleCounters {
    pub cycles: u64,
    pub instructions: u64,
    pub l1d_misses: u64,
    pub branch_mispreds: u64,
}

/// The counter at a position, or zero.
pub open spec fn counter_at(pmc: Seq<u64>, i: Option<usize>) -> u64 {
    match i {
        Some(i) => if i < pmc.len() {
            pmc[i as int]
        } else {
            0
        },
        None => 0,
    }
}

/// The counters of a sample, by name.
pub open spec fn counters_of(cfg: PipelineConfig, pmc: Seq<u64>) -> SampleCounters {
    SampleCounters {
        cycles: counter_at(pmc, Some(0)),
        instructions: counter_at(pmc, Some(1)),
        l1d_misses: counter_at(pmc, cfg.pmc_idx_l1d),
        branch_mispreds: counter_at(pmc, cfg.pmc_idx_brmiss),
    }
}

/// The counter at a position, or zero.
fn counter(pmc: &Vec<u64>, i: Option<usize>) -> (c: u64)
    ensures
        c == counter_at(pmc@, i),
{
    match i {
        Some(i) => if i < pmc.len() {
            pmc[i]
        } else {
            0
        },
        None => 0,
    }
}

/// What one record comes to.
pub enum RecordOutput {
    /// A record of the scheduler, for the tracker of CPU intervals.
    Scheduler(KdBuf),
    /// A sample, for the tracker and for the estimate of the kernel's slide. It is
    /// an event of the recording where it has counters: samples without a user
    /// stack are not.
    Sample { sample: Sample, event: Option<SampleCounters> },
}

/// The model of a [`RecordOutput`].
pub enum OutputView {
    Scheduler(KdBuf),
    Sample { sample: SampleView, event: Option<SampleCounters> },
}

impl View for RecordOutput {
    type V = OutputView;

    open spec fn view(&self) -> OutputView {
        match self {
            RecordOutput::Scheduler(r) => OutputView::Scheduler(*r),
            RecordOutput::Sample { sample, event } => OutputView::Sample {
                sample: sample@,
                event: *event,
            },
        }
    }
}

/// The models of outputs.
pub open spec fn output_views(s: Seq<RecordOutput>) -> Seq<OutputView> {
    s.map_values(|o: RecordOutput| o@)
}

/// The record is one of the scheduler.
pub open spec fn is_scheduler(rec: KdBuf) -> bool {
    class_of(rec.debugid) == DBG_MACH && subclass_of(rec.debugid) == DBG_MACH_SCHED
}

/// What records of the profiler are counted by: subclass, code and function.
pub open spec fn histogram_key(rec: KdBuf) -> u32 {
    rec.debugid & 0x00ff_ffff
}

/// The state of a session.
pub struct Pipeline {
    config: PipelineConfig,
    parser: Parser,
    seen_tids: Vec<u32>,
    histogram: BTreeMap<u32, u64>,
    total_drained: u64,
    pmu_total_cycles: u64,
    pmu_total_insns: u64,
    pmu_samples: u64,
    next_image: u64,
    next_thread: u64,
    next_jitdump: u64,
    jitdump_emitted: bool,
}

/// The model of what a [`Pipeline`] has seen.
pub struct PipelineView {
    pub parser: ParserView,
    /// The threads of samples, in the order in which they were first seen.
    pub seen_tids: Seq<u32>,
    pub histogram: Map<u32, u64>,
    pub total_drained: u64,
    pub pmu_total_cycles: u64,
    pub pmu_total_insns: u64,
    pub pmu_samples: u64,
}

/// The periodic work of a session.
#[derive(Clone, Copy, Debug, PartialEq, Eq, Structural)]
pub struct Schedule {
    pub next_image: u64,
    pub next_thread: u64,
    pub next_jitdump: u64,
    pub jitdump_emitted: bool,
}

/// `key` counted once more.
pub open spec fn counted(h: Map<u32, u64>, key: u32) -> Map<u32, u64> {
    h.insert(
        key,
        if h.contains_key(key) {
            sat_add(h[key], 1)
        } else {
            1
        },
    )
}

/// `tid` seen.
pub open spec fn seen_with(s: Seq<u32>, tid: u32) -> Seq<u32> {
    if s.contains(tid) {
        s
    } else {
        s.push(tid)
    }
}

impl PipelineView {
    /// A session that has seen nothing.
    pub open spec fn fresh() -> PipelineView {
        PipelineView {
            parser: ParserView::fresh(),
            seen_tids: seq![],
            histogram: Map::empty(),
            total_drained: 0,
            pmu_total_cycles: 0,
            pmu_total_insns: 0,
            pmu_samples: 0,
        }
    }

    /// The session after a sample.
    pub open spec fn with_sample(self, s: SampleView) -> PipelineView {
        PipelineView {
            seen_tids: seen_with(self.seen_tids, s.tid),
            pmu_samples: if s.pmc.len() > 0 {
                sat_add(self.pmu_samples, 1)
            } else {
                self.pmu_samples
            },
            pmu_total_cycles: sat_add(self.pmu_total_cycles, counter_at(s.pmc, Some(0))),
            pmu_total_insns: sat_add(self.pmu_total_insns, counter_at(s.pmc, Some(1))),
            ..self
        }
    }

    /// The session after one more record.
    pub open spec fn after(self, rec: KdBuf) -> PipelineView {
        if is_scheduler(rec) {
            self
        } else {
            let fed = PipelineView {
                parser: self.parser.fed(rec),
                histogram: if class_of(rec.debugid) == DBG_PERF {
                    counted(self.histogram, histogram_key(rec))
                } else {
                    self.histogram
                },
                ..self
            };
            match self.parser.completed(rec) {
                Some(s) => fed.with_sample(s),
                None => fed,
            }
        }
    }

    /// What one more record comes to.
    pub open spec fn output(self, cfg: PipelineConfig, rec: KdBuf) -> Option<OutputView> {
        if is_scheduler(rec) {
            Some(OutputView::Scheduler(rec))
        } else {
            match self.parser.completed(rec) {
                Some(s) => Some(
                    OutputView::Sample {
                        sample: s,
                        event: if s.user_backtrace.len() > 0 {
                            Some(counters_of(cfg, s.pmc))
                        } else {
                            None
                        },
                    },
                ),
                None => None,
            }
        }
    }

    /// The session after some records.
    pub open spec fn after_all(self, recs: Seq<KdBuf>) -> PipelineView
        decreases recs.len(),
    {
        if recs.len() == 0 {
            self
        } else {
            self.after_all(recs.drop_last()).after(recs.last())
        }
    }

    /// What some records come to, in order.
    pub open spec fn outputs(self, cfg: PipelineConfig, recs: Seq<KdBuf>) -> Seq<OutputView>
        decreases recs.len(),
    {
        if recs.len() == 0 {
            seq![]
        } else {
            let before = self.outputs(cfg, recs.drop_last());
            match self.after_all(recs.drop_last()).output(cfg, recs.last()) {
                Some(o) => before.push(o),
                None => before,
            }
        }
    }
}

/// `n` more, at most what fits.
pub open spec fn drained_with(total: u64, n: nat) -> u64 {
    if total + n > u64::MAX {
        u64::MAX
    } else {
        (total + n) as u64
    }
}

/// The instant `period` from `now`, or the last there is.
pub open spec fn later(now: u64, period: u64) -> u64 {
    sat_add(now, period)
}

/// What is due.
#[derive(Clone, Copy, Debug, PartialEq, Eq, Structural)]
pub struct TickPlan {
    pub rescan_images: bool,
    pub rescan_threads: bool,
    pub probe_jitdump: bool,
}

/// The file that the process `pid` writes its generated code to.
pub open spec fn jitdump_path(pid: u32) -> Seq<char> {
    "/tmp/jit-"@ + dec(pid as nat) + ".dump"@
}

/// The file that the process `pid` writes its generated code to.
pub fn jitdump_path_for(pid: u32) -> (s: String)
    ensures
        s@ == jitdump_path(pid),
{
    let mut s = "/tmp/jit-".to_owned();
    push_dec(&mut s, pid as u64);
    s.append(".dump");
    s
}

impl Pipeline {
    /// What the session was set up with.
    pub closed spec fn config(self) -> PipelineConfig {
        self.config
    }

    /// The periodic work.
    pub closed spec fn schedule(self) -> Schedule {
        Schedule {
            next_image: self.next_image,
            next_thread: self.next_thread,
            next_jitdump: self.next_jitdump,
            jitdump_emitted: self.jitdump_emitted,
        }
    }

    /// What the session has seen.
    pub closed spec fn seen(self) -> PipelineView {
        PipelineView {
            parser: self.parser@,
            seen_tids: self.seen_tids@,
            histogram: self.histogram@,
            total_drained: self.total_drained,
            pmu_total_cycles: self.pmu_total_cycles,
            pmu_total_insns: self.pmu_total_insns,
            pmu_samples: self.pmu_samples,
        }
    }

    /// A session that starts at `now`. Images and thread names are looked at once
    /// before.
    pub fn new(config: PipelineConfig, now: u64) -> (p: Pipeline)
        ensures
            p.config() == config,
            p.seen() == PipelineView::fresh(),
            p.schedule() == (Schedule {
                next_image: later(now, IMAGE_RESCAN_PERIOD),
                next_thread: later(now, THREAD_NAME_RESCAN_PERIOD),
                next_jitdump: later(now, JITDUMP_PROBE_PERIOD),
                jitdump_emitted: false,
            }),
    {
        let p = Pipeline {
            config,
            parser: Parser::new(),
            seen_tids: Vec::new(),
            histogram: BTreeMap::new(),
            total_drained: 0,
            pmu_total_cycles: 0,
            pmu_total_insns: 0,
            pmu_samples: 0,
            next_image: now.saturating_add(IMAGE_RESCAN_PERIOD),
            next_thread: now.saturating_add(THREAD_NAME_RESCAN_PERIOD),
            next_jitdump: now.saturating_add(JITDUMP_PROBE_PERIOD),
            jitdump_emitted: false,
        };
        assert(p.seen_tids@ =~= seq![]);
        assert(p.histogram@ =~= Map::empty());
        p
    }

    /// The target.
    pub fn pid(&self) -> (pid: u32)
        ensures
            pid == self.config().pid,
    {
        self.config.pid
    }

    /// Says what is due at `now`, and sets the next dates. Where generated code is
    /// to be looked for, [`Pipeline::jitdump_probed`] takes the answer.
    pub fn tick(&mut self, now: u64) -> (plan: TickPlan)
        ensures
            plan == (TickPlan {
                rescan_images: now >= old(self).schedule().next_image,
                rescan_threads: now >= old(self).schedule().next_thread,
                probe_jitdump: !old(self).schedule().jitdump_emitted && now
                    >= old(self).schedule().next_jitdump,
            }),
            final(self).schedule() == (Schedule {
                next_image: if plan.rescan_images {
                    later(now, IMAGE_RESCAN_PERIOD)
                } else {
                    old(self).schedule().next_image
                },
                next_thread: if plan.rescan_threads {
                    later(now, THREAD_NAME_RESCAN_PERIOD)
                } else {
                    old(self).schedule().next_thread
                },
                ..old(self).schedule()
            }),
            final(self).seen() == old(self).seen(),
            final(self).config() == old(self).config(),
    {
        let plan = TickPlan {
            rescan_images: now >= self.next_image,
            rescan_threads: now >= self.next_thread,
            probe_jitdump: !self.jitdump_emitted && now >= self.next_jitdump,
        };
        if plan.rescan_images {
            self.next_image = now.saturating_add(IMAGE_RESCAN_PERIOD);
        }
        if plan.rescan_threads {
            self.next_thread = now.saturating_add(THREAD_NAME_RESCAN_PERIOD);
        }
        plan
    }

    /// Takes in whether generated code was found: it is announced once, and looked
    /// for again otherwise.
    pub fn jitdump_probed(&mut self, now: u64, found: bool)
        ensures
            final(self).schedule() == (if found {
                Schedule { jitdump_emitted: true, ..old(self).schedule() }
            } else {
                Schedule {
                    next_jitdump: later(now, JITDUMP_PROBE_PERIOD),
                    ..old(self).schedule()
                }
            }),
            final(self).seen() == old(self).seen(),
            final(self).config() == old(self).config(),
    {
        if found {
            self.jitdump_emitted = true;
        } else {
            self.next_jitdump = now.saturating_add(JITDUMP_PROBE_PERIOD);
        }
    }

    /// Counts a record of the profiler.
    fn count_record(&mut self, key: u32)
        ensures
            final(self).seen() == (PipelineView {
                histogram: counted(old(self).seen().histogram, key),
                ..old(self).seen()
            }),
            final(self).schedule() == old(self).schedule(),
            final(self).config() == old(self).config(),
            final(self).parser == old(self).parser,
    {
        broadcast use vstd::std_specs::btree::group_btree_axioms;

        let n: u64 = match self.histogram.get(&key) {
            Some(n) => n.saturating_add(1),
            None => 1,
        };
        let _ = self.histogram.insert(key, n);
    }

    /// Whether a sample of the thread has been seen.
    pub fn has_seen(&self, tid: u32) -> (r: bool)
        ensures
            r == self.seen().seen_tids.contains(tid),
    {
        let mut i: usize = 0;
        while i < self.seen_tids.len()
            invariant
                i <= self.seen_tids@.len(),
                forall|j: int| 0 <= j < i ==> self.seen_tids@[j] != tid,
            decreases self.seen_tids@.len() - i,
        {
            if self.seen_tids[i] == tid {
                assert(self.seen_tids@[i as int] == tid);
                return true;
            }
            i = i + 1;
        }
        false
    }

    /// Takes in one record.
    fn process_record(&mut self, rec: &KdBuf) -> (out: Option<RecordOutput>)
        ensures
            final(self).seen() == old(self).seen().after(*rec),
            match out {
                Some(o) => old(self).seen().output(old(self).config(), *rec) == Some(o@),
                None => old(self).seen().output(old(self).config(), *rec) is None,
            },
            final(self).schedule() == old(self).schedule(),
            final(self).config() == old(self).config(),
    {
        let class: u8 = kdbg_class(rec.debugid);
        if class == DBG_MACH && kdbg_subclass(rec.debugid) == DBG_MACH_SCHED {
            return Some(RecordOutput::Scheduler(*rec));
        }
        if class == DBG_PERF {
            self.count_record(rec.debugid & 0x00ff_ffff);
        }
        match self.parser.feed(rec) {
            Some(sample) => {
                if !self.has_seen(sample.tid) {
                    self.seen_tids.push(sample.tid);
                }
                if sample.pmc.len() > 0 {
                    self.pmu_samples = self.pmu_samples.saturating_add(1);
                }
                self.pmu_total_cycles = self.pmu_total_cycles.saturating_add(
                    counter(&sample.pmc, Some(0)),
                );
                self.pmu_total_insns = self.pmu_total_insns.saturating_add(
                    counter(&sample.pmc, Some(1)),
                );
                let event = if sample.user_backtrace.len() > 0 {
                    Some(
                        SampleCounters {
                            cycles: counter(&sample.pmc, Some(0)),
                            instructions: counter(&sample.pmc, Some(1)),
                            l1d_misses: counter(&sample.pmc, self.config.pmc_idx_l1d),
                            branch_mispreds: counter(&sample.pmc, self.config.pmc_idx_brmiss),
                        },
                    )
                } else {
                    None
                };
                Some(RecordOutput::Sample { sample, event })
            },
            None => None,
        }
    }

    /// Takes in a batch of records, and hands out what they come to, in order.
    pub fn process_records(&mut self, records: &[KdBuf]) -> (out: Vec<RecordOutput>)
        ensures
            final(self).seen() == (PipelineView {
                total_drained: drained_with(old(self).seen().total_drained, records@.len()),
                ..old(self).seen()
            }).after_all(records@),
            output_views(out@) == old(self).seen().outputs(old(self).config(), records@),
            final(self).schedule() == old(self).schedule(),
            final(self).config() == old(self).config(),
    {
        let ghost start = old(self).seen();
        let ghost cfg = old(self).config();
        self.total_drained = self.total_drained.saturating_add(records.len() as u64);
        let ghost begun = self.seen();
        let mut out: Vec<RecordOutput> = Vec::new();
        let mut i: usize = 0;
        assert(records@.take(0) =~= seq![]);
        assert(output_views(out@) =~= seq![]);
        while i < records.len()
            invariant
                i <= records@.len(),
                cfg == self.config(),
                start == old(self).seen(),
                cfg == old(self).config(),
                begun == (PipelineView {
                    total_drained: drained_with(start.total_drained, records@.len()),
                    ..start
                }),
                self.seen() == begun.after_all(records@.take(i as int)),
                output_views(out@) == start.outputs(cfg, records@.take(i as int)),
                self.schedule() == old(self).schedule(),
            decreases records@.len() - i,
        {
            proof {
                assert(records@.take(i + 1).drop_last() =~= records@.take(i as int));
                assert(records@.take(i + 1).last() == records@[i as int]);
                begun.lemma_drained_is_apart(start, cfg, records@.take(i as int), records@[i as int]);
            }
            let ghost held = out@;
            match self.process_record(&records[i]) {
                Some(o) => {
                    out.push(o);
                    assert(output_views(out@) =~= output_views(held).push(o@));
                },
                None => {},
            }
            i = i + 1;
        }
        assert(records@.take(i as int) =~= records@);
        out
    }

    /// The records taken in so far.
    pub fn total_drained(&self) -> (n: u64)
        ensures
            n == self.seen().total_drained,
    {
        self.total_drained
    }

    /// Whether an interval is an event of the recording: its thread was sampled.
    pub fn forwards_interval(&self, tid: u32) -> (r: bool)
        ensures
            r == self.seen().seen_tids.contains(tid),
    {
        self.has_seen(tid)
    }

    /// Ends the session: its sums, and whether the kernel's symbols can be handed
    /// over, which takes both the kernel's image and an estimate of its slide.
    pub fn finish(self, has_kernel_image: bool, slide: Option<u64>) -> (s: PipelineSummary)
        ensures
            s == (PipelineSummary {
                total_drained: self.seen().total_drained,
                stats: self.seen().parser.stats,
                pmu_samples: self.seen().pmu_samples,
                pmu_total_cycles: self.seen().pmu_total_cycles,
                pmu_total_insns: self.seen().pmu_total_insns,
                kallsyms_slide: if has_kernel_image {
                    slide
                } else {
                    None
                },
            }),
    {
        PipelineSummary {
            total_drained: self.total_drained,
            stats: self.parser.stats(),
            pmu_samples: self.pmu_samples,
            pmu_total_cycles: self.pmu_total_cycles,
            pmu_total_insns: self.pmu_total_insns,
            kallsyms_slide: if has_kernel_image {
                slide
            } else {
                None
            },
        }
    }
}

impl PipelineView {
    /// The count of records bears on nothing else.
    proof fn lemma_drained_is_apart(
        self,
        other: PipelineView,
        cfg: PipelineConfig,
        recs: Seq<KdBuf>,
        rec: KdBuf,
    )
        requires
            self == (PipelineView { total_drained: self.total_drained, ..other }),
        ensures
            self.after_all(recs) == (PipelineView {
                total_drained: self.total_drained,
                ..other.after_all(recs)
            }),
            self.after_all(recs).output(cfg, rec) == other.after_all(recs).output(cfg, rec),
        decreases recs.len(),
    {
        if recs.len() > 0 {
            self.lemma_drained_is_apart(other, cfg, recs.drop_last(), rec);
        }
    }
}

/// What a session comes to.
#[derive(Clone, Copy, Debug, PartialEq, Eq, Structural)]
pub struct PipelineSummary {
    pub total_drained: u64,
    pub stats: ParserStats,
    pub pmu_samples: u64,
    pub pmu_total_cycles: u64,
    pub pmu_total_insns: u64,
    /// The slide under which the kernel's symbols are handed over.
    pub kallsyms_slide: Option<u64>,
}

/// The law of batches: it does not matter how records are put into batches; what comes of two of them
/// is what comes of the first and then of the second.
pub proof fn batches_can_be_split(
    p: PipelineView,
    cfg: PipelineConfig,
    first: Seq<KdBuf>,
    second: Seq<KdBuf>,
)
    ensures
        p.after_all(first + second) == p.after_all(first).after_all(second),
        p.outputs(cfg, first + second) == p.outputs(cfg, first) + p.after_all(first).outputs(
            cfg,
            second,
        ),
    decreases second.len(),
{
    if second.len() == 0 {
        assert(first + second =~= first);
        assert(p.outputs(cfg, first) + p.after_all(first).outputs(cfg, second) =~= p.outputs(
            cfg,
            first,
        ));
    } else {
        batches_can_be_split(p, cfg, first, second.drop_last());
        assert((first + second).drop_last() =~= first + second.drop_last());
        assert((first + second).last() == second.last());
        assert(p.outputs(cfg, first + second) =~= p.outputs(cfg, first) + p.after_all(
            first,
        ).outputs(cfg, second));
    }
}

/// The law of scheduler records: each is handed on as it is, and bears on nothing else.
pub proof fn scheduler_records_are_handed_on(p: PipelineView, cfg: PipelineConfig, rec: KdBuf)
    ensures
        rec.debugid >> 16 == 0x0140 ==> p.output(cfg, rec) == Some(OutputView::Scheduler(rec))
            && p.after(rec) == p,
        rec.debugid >> 16 != 0x0140 ==> !(p.output(cfg, rec) matches Some(OutputView::Scheduler(_))),
{
    lemma_scheduler(rec);
}

/// Which records are the scheduler's, read off their bits.
proof fn lemma_scheduler(rec: KdBuf)
    ensures
        is_scheduler(rec) == (rec.debugid >> 16 == 0x0140),
{
    let id = rec.debugid;
    assert((((id >> 24) & 0xff) as u8 == 1u8 && ((id >> 16) & 0xff) as u8 == 0x40u8) == (id >> 16
        == 0x0140u32)) by (bit_vector);
}

/// All records are the profiler's.
spec fn all_of_profiler(recs: Seq<KdBuf>) -> bool {
    forall|i: int| 0 <= i < recs.len() ==> (#[trigger] recs[i]).debugid >> 24 == 0x25
}

/// Records of the profiler go to the parser, and what completes nothing comes to nothing.
proof fn lemma_parser_gets_records(p: PipelineView, cfg: PipelineConfig, recs: Seq<KdBuf>)
    requires
        all_of_profiler(recs),
    ensures
        p.after_all(recs).parser == crate::parser::after_all(p.parser, recs),
        completes_nothing(p.parser, recs) ==> p.outputs(cfg, recs).len() == 0,
    decreases recs.len(),
{
    if recs.len() > 0 {
        let init = recs.drop_last();
        assert forall|i: int| 0 <= i < init.len() implies (#[trigger] init[i]).debugid >> 24
            == 0x25 by {
            assert(recs[i].debugid >> 24 == 0x25);
        }
        lemma_parser_gets_records(p, cfg, init);
        assert(recs[recs.len() - 1].debugid >> 24 == 0x25);
        lemma_scheduler(recs.last());
        let id = recs.last().debugid;
        assert(id >> 24 == 0x25u32 ==> id >> 16 != 0x0140u32) by (bit_vector);
    }
}

/// The records of a sample are the profiler's.
proof fn lemma_sample_records(r: SampleRecords, s: SampleView)
    requires
        r.tell(s),
    ensures
        all_of_profiler(r.opened().push(r.end)),
{
    let recs = r.opened().push(r.end);
    assert forall|i: int| 0 <= i < recs.len() implies (#[trigger] recs[i]).debugid >> 24 == 0x25 by {
        let id = recs[i].debugid;
        assert(id == 0x2500_0001u32 || id == 0x2500_0002u32 || id & 0xffff_fffc == 0x2502_0018u32
            || id & 0xffff_fffc == 0x2502_0010u32 || id & 0xffff_fffc == 0x2502_0014u32 || id
            & 0xffff_fffc == 0x2502_000cu32 || id & 0xffff_fffc == 0x2506_0020u32 ==> id >> 24
            == 0x25u32) by (bit_vector);
        let a = 1 + (1 + r.user.len());
        let b = a + (1 + r.kernel.len());
        if i == 0 {
            assert(recs[i] == r.start);
        } else if i == 1 {
            assert(recs[i] == r.user_header);
        } else if i < a {
            assert(recs[i] == r.user[i - 2]);
            assert(crate::parser::has_id(r.user[i - 2], 0x2502_0010));
        } else if i == a {
            assert(recs[i] == r.kernel_header);
        } else if i < b {
            assert(recs[i] == r.kernel[i - a - 1]);
            assert(crate::parser::has_id(r.kernel[i - a - 1], 0x2502_000c));
        } else if i < b + r.counters.len() {
            assert(recs[i] == r.counters[i - b]);
            assert(crate::parser::has_id(r.counters[i - b], 0x2506_0020));
        } else {
            assert(recs[i] == r.end);
        }
    }
}

/// The counter at a place among some, zero where there is none.
pub open spec fn nth_counter(pmc: Seq<u64>, i: int) -> u64 {
    if 0 <= i < pmc.len() {
        pmc[i]
    } else {
        0
    }
}

/// The law of sessions: whatever a session has seen, the records of a sample come to that sample and
/// nothing else. It is an event where it has a user stack, with the first counter as cycles, the
/// second as instructions, and those that were configured from their places; and its thread has
/// been seen from then on.
pub proof fn sessions_hand_on_samples(
    p: PipelineView,
    cfg: PipelineConfig,
    r: SampleRecords,
    s: SampleView,
)
    requires
        r.tell(s),
        forall|i: int| 0 <= i < s.user_backtrace.len() ==> #[trigger] s.user_backtrace[i] != 0,
        forall|i: int| 0 <= i < s.kernel_backtrace.len() ==> #[trigger] s.kernel_backtrace[i] != 0,
        s.pmc.len() > 0 ==> s.pmc.last() != 0,
    ensures
        ({
            let recs = r.opened().push(r.end);
            let out = p.outputs(cfg, recs);
            &&& out.len() == 1
            &&& out[0] matches OutputView::Sample { sample, event } && sample == s && event is Some
                == (s.user_backtrace.len() > 0) && (event matches Some(c) ==> c.cycles
                == nth_counter(s.pmc, 0) && c.instructions == nth_counter(s.pmc, 1) && (
            cfg.pmc_idx_l1d matches Some(i) ==> c.l1d_misses == nth_counter(s.pmc, i as int)) && (
            cfg.pmc_idx_l1d is None ==> c.l1d_misses == 0) && (cfg.pmc_idx_brmiss matches Some(i)
                ==> c.branch_mispreds == nth_counter(s.pmc, i as int)) && (
            cfg.pmc_idx_brmiss is None ==> c.branch_mispreds == 0))
            &&& p.after_all(recs).seen_tids.contains(s.tid)
            &&& forall|tid: u32|
                tid != s.tid ==> (#[trigger] p.after_all(recs).seen_tids.contains(tid)
                    == p.seen_tids.contains(tid))
        }),
{
    let open = r.opened();
    let recs = open.push(r.end);
    assert(recs.drop_last() =~= open);
    samples_come_through_whole(p.parser, r, s);
    lemma_sample_records(r, s);
    assert forall|i: int| 0 <= i < open.len() implies (#[trigger] open[i]).debugid >> 24 == 0x25 by {
        assert(recs[i].debugid >> 24 == 0x25);
    }
    lemma_parser_gets_records(p, cfg, open);
    assert(recs[recs.len() - 1].debugid >> 24 == 0x25);
    lemma_scheduler(r.end);
    let id = r.end.debugid;
    assert(id >> 24 == 0x25u32 ==> id >> 16 != 0x0140u32) by (bit_vector);
    lemma_seen_same(p, open);
    let q = p.after_all(open);
    assert(q.parser.completed(r.end) == Some(s));
    let after = p.after_all(recs);
    assert(after.seen_tids == seen_with(q.seen_tids, s.tid));
    if q.seen_tids.contains(s.tid) {
    } else {
        assert(after.seen_tids[q.seen_tids.len() as int] == s.tid);
    }
    assert forall|tid: u32| tid != s.tid implies (#[trigger] after.seen_tids.contains(tid)
        == p.seen_tids.contains(tid)) by {
        if q.seen_tids.contains(tid) {
            let k = choose|k: int| 0 <= k < q.seen_tids.len() && q.seen_tids[k] == tid;
            assert(after.seen_tids[k] == tid);
        }
        if after.seen_tids.contains(tid) {
            let k = choose|k: int| 0 <= k < after.seen_tids.len() && after.seen_tids[k] == tid;
            assert(k < q.seen_tids.len());
            assert(q.seen_tids[k] == tid);
        }
    }
}

/// What completes nothing leaves the threads that were seen.
proof fn lemma_seen_same(p: PipelineView, recs: Seq<KdBuf>)
    requires
        all_of_profiler(recs),
        completes_nothing(p.parser, recs),
    ensures
        p.after_all(recs).seen_tids == p.seen_tids,
    decreases recs.len(),
{
    if recs.len() > 0 {
        let init = recs.drop_last();
        assert forall|i: int| 0 <= i < init.len() implies (#[trigger] init[i]).debugid >> 24
            == 0x25 by {
            assert(recs[i].debugid >> 24 == 0x25);
        }
        lemma_seen_same(p, init);
        lemma_parser_gets_records(
            p,
            PipelineConfig { pid: 0, frequency_hz: 0, pmc_idx_l1d: None, pmc_idx_brmiss: None },
            init,
        );
    }
}

/// The law of threads: one that was seen stays seen.
pub proof fn threads_stay_seen(p: PipelineView, recs: Seq<KdBuf>)
    ensures
        forall|tid: u32|
            p.seen_tids.contains(tid) ==> #[trigger] p.after_all(recs).seen_tids.contains(tid),
    decreases recs.len(),
{
    if recs.len() > 0 {
        threads_stay_seen(p, recs.drop_last());
        let q = p.after_all(recs.drop_last());
        let after = p.after_all(recs);
        assert forall|tid: u32| p.seen_tids.contains(tid) implies #[trigger] after.seen_tids.contains(
            tid,
        ) by {
            assert(q.seen_tids.contains(tid));
            let k = choose|k: int| 0 <= k < q.seen_tids.len() && q.seen_tids[k] == tid;
            assert(after.seen_tids[k] == tid);
        }
    }
}

/// The law of the histogram: every record of the profiler is counted under its identifier without its
/// class, at most what fits, and no other record is.
pub proof fn records_are_counted_by_kind(p: PipelineView, recs: Seq<KdBuf>, key: u32)
    ensures
        ({
            let n = recs.filter(
                |r: KdBuf| r.debugid >> 24 == 0x25 && r.debugid & 0x00ff_ffff == key,
            ).len();
            let had = if p.histogram.contains_key(key) {
                p.histogram[key] as int
            } else {
                0
            };
            let after = p.after_all(recs).histogram;
            &&& after.contains_key(key) == (p.histogram.contains_key(key) || n > 0)
            &&& after.contains_key(key) ==> after[key] == as_fits(had + n)
        }),
    decreases recs.len(),
{
    reveal(Seq::filter);
    if recs.len() > 0 {
        records_are_counted_by_kind(p, recs.drop_last(), key);
        let d = recs.last().debugid;
        assert((((d >> 24) & 0xff) as u8 == 37u8) == (d >> 24 == 0x25u32)) by (bit_vector);
        assert(((d >> 24) & 0xff) as u8 == 1u8 ==> d >> 24 != 0x25u32) by (bit_vector);
    }
}

/// The law of counters: the cycles and instructions of a sample are added to those of the recording, at
/// most what fits, and a sample counts where it has counters.
pub proof fn sample_counters_add_up(p: PipelineView, s: SampleView)
    ensures
        ({
            let after = p.with_sample(s);
            &&& s.pmc.len() > 0 ==> after.pmu_total_cycles == as_fits(
                p.pmu_total_cycles + s.pmc[0],
            ) && after.pmu_samples == as_fits(p.pmu_samples + 1)
            &&& s.pmc.len() > 1 ==> after.pmu_total_insns == as_fits(p.pmu_total_insns + s.pmc[1])
            &&& s.pmc.len() == 0 ==> after.pmu_total_cycles == p.pmu_total_cycles
                && after.pmu_total_insns == p.pmu_total_insns && after.pmu_samples == p.pmu_samples
            &&& after.seen_tids.contains(s.tid)
            &&& after.histogram == p.histogram && after.total_drained == p.total_drained
                && after.parser == p.parser
        }),
{
    if !p.seen_tids.contains(s.tid) {
        assert(p.seen_tids.push(s.tid)[p.seen_tids.len() as int] == s.tid);
    }
}

/// The law of drained records: all are counted, at most what fits.
pub proof fn drained_records_are_counted(total: u64, n: nat)
    ensures
        drained_with(total, n) == as_fits(total + n as int),
{
}

} // verus!
