pub mod aggregator;
pub mod binaries;
pub mod classify;
pub mod client;
pub mod code;
pub mod control_flow;
pub mod demand;
pub mod disassembly;
pub mod dyld;
pub mod filter;
pub mod flame;
pub mod helper;
pub mod highlight;
pub mod image_scan;
pub mod interner;
pub mod kdebug;
pub mod libproc;
pub mod listing;
pub mod macho;
pub mod neighbors;
pub mod observe;
pub mod offcpu;
pub mod pair_totals;
pub mod pairing;
pub mod parser;
pub mod pipeline;
pub mod pmu;
pub mod probe_diff;
pub mod probe_match;
pub mod probe_timing;
pub mod probe_worker;
pub mod record;
pub mod runs;
pub mod sample_sink;
pub mod server;
pub mod session_events;
pub mod shade;
pub mod sort;
pub mod sums;
pub mod symbol_groups;
pub mod text;
pub mod timeline;
pub mod top;
pub mod unwind;
pub mod wire;
pub mod workload;
