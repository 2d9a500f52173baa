# stax

A live profiler for macOS, whose decisions and computations are verified with Verus.

A recording samples the threads of a target through the kernel's trace facility. A
companion process probes the same threads by suspending them and walking their stacks.
A server collects both and keeps the registry of runs. Views are computed from what it
holds: annotated assembly, control-flow graphs, timelines, lists of intervals and samples,
a comparison of samples with probes and, from a call tree by address, flame graphs, the top
functions, and callers and callees.

## Layout

`src/` is the verified library. Contracts are stated over mathematical models of the data;
what holds of several functions together stands as a public proof function beside them.

- Trace records: `kdebug`, `wire`, `parser`, `pipeline`, `sample_sink`, `session_events`,
  `libproc`, `pmu`.
- The daemon's client: `client`, `record`.
- Images and code: `dyld`, `image_scan`, `macho`, `binaries`, `code`, `disassembly`,
  `highlight`, `control_flow`.
- Stacks and probes: `unwind`, `helper`, `demand`, `probe_worker`, `shade`, `workload`.
- What was recorded: `aggregator`, `classify`, `offcpu`, `filter`, `timeline`, `listing`.
- Views: `symbol_groups`, `flame`, `top`, `neighbors`, `probe_match`, `pairing`,
  `probe_timing`, `pair_totals`, `probe_diff`.
- The server: `runs`, `server`, `observe`.
- Shared by all: `text`, `interner`, `sort`.

`app/` holds the programs around it: sockets, processes, terminals, threads, and calls
into the operating system. It performs what the library asks for and hands back what came
of it.

`tests/` runs the library, with the crates that it calls.

## What is not proved

The library calls `arborium`, `arborium-theme`, `flume`, `libc`, `memchr`, `object`,
`yaxpeax-arm` and `yaxpeax-x86`, and a few functions of the standard library that Verus
has no specification for. Each call stands in a small function of its own, whose doc
comment says what is believed of it.
