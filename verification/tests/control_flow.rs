use stax::code::ResolvedAddress;
use stax::control_flow::{build_blocks_and_edges, compute_cfg_update, no_code_cfg, CfgEdgeKind};
use stax::disassembly::{
    annotated_view, classify_a64, classify_x86, decode, disassemble, isa_of, line_svma, no_binary,
    AnnotatedLine, Flow, Instr, Isa, SourcePlace, SourceTrail,
};
use stax::highlight::TokenHighlighter;

fn synth(arch: &str, base: u64, bytes: Vec<u8>) -> ResolvedAddress {
    let end = base + bytes.len() as u64;
    ResolvedAddress {
        base_address: base,
        end_address: end,
        fn_start_svma: base,
        bytes,
        function_name: "test".into(),
        binary_path: String::new(),
        arch: Some(arch.into()),
        language: "unknown".into(),
        image: None,
    }
}

#[test]
fn aarch64_simple_branch() {
    // Two instructions: B +4 (skip the next), then a NOP.
    // Encoded little-endian.
    // B +4: 0x14000001 -> bytes 01 00 00 14
    // NOP:  0xd503201f -> bytes 1f 20 03 d5
    let bytes = vec![0x01, 0x00, 0x00, 0x14, 0x1f, 0x20, 0x03, 0xd5];
    let resolved = synth("aarch64", 0x1000, bytes);
    let cfg =
        compute_cfg_update(&resolved, 0x1000, "test".into(), "rust".into(), |_| (0, 0), "aarch64")
            .unwrap();
    // B is a branch terminator, so the B instr is its own block, and
    // its target is 0x1004, also a leader; so two blocks.
    assert_eq!(cfg.blocks.len(), 2);
    assert_eq!(cfg.blocks[0].start_address, 0x1000);
    assert_eq!(cfg.blocks[1].start_address, 0x1004);
    assert_eq!(cfg.edges.len(), 1);
    assert_eq!(cfg.edges[0].kind, CfgEdgeKind::Branch);
    assert_eq!(cfg.edges[0].from_id, 0);
    assert_eq!(cfg.edges[0].to_id, 1);
}

#[test]
fn x86_code_is_decoded_by_length() {
    // jz +1; nop; ret
    let resolved = synth("x86_64", 0x2000, vec![0x74, 0x01, 0x90, 0xc3]);
    let cfg = compute_cfg_update(&resolved, 0x2002, "f".into(), "c".into(), |a| (a, 1), "aarch64")
        .unwrap();
    let starts: Vec<u64> = cfg.blocks.iter().map(|b| b.start_address).collect();
    assert_eq!(starts, [0x2000, 0x2002, 0x2003]);
    assert_eq!(cfg.blocks[1].lines[0].self_on_cpu_ns, 0x2002);
    assert_eq!(cfg.queried_address, 0x2002);
    let kinds: Vec<_> = cfg.edges.iter().map(|e| (e.from_id, e.to_id, e.kind)).collect();
    assert_eq!(
        kinds,
        [
            (0, 2, CfgEdgeKind::ConditionalBranch),
            (0, 1, CfgEdgeKind::Fallthrough),
            (1, 2, CfgEdgeKind::Fallthrough),
        ]
    );
}

#[test]
fn bytes_that_are_no_instruction_are_shown_as_such() {
    let instrs = decode(Isa::X86, 0x10, &[0x06, 0xc3]);
    assert_eq!(instrs[0].length, 1);
    assert!(instrs[0].text.starts_with("<decode error: "));
    assert_eq!(instrs[1].address, 0x11);
    assert_eq!(instrs[1].flow, Flow::Return);
    let words = decode(Isa::A64, 0x100, &[0xff, 0xff, 0xff, 0xff, 0xc0, 0x03, 0x5f, 0xd6, 0x00]);
    assert_eq!(words.len(), 2);
    assert!(words[0].text.starts_with("<decode error: "));
    assert_eq!(words[1].text, "ret");
    assert_eq!(words[1].flow, Flow::Return);
    assert!(decode(Isa::Other, 0, &[1, 2, 3, 4]).is_empty());
}

#[test]
fn instructions_follow_one_another() {
    // mov eax, 1; an invalid byte; nop; jmp -2
    let bytes = [0xb8, 0x01, 0x00, 0x00, 0x00, 0x06, 0x90, 0xeb, 0xfe];
    let instrs = decode(Isa::X86, 0x40, &bytes);
    let places: Vec<(u64, u64)> = instrs.iter().map(|i| (i.address, i.length)).collect();
    assert_eq!(places, [(0x40, 5), (0x45, 1), (0x46, 1), (0x47, 2)]);
    let words = decode(Isa::A64, 0x40, &[0; 14]);
    let starts: Vec<u64> = words.iter().map(|i| i.address).collect();
    assert_eq!(starts, [0x40, 0x44, 0x48]);
}

#[test]
fn a64_instructions_flow() {
    let off = |n: Option<i64>, at: usize| {
        let mut v = vec![None; 4];
        v[at] = n;
        v
    };
    assert_eq!(classify_a64("B", &off(Some(-4), 0), 0x1000), Flow::Branch { target: 0xffc });
    assert_eq!(classify_a64("B", &off(None, 0), 0x1000), Flow::Indirect);
    assert_eq!(
        classify_a64("Bcc(1)", &off(Some(8), 0), 0x1000),
        Flow::ConditionalBranch { target: 0x1008 }
    );
    assert_eq!(
        classify_a64("CBNZ", &off(Some(8), 1), 0x1000),
        Flow::ConditionalBranch { target: 0x1008 }
    );
    assert_eq!(
        classify_a64("TBZ", &off(Some(12), 2), 0x1000),
        Flow::ConditionalBranch { target: 0x100c }
    );
    assert_eq!(classify_a64("BRAAZ", &off(None, 0), 0), Flow::Indirect);
    assert_eq!(classify_a64("BLRABZ", &off(None, 0), 0), Flow::Call);
    assert_eq!(classify_a64("ERETAB", &off(None, 0), 0), Flow::Return);
    assert_eq!(classify_a64("ADD", &off(None, 0), 0), Flow::Sequential);
}

#[test]
fn decoded_a64_branches_have_their_targets() {
    // cbz x0, +8; tbnz w1, #0, +8; b.eq +4; bl +4; br x0
    let bytes = [
        0x40, 0x00, 0x00, 0xb4, 0x41, 0x00, 0x00, 0x37, 0x20, 0x00, 0x00, 0x54, 0x01, 0x00, 0x00,
        0x94, 0x00, 0x00, 0x1f, 0xd6,
    ];
    let flows: Vec<Flow> = decode(Isa::A64, 0x1000, &bytes).iter().map(|i| i.flow).collect();
    assert_eq!(
        flows,
        [
            Flow::ConditionalBranch { target: 0x1008 },
            Flow::ConditionalBranch { target: 0x100c },
            Flow::ConditionalBranch { target: 0x100c },
            Flow::Call,
            Flow::Indirect,
        ]
    );
}

#[test]
fn x86_instructions_flow() {
    assert_eq!(classify_x86("JMP", Some(-2), 0x10), Flow::Branch { target: 0xe });
    assert_eq!(classify_x86("JMP", None, 0x10), Flow::Indirect);
    assert_eq!(classify_x86("JRCXZ", Some(4), 0x10), Flow::ConditionalBranch { target: 0x14 });
    assert_eq!(classify_x86("LOOPNZ", None, 0x10), Flow::Indirect);
    assert_eq!(classify_x86("CALLF", None, 0), Flow::Call);
    assert_eq!(classify_x86("UD2", None, 0), Flow::Return);
    assert_eq!(classify_x86("MOV", Some(1), 0), Flow::Sequential);
}

#[test]
fn decoded_x86_branches_have_their_targets() {
    // jmp -2; jmp rax; call +0; jnz +0x100
    let bytes = [
        0xeb, 0xfe, 0xff, 0xe0, 0xe8, 0x00, 0x00, 0x00, 0x00, 0x0f, 0x85, 0x00, 0x01, 0x00, 0x00,
    ];
    let flows: Vec<Flow> = decode(Isa::X86, 0x1000, &bytes).iter().map(|i| i.flow).collect();
    assert_eq!(
        flows,
        [
            Flow::Branch { target: 0x1000 },
            Flow::Indirect,
            Flow::Call,
            Flow::ConditionalBranch { target: 0x110f },
        ]
    );
}

#[test]
fn architectures_go_by_many_names() {
    assert_eq!(isa_of("arm64e"), Isa::A64);
    assert_eq!(isa_of("amd64"), Isa::X86);
    assert_eq!(isa_of("riscv64"), Isa::Other);
}

fn instr(address: u64, flow: Flow) -> Instr {
    Instr { address, length: 4, text: String::new(), flow }
}

fn line(address: u64) -> AnnotatedLine {
    AnnotatedLine {
        address,
        tokens: Vec::new(),
        self_on_cpu_ns: 0,
        self_pet_samples: 0,
        source_header: None,
    }
}

#[test]
fn blocks_begin_at_targets_and_behind_branches() {
    let instrs = vec![
        instr(0x100, Flow::Sequential),
        instr(0x104, Flow::ConditionalBranch { target: 0x10c }),
        instr(0x108, Flow::Call),
        instr(0x10c, Flow::Branch { target: 0x900 }),
        instr(0x110, Flow::Return),
    ];
    let lines = instrs.iter().map(|i| line(i.address)).collect();
    let (blocks, edges) = build_blocks_and_edges(&instrs, lines, 0x100, 0x114);
    let starts: Vec<(u32, u64, usize)> =
        blocks.iter().map(|b| (b.id, b.start_address, b.lines.len())).collect();
    assert_eq!(starts, [(0, 0x100, 2), (1, 0x108, 1), (2, 0x10c, 1), (3, 0x110, 1)]);
    let kinds: Vec<_> = edges.iter().map(|e| (e.from_id, e.to_id, e.kind)).collect();
    assert_eq!(
        kinds,
        [
            (0, 2, CfgEdgeKind::ConditionalBranch),
            (0, 1, CfgEdgeKind::Fallthrough),
            (1, 2, CfgEdgeKind::Call),
        ]
    );
    for e in &edges {
        assert!((e.from_id as usize) < blocks.len() && (e.to_id as usize) < blocks.len());
    }
}

#[test]
fn no_instructions_make_no_blocks() {
    let (blocks, edges) = build_blocks_and_edges(&Vec::new(), Vec::new(), 0, 0);
    assert!(blocks.is_empty() && edges.is_empty());
    let cfg = no_code_cfg(0x40);
    assert_eq!(cfg.function_name, "(no binary mapped at 0x40)");
    assert!(cfg.blocks.is_empty());
}

#[test]
fn lines_carry_what_they_cost() {
    let mut resolved = synth("arm64", 0x1000, vec![0x1f, 0x20, 0x03, 0xd5, 0xc0, 0x03, 0x5f, 0xd6]);
    let mut hl = TokenHighlighter::new();
    let lines = disassemble(&resolved, &mut hl, |a| (a - 0x1000, 7), "amd64").unwrap();
    assert_eq!(lines.len(), 2);
    assert_eq!((lines[1].address, lines[1].self_on_cpu_ns, lines[1].self_pet_samples), (0x1004, 4, 7));
    let text: String = lines[1].tokens.iter().map(|t| t.text.as_str()).collect();
    assert_eq!(text, "ret");
    resolved.fn_start_svma = 0x70;
    assert_eq!(line_svma(&resolved, 0x1004), 0x74);
    let view = annotated_view(Some(&resolved), 0x1004, lines);
    assert_eq!((view.function_name.as_str(), view.base_address), ("test", 0x1000));
    let none = annotated_view(None, 0x30, Vec::new());
    assert_eq!(none.function_name, no_binary(0x30));
    assert_eq!(none.base_address, 0x30);
    // Without an architecture of its own, code has this machine's.
    resolved.arch = None;
    assert!(disassemble(&resolved, &mut hl, |_| (0, 0), "sparc").unwrap().is_empty());
}

#[test]
fn headers_stand_where_the_source_changes() {
    let place = |file: &str, line: u32| Some(SourcePlace { file: file.into(), line });
    let mut trail = SourceTrail::new();
    assert!(!trail.next(None));
    assert!(trail.next(place("a.rs", 3)));
    assert!(!trail.next(place("a.rs", 3)));
    assert!(trail.next(place("b.rs", 3)));
    assert!(!trail.next(None));
    assert!(trail.next(place("b.rs", 3)));
}
