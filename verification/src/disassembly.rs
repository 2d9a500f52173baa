//! Machine code as lines of assembly, with what each line cost.
use vstd::prelude::*;
use vstd::slice::slice_subrange;
use yaxpeax_arm::armv8::a64;
use yaxpeax_x86::amd64;

use crate::binaries::UNKNOWN_LANGUAGE;
use crate::client::{begins_with, text_begins_with};
use crate::code::ResolvedAddress;
use crate::highlight::{token_views, tokens_of, Token, TokenHighlighter, TokenView};
use crate::text::{hex_prefixed, push_hex_prefixed, same_text};

verus! {

/// Where control goes behind an instruction.
#[derive(Clone, Copy, Debug, PartialEq, Eq, Structural)]
pub enum Flow {
    /// To the next instruction.
    Sequential,
    /// Out of the function.
    Return,
    /// Somewhere that is computed.
    Indirect,
    Branch { target: u64 },
    /// There, or to the next instruction.
    ConditionalBranch { target: u64 },
    /// To another function, and then to the next instruction.
    Call,
}

/// An instruction of the 64-bit ARM architecture.
pub struct A64Instr {
    pub text: String,
    /// The name of the operation.
    pub opcode: String,
    /// For each operand, how far away it points from the instruction, where it does.
    pub offsets: Vec<Option<i64>>,
}

/// The model of an [`A64Instr`].
pub struct A64View {
    pub text: Seq<char>,
    pub opcode: Seq<char>,
    pub offsets: Seq<Option<i64>>,
}

impl View for A64Instr {
    type V = A64View;

    open spec fn view(&self) -> A64View {
        A64View { text: self.text@, opcode: self.opcode@, offsets: self.offsets@ }
    }
}

/// What the `yaxpeax_arm` decoder makes of four bytes: the instruction as it prints, the
/// name of its opcode and the distances in its operands; or the error as it prints.
pub uninterp spec fn a64_in(word: Seq<u8>) -> Result<A64View, Seq<char>>;

/// Calls `yaxpeax_arm::armv8::a64::InstDecoder::decode` on four bytes, and the `Display` of
/// what it gives. An instruction has four operands, some of which may be empty. That printing
/// an instruction never panics is not shown here: it has arms that are marked as never
/// reached.
#[verifier::external_body]
fn decode_a64(word: &[u8]) -> (r: Result<A64Instr, String>)
    requires
        word@.len() == 4,
    ensures
        match r {
            Ok(i) => a64_in(word@) == Ok::<A64View, Seq<char>>(i@) && i.offsets@.len() == 4,
            Err(e) => a64_in(word@) == Err::<A64View, Seq<char>>(e@),
        },
{
    let mut reader = yaxpeax_arch::U8Reader::new(word);
    match yaxpeax_arch::Decoder::decode(&a64::InstDecoder::default(), &mut reader) {
        Ok(i) => {
            let distance = |o: &a64::Operand| match o {
                a64::Operand::PCOffset(n) => Some(*n),
                _ => None,
            };
            let offsets = i.operands.iter().map(distance).collect();
            Ok(A64Instr { text: format!("{}", i), opcode: format!("{:?}", i.opcode), offsets })
        },
        Err(e) => Err(format!("{}", e)),
    }
}

/// An instruction of the 64-bit x86 architecture.
pub struct X86Instr {
    pub text: String,
    /// The name of the operation.
    pub opcode: String,
    /// The first operand, where it is a signed number.
    pub immediate: Option<i64>,
    pub length: u64,
}

/// The model of an [`X86Instr`].
pub struct X86View {
    pub text: Seq<char>,
    pub opcode: Seq<char>,
    pub immediate: Option<i64>,
    pub length: u64,
}

impl View for X86Instr {
    type V = X86View;

    open spec fn view(&self) -> X86View {
        X86View {
            text: self.text@,
            opcode: self.opcode@,
            immediate: self.immediate,
            length: self.length,
        }
    }
}

/// What the `yaxpeax_x86` decoder makes of the bytes from an instruction on: the
/// instruction as it prints, the name of its opcode, its first operand and its length; or
/// the error as it prints.
pub uninterp spec fn x86_in(bytes: Seq<u8>) -> Result<X86View, Seq<char>>;

/// Calls `yaxpeax_x86::amd64::InstDecoder::decode_slice`, and the `Display` of what it gives.
/// An instruction is no longer than the bytes that it was read from. That printing an
/// instruction never panics is not shown here.
#[verifier::external_body]
fn decode_x86(bytes: &[u8]) -> (r: Result<X86Instr, String>)
    ensures
        match r {
            Ok(i) => x86_in(bytes@) == Ok::<X86View, Seq<char>>(i@) && i.length <= bytes@.len(),
            Err(e) => x86_in(bytes@) == Err::<X86View, Seq<char>>(e@),
        },
{
    let i = match amd64::InstDecoder::default().decode_slice(bytes) {
        Ok(i) => i,
        Err(e) => return Err(format!("{}", e)),
    };
    let immediate = match i.operand(0) {
        amd64::Operand::ImmediateI8 { imm } => Some(imm as i64),
        amd64::Operand::ImmediateI16 { imm } => Some(imm as i64),
        amd64::Operand::ImmediateI32 { imm } => Some(imm as i64),
        amd64::Operand::ImmediateI64 { imm } => Some(imm),
        _ => None,
    };
    let length = yaxpeax_arch::LengthedInstruction::len(&i).to_const();
    Ok(X86Instr { text: format!("{}", i), opcode: format!("{:?}", i.opcode()), immediate, length })
}

/// The operations that branch to a computed place.
pub open spec fn a64_is_indirect(op: Seq<char>) -> bool {
    op == "BR"@ || op == "BRAA"@ || op == "BRAAZ"@ || op == "BRAB"@ || op == "BRABZ"@
}

/// The operations that call.
pub open spec fn a64_is_call(op: Seq<char>) -> bool {
    op == "BL"@ || op == "BLR"@ || op == "BLRAA"@ || op == "BLRAAZ"@ || op == "BLRAB"@ || op
        == "BLRABZ"@
}

/// The operations that return.
pub open spec fn a64_is_return(op: Seq<char>) -> bool {
    op == "RET"@ || op == "RETAA"@ || op == "RETAB"@ || op == "ERET"@ || op == "ERETAA"@ || op
        == "ERETAB"@
}

/// A branch that is taken on a condition: to the operand, where that is a distance.
pub open spec fn conditional(address: u64, offset: Option<i64>) -> Flow {
    match offset {
        Some(n) => Flow::ConditionalBranch { target: address.wrapping_add(n as u64) },
        None => Flow::Indirect,
    }
}

/// A branch that is always taken: to the operand, where that is a distance.
pub open spec fn unconditional(address: u64, offset: Option<i64>) -> Flow {
    match offset {
        Some(n) => Flow::Branch { target: address.wrapping_add(n as u64) },
        None => Flow::Indirect,
    }
}

/// Where control goes behind an instruction of the ARM architecture.
pub open spec fn a64_flow(op: Seq<char>, offsets: Seq<Option<i64>>, address: u64) -> Flow {
    if op == "B"@ {
        unconditional(address, offsets[0])
    } else if begins_with(op, "Bcc("@) {
        conditional(address, offsets[0])
    } else if op == "CBZ"@ || op == "CBNZ"@ {
        conditional(address, offsets[1])
    } else if op == "TBZ"@ || op == "TBNZ"@ {
        conditional(address, offsets[2])
    } else if a64_is_indirect(op) {
        Flow::Indirect
    } else if a64_is_call(op) {
        Flow::Call
    } else if a64_is_return(op) {
        Flow::Return
    } else {
        Flow::Sequential
    }
}

/// A branch that is taken on a condition.
fn conditional_to(address: u64, offset: Option<i64>) -> (f: Flow)
    ensures
        f == conditional(address, offset),
{
    match offset {
        Some(n) => Flow::ConditionalBranch { target: address.wrapping_add(n as u64) },
        None => Flow::Indirect,
    }
}

/// A branch that is always taken.
fn unconditional_to(address: u64, offset: Option<i64>) -> (f: Flow)
    ensures
        f == unconditional(address, offset),
{
    match offset {
        Some(n) => Flow::Branch { target: address.wrapping_add(n as u64) },
        None => Flow::Indirect,
    }
}

/// Where control goes behind an instruction of the ARM architecture.
pub fn classify_a64(op: &str, offsets: &Vec<Option<i64>>, address: u64) -> (f: Flow)
    requires
        offsets@.len() >= 3,
    ensures
        f == a64_flow(op@, offsets@, address),
{
    if same_text(op, "B") {
        unconditional_to(address, offsets[0])
    } else if text_begins_with(op, "Bcc(") {
        conditional_to(address, offsets[0])
    } else if same_text(op, "CBZ") || same_text(op, "CBNZ") {
        conditional_to(address, offsets[1])
    } else if same_text(op, "TBZ") || same_text(op, "TBNZ") {
        conditional_to(address, offsets[2])
    } else if same_text(op, "BR") || same_text(op, "BRAA") || same_text(op, "BRAAZ") || same_text(
        op,
        "BRAB",
    ) || same_text(op, "BRABZ") {
        Flow::Indirect
    } else if same_text(op, "BL") || same_text(op, "BLR") || same_text(op, "BLRAA") || same_text(
        op,
        "BLRAAZ",
    ) || same_text(op, "BLRAB") || same_text(op, "BLRABZ") {
        Flow::Call
    } else if same_text(op, "RET") || same_text(op, "RETAA") || same_text(op, "RETAB")
        || same_text(op, "ERET") || same_text(op, "ERETAA") || same_text(op, "ERETAB") {
        Flow::Return
    } else {
        Flow::Sequential
    }
}

/// The operations that branch always.
pub open spec fn x86_is_jump(op: Seq<char>) -> bool {
    op == "JMP"@ || op == "JMPF"@ || op == "JMPE"@
}

/// The operations that branch on a condition.
pub open spec fn x86_is_conditional(op: Seq<char>) -> bool {
    op == "JO"@ || op == "JNO"@ || op == "JB"@ || op == "JNB"@ || op == "JZ"@ || op == "JNZ"@ || op
        == "JA"@ || op == "JNA"@ || op == "JS"@ || op == "JNS"@ || op == "JP"@ || op == "JNP"@
        || op == "JL"@ || op == "JGE"@ || op == "JLE"@ || op == "JG"@ || op == "JRCXZ"@ || op
        == "LOOP"@ || op == "LOOPZ"@ || op == "LOOPNZ"@
}

/// The operations that return or stop.
pub open spec fn x86_is_return(op: Seq<char>) -> bool {
    op == "RETURN"@ || op == "RETF"@ || op == "IRET"@ || op == "IRETD"@ || op == "IRETQ"@ || op
        == "HLT"@ || op == "UD2"@
}

/// Where control goes behind an instruction of the x86 architecture. Distances count from
/// the next instruction.
pub open spec fn x86_flow(op: Seq<char>, immediate: Option<i64>, next: u64) -> Flow {
    if x86_is_jump(op) {
        unconditional(next, immediate)
    } else if x86_is_conditional(op) {
        conditional(next, immediate)
    } else if op == "CALL"@ || op == "CALLF"@ {
        Flow::Call
    } else if x86_is_return(op) {
        Flow::Return
    } else {
        Flow::Sequential
    }
}

/// Whether the operation branches on a condition.
fn x86_branches_on_condition(op: &str) -> (r: bool)
    ensures
        r == x86_is_conditional(op@),
{
    same_text(op, "JO") || same_text(op, "JNO") || same_text(op, "JB") || same_text(op, "JNB")
        || same_text(op, "JZ") || same_text(op, "JNZ") || same_text(op, "JA") || same_text(
        op,
        "JNA",
    ) || same_text(op, "JS") || same_text(op, "JNS") || same_text(op, "JP") || same_text(op, "JNP")
        || same_text(op, "JL") || same_text(op, "JGE") || same_text(op, "JLE") || same_text(
        op,
        "JG",
    ) || same_text(op, "JRCXZ") || same_text(op, "LOOP") || same_text(op, "LOOPZ") || same_text(
        op,
        "LOOPNZ",
    )
}

/// Where control goes behind an instruction of the x86 architecture.
pub fn classify_x86(op: &str, immediate: Option<i64>, next_address: u64) -> (f: Flow)
    ensures
        f == x86_flow(op@, immediate, next_address),
{
    if same_text(op, "JMP") || same_text(op, "JMPF") || same_text(op, "JMPE") {
        unconditional_to(next_address, immediate)
    } else if x86_branches_on_condition(op) {
        conditional_to(next_address, immediate)
    } else if same_text(op, "CALL") || same_text(op, "CALLF") {
        Flow::Call
    } else if same_text(op, "RETURN") || same_text(op, "RETF") || same_text(op, "IRET")
        || same_text(op, "IRETD") || same_text(op, "IRETQ") || same_text(op, "HLT") || same_text(
        op,
        "UD2",
    ) {
        Flow::Return
    } else {
        Flow::Sequential
    }
}

/// One instruction.
pub struct Instr {
    pub address: u64,
    pub length: u64,
    pub text: String,
    pub flow: Flow,
}

/// The model of an [`Instr`].
pub struct InstrView {
    pub address: u64,
    pub length: u64,
    pub text: Seq<char>,
    pub flow: Flow,
}

impl View for Instr {
    type V = InstrView;

    open spec fn view(&self) -> InstrView {
        InstrView {
            address: self.address,
            length: self.length,
            text: self.text@,
            flow: self.flow,
        }
    }
}

/// The models of instructions.
pub open spec fn instr_views(s: Seq<Instr>) -> Seq<InstrView> {
    s.map_values(|i: Instr| i@)
}

/// What is shown for bytes that are no instruction.
pub open spec fn error_text(e: Seq<char>) -> Seq<char> {
    "<decode error: "@ + e + ">"@
}

/// What is shown for bytes that are no instruction.
fn error_line(e: &str) -> (s: String)
    ensures
        s@ == error_text(e@),
{
    let mut s = "<decode error: ".to_owned();
    s.append(e);
    s.append(">");
    s
}

/// The instruction in four bytes.
pub open spec fn a64_instr(word: Seq<u8>, address: u64) -> InstrView {
    match a64_in(word) {
        Ok(i) => InstrView {
            address,
            length: 4,
            text: i.text,
            flow: a64_flow(i.opcode, i.offsets, address),
        },
        Err(e) => InstrView { address, length: 4, text: error_text(e), flow: Flow::Sequential },
    }
}

/// The instructions in the bytes, four bytes each. What is left over is none.
pub open spec fn a64_instrs(base: u64, bytes: Seq<u8>) -> Seq<InstrView> {
    Seq::new(
        bytes.len() / 4,
        |i: int| a64_instr(bytes.subrange(4 * i, 4 * i + 4), (base + 4 * i) as u64),
    )
}

/// The instruction that the bytes begin with. Bytes that begin with none are skipped one by
/// one.
pub open spec fn x86_instr(bytes: Seq<u8>, address: u64) -> InstrView {
    match x86_in(bytes) {
        Ok(i) => InstrView {
            address,
            length: i.length,
            text: i.text,
            flow: x86_flow(i.opcode, i.immediate, (address + i.length) as u64),
        },
        Err(e) => InstrView { address, length: 1, text: error_text(e), flow: Flow::Sequential },
    }
}

/// How far the next instruction is.
pub open spec fn step_of(i: InstrView) -> int {
    if i.length == 0 {
        1
    } else {
        i.length as int
    }
}

/// The instructions in the bytes from `at` on.
pub open spec fn x86_instrs_from(base: u64, bytes: Seq<u8>, at: int) -> Seq<InstrView>
    decreases
            if at < bytes.len() {
                bytes.len() - at
            } else {
                0
            },
{
    if at < 0 || at >= bytes.len() {
        seq![]
    } else {
        let i = x86_instr(bytes.skip(at), (base + at) as u64);
        seq![i] + x86_instrs_from(base, bytes, at + step_of(i))
    }
}

/// An architecture that can be decoded.
#[derive(Clone, Copy, Debug, PartialEq, Eq, Structural)]
pub enum Isa {
    A64,
    X86,
    Other,
}

/// The architecture of a name.
pub open spec fn isa_named(arch: Seq<char>) -> Isa {
    if arch == "aarch64"@ || arch == "arm64"@ || arch == "arm64e"@ {
        Isa::A64
    } else if arch == "amd64"@ || arch == "x86_64"@ || arch == "x86_64h"@ {
        Isa::X86
    } else {
        Isa::Other
    }
}

/// The architecture of a name.
pub fn isa_of(arch: &str) -> (isa: Isa)
    ensures
        isa == isa_named(arch@),
{
    if same_text(arch, "aarch64") || same_text(arch, "arm64") || same_text(arch, "arm64e") {
        Isa::A64
    } else if same_text(arch, "amd64") || same_text(arch, "x86_64") || same_text(arch, "x86_64h") {
        Isa::X86
    } else {
        Isa::Other
    }
}

/// The instructions in the bytes. Of other architectures there are none.
pub open spec fn instrs_in(isa: Isa, base: u64, bytes: Seq<u8>) -> Seq<InstrView> {
    match isa {
        Isa::A64 => a64_instrs(base, bytes),
        Isa::X86 => x86_instrs_from(base, bytes, 0),
        Isa::Other => seq![],
    }
}

/// Every instruction begins where the one before it ends, the first at `base`.
pub open spec fn contiguous_from(instrs: Seq<InstrView>, base: int) -> bool {
    &&& instrs.len() > 0 ==> instrs[0].address == base
    &&& forall|i: int|
        0 < i < instrs.len() ==> (#[trigger] instrs[i]).address == instrs[i - 1].address
            + step_of(instrs[i - 1])
}

/// The instructions from `at` on follow one another.
proof fn lemma_x86_contiguous(base: u64, bytes: Seq<u8>, at: int)
    requires
        base + bytes.len() <= u64::MAX,
        0 <= at,
    ensures
        contiguous_from(x86_instrs_from(base, bytes, at), base + at),
    decreases
            if at < bytes.len() {
                bytes.len() - at
            } else {
                0
            },
{
    if at < bytes.len() {
        let first = x86_instr(bytes.skip(at), (base + at) as u64);
        let rest = x86_instrs_from(base, bytes, at + step_of(first));
        let all = x86_instrs_from(base, bytes, at);
        lemma_x86_contiguous(base, bytes, at + step_of(first));
        assert forall|i: int| 0 < i < all.len() implies (#[trigger] all[i]).address == all[i
            - 1].address + step_of(all[i - 1]) by {
            assert(all[i] == rest[i - 1]);
            if i > 1 {
                assert(all[i - 1] == rest[i - 2]);
            }
        }
    }
}

/// Instructions follow one another without gaps and without overlap, from the first byte on.
pub proof fn instructions_are_contiguous(isa: Isa, base: u64, bytes: Seq<u8>)
    requires
        base + bytes.len() <= u64::MAX,
    ensures
        contiguous_from(instrs_in(isa, base, bytes), base as int),
{
    lemma_x86_contiguous(base, bytes, 0);
}

/// The instruction of the ARM architecture, given what a decoder found.
pub fn a64_instr_from(found: Result<A64Instr, String>, address: u64) -> (i: Instr)
    requires
        found matches Ok(f) ==> f.offsets@.len() >= 3,
    ensures
        i.address == address,
        i.length == 4,
        match found {
            Ok(f) => i.text@ == f.text@ && i.flow == a64_flow(f.opcode@, f.offsets@, address),
            Err(e) => i.text@ == error_text(e@) && i.flow is Sequential,
        },
{
    match found {
        Ok(f) => {
            let flow = classify_a64(f.opcode.as_str(), &f.offsets, address);
            Instr { address, length: 4, text: f.text, flow }
        },
        Err(e) => Instr {
            address,
            length: 4,
            text: error_line(e.as_str()),
            flow: Flow::Sequential,
        },
    }
}

/// The instruction of the x86 architecture, given what a decoder found.
pub fn x86_instr_from(found: Result<X86Instr, String>, address: u64) -> (i: Instr)
    requires
        found matches Ok(f) ==> address + f.length <= u64::MAX,
    ensures
        i.address == address,
        match found {
            Ok(f) => i.length == f.length && i.text@ == f.text@ && i.flow == x86_flow(
                f.opcode@,
                f.immediate,
                (address + f.length) as u64,
            ),
            Err(e) => i.length == 1 && i.text@ == error_text(e@) && i.flow is Sequential,
        },
{
    match found {
        Ok(f) => {
            let next: u64 = address + f.length;
            let flow = classify_x86(f.opcode.as_str(), f.immediate, next);
            Instr { address, length: f.length, text: f.text, flow }
        },
        Err(e) => Instr {
            address,
            length: 1,
            text: error_line(e.as_str()),
            flow: Flow::Sequential,
        },
    }
}

/// All instructions end at `end` at the latest.
pub open spec fn lie_within(instrs: Seq<Instr>, end: int) -> bool {
    forall|i: int|
        0 <= i < instrs.len() ==> (#[trigger] instrs[i]).address + instrs[i].length <= end
}

/// The instructions of the ARM architecture in the bytes.
fn decode_aarch64(base: u64, bytes: &[u8]) -> (out: Vec<Instr>)
    requires
        base + bytes@.len() <= u64::MAX,
    ensures
        instr_views(out@) == a64_instrs(base, bytes@),
        lie_within(out@, base + bytes@.len()),
        out@.len() <= bytes@.len(),
{
    let mut out: Vec<Instr> = Vec::new();
    let n: usize = bytes.len();
    let mut k: usize = 0;
    while k < n / 4
        invariant
            k <= n / 4,
            n == bytes@.len(),
            base + n <= u64::MAX,
            out@.len() == k,
            forall|j: int| 0 <= j < k ==> #[trigger] out@[j]@ == a64_instrs(base, bytes@)[j],
            lie_within(out@, base + n),
        decreases n / 4 - k,
    {
        let offset: usize = 4 * k;
        let address: u64 = base + offset as u64;
        let found = decode_a64(slice_subrange(bytes, offset, offset + 4));
        let i = a64_instr_from(found, address);
        assert(bytes@.subrange(offset as int, offset + 4) == bytes@.subrange(4 * k, 4 * k + 4));
        assert(i@ == a64_instr(bytes@.subrange(4 * k, 4 * k + 4), (base + 4 * k) as u64));
        out.push(i);
        k = k + 1;
    }
    assert(instr_views(out@) =~= a64_instrs(base, bytes@));
    out
}

/// The instructions of the x86 architecture in the bytes.
fn decode_amd64(base: u64, bytes: &[u8]) -> (out: Vec<Instr>)
    requires
        base + bytes@.len() <= u64::MAX,
    ensures
        instr_views(out@) == x86_instrs_from(base, bytes@, 0),
        lie_within(out@, base + bytes@.len()),
        out@.len() <= bytes@.len(),
{
    let ghost all = x86_instrs_from(base, bytes@, 0);
    let mut out: Vec<Instr> = Vec::new();
    let n: usize = bytes.len();
    let mut offset: usize = 0;
    assert(instr_views(out@) + x86_instrs_from(base, bytes@, 0) =~= all);
    while offset < n
        invariant
            offset <= n,
            n == bytes@.len(),
            base + n <= u64::MAX,
            all == instr_views(out@) + x86_instrs_from(base, bytes@, offset as int),
            lie_within(out@, base + n),
            out@.len() <= offset,
        decreases n - offset,
    {
        let address: u64 = base + offset as u64;
        let rest = slice_subrange(bytes, offset, n);
        assert(rest@ =~= bytes@.skip(offset as int));
        let found = decode_x86(rest);
        let i = x86_instr_from(found, address);
        let step: usize = if i.length == 0 {
            1
        } else {
            i.length as usize
        };
        let ghost before = out@;
        assert(i@ == x86_instr(bytes@.skip(offset as int), address));
        out.push(i);
        proof {
            let rest = x86_instrs_from(base, bytes@, offset + step);
            assert(instr_views(out@) =~= instr_views(before).push(i@));
            assert(instr_views(before).push(i@) + rest =~= instr_views(before) + (seq![i@]
                + rest));
        }
        offset = offset + step;
    }
    assert(x86_instrs_from(base, bytes@, offset as int) =~= seq![]);
    assert(instr_views(out@) + x86_instrs_from(base, bytes@, offset as int) =~= instr_views(out@));
    out
}

/// The instructions in the bytes, of which the first is mapped at `base`.
pub fn decode(isa: Isa, base: u64, bytes: &[u8]) -> (out: Vec<Instr>)
    requires
        base + bytes@.len() <= u64::MAX,
    ensures
        instr_views(out@) == instrs_in(isa, base, bytes@),
        lie_within(out@, base + bytes@.len()),
        out@.len() <= bytes@.len(),
{
    match isa {
        Isa::A64 => decode_aarch64(base, bytes),
        Isa::X86 => decode_amd64(base, bytes),
        Isa::Other => {
            let out: Vec<Instr> = Vec::new();
            assert(instr_views(out@) =~= seq![]);
            out
        },
    }
}

/// Where a line came from.
pub struct SourceHeader {
    pub file: String,
    pub line: u32,
    pub tokens: Vec<Token>,
}

/// One line of assembly, with what it cost.
pub struct AnnotatedLine {
    pub address: u64,
    pub tokens: Vec<Token>,
    pub self_on_cpu_ns: u64,
    pub self_pet_samples: u64,
    pub source_header: Option<SourceHeader>,
}

/// The line of an instruction: highlighted, with what the lookup gives for its address.
pub open spec fn is_line_of<F: Fn(u64) -> (u64, u64)>(
    self_lookup: F,
    i: InstrView,
    l: AnnotatedLine,
) -> bool {
    &&& l.address == i.address
    &&& tokens_of("asm"@, i.text) == Some(token_views(l.tokens@))
    &&& call_ensures(self_lookup, (i.address,), (l.self_on_cpu_ns, l.self_pet_samples))
    &&& l.source_header is None
}

/// Every instruction can be highlighted.
pub open spec fn all_shown(instrs: Seq<InstrView>) -> bool {
    forall|i: int|
        0 <= i < instrs.len() ==> tokens_of("asm"@, (#[trigger] instrs[i]).text) is Some
}

/// The lines of instructions, in order.
pub open spec fn are_lines_of<F: Fn(u64) -> (u64, u64)>(
    self_lookup: F,
    instrs: Seq<InstrView>,
    lines: Seq<AnnotatedLine>,
) -> bool {
    &&& lines.len() == instrs.len()
    &&& forall|i: int|
        0 <= i < lines.len() ==> is_line_of(self_lookup, instrs[i], #[trigger] lines[i])
}

/// The lines of instructions. Nothing where one of them cannot be highlighted.
pub fn annotate<F: Fn(u64) -> (u64, u64)>(
    instrs: &Vec<Instr>,
    hl: &mut TokenHighlighter,
    self_lookup: &F,
) -> (r: Option<Vec<AnnotatedLine>>)
    requires
        forall|a: u64| call_requires(*self_lookup, (a,)),
    ensures
        r is Some == all_shown(instr_views(instrs@)),
        r matches Some(lines) ==> are_lines_of(*self_lookup, instr_views(instrs@), lines@),
{
    let ghost views = instr_views(instrs@);
    let mut lines: Vec<AnnotatedLine> = Vec::new();
    let mut k: usize = 0;
    while k < instrs.len()
        invariant
            k <= instrs@.len(),
            views == instr_views(instrs@),
            forall|a: u64| call_requires(*self_lookup, (a,)),
            lines@.len() == k,
            forall|j: int|
                0 <= j < k ==> is_line_of(*self_lookup, views[j], #[trigger] lines@[j]),
            forall|j: int| 0 <= j < k ==> tokens_of("asm"@, (#[trigger] views[j]).text) is Some,
        decreases instrs@.len() - k,
    {
        assert(views[k as int] == instrs@[k as int]@);
        let address: u64 = instrs[k].address;
        let tokens = match hl.highlight_line(instrs[k].text.as_str()) {
            Some(t) => t,
            None => {
                assert(!all_shown(views));
                return None;
            },
        };
        let (self_on_cpu_ns, self_pet_samples): (u64, u64) = self_lookup(address);
        lines.push(
            AnnotatedLine {
                address,
                tokens,
                self_on_cpu_ns,
                self_pet_samples,
                source_header: None,
            },
        );
        k = k + 1;
    }
    Some(lines)
}

/// The architecture of code: its own, or this machine's.
pub open spec fn arch_or(own: Option<String>, host: Seq<char>) -> Seq<char> {
    match own {
        Some(a) => a@,
        None => host,
    }
}

/// The architecture of code: its own, or this machine's.
pub fn resolved_isa(resolved: &ResolvedAddress, host_arch: &str) -> (isa: Isa)
    ensures
        isa == isa_named(arch_or(resolved.arch, host_arch@)),
{
    match &resolved.arch {
        Some(a) => isa_of(a.as_str()),
        None => isa_of(host_arch),
    }
}

/// The instructions of code that was found.
pub open spec fn resolved_instrs(resolved: ResolvedAddress, host_arch: Seq<char>) -> Seq<
    InstrView,
> {
    instrs_in(
        isa_named(arch_or(resolved.arch, host_arch)),
        resolved.base_address,
        resolved.bytes@,
    )
}

/// The lines of code that was found. Nothing where one of them cannot be highlighted.
pub fn disassemble<F: Fn(u64) -> (u64, u64)>(
    resolved: &ResolvedAddress,
    hl: &mut TokenHighlighter,
    self_lookup: F,
    host_arch: &str,
) -> (r: Option<Vec<AnnotatedLine>>)
    requires
        resolved.base_address + resolved.bytes@.len() <= u64::MAX,
        forall|a: u64| call_requires(self_lookup, (a,)),
    ensures
        r is Some == all_shown(resolved_instrs(*resolved, host_arch@)),
        r matches Some(lines) ==> are_lines_of(
            self_lookup,
            resolved_instrs(*resolved, host_arch@),
            lines@,
        ),
{
    let instrs = decode(
        resolved_isa(resolved, host_arch),
        resolved.base_address,
        resolved.bytes.as_slice(),
    );
    annotate(&instrs, hl, &self_lookup)
}

/// Where a line was linked.
pub fn line_svma(resolved: &ResolvedAddress, address: u64) -> (svma: u64)
    requires
        resolved.base_address <= address,
        resolved.fn_start_svma + (address - resolved.base_address) <= u64::MAX,
    ensures
        svma == resolved.fn_start_svma + (address - resolved.base_address),
{
    resolved.fn_start_svma + (address - resolved.base_address)
}

/// A place in a source file.
pub struct SourcePlace {
    pub file: String,
    pub line: u32,
}

/// The model of a [`SourcePlace`].
pub open spec fn place_view(p: Option<SourcePlace>) -> Option<(Seq<char>, u32)> {
    match p {
        Some(p) => Some((p.file@, p.line)),
        None => None,
    }
}

/// Where the last line came from.
pub struct SourceTrail {
    last: Option<SourcePlace>,
}

impl SourceTrail {
    /// Where the last line came from.
    pub closed spec fn last(self) -> Option<(Seq<char>, u32)> {
        place_view(self.last)
    }

    /// In front of the first line.
    pub fn new() -> (t: Self)
        ensures
            t.last() is None,
    {
        SourceTrail { last: None }
    }

    /// Goes on to the next line. Returns whether the line gets a header: it comes from a
    /// place, and the line before came from another one.
    pub fn next(&mut self, here: Option<SourcePlace>) -> (r: bool)
        ensures
            r == (place_view(here) is Some && place_view(here) != old(self).last()),
            final(self).last() == place_view(here),
    {
        let same = match (&here, &self.last) {
            (Some(a), Some(b)) => a.line == b.line && same_text(a.file.as_str(), b.file.as_str()),
            (None, None) => true,
            _ => false,
        };
        let shown = here.is_some() && !same;
        self.last = here;
        shown
    }
}

/// Annotated code.
pub struct AnnotatedView {
    pub function_name: String,
    pub language: String,
    pub base_address: u64,
    pub queried_address: u64,
    pub lines: Vec<AnnotatedLine>,
}

/// What is shown for an address without code.
pub open spec fn no_binary_text(address: u64) -> Seq<char> {
    "(no binary mapped at "@ + hex_prefixed(address as nat) + ")"@
}

/// What is shown for an address without code.
pub fn no_binary(address: u64) -> (s: String)
    ensures
        s@ == no_binary_text(address),
{
    let mut s = "(no binary mapped at ".to_owned();
    push_hex_prefixed(&mut s, address);
    s.append(")");
    s
}

/// Annotated code at an address, where there is any.
pub fn annotated_view(
    resolved: Option<&ResolvedAddress>,
    address: u64,
    lines: Vec<AnnotatedLine>,
) -> (v: AnnotatedView)
    ensures
        v.queried_address == address,
        v.lines == lines,
        match resolved {
            Some(r) => v.function_name@ == r.function_name@ && v.language@ == r.language@
                && v.base_address == r.base_address,
            None => v.function_name@ == no_binary_text(address) && v.language@
                == UNKNOWN_LANGUAGE@ && v.base_address == address,
        },
{
    match resolved {
        Some(r) => AnnotatedView {
            function_name: r.function_name.clone(),
            language: r.language.clone(),
            base_address: r.base_address,
            queried_address: address,
            lines,
        },
        None => AnnotatedView {
            function_name: no_binary(address),
            language: UNKNOWN_LANGUAGE.to_owned(),
            base_address: address,
            queried_address: address,
            lines,
        },
    }
}

/// A branch goes as far from its address as its operand says.
proof fn lemma_goes_as_far(address: u64, n: i64)
    requires
        0 <= address + n <= u64::MAX,
    ensures
        address.wrapping_add(n as u64) == address + n,
{
    let m = n as u64;
    assert(m == n || m == n + 0x1_0000_0000_0000_0000) by (bit_vector)
        requires
            m == n as u64,
    ;
}

/// The law of branches on 64-bit ARM: one that says how far away it goes is followed there; which
/// operand says so depends on the kind of branch.
pub proof fn a64_branches_go_as_far_as_they_say(
    op: Seq<char>,
    offsets: Seq<Option<i64>>,
    address: u64,
    which: int,
)
    requires
        ({
            ||| op == "B"@ && which == 0
            ||| op.len() >= 4 && op.take(4) == "Bcc("@ && which == 0
            ||| (op == "CBZ"@ || op == "CBNZ"@) && which == 1
            ||| (op == "TBZ"@ || op == "TBNZ"@) && which == 2
        }),
        offsets.len() >= 3,
        offsets[which] is Some,
        0 <= address + offsets[which]->0 <= u64::MAX,
    ensures
        op == "B"@ ==> a64_flow(op, offsets, address) == (Flow::Branch {
            target: (address + offsets[which]->0) as u64,
        }),
        op != "B"@ ==> a64_flow(op, offsets, address) == (Flow::ConditionalBranch {
            target: (address + offsets[which]->0) as u64,
        }),
{
    lemma_goes_as_far(address, offsets[which]->0);
    reveal_strlit("B");
    reveal_strlit("Bcc(");
    reveal_strlit("CBZ");
    reveal_strlit("CBNZ");
    reveal_strlit("TBZ");
    reveal_strlit("TBNZ");
    if op.len() >= 4 && op.take(4) == "Bcc("@ {
        assert(op.take(4)[1] == op[1]);
        assert(begins_with(op, "Bcc("@));
    } else if op == "TBNZ"@ || op == "CBNZ"@ {
        assert(op.take(4)[0] == op[0]);
        assert("Bcc("@[0] == 'B');
    }
    assert("TBZ"@[0] == 'T' && "TBNZ"@[0] == 'T' && "CBZ"@[0] == 'C' && "CBNZ"@[0] == 'C');
}

/// The law of other flow on 64-bit ARM: calls come back, leaving ones do not, computed branches go
/// somewhere, and every other instruction goes on to the next.
#[verifier::spinoff_prover]
#[verifier::rlimit(40)]
pub proof fn a64_flow_is_told_by_the_operation(op: Seq<char>, offsets: Seq<Option<i64>>, address: u64)
    ensures
        seq!["BL"@, "BLR"@, "BLRAA"@, "BLRAAZ"@, "BLRAB"@, "BLRABZ"@].contains(op) == (a64_flow(
            op,
            offsets,
            address,
        ) is Call),
        seq!["RET"@, "RETAA"@, "RETAB"@, "ERET"@, "ERETAA"@, "ERETAB"@].contains(op) == (a64_flow(
            op,
            offsets,
            address,
        ) is Return),
        seq!["BR"@, "BRAA"@, "BRAAZ"@, "BRAB"@, "BRABZ"@].contains(op) ==> a64_flow(
            op,
            offsets,
            address,
        ) is Indirect,
{
    let calls = seq!["BL"@, "BLR"@, "BLRAA"@, "BLRAAZ"@, "BLRAB"@, "BLRABZ"@];
    let leaving = seq!["RET"@, "RETAA"@, "RETAB"@, "ERET"@, "ERETAA"@, "ERETAB"@];
    let computed = seq!["BR"@, "BRAA"@, "BRAAZ"@, "BRAB"@, "BRABZ"@];
    assert(calls[0] == "BL"@ && calls[1] == "BLR"@ && calls[2] == "BLRAA"@ && calls[3] == "BLRAAZ"@
        && calls[4] == "BLRAB"@ && calls[5] == "BLRABZ"@);
    assert(leaving[0] == "RET"@ && leaving[1] == "RETAA"@ && leaving[2] == "RETAB"@ && leaving[3]
        == "ERET"@ && leaving[4] == "ERETAA"@ && leaving[5] == "ERETAB"@);
    assert(computed[0] == "BR"@ && computed[1] == "BRAA"@ && computed[2] == "BRAAZ"@ && computed[3]
        == "BRAB"@ && computed[4] == "BRABZ"@);
    reveal_strlit("B");
    reveal_strlit("Bcc(");
    reveal_strlit("CBZ");
    reveal_strlit("CBNZ");
    reveal_strlit("TBZ");
    reveal_strlit("TBNZ");
    reveal_strlit("BL");
    reveal_strlit("BLR");
    reveal_strlit("BLRAA");
    reveal_strlit("BLRAAZ");
    reveal_strlit("BLRAB");
    reveal_strlit("BLRABZ");
    reveal_strlit("RET");
    reveal_strlit("RETAA");
    reveal_strlit("RETAB");
    reveal_strlit("ERET");
    reveal_strlit("ERETAA");
    reveal_strlit("ERETAB");
    reveal_strlit("BR");
    reveal_strlit("BRAA");
    reveal_strlit("BRAAZ");
    reveal_strlit("BRAB");
    reveal_strlit("BRABZ");
    if op.len() >= 4 {
        assert(op.take(4)[1] == op[1] && op.take(4)[0] == op[0]);
    }
    assert("Bcc("@[1] == 'c');
    if calls.contains(op) {
        assert(op[0] == 'B' && op[1] == 'L');
        assert(a64_flow(op, offsets, address) is Call);
    }
    if leaving.contains(op) {
        assert(op[0] == 'R' || op[0] == 'E');
        assert(a64_flow(op, offsets, address) is Return);
    }
    if computed.contains(op) {
        assert(op[0] == 'B' && op[1] == 'R');
        assert(a64_flow(op, offsets, address) is Indirect);
    }
}

/// The law of jumps on x86: one that says how far away it goes is followed there, counted from the
/// next instruction.
pub proof fn x86_jumps_go_as_far_as_they_say(op: Seq<char>, n: i64, next: u64)
    requires
        0 <= next + n <= u64::MAX,
    ensures
        op == "JMP"@ || op == "JMPF"@ || op == "JMPE"@ ==> x86_flow(op, Some(n), next) == (
        Flow::Branch { target: (next + n) as u64 }),
        x86_flow(op, Some(n), next) is ConditionalBranch ==> x86_flow(op, Some(n), next) == (
        Flow::ConditionalBranch { target: (next + n) as u64 }),
        !(x86_flow(op, Some(n), next) is Indirect),
{
    lemma_goes_as_far(next, n);
}

/// The law of words: every four bytes are decoded where they stand.
pub proof fn words_are_decoded_where_they_stand(base: u64, bytes: Seq<u8>, i: int)
    requires
        base + bytes.len() <= u64::MAX,
        0 <= i,
        4 * i + 4 <= bytes.len(),
    ensures
        ({
            let all = instrs_in(Isa::A64, base, bytes);
            let word = bytes.subrange(4 * i, 4 * i + 4);
            &&& i < all.len()
            &&& all.len() * 4 <= bytes.len() < all.len() * 4 + 4
            &&& all[i].address == base + 4 * i
            &&& all[i].length == 4
            &&& a64_in(word) matches Ok(found) ==> all[i].text == found.text && all[i].flow
                == a64_flow(found.opcode, found.offsets, all[i].address)
            &&& a64_in(word) is Err ==> all[i].flow is Sequential
        }),
{
}

/// The law of instructions of different lengths: each is decoded from the bytes at its address on, and
/// where nothing can be decoded one byte is passed over.
pub proof fn instructions_are_decoded_where_they_stand(base: u64, bytes: Seq<u8>, at: int, i: int)
    requires
        base + bytes.len() <= u64::MAX,
        0 <= at,
        0 <= i < x86_instrs_from(base, bytes, at).len(),
    ensures
        ({
            let line = x86_instrs_from(base, bytes, at)[i];
            let from = line.address - base;
            &&& at <= from < bytes.len()
            &&& x86_in(bytes.skip(from)) matches Ok(found) ==> line.text == found.text && line.length
                == found.length && line.flow == x86_flow(
                found.opcode,
                found.immediate,
                (line.address + found.length) as u64,
            )
            &&& x86_in(bytes.skip(from)) is Err ==> line.length == 1 && line.flow is Sequential
        }),
    decreases i,
{
    let first = x86_instr(bytes.skip(at), (base + at) as u64);
    let all = x86_instrs_from(base, bytes, at);
    if i > 0 {
        let rest = x86_instrs_from(base, bytes, at + step_of(first));
        assert(all[i] == rest[i - 1]);
        instructions_are_decoded_where_they_stand(base, bytes, at + step_of(first), i - 1);
    }
}

/// The law of lines: each shows its instruction, at its address, with what was looked up for that
/// address, and none is left out.
pub proof fn lines_show_their_instruction<F: Fn(u64) -> (u64, u64)>(
    self_lookup: F,
    instrs: Seq<InstrView>,
    lines: Seq<AnnotatedLine>,
    i: int,
)
    requires
        are_lines_of(self_lookup, instrs, lines),
        0 <= i < lines.len(),
    ensures
        lines.len() == instrs.len(),
        lines[i].address == instrs[i].address,
        call_ensures(
            self_lookup,
            (instrs[i].address,),
            (lines[i].self_on_cpu_ns, lines[i].self_pet_samples),
        ),
        tokens_of("asm"@, instrs[i].text) == Some(token_views(lines[i].tokens@)),
{
    assert(is_line_of(self_lookup, instrs[i], lines[i]));
}

/// The law of architectures: both families are known by all of their names, and no other is decoded.
pub proof fn architectures_are_known_by_name(arch: Seq<char>)
    ensures
        (isa_named(arch) is A64) == (arch == "aarch64"@ || arch == "arm64"@ || arch == "arm64e"@),
        (isa_named(arch) is X86) == (arch == "amd64"@ || arch == "x86_64"@ || arch == "x86_64h"@),
        !(arch == "aarch64"@ || arch == "arm64"@ || arch == "arm64e"@ || arch == "amd64"@ || arch
            == "x86_64"@ || arch == "x86_64h"@) ==> isa_named(arch) is Other,
{
    reveal_strlit("aarch64");
    reveal_strlit("arm64");
    reveal_strlit("arm64e");
    reveal_strlit("amd64");
    reveal_strlit("x86_64");
    reveal_strlit("x86_64h");
    assert("aarch64"@[0] == 'a' && "arm64"@[1] == 'r' && "arm64e"@[0] == 'a');
    assert("amd64"@[1] == 'm' && "x86_64"@[0] == 'x' && "x86_64h"@[0] == 'x');
}

/// The law of what cannot be decoded: one byte is passed over, with control going on behind it, and
/// decoding never stands still.
pub proof fn decoding_goes_on(bytes: Seq<u8>, address: u64, i: InstrView)
    ensures
        x86_in(bytes) is Err ==> x86_instr(bytes, address).length == 1 && x86_instr(bytes, address).flow
            == Flow::Sequential,
        x86_in(bytes) matches Ok(d) ==> x86_instr(bytes, address).length == d.length && x86_instr(
            bytes,
            address,
        ).text == d.text,
        x86_instr(bytes, address).address == address,
        step_of(i) >= 1,
        i.length >= 1 ==> step_of(i) == i.length,
{
}

/// The law of branches on a condition: every such operation goes to its target or on.
#[verifier::spinoff_prover]
#[verifier::rlimit(60)]
pub proof fn x86_conditions_branch(op: Seq<char>, n: i64, next: u64)
    requires
        op == "JO"@
            || op == "JNO"@
            || op == "JB"@
            || op == "JNB"@
            || op == "JZ"@
            || op == "JNZ"@
            || op == "JA"@
            || op == "JNA"@
            || op == "JS"@
            || op == "JNS"@
            || op == "JP"@
            || op == "JNP"@
            || op == "JL"@
            || op == "JGE"@
            || op == "JLE"@
            || op == "JG"@
            || op == "JRCXZ"@
            || op == "LOOP"@
            || op == "LOOPZ"@
            || op == "LOOPNZ"@,
    ensures
        x86_flow(op, Some(n), next) == (Flow::ConditionalBranch {
            target: next.wrapping_add(n as u64),
        }),
        x86_flow(op, None, next) == Flow::Indirect,
{
    reveal_strlit("JO");
    reveal_strlit("JNO");
    reveal_strlit("JB");
    reveal_strlit("JNB");
    reveal_strlit("JZ");
    reveal_strlit("JNZ");
    reveal_strlit("JA");
    reveal_strlit("JNA");
    reveal_strlit("JS");
    reveal_strlit("JNS");
    reveal_strlit("JP");
    reveal_strlit("JNP");
    reveal_strlit("JL");
    reveal_strlit("JGE");
    reveal_strlit("JLE");
    reveal_strlit("JG");
    reveal_strlit("JRCXZ");
    reveal_strlit("LOOP");
    reveal_strlit("LOOPZ");
    reveal_strlit("LOOPNZ");
    reveal_strlit("JMP");
    reveal_strlit("JMPF");
    reveal_strlit("JMPE");
    assert("JO"@.len() == 2);
    assert("JNO"@.len() == 3);
    assert("JB"@.len() == 2);
    assert("JNB"@.len() == 3);
    assert("JZ"@.len() == 2);
    assert("JNZ"@.len() == 3);
    assert("JA"@.len() == 2);
    assert("JNA"@.len() == 3);
    assert("JS"@.len() == 2);
    assert("JNS"@.len() == 3);
    assert("JP"@.len() == 2);
    assert("JNP"@.len() == 3);
    assert("JL"@.len() == 2);
    assert("JGE"@.len() == 3);
    assert("JLE"@.len() == 3);
    assert("JG"@.len() == 2);
    assert("JRCXZ"@.len() == 5);
    assert("LOOP"@.len() == 4);
    assert("LOOPZ"@.len() == 5);
    assert("LOOPNZ"@.len() == 6);
    assert("JMP"@.len() == 3 && "JMP"@[1] == 'M');
    assert("JMPF"@.len() == 4 && "JMPF"@[1] == 'M');
    assert("JMPE"@.len() == 4 && "JMPE"@[1] == 'M');
    assert("JNO"@[1] == 'N' && "JMP"@[1] == 'M');
    assert("JNB"@[1] == 'N' && "JMP"@[1] == 'M');
    assert("JNZ"@[1] == 'N' && "JMP"@[1] == 'M');
    assert("JNA"@[1] == 'N' && "JMP"@[1] == 'M');
    assert("JNS"@[1] == 'N' && "JMP"@[1] == 'M');
    assert("JNP"@[1] == 'N' && "JMP"@[1] == 'M');
    assert("JGE"@[1] == 'G' && "JMP"@[1] == 'M');
    assert("JLE"@[1] == 'L' && "JMP"@[1] == 'M');
    assert("LOOP"@[0] == 'L' && "JMPF"@[0] == 'J');
    assert("LOOP"@[0] == 'L' && "JMPE"@[0] == 'J');
}

} // verus!
