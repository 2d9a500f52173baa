//! Mach-O images as they are mapped in a target: their load commands, and the sections
//! that an unwinder needs.
use std::ops::Range;
use vstd::prelude::*;
use vstd::slice::slice_subrange;
use vstd::utf8::{encode_utf8, encode_utf8_decode_utf8};

use crate::wire::{le_u32, le_u64, read_u32, read_u64};

verus! {

/// What a 64-bit image begins with.
pub const MH_MAGIC_64: u32 = 0xFEED_FACF;

/// The command that maps a segment.
pub const LC_SEGMENT_64: u32 = 0x19;

/// The command that identifies the image.
pub const LC_UUID: u32 = 0x1B;

/// The length of the header.
pub const MACH_HEADER_BYTES: usize = 32;

/// The length of a command without what is particular to it.
pub const LOAD_COMMAND_BYTES: usize = 8;

/// The length of a segment command without its sections.
pub const SEGMENT_COMMAND_BYTES: usize = 72;

/// The length of a section.
pub const SECTION_BYTES: usize = 80;

/// The length of the identifying command.
pub const UUID_COMMAND_BYTES: usize = 24;

/// The longest section that is read. Longer ones are taken for damage.
pub const SECTION_SIZE_CAP: u64 = 8_388_608;

/// A section: where it is mapped, and what is in it.
#[derive(Debug)]
pub struct SectionData {
    pub avma: Range<u64>,
    pub bytes: Vec<u8>,
}

/// What an unwinder needs of an image. Addresses are those in the target.
#[derive(Debug)]
pub struct MachoSections {
    pub uuid: Option<[u8; 16]>,
    /// How far the image was moved from where it was linked.
    pub slide: i64,
    pub text_avma: Option<Range<u64>>,
    pub got_avma: Option<Range<u64>>,
    pub unwind_info: Option<SectionData>,
    pub compact_unwind: Option<SectionData>,
    pub eh_frame: Option<SectionData>,
    pub eh_frame_hdr: Option<SectionData>,
}

/// An address, moved back to where it was linked.
pub open spec fn unslid(address: u64, slide: i64) -> u64 {
    (address as i64).wrapping_sub(slide) as u64
}

/// An address, moved to where it is mapped.
pub open spec fn slid(address: u64, slide: i64) -> u64 {
    (address as i64).wrapping_add(slide) as u64
}

impl MachoSections {
    /// A range of addresses, moved back to where it was linked.
    pub fn avma_to_svma(&self, range: &Range<u64>) -> (r: Range<u64>)
        ensures
            r.start == unslid(range.start, self.slide),
            r.end == unslid(range.end, self.slide),
    {
        let start: u64 = (range.start as i64).wrapping_sub(self.slide) as u64;
        let end: u64 = (range.end as i64).wrapping_sub(self.slide) as u64;
        Range { start, end }
    }
}

/// The section whose bytes are read.
#[derive(Clone, Copy, Debug, PartialEq, Eq, Structural)]
pub enum BytesSlot {
    UnwindInfo,
    CompactUnwind,
    EhFrame,
    EhFrameHdr,
}

impl BytesSlot {
    /// The bytes of the section in `m`.
    pub open spec fn held(self, m: MachoSections) -> Option<SectionData> {
        match self {
            BytesSlot::UnwindInfo => m.unwind_info,
            BytesSlot::CompactUnwind => m.compact_unwind,
            BytesSlot::EhFrame => m.eh_frame,
            BytesSlot::EhFrameHdr => m.eh_frame_hdr,
        }
    }

    /// Puts the bytes of the section in their place.
    pub fn assign(self, dst: &mut MachoSections, data: SectionData)
        ensures
            self.held(*final(dst)) == Some(data),
            forall|other: BytesSlot|
                other != self ==> #[trigger] other.held(*final(dst)) == other.held(*old(dst)),
            final(dst).uuid == old(dst).uuid,
            final(dst).slide == old(dst).slide,
            final(dst).text_avma == old(dst).text_avma,
            final(dst).got_avma == old(dst).got_avma,
    {
        match self {
            BytesSlot::UnwindInfo => {
                dst.unwind_info = Some(data);
            },
            BytesSlot::CompactUnwind => {
                dst.compact_unwind = Some(data);
            },
            BytesSlot::EhFrame => {
                dst.eh_frame = Some(data);
            },
            BytesSlot::EhFrameHdr => {
                dst.eh_frame_hdr = Some(data);
            },
        }
    }
}

/// What stands in front of the first null byte.
pub open spec fn until_nul(s: Seq<u8>) -> Seq<u8>
    decreases s.len(),
{
    if s.len() == 0 || s[0] == 0 {
        seq![]
    } else {
        seq![s[0]] + until_nul(s.skip(1))
    }
}

/// The position of the first null byte, or the end.
pub fn nul_position(s: &[u8]) -> (n: usize)
    ensures
        n <= s@.len(),
        s@.take(n as int) == until_nul(s@),
        n < s@.len() ==> s@[n as int] == 0,
        forall|j: int| 0 <= j < n ==> s@[j] != 0,
{
    let mut i: usize = 0;
    while i < s.len()
        invariant
            i <= s@.len(),
            forall|j: int| 0 <= j < i ==> s@[j] != 0,
        decreases s@.len() - i,
    {
        if s[i] == 0 {
            proof {
                lemma_until_nul(s@, i as int);
            }
            return i;
        }
        i = i + 1;
    }
    proof {
        lemma_until_nul(s@, i as int);
    }
    i
}

/// What stands in front of the first null byte ends there.
pub proof fn lemma_until_nul(s: Seq<u8>, n: int)
    requires
        0 <= n <= s.len(),
        n < s.len() ==> s[n] == 0,
        forall|j: int| 0 <= j < n ==> s[j] != 0,
    ensures
        until_nul(s) == s.take(n),
    decreases n,
{
    if n > 0 {
        let rest = s.skip(1);
        assert forall|j: int| 0 <= j < n - 1 implies rest[j] != 0 by {
            assert(rest[j] == s[j + 1]);
        }
        lemma_until_nul(rest, n - 1);
        assert(seq![s[0]] + rest.take(n - 1) =~= s.take(n));
    } else {
        assert(s.take(0) =~= seq![]);
    }
}

/// The field of sixteen bytes, padded with null bytes, holds the name.
pub open spec fn is_named(field: Seq<u8>, name: Seq<char>) -> bool {
    until_nul(field) == encode_utf8(name)
}

/// Whether the field holds the name.
fn name_eq(field: &[u8], name: &str) -> (r: bool)
    ensures
        r == is_named(field@, name@),
{
    let n: usize = nul_position(field);
    let wanted = name.as_bytes();
    if n != wanted.len() {
        assert(field@.take(n as int).len() != wanted@.len());
        return false;
    }
    let mut i: usize = 0;
    while i < n
        invariant
            i <= n,
            n <= field@.len(),
            n == wanted@.len(),
            wanted@ == encode_utf8(name@),
            until_nul(field@) == field@.take(n as int),
            forall|j: int| 0 <= j < i ==> field@[j] == wanted@[j],
        decreases n - i,
    {
        if field[i] != wanted[i] {
            assert(field@.take(n as int)[i as int] != wanted@[i as int]);
            return false;
        }
        i = i + 1;
    }
    assert(field@.take(n as int) =~= wanted@);
    true
}

/// What the header of an image says.
#[derive(Clone, Copy, Debug, PartialEq, Eq, Structural)]
pub struct MachHeader {
    pub ncmds: u32,
    pub sizeofcmds: u32,
}

/// Reads the header of an image; nothing where it is not a 64-bit one.
pub fn parse_header(bytes: &[u8]) -> (h: Option<MachHeader>)
    requires
        bytes@.len() == MACH_HEADER_BYTES,
    ensures
        h == header_in(bytes@),
{
    if read_u32(bytes, 0) != MH_MAGIC_64 {
        return None;
    }
    Some(MachHeader { ncmds: read_u32(bytes, 16), sizeofcmds: read_u32(bytes, 20) })
}

/// A section whose bytes are to be read.
#[derive(Clone, Copy, Debug, PartialEq, Eq, Structural)]
pub struct PendingSection {
    pub avma: u64,
    pub size: u64,
    pub slot: BytesSlot,
}

/// What has been read off the load commands.
pub struct CommandsView {
    pub uuid: Option<Seq<u8>>,
    pub slide: i64,
    pub text: Option<(u64, u64)>,
    pub got: Option<(u64, u64)>,
    pub pending: Seq<PendingSection>,
}

/// The section that a name stands for.
pub open spec fn slot_named(field: Seq<u8>) -> Option<BytesSlot> {
    if is_named(field, "__unwind_info"@) {
        Some(BytesSlot::UnwindInfo)
    } else if is_named(field, "__compact_unwind"@) {
        Some(BytesSlot::CompactUnwind)
    } else if is_named(field, "__eh_frame"@) {
        Some(BytesSlot::EhFrame)
    } else if is_named(field, "__eh_frame_hdr"@) {
        Some(BytesSlot::EhFrameHdr)
    } else {
        None
    }
}

/// The section is in line already.
pub open spec fn in_line(pending: Seq<PendingSection>, slot: BytesSlot) -> bool {
    exists|i: int| 0 <= i < pending.len() && (#[trigger] pending[i]).slot == slot
}

/// Where something ends that begins at `start`; addresses wrap around.
pub open spec fn end_of(start: u64, size: u64) -> u64 {
    start.wrapping_add(size)
}

impl CommandsView {
    /// With the section at `at`. Of sections of the same name, the first counts.
    pub open spec fn with_section(self, cmds: Seq<u8>, at: int) -> CommandsView {
        let name = cmds.subrange(at, at + 16);
        let start = slid(le_u64(cmds, at + 32), self.slide);
        let size = le_u64(cmds, at + 40);
        CommandsView {
            got: if is_named(name, "__got"@) {
                Some((start, end_of(start, size)))
            } else {
                self.got
            },
            pending: match slot_named(name) {
                Some(slot) => if in_line(self.pending, slot) {
                    self.pending
                } else {
                    self.pending.push(PendingSection { avma: start, size, slot })
                },
                None => self.pending,
            },
            ..self
        }
    }

    /// With the `n` sections from `at` on, as far as there is room for them.
    pub open spec fn with_sections(self, cmds: Seq<u8>, n: nat, at: int) -> CommandsView
        decreases n,
    {
        if n == 0 || at + SECTION_BYTES > cmds.len() {
            self
        } else {
            self.with_section(cmds, at).with_sections(cmds, (n - 1) as nat, at + SECTION_BYTES)
        }
    }

    /// With the segment at `at`. The image was moved by as much as its code was, which
    /// begins with the header.
    pub open spec fn with_segment(self, cmds: Seq<u8>, load_address: u64, at: int) -> CommandsView {
        let vmaddr = le_u64(cmds, at + 24);
        let moved = if is_named(cmds.subrange(at + 8, at + 24), "__TEXT"@) {
            let slide = (load_address as i64).wrapping_sub(vmaddr as i64);
            let start = slid(vmaddr, slide);
            CommandsView {
                slide,
                text: Some((start, end_of(start, le_u64(cmds, at + 32)))),
                ..self
            }
        } else {
            self
        };
        moved.with_sections(cmds, le_u32(cmds, at + 64) as nat, at + SEGMENT_COMMAND_BYTES)
    }

    /// With the command at `at`.
    pub open spec fn with_command(self, cmds: Seq<u8>, load_address: u64, at: int) -> CommandsView {
        if le_u32(cmds, at) == LC_SEGMENT_64 {
            self.with_segment(cmds, load_address, at)
        } else if le_u32(cmds, at) == LC_UUID && at + UUID_COMMAND_BYTES <= cmds.len() {
            CommandsView { uuid: Some(cmds.subrange(at + 8, at + 24)), ..self }
        } else {
            self
        }
    }

    /// With the `n` commands from `at` on, up to the first that is cut off.
    pub open spec fn with_commands(
        self,
        cmds: Seq<u8>,
        load_address: u64,
        n: nat,
        at: int,
    ) -> CommandsView
        decreases n,
    {
        if n == 0 || !is_command(cmds, at) {
            self
        } else {
            self.with_command(cmds, load_address, at).with_commands(
                cmds,
                load_address,
                (n - 1) as nat,
                at + le_u32(cmds, at + 4),
            )
        }
    }
}

/// A whole command stands at `at`.
pub open spec fn is_command(cmds: Seq<u8>, at: int) -> bool {
    at + LOAD_COMMAND_BYTES <= cmds.len() && le_u32(cmds, at + 4) != 0 && at + le_u32(
        cmds,
        at + 4,
    ) <= cmds.len() && (le_u32(cmds, at) == LC_SEGMENT_64 ==> at + SEGMENT_COMMAND_BYTES
        <= cmds.len())
}

/// Nothing read yet.
pub open spec fn no_commands() -> CommandsView {
    CommandsView { uuid: None, slide: 0, text: None, got: None, pending: seq![] }
}

/// A range as a pair.
pub open spec fn range_pair(r: Option<Range<u64>>) -> Option<(u64, u64)> {
    match r {
        Some(r) => Some((r.start, r.end)),
        None => None,
    }
}

/// An identifier as bytes.
pub open spec fn uuid_bytes(u: Option<[u8; 16]>) -> Option<Seq<u8>> {
    match u {
        Some(u) => Some(u@),
        None => None,
    }
}

/// What was read is what the model says; no bytes of sections yet.
pub open spec fn models(v: CommandsView, m: MachoSections, pending: Seq<PendingSection>) -> bool {
    uuid_bytes(m.uuid) == v.uuid && m.slide == v.slide && range_pair(m.text_avma) == v.text
        && range_pair(m.got_avma) == v.got && pending == v.pending && m.unwind_info is None
        && m.compact_unwind is None && m.eh_frame is None && m.eh_frame_hdr is None
}

/// Whether the section is in line already.
fn is_in_line(pending: &Vec<PendingSection>, slot: BytesSlot) -> (r: bool)
    ensures
        r == in_line(pending@, slot),
{
    let mut i: usize = 0;
    while i < pending.len()
        invariant
            i <= pending@.len(),
            forall|j: int| 0 <= j < i ==> (#[trigger] pending@[j]).slot != slot,
        decreases pending@.len() - i,
    {
        if pending[i].slot == slot {
            assert(pending@[i as int].slot == slot);
            return true;
        }
        i = i + 1;
    }
    false
}

/// The section that a name stands for.
fn match_wanted(field: &[u8]) -> (s: Option<BytesSlot>)
    ensures
        s == slot_named(field@),
{
    if name_eq(field, "__unwind_info") {
        Some(BytesSlot::UnwindInfo)
    } else if name_eq(field, "__compact_unwind") {
        Some(BytesSlot::CompactUnwind)
    } else if name_eq(field, "__eh_frame") {
        Some(BytesSlot::EhFrame)
    } else if name_eq(field, "__eh_frame_hdr") {
        Some(BytesSlot::EhFrameHdr)
    } else {
        None
    }
}

/// Reads a section.
fn read_section(
    cmds: &[u8],
    at: usize,
    m: &mut MachoSections,
    pending: &mut Vec<PendingSection>,
    Ghost(v): Ghost<CommandsView>,
)
    requires
        at + SECTION_BYTES <= cmds@.len(),
        models(v, *old(m), old(pending)@),
    ensures
        models(v.with_section(cmds@, at as int), *final(m), final(pending)@),
{
    let n: usize = cmds.len();
    assert(at + SECTION_BYTES <= n);
    let name = slice_subrange(cmds, at, at + 16);
    let start: u64 = (read_u64(cmds, at + 32) as i64).wrapping_add(m.slide) as u64;
    let size: u64 = read_u64(cmds, at + 40);
    if name_eq(name, "__got") {
        m.got_avma = Some(Range { start, end: start.wrapping_add(size) });
    }
    match match_wanted(name) {
        Some(slot) => {
            if !is_in_line(pending, slot) {
                pending.push(PendingSection { avma: start, size, slot });
            }
        },
        None => {},
    }
}

/// Reads a segment and its sections.
fn read_segment(
    cmds: &[u8],
    load_address: u64,
    at: usize,
    m: &mut MachoSections,
    pending: &mut Vec<PendingSection>,
    Ghost(v): Ghost<CommandsView>,
)
    requires
        at + SEGMENT_COMMAND_BYTES <= cmds@.len(),
        models(v, *old(m), old(pending)@),
    ensures
        models(v.with_segment(cmds@, load_address, at as int), *final(m), final(pending)@),
{
    let len: usize = cmds.len();
    assert(at + SEGMENT_COMMAND_BYTES <= len);
    let vmaddr: u64 = read_u64(cmds, at + 24);
    let ghost mut now = v;
    if name_eq(slice_subrange(cmds, at + 8, at + 24), "__TEXT") {
        let slide: i64 = (load_address as i64).wrapping_sub(vmaddr as i64);
        let start: u64 = (vmaddr as i64).wrapping_add(slide) as u64;
        m.slide = slide;
        m.text_avma = Some(Range { start, end: start.wrapping_add(read_u64(cmds, at + 32)) });
        proof {
            now = CommandsView {
                slide,
                text: Some((start, end_of(start, le_u64(cmds@, at + 32)))),
                ..v
            };
        }
    }
    let ghost whole = v.with_segment(cmds@, load_address, at as int);
    let mut left: u32 = read_u32(cmds, at + 64);
    let mut sect: usize = at + SEGMENT_COMMAND_BYTES;
    while left > 0 && len - sect >= SECTION_BYTES
        invariant
            len == cmds@.len(),
            sect <= len,
            models(now, *m, pending@),
            whole == now.with_sections(cmds@, left as nat, sect as int),
        decreases left,
    {
        read_section(cmds, sect, m, pending, Ghost(now));
        proof {
            now = now.with_section(cmds@, sect as int);
        }
        sect = sect + SECTION_BYTES;
        left = left - 1;
    }
}

/// The identifier in the command at `at`.
fn read_uuid(cmds: &[u8], at: usize) -> (u: [u8; 16])
    requires
        at + UUID_COMMAND_BYTES <= cmds@.len(),
    ensures
        u@ == cmds@.subrange(at + 8, at + 24),
{
    let n: usize = cmds.len();
    assert(at + UUID_COMMAND_BYTES <= n);
    let s = slice_subrange(cmds, at + 8, at + 24);
    let u: [u8; 16] = [
        s[0],
        s[1],
        s[2],
        s[3],
        s[4],
        s[5],
        s[6],
        s[7],
        s[8],
        s[9],
        s[10],
        s[11],
        s[12],
        s[13],
        s[14],
        s[15],
    ];
    assert(u@ =~= s@);
    u
}

/// Reads the load commands of an image that is mapped at `load_address`: where its
/// parts are, and which sections are to be read.
pub fn parse_load_commands(load_address: u64, ncmds: u32, cmds: &[u8]) -> (r: (
    MachoSections,
    Vec<PendingSection>,
))
    ensures
        models(
            no_commands().with_commands(cmds@, load_address, ncmds as nat, 0),
            r.0,
            r.1@,
        ),
{
    let mut m = MachoSections {
        uuid: None,
        slide: 0,
        text_avma: None,
        got_avma: None,
        unwind_info: None,
        compact_unwind: None,
        eh_frame: None,
        eh_frame_hdr: None,
    };
    let mut pending: Vec<PendingSection> = Vec::new();
    let ghost mut now = no_commands();
    let ghost whole = now.with_commands(cmds@, load_address, ncmds as nat, 0);
    assert(pending@ =~= now.pending);
    let len: usize = cmds.len();
    let mut left: u32 = ncmds;
    let mut at: usize = 0;
    while left > 0
        invariant_except_break
            models(now, m, pending@),
            whole == now.with_commands(cmds@, load_address, left as nat, at as int),
        invariant
            len == cmds@.len(),
            at <= len,
        ensures
            models(whole, m, pending@),
        decreases left,
    {
        if len - at < LOAD_COMMAND_BYTES {
            break;
        }
        let cmd: u32 = read_u32(cmds, at);
        let size: u32 = read_u32(cmds, at + 4);
        if size == 0 || (size as u64) > (len - at) as u64 {
            break;
        }
        if cmd == LC_SEGMENT_64 {
            if len - at < SEGMENT_COMMAND_BYTES {
                break;
            }
            read_segment(cmds, load_address, at, &mut m, &mut pending, Ghost(now));
        } else if cmd == LC_UUID {
            if len - at >= UUID_COMMAND_BYTES {
                let u = read_uuid(cmds, at);
                m.uuid = Some(u);
            }
        }
        proof {
            now = now.with_command(cmds@, load_address, at as int);
        }
        at = at + size as usize;
        left = left - 1;
    }
    (m, pending)
}

/// The sections that are read: those with something in them that are not too long.
pub open spec fn readable(s: Seq<PendingSection>) -> Seq<PendingSection>
    decreases s.len(),
{
    if s.len() == 0 {
        s
    } else if s.last().size == 0 || s.last().size > SECTION_SIZE_CAP {
        readable(s.drop_last())
    } else {
        readable(s.drop_last()).push(s.last())
    }
}

/// The sections that are read.
pub fn sections_to_read(pending: &Vec<PendingSection>) -> (r: Vec<PendingSection>)
    ensures
        r@ == readable(pending@),
{
    let mut r: Vec<PendingSection> = Vec::new();
    let mut i: usize = 0;
    assert(pending@.take(0) =~= seq![]);
    while i < pending.len()
        invariant
            i <= pending@.len(),
            r@ == readable(pending@.take(i as int)),
        decreases pending@.len() - i,
    {
        assert(pending@.take(i + 1).drop_last() =~= pending@.take(i as int));
        assert(pending@.take(i + 1).last() == pending@[i as int]);
        let p = pending[i];
        if p.size != 0 && p.size <= SECTION_SIZE_CAP {
            r.push(p);
        }
        i = i + 1;
    }
    assert(pending@.take(i as int) =~= pending@);
    r
}

/// What was read, where it is as long as was asked for.
pub open spec fn whole_read(got: Option<Vec<u8>>, len: nat) -> Option<Seq<u8>> {
    match got {
        Some(b) => if b@.len() == len {
            Some(b@)
        } else {
            None
        },
        None => None,
    }
}

/// The section `d` holds all of `p`.
pub open spec fn is_section_of(p: PendingSection, bytes: Seq<u8>, d: SectionData) -> bool {
    d.avma.start == p.avma && d.avma.end == end_of(p.avma, p.size) && d.bytes@ == bytes
}

/// A section with what was read of it, where that is all of it.
pub fn section_data(p: &PendingSection, got: Option<Vec<u8>>) -> (d: Option<SectionData>)
    ensures
        match whole_read(got, p.size as nat) {
            Some(bytes) => d matches Some(d) && is_section_of(*p, bytes, d),
            None => d is None,
        },
{
    match got {
        Some(bytes) => if bytes.len() as u64 == p.size {
            Some(SectionData { avma: Range { start: p.avma, end: p.avma.wrapping_add(p.size) }, bytes })
        } else {
            None
        },
        None => None,
    }
}

/// The section `d` is what reading `p` out of the target can come to.
pub open spec fn section_read<F: Fn(u64, usize) -> Option<Vec<u8>>>(
    read: F,
    p: PendingSection,
    d: Option<SectionData>,
) -> bool {
    exists|got: Option<Vec<u8>>| #[trigger]
        call_ensures(read, (p.avma, p.size as usize), got) && match whole_read(
            got,
            p.size as nat,
        ) {
            Some(bytes) => d matches Some(d) && is_section_of(p, bytes, d),
            None => d is None,
        }
}

/// The image `m` holds what its load commands say, and of the sections that are read what
/// came of reading them.
pub open spec fn holds_image<F: Fn(u64, usize) -> Option<Vec<u8>>>(
    read: F,
    v: CommandsView,
    m: MachoSections,
) -> bool {
    let wanted = readable(v.pending);
    &&& uuid_bytes(m.uuid) == v.uuid
    &&& m.slide == v.slide
    &&& range_pair(m.text_avma) == v.text
    &&& range_pair(m.got_avma) == v.got
    &&& forall|k: int|
        0 <= k < wanted.len() ==> section_read(
            read,
            #[trigger] wanted[k],
            wanted[k].slot.held(m),
        )
    &&& forall|slot: BytesSlot| !in_line(wanted, slot) ==> #[trigger] slot.held(m) is None
}

/// The header in the bytes at the beginning of an image.
pub open spec fn header_in(bytes: Seq<u8>) -> Option<MachHeader> {
    if le_u32(bytes, 0) == MH_MAGIC_64 {
        Some(MachHeader { ncmds: le_u32(bytes, 16), sizeofcmds: le_u32(bytes, 20) })
    } else {
        None
    }
}

/// What the load commands behind the header `h` come to, given what was read of them.
pub open spec fn is_image_with<F: Fn(u64, usize) -> Option<Vec<u8>>>(
    read: F,
    load_address: u64,
    h: MachHeader,
    got: Option<Vec<u8>>,
    r: Option<MachoSections>,
) -> bool {
    match whole_read(got, h.sizeofcmds as nat) {
        Some(cmds) => r matches Some(m) && holds_image(
            read,
            no_commands().with_commands(cmds, load_address, h.ncmds as nat, 0),
            m,
        ),
        None => r is None,
    }
}

/// What the image at `load_address` comes to, given what was read of its header.
pub open spec fn is_image_behind<F: Fn(u64, usize) -> Option<Vec<u8>>>(
    read: F,
    load_address: u64,
    got: Option<Vec<u8>>,
    r: Option<MachoSections>,
) -> bool {
    match whole_read(got, MACH_HEADER_BYTES as nat) {
        Some(bytes) => match header_in(bytes) {
            Some(h) => exists|cmds: Option<Vec<u8>>| #[trigger]
                call_ensures(
                    read,
                    ((load_address + MACH_HEADER_BYTES) as u64, h.sizeofcmds as usize),
                    cmds,
                ) && is_image_with(read, load_address, h, cmds, r),
            None => r is None,
        },
        None => r is None,
    }
}

/// `r` is what the image at `load_address` comes to: nothing where its header cannot be read
/// or is not that of a 64-bit image, or its load commands cannot be read.
pub open spec fn is_image_at<F: Fn(u64, usize) -> Option<Vec<u8>>>(
    read: F,
    load_address: u64,
    r: Option<MachoSections>,
) -> bool {
    exists|got: Option<Vec<u8>>| #[trigger]
        call_ensures(read, (load_address, MACH_HEADER_BYTES), got) && is_image_behind(
            read,
            load_address,
            got,
            r,
        )
}

/// What is read of a target's memory, where it is as long as was asked for.
fn read_whole<F: Fn(u64, usize) -> Option<Vec<u8>>>(read: &F, at: u64, len: usize) -> (r: (
    Option<Vec<u8>>,
    Ghost<Option<Vec<u8>>>,
))
    requires
        call_requires(*read, (at, len)),
    ensures
        call_ensures(*read, (at, len), r.1@),
        match r.0 {
            Some(b) => whole_read(r.1@, len as nat) == Some(b@),
            None => whole_read(r.1@, len as nat) is None,
        },
{
    let got = read(at, len);
    let ghost given = got;
    match got {
        Some(b) => if b.len() == len {
            (Some(b), Ghost(given))
        } else {
            (None, Ghost(given))
        },
        None => (None, Ghost(given)),
    }
}

/// The sections that are read keep their order: none stands there twice, and none is empty
/// or too long.
proof fn lemma_readable(s: Seq<PendingSection>)
    requires
        slots_differ(s),
    ensures
        slots_differ(readable(s)),
        forall|i: int|
            0 <= i < readable(s).len() ==> 0 < (#[trigger] readable(s)[i]).size
                <= SECTION_SIZE_CAP && in_line(s, readable(s)[i].slot),
    decreases s.len(),
{
    if s.len() > 0 {
        let init = s.drop_last();
        assert(slots_differ(init)) by {
            assert forall|i: int, j: int| 0 <= i < j < init.len() implies (#[trigger] init[i]).slot
                != (#[trigger] init[j]).slot by {
                assert(init[i] == s[i] && init[j] == s[j]);
            }
        }
        lemma_readable(init);
        let w = readable(init);
        let r = readable(s);
        assert forall|i: int| 0 <= i < w.len() implies in_line(s, (#[trigger] w[i]).slot)
            && w[i].slot != s.last().slot by {
            assert(in_line(init, w[i].slot));
            let k = choose|k: int| 0 <= k < init.len() && (#[trigger] init[k]).slot == w[i].slot;
            assert(s[k].slot == w[i].slot);
            assert(s[k].slot != s[s.len() - 1].slot);
        }
        assert forall|i: int| 0 <= i < r.len() implies 0 < (#[trigger] r[i]).size
            <= SECTION_SIZE_CAP && in_line(s, r[i].slot) by {
            if i < w.len() {
                assert(r[i] == w[i]);
            } else {
                assert(s[s.len() - 1].slot == r[i].slot);
            }
        }
        assert forall|i: int, j: int| 0 <= i < j < r.len() implies (#[trigger] r[i]).slot != (
        #[trigger] r[j]).slot by {
            assert(r[i] == w[i]);
            if j < w.len() {
                assert(r[j] == w[j]);
            }
        }
    }
}

/// Reads the image that is mapped at `load_address`, out of a target's memory that `read`
/// gives: its load commands, and the sections that an unwinder needs. Sections that cannot
/// be read are left out.
pub fn parse_image<F: Fn(u64, usize) -> Option<Vec<u8>>>(read: F, load_address: u64) -> (r: Option<
    MachoSections,
>)
    requires
        forall|at: u64, len: usize| call_requires(read, (at, len)),
        load_address + MACH_HEADER_BYTES <= u64::MAX,
    ensures
        is_image_at(read, load_address, r),
{
    let (head, Ghost(head_got)) = read_whole(&read, load_address, MACH_HEADER_BYTES);
    let head = match head {
        Some(b) => b,
        None => {
            assert(is_image_behind(read, load_address, head_got, None));
            return None;
        },
    };
    let h = match parse_header(head.as_slice()) {
        Some(h) => h,
        None => {
            assert(is_image_behind(read, load_address, head_got, None));
            return None;
        },
    };
    assert(header_in(head@) == Some(h));
    let (cmds, Ghost(cmds_got)) = read_whole(
        &read,
        load_address + MACH_HEADER_BYTES as u64,
        h.sizeofcmds as usize,
    );
    let cmds = match cmds {
        Some(b) => b,
        None => {
            assert(is_image_with(read, load_address, h, cmds_got, None));
            assert(is_image_behind(read, load_address, head_got, None));
            return None;
        },
    };
    let (mut m, pending) = parse_load_commands(load_address, h.ncmds, cmds.as_slice());
    let ghost v = no_commands().with_commands(cmds@, load_address, h.ncmds as nat, 0);
    let wanted = sections_to_read(&pending);
    proof {
        sections_stand_once(no_commands(), cmds@, load_address, h.ncmds as nat, 0);
        lemma_readable(v.pending);
    }
    let mut i: usize = 0;
    while i < wanted.len()
        invariant
            i <= wanted@.len(),
            forall|at: u64, len: usize| call_requires(read, (at, len)),
            wanted@ == readable(v.pending),
            slots_differ(wanted@),
            forall|k: int|
                0 <= k < wanted@.len() ==> 0 < (#[trigger] wanted@[k]).size <= SECTION_SIZE_CAP,
            uuid_bytes(m.uuid) == v.uuid,
            m.slide == v.slide,
            range_pair(m.text_avma) == v.text,
            range_pair(m.got_avma) == v.got,
            forall|k: int|
                0 <= k < i ==> section_read(read, #[trigger] wanted@[k], wanted@[k].slot.held(m)),
            forall|slot: BytesSlot|
                !in_line(wanted@.take(i as int), slot) ==> #[trigger] slot.held(m) is None,
        decreases wanted@.len() - i,
    {
        let p = wanted[i];
        let ghost before = m;
        let ghost done = wanted@.take(i as int);
        proof {
            assert(!in_line(done, p.slot)) by {
                if in_line(done, p.slot) {
                    let k = choose|k: int|
                        0 <= k < done.len() && (#[trigger] done[k]).slot == p.slot;
                    assert(wanted@[k].slot != wanted@[i as int].slot);
                }
            }
            assert(p.slot.held(m) is None);
        }
        let got = read(p.avma, p.size as usize);
        let ghost given = got;
        match section_data(&p, got) {
            Some(d) => {
                p.slot.assign(&mut m, d);
            },
            None => {},
        }
        proof {
            assert(call_ensures(read, (p.avma, p.size as usize), given));
            assert(section_read(read, p, p.slot.held(m)));
            assert forall|k: int| 0 <= k < i + 1 implies section_read(
                read,
                #[trigger] wanted@[k],
                wanted@[k].slot.held(m),
            ) by {
                if k < i {
                    assert(wanted@[k].slot != wanted@[i as int].slot);
                    assert(wanted@[k].slot.held(m) == wanted@[k].slot.held(before));
                }
            }
            let next = wanted@.take(i + 1);
            assert forall|slot: BytesSlot| !in_line(next, slot) implies #[trigger] slot.held(
                m,
            ) is None by {
                assert(next[i as int].slot == p.slot);
                assert(slot != p.slot);
                assert(!in_line(done, slot)) by {
                    if in_line(done, slot) {
                        let k = choose|k: int|
                            0 <= k < done.len() && (#[trigger] done[k]).slot == slot;
                        assert(next[k].slot == slot);
                    }
                }
                assert(slot.held(m) == slot.held(before));
            }
        }
        i = i + 1;
    }
    assert(wanted@.take(i as int) =~= wanted@);
    assert(holds_image(read, v, m));
    assert(is_image_with(read, load_address, h, cmds_got, Some(m)));
    assert(is_image_behind(read, load_address, head_got, Some(m)));
    Some(m)
}

/// The law of sections that were read: there is as much in each as its range of addresses
/// says, which is something, and not too much.
pub proof fn sections_are_whole<F: Fn(u64, usize) -> Option<Vec<u8>>>(
    read: F,
    load_address: u64,
    m: MachoSections,
    slot: BytesSlot,
)
    requires
        is_image_at(read, load_address, Some(m)),
    ensures
        slot.held(m) matches Some(d) ==> 0 < d.bytes@.len() <= SECTION_SIZE_CAP && d.avma.end
            == end_of(d.avma.start, d.bytes@.len() as u64),
{
    let got = choose|got: Option<Vec<u8>>| #[trigger]
        call_ensures(read, (load_address, MACH_HEADER_BYTES), got) && is_image_behind(
            read,
            load_address,
            got,
            Some(m),
        );
    let bytes = whole_read(got, MACH_HEADER_BYTES as nat)->0;
    let h = header_in(bytes)->0;
    let read_cmds = choose|cmds: Option<Vec<u8>>| #[trigger]
        call_ensures(
            read,
            ((load_address + MACH_HEADER_BYTES) as u64, h.sizeofcmds as usize),
            cmds,
        ) && is_image_with(read, load_address, h, cmds, Some(m));
    let cmds = whole_read(read_cmds, h.sizeofcmds as nat)->0;
    let v = no_commands().with_commands(cmds, load_address, h.ncmds as nat, 0);
    let wanted = readable(v.pending);
    sections_stand_once(no_commands(), cmds, load_address, h.ncmds as nat, 0);
    lemma_readable(v.pending);
    assert(holds_image(read, v, m));
    if slot.held(m) is Some {
        assert(in_line(wanted, slot));
        let k = choose|k: int| 0 <= k < wanted.len() && (#[trigger] wanted[k]).slot == slot;
        assert(section_read(read, wanted[k], wanted[k].slot.held(m)));
    }
}

/// The law of the slide: the code of an image is mapped where its header is, and
/// moving an address there and back leaves it as it was.
pub proof fn sliding_round_trip(load_address: u64, vmaddr: u64, address: u64)
    ensures
        slid(vmaddr, (load_address as i64).wrapping_sub(vmaddr as i64)) == load_address,
        forall|slide: i64| #[trigger] unslid(slid(address, slide), slide) == address,
{
    lemma_wrap_there_and_back(vmaddr, load_address);
    assert forall|slide: i64| #[trigger] unslid(slid(address, slide), slide) == address by {
        lemma_wrap_back(address, slide);
    }
}

/// Adding a difference leads from the one to the other.
proof fn lemma_wrap_there_and_back(a: u64, b: u64)
    ensures
        slid(a, (b as i64).wrapping_sub(a as i64)) == b,
{
    let x = a as i64;
    let y = b as i64;
    let d = y.wrapping_sub(x);
    assert(x.wrapping_add(d) == y);
    assert((b as i64) as u64 == b) by (bit_vector);
}

/// Subtracting what was added leads back.
proof fn lemma_wrap_back(a: u64, slide: i64)
    ensures
        unslid(slid(a, slide), slide) == a,
{
    let x = a as i64;
    let s = x.wrapping_add(slide);
    assert((s as u64) as i64 == s) by (bit_vector);
    assert(s.wrapping_sub(slide) == x);
    assert((a as i64) as u64 == a) by (bit_vector);
}

/// The law of sections: each is read once at most.
pub proof fn sections_stand_once(v: CommandsView, cmds: Seq<u8>, load: u64, n: nat, at: int)
    requires
        slots_differ(v.pending),
    ensures
        slots_differ(v.with_commands(cmds, load, n, at).pending),
    decreases n,
{
    if n > 0 && is_command(cmds, at) {
        let next = v.with_command(cmds, load, at);
        if le_u32(cmds, at) == LC_SEGMENT_64 {
            let vmaddr = le_u64(cmds, at + 24);
            let slide = (load as i64).wrapping_sub(vmaddr as i64);
            let start = slid(vmaddr, slide);
            let moved = if is_named(cmds.subrange(at + 8, at + 24), "__TEXT"@) {
                CommandsView {
                    slide,
                    text: Some((start, end_of(start, le_u64(cmds, at + 32)))),
                    ..v
                }
            } else {
                v
            };
            lemma_sections_stand_once(
                moved,
                cmds,
                le_u32(cmds, at + 64) as nat,
                at + SEGMENT_COMMAND_BYTES,
            );
        }
        sections_stand_once(next, cmds, load, (n - 1) as nat, at + le_u32(cmds, at + 4));
    }
}

/// No section stands there twice.
pub open spec fn slots_differ(s: Seq<PendingSection>) -> bool {
    forall|i: int, j: int| 0 <= i < j < s.len() ==> (#[trigger] s[i]).slot != (#[trigger] s[j]).slot
}

/// The same of the sections of a segment.
proof fn lemma_sections_stand_once(v: CommandsView, cmds: Seq<u8>, n: nat, at: int)
    requires
        slots_differ(v.pending),
    ensures
        slots_differ(v.with_sections(cmds, n, at).pending),
    decreases n,
{
    if n > 0 && at + SECTION_BYTES <= cmds.len() {
        let next = v.with_section(cmds, at);
        assert forall|i: int, j: int| 0 <= i < j < next.pending.len() implies (
        #[trigger] next.pending[i]).slot != (#[trigger] next.pending[j]).slot by {
            if j < v.pending.len() {
                assert(next.pending[i] == v.pending[i] && next.pending[j] == v.pending[j]);
            } else {
                assert(next.pending[i] == v.pending[i]);
            }
        }
        lemma_sections_stand_once(next, cmds, (n - 1) as nat, at + SECTION_BYTES);
    }
}

/// An address that was moved by as much as the image was is that much further on.
pub proof fn sliding_adds_the_slide(address: u64, slide: i64)
    requires
        0 <= address + slide <= u64::MAX,
    ensures
        slid(address, slide) == address + slide,
{
    let x = address as i64;
    assert(x == address || x + 0x1_0000_0000_0000_0000 == address) by (bit_vector)
        requires
            x == address as i64,
    ;
    let y = x.wrapping_add(slide);
    let z = y as u64;
    assert(z == y || z == y + 0x1_0000_0000_0000_0000) by (bit_vector)
        requires
            z == y as u64,
    ;
}

/// A field of a fixed length holds a name, with a null byte behind it where there is room for one.
pub open spec fn holds_name(field: Seq<u8>, name: Seq<char>) -> bool {
    let n = encode_utf8(name).len() as int;
    &&& n <= field.len()
    &&& field.take(n) == encode_utf8(name)
    &&& n < field.len() ==> field[n] == 0
    &&& forall|j: int| 0 <= j < n ==> field[j] != 0
}

proof fn lemma_holds_name(field: Seq<u8>, name: Seq<char>, other: Seq<char>)
    requires
        holds_name(field, name),
    ensures
        is_named(field, other) == (name == other),
{
    lemma_until_nul(field, encode_utf8(name).len() as int);
    encode_utf8_decode_utf8(name);
    encode_utf8_decode_utf8(other);
}

/// The name of a section that is looked for, and where it is kept.
pub open spec fn is_wanted(name: Seq<char>, slot: BytesSlot) -> bool {
    ||| name == "__unwind_info"@ && slot is UnwindInfo
    ||| name == "__compact_unwind"@ && slot is CompactUnwind
    ||| name == "__eh_frame"@ && slot is EhFrame
    ||| name == "__eh_frame_hdr"@ && slot is EhFrameHdr
}

/// The law of wanted sections: the first section of such a name is noted, with its place moved as the
/// image was, and its size.
pub proof fn wanted_sections_are_noted(
    v: CommandsView,
    cmds: Seq<u8>,
    at: int,
    name: Seq<char>,
    slot: BytesSlot,
)
    requires
        0 <= at,
        at + 80 <= cmds.len(),
        is_wanted(name, slot),
        holds_name(cmds.subrange(at, at + 16), name),
        forall|i: int| 0 <= i < v.pending.len() ==> (#[trigger] v.pending[i]).slot != slot,
        0 <= le_u64(cmds, at + 32) + v.slide <= u64::MAX,
    ensures
        v.with_sections(cmds, 1, at) == (CommandsView {
            pending: v.pending.push(
                PendingSection {
                    avma: (le_u64(cmds, at + 32) + v.slide) as u64,
                    size: le_u64(cmds, at + 40),
                    slot,
                },
            ),
            ..v
        }),
{
    let field = cmds.subrange(at, at + 16);
    sliding_adds_the_slide(le_u64(cmds, at + 32), v.slide);
    reveal_strlit("__unwind_info");
    reveal_strlit("__compact_unwind");
    reveal_strlit("__eh_frame");
    reveal_strlit("__eh_frame_hdr");
    reveal_strlit("__got");
    lemma_holds_name(field, name, "__unwind_info"@);
    lemma_holds_name(field, name, "__compact_unwind"@);
    lemma_holds_name(field, name, "__eh_frame"@);
    lemma_holds_name(field, name, "__eh_frame_hdr"@);
    lemma_holds_name(field, name, "__got"@);
    assert(slot_named(field) == Some(slot));
    assert(!in_line(v.pending, slot));
    reveal_with_fuel(CommandsView::with_sections, 2);
}

/// The law of other sections: the global offset table is noted by its range, and a section that has
/// another name changes nothing.
pub proof fn other_sections_are_passed_over(v: CommandsView, cmds: Seq<u8>, at: int, name: Seq<char>)
    requires
        0 <= at,
        at + 80 <= cmds.len(),
        holds_name(cmds.subrange(at, at + 16), name),
        forall|slot: BytesSlot| !#[trigger] is_wanted(name, slot),
        0 <= le_u64(cmds, at + 32) + v.slide,
        le_u64(cmds, at + 32) + v.slide + le_u64(cmds, at + 40) <= u64::MAX,
    ensures
        name != "__got"@ ==> v.with_sections(cmds, 1, at) == v,
        name == "__got"@ ==> v.with_sections(cmds, 1, at) == (CommandsView {
            got: Some(
                (
                    (le_u64(cmds, at + 32) + v.slide) as u64,
                    (le_u64(cmds, at + 32) + v.slide + le_u64(cmds, at + 40)) as u64,
                ),
            ),
            ..v
        }),
{
    let field = cmds.subrange(at, at + 16);
    sliding_adds_the_slide(le_u64(cmds, at + 32), v.slide);
    assert(!is_wanted(name, BytesSlot::UnwindInfo));
    assert(!is_wanted(name, BytesSlot::CompactUnwind));
    assert(!is_wanted(name, BytesSlot::EhFrame));
    assert(!is_wanted(name, BytesSlot::EhFrameHdr));
    lemma_holds_name(field, name, "__unwind_info"@);
    lemma_holds_name(field, name, "__compact_unwind"@);
    lemma_holds_name(field, name, "__eh_frame"@);
    lemma_holds_name(field, name, "__eh_frame_hdr"@);
    lemma_holds_name(field, name, "__got"@);
    reveal_with_fuel(CommandsView::with_sections, 2);
}

/// The law of the sections of a segment: they are read one after the other, as long as they are
/// there.
pub proof fn sections_are_read_in_turn(v: CommandsView, cmds: Seq<u8>, n: nat, m: nat, at: int)
    requires
        0 <= at,
        at + 80 * n <= cmds.len(),
    ensures
        v.with_sections(cmds, n + m, at) == v.with_sections(cmds, n, at).with_sections(
            cmds,
            m,
            at + 80 * n,
        ),
        v.with_sections(cmds, n, at).text == v.text,
        v.with_sections(cmds, n, at).slide == v.slide,
        v.with_sections(cmds, n, at).uuid == v.uuid,
    decreases n,
{
    if n > 0 {
        sections_are_read_in_turn(
            v.with_section(cmds, at),
            cmds,
            (n - 1) as nat,
            m,
            at + 80,
        );
        assert((n + m - 1) as nat == (n - 1) as nat + m);
    }
}

/// The law of commands: they are read one after the other, each as long as it says.
pub proof fn commands_are_read_in_turn(
    v: CommandsView,
    cmds: Seq<u8>,
    load_address: u64,
    n: nat,
    at: int,
)
    requires
        at >= 0,
        at + 8 <= cmds.len(),
        le_u32(cmds, at + 4) != 0,
        at + le_u32(cmds, at + 4) <= cmds.len(),
        le_u32(cmds, at) == 0x19 ==> at + 72 <= cmds.len(),
    ensures
        v.with_commands(cmds, load_address, n + 1, at) == v.with_commands(
            cmds,
            load_address,
            1,
            at,
        ).with_commands(cmds, load_address, n, at + le_u32(cmds, at + 4)),
        v.with_commands(cmds, load_address, 0, at) == v,
{
    reveal_with_fuel(CommandsView::with_commands, 2);
}

/// The law of broken commands: where one does not fit into what there is, or is of no length, reading
/// ends.
pub proof fn broken_commands_end_reading(
    v: CommandsView,
    cmds: Seq<u8>,
    load_address: u64,
    n: nat,
    at: int,
)
    requires
        at + 8 > cmds.len() || le_u32(cmds, at + 4) == 0 || at + le_u32(cmds, at + 4) > cmds.len(),
    ensures
        v.with_commands(cmds, load_address, n, at) == v,
{
}

/// The law of the identifier: it is the sixteen bytes behind the head of its command; a command that
/// is neither that nor a segment changes nothing.
pub proof fn identifiers_are_taken(v: CommandsView, cmds: Seq<u8>, load_address: u64, at: int)
    requires
        at >= 0,
        at + 8 <= cmds.len(),
        le_u32(cmds, at + 4) != 0,
        at + le_u32(cmds, at + 4) <= cmds.len(),
        le_u32(cmds, at) != 0x19,
    ensures
        le_u32(cmds, at) == 0x1B && at + 24 <= cmds.len() ==> v.with_commands(
            cmds,
            load_address,
            1,
            at,
        ) == (CommandsView { uuid: Some(cmds.subrange(at + 8, at + 24)), ..v }),
        le_u32(cmds, at) != 0x1B ==> v.with_commands(cmds, load_address, 1, at) == v,
{
    reveal_with_fuel(CommandsView::with_commands, 2);
}

/// The law of segments: that of the code tells by how much the image was moved, and its range begins
/// where the image is loaded; then the sections of a segment are read, as many as it says.
pub proof fn segments_tell_the_slide(
    v: CommandsView,
    cmds: Seq<u8>,
    load_address: u64,
    at: int,
    name: Seq<char>,
)
    requires
        at >= 0,
        at + 72 <= cmds.len(),
        le_u32(cmds, at + 4) != 0,
        at + le_u32(cmds, at + 4) <= cmds.len(),
        le_u32(cmds, at) == 0x19,
        holds_name(cmds.subrange(at + 8, at + 24), name),
        load_address <= i64::MAX,
        le_u64(cmds, at + 24) <= i64::MAX,
        load_address + le_u64(cmds, at + 32) <= u64::MAX,
    ensures
        ({
            let here = if name == "__TEXT"@ {
                CommandsView {
                    slide: (load_address - le_u64(cmds, at + 24)) as i64,
                    text: Some((load_address, (load_address + le_u64(cmds, at + 32)) as u64)),
                    ..v
                }
            } else {
                v
            };
            v.with_commands(cmds, load_address, 1, at) == here.with_sections(
                cmds,
                le_u32(cmds, at + 64) as nat,
                at + 72,
            )
        }),
{
    lemma_holds_name(cmds.subrange(at + 8, at + 24), name, "__TEXT"@);
    let vmaddr = le_u64(cmds, at + 24);
    sliding_round_trip(load_address, vmaddr, load_address);
    assert(vmaddr as i64 == vmaddr && load_address as i64 == load_address);
    reveal_with_fuel(CommandsView::with_commands, 2);
}

/// The law of sections to read: those of some size that is not too large, in their order.
pub proof fn sections_of_some_size_are_read(s: Seq<PendingSection>)
    ensures
        readable(s) == s.filter(|p: PendingSection| 0 < p.size <= 8 * 1024 * 1024),
    decreases s.len(),
{
    reveal(Seq::filter);
    if s.len() > 0 {
        sections_of_some_size_are_read(s.drop_last());
    }
}

/// The law of text in bytes: it goes up to the first null byte, or to the end.
pub proof fn text_ends_at_its_null(s: Seq<u8>, n: int)
    requires
        0 <= n <= s.len(),
        forall|i: int| 0 <= i < n ==> #[trigger] s[i] != 0,
        n < s.len() ==> s[n] == 0,
    ensures
        until_nul(s) == s.take(n),
    decreases s.len(),
{
    if n > 0 {
        assert(s[0] != 0);
        let rest = s.skip(1);
        assert forall|i: int| 0 <= i < n - 1 implies #[trigger] rest[i] != 0 by {
            assert(rest[i] == s[i + 1]);
        }
        text_ends_at_its_null(rest, n - 1);
        assert(seq![s[0]] + rest.take(n - 1) =~= s.take(n));
    } else {
        assert(s.take(0) =~= seq![]);
    }
}

} // verus!
