//! The images of a process, from its regions and from the files behind them: what was
//! loaded and unloaded between one look and the next.
use object::read::macho::MachOFile64;
use object::{Architecture, Endianness, Object, ObjectKind, ObjectSegment, ObjectSymbol};
use vstd::prelude::*;

use crate::libproc::Region;
use crate::sample_sink::{BinaryLoadedEvent, BinaryUnloadedEvent, MachOSymbol};
use crate::sort::{ascending, ascending_key, sort_by_keys, stable_sorted, NumKey};
use crate::text::{opt_text, same_text};

verus! {

/// An image of the target.
pub struct LoadedImage {
    pub path: String,
    pub base_avma: u64,
    pub vmsize: u64,
    pub text_svma: u64,
    pub uuid: Option<[u8; 16]>,
    pub arch: Option<&'static str>,
    pub is_executable: bool,
    pub symbols: Vec<MachOSymbol>,
    /// It comes from the shared library cache, which no region shows.
    pub from_cache: bool,
}

/// A processor.
#[derive(Clone, Copy, Debug, PartialEq, Eq, Structural)]
pub enum Cpu {
    Aarch64,
    X86_64,
    Other,
}

/// A segment of a file.
pub struct FileSegment {
    pub name: Option<String>,
    pub address: u64,
    pub size: u64,
}

/// A symbol of a file, with its name where that can be read.
pub struct FileSymbol {
    pub address: u64,
    pub name: Option<Vec<u8>>,
}

/// What a file tells, but for its symbols.
pub struct MachoHead {
    pub segments: Vec<FileSegment>,
    pub uuid: Option<[u8; 16]>,
    pub cpu: Cpu,
    pub is_executable: bool,
}

/// The model of a [`FileSegment`].
pub struct FileSegmentView {
    pub name: Option<Seq<char>>,
    pub address: u64,
    pub size: u64,
}

/// The model of a [`FileSymbol`].
pub struct FileSymbolView {
    pub address: u64,
    pub name: Option<Seq<u8>>,
}

/// The model of a [`MachoHead`].
pub struct MachoHeadView {
    pub segments: Seq<FileSegmentView>,
    pub uuid: Option<[u8; 16]>,
    pub cpu: Cpu,
    pub is_executable: bool,
}

/// The model of a segment.
pub open spec fn segment_view(s: FileSegment) -> FileSegmentView {
    FileSegmentView { name: opt_text(s.name), address: s.address, size: s.size }
}

/// The model of a symbol.
pub open spec fn symbol_view(s: FileSymbol) -> FileSymbolView {
    FileSymbolView {
        address: s.address,
        name: match s.name {
            Some(n) => Some(n@),
            None => None,
        },
    }
}

/// The models of symbols.
pub open spec fn symbol_views(s: Seq<FileSymbol>) -> Seq<FileSymbolView> {
    s.map_values(|s: FileSymbol| symbol_view(s))
}

impl View for MachoHead {
    type V = MachoHeadView;

    open spec fn view(&self) -> MachoHeadView {
        MachoHeadView {
            segments: self.segments@.map_values(|s: FileSegment| segment_view(s)),
            uuid: self.uuid,
            cpu: self.cpu,
            is_executable: self.is_executable,
        }
    }
}

/// What `object::read::macho::MachOFile64` finds in the bytes of a file: its segments in
/// their order, its identity, its processor and whether it is a program. Nothing where it
/// is no 64-bit Mach-O file.
pub uninterp spec fn macho_in(bytes: Seq<u8>) -> Option<MachoHeadView>;

/// The symbols that `object::read::macho::MachOFile64` finds in the bytes of a file, in
/// their order. Nothing where it is no 64-bit Mach-O file.
pub uninterp spec fn macho_symbols_in(bytes: Seq<u8>) -> Option<Seq<FileSymbolView>>;

/// Calls `object::read::macho::MachOFile64::parse`, and copies out what it finds but for the
/// symbols.
#[verifier::external_body]
fn macho_head(bytes: &[u8]) -> (r: Option<MachoHead>)
    ensures
        r is Some == macho_in(bytes@) is Some,
        r matches Some(f) ==> macho_in(bytes@) == Some(f@),
{
    let file = MachOFile64::<Endianness, _>::parse(bytes).ok()?;
    let mut segments = Vec::new();
    for s in file.segments() {
        let name = s.name().ok().flatten().map(|n| n.to_owned());
        segments.push(FileSegment { name, address: s.address(), size: s.size() });
    }
    let cpu = match file.architecture() {
        Architecture::Aarch64 => Cpu::Aarch64,
        Architecture::X86_64 => Cpu::X86_64,
        _ => Cpu::Other,
    };
    let is_executable = matches!(file.kind(), ObjectKind::Executable);
    Some(MachoHead { segments, uuid: file.mach_uuid().ok().flatten(), cpu, is_executable })
}

/// Calls `object::read::macho::MachOFile64::parse`, and copies out the symbols that it finds.
#[verifier::external_body]
fn macho_symbols(bytes: &[u8]) -> (r: Option<Vec<FileSymbol>>)
    ensures
        r is Some == macho_symbols_in(bytes@) is Some,
        r matches Some(s) ==> macho_symbols_in(bytes@) == Some(symbol_views(s@)),
{
    let file = MachOFile64::<Endianness, _>::parse(bytes).ok()?;
    let mut symbols = Vec::new();
    for s in file.symbols() {
        let name = s.name_bytes().ok().map(|n| n.to_vec());
        symbols.push(FileSymbol { address: s.address(), name });
    }
    Some(symbols)
}

/// What is known of an image on disk.
pub struct ParsedMachO {
    pub text_svma: u64,
    pub text_vmsize: u64,
    pub uuid: Option<[u8; 16]>,
    pub arch: Option<&'static str>,
    pub is_executable: bool,
    pub symbols: Vec<MachOSymbol>,
}

/// The symbols that have an address and a name, by address and name.
pub open spec fn named_symbols(s: Seq<FileSymbolView>) -> Seq<(u64, Seq<u8>)>
    decreases s.len(),
{
    if s.len() == 0 {
        seq![]
    } else {
        let before = named_symbols(s.drop_last());
        match s.last().name {
            Some(n) => if s.last().address != 0 && n.len() > 0 {
                before.push((s.last().address, n))
            } else {
                before
            },
            None => before,
        }
    }
}

/// The keys by which symbols are sorted.
pub open spec fn address_keys(s: Seq<(u64, Seq<u8>)>) -> Seq<NumKey> {
    s.map_values(|p: (u64, Seq<u8>)| ascending(p.0))
}

/// Of symbols that follow each other at one address, the first.
pub open spec fn first_of_each(s: Seq<(u64, Seq<u8>)>) -> Seq<(u64, Seq<u8>)>
    decreases s.len(),
{
    if s.len() == 0 {
        seq![]
    } else {
        let before = first_of_each(s.drop_last());
        if before.len() > 0 && before.last().0 == s.last().0 {
            before
        } else {
            before.push(s.last())
        }
    }
}

/// The symbols of a file by ascending address, one for each address.
pub open spec fn symbol_starts(s: Seq<FileSymbolView>) -> Seq<(u64, Seq<u8>)> {
    let named = named_symbols(s);
    first_of_each(stable_sorted(address_keys(named), named))
}

/// `out` holds the symbols that begin as `starts` says. Each ends where the next one
/// begins; the last one is taken for an instruction long.
pub open spec fn are_spans(starts: Seq<(u64, Seq<u8>)>, out: Seq<MachOSymbol>) -> bool {
    &&& out.len() == starts.len()
    &&& forall|i: int|
        0 <= i < out.len() ==> (#[trigger] out[i]).start_svma == starts[i].0 && out[i].name@
            == starts[i].1 && out[i].end_svma == (if i + 1 < starts.len() {
            starts[i + 1].0 as int
        } else {
            starts[i].0 + 4
        })
}

/// Every address leaves room for an instruction behind it.
pub open spec fn starts_have_room(s: Seq<(u64, Seq<u8>)>) -> bool {
    forall|i: int| 0 <= i < s.len() ==> (#[trigger] s[i]).0 <= u64::MAX - 4
}

/// Every symbol with an address and a name leaves room for an instruction behind its address.
pub open spec fn symbols_have_room(s: Seq<FileSymbolView>) -> bool {
    starts_have_room(named_symbols(s))
}

/// Whether every symbol with an address and a name leaves room for an instruction behind its
/// address.
fn all_have_room(symbols: &Vec<FileSymbol>) -> (r: bool)
    ensures
        r == symbols_have_room(symbol_views(symbols@)),
{
    let ghost views = symbol_views(symbols@);
    let mut room = true;
    let mut k: usize = 0;
    assert(views.take(0) =~= seq![]);
    while k < symbols.len()
        invariant
            k <= symbols@.len(),
            views == symbol_views(symbols@),
            room == starts_have_room(named_symbols(views.take(k as int))),
        decreases symbols@.len() - k,
    {
        let ghost before = named_symbols(views.take(k as int));
        let ghost after = named_symbols(views.take(k + 1));
        proof {
            assert(views.take(k + 1).drop_last() =~= views.take(k as int));
            assert(views.take(k + 1).last() == symbol_view(symbols@[k as int]));
            assert forall|i: int| 0 <= i < before.len() implies #[trigger] before[i] == after[i] by {}
        }
        let named = match &symbols[k].name {
            Some(name) => symbols[k].address != 0 && name.len() > 0,
            None => false,
        };
        if named && symbols[k].address > u64::MAX - 4 {
            assert(after[before.len() as int].0 == symbols@[k as int].address);
            room = false;
        }
        proof {
            if !starts_have_room(before) {
                let i = choose|i: int| 0 <= i < before.len() && before[i].0 > u64::MAX - 4;
                assert(after[i].0 > u64::MAX - 4);
            }
        }
        k = k + 1;
    }
    assert(views.take(k as int) =~= views);
    room
}

/// The models of pairs.
pub open spec fn pair_views(s: Seq<(u64, Vec<u8>)>) -> Seq<(u64, Seq<u8>)> {
    s.map_values(|p: (u64, Vec<u8>)| (p.0, p.1@))
}

/// The symbols of a file that have an address and a name.
fn collect_named(symbols: Vec<FileSymbol>) -> (out: Vec<(u64, Vec<u8>)>)
    ensures
        pair_views(out@) == named_symbols(symbol_views(symbols@)),
{
    let ghost views = symbol_views(symbols@);
    let mut out: Vec<(u64, Vec<u8>)> = Vec::new();
    let mut k: usize = 0;
    assert(pair_views(out@) =~= seq![]);
    assert(views.take(0) =~= seq![]);
    while k < symbols.len()
        invariant
            k <= symbols@.len(),
            views == symbol_views(symbols@),
            pair_views(out@) == named_symbols(views.take(k as int)),
        decreases symbols@.len() - k,
    {
        proof {
            assert(views.take(k + 1).drop_last() =~= views.take(k as int));
            assert(views.take(k + 1).last() == symbol_view(symbols@[k as int]));
            assert(views[k as int] == symbol_view(symbols@[k as int]));
        }
        let ghost before = out@;
        let address: u64 = symbols[k].address;
        match &symbols[k].name {
            Some(name) => {
                if address != 0 && name.len() > 0 {
                    let copy: Vec<u8> = vstd::slice::slice_to_vec(name.as_slice());
                    out.push((address, copy));
                    assert(pair_views(out@) =~= pair_views(before).push((address, name@)));
                }
            },
            None => {},
        }
        k = k + 1;
    }
    assert(views.take(k as int) =~= views);
    out
}

/// Of symbols that follow each other at one address, the first.
fn dedup_starts(sorted: Vec<(u64, Vec<u8>)>) -> (out: Vec<(u64, Vec<u8>)>)
    ensures
        pair_views(out@) == first_of_each(pair_views(sorted@)),
        starts_have_room(pair_views(sorted@)) ==> starts_have_room(pair_views(out@)),
{
    let ghost views = pair_views(sorted@);
    let mut out: Vec<(u64, Vec<u8>)> = Vec::new();
    let mut k: usize = 0;
    assert(pair_views(out@) =~= seq![]);
    assert(views.take(0) =~= seq![]);
    while k < sorted.len()
        invariant
            k <= sorted@.len(),
            views == pair_views(sorted@),
            pair_views(out@) == first_of_each(views.take(k as int)),
            starts_have_room(views) ==> starts_have_room(pair_views(out@)),
        decreases sorted@.len() - k,
    {
        proof {
            assert(views.take(k + 1).drop_last() =~= views.take(k as int));
            assert(views.take(k + 1).last() == (sorted@[k as int].0, sorted@[k as int].1@));
            assert(views[k as int].0 == sorted@[k as int].0);
        }
        let ghost before = out@;
        let n: usize = out.len();
        assert(pair_views(out@).len() == n);
        let repeats = n > 0 && out[n - 1].0 == sorted[k].0;
        if n > 0 {
            assert(pair_views(out@).last() == (out@[n - 1].0, out@[n - 1].1@));
        }
        if !repeats {
            let name: Vec<u8> = vstd::slice::slice_to_vec(sorted[k].1.as_slice());
            out.push((sorted[k].0, name));
            assert(pair_views(out@) =~= pair_views(before).push(
                (sorted@[k as int].0, sorted@[k as int].1@),
            ));
        }
        k = k + 1;
    }
    assert(views.take(k as int) =~= views);
    out
}

/// Sorting does not lose an address.
proof fn lemma_sorted_views(
    pairs: Seq<(u64, Vec<u8>)>,
    keys: Seq<NumKey>,
    out: Seq<(u64, Vec<u8>)>,
)
    requires
        keys == address_keys(pair_views(pairs)),
        crate::sort::sorted_by(keys, pairs, out),
    ensures
        pair_views(out) == stable_sorted(keys, pair_views(pairs)),
        starts_have_room(pair_views(pairs)) ==> starts_have_room(pair_views(out)),
{
    let order = choose|order: Seq<usize>| #[trigger]
        crate::sort::is_stable_order(keys, order) && crate::sort::is_reordering(
            pairs,
            order,
            out,
        );
    assert forall|i: int| 0 <= i < out.len() implies #[trigger] pair_views(out)[i] == pair_views(
        pairs,
    )[order[i] as int] && order[i] < pairs.len() by {
        assert(out[i] == pairs[order[i] as int]);
    }
    assert(crate::sort::is_reordering(pair_views(pairs), order, pair_views(out)));
    crate::sort::stable_sort_is_unique(keys, pair_views(pairs), pair_views(out));
}

/// The symbols of a file, one for each address.
pub fn symbols_of(symbols: Vec<FileSymbol>) -> (out: Vec<MachOSymbol>)
    requires
        symbols_have_room(symbol_views(symbols@)),
    ensures
        are_spans(
            symbol_starts(symbol_views(symbols@)),
            out@,
        ),
{
    let named = collect_named(symbols);
    let mut keys: Vec<NumKey> = Vec::new();
    let mut k: usize = 0;
    while k < named.len()
        invariant
            k <= named@.len(),
            keys@.len() == k,
            forall|j: int| 0 <= j < k ==> #[trigger] keys@[j] == ascending(named@[j].0),
        decreases named@.len() - k,
    {
        keys.push(ascending_key(named[k].0));
        k = k + 1;
    }
    let ghost pairs = named@;
    assert(keys@ =~= address_keys(pair_views(named@)));
    let sorted = sort_by_keys(named, &keys);
    proof {
        lemma_sorted_views(pairs, keys@, sorted@);
    }
    let starts = dedup_starts(sorted);
    let ghost views = pair_views(starts@);
    let mut out: Vec<MachOSymbol> = Vec::new();
    let n: usize = starts.len();
    let mut i: usize = 0;
    while i < n
        invariant
            i <= n,
            n == starts@.len(),
            views == pair_views(starts@),
            starts_have_room(views),
            out@.len() == i,
            forall|j: int|
                0 <= j < i ==> (#[trigger] out@[j]).start_svma == views[j].0 && out@[j].name@
                    == views[j].1 && out@[j].end_svma == (if j + 1 < views.len() {
                    views[j + 1].0 as int
                } else {
                    views[j].0 + 4
                }),
        decreases n - i,
    {
        assert(views[i as int] == (starts@[i as int].0, starts@[i as int].1@));
        let start: u64 = starts[i].0;
        let end: u64 = if i + 1 < n {
            starts[i + 1].0
        } else {
            start + 4
        };
        let name: Vec<u8> = vstd::slice::slice_to_vec(starts[i].1.as_slice());
        out.push(MachOSymbol { start_svma: start, end_svma: end, name });
        i = i + 1;
    }
    out
}

/// The first segment of the name.
pub open spec fn is_first_segment(s: Seq<FileSegmentView>, name: Seq<char>, i: int) -> bool {
    0 <= i < s.len() && s[i].name == Some(name) && forall|j: int|
        0 <= j < i ==> (#[trigger] s[j]).name != Some(name)
}

/// The position of the first segment of the name.
pub open spec fn first_segment(s: Seq<FileSegmentView>, name: Seq<char>) -> Option<int> {
    if exists|i: int| is_first_segment(s, name, i) {
        Some(choose|i: int| is_first_segment(s, name, i))
    } else {
        None
    }
}

/// The position of the first segment of the name.
fn find_segment(segments: &Vec<FileSegment>, name: &str) -> (r: Option<usize>)
    ensures
        match r {
            Some(i) => i < segments@.len() && first_segment(
                segments@.map_values(|s: FileSegment| segment_view(s)),
                name@,
            ) == Some(i as int),
            None => first_segment(
                segments@.map_values(|s: FileSegment| segment_view(s)),
                name@,
            ) is None,
        },
{
    let ghost views = segments@.map_values(|s: FileSegment| segment_view(s));
    let mut i: usize = 0;
    while i < segments.len()
        invariant
            i <= segments@.len(),
            views == segments@.map_values(|s: FileSegment| segment_view(s)),
            forall|j: int| 0 <= j < i ==> (#[trigger] views[j]).name != Some(name@),
        decreases segments@.len() - i,
    {
        assert(views[i as int] == segment_view(segments@[i as int]));
        match &segments[i].name {
            Some(n) => {
                if same_text(n.as_str(), name) {
                    proof {
                        assert(is_first_segment(views, name@, i as int));
                        let k = choose|k: int| is_first_segment(views, name@, k);
                        if k < i {
                            assert(views[k].name != Some(name@));
                        } else if i < k {
                            assert(views[i as int].name != Some(name@));
                        }
                    }
                    return Some(i);
                }
            },
            None => {},
        }
        i = i + 1;
    }
    None
}

/// The name of a processor.
pub open spec fn cpu_name(cpu: Cpu) -> Option<Seq<char>> {
    match cpu {
        Cpu::Aarch64 => Some("aarch64"@),
        Cpu::X86_64 => Some("x86_64"@),
        Cpu::Other => None,
    }
}

/// Text that may be missing.
pub open spec fn opt_str(s: Option<&str>) -> Option<Seq<char>> {
    match s {
        Some(s) => Some(s@),
        None => None,
    }
}

/// The name of a processor.
pub fn arch_of(cpu: Cpu) -> (r: Option<&'static str>)
    ensures
        opt_str(r) == cpu_name(cpu),
{
    match cpu {
        Cpu::Aarch64 => Some("aarch64"),
        Cpu::X86_64 => Some("x86_64"),
        Cpu::Other => None,
    }
}

/// Why a file gives no image.
#[derive(Clone, Copy, Debug, PartialEq, Eq, Structural)]
pub enum DiskImageError {
    NotMachO,
    NoTextSegment,
    /// A symbol with a name stands at the very end of all addresses.
    SymbolWithoutRoom,
}

/// The name of the segment of the code.
pub open spec fn text_name() -> Seq<char> {
    "__TEXT"@
}

/// `p` is what a file tells of its code, with `text` its segment.
pub open spec fn is_parsed(
    f: MachoHeadView,
    symbols: Seq<FileSymbolView>,
    text: FileSegmentView,
    p: ParsedMachO,
) -> bool {
    &&& p.text_svma == text.address
    &&& p.text_vmsize == text.size
    &&& p.uuid == f.uuid
    &&& opt_str(p.arch) == cpu_name(f.cpu)
    &&& p.is_executable == f.is_executable
    &&& are_spans(symbol_starts(symbols), p.symbols@)
}

/// What becomes of a file.
pub open spec fn is_parse_result(
    head: Option<MachoHeadView>,
    symbols: Option<Seq<FileSymbolView>>,
    r: Result<ParsedMachO, DiskImageError>,
) -> bool {
    match (head, symbols) {
        (Some(f), Some(s)) => match first_segment(f.segments, text_name()) {
            None => r == Err::<ParsedMachO, _>(DiskImageError::NoTextSegment),
            Some(i) => if symbols_have_room(s) {
                r matches Ok(p) && is_parsed(f, s, f.segments[i], p)
            } else {
                r == Err::<ParsedMachO, _>(DiskImageError::SymbolWithoutRoom)
            },
        },
        _ => r == Err::<ParsedMachO, _>(DiskImageError::NotMachO),
    }
}

/// The code of a file, from what was found in it.
pub fn parsed_macho(head: Option<MachoHead>, symbols: Option<Vec<FileSymbol>>) -> (r: Result<
    ParsedMachO,
    DiskImageError,
>)
    ensures
        is_parse_result(
            match head {
                Some(f) => Some(f@),
                None => None,
            },
            match symbols {
                Some(s) => Some(symbol_views(s@)),
                None => None,
            },
            r,
        ),
{
    let (file, symbols) = match (head, symbols) {
        (Some(f), Some(s)) => (f, s),
        _ => {
            return Err(DiskImageError::NotMachO);
        },
    };
    let ghost view = file@;
    let (text_svma, text_vmsize): (u64, u64) = match find_segment(&file.segments, "__TEXT") {
        Some(i) => {
            assert(view.segments[i as int] == segment_view(file.segments@[i as int]));
            (file.segments[i].address, file.segments[i].size)
        },
        None => {
            return Err(DiskImageError::NoTextSegment);
        },
    };
    if !all_have_room(&symbols) {
        return Err(DiskImageError::SymbolWithoutRoom);
    }
    Ok(
        ParsedMachO {
            text_svma,
            text_vmsize,
            uuid: file.uuid,
            arch: arch_of(file.cpu),
            is_executable: file.is_executable,
            symbols: symbols_of(symbols),
        },
    )
}

/// The code of a file, from its bytes.
pub fn parse_disk_macho(bytes: &[u8]) -> (r: Result<ParsedMachO, DiskImageError>)
    ensures
        is_parse_result(macho_in(bytes@), macho_symbols_in(bytes@), r),
{
    parsed_macho(macho_head(bytes), macho_symbols(bytes))
}

/// What the shared library cache tells of an image.
pub struct CachedImage {
    pub text_svma: u64,
    pub text_vmsize: u64,
    pub uuid: Option<[u8; 16]>,
    pub symbols: Vec<MachOSymbol>,
}

/// The larger of two.
pub open spec fn max_of(a: u64, b: u64) -> u64 {
    if a < b {
        b
    } else {
        a
    }
}

/// What was found of an image: its file, and its entry in the shared library cache.
pub struct FoundImage {
    pub disk: Option<ParsedMachO>,
    pub cached: Option<CachedImage>,
}

/// `img` is made of what is known of it: of its file, else of its entry in the shared library
/// cache, which is of this machine's architecture, else of its region alone.
pub open spec fn is_built(
    path: Seq<char>,
    base_avma: u64,
    region_size: u64,
    found: FoundImage,
    host_arch: Option<&'static str>,
    img: LoadedImage,
) -> bool {
    &&& img.path@ == path
    &&& img.base_avma == base_avma
    &&& !img.from_cache
    &&& match found.disk {
        Some(p) => img.vmsize == max_of(p.text_vmsize, region_size) && img.text_svma
            == p.text_svma && img.uuid == p.uuid && img.arch == p.arch && img.is_executable
            == p.is_executable && img.symbols == p.symbols,
        None => match found.cached {
            Some(c) => img.vmsize == max_of(c.text_vmsize, region_size) && img.text_svma
                == c.text_svma && img.uuid == c.uuid && img.arch == host_arch
                && !img.is_executable && img.symbols == c.symbols,
            None => img.vmsize == region_size && img.text_svma == base_avma && img.uuid is None
                && img.arch is None && !img.is_executable && img.symbols@.len() == 0,
        },
    }
}

/// Makes an image of what is known of it.
pub fn build_image(
    path: &str,
    base_avma: u64,
    region_size: u64,
    disk: Option<ParsedMachO>,
    cached: Option<CachedImage>,
    host_arch: Option<&'static str>,
) -> (img: LoadedImage)
    ensures
        is_built(
            path@,
            base_avma,
            region_size,
            FoundImage { disk, cached },
            host_arch,
            img,
        ),
{
    match disk {
        Some(p) => LoadedImage {
            path: path.to_owned(),
            base_avma,
            vmsize: if p.text_vmsize < region_size {
                region_size
            } else {
                p.text_vmsize
            },
            text_svma: p.text_svma,
            uuid: p.uuid,
            arch: p.arch,
            is_executable: p.is_executable,
            symbols: p.symbols,
            from_cache: false,
        },
        None => match cached {
            Some(c) => LoadedImage {
                path: path.to_owned(),
                base_avma,
                vmsize: if c.text_vmsize < region_size {
                    region_size
                } else {
                    c.text_vmsize
                },
                text_svma: c.text_svma,
                uuid: c.uuid,
                arch: host_arch,
                is_executable: false,
                symbols: c.symbols,
                from_cache: false,
            },
            None => LoadedImage {
                path: path.to_owned(),
                base_avma,
                vmsize: region_size,
                text_svma: base_avma,
                uuid: None,
                arch: None,
                is_executable: false,
                symbols: Vec::new(),
                from_cache: false,
            },
        },
    }
}

/// The event of an image that was loaded.
pub fn loaded_event<'a>(pid: u32, img: &'a LoadedImage) -> (e: BinaryLoadedEvent<'a>)
    ensures
        e.pid == pid,
        e.base_avma == img.base_avma,
        e.vmsize == img.vmsize,
        e.text_svma == img.text_svma,
        e.path@ == img.path@,
        e.uuid == img.uuid,
        e.arch == img.arch,
        e.is_executable == img.is_executable,
        e.symbols@ == img.symbols@,
        e.text_bytes is None,
{
    BinaryLoadedEvent {
        pid,
        base_avma: img.base_avma,
        vmsize: img.vmsize,
        text_svma: img.text_svma,
        path: img.path.as_str(),
        uuid: img.uuid,
        arch: img.arch,
        is_executable: img.is_executable,
        symbols: img.symbols.as_slice(),
        text_bytes: None,
    }
}

/// The event of an image that was unloaded.
pub fn unloaded_event<'a>(pid: u32, img: &'a LoadedImage) -> (e: BinaryUnloadedEvent<'a>)
    ensures
        e.pid == pid,
        e.base_avma == img.base_avma,
        e.path@ == img.path@,
{
    BinaryUnloadedEvent { pid, base_avma: img.base_avma, path: img.path.as_str() }
}

/// The region holds code of the image.
pub open spec fn shows(r: Region, path: Seq<char>, base_avma: u64) -> bool {
    r.path@.len() > 0 && r.is_executable && r.path@ == path && r.address == base_avma
}

/// Some region holds code of the image.
pub open spec fn is_shown(regions: Seq<Region>, path: Seq<char>, base_avma: u64) -> bool {
    exists|i: int| 0 <= i < regions.len() && shows(#[trigger] regions[i], path, base_avma)
}

/// The image is known.
pub open spec fn is_known(known: Seq<LoadedImage>, path: Seq<char>, base_avma: u64) -> bool {
    exists|i: int|
        0 <= i < known.len() && (#[trigger] known[i]).path@ == path && known[i].base_avma
            == base_avma
}

/// An image that is shown and not known.
pub struct MissingImage {
    pub path: String,
    pub base_avma: u64,
    pub region_size: u64,
}

/// The model of a [`MissingImage`].
pub struct MissingView {
    pub path: Seq<char>,
    pub base_avma: u64,
    pub region_size: u64,
}

/// The model of a missing image.
pub open spec fn missing_view(m: MissingImage) -> MissingView {
    MissingView { path: m.path@, base_avma: m.base_avma, region_size: m.region_size }
}

/// The models of missing images.
pub open spec fn missing_views(s: Seq<MissingImage>) -> Seq<MissingView> {
    s.map_values(|m: MissingImage| missing_view(m))
}

/// No image is missing twice.
pub open spec fn missing_once(s: Seq<MissingView>) -> bool {
    forall|i: int, j: int|
        0 <= i < j < s.len() ==> (#[trigger] s[i]).path != (#[trigger] s[j]).path
            || s[i].base_avma != s[j].base_avma
}

/// The images that regions show and that are not known, each once, with the size of the
/// first region that shows it.
pub open spec fn missing_of(known: Seq<LoadedImage>, regions: Seq<Region>) -> Seq<MissingView>
    decreases regions.len(),
{
    if regions.len() == 0 {
        seq![]
    } else {
        let before = missing_of(known, regions.drop_last());
        let r = regions.last();
        if r.path@.len() == 0 || !r.is_executable || is_shown(
            regions.drop_last(),
            r.path@,
            r.address,
        ) || is_known(known, r.path@, r.address) {
            before
        } else {
            before.push(MissingView { path: r.path@, base_avma: r.address, region_size: r.size })
        }
    }
}

/// The image is gone: no region shows it, and one would.
pub open spec fn is_gone(regions: Seq<Region>, img: LoadedImage) -> bool {
    !img.from_cache && !is_shown(regions, img.path@, img.base_avma)
}

/// The images that are not gone.
pub open spec fn still_there(known: Seq<LoadedImage>, regions: Seq<Region>) -> Seq<LoadedImage>
    decreases known.len(),
{
    if known.len() == 0 {
        seq![]
    } else if is_gone(regions, known.last()) {
        still_there(known.drop_last(), regions)
    } else {
        still_there(known.drop_last(), regions).push(known.last())
    }
}

/// The images that are gone.
pub open spec fn gone_of(known: Seq<LoadedImage>, regions: Seq<Region>) -> Seq<LoadedImage>
    decreases known.len(),
{
    if known.len() == 0 {
        seq![]
    } else if is_gone(regions, known.last()) {
        gone_of(known.drop_last(), regions).push(known.last())
    } else {
        gone_of(known.drop_last(), regions)
    }
}

/// No image is known twice.
pub open spec fn known_once(known: Seq<LoadedImage>) -> bool {
    forall|i: int, j: int|
        0 <= i < j < known.len() ==> (#[trigger] known[i]).path@ != (#[trigger] known[j]).path@
            || known[i].base_avma != known[j].base_avma
}

/// Whether one of the first `n` regions holds code of the image.
fn shown_within(regions: &Vec<Region>, n: usize, path: &str, base_avma: u64) -> (r: bool)
    requires
        n <= regions@.len(),
    ensures
        r == is_shown(regions@.take(n as int), path@, base_avma),
{
    let ghost rs = regions@.take(n as int);
    let mut i: usize = 0;
    while i < n
        invariant
            i <= n <= regions@.len(),
            rs == regions@.take(n as int),
            forall|j: int| 0 <= j < i ==> !shows(#[trigger] rs[j], path@, base_avma),
        decreases n - i,
    {
        assert(rs[i as int] == regions@[i as int]);
        let region = &regions[i];
        if region.is_executable && region.address == base_avma && region.path.as_str().unicode_len()
            > 0 && same_text(region.path.as_str(), path) {
            assert(shows(rs[i as int], path@, base_avma));
            return true;
        }
        i = i + 1;
    }
    false
}

/// A change among the images, as the sink is told of it.
pub enum ImageChange {
    Unloaded(LoadedImage),
    /// The image stands at `index` among the known ones.
    Loaded { index: usize },
}

/// Images that are gone, as changes.
pub open spec fn unloadings(gone: Seq<LoadedImage>) -> Seq<ImageChange> {
    gone.map_values(|img: LoadedImage| ImageChange::Unloaded(img))
}

/// The `n` images that are known from `first` on, as changes.
pub open spec fn loadings(first: nat, n: nat) -> Seq<ImageChange> {
    Seq::new(n, |i: int| ImageChange::Loaded { index: (first + i) as usize })
}

/// `img` is made of what `find` can give for a missing image.
pub open spec fn is_found<F: Fn(&MissingImage) -> FoundImage>(
    find: F,
    m: MissingView,
    host_arch: Option<&'static str>,
    img: LoadedImage,
) -> bool {
    exists|asked: MissingImage, found: FoundImage| #[trigger]
        call_ensures(find, (&asked,), found) && missing_view(asked) == m && is_built(
            m.path,
            m.base_avma,
            m.region_size,
            found,
            host_arch,
            img,
        )
}

/// The images are made of what `find` can give for the missing ones, one by one.
pub open spec fn are_found<F: Fn(&MissingImage) -> FoundImage>(
    find: F,
    missing: Seq<MissingView>,
    host_arch: Option<&'static str>,
    loaded: Seq<LoadedImage>,
) -> bool {
    loaded.len() == missing.len() && forall|i: int|
        0 <= i < loaded.len() ==> is_found(find, missing[i], host_arch, #[trigger] loaded[i])
}

/// What was read about the loader's list of images.
pub enum DyldRead {
    /// Nothing about the list.
    NoInfo,
    /// Where the list is, and not how long it is.
    NoCount { address: u64 },
    Count { address: u64, count: u32 },
}

/// The images of a target, as of the last look.
pub struct ImageScanner {
    known: Vec<LoadedImage>,
    last_all_image_info_addr: u64,
    last_image_count: u32,
}

impl ImageScanner {
    /// The images that are known, oldest first.
    pub closed spec fn known(self) -> Seq<LoadedImage> {
        self.known@
    }

    /// Where the loader's list was, and how long.
    pub closed spec fn seen(self) -> (u64, u32) {
        (self.last_all_image_info_addr, self.last_image_count)
    }

    /// No image is known twice.
    pub open spec fn wf(self) -> bool {
        known_once(self.known())
    }

    /// Nothing known.
    pub fn new() -> (s: Self)
        ensures
            s.wf(),
            s.known() == Seq::<LoadedImage>::empty(),
            s.seen() == (0u64, 0u32),
    {
        ImageScanner { known: Vec::new(), last_all_image_info_addr: 0, last_image_count: 0 }
    }

    /// Whether the loader's list may have changed since the last time. Where it cannot be
    /// read, it may have.
    pub fn dyld_images_changed(&mut self, read: DyldRead) -> (changed: bool)
        ensures
            final(self).known() == old(self).known(),
            match read {
                DyldRead::NoInfo => changed && final(self).seen() == old(self).seen(),
                DyldRead::NoCount { address } => changed && final(self).seen() == (if address
                    == 0 {
                    old(self).seen()
                } else {
                    (0, old(self).seen().1)
                }),
                DyldRead::Count { address, count } => if address == 0 {
                    changed && final(self).seen() == old(self).seen()
                } else {
                    changed == (old(self).seen() != (address, count)) && final(self).seen() == (
                        address,
                        count,
                    )
                },
            },
    {
        match read {
            DyldRead::NoInfo => true,
            DyldRead::NoCount { address } => {
                if address != 0 {
                    self.last_all_image_info_addr = 0;
                }
                true
            },
            DyldRead::Count { address, count } => {
                if address == 0 {
                    return true;
                }
                let changed = address != self.last_all_image_info_addr || count
                    != self.last_image_count;
                self.last_all_image_info_addr = address;
                self.last_image_count = count;
                changed
            },
        }
    }

    /// Whether an image is known.
    pub fn knows(&self, path: &str, base_avma: u64) -> (r: bool)
        ensures
            r == is_known(self.known(), path@, base_avma),
    {
        let mut i: usize = 0;
        while i < self.known.len()
            invariant
                i <= self.known@.len(),
                forall|j: int|
                    0 <= j < i ==> (#[trigger] self.known@[j]).path@ != path@
                        || self.known@[j].base_avma != base_avma,
            decreases self.known@.len() - i,
        {
            if self.known[i].base_avma == base_avma && same_text(
                self.known[i].path.as_str(),
                path,
            ) {
                assert(self.known@[i as int].path@ == path@);
                return true;
            }
            i = i + 1;
        }
        false
    }

    /// The images that regions show and that are not known.
    pub fn missing(&self, regions: &Vec<Region>) -> (out: Vec<MissingImage>)
        ensures
            missing_views(out@) == missing_of(self.known(), regions@),
    {
        let mut out: Vec<MissingImage> = Vec::new();
        let mut k: usize = 0;
        assert(missing_views(out@) =~= seq![]);
        assert(regions@.take(0) =~= seq![]);
        while k < regions.len()
            invariant
                k <= regions@.len(),
                missing_views(out@) == missing_of(self.known(), regions@.take(k as int)),
            decreases regions@.len() - k,
        {
            proof {
                assert(regions@.take(k + 1).drop_last() =~= regions@.take(k as int));
                assert(regions@.take(k + 1).last() == regions@[k as int]);
            }
            let ghost before = out@;
            let region = &regions[k];
            let path = region.path.as_str();
            if path.unicode_len() > 0 && region.is_executable && !shown_within(
                regions,
                k,
                path,
                region.address,
            ) && !self.knows(path, region.address) {
                out.push(
                    MissingImage {
                        path: path.to_owned(),
                        base_avma: region.address,
                        region_size: region.size,
                    },
                );
                assert(missing_views(out@) =~= missing_views(before).push(
                    MissingView {
                        path: region.path@,
                        base_avma: region.address,
                        region_size: region.size,
                    },
                ));
            }
            k = k + 1;
        }
        assert(regions@.take(k as int) =~= regions@);
        out
    }

    /// Forgets the images that are gone, and returns them.
    pub fn take_gone(&mut self, regions: &Vec<Region>) -> (gone: Vec<LoadedImage>)
        requires
            old(self).wf(),
        ensures
            final(self).wf(),
            final(self).seen() == old(self).seen(),
            final(self).known() == still_there(old(self).known(), regions@),
            gone@ == gone_of(old(self).known(), regions@),
    {
        let ghost given = self.known@;
        let ghost mut k: int = 0;
        let mut gone: Vec<LoadedImage> = Vec::new();
        let mut i: usize = 0;
        assert(given.take(0) =~= seq![]);
        assert(regions@.take(regions@.len() as int) =~= regions@);
        assert(self.known@ =~= still_there(given.take(0), regions@) + given.skip(0));
        while i < self.known.len()
            invariant
                0 <= k <= given.len(),
                given == old(self).known(),
                self.seen() == old(self).seen(),
                regions@.take(regions@.len() as int) == regions@,
                i == still_there(given.take(k), regions@).len(),
                self.known@ == still_there(given.take(k), regions@) + given.skip(k),
                gone@ == gone_of(given.take(k), regions@),
            decreases given.len() - k,
        {
            proof {
                assert(given.take(k + 1).drop_last() =~= given.take(k));
                assert(given.take(k + 1).last() == given[k]);
                assert(self.known@[i as int] == given[k]);
            }
            let img = &self.known[i];
            let is_gone_now = !img.from_cache && !shown_within(
                regions,
                regions.len(),
                img.path.as_str(),
                img.base_avma,
            );
            if is_gone_now {
                let img = self.known.remove(i);
                gone.push(img);
                assert(self.known@ =~= still_there(given.take(k + 1), regions@) + given.skip(
                    k + 1,
                ));
            } else {
                assert(self.known@ =~= still_there(given.take(k + 1), regions@) + given.skip(
                    k + 1,
                ));
                i = i + 1;
            }
            proof {
                k = k + 1;
            }
        }
        proof {
            assert(given.skip(k).len() == 0);
            assert(given.take(k) =~= given);
            assert(self.known@ =~= still_there(given, regions@));
            lemma_still_there(given, regions@);
        }
        gone
    }

    /// Adds an image that was not known.
    pub fn add_image(&mut self, img: LoadedImage)
        requires
            old(self).wf(),
            !is_known(old(self).known(), img.path@, img.base_avma),
        ensures
            final(self).wf(),
            final(self).seen() == old(self).seen(),
            final(self).known() == old(self).known().push(img),
    {
        let ghost before = self.known@;
        self.known.push(img);
        assert forall|i: int, j: int| 0 <= i < j < self.known@.len() implies (
        #[trigger] self.known@[i]).path@ != (#[trigger] self.known@[j]).path@
            || self.known@[i].base_avma != self.known@[j].base_avma by {
            if j == before.len() {
                assert(before[i] == self.known@[i]);
            } else {
                assert(before[i] == self.known@[i] && before[j] == self.known@[j]);
            }
        }
    }
}

impl ImageScanner {
    /// The image at a place among the known ones.
    pub fn image(&self, index: usize) -> (img: Option<&LoadedImage>)
        ensures
            match img {
                Some(i) => index < self.known().len() && *i == self.known()[index as int],
                None => index >= self.known().len(),
            },
    {
        if index < self.known.len() {
            Some(&self.known[index])
        } else {
            None
        }
    }

    /// Looks again: the images that the regions do not show any more are unloaded, then those
    /// that they show and that are not known are loaded, as `find` finds them.
    pub fn rescan<F: Fn(&MissingImage) -> FoundImage>(
        &mut self,
        regions: &Vec<Region>,
        find: F,
        host_arch: Option<&'static str>,
    ) -> (changes: Vec<ImageChange>)
        requires
            old(self).wf(),
            forall|m: &MissingImage| #[trigger] call_requires(find, (m,)),
        ensures
            final(self).wf(),
            final(self).seen() == old(self).seen(),
            exists|loaded: Seq<LoadedImage>|
                #![trigger are_found(find, missing_of(old(self).known(), regions@), host_arch, loaded)]
                are_found(find, missing_of(old(self).known(), regions@), host_arch, loaded)
                    && final(self).known() == still_there(old(self).known(), regions@) + loaded,
            changes@ == unloadings(gone_of(old(self).known(), regions@)) + loadings(
                still_there(old(self).known(), regions@).len(),
                missing_of(old(self).known(), regions@).len(),
            ),
    {
        let ghost known = self.known();
        let missing = self.missing(regions);
        let ghost wanted = missing_of(known, regions@);
        let mut gone = self.take_gone(regions);
        let ghost still = still_there(known, regions@);
        let ghost left = gone_of(known, regions@);
        let mut changes: Vec<ImageChange> = Vec::new();
        let ghost mut told: int = 0;
        assert(left.skip(0) =~= left);
        assert(unloadings(left.take(0)) =~= seq![]);
        while gone.len() > 0
            invariant
                0 <= told <= left.len(),
                gone@ == left.skip(told),
                changes@ == unloadings(left.take(told)),
            decreases left.len() - told,
        {
            let img = gone.remove(0);
            changes.push(ImageChange::Unloaded(img));
            proof {
                assert(gone@ =~= left.skip(told + 1));
                assert(changes@ =~= unloadings(left.take(told + 1)));
                told = told + 1;
            }
        }
        assert(left.take(told) =~= left);
        proof {
            lemma_missing_once(known, regions@);
        }
        let mut k: usize = 0;
        let ghost mut loaded: Seq<LoadedImage> = seq![];
        assert(still + loaded =~= still);
        assert(unloadings(left) + loadings(still.len(), 0) =~= unloadings(left));
        while k < missing.len()
            invariant
                k <= missing@.len(),
                self.wf(),
                self.seen() == old(self).seen(),
                known == old(self).known(),
                wanted == missing_of(known, regions@),
                wanted == missing_views(missing@),
                missing_once(wanted),
                still == still_there(known, regions@),
                left == gone_of(known, regions@),
                known_once(known),
                forall|m: &MissingImage| #[trigger] call_requires(find, (m,)),
                are_found(find, wanted.take(k as int), host_arch, loaded),
                self.known() == still + loaded,
                changes@ == unloadings(left) + loadings(still.len(), k as nat),
            decreases missing@.len() - k,
        {
            let m = &missing[k];
            let ghost w = wanted[k as int];
            assert(w == missing_view(*m));
            proof {
                lemma_missing(known, regions@, w.path, w.base_avma);
                assert(is_missing(wanted, w.path, w.base_avma));
                lemma_still_there(known, regions@);
                assert(!is_known(still + loaded, w.path, w.base_avma)) by {
                    if is_known(still + loaded, w.path, w.base_avma) {
                        let all = still + loaded;
                        let i = choose|i: int|
                            0 <= i < all.len() && (#[trigger] all[i]).path@ == w.path
                                && all[i].base_avma == w.base_avma;
                        if i < still.len() {
                            assert(known.contains(still[i]));
                            let j = choose|j: int| 0 <= j < known.len() && known[j] == still[i];
                            assert(known[j].path@ == w.path);
                        } else {
                            let j = i - still.len();
                            assert(is_found(
                                find,
                                wanted.take(k as int)[j],
                                host_arch,
                                loaded[j],
                            ));
                            assert(wanted[j].path != wanted[k as int].path || wanted[j].base_avma
                                != wanted[k as int].base_avma);
                        }
                    }
                }
            }
            let index: usize = self.known.len();
            let found = find(m);
            let ghost given = found;
            let FoundImage { disk, cached } = found;
            let img = build_image(
                m.path.as_str(),
                m.base_avma,
                m.region_size,
                disk,
                cached,
                host_arch,
            );
            let ghost added = img;
            proof {
                assert(call_ensures(find, (m,), given));
                assert(is_found(find, w, host_arch, added));
            }
            self.add_image(img);
            changes.push(ImageChange::Loaded { index });
            proof {
                let next = loaded.push(added);
                assert forall|i: int| 0 <= i < next.len() implies is_found(
                    find,
                    wanted.take(k + 1)[i],
                    host_arch,
                    #[trigger] next[i],
                ) by {
                    if i < k {
                        assert(next[i] == loaded[i]);
                        assert(wanted.take(k as int)[i] == wanted.take(k + 1)[i]);
                    }
                }
                assert(self.known() =~= still + next);
                assert(changes@ =~= unloadings(left) + loadings(still.len(), (k + 1) as nat));
                loaded = next;
            }
            k = k + 1;
        }
        assert(wanted.take(k as int) =~= wanted);
        changes
    }
}

/// An image is missing once.
proof fn lemma_missing_once(known: Seq<LoadedImage>, regions: Seq<Region>)
    ensures
        missing_once(missing_of(known, regions)),
    decreases regions.len(),
{
    if regions.len() > 0 {
        let init = regions.drop_last();
        let r = regions.last();
        lemma_missing_once(known, init);
        lemma_missing(known, init, r.path@, r.address);
        let before = missing_of(known, init);
        let out = missing_of(known, regions);
        assert forall|i: int, j: int| 0 <= i < j < out.len() implies (#[trigger] out[i]).path != (
        #[trigger] out[j]).path || out[i].base_avma != out[j].base_avma by {
            assert(out[i] == before[i]);
            if j < before.len() {
                assert(out[j] == before[j]);
            } else if out[i].path == out[j].path && out[i].base_avma == out[j].base_avma {
                assert(before[i].path == r.path@);
                assert(is_missing(before, r.path@, r.address));
            }
        }
    }
}

/// What is gone was known once, and is not shown.
proof fn lemma_gone(known: Seq<LoadedImage>, regions: Seq<Region>)
    requires
        known_once(known),
    ensures
        known_once(gone_of(known, regions)),
        forall|i: int|
            0 <= i < gone_of(known, regions).len() ==> known.contains(
                #[trigger] gone_of(known, regions)[i],
            ) && is_gone(regions, gone_of(known, regions)[i]),
        forall|i: int|
            0 <= i < known.len() && is_gone(regions, #[trigger] known[i]) ==> gone_of(
                known,
                regions,
            ).contains(known[i]),
    decreases known.len(),
{
    if known.len() > 0 {
        let init = known.drop_last();
        assert forall|i: int, j: int| 0 <= i < j < init.len() implies (#[trigger] init[i]).path@ != (
        #[trigger] init[j]).path@ || init[i].base_avma != init[j].base_avma by {
            assert(init[i] == known[i] && init[j] == known[j]);
        }
        lemma_gone(init, regions);
        let out = gone_of(known, regions);
        let before = gone_of(init, regions);
        assert forall|i: int| 0 <= i < out.len() implies known.contains(#[trigger] out[i])
            && is_gone(regions, out[i]) by {
            if i < before.len() {
                assert(out[i] == before[i]);
                let k = choose|k: int| 0 <= k < init.len() && init[k] == before[i];
                assert(known[k] == out[i]);
            } else {
                assert(known[known.len() - 1] == out[i]);
            }
        }
        assert forall|i: int, j: int| 0 <= i < j < out.len() implies (#[trigger] out[i]).path@ != (
        #[trigger] out[j]).path@ || out[i].base_avma != out[j].base_avma by {
            assert(out[i] == before[i]);
            if j < before.len() {
                assert(out[j] == before[j]);
            } else {
                assert(init.contains(before[i]));
                let k = choose|k: int| 0 <= k < init.len() && init[k] == before[i];
                assert(known[k] == out[i] && known[known.len() - 1] == out[j]);
            }
        }
        assert forall|i: int| 0 <= i < known.len() && is_gone(regions, #[trigger] known[i]) implies
            out.contains(known[i]) by {
            if i < init.len() {
                assert(init[i] == known[i]);
                let k = choose|k: int| 0 <= k < before.len() && before[k] == init[i];
                assert(out[k] == known[i]);
            } else {
                assert(out[out.len() - 1] == known[i]);
            }
        }
    }
}

/// The law of one look: an image that does not come from the cache is unloaded exactly where
/// it was known and no region shows it, and loaded exactly where some region shows it and it
/// was not known; each once, however many regions show it.
pub proof fn changes_are_told_once(
    known: Seq<LoadedImage>,
    regions: Seq<Region>,
    path: Seq<char>,
    base_avma: u64,
)
    requires
        known_once(known),
        forall|i: int| 0 <= i < known.len() ==> !(#[trigger] known[i]).from_cache,
    ensures
        is_known(gone_of(known, regions), path, base_avma) == (is_known(known, path, base_avma)
            && !is_shown(regions, path, base_avma)),
        is_missing(missing_of(known, regions), path, base_avma) == (is_shown(
            regions,
            path,
            base_avma,
        ) && !is_known(known, path, base_avma)),
        known_once(gone_of(known, regions)),
        missing_once(missing_of(known, regions)),
{
    lemma_gone(known, regions);
    lemma_missing(known, regions, path, base_avma);
    lemma_missing_once(known, regions);
    let gone = gone_of(known, regions);
    if is_known(gone, path, base_avma) {
        let i = choose|i: int|
            0 <= i < gone.len() && (#[trigger] gone[i]).path@ == path && gone[i].base_avma
                == base_avma;
        assert(known.contains(gone[i]));
        let k = choose|k: int| 0 <= k < known.len() && known[k] == gone[i];
        assert(known[k].path@ == path);
        assert(is_gone(regions, gone[i]));
    }
    if is_known(known, path, base_avma) && !is_shown(regions, path, base_avma) {
        let i = choose|i: int|
            0 <= i < known.len() && (#[trigger] known[i]).path@ == path && known[i].base_avma
                == base_avma;
        assert(is_gone(regions, known[i]));
        assert(gone.contains(known[i]));
        let k = choose|k: int| 0 <= k < gone.len() && gone[k] == known[i];
        assert(gone[k].path@ == path);
    }
}

/// The law of a look at what was seen before: where exactly what is known is shown, there are
/// no changes.
pub proof fn unchanged_regions_tell_nothing(known: Seq<LoadedImage>, regions: Seq<Region>)
    requires
        known_once(known),
        forall|i: int| 0 <= i < known.len() ==> !(#[trigger] known[i]).from_cache,
        forall|path: Seq<char>, base_avma: u64| #[trigger]
            is_known(known, path, base_avma) == is_shown(regions, path, base_avma),
    ensures
        gone_of(known, regions).len() == 0,
        missing_of(known, regions).len() == 0,
        still_there(known, regions) == known,
{
    let gone = gone_of(known, regions);
    let missing = missing_of(known, regions);
    if gone.len() > 0 {
        let g = gone[0];
        changes_are_told_once(known, regions, g.path@, g.base_avma);
        assert(is_known(gone, g.path@, g.base_avma));
        assert(is_known(known, g.path@, g.base_avma));
    }
    if missing.len() > 0 {
        let m = missing[0];
        changes_are_told_once(known, regions, m.path, m.base_avma);
        assert(is_missing(missing, m.path, m.base_avma));
        assert(!is_known(known, m.path, m.base_avma));
    }
    lemma_split(known, regions);
}

/// Where nothing is gone, all is still there.
proof fn lemma_split(known: Seq<LoadedImage>, regions: Seq<Region>)
    ensures
        gone_of(known, regions).len() == 0 ==> still_there(known, regions) == known,
    decreases known.len(),
{
    if known.len() > 0 {
        lemma_split(known.drop_last(), regions);
        if gone_of(known, regions).len() == 0 {
            assert(still_there(known, regions) =~= known);
        }
    }
}

/// What is still there is known once, and comes from what was known.
proof fn lemma_still_there(known: Seq<LoadedImage>, regions: Seq<Region>)
    requires
        known_once(known),
    ensures
        known_once(still_there(known, regions)),
        forall|i: int|
            0 <= i < still_there(known, regions).len() ==> known.contains(
                #[trigger] still_there(known, regions)[i],
            ) && !is_gone(regions, still_there(known, regions)[i]),
    decreases known.len(),
{
    if known.len() > 0 {
        let init = known.drop_last();
        assert forall|i: int, j: int| 0 <= i < j < init.len() implies (#[trigger] init[i]).path@ != (
        #[trigger] init[j]).path@ || init[i].base_avma != init[j].base_avma by {
            assert(init[i] == known[i] && init[j] == known[j]);
        }
        lemma_still_there(init, regions);
        let out = still_there(known, regions);
        let before = still_there(init, regions);
        assert forall|i: int| 0 <= i < out.len() implies known.contains(#[trigger] out[i]) by {
            if i < before.len() {
                assert(out[i] == before[i]);
                let k = choose|k: int| 0 <= k < init.len() && init[k] == before[i];
                assert(known[k] == out[i]);
            } else {
                assert(known[known.len() - 1] == out[i]);
            }
        }
        assert forall|i: int, j: int| 0 <= i < j < out.len() implies (#[trigger] out[i]).path@ != (
        #[trigger] out[j]).path@ || out[i].base_avma != out[j].base_avma by {
            assert(out[i] == before[i]);
            if j < before.len() {
                assert(out[j] == before[j]);
            } else {
                assert(init.contains(before[i]));
                let k = choose|k: int| 0 <= k < init.len() && init[k] == before[i];
                assert(known[k] == out[i] && known[known.len() - 1] == out[j]);
            }
        }
    }
}

/// What is still there stays known.
proof fn lemma_stays_known(known: Seq<LoadedImage>, regions: Seq<Region>, i: int)
    requires
        0 <= i < known.len(),
        !is_gone(regions, known[i]),
    ensures
        is_known(still_there(known, regions), known[i].path@, known[i].base_avma),
    decreases known.len(),
{
    let out = still_there(known, regions);
    let before = still_there(known.drop_last(), regions);
    if i == known.len() - 1 {
        assert(out[out.len() - 1] == known[i]);
    } else {
        lemma_stays_known(known.drop_last(), regions, i);
        let k = choose|k: int|
            0 <= k < before.len() && (#[trigger] before[k]).path@ == known[i].path@
                && before[k].base_avma == known[i].base_avma;
        assert(out[k] == before[k]);
    }
}

/// The image is among the missing ones.
pub open spec fn is_missing(missing: Seq<MissingView>, path: Seq<char>, base_avma: u64) -> bool {
    exists|i: int|
        0 <= i < missing.len() && (#[trigger] missing[i]).path == path && missing[i].base_avma
            == base_avma
}

/// What is missing is shown and not known.
proof fn lemma_missing(
    known: Seq<LoadedImage>,
    regions: Seq<Region>,
    path: Seq<char>,
    base_avma: u64,
)
    ensures
        is_missing(missing_of(known, regions), path, base_avma) == (is_shown(
            regions,
            path,
            base_avma,
        ) && !is_known(known, path, base_avma)),
    decreases regions.len(),
{
    if regions.len() > 0 {
        let init = regions.drop_last();
        let last = regions.last();
        lemma_missing(known, init, path, base_avma);
        let before = missing_of(known, init);
        let out = missing_of(known, regions);
        if is_shown(init, path, base_avma) {
            let i = choose|i: int|
                0 <= i < init.len() && shows(#[trigger] init[i], path, base_avma);
            assert(shows(regions[i], path, base_avma));
        }
        if is_shown(regions, path, base_avma) && !shows(last, path, base_avma) {
            let i = choose|i: int|
                0 <= i < regions.len() && shows(#[trigger] regions[i], path, base_avma);
            assert(shows(init[i], path, base_avma));
        }
        if shows(last, path, base_avma) {
            assert(shows(regions[regions.len() - 1], path, base_avma));
        }
        if is_missing(before, path, base_avma) {
            let i = choose|i: int|
                0 <= i < before.len() && (#[trigger] before[i]).path == path
                    && before[i].base_avma == base_avma;
            assert(out[i] == before[i]);
        }
        if is_missing(out, path, base_avma) {
            let i = choose|i: int|
                0 <= i < out.len() && (#[trigger] out[i]).path == path && out[i].base_avma
                    == base_avma;
            if i < before.len() {
                assert(before[i] == out[i]);
            }
        }
        if shows(last, path, base_avma) && !is_shown(init, path, base_avma) && !is_known(
            known,
            path,
            base_avma,
        ) {
            assert(out[out.len() - 1].path == path);
        }
    }
}

/// The law of looking again: once the images that are gone are forgotten and the missing
/// ones are added, an image that does not come from the cache is known exactly where some
/// region shows it.
pub proof fn looking_again_catches_up(
    known: Seq<LoadedImage>,
    regions: Seq<Region>,
    path: Seq<char>,
    base_avma: u64,
)
    requires
        known_once(known),
        forall|i: int| 0 <= i < known.len() ==> !(#[trigger] known[i]).from_cache,
    ensures
        (is_known(still_there(known, regions), path, base_avma) || is_missing(
            missing_of(known, regions),
            path,
            base_avma,
        )) == is_shown(regions, path, base_avma),
{
    lemma_missing(known, regions, path, base_avma);
    lemma_still_there(known, regions);
    let still = still_there(known, regions);
    if is_known(still, path, base_avma) {
        let i = choose|i: int|
            0 <= i < still.len() && (#[trigger] still[i]).path@ == path && still[i].base_avma
                == base_avma;
        assert(known.contains(still[i]));
        let k = choose|k: int| 0 <= k < known.len() && known[k] == still[i];
        assert(!known[k].from_cache);
        assert(!is_gone(regions, still[i]));
    }
    if is_known(known, path, base_avma) && is_shown(regions, path, base_avma) {
        let i = choose|i: int|
            0 <= i < known.len() && (#[trigger] known[i]).path@ == path && known[i].base_avma
                == base_avma;
        lemma_stays_known(known, regions, i);
    }
}

/// The law of symbols: they follow one another, and no two begin at one address.
pub proof fn starts_ascend(s: Seq<FileSymbolView>, i: int, j: int)
    requires
        s.len() <= usize::MAX,
        0 <= i < j < symbol_starts(s).len(),
    ensures
        symbol_starts(s)[i].0 < symbol_starts(s)[j].0,
{
    let named = named_symbols(s);
    lemma_named_len(s);
    let keys = address_keys(named);
    let order = crate::sort::existing_order(keys);
    crate::sort::stable_order_gives_sorted(keys, named, order);
    let sorted = stable_sorted(keys, named);
    assert forall|a: int, b: int| 0 <= a < b < sorted.len() implies sorted[a].0 <= sorted[b].0 by {
        assert(crate::sort::goes_before(keys, order[a] as int, order[b] as int));
        assert(sorted[a] == named[order[a] as int] && sorted[b] == named[order[b] as int]);
    }
    lemma_first_of_each(sorted);
}

/// There are no more named symbols than symbols.
proof fn lemma_named_len(s: Seq<FileSymbolView>)
    ensures
        named_symbols(s).len() <= s.len(),
    decreases s.len(),
{
    if s.len() > 0 {
        lemma_named_len(s.drop_last());
    }
}

/// Of ascending symbols, the first of each address ascend.
proof fn lemma_first_of_each(s: Seq<(u64, Seq<u8>)>)
    requires
        forall|a: int, b: int| 0 <= a < b < s.len() ==> s[a].0 <= s[b].0,
    ensures
        forall|a: int, b: int|
            0 <= a < b < first_of_each(s).len() ==> first_of_each(s)[a].0 < first_of_each(s)[b].0,
        s.len() > 0 ==> first_of_each(s).len() > 0 && first_of_each(s).last().0 == s.last().0,
    decreases s.len(),
{
    if s.len() > 0 {
        let init = s.drop_last();
        assert forall|a: int, b: int| 0 <= a < b < init.len() implies init[a].0 <= init[b].0 by {
            assert(init[a] == s[a] && init[b] == s[b]);
        }
        lemma_first_of_each(init);
        let before = first_of_each(init);
        if before.len() > 0 && before.last().0 != s.last().0 {
            assert(init.last() == s[s.len() - 2]);
            assert(init.last().0 <= s.last().0);
            let out = first_of_each(s);
            assert forall|a: int, b: int| 0 <= a < b < out.len() implies out[a].0 < out[b].0 by {
                if b == before.len() && a < b - 1 {
                    assert(before[a].0 < before[b - 1].0);
                }
            }
        }
    }
}

/// The law of named symbols: those with an address and a name are taken, in their order.
pub proof fn symbols_with_names_are_taken(s: Seq<FileSymbolView>)
    ensures
        named_symbols(s) == s.filter(
            |f: FileSymbolView| f.address != 0 && f.name is Some && f.name->0.len() > 0,
        ).map_values(|f: FileSymbolView| (f.address, f.name->0)),
    decreases s.len(),
{
    reveal(Seq::filter);
    let named = |f: FileSymbolView| f.address != 0 && f.name is Some && f.name->0.len() > 0;
    let pair = |f: FileSymbolView| (f.address, f.name->0);
    if s.len() > 0 {
        let init = s.drop_last();
        symbols_with_names_are_taken(init);
        assert(s.filter(named).map_values(pair) =~= if named(s.last()) {
            init.filter(named).map_values(pair).push(pair(s.last()))
        } else {
            init.filter(named).map_values(pair)
        });
    } else {
        assert(s.filter(named).map_values(pair) =~= seq![]);
    }
}

/// Where the address before is another one, an entry is the first of its address.
proof fn lemma_first_is_kept(s: Seq<(u64, Seq<u8>)>, x: int)
    requires
        0 <= x < s.len(),
        forall|a: int, b: int| 0 <= a < b < s.len() ==> s[a].0 <= s[b].0,
        x > 0 ==> s[x - 1].0 != s[x].0,
    ensures
        first_of_each(s).contains(s[x]),
    decreases s.len(),
{
    let init = s.drop_last();
    let before = first_of_each(init);
    let out = first_of_each(s);
    assert forall|a: int, b: int| 0 <= a < b < init.len() implies init[a].0 <= init[b].0 by {
        assert(init[a] == s[a] && init[b] == s[b]);
    }
    lemma_first_of_each(init);
    if x < init.len() {
        assert(init[x] == s[x]);
        if x > 0 {
            assert(init[x - 1] == s[x - 1]);
        }
        lemma_first_is_kept(init, x);
        let i = choose|i: int| 0 <= i < before.len() && before[i] == init[x];
        assert(out[i] == s[x]);
    } else {
        if before.len() > 0 {
            assert(before.last().0 == init.last().0);
            assert(init.last() == s[x - 1]);
        }
        assert(out[out.len() - 1] == s[x]);
    }
}

/// What is first of its address was there.
proof fn lemma_first_was_there(s: Seq<(u64, Seq<u8>)>, i: int) -> (x: int)
    requires
        0 <= i < first_of_each(s).len(),
    ensures
        0 <= x < s.len(),
        first_of_each(s)[i] == s[x],
    decreases s.len(),
{
    let before = first_of_each(s.drop_last());
    if i < before.len() {
        let x = lemma_first_was_there(s.drop_last(), i);
        assert(s.drop_last()[x] == s[x]);
        x
    } else {
        s.len() - 1
    }
}

/// The law of starts: the first symbol with a name at an address begins there under that name, and
/// nothing begins where no symbol with a name is.
pub proof fn first_names_stand(s: Seq<FileSymbolView>, a: int, i: int)
    requires
        s.len() <= usize::MAX,
        0 <= a < named_symbols(s).len(),
        forall|b: int| 0 <= b < a ==> (#[trigger] named_symbols(s)[b]).0 != named_symbols(s)[a].0,
        0 <= i < symbol_starts(s).len(),
    ensures
        symbol_starts(s).contains(named_symbols(s)[a]),
        named_symbols(s).contains(symbol_starts(s)[i]),
{
    let named = named_symbols(s);
    lemma_named_len(s);
    let keys = address_keys(named);
    let order = crate::sort::existing_order(keys);
    crate::sort::stable_order_gives_sorted(keys, named, order);
    let sorted = stable_sorted(keys, named);
    assert forall|p: int, q: int| 0 <= p < q < sorted.len() implies sorted[p].0 <= sorted[q].0 by {
        assert(crate::sort::goes_before(keys, order[p] as int, order[q] as int));
        assert(sorted[p] == named[order[p] as int] && sorted[q] == named[order[q] as int]);
    }
    crate::sort::order_lists_every_position(keys, order, a);
    let x = choose|x: int| 0 <= x < order.len() && order[x] == a;
    assert(sorted[x] == named[a]);
    if x > 0 {
        assert(crate::sort::goes_before(keys, order[x - 1] as int, order[x] as int));
        assert(sorted[x - 1] == named[order[x - 1] as int]);
        if sorted[x - 1].0 == sorted[x].0 {
            assert(order[x - 1] < a);
            assert(named[order[x - 1] as int].0 != named[a].0);
        }
    }
    lemma_first_is_kept(sorted, x);
    let y = lemma_first_was_there(sorted, i);
    assert(sorted[y] == named[order[y] as int]);
    assert(order[y] < named.len());
}

/// The law of symbol ranges: each symbol ends where the next one begins, so that none lies between
/// them; the last is four bytes long.
pub proof fn symbols_end_where_the_next_begins(
    s: Seq<FileSymbolView>,
    out: Seq<MachOSymbol>,
    i: int,
)
    requires
        are_spans(symbol_starts(s), out),
        0 <= i < out.len(),
    ensures
        out.len() == symbol_starts(s).len(),
        (out[i].start_svma, out[i].name@) == symbol_starts(s)[i],
        i + 1 < out.len() ==> out[i].end_svma == out[i + 1].start_svma,
        i + 1 == out.len() ==> out[i].end_svma == out[i].start_svma + 4,
{
}

/// The law of images to load: every one that a region shows and that was not known is told of with the
/// size of the first region that shows it, in the order of the regions.
pub proof fn missing_images_are_told(known: Seq<LoadedImage>, regions: Seq<Region>, k: int)
    requires
        0 <= k < regions.len(),
        regions[k].path@.len() > 0,
        regions[k].is_executable,
        forall|j: int|
            0 <= j < k ==> !((#[trigger] regions[j]).path@ == regions[k].path@ && regions[j].address
                == regions[k].address && regions[j].is_executable),
        forall|j: int|
            0 <= j < known.len() ==> !((#[trigger] known[j]).path@ == regions[k].path@
                && known[j].base_avma == regions[k].address),
    ensures
        missing_of(known, regions).contains(
            MissingView {
                path: regions[k].path@,
                base_avma: regions[k].address,
                region_size: regions[k].size,
            },
        ),
    decreases regions.len(),
{
    let init = regions.drop_last();
    let before = missing_of(known, init);
    let out = missing_of(known, regions);
    let m = MissingView {
        path: regions[k].path@,
        base_avma: regions[k].address,
        region_size: regions[k].size,
    };
    if k < init.len() {
        assert(init[k] == regions[k]);
        assert forall|j: int| 0 <= j < k implies !((#[trigger] init[j]).path@ == init[k].path@
            && init[j].address == init[k].address && init[j].is_executable) by {
            assert(init[j] == regions[j]);
        }
        missing_images_are_told(known, init, k);
        let i = choose|i: int| 0 <= i < before.len() && before[i] == m;
        assert(out[i] == m);
    } else {
        assert(!is_shown(init, regions[k].path@, regions[k].address)) by {
            assert forall|j: int| 0 <= j < init.len() implies !shows(
                #[trigger] init[j],
                regions[k].path@,
                regions[k].address,
            ) by {
                assert(init[j] == regions[j]);
            }
        }
        assert(!is_known(known, regions[k].path@, regions[k].address));
        assert(out[out.len() - 1] == m);
    }
}

/// The law of files: an image file tells where its code was linked by the first segment of that name,
/// and its identifier, its architecture and whether it can be run by its head; without that segment, or
/// where it is no image at all, it is refused.
pub proof fn files_tell_where_their_code_is(
    f: MachoHeadView,
    s: Seq<FileSymbolView>,
    r: Result<ParsedMachO, DiskImageError>,
    i: int,
)
    requires
        is_parse_result(Some(f), Some(s), r),
        forall|k: int| 0 <= k < s.len() ==> (#[trigger] s[k]).address <= u64::MAX - 4,
    ensures
        0 <= i < f.segments.len() && f.segments[i].name == Some("__TEXT"@) && (forall|j: int|
            0 <= j < i ==> (#[trigger] f.segments[j]).name != Some("__TEXT"@)) ==> {
            &&& r matches Ok(p)
            &&& p.text_svma == f.segments[i].address
            &&& p.text_vmsize == f.segments[i].size
            &&& p.uuid == f.uuid
            &&& p.is_executable == f.is_executable
            &&& f.cpu is Aarch64 ==> p.arch is Some && p.arch->0@ == "aarch64"@
            &&& f.cpu is X86_64 ==> p.arch is Some && p.arch->0@ == "x86_64"@
            &&& f.cpu is Other ==> p.arch is None
            &&& p.symbols@.len() == symbol_starts(s).len()
        },
        (forall|j: int|
            0 <= j < f.segments.len() ==> (#[trigger] f.segments[j]).name != Some("__TEXT"@)) ==> r
            == Err::<ParsedMachO, _>(DiskImageError::NoTextSegment),
{
    lemma_room(s);
    let g = f.segments;
    if 0 <= i < g.len() && g[i].name == Some("__TEXT"@) && (forall|j: int|
        0 <= j < i ==> (#[trigger] g[j]).name != Some("__TEXT"@)) {
        assert(is_first_segment(g, text_name(), i));
        let m = choose|m: int| is_first_segment(g, text_name(), m);
        assert(is_first_segment(g, text_name(), m));
        if m < i {
            assert(g[m].name != Some("__TEXT"@));
        } else if i < m {
            assert(g[i].name != Some(text_name()));
        }
    }
    if forall|j: int| 0 <= j < g.len() ==> (#[trigger] g[j]).name != Some("__TEXT"@) {
        assert forall|m: int| !is_first_segment(g, text_name(), m) by {
            if 0 <= m < g.len() {
                assert(g[m].name != Some("__TEXT"@));
            }
        }
    }
}

/// Symbols that all have room have it under their names.
proof fn lemma_room(s: Seq<FileSymbolView>)
    requires
        forall|k: int| 0 <= k < s.len() ==> (#[trigger] s[k]).address <= u64::MAX - 4,
    ensures
        symbols_have_room(s),
    decreases s.len(),
{
    if s.len() > 0 {
        let init = s.drop_last();
        assert forall|k: int| 0 <= k < init.len() implies (#[trigger] init[k]).address <= u64::MAX
            - 4 by {
            assert(init[k] == s[k]);
        }
        lemma_room(init);
        assert(s[s.len() - 1].address <= u64::MAX - 4);
        let named = named_symbols(s);
        let before = named_symbols(init);
        assert forall|i: int| 0 <= i < named.len() implies (#[trigger] named[i]).0 <= u64::MAX
            - 4 by {
            if i < before.len() {
                assert(named[i] == before[i]);
            }
        }
    }
}

/// The law of built images: what the file says goes before what the cache says; the size is at least
/// that of the region, and an image that nothing is known of spans its region.
pub proof fn files_go_before_the_cache(
    path: Seq<char>,
    base_avma: u64,
    region_size: u64,
    found: FoundImage,
    host_arch: Option<&'static str>,
    img: LoadedImage,
)
    requires
        is_built(path, base_avma, region_size, found, host_arch, img),
    ensures
        img.path@ == path,
        img.base_avma == base_avma,
        img.vmsize >= region_size,
        found.disk matches Some(p) ==> img.vmsize >= p.text_vmsize && (img.vmsize == p.text_vmsize
            || img.vmsize == region_size) && img.text_svma == p.text_svma && img.uuid == p.uuid
            && img.arch == p.arch && img.is_executable == p.is_executable && img.symbols@
            == p.symbols@,
        found.disk is None && found.cached is Some ==> img.text_svma == found.cached->0.text_svma
            && img.uuid == found.cached->0.uuid && img.vmsize >= found.cached->0.text_vmsize
            && img.arch == host_arch && !img.is_executable && img.symbols@
            == found.cached->0.symbols@,
        found.disk is None && found.cached is None ==> img.vmsize == region_size && img.text_svma
            == base_avma && img.symbols@.len() == 0 && img.uuid is None,
{
}

/// The law of told changes: first every image that is gone, then every one that is new, by its place
/// among those that are known.
pub proof fn changes_name_their_images(gone: Seq<LoadedImage>, first: nat, n: nat, i: int)
    requires
        first + n <= usize::MAX,
        0 <= i < gone.len() + n,
    ensures
        ({
            let all = unloadings(gone) + loadings(first, n);
            &&& all.len() == gone.len() + n
            &&& i < gone.len() ==> all[i] == ImageChange::Unloaded(gone[i])
            &&& i >= gone.len() ==> (all[i] matches ImageChange::Loaded { index } && index == first
                + (i - gone.len()))
        }),
{
}

} // verus!
