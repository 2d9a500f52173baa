//! The images that a target has loaded: which one covers an address, which
//! symbol it falls into, and where the bytes of that function come from.
use std::sync::Arc;
use vstd::prelude::*;
use vstd::slice::slice_subrange;

use crate::sort::{
    ascending, ascending_key, goes_before, is_reordering, is_stable_order,
    order_lists_every_position, sort_by_keys, sorted_by, stable_order, NumKey, Order,
};
use crate::text::{hex, hex_prefixed, opt_text, push_hex_prefixed, same_text};

verus! {

/// The language tag of a name that nothing is known about.
pub const UNKNOWN_LANGUAGE: &'static str = "unknown";

/// One symbol of an image, with its raw name and with the name and the language
/// that readers are shown.
pub struct LiveSymbolOwned {
    pub start_svma: u64,
    pub end_svma: u64,
    pub name: Vec<u8>,
    pub function_name: String,
    pub language: String,
}

/// One image mapped into the target.
pub struct LoadedBinary {
    pub path: String,
    pub base_avma: u64,
    pub avma_end: u64,
    pub text_svma: u64,
    pub arch: Option<String>,
    /// The target's main executable, as opposed to every other image.
    pub is_executable: bool,
    pub symbols: Vec<LiveSymbolOwned>,
    /// The bytes of the code, where they came along with the load event.
    pub text_bytes: Option<Vec<u8>>,
}

/// The bytes of an image on disk with its table of segments.
pub struct CodeImage {
    pub bytes: Arc<Vec<u8>>,
    pub segments: Vec<CodeSegment>,
}

/// One segment: where it is mapped, and where its bytes stand in the file.
#[derive(Clone, Copy, Debug, PartialEq, Eq, Structural)]
pub struct CodeSegment {
    pub address: u64,
    pub size: u64,
    pub file_offset: u64,
    pub file_size: u64,
}

impl CodeSegment {
    /// The segment holds the `len` addresses from `start` on.
    pub open spec fn holds(self, start: int, len: int) -> bool {
        self.address <= start && start + len <= self.address + self.size
    }

    /// Where the byte of address `start` stands in the file.
    pub open spec fn file_position(self, start: int) -> int {
        self.file_offset + (start - self.address)
    }
}

impl CodeImage {
    /// The first segment that decides a fetch: the one that holds the addresses,
    /// or one before it whose end is beyond the address space.
    pub open spec fn deciding_segment(self, start: int, len: int, i: int) -> bool {
        let s = self.segments@;
        &&& 0 <= i < s.len()
        &&& s[i].address + s[i].size > u64::MAX || s[i].holds(start, len)
        &&& forall|j: int| #![trigger s[j]] 0 <= j < i ==> s[j].address + s[j].size <= u64::MAX && !s[j].holds(start, len)
    }

    /// The bytes of the `len` addresses from `start` on, as the file has them.
    pub open spec fn bytes_at(self, start: int, len: int) -> Option<Seq<u8>> {
        if exists|i: int| self.deciding_segment(start, len, i) {
            let i = choose|i: int| self.deciding_segment(start, len, i);
            let seg = self.segments@[i];
            let at = seg.file_position(start);
            if start + len > u64::MAX || seg.address + seg.size > u64::MAX {
                None
            } else if start - seg.address + len > seg.file_size {
                None
            } else if at + len > self.bytes@.len() {
                None
            } else {
                Some(self.bytes@.subrange(at, at + len))
            }
        } else {
            None
        }
    }

    /// The bytes of the `len` addresses from `start_svma` on. Nothing comes back
    /// where no segment holds them all, where the file does not have them all,
    /// or where a segment before the one that holds them has no end.
    pub fn fetch(&self, start_svma: u64, len: usize) -> (r: Option<&[u8]>)
        ensures
            match r {
                Some(b) => self.bytes_at(start_svma as int, len as int) == Some(b@),
                None => self.bytes_at(start_svma as int, len as int) is None,
            },
    {
        if len as u64 > u64::MAX - start_svma {
            return None;
        }
        let end: u64 = start_svma + len as u64;
        let mut i: usize = 0;
        while i < self.segments.len()
            invariant
                i <= self.segments@.len(),
                end == start_svma + len,
                forall|j: int| #![trigger self.segments@[j]]
                    0 <= j < i ==> self.segments@[j].address + self.segments@[j].size <= u64::MAX
                        && !self.segments@[j].holds(start_svma as int, len as int),
            decreases self.segments@.len() - i,
        {
            let seg = self.segments[i];
            proof {
                if seg.address + seg.size > u64::MAX || seg.holds(start_svma as int, len as int) {
                    self.deciding_segment_is_unique(start_svma as int, len as int, i as int);
                }
            }
            if seg.size > u64::MAX - seg.address {
                return None;
            }
            let seg_end: u64 = seg.address + seg.size;
            if seg.address <= start_svma && end <= seg_end {
                let in_segment: u64 = start_svma - seg.address;
                if in_segment + len as u64 > seg.file_size {
                    return None;
                }
                let image: &Vec<u8> = &self.bytes;
                let available: usize = image.len();
                assert(self.deciding_segment(start_svma as int, len as int, i as int));
                if in_segment > u64::MAX - seg.file_offset || seg.file_offset + in_segment
                    > available as u64 {
                    return None;
                }
                let file_off: usize = (seg.file_offset + in_segment) as usize;
                if len > available - file_off {
                    return None;
                }
                return Some(slice_subrange(image.as_slice(), file_off, file_off + len));
            }
            i = i + 1;
        }
        None
    }

    /// One segment at most decides a fetch.
    proof fn deciding_segment_is_unique(self, start: int, len: int, i: int)
        requires
            self.deciding_segment(start, len, i),
        ensures
            i == choose|k: int| self.deciding_segment(start, len, k),
    {
        let k = choose|k: int| self.deciding_segment(start, len, k);
        if k < i {
            assert(self.segments@[k].address + self.segments@[k].size <= u64::MAX);
        } else if i < k {
            assert(self.segments@[i].address + self.segments@[i].size <= u64::MAX);
        }
    }
}

/// What readers are shown of a symbol.
pub struct ResolvedSymbol {
    pub function_name: String,
    pub binary: String,
    pub is_main: bool,
    pub language: String,
}

/// The model of a [`ResolvedSymbol`].
pub struct SymbolInfo {
    pub function_name: Seq<char>,
    pub binary: Seq<char>,
    pub is_main: bool,
    pub language: Seq<char>,
}

impl View for ResolvedSymbol {
    type V = SymbolInfo;

    open spec fn view(&self) -> SymbolInfo {
        SymbolInfo {
            function_name: self.function_name@,
            binary: self.binary@,
            is_main: self.is_main,
            language: self.language@,
        }
    }
}

/// The model of an optional [`ResolvedSymbol`].
pub open spec fn opt_symbol(r: Option<ResolvedSymbol>) -> Option<SymbolInfo> {
    match r {
        Some(s) => Some(s@),
        None => None,
    }
}

/// The part of a path behind its last slash.
pub open spec fn base_name(path: Seq<char>) -> Seq<char>
    decreases path.len(),
{
    if path.len() == 0 {
        path
    } else if path.last() == '/' {
        seq![]
    } else {
        base_name(path.drop_last()).push(path.last())
    }
}

/// The part of a path behind its last slash.
pub fn short_path(path: &str) -> (s: String)
    ensures
        s@ == base_name(path@),
{
    let n: usize = path.unicode_len();
    let mut start: usize = 0;
    let mut i: usize = 0;
    assert(path@.subrange(0, 0) =~= seq![]);
    for c in it: path.chars()
        invariant
            i == it.index(),
            it.seq() == path@,
            n == path@.len(),
            start <= i <= n,
            base_name(path@.subrange(0, i as int)) == path@.subrange(start as int, i as int),
    {
        proof {
            assert(c == path@[i as int]);
            assert(path@.subrange(0, i + 1).drop_last() =~= path@.subrange(0, i as int));
            assert(path@.subrange(0, i + 1).last() == c);
        }
        i = i + 1;
        if c == '/' {
            start = i;
            assert(path@.subrange(i as int, i as int) =~= seq![]);
        } else {
            assert(path@.subrange(start as int, i as int) =~= path@.subrange(
                start as int,
                i - 1,
            ).push(c));
        }
    }
    assert(path@.subrange(0, n as int) =~= path@);
    path.substring_char(start, n).to_owned()
}

/// The address of `address` in the layout that the linker gave the image.
pub open spec fn svma_of(base_avma: u64, text_svma: u64, address: u64) -> u64 {
    address.wrapping_sub(base_avma).wrapping_add(text_svma)
}

/// The address at which `svma` of the image is mapped.
pub open spec fn avma_of(base_avma: u64, text_svma: u64, svma: u64) -> u64 {
    svma.wrapping_sub(text_svma).wrapping_add(base_avma)
}

/// The address of `address` in the layout that the linker gave the image.
pub fn svma_for(binary: &LoadedBinary, address: u64) -> (svma: u64)
    ensures
        svma == svma_of(binary.base_avma, binary.text_svma, address),
{
    address.wrapping_sub(binary.base_avma).wrapping_add(binary.text_svma)
}

/// The address at which `svma` of the image is mapped.
pub fn avma_for_svma(base_avma: u64, text_svma: u64, svma: u64) -> (avma: u64)
    ensures
        avma == avma_of(base_avma, text_svma, svma),
{
    svma.wrapping_sub(text_svma).wrapping_add(base_avma)
}

/// Translating an address into the linker's layout and back gives the address.
pub proof fn svma_round_trip(base_avma: u64, text_svma: u64, address: u64)
    ensures
        avma_of(base_avma, text_svma, svma_of(base_avma, text_svma, address)) == address,
        svma_of(base_avma, text_svma, avma_of(base_avma, text_svma, address)) == address,
{
}

/// The symbols are in the order of their start addresses.
pub open spec fn symbols_sorted(s: Seq<LiveSymbolOwned>) -> bool {
    forall|i: int, j: int| 0 <= i < j < s.len() ==> #[trigger] s[i].start_svma <= #[trigger] s[j].start_svma
}

/// `i` is the last symbol that starts at `svma` or before it.
pub open spec fn is_last_start(s: Seq<LiveSymbolOwned>, svma: u64, i: int) -> bool {
    &&& 0 <= i < s.len()
    &&& s[i].start_svma <= svma
    &&& forall|j: int| i < j < s.len() ==> #[trigger] s[j].start_svma > svma
}

/// The symbol that covers `svma`: the last one that starts at or before it,
/// provided that it has not ended there.
pub open spec fn symbol_covering(s: Seq<LiveSymbolOwned>, svma: u64) -> Option<int> {
    if exists|i: int| is_last_start(s, svma, i) {
        let i = choose|i: int| is_last_start(s, svma, i);
        if svma < s[i].end_svma {
            Some(i)
        } else {
            None
        }
    } else {
        None
    }
}

/// The symbol that covers `svma`, by binary search.
fn find_symbol(symbols: &Vec<LiveSymbolOwned>, svma: u64) -> (r: Option<usize>)
    requires
        symbols_sorted(symbols@),
    ensures
        match r {
            Some(i) => symbol_covering(symbols@, svma) == Some(i as int) && i < symbols@.len(),
            None => symbol_covering(symbols@, svma) is None,
        },
{
    let mut lo: usize = 0;
    let mut hi: usize = symbols.len();
    while lo < hi
        invariant
            lo <= hi <= symbols@.len(),
            symbols_sorted(symbols@),
            forall|j: int| 0 <= j < lo ==> #[trigger] symbols@[j].start_svma <= svma,
            forall|j: int| hi <= j < symbols@.len() ==> #[trigger] symbols@[j].start_svma > svma,
        decreases hi - lo,
    {
        let mid: usize = lo + (hi - lo) / 2;
        if symbols[mid].start_svma <= svma {
            lo = mid + 1;
        } else {
            hi = mid;
        }
    }
    if lo == 0 {
        assert(forall|i: int| !is_last_start(symbols@, svma, i));
        return None;
    }
    proof {
        let s = symbols@;
        assert(is_last_start(s, svma, lo - 1));
        let i = choose|i: int| is_last_start(s, svma, i);
        assert(is_last_start(s, svma, i));
        if i < lo - 1 {
            assert(s[lo - 1].start_svma > svma);
        }
    }
    if svma < symbols[lo - 1].end_svma {
        Some(lo - 1)
    } else {
        None
    }
}

/// `i` is the image with the highest base at or below `address`.
pub open spec fn is_nearest_base(b: Seq<LoadedBinary>, address: u64, i: int) -> bool {
    &&& 0 <= i < b.len()
    &&& b[i].base_avma <= address
    &&& forall|j: int| 0 <= j < b.len() && #[trigger] b[j].base_avma <= address ==> b[j].base_avma <= b[i].base_avma
}

/// The image that covers `address`: the one with the highest base at or below it,
/// provided that it has not ended there.
pub open spec fn binary_covering(b: Seq<LoadedBinary>, address: u64) -> Option<int> {
    if exists|i: int| is_nearest_base(b, address, i) {
        let i = choose|i: int| is_nearest_base(b, address, i);
        if address < b[i].avma_end {
            Some(i)
        } else {
            None
        }
    } else {
        None
    }
}

/// The label of an address that no symbol covers: image and offset.
pub open spec fn offset_label(binary: Seq<char>, svma: u64) -> Seq<char> {
    binary + "+"@ + hex_prefixed(svma as nat)
}

/// The label of an address that no symbol covers.
pub(crate) fn make_offset_label(binary: &str, svma: u64) -> (s: String)
    ensures
        s@ == offset_label(binary@, svma),
{
    let mut s = binary.to_owned();
    s.append("+");
    push_hex_prefixed(&mut s, svma);
    s
}

/// What readers are shown of the code at `svma` in an image.
pub open spec fn symbol_in(
    path: Seq<char>,
    is_main: bool,
    symbol: Option<LiveSymbolOwned>,
    svma: u64,
) -> SymbolInfo {
    match symbol {
        Some(s) => SymbolInfo {
            function_name: s.function_name@,
            binary: base_name(path),
            is_main,
            language: s.language@,
        },
        None => SymbolInfo {
            function_name: offset_label(base_name(path), svma),
            binary: base_name(path),
            is_main,
            language: UNKNOWN_LANGUAGE@,
        },
    }
}

/// One image of a shared library cache, as mapped.
pub struct CacheImage {
    pub install_name: String,
    pub runtime_avma: u64,
    pub avma_end: u64,
    pub text_svma: u64,
    /// In the order of the symbol table, which need not be that of the addresses.
    pub symbols: Vec<LiveSymbolOwned>,
}

/// `i` is the first image of the cache that covers `address`.
pub open spec fn is_cache_image(c: Seq<CacheImage>, address: u64, i: int) -> bool {
    &&& 0 <= i < c.len()
    &&& c[i].runtime_avma <= address < c[i].avma_end
    &&& forall|j: int| #![trigger c[j]] 0 <= j < i ==> !(c[j].runtime_avma <= address < c[j].avma_end)
}

/// `i` is the first symbol that covers `svma`.
pub open spec fn is_first_cover(s: Seq<LiveSymbolOwned>, svma: u64, i: int) -> bool {
    &&& 0 <= i < s.len()
    &&& s[i].start_svma <= svma < s[i].end_svma
    &&& forall|j: int| #![trigger s[j]] 0 <= j < i ==> !(s[j].start_svma <= svma < s[j].end_svma)
}

/// The first symbol that covers `svma`.
pub open spec fn first_cover(s: Seq<LiveSymbolOwned>, svma: u64) -> Option<int> {
    if exists|i: int| is_first_cover(s, svma, i) {
        Some(choose|i: int| is_first_cover(s, svma, i))
    } else {
        None
    }
}

/// The first symbol that covers `svma`, by a walk through all of them.
pub(crate) fn find_first_cover(symbols: &Vec<LiveSymbolOwned>, svma: u64) -> (r: Option<usize>)
    ensures
        match r {
            Some(i) => first_cover(symbols@, svma) == Some(i as int) && i < symbols@.len(),
            None => first_cover(symbols@, svma) is None,
        },
{
    let mut i: usize = 0;
    while i < symbols.len()
        invariant
            i <= symbols@.len(),
            forall|j: int| #![trigger symbols@[j]]
                0 <= j < i ==> !(symbols@[j].start_svma <= svma < symbols@[j].end_svma),
        decreases symbols@.len() - i,
    {
        if symbols[i].start_svma <= svma && svma < symbols[i].end_svma {
            proof {
                assert(is_first_cover(symbols@, svma, i as int));
                let k = choose|k: int| is_first_cover(symbols@, svma, k);
                assert(is_first_cover(symbols@, svma, k));
                if k < i {
                    assert(!(symbols@[k].start_svma <= svma < symbols@[k].end_svma));
                } else if i < k {
                    assert(!(symbols@[i as int].start_svma <= svma < symbols@[i as int].end_svma));
                }
            }
            return Some(i);
        }
        i = i + 1;
    }
    None
}

/// What the cache knows of `address`.
pub open spec fn cache_symbol_at(c: Seq<CacheImage>, address: u64) -> Option<SymbolInfo> {
    if exists|i: int| is_cache_image(c, address, i) {
        let img = c[choose|i: int| is_cache_image(c, address, i)];
        let svma = svma_of(img.runtime_avma, img.text_svma, address);
        Some(
            symbol_in(
                img.install_name@,
                false,
                match first_cover(img.symbols@, svma) {
                    Some(k) => Some(img.symbols@[k]),
                    None => None,
                },
                svma,
            ),
        )
    } else {
        None
    }
}

/// The images that a target has loaded.
pub struct BinaryRegistry {
    /// In the order in which they were inserted.
    by_base: Vec<LoadedBinary>,
    /// The positions of `by_base` in the order of their bases.
    by_base_index: Vec<usize>,
    /// The architecture of the first image that named one.
    dyld_arch: Option<String>,
    target_pid: Option<u32>,
    target_task_port: Option<u64>,
    shared_cache: Option<Vec<CacheImage>>,
}

/// The keys by which the images are found.
pub open spec fn base_keys(b: Seq<LoadedBinary>) -> Seq<NumKey> {
    b.map_values(|x: LoadedBinary| ascending(x.base_avma))
}

/// The keys by which the symbols of an image are sorted.
pub open spec fn start_keys(s: Seq<LiveSymbolOwned>) -> Seq<NumKey> {
    s.map_values(|x: LiveSymbolOwned| ascending(x.start_svma))
}

/// The images without the one at `base`.
pub open spec fn without_base(b: Seq<LoadedBinary>, base: u64) -> Seq<LoadedBinary>
    decreases b.len(),
{
    if b.len() == 0 {
        b
    } else if b.last().base_avma == base {
        without_base(b.drop_last(), base)
    } else {
        without_base(b.drop_last(), base).push(b.last())
    }
}

/// `stored` is the image `given` with its symbols sorted.
pub open spec fn is_stored_form(given: LoadedBinary, stored: LoadedBinary) -> bool {
    &&& stored.path == given.path
    &&& stored.base_avma == given.base_avma
    &&& stored.avma_end == given.avma_end
    &&& stored.text_svma == given.text_svma
    &&& stored.arch == given.arch
    &&& stored.is_executable == given.is_executable
    &&& stored.text_bytes == given.text_bytes
    &&& sorted_by(start_keys(given.symbols@), given.symbols@, stored.symbols@)
}

/// The registry knows nothing of the images' names or bytes that a symbol could
/// contradict: bases are distinct and symbols are sorted.
pub open spec fn images_wf(b: Seq<LoadedBinary>) -> bool {
    &&& forall|i: int, j: int| 0 <= i < j < b.len() ==> #[trigger] b[i].base_avma != #[trigger] b[j].base_avma
    &&& forall|i: int| 0 <= i < b.len() ==> symbols_sorted(#[trigger] b[i].symbols@)
}

/// A sort by start address leaves the symbols sorted.
proof fn lemma_sorted_symbols(src: Seq<LiveSymbolOwned>, out: Seq<LiveSymbolOwned>)
    requires
        sorted_by(start_keys(src), src, out),
    ensures
        symbols_sorted(out),
{
    let keys = start_keys(src);
    let order = choose|order: Seq<usize>| #[trigger]
        is_stable_order(keys, order) && is_reordering(src, order, out);
    assert forall|i: int, j: int| 0 <= i < j < out.len() implies #[trigger] out[i].start_svma
        <= #[trigger] out[j].start_svma by {
        assert(goes_before(keys, order[i] as int, order[j] as int));
        assert(keys[order[i] as int] == ascending(out[i].start_svma));
        assert(keys[order[j] as int] == ascending(out[j].start_svma));
    }
}

/// Taking an image out leaves the others as they were, in their order.
proof fn lemma_without_base(b: Seq<LoadedBinary>, base: u64)
    requires
        images_wf(b),
    ensures
        images_wf(without_base(b, base)),
        forall|i: int| 0 <= i < without_base(b, base).len() ==> (#[trigger] without_base(b, base)[i]).base_avma != base && b.contains(without_base(b, base)[i]),
    decreases b.len(),
{
    if b.len() > 0 {
        let rest = b.drop_last();
        assert(images_wf(rest)) by {
            assert forall|i: int, j: int| 0 <= i < j < rest.len() implies #[trigger] rest[i].base_avma
                != #[trigger] rest[j].base_avma by {
                assert(b[i].base_avma != b[j].base_avma);
            }
            assert forall|i: int| 0 <= i < rest.len() implies symbols_sorted(#[trigger] rest[i].symbols@) by {
                assert(symbols_sorted(b[i].symbols@));
            }
        }
        lemma_without_base(rest, base);
        let r = without_base(rest, base);
        let w = without_base(b, base);
        assert forall|i: int| 0 <= i < w.len() implies (#[trigger] w[i]).base_avma != base && b.contains(
            w[i],
        ) by {
            if i < r.len() {
                assert(w[i] == r[i]);
                let k = rest.index_of(r[i]);
                assert(b[k] == r[i]);
            } else {
                assert(w[i] == b[b.len() - 1]);
            }
        }
        assert(symbols_sorted(b.last().symbols@)) by {
            assert(symbols_sorted(b[b.len() - 1].symbols@));
        }
        assert forall|i: int, j: int| 0 <= i < j < w.len() implies #[trigger] w[i].base_avma
            != #[trigger] w[j].base_avma by {
            if j < r.len() {
                assert(r[i].base_avma != r[j].base_avma);
            } else {
                assert(w[i] == r[i] && w[j] == b.last());
                let k = rest.index_of(r[i]);
                assert(rest[k] == r[i]);
                assert(b[k].base_avma != b[b.len() - 1].base_avma);
            }
        }
        assert forall|i: int| 0 <= i < w.len() implies symbols_sorted(#[trigger] w[i].symbols@) by {
            if i < r.len() {
                assert(symbols_sorted(r[i].symbols@));
            } else {
                assert(w[i] == b.last());
            }
        }
    }
}

impl BinaryRegistry {
    /// The images, in the order in which they were inserted.
    pub closed spec fn binaries(self) -> Seq<LoadedBinary> {
        self.by_base@
    }

    /// The architecture that the target's images were built for.
    pub closed spec fn arch(self) -> Option<Seq<char>> {
        opt_text(self.dyld_arch)
    }

    /// The process and the task port of the target.
    pub closed spec fn target(self) -> (Option<u32>, Option<u64>) {
        (self.target_pid, self.target_task_port)
    }

    /// The images of the shared library cache.
    pub closed spec fn cache(self) -> Option<Seq<CacheImage>> {
        match self.shared_cache {
            Some(c) => Some(c@),
            None => None,
        }
    }

    /// No two images share a base, symbols are sorted, and the index is in order.
    pub closed spec fn wf(self) -> bool {
        &&& images_wf(self.by_base@)
        &&& is_stable_order(base_keys(self.by_base@), self.by_base_index@)
    }

    /// What readers are shown of `address`.
    pub open spec fn symbol_at(self, address: u64) -> Option<SymbolInfo> {
        match binary_covering(self.binaries(), address) {
            Some(i) => {
                let b = self.binaries()[i];
                let svma = svma_of(b.base_avma, b.text_svma, address);
                Some(
                    symbol_in(
                        b.path@,
                        b.is_executable,
                        match symbol_covering(b.symbols@, svma) {
                            Some(k) => Some(b.symbols@[k]),
                            None => None,
                        },
                        svma,
                    ),
                )
            },
            None => match self.cache() {
                Some(c) => cache_symbol_at(c, address),
                None => None,
            },
        }
    }

    /// A registry that knows no image.
    pub fn new() -> (r: Self)
        ensures
            r.wf(),
            r.binaries() == Seq::<LoadedBinary>::empty(),
            r.arch() is None,
            r.target() == (None::<u32>, None::<u64>),
            r.cache() is None,
    {
        BinaryRegistry {
            by_base: Vec::new(),
            by_base_index: Vec::new(),
            dyld_arch: None,
            target_pid: None,
            target_task_port: None,
            shared_cache: None,
        }
    }

    /// Hands over the shared library cache.
    pub fn set_shared_cache(&mut self, cache: Vec<CacheImage>)
        requires
            old(self).wf(),
        ensures
            final(self).wf(),
            final(self).cache() == Some(cache@),
            final(self).binaries() == old(self).binaries(),
            final(self).arch() == old(self).arch(),
            final(self).target() == old(self).target(),
    {
        self.shared_cache = Some(cache);
    }

    /// The images, in the order in which they were inserted.
    pub fn binary_list(&self) -> (r: &Vec<LoadedBinary>)
        ensures
            r@ == self.binaries(),
    {
        &self.by_base
    }

    /// The architecture that the target's images were built for.
    pub fn dyld_arch(&self) -> (r: Option<String>)
        ensures
            opt_text(r) == self.arch(),
    {
        crate::text::clone_opt_text(&self.dyld_arch)
    }

    /// The task port of the target, where there is one.
    pub fn task_port(&self) -> (p: Option<u64>)
        ensures
            p == self.target().1,
    {
        self.target_task_port
    }

    /// Notes the target. A task port of zero is none, and keeps the last one.
    pub fn set_target(&mut self, pid: u32, task_port: u64)
        requires
            old(self).wf(),
        ensures
            final(self).wf(),
            final(self).target() == (
                Some(pid),
                if task_port != 0 {
                    Some(task_port)
                } else {
                    old(self).target().1
                },
            ),
            final(self).binaries() == old(self).binaries(),
            final(self).arch() == old(self).arch(),
            final(self).cache() == old(self).cache(),
    {
        self.target_pid = Some(pid);
        if task_port != 0 {
            self.target_task_port = Some(task_port);
        }
    }

    /// Takes out the images at `base_avma`; the index is left for the caller.
    fn drop_base(&mut self, base_avma: u64)
        requires
            images_wf(old(self).by_base@),
        ensures
            final(self).by_base@ == without_base(old(self).by_base@, base_avma),
            final(self).dyld_arch == old(self).dyld_arch,
            final(self).target_pid == old(self).target_pid,
            final(self).target_task_port == old(self).target_task_port,
            final(self).shared_cache == old(self).shared_cache,
    {
        let ghost src = self.by_base@;
        let mut i: usize = 0;
        let ghost mut k: int = 0;
        assert(src.take(0) =~= Seq::<LoadedBinary>::empty());
        assert(self.by_base@.take(0) =~= Seq::<LoadedBinary>::empty());
        assert(src.skip(0) =~= src);
        while i < self.by_base.len()
            invariant
                0 <= k <= src.len(),
                i <= self.by_base@.len(),
                self.by_base@.take(i as int) == without_base(src.take(k), base_avma),
                self.by_base@.skip(i as int) == src.skip(k),
                self.dyld_arch == old(self).dyld_arch,
                self.target_pid == old(self).target_pid,
                self.target_task_port == old(self).target_task_port,
                self.shared_cache == old(self).shared_cache,
            decreases self.by_base@.len() - i,
        {
            let ghost before = self.by_base@;
            proof {
                assert(before.skip(i as int).len() == src.skip(k).len());
                assert(before.skip(i as int)[0] == src.skip(k)[0]);
                assert(src.take(k + 1).drop_last() =~= src.take(k));
                assert(src.take(k + 1).last() == src[k]);
            }
            if self.by_base[i].base_avma == base_avma {
                let _ = self.by_base.remove(i);
                proof {
                    assert(self.by_base@ =~= before.remove(i as int));
                    assert(self.by_base@.take(i as int) =~= before.take(i as int));
                    assert(self.by_base@.skip(i as int) =~= before.skip(i as int).skip(1));
                    assert(src.skip(k + 1) =~= src.skip(k).skip(1));
                }
            } else {
                i = i + 1;
                proof {
                    assert(before.take(i as int) =~= before.take(i - 1).push(before[i - 1]));
                    assert(before.skip(i as int) =~= before.skip(i - 1).skip(1));
                    assert(src.skip(k + 1) =~= src.skip(k).skip(1));
                }
            }
            proof {
                k = k + 1;
            }
        }
        proof {
            assert(self.by_base@.skip(i as int).len() == 0);
            assert(src.skip(k).len() == 0);
            assert(src.take(k) =~= src);
            assert(self.by_base@.take(i as int) =~= self.by_base@);
        }
    }

    /// Puts the index in order again.
    fn rebuild_index(&mut self)
        requires
            images_wf(old(self).by_base@),
        ensures
            final(self).wf(),
            final(self).by_base@ == old(self).by_base@,
            final(self).dyld_arch == old(self).dyld_arch,
            final(self).target_pid == old(self).target_pid,
            final(self).target_task_port == old(self).target_task_port,
            final(self).shared_cache == old(self).shared_cache,
    {
        let mut keys: Vec<NumKey> = Vec::new();
        let mut i: usize = 0;
        while i < self.by_base.len()
            invariant
                i <= self.by_base@.len(),
                keys@ == base_keys(self.by_base@.take(i as int)),
            decreases self.by_base@.len() - i,
        {
            keys.push(ascending_key(self.by_base[i].base_avma));
            i = i + 1;
            assert(keys@ =~= base_keys(self.by_base@.take(i as int)));
        }
        assert(self.by_base@.take(i as int) =~= self.by_base@);
        self.by_base_index = stable_order(&keys);
    }

    /// Adds an image. It replaces the one at the same base, and the first image
    /// that names an architecture names that of the target.
    pub fn insert(&mut self, binary: LoadedBinary)
        requires
            old(self).wf(),
        ensures
            final(self).wf(),
            exists|stored: LoadedBinary| #[trigger]
                is_stored_form(binary, stored) && final(self).binaries() == without_base(
                    old(self).binaries(),
                    binary.base_avma,
                ).push(stored),
            final(self).arch() == (if old(self).arch() is Some {
                old(self).arch()
            } else {
                opt_text(binary.arch)
            }),
            final(self).target() == old(self).target(),
            final(self).cache() == old(self).cache(),
    {
        let base_avma: u64 = binary.base_avma;
        self.drop_base(base_avma);
        let ghost kept = self.by_base@;
        if self.dyld_arch.is_none() {
            self.dyld_arch = crate::text::clone_opt_text(&binary.arch);
        }
        let LoadedBinary { path, base_avma, avma_end, text_svma, arch, is_executable, symbols, text_bytes } = binary;
        let mut keys: Vec<NumKey> = Vec::new();
        let mut i: usize = 0;
        while i < symbols.len()
            invariant
                i <= symbols@.len(),
                keys@ == start_keys(symbols@.take(i as int)),
            decreases symbols@.len() - i,
        {
            keys.push(ascending_key(symbols[i].start_svma));
            i = i + 1;
            assert(keys@ =~= start_keys(symbols@.take(i as int)));
        }
        assert(symbols@.take(i as int) =~= symbols@);
        let symbols = sort_by_keys(symbols, &keys);
        let stored = LoadedBinary { path, base_avma, avma_end, text_svma, arch, is_executable, symbols, text_bytes };
        proof {
            assert(is_stored_form(binary, stored));
            lemma_sorted_symbols(binary.symbols@, stored.symbols@);
            lemma_without_base(old(self).by_base@, base_avma);
            let b = kept.push(stored);
            assert forall|i: int, j: int| 0 <= i < j < b.len() implies #[trigger] b[i].base_avma
                != #[trigger] b[j].base_avma by {
                if j < kept.len() {
                    assert(kept[i].base_avma != kept[j].base_avma);
                } else {
                    assert(b[i] == kept[i]);
                }
            }
            assert forall|i: int| 0 <= i < b.len() implies symbols_sorted(#[trigger] b[i].symbols@) by {
                if i < kept.len() {
                    assert(symbols_sorted(kept[i].symbols@));
                }
            }
        }
        self.by_base.push(stored);
        self.rebuild_index();
    }

    /// Forgets the image at `base_avma`.
    pub fn remove(&mut self, base_avma: u64)
        requires
            old(self).wf(),
        ensures
            final(self).wf(),
            final(self).binaries() == without_base(old(self).binaries(), base_avma),
            final(self).arch() == old(self).arch(),
            final(self).target() == old(self).target(),
            final(self).cache() == old(self).cache(),
    {
        proof {
            lemma_without_base(self.by_base@, base_avma);
        }
        self.drop_base(base_avma);
        self.rebuild_index();
    }

    /// The image that covers `address`, by binary search on the index.
    pub fn binary_for_address(&self, address: u64) -> (r: Option<usize>)
        requires
            self.wf(),
        ensures
            match r {
                Some(i) => binary_covering(self.binaries(), address) == Some(i as int) && i
                    < self.binaries().len(),
                None => binary_covering(self.binaries(), address) is None,
            },
    {
        let ghost b = self.by_base@;
        let ghost keys = base_keys(b);
        let ghost order = self.by_base_index@;
        let mut lo: usize = 0;
        let mut hi: usize = self.by_base_index.len();
        while lo < hi
            invariant
                self.wf(),
                b == self.by_base@,
                keys == base_keys(b),
                order == self.by_base_index@,
                lo <= hi <= order.len(),
                forall|j: int| 0 <= j < lo ==> b[#[trigger] order[j] as int].base_avma <= address,
                forall|j: int| hi <= j < order.len() ==> b[#[trigger] order[j] as int].base_avma > address,
            decreases hi - lo,
        {
            let mid: usize = lo + (hi - lo) / 2;
            assert(order[mid as int] < b.len());
            if self.by_base[self.by_base_index[mid]].base_avma <= address {
                proof {
                    assert forall|j: int| 0 <= j < mid + 1 implies b[#[trigger] order[j] as int].base_avma <= address by {
                        if j < mid {
                            assert(goes_before(keys, order[j] as int, order[mid as int] as int));
                        }
                    }
                }
                lo = mid + 1;
            } else {
                proof {
                    assert forall|j: int| mid <= j < order.len() implies b[#[trigger] order[j] as int].base_avma > address by {
                        if j > mid {
                            assert(goes_before(keys, order[mid as int] as int, order[j] as int));
                        }
                    }
                }
                hi = mid;
            }
        }
        if lo == 0 {
            proof {
                assert forall|i: int| !is_nearest_base(b, address, i) by {
                    if 0 <= i < b.len() {
                        crate::sort::order_lists_every_position(keys, order, i);
                        let p = choose|p: int| 0 <= p < order.len() && order[p] == i;
                        assert(b[order[p] as int].base_avma > address);
                    }
                }
            }
            return None;
        }
        let i: usize = self.by_base_index[lo - 1];
        proof {
            assert(order[lo - 1] < b.len());
            assert forall|j: int| 0 <= j < b.len() && #[trigger] b[j].base_avma <= address implies b[j].base_avma
                <= b[i as int].base_avma by {
                crate::sort::order_lists_every_position(keys, order, j);
                let p = choose|p: int| 0 <= p < order.len() && order[p] == j;
                if p >= lo {
                    assert(b[order[p] as int].base_avma > address);
                } else if p < lo - 1 {
                    assert(goes_before(keys, order[p] as int, order[lo - 1] as int));
                }
            }
            assert(b[order[lo - 1] as int].base_avma <= address);
            assert(is_nearest_base(b, address, i as int));
            let k = choose|k: int| is_nearest_base(b, address, k);
            assert(is_nearest_base(b, address, k));
            assert(b[k].base_avma == b[i as int].base_avma);
            if k < i {
                assert(b[k].base_avma != b[i as int].base_avma);
            } else if i < k {
                assert(b[i as int].base_avma != b[k].base_avma);
            }
        }
        if address < self.by_base[i].avma_end {
            Some(i)
        } else {
            None
        }
    }

    /// The name, image and language of the code at `address`. Where no loaded
    /// image covers it, the shared library cache is asked.
    pub fn lookup_symbol(&self, address: u64) -> (r: Option<ResolvedSymbol>)
        requires
            self.wf(),
        ensures
            opt_symbol(r) == self.symbol_at(address),
    {
        match self.binary_for_address(address) {
            Some(idx) => {
                let binary = &self.by_base[idx];
                let svma: u64 = svma_for(binary, address);
                let basename = short_path(binary.path.as_str());
                assert(symbols_sorted(self.by_base@[idx as int].symbols@));
                match find_symbol(&binary.symbols, svma) {
                    Some(k) => Some(
                        ResolvedSymbol {
                            function_name: binary.symbols[k].function_name.clone(),
                            binary: basename,
                            is_main: binary.is_executable,
                            language: binary.symbols[k].language.clone(),
                        },
                    ),
                    None => {
                        let label = make_offset_label(basename.as_str(), svma);
                        Some(
                            ResolvedSymbol {
                                function_name: label,
                                binary: basename,
                                is_main: binary.is_executable,
                                language: UNKNOWN_LANGUAGE.to_owned(),
                            },
                        )
                    },
                }
            },
            None => self.lookup_symbol_in_shared_cache(address),
        }
    }

    /// What the shared library cache knows of `address`.
    fn lookup_symbol_in_shared_cache(&self, address: u64) -> (r: Option<ResolvedSymbol>)
        ensures
            opt_symbol(r) == (match self.cache() {
                Some(c) => cache_symbol_at(c, address),
                None => None,
            }),
    {
        match &self.shared_cache {
            None => None,
            Some(cache) => {
                let mut i: usize = 0;
                while i < cache.len()
                    invariant
                        i <= cache@.len(),
                        self.cache() == Some(cache@),
                        forall|j: int| #![trigger cache@[j]]
                            0 <= j < i ==> !(cache@[j].runtime_avma <= address < cache@[j].avma_end),
                    decreases cache@.len() - i,
                {
                    let img = &cache[i];
                    if img.runtime_avma <= address && address < img.avma_end {
                        proof {
                            assert(is_cache_image(cache@, address, i as int));
                            let k = choose|k: int| is_cache_image(cache@, address, k);
                            assert(is_cache_image(cache@, address, k));
                            if k < i {
                                assert(!(cache@[k].runtime_avma <= address < cache@[k].avma_end));
                            } else if i < k {
                                assert(!(cache@[i as int].runtime_avma <= address
                                    < cache@[i as int].avma_end));
                            }
                        }
                        let basename = short_path(img.install_name.as_str());
                        let svma: u64 = address.wrapping_sub(img.runtime_avma).wrapping_add(
                            img.text_svma,
                        );
                        return match find_first_cover(&img.symbols, svma) {
                            Some(k) => Some(
                                ResolvedSymbol {
                                    function_name: img.symbols[k].function_name.clone(),
                                    binary: basename,
                                    is_main: false,
                                    language: img.symbols[k].language.clone(),
                                },
                            ),
                            None => {
                                let label = make_offset_label(basename.as_str(), svma);
                                Some(
                                    ResolvedSymbol {
                                        function_name: label,
                                        binary: basename,
                                        is_main: false,
                                        language: UNKNOWN_LANGUAGE.to_owned(),
                                    },
                                )
                            },
                        };
                    }
                    i = i + 1;
                }
                None
            },
        }
    }
}

/// No part of the path is behind a slash.
pub open spec fn has_no_slash(s: Seq<char>) -> bool {
    forall|i: int| 0 <= i < s.len() ==> #[trigger] s[i] != '/'
}

/// The law of file names: of a directory, a slash and a name without one, the name is shown; a name
/// alone is shown as it is.
pub proof fn names_stand_behind_the_last_slash(directory: Seq<char>, name: Seq<char>)
    requires
        has_no_slash(name),
    ensures
        base_name(directory.push('/') + name) == name,
        base_name(name) == name,
    decreases name.len(),
{
    let path = directory.push('/') + name;
    if name.len() == 0 {
        assert(path =~= directory.push('/'));
        assert(base_name(path) =~= name);
        assert(base_name(name) =~= name);
    } else {
        let init = name.drop_last();
        assert forall|i: int| 0 <= i < init.len() implies #[trigger] init[i] != '/' by {
            assert(name[i] != '/');
        }
        assert(name[name.len() - 1] != '/');
        names_stand_behind_the_last_slash(directory, init);
        assert(path.drop_last() =~= directory.push('/') + init);
        assert(path.last() == name.last());
        assert(init.push(name.last()) =~= name);
    }
}

/// The image is the one around the address: it covers it, and no other one begins between its
/// beginning and the address.
pub open spec fn is_around(b: Seq<LoadedBinary>, address: u64, i: int) -> bool {
    &&& 0 <= i < b.len()
    &&& b[i].base_avma <= address < b[i].avma_end
    &&& forall|j: int|
        0 <= j < b.len() && j != i ==> !(b[i].base_avma <= (#[trigger] b[j]).base_avma <= address)
}

/// The symbol is the one around the address: it covers it, and no other one begins between its
/// beginning and the address, nor behind it in the list at the same place.
pub open spec fn symbol_is_around(s: Seq<LiveSymbolOwned>, svma: int, k: int) -> bool {
    &&& 0 <= k < s.len()
    &&& s[k].start_svma <= svma < s[k].end_svma
    &&& forall|j: int|
        0 <= j < s.len() && j != k ==> !(s[k].start_svma <= (#[trigger] s[j]).start_svma <= svma)
}

/// The law of lookup: an address in a loaded image is shown with the name of the image's file, and
/// with the function whose symbol is around it. Where no symbol begins in front of it, or the last
/// that does has ended, the function is told by the file and the place in it.
pub proof fn addresses_are_shown_by_their_symbol(reg: BinaryRegistry, address: u64, i: int, k: int)
    requires
        is_around(reg.binaries(), address, i),
        symbols_sorted(reg.binaries()[i].symbols@),
        address - reg.binaries()[i].base_avma + reg.binaries()[i].text_svma <= u64::MAX,
    ensures
        ({
            let b = reg.binaries()[i];
            let svma = address - b.base_avma + b.text_svma;
            let shown = reg.symbol_at(address);
            &&& shown is Some
            &&& shown->0.binary == base_name(b.path@)
            &&& shown->0.is_main == b.is_executable
            &&& symbol_is_around(b.symbols@, svma, k) ==> shown->0.function_name
                == b.symbols@[k].function_name@ && shown->0.language == b.symbols@[k].language@
            &&& (forall|j: int|
                0 <= j < b.symbols@.len() ==> !((#[trigger] b.symbols@[j]).start_svma <= svma
                    < b.symbols@[j].end_svma)) ==> shown->0.function_name == base_name(b.path@)
                + "+0x"@ + hex(svma as nat) && shown->0.language == UNKNOWN_LANGUAGE@
        }),
{
    let bs = reg.binaries();
    let b = bs[i];
    let svma = (address - b.base_avma + b.text_svma) as u64;
    assert(svma_of(b.base_avma, b.text_svma, address) == svma);
    assert(is_nearest_base(bs, address, i));
    let n = choose|n: int| is_nearest_base(bs, address, n);
    assert(is_nearest_base(bs, address, n));
    assert(bs[n].base_avma <= address && bs[n].base_avma <= b.base_avma && b.base_avma
        <= bs[n].base_avma);
    assert(n == i);
    assert(binary_covering(bs, address) == Some(i));
    let s = b.symbols@;
    if symbol_is_around(s, svma as int, k) {
        assert forall|j: int| k < j < s.len() implies #[trigger] s[j].start_svma > svma by {
            assert(s[k].start_svma <= s[j].start_svma);
        }
        assert(is_last_start(s, svma, k));
        let m = choose|m: int| is_last_start(s, svma, m);
        assert(is_last_start(s, svma, m));
        if m < k {
            assert(s[k].start_svma > svma);
        } else if k < m {
            assert(s[m].start_svma > svma);
        }
        assert(symbol_covering(s, svma) == Some(k));
    }
    if forall|j: int|
        0 <= j < s.len() ==> !((#[trigger] s[j]).start_svma <= svma < s[j].end_svma) {
        assert(symbol_covering(s, svma) is None);
        reveal_strlit("+");
        reveal_strlit("0x");
        reveal_strlit("+0x");
        assert(offset_label(base_name(b.path@), svma) =~= base_name(b.path@) + "+0x"@ + hex(
            svma as nat,
        ));
    }
}

/// The law of unmapped addresses: where no image covers an address, neither loaded nor of the shared
/// library cache, nothing is shown; one that only the cache covers is shown from there.
pub proof fn unmapped_addresses_show_nothing(reg: BinaryRegistry, address: u64, c: int, k: int)
    requires
        forall|i: int|
            0 <= i < reg.binaries().len() ==> !((#[trigger] reg.binaries()[i]).base_avma <= address
                < reg.binaries()[i].avma_end),
    ensures
        reg.cache() is None ==> reg.symbol_at(address) is None,
        reg.cache() matches Some(images) ==> {
            &&& (forall|i: int|
                0 <= i < images.len() ==> !((#[trigger] images[i]).runtime_avma <= address
                    < images[i].avma_end)) ==> reg.symbol_at(address) is None
            &&& 0 <= c < images.len() && images[c].runtime_avma <= address < images[c].avma_end && (
            forall|i: int|
                0 <= i < c ==> !((#[trigger] images[i]).runtime_avma <= address
                    < images[i].avma_end)) && address - images[c].runtime_avma
                + images[c].text_svma <= u64::MAX ==> {
                let svma = address - images[c].runtime_avma + images[c].text_svma;
                let s = images[c].symbols@;
                &&& reg.symbol_at(address) is Some
                &&& reg.symbol_at(address)->0.binary == base_name(images[c].install_name@)
                &&& !reg.symbol_at(address)->0.is_main
                &&& 0 <= k < s.len() && s[k].start_svma <= svma < s[k].end_svma && (forall|j: int|
                    0 <= j < k ==> !((#[trigger] s[j]).start_svma <= svma < s[j].end_svma))
                    ==> reg.symbol_at(address)->0.function_name == s[k].function_name@
            }
        },
{
    let bs = reg.binaries();
    if exists|n: int| is_nearest_base(bs, address, n) {
        let n = choose|n: int| is_nearest_base(bs, address, n);
        assert(is_nearest_base(bs, address, n));
        assert(!(bs[n].base_avma <= address < bs[n].avma_end));
    }
    assert(binary_covering(bs, address) is None);
    match reg.cache() {
        Some(images) => {
            if 0 <= c < images.len() && images[c].runtime_avma <= address < images[c].avma_end && (
            forall|i: int|
                0 <= i < c ==> !((#[trigger] images[i]).runtime_avma <= address
                    < images[i].avma_end)) {
                assert(is_cache_image(images, address, c));
                let m = choose|m: int| is_cache_image(images, address, m);
                assert(is_cache_image(images, address, m));
                if m < c {
                    assert(!(images[m].runtime_avma <= address < images[m].avma_end));
                } else if c < m {
                    assert(!(images[c].runtime_avma <= address < images[c].avma_end));
                }
                if address - images[c].runtime_avma + images[c].text_svma <= u64::MAX {
                    let svma = (address - images[c].runtime_avma + images[c].text_svma) as u64;
                    let s = images[c].symbols@;
                    assert(svma_of(images[c].runtime_avma, images[c].text_svma, address) == svma);
                    if 0 <= k < s.len() && s[k].start_svma <= svma < s[k].end_svma && (
                    forall|j: int|
                        0 <= j < k ==> !((#[trigger] s[j]).start_svma <= svma < s[j].end_svma)) {
                        assert(is_first_cover(s, svma, k));
                        let f = choose|f: int| is_first_cover(s, svma, f);
                        assert(is_first_cover(s, svma, f));
                        if f < k {
                            assert(!(s[f].start_svma <= svma < s[f].end_svma));
                        } else if k < f {
                            assert(!(s[k].start_svma <= svma < s[k].end_svma));
                        }
                    }
                }
            }
        },
        None => {},
    }
}

/// The law of removal: the image at the base goes, and every other one stays.
pub proof fn only_the_image_at_the_base_goes(b: Seq<LoadedBinary>, base: u64, x: LoadedBinary)
    ensures
        without_base(b, base).contains(x) == (b.contains(x) && x.base_avma != base),
        without_base(b, base) == b.filter(|y: LoadedBinary| y.base_avma != base),
    decreases b.len(),
{
    reveal(Seq::filter);
    if b.len() > 0 {
        let init = b.drop_last();
        only_the_image_at_the_base_goes(init, base, x);
        let before = without_base(init, base);
        let after = without_base(b, base);
        assert(b[b.len() - 1] == b.last());
        if init.contains(x) {
            let k = choose|k: int| 0 <= k < init.len() && init[k] == x;
            assert(b[k] == x);
        }
        if b.contains(x) && !init.contains(x) {
            let k = choose|k: int| 0 <= k < b.len() && b[k] == x;
            if k < init.len() {
                assert(init[k] == x);
            }
        }
        if before.contains(x) {
            let k = choose|k: int| 0 <= k < before.len() && before[k] == x;
            assert(after[k] == x);
        }
        if after.contains(x) {
            let k = choose|k: int| 0 <= k < after.len() && after[k] == x;
            if k < before.len() {
                assert(before[k] == x);
            }
        }
        if b.last().base_avma != base {
            assert(after[after.len() - 1] == b.last());
        }
    }
}

/// The law of fetched code: the bytes of some addresses are those that the file has at the place of
/// their segment, in their order.
pub proof fn fetched_bytes_are_the_files(img: CodeImage, start: int, len: int, i: int)
    requires
        0 <= len,
        0 <= i < img.segments@.len(),
        forall|j: int|
            0 <= j < img.segments@.len() ==> (#[trigger] img.segments@[j]).address
                + img.segments@[j].size <= u64::MAX,
        forall|j: int|
            0 <= j < i ==> !((#[trigger] img.segments@[j]).address <= start && start + len
                <= img.segments@[j].address + img.segments@[j].size),
        img.segments@[i].address <= start,
        start + len <= img.segments@[i].address + img.segments@[i].size,
        start - img.segments@[i].address + len <= img.segments@[i].file_size,
        img.segments@[i].file_offset + (start - img.segments@[i].address) + len <= img.bytes@.len(),
    ensures
        img.bytes_at(start, len) matches Some(b) && b.len() == len && forall|x: int|
            0 <= x < len ==> #[trigger] b[x] == img.bytes@[img.segments@[i].file_offset + (start
                - img.segments@[i].address) + x],
{
    assert(img.deciding_segment(start, len, i));
    img.deciding_segment_is_unique(start, len, i);
}

/// The law of symbols that are kept: none is lost or made up, and they ascend by where they start.
pub proof fn kept_symbols_ascend(
    given: LoadedBinary,
    stored: LoadedBinary,
    i: int,
    j: int,
    k: int,
)
    requires
        is_stored_form(given, stored),
        0 <= i <= j < stored.symbols@.len(),
        0 <= k < given.symbols@.len(),
    ensures
        stored.symbols@.len() == given.symbols@.len(),
        stored.symbols@.contains(given.symbols@[k]),
        stored.symbols@[i].start_svma <= stored.symbols@[j].start_svma,
        stored.base_avma == given.base_avma,
        stored.avma_end == given.avma_end,
        stored.text_svma == given.text_svma,
        stored.path == given.path,
{
    let src = given.symbols@;
    let out = stored.symbols@;
    lemma_sorted_symbols(src, out);
    let keys = start_keys(src);
    let order = choose|order: Seq<usize>| #[trigger]
        is_stable_order(keys, order) && is_reordering(src, order, out);
    order_lists_every_position(keys, order, k);
    let at = choose|at: int| 0 <= at < order.len() && order[at] == k;
    assert(out[at] == src[k]);
}

/// The law of broken segments: one that ends beyond the address space ends the search, where none before
/// it holds the addresses.
pub proof fn broken_segments_end_the_search(img: CodeImage, start: int, len: int, i: int)
    requires
        0 <= i < img.segments@.len(),
        img.segments@[i].address + img.segments@[i].size > u64::MAX,
        forall|j: int|
            0 <= j < i ==> (#[trigger] img.segments@[j]).address + img.segments@[j].size
                <= u64::MAX,
        forall|j: int|
            0 <= j < i ==> !((#[trigger] img.segments@[j]).address <= start && start + len
                <= img.segments@[j].address + img.segments@[j].size),
    ensures
        img.bytes_at(start, len) is None,
{
    assert(img.deciding_segment(start, len, i));
    img.deciding_segment_is_unique(start, len, i);
}

/// The law of addresses outside: where no segment holds them there are no bytes, nor where the segment
/// that holds them has fewer in the file.
pub proof fn addresses_outside_have_no_bytes(img: CodeImage, start: int, len: int)
    ensures
        (forall|j: int|
            0 <= j < img.segments@.len() ==> !((#[trigger] img.segments@[j]).address <= start
                && start + len <= img.segments@[j].address + img.segments@[j].size))
            ==> img.bytes_at(start, len) is None,
        (forall|j: int|
            0 <= j < img.segments@.len() ==> (#[trigger] img.segments@[j]).address
                + img.segments@[j].file_size < start + len) ==> img.bytes_at(start, len) is None,
        start + len > u64::MAX ==> img.bytes_at(start, len) is None,
{
}

} // verus!
