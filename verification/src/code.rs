//! The code at an address: which function it is, and where its bytes come from.
use object::{Object, ObjectSegment};
use std::sync::Arc;
use vstd::prelude::*;
use vstd::slice::{slice_subrange, slice_to_vec};
use vstd::utf8::encode_utf8;

use crate::binaries::{
    avma_for_svma, avma_of, base_name, binary_covering, find_first_cover, first_cover, is_first_cover,
    make_offset_label, offset_label, short_path, svma_for, svma_of, BinaryRegistry, CodeImage,
    CodeSegment, LiveSymbolOwned, LoadedBinary, UNKNOWN_LANGUAGE,
};
use crate::probe_timing::sat_add;
use crate::text::{
    clone_opt_text, dec, hex, hex_prefixed, opt_text, push_dec, push_hex_prefixed, same_text,
};

verus! {

/// `needle` stands at `i` in `haystack`.
pub open spec fn occurs_at(haystack: Seq<u8>, needle: Seq<u8>, i: int) -> bool {
    0 <= i && i + needle.len() <= haystack.len() && haystack.subrange(i, i + needle.len())
        == needle
}

/// `needle` stands somewhere in `haystack`.
pub open spec fn occurs(haystack: Seq<u8>, needle: Seq<u8>) -> bool {
    exists|i: int| occurs_at(haystack, needle, i)
}

/// The search of the `memchr` crate gives where the needle first stands, or nothing
/// where it does not.
pub assume_specification[ memchr::memmem::find ](haystack: &[u8], needle: &[u8]) -> (r: Option<
    usize,
>)
    ensures
        match r {
            Some(i) => occurs_at(haystack@, needle@, i as int) && forall|j: int|
                0 <= j < i ==> !occurs_at(haystack@, needle@, j),
            None => !occurs(haystack@, needle@),
        },
;

/// Some symbol of the image has a name with `needle` in it.
pub open spec fn names_hold(symbols: Seq<LiveSymbolOwned>, needle: Seq<u8>) -> bool {
    exists|k: int| 0 <= k < symbols.len() && occurs((#[trigger] symbols[k]).name@, needle)
}

/// Whether some symbol of the image has a name with `needle` in it.
fn some_name_holds(symbols: &Vec<LiveSymbolOwned>, needle: &[u8]) -> (r: bool)
    ensures
        r == names_hold(symbols@, needle@),
{
    let mut k: usize = 0;
    while k < symbols.len()
        invariant
            k <= symbols@.len(),
            forall|j: int| 0 <= j < k ==> !occurs((#[trigger] symbols@[j]).name@, needle@),
        decreases symbols@.len() - k,
    {
        if memchr::memmem::find(symbols[k].name.as_slice(), needle).is_some() {
            assert(occurs(symbols@[k as int].name@, needle@));
            return true;
        }
        k = k + 1;
    }
    false
}

impl BinaryRegistry {
    /// Whether some symbol has a raw name with `needle` in it. Every name has the empty
    /// one in it, even where there are no symbols.
    pub fn any_symbol_contains(&self, needle: &str) -> (r: bool)
        ensures
            r == (encode_utf8(needle@).len() == 0 || exists|i: int|
                0 <= i < self.binaries().len() && names_hold(
                    (#[trigger] self.binaries()[i]).symbols@,
                    encode_utf8(needle@),
                )),
    {
        let bytes = needle.as_bytes();
        if bytes.len() == 0 {
            return true;
        }
        let binaries = self.binary_list();
        let mut i: usize = 0;
        while i < binaries.len()
            invariant
                i <= binaries@.len(),
                binaries@ == self.binaries(),
                bytes@ == encode_utf8(needle@),
                forall|j: int|
                    0 <= j < i ==> !names_hold((#[trigger] self.binaries()[j]).symbols@, bytes@),
            decreases binaries@.len() - i,
        {
            if some_name_holds(&binaries[i].symbols, bytes) {
                assert(names_hold(self.binaries()[i as int].symbols@, bytes@));
                return true;
            }
            i = i + 1;
        }
        false
    }
}

/// How much is shown around an address that no symbol covers.
pub const NO_SYMBOL_WINDOW: u64 = 64;

/// How much is shown around an address that no image covers.
pub const UNMAPPED_WINDOW: u64 = 256;

/// A function that was found.
pub struct LocatedFunction {
    pub binary_index: usize,
    pub binary_path: String,
    pub arch: Option<String>,
    pub function_name: String,
    pub language: String,
    /// Where it was linked.
    pub fn_start_svma: u64,
    /// Where it is mapped.
    pub base_address: u64,
    pub end_address: u64,
    pub len: usize,
}

/// What is at an address.
pub enum Located {
    Function(LocatedFunction),
    /// A symbol without code.
    Empty,
    /// Nothing that is loaded.
    Unmapped,
}

/// Where a function begins and ends, as linked: where its symbol does, or a little
/// before and behind the address where there is none.
pub open spec fn function_span(symbols: Seq<LiveSymbolOwned>, svma: u64) -> (u64, u64) {
    match first_cover(symbols, svma) {
        Some(k) => (symbols[k].start_svma, symbols[k].end_svma),
        None => (
            if svma < NO_SYMBOL_WINDOW / 2 {
                0
            } else {
                (svma - NO_SYMBOL_WINDOW / 2) as u64
            },
            sat_add(svma, NO_SYMBOL_WINDOW / 2),
        ),
    }
}

/// How long a span is.
pub open spec fn span_len(span: (u64, u64)) -> u64 {
    if span.1 <= span.0 {
        0
    } else {
        (span.1 - span.0) as u64
    }
}

/// The function at `address` in the image `b`.
pub open spec fn is_located(b: LoadedBinary, address: u64, f: LocatedFunction) -> bool {
    let svma = svma_of(b.base_avma, b.text_svma, address);
    let span = function_span(b.symbols@, svma);
    &&& f.binary_path@ == b.path@
    &&& opt_text(f.arch) == opt_text(b.arch)
    &&& f.function_name@ == (match first_cover(b.symbols@, svma) {
        Some(k) => b.symbols@[k].function_name@,
        None => offset_label(base_name(b.path@), svma),
    })
    &&& f.language@ == (match first_cover(b.symbols@, svma) {
        Some(k) => b.symbols@[k].language@,
        None => UNKNOWN_LANGUAGE@,
    })
    &&& f.fn_start_svma == span.0
    &&& f.base_address == avma_of(b.base_avma, b.text_svma, span.0)
    &&& f.end_address == avma_of(b.base_avma, b.text_svma, span.1)
    &&& f.len == span_len(span)
}

impl BinaryRegistry {
    /// The function at an address. Spans that do not fit into memory hold no code.
    pub fn locate(&self, address: u64) -> (l: Located)
        requires
            self.wf(),
        ensures
            match l {
                Located::Function(f) => binary_covering(self.binaries(), address) == Some(
                    f.binary_index as int,
                ) && f.binary_index < self.binaries().len() && is_located(
                    self.binaries()[f.binary_index as int],
                    address,
                    f,
                ) && f.len > 0,
                Located::Empty => binary_covering(self.binaries(), address) matches Some(i) && {
                    let b = self.binaries()[i];
                    let n = span_len(
                        function_span(b.symbols@, svma_of(b.base_avma, b.text_svma, address)),
                    );
                    n == 0 || n > usize::MAX
                },
                Located::Unmapped => binary_covering(self.binaries(), address) is None,
            },
    {
        let i: usize = match self.binary_for_address(address) {
            Some(i) => i,
            None => {
                return Located::Unmapped;
            },
        };
        let binary = &self.binary_list()[i];
        let svma: u64 = svma_for(binary, address);
        let basename = short_path(binary.path.as_str());
        let (function_name, language, start, end): (String, String, u64, u64) =
            match find_first_cover(&binary.symbols, svma) {
            Some(k) => (
                binary.symbols[k].function_name.clone(),
                binary.symbols[k].language.clone(),
                binary.symbols[k].start_svma,
                binary.symbols[k].end_svma,
            ),
            None => (
                make_offset_label(basename.as_str(), svma),
                UNKNOWN_LANGUAGE.to_owned(),
                svma.saturating_sub(NO_SYMBOL_WINDOW / 2),
                svma.saturating_add(NO_SYMBOL_WINDOW / 2),
            ),
        };
        let len: u64 = end.saturating_sub(start);
        if len == 0 || len > usize::MAX as u64 {
            return Located::Empty;
        }
        Located::Function(
            LocatedFunction {
                binary_index: i,
                binary_path: binary.path.clone(),
                arch: clone_opt_text(&binary.arch),
                function_name,
                language,
                fn_start_svma: start,
                base_address: avma_for_svma(binary.base_avma, binary.text_svma, start),
                end_address: avma_for_svma(binary.base_avma, binary.text_svma, end),
                len: len as usize,
            },
        )
    }

    /// The code of a function, where it came along with the image.
    pub fn inline_code(&self, f: &LocatedFunction) -> (r: Option<Vec<u8>>)
        requires
            f.binary_index < self.binaries().len(),
        ensures
            opt_bytes(r) == inline_bytes(
                self.binaries()[f.binary_index as int],
                f.fn_start_svma,
                f.len as nat,
            ),
    {
        let binary = &self.binary_list()[f.binary_index];
        match &binary.text_bytes {
            None => None,
            Some(inline) => {
                if f.fn_start_svma < binary.text_svma {
                    return None;
                }
                let off: u64 = f.fn_start_svma - binary.text_svma;
                let n: usize = inline.len();
                if f.len > n || off > (n - f.len) as u64 {
                    return None;
                }
                let off: usize = off as usize;
                Some(slice_to_vec(slice_subrange(inline.as_slice(), off, off + f.len)))
            },
        }
    }
}

/// Bytes that may be missing.
pub open spec fn opt_bytes(b: Option<Vec<u8>>) -> Option<Seq<u8>> {
    match b {
        Some(b) => Some(b@),
        None => None,
    }
}

/// The `len` bytes at `svma` that came along with the image.
pub open spec fn inline_bytes(b: LoadedBinary, svma: u64, len: nat) -> Option<Seq<u8>> {
    match b.text_bytes {
        Some(inline) => if b.text_svma <= svma && svma - b.text_svma + len <= inline@.len() {
            Some(inline@.subrange(svma - b.text_svma, svma - b.text_svma + len))
        } else {
            None
        },
        None => None,
    }
}

/// The code of a function, where its image is on disk.
pub fn image_code(image: Option<&CodeImage>, f: &LocatedFunction) -> (r: Option<Vec<u8>>)
    ensures
        opt_bytes(r) == (match image {
            Some(i) => i.bytes_at(f.fn_start_svma as int, f.len as int),
            None => None,
        }),
{
    match image {
        Some(i) => match i.fetch(f.fn_start_svma, f.len) {
            Some(b) => Some(slice_to_vec(b)),
            None => None,
        },
        None => None,
    }
}

/// The code of a function, from the best of its sources: the image on disk, the
/// target's memory, what came along with the image, and the shared source of bytes.
pub fn preferred_code(
    from_image: Option<Vec<u8>>,
    from_target: Option<Vec<u8>>,
    inline: Option<Vec<u8>>,
    from_source: Option<Vec<u8>>,
) -> (r: Option<Vec<u8>>)
    ensures
        r == (if from_image is Some {
            from_image
        } else if from_target is Some {
            from_target
        } else if inline is Some {
            inline
        } else {
            from_source
        }),
{
    if from_image.is_some() {
        from_image
    } else if from_target.is_some() {
        from_target
    } else if inline.is_some() {
        inline
    } else {
        from_source
    }
}

/// The code at an address.
pub struct ResolvedAddress {
    pub binary_path: String,
    pub arch: Option<String>,
    pub function_name: String,
    pub language: String,
    pub base_address: u64,
    pub end_address: u64,
    pub bytes: Vec<u8>,
    pub fn_start_svma: u64,
    pub image: Option<Arc<CodeImage>>,
}

/// A function that was found, with its code.
pub fn resolved(f: LocatedFunction, bytes: Vec<u8>, image: Option<Arc<CodeImage>>) -> (r:
    ResolvedAddress)
    ensures
        r.binary_path == f.binary_path,
        r.arch == f.arch,
        r.function_name == f.function_name,
        r.language == f.language,
        r.base_address == f.base_address,
        r.end_address == f.end_address,
        r.bytes == bytes,
        r.fn_start_svma == f.fn_start_svma,
        r.image == image,
{
    ResolvedAddress {
        binary_path: f.binary_path,
        arch: f.arch,
        function_name: f.function_name,
        language: f.language,
        base_address: f.base_address,
        end_address: f.end_address,
        bytes,
        fn_start_svma: f.fn_start_svma,
        image,
    }
}

/// The bytes of a function, from the best of its sources.
pub open spec fn code_of(
    binary: LoadedBinary,
    f: LocatedFunction,
    image: Option<Arc<CodeImage>>,
    from_target: Option<Vec<u8>>,
    from_source: Option<Vec<u8>>,
) -> Option<Seq<u8>> {
    let from_image = match image {
        Some(i) => i.bytes_at(f.fn_start_svma as int, f.len as int),
        None => None,
    };
    let inline = inline_bytes(binary, f.fn_start_svma, f.len as nat);
    if from_image is Some {
        from_image
    } else if from_target is Some {
        opt_bytes(from_target)
    } else if inline is Some {
        inline
    } else {
        opt_bytes(from_source)
    }
}

impl BinaryRegistry {
    /// The code of a function that was found, where some source has it: its image on disk,
    /// the target's memory, what came along with the image, or the shared source of bytes.
    pub fn resolve(
        &self,
        f: LocatedFunction,
        image: Option<Arc<CodeImage>>,
        from_target: Option<Vec<u8>>,
        from_source: Option<Vec<u8>>,
    ) -> (r: Option<ResolvedAddress>)
        requires
            f.binary_index < self.binaries().len(),
        ensures
            match code_of(
                self.binaries()[f.binary_index as int],
                f,
                image,
                from_target,
                from_source,
            ) {
                Some(bytes) => r matches Some(a) && a.bytes@ == bytes && a.binary_path
                    == f.binary_path && a.arch == f.arch && a.function_name == f.function_name
                    && a.language == f.language && a.base_address == f.base_address
                    && a.end_address == f.end_address && a.fn_start_svma == f.fn_start_svma
                    && a.image == image,
                None => r is None,
            },
    {
        let from_image = match &image {
            Some(i) => image_code(Some(&**i), &f),
            None => None,
        };
        let inline = self.inline_code(&f);
        match preferred_code(from_image, from_target, inline, from_source) {
            Some(bytes) => Some(resolved(f, bytes, image)),
            None => None,
        }
    }
}

/// Where the window around an address begins that no image covers; instructions of
/// four bytes stay whole.
pub open spec fn window_start(address: u64) -> u64 {
    (if address < UNMAPPED_WINDOW / 2 {
        0u64
    } else {
        (address - UNMAPPED_WINDOW / 2) as u64
    }) & !0x3u64
}

/// Where the window around an address begins that no image covers.
pub fn unmapped_window(address: u64) -> (a: u64)
    ensures
        a == window_start(address),
{
    address.saturating_sub(UNMAPPED_WINDOW / 2) & !0x3u64
}

/// The code around an address that no image covers, given what was read of it.
pub fn resolve_unmapped(address: u64, bytes: Vec<u8>, arch: Option<String>) -> (r: ResolvedAddress)
    requires
        window_start(address) + bytes@.len() <= u64::MAX,
    ensures
        r.binary_path@ == "(target memory)"@,
        r.arch == arch,
        r.function_name@ == "(unmapped) "@ + hex_prefixed(address as nat),
        r.language@ == UNKNOWN_LANGUAGE@,
        r.base_address == window_start(address),
        r.end_address == window_start(address) + bytes@.len(),
        r.bytes == bytes,
        r.fn_start_svma == window_start(address),
        r.image is None,
{
    let base: u64 = unmapped_window(address);
    let mut name = "(unmapped) ".to_owned();
    push_hex_prefixed(&mut name, address);
    let end: u64 = base + bytes.len() as u64;
    ResolvedAddress {
        binary_path: "(target memory)".to_owned(),
        arch,
        function_name: name,
        language: UNKNOWN_LANGUAGE.to_owned(),
        base_address: base,
        end_address: end,
        bytes,
        fn_start_svma: base,
        image: None,
    }
}

/// What `object::File::parse` finds in the bytes of a file, and of it the address, the
/// size and the place in the file of each segment; nothing where it is no object file.
pub uninterp spec fn segments_in(bytes: Seq<u8>) -> Option<Seq<CodeSegment>>;

/// Calls `object::File::parse`, and lists the segments of the file.
#[verifier::external_body]
fn object_segments(bytes: &[u8]) -> (r: Option<Vec<CodeSegment>>)
    ensures
        opt_segments(r) == segments_in(bytes@),
{
    let file = object::File::parse(bytes).ok()?;
    let mut out = Vec::new();
    for seg in file.segments() {
        let (file_offset, file_size) = seg.file_range();
        out.push(CodeSegment { address: seg.address(), size: seg.size(), file_offset, file_size });
    }
    Some(out)
}

/// Segments that may be missing.
pub open spec fn opt_segments(s: Option<Vec<CodeSegment>>) -> Option<Seq<CodeSegment>> {
    match s {
        Some(s) => Some(s@),
        None => None,
    }
}

/// The path names no file on disk.
pub open spec fn is_no_file(path: Seq<char>) -> bool {
    path.len() == 0 || path[0] == '['
}

/// Whether an image is to be read from its path.
pub fn reads_file(path: &str) -> (r: bool)
    ensures
        r == !is_no_file(path@),
{
    path.unicode_len() > 0 && path.get_char(0) != '['
}

/// An image that was read from a file, where it is an object file.
pub fn load_image(bytes: Vec<u8>) -> (r: Option<CodeImage>)
    ensures
        match segments_in(bytes@) {
            Some(s) => r matches Some(i) && i.bytes@ == bytes@ && i.segments@ == s,
            None => r is None,
        },
{
    match object_segments(bytes.as_slice()) {
        Some(segments) => Some(CodeImage { bytes: Arc::new(bytes), segments }),
        None => None,
    }
}

/// A segment with what is in it, where that could be read.
pub struct RawSegment {
    pub address: u64,
    pub size: u64,
    pub data: Option<Vec<u8>>,
}

/// The model of a [`RawSegment`].
pub struct RawSegmentView {
    pub address: u64,
    pub size: u64,
    pub data: Option<Seq<u8>>,
}

impl View for RawSegment {
    type V = RawSegmentView;

    open spec fn view(&self) -> RawSegmentView {
        RawSegmentView { address: self.address, size: self.size, data: opt_bytes(self.data) }
    }
}

/// The models of segments.
pub open spec fn raw_views(s: Seq<RawSegment>) -> Seq<RawSegmentView> {
    s.map_values(|r: RawSegment| r@)
}

/// The bytes of all segments behind one another.
pub open spec fn combined_bytes(s: Seq<RawSegmentView>) -> Seq<u8>
    decreases s.len(),
{
    if s.len() == 0 {
        seq![]
    } else {
        match s.last().data {
            Some(d) => combined_bytes(s.drop_last()) + d,
            None => combined_bytes(s.drop_last()),
        }
    }
}

/// The segments with something in them, and where that stands among all the bytes.
pub open spec fn combined_segments(s: Seq<RawSegmentView>) -> Seq<CodeSegment>
    decreases s.len(),
{
    if s.len() == 0 {
        seq![]
    } else {
        let before = combined_segments(s.drop_last());
        match s.last().data {
            Some(d) => if d.len() == 0 {
                before
            } else {
                before.push(
                    CodeSegment {
                        address: s.last().address,
                        size: s.last().size,
                        file_offset: combined_bytes(s.drop_last()).len() as u64,
                        file_size: d.len() as u64,
                    },
                )
            },
            None => before,
        }
    }
}

/// Puts the segments of an image together whose file is not at hand.
pub fn macho_to_code_image(raw: &Vec<RawSegment>) -> (i: CodeImage)
    ensures
        i.bytes@ == combined_bytes(raw_views(raw@)),
        i.segments@ == combined_segments(raw_views(raw@)),
{
    let ghost views = raw_views(raw@);
    let mut bytes: Vec<u8> = Vec::new();
    let mut segments: Vec<CodeSegment> = Vec::new();
    let mut k: usize = 0;
    assert(views.take(0) =~= seq![]);
    while k < raw.len()
        invariant
            k <= raw@.len(),
            views == raw_views(raw@),
            bytes@ == combined_bytes(views.take(k as int)),
            segments@ == combined_segments(views.take(k as int)),
        decreases raw@.len() - k,
    {
        proof {
            assert(views.take(k + 1).drop_last() =~= views.take(k as int));
            assert(views.take(k + 1).last() == raw@[k as int]@);
        }
        match &raw[k].data {
            Some(d) => {
                if d.len() > 0 {
                    segments.push(
                        CodeSegment {
                            address: raw[k].address,
                            size: raw[k].size,
                            file_offset: bytes.len() as u64,
                            file_size: d.len() as u64,
                        },
                    );
                    bytes.extend_from_slice(d.as_slice());
                    assert(bytes@ =~= combined_bytes(views.take(k as int)) + d@);
                } else {
                    assert(bytes@ =~= bytes@ + d@);
                }
            },
            None => {},
        }
        k = k + 1;
    }
    assert(views.take(k as int) =~= views);
    CodeImage { bytes: Arc::new(bytes), segments }
}

/// The law of combined images: what a segment held is found where it is said to stand.
pub proof fn combined_segments_hold_their_bytes(s: Seq<RawSegmentView>, i: int)
    requires
        0 <= i < combined_segments(s).len(),
        combined_bytes(s).len() <= u64::MAX,
    ensures
        ({
            let c = combined_segments(s)[i];
            &&& c.file_offset + c.file_size <= combined_bytes(s).len()
            &&& exists|k: int|
                0 <= k < s.len() && (#[trigger] s[k]).data == Some(
                    combined_bytes(s).subrange(
                        c.file_offset as int,
                        c.file_offset + c.file_size,
                    ),
                ) && s[k].address == c.address
        }),
    decreases s.len(),
{
    if s.len() > 0 {
        let init = s.drop_last();
        let before = combined_segments(init);
        assert(combined_bytes(init).len() <= combined_bytes(s).len());
        let c = combined_segments(s)[i];
        if i < before.len() {
            combined_segments_hold_their_bytes(init, i);
            assert(c == before[i]);
            let k = choose|k: int|
                0 <= k < init.len() && (#[trigger] init[k]).data == Some(
                    combined_bytes(init).subrange(
                        c.file_offset as int,
                        c.file_offset + c.file_size,
                    ),
                ) && init[k].address == c.address;
            assert(s[k] == init[k]);
            assert(combined_bytes(s).subrange(c.file_offset as int, c.file_offset + c.file_size)
                =~= combined_bytes(init).subrange(
                c.file_offset as int,
                c.file_offset + c.file_size,
            ));
        } else {
            let d = s.last().data->0;
            assert(s[s.len() - 1].data == Some(d));
            assert(combined_bytes(s).subrange(c.file_offset as int, c.file_offset + c.file_size)
                =~= d);
        }
    }
}

/// The paths that `object::read::macho::DyldCache` lists for a shared library cache,
/// each where it could be read; nothing where the cache could not be.
pub uninterp spec fn cache_paths_in(main: Seq<u8>, subs: Seq<Seq<u8>>) -> Option<
    Seq<Option<Seq<char>>>,
>;

/// The segments that `object` finds in one image of a shared library cache.
pub uninterp spec fn cache_segments_in(main: Seq<u8>, subs: Seq<Seq<u8>>, index: int) -> Option<
    Seq<RawSegmentView>,
>;

/// The bytes of slices.
pub open spec fn slice_views(s: Seq<&[u8]>) -> Seq<Seq<u8>> {
    s.map_values(|b: &[u8]| b@)
}

/// Paths that may be missing.
pub open spec fn path_views(s: Seq<Option<String>>) -> Seq<Option<Seq<char>>> {
    s.map_values(|p: Option<String>| opt_text(p))
}

/// Calls `object::read::macho::DyldCache::parse`, and lists the paths of the images.
#[verifier::external_body]
fn cache_paths(main: &[u8], subs: &Vec<&[u8]>) -> (r: Option<Vec<Option<String>>>)
    ensures
        r is Some == cache_paths_in(main@, slice_views(subs@)) is Some,
        r matches Some(p) ==> cache_paths_in(main@, slice_views(subs@)) == Some(path_views(p@)),
{
    let cache = object::read::macho::DyldCache::<object::Endianness>::parse(main, subs).ok()?;
    Some(cache.images().map(|i| i.path().ok().map(|p| p.to_owned())).collect())
}

/// Calls `object::read::macho::DyldCacheImage::parse_object` on one image of a cache, and
/// lists its segments.
#[verifier::external_body]
fn cache_segments(main: &[u8], subs: &Vec<&[u8]>, index: usize) -> (r: Option<Vec<RawSegment>>)
    ensures
        r is Some == cache_segments_in(main@, slice_views(subs@), index as int) is Some,
        r matches Some(s) ==> cache_segments_in(main@, slice_views(subs@), index as int) == Some(
            raw_views(s@),
        ),
{
    let cache = object::read::macho::DyldCache::<object::Endianness>::parse(main, subs).ok()?;
    let file = cache.images().nth(index)?.parse_object().ok()?;
    let mut out = Vec::new();
    for seg in file.segments() {
        let data = seg.data().ok().map(|d| d.to_vec());
        out.push(RawSegment { address: seg.address(), size: seg.size(), data });
    }
    Some(out)
}

/// The first image of the path.
pub open spec fn is_first_path(paths: Seq<Option<Seq<char>>>, path: Seq<char>, i: int) -> bool {
    0 <= i < paths.len() && paths[i] == Some(path) && forall|j: int|
        0 <= j < i ==> #[trigger] paths[j] != Some(path)
}

/// The position of the first image of the path.
pub fn find_path(paths: &Vec<Option<String>>, path: &str) -> (r: Option<usize>)
    ensures
        match r {
            Some(i) => is_first_path(path_views(paths@), path@, i as int),
            None => forall|j: int|
                0 <= j < paths@.len() ==> #[trigger] path_views(paths@)[j] != Some(path@),
        },
{
    let mut i: usize = 0;
    while i < paths.len()
        invariant
            i <= paths@.len(),
            forall|j: int| 0 <= j < i ==> #[trigger] path_views(paths@)[j] != Some(path@),
        decreases paths@.len() - i,
    {
        assert(path_views(paths@)[i as int] == opt_text(paths@[i as int]));
        match &paths[i] {
            Some(p) => {
                if same_text(p.as_str(), path) {
                    return Some(i);
                }
            },
            None => {},
        }
        i = i + 1;
    }
    None
}

/// The position of the first image of the path.
pub open spec fn first_path(paths: Seq<Option<Seq<char>>>, path: Seq<char>) -> Option<int> {
    if exists|i: int| is_first_path(paths, path, i) {
        Some(choose|i: int| is_first_path(paths, path, i))
    } else {
        None
    }
}

/// There is one first image of a path.
proof fn lemma_first_path(paths: Seq<Option<Seq<char>>>, path: Seq<char>, i: int)
    requires
        is_first_path(paths, path, i),
    ensures
        first_path(paths, path) == Some(i),
{
    let k = choose|k: int| is_first_path(paths, path, k);
    if k < i {
        assert(paths[k] != Some(path));
    } else if i < k {
        assert(paths[i] != Some(path));
    }
}

/// The image of a path in a cache: its segments, put together.
pub open spec fn is_cache_image(
    main: Seq<u8>,
    subs: Seq<Seq<u8>>,
    path: Seq<char>,
    image: Option<CodeImage>,
) -> bool {
    let segments = match cache_paths_in(main, subs) {
        Some(paths) => match first_path(paths, path) {
            Some(i) => cache_segments_in(main, subs, i),
            None => None,
        },
        None => None,
    };
    match segments {
        Some(s) => image matches Some(c) && c.bytes@ == combined_bytes(s) && c.segments@
            == combined_segments(s),
        None => image is None,
    }
}

/// An image of the shared library cache, by its path.
pub fn dyld_image(main: &[u8], subs: &Vec<&[u8]>, path: &str) -> (r: Option<CodeImage>)
    ensures
        is_cache_image(main@, slice_views(subs@), path@, r),
{
    let paths = match cache_paths(main, subs) {
        Some(p) => p,
        None => {
            return None;
        },
    };
    let ghost views = path_views(paths@);
    match find_path(&paths, path) {
        Some(i) => {
            proof {
                lemma_first_path(views, path@, i as int);
            }
            match cache_segments(main, subs, i) {
                Some(raw) => Some(macho_to_code_image(&raw)),
                None => None,
            }
        },
        None => {
            assert forall|k: int| !is_first_path(views, path@, k) by {
                if 0 <= k < views.len() {
                    assert(views[k] != Some(path@));
                }
            }
            None
        },
    }
}

/// The names of the caches of an architecture, best first.
pub open spec fn cache_suffixes(arch: Seq<char>) -> Seq<Seq<char>> {
    if arch == "aarch64"@ {
        seq!["arm64e"@, "arm64"@]
    } else if arch == "amd64"@ {
        seq!["x86_64h"@, "x86_64"@]
    } else {
        seq![]
    }
}

/// The directories of caches, best first.
pub open spec fn cache_prefixes() -> Seq<Seq<char>> {
    seq![
        "/System/Volumes/Preboot/Cryptexes/OS/System/Library/dyld"@,
        "/System/Cryptexes/OS/System/Library/dyld"@,
        "/System/Library/dyld"@,
    ]
}

/// The cache of a name in a directory.
pub open spec fn cache_path(prefix: Seq<char>, suffix: Seq<char>) -> Seq<char> {
    prefix + "/dyld_shared_cache_"@ + suffix
}

/// The cache of a name in a directory.
fn make_cache_path(prefix: &str, suffix: &str) -> (s: String)
    ensures
        s@ == cache_path(prefix@, suffix@),
{
    let mut s = prefix.to_owned();
    s.append("/dyld_shared_cache_");
    s.append(suffix);
    s
}

/// Where the shared library cache may be, in the order in which it is looked for.
pub fn dyld_cache_paths(arch: &str) -> (out: Vec<String>)
    ensures
        out@.len() == 3 * cache_suffixes(arch@).len(),
        forall|i: int, k: int|
            0 <= i < 3 && 0 <= k < cache_suffixes(arch@).len() ==> (#[trigger] out@[i
                * cache_suffixes(arch@).len() + k])@ == cache_path(
                #[trigger] cache_prefixes()[i],
                #[trigger] cache_suffixes(arch@)[k],
            ),
{
    let mut out: Vec<String> = Vec::new();
    let (first, second): (&str, &str) = if same_text(arch, "aarch64") {
        ("arm64e", "arm64")
    } else if same_text(arch, "amd64") {
        ("x86_64h", "x86_64")
    } else {
        return out;
    };
    out.push(make_cache_path("/System/Volumes/Preboot/Cryptexes/OS/System/Library/dyld", first));
    out.push(make_cache_path("/System/Volumes/Preboot/Cryptexes/OS/System/Library/dyld", second));
    out.push(make_cache_path("/System/Cryptexes/OS/System/Library/dyld", first));
    out.push(make_cache_path("/System/Cryptexes/OS/System/Library/dyld", second));
    out.push(make_cache_path("/System/Library/dyld", first));
    out.push(make_cache_path("/System/Library/dyld", second));
    proof {
        let n = cache_suffixes(arch@).len();
        assert forall|i: int, k: int| 0 <= i < 3 && 0 <= k < n implies (#[trigger] out@[i * n + k])@
            == cache_path(
            #[trigger] cache_prefixes()[i],
            #[trigger] cache_suffixes(arch@)[k],
        ) by {
            reveal_strlit("aarch64");
            reveal_strlit("amd64");
            assert(i == 0 || i == 1 || i == 2);
            assert(k == 0 || k == 1);
        }
    }
    out
}

/// A part of a cache, by its number.
pub fn subcache_path(main: &str, index: u32) -> (s: String)
    ensures
        s@ == main@ + "."@ + dec(index as nat),
{
    let mut s = main.to_owned();
    s.append(".");
    push_dec(&mut s, index as u64);
    s
}

/// The part of a cache that holds symbols.
pub fn symbols_path(main: &str) -> (s: String)
    ensures
        s@ == main@ + ".symbols"@,
{
    let mut s = main.to_owned();
    s.append(".symbols");
    s
}

/// The images that were loaded, or could not be, by path.
pub struct ImageCache {
    paths: Vec<String>,
    images: Vec<Option<Arc<CodeImage>>>,
}

/// The position of a path.
pub open spec fn path_at(paths: Seq<Seq<char>>, path: Seq<char>, i: int) -> bool {
    0 <= i < paths.len() && paths[i] == path
}

impl ImageCache {
    /// The paths, oldest first.
    pub closed spec fn paths(self) -> Seq<Seq<char>> {
        self.paths@.map_values(|p: String| p@)
    }

    /// What was loaded for each.
    pub closed spec fn images(self) -> Seq<Option<Arc<CodeImage>>> {
        self.images@
    }

    /// Something is known of each path, and of each path once.
    pub open spec fn wf(self) -> bool {
        &&& self.paths().len() == self.images().len()
        &&& forall|i: int, j: int|
            0 <= i < j < self.paths().len() ==> #[trigger] self.paths()[i]
                != #[trigger] self.paths()[j]
    }

    /// Nothing known.
    pub fn new() -> (c: Self)
        ensures
            c.wf(),
            c.paths().len() == 0,
    {
        ImageCache { paths: Vec::new(), images: Vec::new() }
    }

    /// What is known of a path: the image, or that it could not be loaded.
    pub fn lookup(&self, path: &str) -> (r: Option<Option<Arc<CodeImage>>>)
        requires
            self.wf(),
        ensures
            match r {
                Some(image) => exists|i: int|
                    #[trigger] path_at(self.paths(), path@, i) && self.images()[i] == image,
                None => forall|i: int| !path_at(self.paths(), path@, i),
            },
    {
        let mut i: usize = 0;
        while i < self.paths.len()
            invariant
                i <= self.paths@.len(),
                self.wf(),
                forall|j: int| 0 <= j < i ==> self.paths()[j] != path@,
            decreases self.paths@.len() - i,
        {
            assert(self.paths()[i as int] == self.paths@[i as int]@);
            if same_text(self.paths[i].as_str(), path) {
                assert(path_at(self.paths(), path@, i as int));
                assert(self.paths().len() == self.paths@.len());
                return Some(
                    match &self.images[i] {
                        Some(image) => Some(image.clone()),
                        None => None,
                    },
                );
            }
            i = i + 1;
        }
        None
    }

    /// Remembers what came of loading a path that was not known.
    pub fn remember(&mut self, path: &str, image: Option<Arc<CodeImage>>)
        requires
            old(self).wf(),
            forall|i: int| !path_at(old(self).paths(), path@, i),
        ensures
            final(self).wf(),
            final(self).paths() == old(self).paths().push(path@),
            final(self).images() == old(self).images().push(image),
    {
        let ghost before = self.paths();
        self.paths.push(path.to_owned());
        self.images.push(image);
        proof {
            assert(self.paths() =~= before.push(path@));
            assert forall|i: int, j: int| 0 <= i < j < self.paths().len() implies
                #[trigger] self.paths()[i] != #[trigger] self.paths()[j] by {
                if j < before.len() {
                    assert(before[i] != before[j]);
                } else {
                    assert(!path_at(before, path@, i));
                }
            }
        }
    }
}

/// The law of located functions: the function around an address spans the first symbol that covers it,
/// and the address lies in it as far from its start as it was linked; it bears the symbol's name.
pub proof fn functions_span_their_symbol(b: LoadedBinary, address: u64, f: LocatedFunction, k: int)
    requires
        is_located(b, address, f),
        b.base_avma <= address,
        address - b.base_avma + b.text_svma <= u64::MAX,
        ({
            let svma = address - b.base_avma + b.text_svma;
            let s = b.symbols@;
            &&& 0 <= k < s.len()
            &&& s[k].start_svma <= svma < s[k].end_svma
            &&& forall|j: int|
                0 <= j < k ==> !((#[trigger] s[j]).start_svma <= svma < s[j].end_svma)
            &&& b.text_svma <= s[k].start_svma
            &&& s[k].end_svma - b.text_svma + b.base_avma <= u64::MAX
        }),
    ensures
        f.function_name@ == b.symbols@[k].function_name@,
        f.language@ == b.symbols@[k].language@,
        f.binary_path@ == b.path@,
        f.fn_start_svma == b.symbols@[k].start_svma,
        f.len == b.symbols@[k].end_svma - b.symbols@[k].start_svma,
        f.base_address <= address < f.end_address,
        f.end_address - f.base_address == f.len,
        address - f.base_address == (address - b.base_avma + b.text_svma)
            - b.symbols@[k].start_svma,
{
    let s = b.symbols@;
    let svma = (address - b.base_avma + b.text_svma) as u64;
    assert(svma_of(b.base_avma, b.text_svma, address) == svma);
    assert(is_first_cover(s, svma, k));
    let m = choose|m: int| is_first_cover(s, svma, m);
    assert(is_first_cover(s, svma, m));
    if m < k {
        assert(!(s[m].start_svma <= svma < s[m].end_svma));
    } else if k < m {
        assert(!(s[k].start_svma <= svma < s[k].end_svma));
    }
    assert(first_cover(s, svma) == Some(k));
}

/// The law of places without a symbol: thirty-two bytes are shown in front of the address and as many
/// from it on, named by the place in the file.
pub proof fn places_without_a_symbol_have_a_window(b: LoadedBinary, address: u64, f: LocatedFunction)
    requires
        is_located(b, address, f),
        b.base_avma <= address,
        address - b.base_avma + b.text_svma <= u64::MAX - 32,
        address - b.base_avma >= 32,
        address + 32 <= u64::MAX,
        forall|j: int|
            0 <= j < b.symbols@.len() ==> !((#[trigger] b.symbols@[j]).start_svma <= address
                - b.base_avma + b.text_svma < b.symbols@[j].end_svma),
    ensures
        f.base_address == address - 32,
        f.end_address == address + 32,
        f.len == 64,
        f.fn_start_svma == address - b.base_avma + b.text_svma - 32,
        f.function_name@ == base_name(b.path@) + "+0x"@ + hex(
            (address - b.base_avma + b.text_svma) as nat,
        ),
{
    let s = b.symbols@;
    let svma = (address - b.base_avma + b.text_svma) as u64;
    assert(svma_of(b.base_avma, b.text_svma, address) == svma);
    assert(first_cover(s, svma) is None) by {
        assert forall|m: int| !is_first_cover(s, svma, m) by {
            if 0 <= m < s.len() {
                assert(!(s[m].start_svma <= svma < s[m].end_svma));
            }
        }
    }
    reveal_strlit("+");
    reveal_strlit("0x");
    reveal_strlit("+0x");
    assert(offset_label(base_name(b.path@), svma) =~= base_name(b.path@) + "+0x"@ + hex(
        svma as nat,
    ));
}

/// The law of code sources: the file's own code goes before what the target has in memory, that before
/// what came with the image, and that before what was fetched.
pub proof fn nearer_code_goes_first(
    binary: LoadedBinary,
    f: LocatedFunction,
    image: Option<Arc<CodeImage>>,
    from_target: Option<Vec<u8>>,
    from_source: Option<Vec<u8>>,
)
    ensures
        ({
            let code = code_of(binary, f, image, from_target, from_source);
            let in_file = image is Some && image->0.bytes_at(
                f.fn_start_svma as int,
                f.len as int,
            ) is Some;
            let with_image = binary.text_bytes is Some && binary.text_svma <= f.fn_start_svma
                && f.fn_start_svma - binary.text_svma + f.len <= binary.text_bytes->0@.len();
            &&& in_file ==> code == image->0.bytes_at(f.fn_start_svma as int, f.len as int)
            &&& !in_file && from_target is Some ==> code == Some(from_target->0@)
            &&& !in_file && from_target is None && with_image ==> code is Some && code->0.len()
                == f.len && forall|x: int|
                0 <= x < f.len ==> #[trigger] code->0[x] == binary.text_bytes->0@[f.fn_start_svma
                    - binary.text_svma + x]
            &&& !in_file && from_target is None && !with_image && from_source is Some ==> code
                == Some(from_source->0@)
            &&& !in_file && from_target is None && !with_image && from_source is None ==> code
                is None
        }),
{
}

/// The law of windows on unmapped memory: they begin at a whole word, about half a window in front of
/// the address.
pub proof fn windows_begin_at_a_word(address: u64)
    ensures
        window_start(address) % 4 == 0,
        address >= 128 ==> address - 131 <= window_start(address) <= address - 128,
        address < 128 ==> window_start(address) == 0,
{
    let a: u64 = if address < 128 {
        0
    } else {
        (address - 128) as u64
    };
    assert((a & !0x3u64) % 4 == 0 && a & !0x3u64 <= a && a - (a & !0x3u64) <= 3) by (bit_vector);
}

/// The law of names that are searched: one that holds the text anywhere is enough, and without one
/// nothing is found.
pub proof fn names_are_searched_throughout(
    symbols: Seq<LiveSymbolOwned>,
    needle: Seq<u8>,
    k: int,
    before: Seq<u8>,
    behind: Seq<u8>,
)
    requires
        0 <= k < symbols.len(),
        symbols[k].name@ == before + needle + behind,
    ensures
        names_hold(symbols, needle),
        !names_hold(Seq::empty(), needle),
{
    let name = symbols[k].name@;
    let at = before.len() as int;
    assert(name.subrange(at, at + needle.len()) =~= needle);
    assert(occurs_at(name, needle, at));
    assert(occurs(symbols[k].name@, needle));
}

} // verus!
