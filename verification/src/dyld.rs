//! The images that are loaded in a target, as its dynamic loader lists them.
use vstd::prelude::*;
use vstd::slice::slice_subrange;
use vstd::utf8::{decode_utf8, valid_utf8};

use crate::macho::{nul_position, until_nul, MachoSections};
use crate::shade::{push_signed, signed_dec};
use crate::text::{dec, hex_prefixed, push_dec, push_hex_prefixed, utf8_text};
use crate::unwind::{text_mapping, CapturedImageMapping, MappingView};
use crate::wire::{le_u32, le_u64, read_u32, read_u64};

verus! {

/// The length of the loader's list head.
pub const ALL_IMAGE_INFOS_BYTES: usize = 328;

/// The length of an entry of its list.
pub const IMAGE_INFO_BYTES: usize = 24;

/// How much is read of a path.
pub const PATH_BYTES: usize = 4096;

/// A loaded image.
#[derive(Debug)]
pub struct ImageEntry {
    pub path: String,
    /// Where its header is mapped.
    pub load_address: u64,
    /// The date of the file that it was loaded from.
    pub file_mod_date: u64,
}

/// What was being read when reading failed.
#[derive(Clone, Copy, Debug, PartialEq, Eq, Structural)]
pub enum ReadWhat {
    ListHead,
    ImageArray,
}

/// Why the list could not be read.
#[derive(Clone, Copy, Debug, PartialEq, Eq, Structural)]
pub enum WalkError {
    TaskInfo(i32),
    MachVmRead { what: ReadWhat, addr: u64, len: usize, kr: i32 },
    NoImageInfoAddr,
    BadPath { load_address: u64 },
}

/// What was being read, in words.
pub open spec fn what_text(w: ReadWhat) -> Seq<char> {
    match w {
        ReadWhat::ListHead => "dyld_all_image_infos"@,
        ReadWhat::ImageArray => "dyld image array"@,
    }
}

/// What is said of an error.
pub open spec fn walk_error_text(e: WalkError) -> Seq<char> {
    match e {
        WalkError::TaskInfo(kr) => "task_info(TASK_DYLD_INFO) failed: kr="@ + signed_dec(kr),
        WalkError::MachVmRead { what, addr, len, kr } => "mach_vm_read of "@ + what_text(what)
            + " at "@ + hex_prefixed(addr as nat) + " (len "@ + dec(len as nat) + ") failed: kr="@
            + signed_dec(kr),
        WalkError::NoImageInfoAddr =>
            "dyld reported all_image_info_addr=0 — has dyld initialised?"@,
        WalkError::BadPath { load_address } => "invalid path bytes for image at "@ + hex_prefixed(
            load_address as nat,
        ),
    }
}

impl WalkError {
    /// What is said of the error.
    pub fn message(&self) -> (s: String)
        ensures
            s@ == walk_error_text(*self),
    {
        match self {
            WalkError::TaskInfo(kr) => {
                let mut s = "task_info(TASK_DYLD_INFO) failed: kr=".to_owned();
                push_signed(&mut s, *kr);
                s
            },
            WalkError::MachVmRead { what, addr, len, kr } => {
                let mut s = "mach_vm_read of ".to_owned();
                match what {
                    ReadWhat::ListHead => {
                        s.append("dyld_all_image_infos");
                    },
                    ReadWhat::ImageArray => {
                        s.append("dyld image array");
                    },
                }
                s.append(" at ");
                push_hex_prefixed(&mut s, *addr);
                s.append(" (len ");
                push_dec(&mut s, *len as u64);
                s.append(") failed: kr=");
                push_signed(&mut s, *kr);
                s
            },
            WalkError::NoImageInfoAddr =>
                "dyld reported all_image_info_addr=0 — has dyld initialised?".to_owned(),
            WalkError::BadPath { load_address } => {
                let mut s = "invalid path bytes for image at ".to_owned();
                push_hex_prefixed(&mut s, *load_address);
                s
            },
        }
    }
}

/// The error of a read that failed or came short.
pub fn read_result(what: ReadWhat, addr: u64, len: usize, kr: i32, got: usize) -> (r: Result<
    (),
    WalkError,
>)
    ensures
        r == (if kr != 0 || got != len {
            Err::<(), WalkError>(WalkError::MachVmRead { what, addr, len, kr })
        } else {
            Ok(())
        }),
{
    if kr != 0 || got != len {
        return Err(WalkError::MachVmRead { what, addr, len, kr });
    }
    Ok(())
}

/// Where the loader's list head is.
pub fn list_head_address(kr: i32, all_image_info_addr: u64) -> (r: Result<u64, WalkError>)
    ensures
        r == (if kr != 0 {
            Err::<u64, WalkError>(WalkError::TaskInfo(kr))
        } else if all_image_info_addr == 0 {
            Err(WalkError::NoImageInfoAddr)
        } else {
            Ok(all_image_info_addr)
        }),
{
    if kr != 0 {
        return Err(WalkError::TaskInfo(kr));
    }
    if all_image_info_addr == 0 {
        return Err(WalkError::NoImageInfoAddr);
    }
    Ok(all_image_info_addr)
}

/// Where the list is and how many entries it has, by its head; nothing where it is
/// empty.
pub fn list_place(head: &[u8]) -> (r: Option<(u64, u32)>)
    requires
        head@.len() == ALL_IMAGE_INFOS_BYTES,
    ensures
        r == (if le_u64(head@, 8) == 0 || le_u32(head@, 4) == 0 {
            None
        } else {
            Some((le_u64(head@, 8), le_u32(head@, 4)))
        }),
{
    let count: u32 = read_u32(head, 4);
    let array: u64 = read_u64(head, 8);
    if array == 0 || count == 0 {
        return None;
    }
    Some((array, count))
}

/// An entry of the list.
#[derive(Clone, Copy, Debug, PartialEq, Eq, Structural)]
pub struct ImageInfo {
    pub load_address: u64,
    /// Where its path is.
    pub file_path: u64,
    pub file_mod_date: u64,
}

/// The entry at `at`.
pub open spec fn info_at(s: Seq<u8>, at: int) -> ImageInfo {
    ImageInfo {
        load_address: le_u64(s, at),
        file_path: le_u64(s, at + 8),
        file_mod_date: le_u64(s, at + 16),
    }
}

/// The first `n` entries, without those that name no image or no path.
pub open spec fn infos_in(s: Seq<u8>, n: nat) -> Seq<ImageInfo>
    decreases n,
{
    if n == 0 {
        seq![]
    } else {
        let before = infos_in(s, (n - 1) as nat);
        let info = info_at(s, (n - 1) * 24);
        if info.load_address == 0 || info.file_path == 0 {
            before
        } else {
            before.push(info)
        }
    }
}

/// The entries of the list.
pub fn image_infos(bytes: &[u8], count: u32) -> (r: Vec<ImageInfo>)
    requires
        bytes@.len() == count * 24,
    ensures
        r@ == infos_in(bytes@, count as nat),
{
    let mut r: Vec<ImageInfo> = Vec::new();
    let len: usize = bytes.len();
    let mut i: u32 = 0;
    let mut at: usize = 0;
    while i < count
        invariant
            len == bytes@.len(),
            len == count * 24,
            i <= count,
            at == i * 24,
            r@ == infos_in(bytes@, i as nat),
        decreases count - i,
    {
        let info = ImageInfo {
            load_address: read_u64(bytes, at),
            file_path: read_u64(bytes, at + 8),
            file_mod_date: read_u64(bytes, at + 16),
        };
        if info.load_address != 0 && info.file_path != 0 {
            r.push(info);
        }
        at = at + 24;
        i = i + 1;
    }
    r
}

/// The text in front of the first null byte; nothing where there is no null byte, or
/// what stands in front of it is no text.
pub fn read_c_string(bytes: &[u8]) -> (r: Option<String>)
    ensures
        match r {
            Some(s) => bytes@.contains(0u8) && valid_utf8(until_nul(bytes@)) && s@ == decode_utf8(
                until_nul(bytes@),
            ),
            None => !bytes@.contains(0u8) || !valid_utf8(until_nul(bytes@)),
        },
{
    let n: usize = nul_position(bytes);
    if n == bytes.len() {
        return None;
    }
    assert(bytes@[n as int] == 0);
    let text = slice_subrange(bytes, 0, n);
    assert(text@ =~= bytes@.take(n as int));
    utf8_text(text)
}

/// The images whose path could be read.
pub open spec fn entries_of(infos: Seq<ImageInfo>, paths: Seq<Option<String>>) -> Seq<ImageEntry>
    decreases infos.len(),
{
    if infos.len() == 0 {
        seq![]
    } else {
        let before = entries_of(infos.drop_last(), paths.drop_last());
        match paths.last() {
            Some(path) => before.push(
                ImageEntry {
                    path,
                    load_address: infos.last().load_address,
                    file_mod_date: infos.last().file_mod_date,
                },
            ),
            None => before,
        }
    }
}

/// The models of images: path, address, date.
pub open spec fn entry_views(s: Seq<ImageEntry>) -> Seq<(Seq<char>, u64, u64)> {
    s.map_values(|e: ImageEntry| (e.path@, e.load_address, e.file_mod_date))
}

/// The images, given their paths as far as they could be read.
pub fn enumerate_images(infos: &Vec<ImageInfo>, paths: &Vec<Option<String>>) -> (r: Vec<ImageEntry>)
    requires
        infos@.len() == paths@.len(),
    ensures
        entry_views(r@) == entry_views(entries_of(infos@, paths@)),
{
    let mut r: Vec<ImageEntry> = Vec::new();
    let mut i: usize = 0;
    assert(entry_views(r@) =~= entry_views(entries_of(infos@.take(0), paths@.take(0))));
    while i < infos.len()
        invariant
            infos@.len() == paths@.len(),
            i <= infos@.len(),
            entry_views(r@) == entry_views(
                entries_of(infos@.take(i as int), paths@.take(i as int)),
            ),
        decreases infos@.len() - i,
    {
        let ghost before = r@;
        let ghost model = entries_of(infos@.take(i as int), paths@.take(i as int));
        proof {
            assert(infos@.take(i + 1).drop_last() =~= infos@.take(i as int));
            assert(paths@.take(i + 1).drop_last() =~= paths@.take(i as int));
            assert(infos@.take(i + 1).last() == infos@[i as int]);
            assert(paths@.take(i + 1).last() == paths@[i as int]);
        }
        match &paths[i] {
            Some(path) => {
                let e = ImageEntry {
                    path: path.clone(),
                    load_address: infos[i].load_address,
                    file_mod_date: infos[i].file_mod_date,
                };
                r.push(e);
                proof {
                    let m = ImageEntry {
                        path: *path,
                        load_address: infos@[i as int].load_address,
                        file_mod_date: infos@[i as int].file_mod_date,
                    };
                    assert(entry_views(r@) =~= entry_views(before).push(
                        (e.path@, e.load_address, e.file_mod_date),
                    ));
                    assert(entry_views(model.push(m)) =~= entry_views(model).push(
                        (path@, m.load_address, m.file_mod_date),
                    ));
                }
            },
            None => {},
        }
        i = i + 1;
    }
    assert(infos@.take(i as int) =~= infos@);
    assert(paths@.take(i as int) =~= paths@);
    r
}

/// An image whose sections were read, where they could be.
pub struct ParsedImage {
    pub path: String,
    pub sections: Option<MachoSections>,
}

/// Where the code of an image is mapped, where that is known and not empty.
pub open spec fn code_range(i: ParsedImage) -> Option<(u64, u64)> {
    match i.sections {
        Some(s) => match s.text_avma {
            Some(t) => if t.start < t.end {
                Some((t.start, t.end))
            } else {
                None
            },
            None => None,
        },
        None => None,
    }
}

/// The code of the images, as an unwinder takes it.
pub open spec fn code_mappings(s: Seq<ParsedImage>) -> Seq<MappingView>
    decreases s.len(),
{
    if s.len() == 0 {
        seq![]
    } else {
        let before = code_mappings(s.drop_last());
        match code_range(s.last()) {
            Some((start, end)) => before.push(
                text_mapping(s.last().path@, start, (end - start) as u64, 0),
            ),
            None => before,
        }
    }
}

/// The code of the images of a target, to begin with. Images whose code is not known
/// are passed over.
pub fn seed_target_images(images: &Vec<ParsedImage>) -> (r: Vec<CapturedImageMapping>)
    ensures
        crate::unwind::mapping_views(r@) == code_mappings(images@),
{
    let mut r: Vec<CapturedImageMapping> = Vec::new();
    let mut i: usize = 0;
    assert(images@.take(0) =~= seq![]);
    assert(crate::unwind::mapping_views(r@) =~= code_mappings(images@.take(0)));
    while i < images.len()
        invariant
            i <= images@.len(),
            crate::unwind::mapping_views(r@) == code_mappings(images@.take(i as int)),
        decreases images@.len() - i,
    {
        let ghost before = r@;
        proof {
            assert(images@.take(i + 1).drop_last() =~= images@.take(i as int));
            assert(images@.take(i + 1).last() == images@[i as int]);
        }
        match &images[i].sections {
            Some(sections) => match &sections.text_avma {
                Some(text) => {
                    if text.start < text.end {
                        let m = CapturedImageMapping::executable_text(
                            images[i].path.clone(),
                            text.start,
                            text.end - text.start,
                            0,
                        );
                        let ghost added = m@;
                        r.push(m);
                        assert(crate::unwind::mapping_views(r@) =~= crate::unwind::mapping_views(
                            before,
                        ).push(added));
                    }
                },
                None => {},
            },
            None => {},
        }
        i = i + 1;
    }
    assert(images@.take(i as int) =~= images@);
    r
}

/// The code of an image that was loaded, as an unwinder takes it; nothing for one
/// without a size or a path, or whose code is not that of a file.
pub fn mapping_of_load(path: &str, base_avma: u64, vmsize: u64, has_text_bytes: bool) -> (m: Option<
    CapturedImageMapping,
>)
    ensures
        match m {
            Some(m) => vmsize != 0 && path@.len() > 0 && !has_text_bytes && m@ == text_mapping(
                path@,
                base_avma,
                vmsize,
                0,
            ),
            None => vmsize == 0 || path@.len() == 0 || has_text_bytes,
        },
{
    if vmsize == 0 || path.unicode_len() == 0 || has_text_bytes {
        return None;
    }
    Some(CapturedImageMapping::executable_text(path.to_owned(), base_avma, vmsize, 0))
}

/// The law of image lists: every record with an address and a path is taken, in its order, each
/// behind the other.
pub proof fn image_records_are_taken(s: Seq<u8>, n: nat)
    ensures
        infos_in(s, n) == Seq::new(
            n,
            |i: int|
                ImageInfo {
                    load_address: le_u64(s, i * 24),
                    file_path: le_u64(s, i * 24 + 8),
                    file_mod_date: le_u64(s, i * 24 + 16),
                },
        ).filter(|i: ImageInfo| i.load_address != 0 && i.file_path != 0),
    decreases n,
{
    reveal(Seq::filter);
    let record = |i: int|
        ImageInfo {
            load_address: le_u64(s, i * 24),
            file_path: le_u64(s, i * 24 + 8),
            file_mod_date: le_u64(s, i * 24 + 16),
        };
    if n > 0 {
        image_records_are_taken(s, (n - 1) as nat);
        assert(Seq::new(n, record).drop_last() =~= Seq::new((n - 1) as nat, record));
        assert(Seq::new(n, record).last() == record(n - 1));
    } else {
        assert(Seq::new(n, record) =~= seq![]);
    }
}

/// The law of images: one whose path could be read is listed with its path, its address and its date,
/// in the order of the records.
pub proof fn images_with_paths_are_listed(infos: Seq<ImageInfo>, paths: Seq<Option<String>>)
    requires
        infos.len() == paths.len(),
    ensures
        entries_of(infos, paths) == Seq::new(infos.len(), |i: int| (infos[i], paths[i])).filter(
            |p: (ImageInfo, Option<String>)| p.1 is Some,
        ).map_values(
            |p: (ImageInfo, Option<String>)|
                ImageEntry {
                    path: p.1->0,
                    load_address: p.0.load_address,
                    file_mod_date: p.0.file_mod_date,
                },
        ),
    decreases infos.len(),
{
    reveal(Seq::filter);
    let both = Seq::new(infos.len(), |i: int| (infos[i], paths[i]));
    let known = |p: (ImageInfo, Option<String>)| p.1 is Some;
    let entry = |p: (ImageInfo, Option<String>)|
        ImageEntry {
            path: p.1->0,
            load_address: p.0.load_address,
            file_mod_date: p.0.file_mod_date,
        };
    if infos.len() > 0 {
        let a = infos.drop_last();
        let b = paths.drop_last();
        images_with_paths_are_listed(a, b);
        let fewer = Seq::new(a.len(), |i: int| (a[i], b[i]));
        assert(both.drop_last() =~= fewer);
        assert(both.filter(known).map_values(entry) =~= if known(both.last()) {
            fewer.filter(known).map_values(entry).push(entry(both.last()))
        } else {
            fewer.filter(known).map_values(entry)
        });
    } else {
        assert(both =~= seq![]);
        assert(both.filter(known).map_values(entry) =~= seq![]);
    }
}

/// The law of mapped code: every image with code is mapped for reading and executing, from the start
/// of its code to its end, in the order of the images.
pub proof fn images_with_code_are_mapped(s: Seq<ParsedImage>)
    ensures
        code_mappings(s) == s.filter(
            |i: ParsedImage|
                i.sections is Some && i.sections->0.text_avma is Some
                    && i.sections->0.text_avma->0.start < i.sections->0.text_avma->0.end,
        ).map_values(
            |i: ParsedImage|
                MappingView {
                    start: i.sections->0.text_avma->0.start,
                    end: i.sections->0.text_avma->0.end,
                    file_offset: 0,
                    is_read: true,
                    is_write: false,
                    is_executable: true,
                    path: i.path@,
                },
        ),
    decreases s.len(),
{
    reveal(Seq::filter);
    let has_code = |i: ParsedImage|
        i.sections is Some && i.sections->0.text_avma is Some
            && i.sections->0.text_avma->0.start < i.sections->0.text_avma->0.end;
    let mapping = |i: ParsedImage|
        MappingView {
            start: i.sections->0.text_avma->0.start,
            end: i.sections->0.text_avma->0.end,
            file_offset: 0,
            is_read: true,
            is_write: false,
            is_executable: true,
            path: i.path@,
        };
    if s.len() > 0 {
        let init = s.drop_last();
        images_with_code_are_mapped(init);
        assert(s.filter(has_code).map_values(mapping) =~= if has_code(s.last()) {
            init.filter(has_code).map_values(mapping).push(mapping(s.last()))
        } else {
            init.filter(has_code).map_values(mapping)
        });
    } else {
        assert(s.filter(has_code).map_values(mapping) =~= seq![]);
    }
}

} // verus!
