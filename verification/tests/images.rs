use std::sync::Arc;

use stax::binaries::{BinaryRegistry, CodeImage, CodeSegment, LiveSymbolOwned, LoadedBinary};
use stax::code::{
    dyld_cache_paths, dyld_image, find_path, load_image, macho_to_code_image, reads_file,
    resolve_unmapped, subcache_path, symbols_path, unmapped_window, ImageCache, Located, RawSegment,
};
use stax::dyld::{
    enumerate_images, image_infos, list_head_address, list_place, mapping_of_load, read_c_string,
    read_result, seed_target_images, ImageInfo, ParsedImage, ReadWhat, WalkError,
};
use stax::image_scan::{
    build_image, loaded_event, parse_disk_macho, parsed_macho, symbols_of, unloaded_event,
    CachedImage, Cpu, DiskImageError, DyldRead, FileSegment, FileSymbol, FoundImage, ImageChange,
    ImageScanner, MachoHead, MissingImage,
};
use stax::libproc::{
    list_thread_ids, region_of, thread_list_query, thread_name, thread_name_by_id, thread_name_of,
    RawRegion, Region, RegionWalk, ThreadList,
};
use stax::macho::{
    parse_header, parse_image, parse_load_commands, section_data, sections_to_read, BytesSlot, MachoSections,
    SectionData,
};

fn put32(out: &mut Vec<u8>, x: u32) {
    out.extend_from_slice(&x.to_le_bytes());
}

fn put64(out: &mut Vec<u8>, x: u64) {
    out.extend_from_slice(&x.to_le_bytes());
}

fn put_name(out: &mut Vec<u8>, name: &str) {
    let mut field = [0u8; 16];
    field[..name.len()].copy_from_slice(name.as_bytes());
    out.extend_from_slice(&field);
}

/// A program of one segment with symbols, at `base`. Positions in the file count from
/// `at`.
fn macho(base: u64, at: u32, segment: &str, symbols: &[(u64, &str)]) -> Vec<u8> {
    let mut strings = vec![0u8];
    let mut table = Vec::new();
    for (address, name) in symbols {
        put32(&mut table, strings.len() as u32);
        table.extend_from_slice(&[0x0f, 1, 0, 0]);
        put64(&mut table, *address);
        strings.extend_from_slice(name.as_bytes());
        strings.push(0);
    }
    let head = 32 + 72 + 24 + 24;
    let total = head + table.len() + strings.len();
    let mut out = Vec::new();
    for x in [0xfeed_facf, 0x0100_000c, 0, 2, 3, 72 + 24 + 24, 0, 0] {
        put32(&mut out, x);
    }
    put32(&mut out, 0x19);
    put32(&mut out, 72);
    put_name(&mut out, segment);
    put64(&mut out, base);
    put64(&mut out, 0x4000);
    put64(&mut out, at as u64);
    put64(&mut out, total as u64);
    for x in [5, 5, 0, 0] {
        put32(&mut out, x);
    }
    for x in [
        2,
        24,
        at + head as u32,
        symbols.len() as u32,
        at + (head + table.len()) as u32,
        strings.len() as u32,
    ] {
        put32(&mut out, x);
    }
    put32(&mut out, 0x1b);
    put32(&mut out, 24);
    out.extend_from_slice(&[7u8; 16]);
    out.extend_from_slice(&table);
    out.extend_from_slice(&strings);
    out
}

/// A cache with one image.
fn cache(path: &str, image_at: u64) -> Vec<u8> {
    let mut out = vec![0u8; 0x1000];
    out[..16].copy_from_slice(b"dyld_v1   arm64\0");
    let mut fields = Vec::new();
    for x in [0x100u32, 1, 0x120, 1] {
        put32(&mut fields, x);
    }
    out[16..32].copy_from_slice(&fields);
    let mut tables = Vec::new();
    put64(&mut tables, image_at);
    put64(&mut tables, 0x4000);
    put64(&mut tables, 0x1000);
    put64(&mut tables, 0);
    put64(&mut tables, image_at);
    put64(&mut tables, 0);
    put64(&mut tables, 0);
    put32(&mut tables, 0x800);
    put32(&mut tables, 0);
    out[0x100..0x100 + tables.len()].copy_from_slice(&tables);
    out[0x800..0x800 + path.len()].copy_from_slice(path.as_bytes());
    out.extend_from_slice(&macho(image_at, 0x1000, "__TEXT", &[]));
    out
}

#[test]
fn a_file_gives_its_segments() {
    let bytes = macho(0x1_0000_0000, 0, "__TEXT", &[(0x1_0000_0100, "_main")]);
    let n = bytes.len() as u64;
    let image = load_image(bytes.clone()).unwrap();
    assert_eq!(image.segments.len(), 1);
    let s = image.segments[0];
    assert_eq!((s.address, s.size, s.file_offset, s.file_size), (0x1_0000_0000, 0x4000, 0, n));
    assert_eq!(*image.bytes, bytes);
    assert_eq!(image.fetch(0x1_0000_0004, 4).unwrap(), &bytes[4..8]);
    assert!(image.fetch(0x1_0000_0000, 0x4000).is_none());
    assert!(load_image(b"no object file at all".to_vec()).is_none());
}

#[test]
fn a_cache_gives_its_images() {
    let bytes = cache("/usr/lib/libx.dylib", 0x1_8000_0000);
    let image = dyld_image(&bytes, &Vec::new(), "/usr/lib/libx.dylib").unwrap();
    assert_eq!(image.segments.len(), 1);
    assert_eq!(image.segments[0].address, 0x1_8000_0000);
    assert_eq!(image.segments[0].file_offset, 0);
    assert_eq!(image.segments[0].file_size as usize, image.bytes.len());
    assert_eq!(&image.bytes[..4], &0xfeed_facfu32.to_le_bytes());
    assert!(dyld_image(&bytes, &Vec::new(), "/usr/lib/liby.dylib").is_none());
    assert!(dyld_image(&bytes, &vec![&bytes[..]], "/usr/lib/libx.dylib").is_none());
    assert!(dyld_image(b"dyld", &Vec::new(), "/usr/lib/libx.dylib").is_none());
}

#[test]
fn segments_are_put_together() {
    let image = macho_to_code_image(&vec![
        RawSegment { address: 0x10, size: 8, data: Some(vec![1, 2]) },
        RawSegment { address: 0x20, size: 8, data: None },
        RawSegment { address: 0x30, size: 8, data: Some(Vec::new()) },
        RawSegment { address: 0x40, size: 8, data: Some(vec![3]) },
    ]);
    assert_eq!(*image.bytes, vec![1, 2, 3]);
    assert_eq!(
        image.segments.iter().map(|s| (s.address, s.file_offset, s.file_size)).collect::<Vec<_>>(),
        [(0x10, 0, 2), (0x40, 2, 1)]
    );
    assert_eq!(image.fetch(0x40, 1).unwrap(), [3]);
}

#[test]
fn paths_name_caches_and_their_parts() {
    let paths = dyld_cache_paths("aarch64");
    assert_eq!(paths.len(), 6);
    assert_eq!(
        paths[0],
        "/System/Volumes/Preboot/Cryptexes/OS/System/Library/dyld/dyld_shared_cache_arm64e"
    );
    assert_eq!(paths[5], "/System/Library/dyld/dyld_shared_cache_arm64");
    assert_eq!(dyld_cache_paths("amd64")[2], "/System/Cryptexes/OS/System/Library/dyld/dyld_shared_cache_x86_64h");
    assert!(dyld_cache_paths("mips").is_empty());
    assert_eq!(subcache_path("/c", 12), "/c.12");
    assert_eq!(symbols_path("/c"), "/c.symbols");
    assert_eq!(find_path(&vec![None, Some("a".into()), Some("a".into())], "a"), Some(1));
    assert!(!reads_file("") && !reads_file("[jit] f") && reads_file("/bin/ls"));
}

#[test]
fn images_are_looked_for_once() {
    let mut cache = ImageCache::new();
    assert!(cache.lookup("/a").is_none());
    cache.remember("/a", None);
    let image = CodeImage { bytes: Arc::new(vec![9]), segments: Vec::new() };
    cache.remember("/b", Some(Arc::new(image)));
    assert!(cache.lookup("/a").unwrap().is_none());
    assert_eq!(*cache.lookup("/b").unwrap().unwrap().bytes, vec![9]);
}

fn symbol(start: u64, end: u64, name: &str) -> LiveSymbolOwned {
    LiveSymbolOwned {
        start_svma: start,
        end_svma: end,
        name: name.as_bytes().to_vec(),
        function_name: name.to_owned(),
        language: "rust".to_owned(),
    }
}

fn registry() -> BinaryRegistry {
    let mut reg = BinaryRegistry::new();
    reg.insert(LoadedBinary {
        path: "/bin/app".into(),
        base_avma: 0x5000,
        avma_end: 0x6000,
        text_svma: 0x1000,
        arch: Some("aarch64".into()),
        is_executable: true,
        symbols: vec![symbol(0x1100, 0x1108, "work"), symbol(0x1200, 0x1200, "empty_one")],
        text_bytes: Some((0..=255).cycle().take(0x400).collect()),
    });
    reg
}

#[test]
fn code_is_located_and_resolved() {
    let reg = registry();
    let f = match reg.locate(0x5104) {
        Located::Function(f) => f,
        _ => panic!("no function"),
    };
    assert_eq!((f.function_name.as_str(), f.base_address, f.end_address, f.len), ("work", 0x5100, 0x5108, 8));
    let inline = reg.inline_code(&f).unwrap();
    assert_eq!(inline, [0, 1, 2, 3, 4, 5, 6, 7]);
    let image = Arc::new(CodeImage {
        bytes: Arc::new(vec![5; 16]),
        segments: vec![CodeSegment { address: 0x1100, size: 16, file_offset: 0, file_size: 16 }],
    });
    let r = reg.resolve(f, Some(image), Some(vec![6; 8]), None).unwrap();
    assert_eq!(r.bytes, vec![5; 8]);
    assert_eq!(r.binary_path, "/bin/app");
    let again = |target: Option<Vec<u8>>, source: Option<Vec<u8>>| {
        let f = match reg.locate(0x5104) {
            Located::Function(f) => f,
            _ => panic!("no function"),
        };
        reg.resolve(f, None, target, source).unwrap().bytes
    };
    assert_eq!(again(Some(vec![6; 8]), None), vec![6; 8]);
    assert_eq!(again(None, Some(vec![7; 8])), inline);
}

#[test]
fn addresses_without_symbols_get_a_window() {
    let reg = registry();
    let f = match reg.locate(0x5900) {
        Located::Function(f) => f,
        _ => panic!("no function"),
    };
    assert_eq!((f.fn_start_svma, f.len, f.language.as_str()), (0x1900 - 32, 64, "unknown"));
    assert!(f.function_name.starts_with("app"));
    assert!(reg.inline_code(&f).is_none());
    assert!(reg.resolve(f, None, None, None).is_none());
    assert!(matches!(reg.locate(0x9000), Located::Unmapped));
    assert!(reg.any_symbol_contains("ork"));
    assert!(reg.any_symbol_contains("") && !reg.any_symbol_contains("play"));
}

#[test]
fn unmapped_code_is_a_window_of_memory() {
    assert_eq!(unmapped_window(0x1003), 0x1003 - 131);
    assert_eq!(unmapped_window(5), 0);
    let r = resolve_unmapped(0x1003, vec![1; 256], Some("arm64".into()));
    assert_eq!(r.function_name, "(unmapped) 0x1003");
    assert_eq!((r.base_address, r.end_address), (0xf80, 0x1080));
    assert_eq!(r.binary_path, "(target memory)");
}

#[test]
fn a_program_on_disk_is_parsed() {
    let bytes = macho(
        0x1_0000_0000,
        0,
        "__TEXT",
        &[(0x40, "_b"), (0x20, "_a"), (0, "_zero"), (0x40, "_again"), (0x60, "")],
    );
    let p = parse_disk_macho(&bytes).unwrap();
    assert_eq!((p.text_svma, p.text_vmsize, p.is_executable), (0x1_0000_0000, 0x4000, true));
    assert_eq!(p.arch, Some("aarch64"));
    assert_eq!(p.uuid, Some([7; 16]));
    let spans: Vec<_> = p
        .symbols
        .iter()
        .map(|s| (s.start_svma, s.end_svma, String::from_utf8(s.name.clone()).unwrap()))
        .collect();
    assert_eq!(spans, [(0x20, 0x40, "_a".into()), (0x40, 0x44, "_b".into())]);
    for w in spans.windows(2) {
        assert!(w[0].0 < w[1].0);
    }
    assert_eq!(parse_disk_macho(b"nothing").err(), Some(DiskImageError::NotMachO));
    let other = macho(0, 0, "__DATA", &[]);
    assert_eq!(parse_disk_macho(&other).err(), Some(DiskImageError::NoTextSegment));
    let high = macho(0, 0, "__TEXT", &[(u64::MAX, "_end")]);
    assert_eq!(parse_disk_macho(&high).err(), Some(DiskImageError::SymbolWithoutRoom));
    let unnamed = macho(0, 0, "__TEXT", &[(u64::MAX, ""), (0x20, "_a")]);
    let p = parse_disk_macho(&unnamed).unwrap();
    assert_eq!((p.symbols.len(), p.symbols[0].start_svma, p.symbols[0].end_svma), (1, 0x20, 0x24));
    assert!(symbols_of(vec![FileSymbol { address: 4, name: None }]).is_empty());
}

#[test]
fn other_processors_have_no_name() {
    let head = |cpu| {
        Some(MachoHead {
            segments: vec![FileSegment { name: Some("__TEXT".into()), address: 1, size: 2 }],
            uuid: None,
            cpu,
            is_executable: false,
        })
    };
    assert_eq!(parsed_macho(head(Cpu::X86_64), Some(Vec::new())).unwrap().arch, Some("x86_64"));
    assert_eq!(parsed_macho(head(Cpu::Other), Some(Vec::new())).unwrap().arch, None);
}

#[test]
fn images_come_from_the_best_source() {
    let disk = parse_disk_macho(&macho(0x100, 0, "__TEXT", &[(0x100, "_m")])).unwrap();
    let img = build_image("/bin/a", 0x7000, 0x8000, Some(disk), None, Some("aarch64"));
    assert_eq!((img.vmsize, img.text_svma, img.symbols.len()), (0x8000, 0x100, 1));
    let cached = CachedImage { text_svma: 5, text_vmsize: 0x9000, uuid: None, symbols: Vec::new() };
    let img = build_image("/usr/lib/b", 0x7000, 0x8000, None, Some(cached), Some("x86_64"));
    assert_eq!((img.vmsize, img.text_svma, img.arch), (0x9000, 5, Some("x86_64")));
    let img = build_image("/tmp/c", 0x7000, 0x8000, None, None, Some("x86_64"));
    assert_eq!((img.vmsize, img.text_svma, img.arch), (0x8000, 0x7000, None));
    let e = loaded_event(9, &img);
    assert_eq!((e.pid, e.base_avma, e.path, e.symbols.len()), (9, 0x7000, "/tmp/c", 0));
    assert_eq!(unloaded_event(9, &img).base_avma, 0x7000);
}

fn region(path: &str, address: u64, is_executable: bool) -> Region {
    Region { address, size: 0x100, is_executable, is_readable: true, path: path.into() }
}

#[test]
fn scans_tell_what_came_and_went() {
    let mut scanner = ImageScanner::new();
    let first = vec![
        region("/bin/a", 0x1000, true),
        region("/bin/a", 0x1000, true),
        region("/bin/a", 0x2000, false),
        region("", 0x3000, true),
        region("/lib/b", 0x4000, true),
    ];
    let missing = scanner.missing(&first);
    assert_eq!(
        missing.iter().map(|m| (m.path.as_str(), m.base_avma)).collect::<Vec<_>>(),
        [("/bin/a", 0x1000), ("/lib/b", 0x4000)]
    );
    for m in missing {
        scanner.add_image(build_image(&m.path, m.base_avma, m.region_size, None, None, None));
    }
    assert!(scanner.missing(&first).is_empty());
    assert!(scanner.take_gone(&first).is_empty());
    let second = vec![region("/lib/b", 0x4000, true), region("/lib/b", 0x8000, true)];
    let gone = scanner.take_gone(&second);
    assert_eq!(gone.len(), 1);
    assert_eq!(gone[0].path, "/bin/a");
    for m in scanner.missing(&second) {
        scanner.add_image(build_image(&m.path, m.base_avma, m.region_size, None, None, None));
    }
    for (path, at) in [("/bin/a", 0x1000), ("/lib/b", 0x4000), ("/lib/b", 0x8000)] {
        assert_eq!(scanner.knows(path, at), second.iter().any(|r| r.path == path && r.address == at));
    }
}

#[test]
fn one_look_unloads_and_then_loads() {
    let find = |m: &MissingImage| FoundImage {
        disk: None,
        cached: if m.path == "/lib/b" {
            Some(CachedImage { text_svma: 5, text_vmsize: 0x9000, uuid: None, symbols: Vec::new() })
        } else {
            None
        },
    };
    let mut scanner = ImageScanner::new();
    let first = vec![
        region("/bin/a", 0x1000, true),
        region("/bin/a", 0x1000, true),
        region("/bin/a", 0x2000, false),
        region("", 0x3000, true),
        region("/lib/b", 0x4000, true),
    ];
    let loaded = scanner.rescan(&first, find, Some("aarch64"));
    assert_eq!(loaded.len(), 2);
    assert!(matches!(loaded[0], ImageChange::Loaded { index: 0 }));
    assert!(matches!(loaded[1], ImageChange::Loaded { index: 1 }));
    let b = scanner.image(1).unwrap();
    assert_eq!((b.path.as_str(), b.base_avma, b.vmsize, b.arch), ("/lib/b", 0x4000, 0x9000, Some("aarch64")));
    assert!(scanner.image(2).is_none());
    assert!(scanner.rescan(&first, find, None).is_empty());
    let second = vec![region("/lib/b", 0x8000, true), region("/lib/b", 0x4000, true)];
    let changes = scanner.rescan(&second, find, None);
    assert_eq!(changes.len(), 2);
    assert!(matches!(&changes[0], ImageChange::Unloaded(i) if i.path == "/bin/a"));
    assert!(matches!(changes[1], ImageChange::Loaded { index: 1 }));
    assert_eq!(scanner.image(1).unwrap().base_avma, 0x8000);
    assert_eq!(scanner.rescan(&Vec::new(), find, None).len(), 2);
}

#[test]
fn the_loader_list_is_watched() {
    let mut s = ImageScanner::new();
    assert!(s.dyld_images_changed(DyldRead::NoInfo));
    assert!(s.dyld_images_changed(DyldRead::Count { address: 0x100, count: 3 }));
    assert!(!s.dyld_images_changed(DyldRead::Count { address: 0x100, count: 3 }));
    assert!(s.dyld_images_changed(DyldRead::Count { address: 0x100, count: 4 }));
    assert!(s.dyld_images_changed(DyldRead::NoCount { address: 0x100 }));
    assert!(s.dyld_images_changed(DyldRead::Count { address: 0x100, count: 4 }));
    assert!(s.dyld_images_changed(DyldRead::Count { address: 0, count: 4 }));
}

#[test]
fn regions_are_walked_in_order() {
    let raw = |address, size| RawRegion { protection: 5, address, size, path: b"/bin/a\0junk".to_vec() };
    let mut walk = RegionWalk::new(42);
    assert_eq!((walk.query().pid, walk.query().flavor, walk.query().arg), (42, 8, 0));
    assert!(walk.on_answer(1272, &raw(0x1000, 0x100)));
    assert_eq!(walk.query().arg, 0x1100);
    assert!(!walk.on_answer(1272, &raw(0x1000, 0x50)));
    assert!(!walk.on_answer(0, &raw(0x9000, 0x50)));
    let found = walk.finish();
    assert_eq!(found.len(), 2);
    assert_eq!(found[0].path, "/bin/a");
    assert!(found[0].is_executable && found[0].is_readable);
    let r = region_of(&RawRegion { protection: 2, address: 1, size: 2, path: vec![b'x', 0xff] });
    assert_eq!(r.path, "x\u{fffd}");
    assert!(!r.is_executable && !r.is_readable);
}

#[test]
fn threads_are_listed_and_named() {
    assert!(matches!(list_thread_ids(-1, vec![0; 4]), ThreadList::Failed));
    assert!(matches!(list_thread_ids(32, vec![0; 4]), ThreadList::Grow(8)));
    match list_thread_ids(17, vec![5, 6, 7, 8]) {
        ThreadList::Listed(ids) => assert_eq!(ids, [5, 6]),
        _ => panic!("no list"),
    }
    assert_eq!(thread_list_query(3).flavor, 6);
    assert_eq!((thread_name(3, 9).flavor, thread_name(3, 9).arg), (5, 9));
    assert_eq!(thread_name_by_id(3, 9).flavor, 14);
    assert!(thread_name_of(0, b"x").is_err());
    assert_eq!(thread_name_of(112, &[0; 64]).unwrap(), None);
    assert_eq!(thread_name_of(112, b"main\0\0").unwrap(), Some("main".to_owned()));
}

fn mapped_macho() -> (Vec<u8>, Vec<u8>) {
    // One segment with two sections, and an identity.
    let mut cmds = Vec::new();
    put32(&mut cmds, 0x19);
    put32(&mut cmds, 72 + 2 * 80);
    put_name(&mut cmds, "__TEXT");
    put64(&mut cmds, 0x1000);
    put64(&mut cmds, 0x4000);
    put64(&mut cmds, 0);
    put64(&mut cmds, 0x4000);
    for x in [5, 5, 2, 0] {
        put32(&mut cmds, x);
    }
    for (name, addr, size) in [("__text", 0x1100u64, 0x40u64), ("__unwind_info", 0x1200, 0x10)] {
        put_name(&mut cmds, name);
        put_name(&mut cmds, "__TEXT");
        put64(&mut cmds, addr);
        put64(&mut cmds, size);
        for _ in 0..8 {
            put32(&mut cmds, 0);
        }
    }
    put32(&mut cmds, 0x1b);
    put32(&mut cmds, 24);
    cmds.extend_from_slice(&[3u8; 16]);
    let mut head = Vec::new();
    for x in [0xfeed_facf, 0, 0, 2, 2, cmds.len() as u32, 0, 0] {
        put32(&mut head, x);
    }
    (head, cmds)
}

#[test]
fn mapped_images_show_their_sections() {
    let (head, cmds) = mapped_macho();
    let h = parse_header(&head).unwrap();
    assert_eq!((h.ncmds, h.sizeofcmds as usize), (2, cmds.len()));
    assert!(parse_header(&[0; 32]).is_none());
    let (m, pending) = parse_load_commands(0x9000, h.ncmds, &cmds);
    assert_eq!(m.slide, 0x8000);
    assert_eq!(m.uuid, Some([3; 16]));
    assert_eq!(m.text_avma, Some(0x9000..0xd000));
    assert_eq!(m.avma_to_svma(&(0x9100..0x9140)), 0x1100..0x1140);
    let reads = sections_to_read(&pending);
    assert_eq!(reads.len(), 1);
    assert_eq!((reads[0].avma, reads[0].size, reads[0].slot), (0x9200, 0x10, BytesSlot::UnwindInfo));
    let mut m = m;
    assert!(section_data(&reads[0], Some(vec![1; 15])).is_none());
    assert!(section_data(&reads[0], None).is_none());
    reads[0].slot.assign(&mut m, section_data(&reads[0], Some(vec![1; 16])).unwrap());
    assert_eq!(m.unwind_info.as_ref().unwrap().avma, 0x9200..0x9210);
    assert!(m.eh_frame.is_none());
    BytesSlot::EhFrame.assign(&mut m, SectionData { avma: 1..2, bytes: vec![0] });
    assert_eq!(m.unwind_info.as_ref().unwrap().bytes.len(), 16);
}

#[test]
fn images_are_read_out_of_memory() {
    let (head, cmds) = mapped_macho();
    let mut memory = vec![7u8; 0x400];
    memory[..32].copy_from_slice(&head);
    memory[32..32 + cmds.len()].copy_from_slice(&cmds);
    let read = |memory: &[u8], at: u64, len: usize| {
        let from = usize::try_from(at.checked_sub(0x9000)?).ok()?;
        memory.get(from..from.checked_add(len)?).map(|b| b.to_vec())
    };
    let m = parse_image(|at, len| read(&memory, at, len), 0x9000).unwrap();
    assert_eq!((m.slide, m.text_avma.clone()), (0x8000, Some(0x9000..0xd000)));
    let d = m.unwind_info.as_ref().unwrap();
    assert_eq!((d.avma.clone(), d.bytes.as_slice()), (0x9200..0x9210, [7u8; 16].as_slice()));
    assert!(m.eh_frame.is_none() && m.eh_frame_hdr.is_none() && m.compact_unwind.is_none());
    let cut = &memory[..0x208];
    let m = parse_image(|at, len| read(cut, at, len), 0x9000).unwrap();
    assert!(m.unwind_info.is_none());
    assert!(parse_image(|at, len| read(&memory[..40], at, len), 0x9000).is_none());
    assert!(parse_image(|at, len| read(&memory, at, len), 0x8000).is_none());
    assert!(parse_image(|at, len| read(&memory, at, len), 0x9001).is_none());
    assert!(parse_image(|at, _| read(&memory, at, 3), 0x9000).is_none());
}

#[test]
fn the_loaders_images_are_listed() {
    assert_eq!(list_head_address(5, 1).unwrap_err().message(), WalkError::TaskInfo(5).message());
    assert!(matches!(list_head_address(0, 0), Err(WalkError::NoImageInfoAddr)));
    assert_eq!(list_head_address(0, 77).unwrap(), 77);
    assert!(read_result(ReadWhat::ListHead, 1, 8, 0, 8).is_ok());
    assert!(matches!(
        read_result(ReadWhat::ImageArray, 1, 8, 0, 7),
        Err(WalkError::MachVmRead { len: 8, kr: 0, .. })
    ));
    let mut head = vec![0u8; 328];
    head[4..8].copy_from_slice(&2u32.to_le_bytes());
    head[8..16].copy_from_slice(&0x4000u64.to_le_bytes());
    assert_eq!(list_place(&head), Some((0x4000, 2)));
    assert_eq!(list_place(&vec![0u8; 328]), None);
    let mut array = Vec::new();
    for x in [0x100u64, 0x200, 1, 0x300, 0x400, 2] {
        put64(&mut array, x);
    }
    let infos: Vec<ImageInfo> = image_infos(&array, 2);
    assert_eq!((infos[1].load_address, infos[1].file_path), (0x300, 0x400));
    assert_eq!(read_c_string(b"/a\0b"), Some("/a".to_owned()));
    let entries = enumerate_images(&infos, &vec![Some("/a".into()), None]);
    assert_eq!(entries[0].path, "/a");
    assert_eq!(entries[0].load_address, 0x100);
}

#[test]
fn mapped_text_seeds_the_unwinder() {
    let sections = |text| MachoSections {
        uuid: None,
        slide: 0,
        text_avma: text,
        got_avma: None,
        unwind_info: None,
        compact_unwind: None,
        eh_frame: None,
        eh_frame_hdr: None,
    };
    let mappings = seed_target_images(&vec![
        ParsedImage { path: "/a".into(), sections: Some(sections(Some(0x100..0x200))) },
        ParsedImage { path: "/b".into(), sections: Some(sections(None)) },
        ParsedImage { path: "/c".into(), sections: None },
    ]);
    assert_eq!(mappings.len(), 1);
    assert_eq!((mappings[0].start, mappings[0].end, mappings[0].path.as_str()), (0x100, 0x200, "/a"));
    assert!(mapping_of_load("[jit] f", 0x100, 0x10, true).is_none());
    assert_eq!(mapping_of_load("/a", 0x100, 0x10, false).unwrap().end, 0x110);
}
