use depot::codec::{read_u64, write_u16, write_u32, write_u64};
use depot::{
    ByteHandle, DepotError, DepotHandle, EntryInfo, ErrorKind, OpenMode, PathKind, StreamInfo,
    TsWithTz, MAGIC,
};

fn fresh() -> DepotHandle {
    DepotHandle::create(ByteHandle::new(Vec::new())).unwrap()
}

fn build(entries: &[(&str, Vec<u8>)], level: i32) -> Vec<u8> {
    let mut dh = fresh();
    dh.set_comp_level(level);
    for (name, data) in entries {
        dh.add_named_sized_stream(name, data).unwrap();
    }
    dh.close().unwrap()
}

fn fixed_ts() -> TsWithTz {
    TsWithTz { ts: 1_700_000_000, tz: 3600 }
}

#[test]
fn single_text_entry_round_trips() {
    let img = build(&[("a.txt", b"hello\n".to_vec())], 3);
    let mut dh = DepotHandle::open_memory(img, OpenMode::Read).unwrap();
    assert_eq!(dh.stream_count(), 1);
    let s = dh.get_named_stream("a.txt").unwrap();
    assert_eq!(s.einf.size, 6);
    let mut out = Vec::new();
    dh.extract_stream(&s, &mut out).unwrap();
    assert_eq!(out, b"hello\n".to_vec());
}

#[test]
fn names_iterate_sorted() {
    let z = vec![0xAAu8; 1024];
    let a = vec![0x55u8; 1024];
    let img = build(&[("z", z.clone()), ("a", a.clone())], 3);
    let mut dh = DepotHandle::open_memory(img, OpenMode::Read).unwrap();
    let names: Vec<String> = dh.streams().into_iter().map(|s| s.name).collect();
    assert_eq!(names, vec!["a".to_string(), "z".to_string()]);
    let sa = dh.get_named_stream("a").unwrap();
    let sz = dh.get_named_stream("z").unwrap();
    assert_eq!(dh.stream_to_memory(&sa).unwrap(), a);
    assert_eq!(dh.stream_to_memory(&sz).unwrap(), z);
    // "z" was written first, so its payload comes first on disk.
    assert!(sz.einf.offset < sa.einf.offset);
}

#[test]
fn empty_entry_round_trips() {
    let img = build(&[("empty", Vec::new())], 3);
    let mut dh = DepotHandle::open_memory(img, OpenMode::Read).unwrap();
    assert_eq!(dh.stream_count(), 1);
    let s = dh.get_named_stream("empty").unwrap();
    assert_eq!(s.einf.flags & 1, 1);
    assert_eq!(s.einf.size, 0);
    assert_eq!(s.einf.stream_size, 0);
    let mut out = Vec::new();
    dh.extract_stream(&s, &mut out).unwrap();
    assert!(out.is_empty());
}

#[test]
fn flipped_byte_is_invalid_data() {
    let img = build(&[("a.txt", b"hello\n".to_vec())], 3);
    let dh = DepotHandle::open_memory(img.clone(), OpenMode::Read).unwrap();
    let s = dh.get_named_stream("a.txt").unwrap();
    let mut bad = img;
    let at = (s.einf.offset + s.einf.stream_size / 2) as usize;
    bad[at] ^= 0xFF;
    let mut dh = DepotHandle::open_memory(bad, OpenMode::Read).unwrap();
    let s = dh.get_named_stream("a.txt").unwrap();
    let err = dh.stream_to_memory(&s).unwrap_err();
    assert_eq!(err.kind(), ErrorKind::InvalidData);
}

#[test]
fn flipped_bytes_never_give_wrong_data() {
    let img = build(&[("a.txt", b"hello\n".to_vec())], 3);
    let dh = DepotHandle::open_memory(img.clone(), OpenMode::Read).unwrap();
    let s = dh.get_named_stream("a.txt").unwrap();
    for i in s.einf.offset..s.einf.offset + s.einf.stream_size {
        let mut bad = img.clone();
        bad[i as usize] ^= 0x01;
        let mut dh = DepotHandle::open_memory(bad, OpenMode::Read).unwrap();
        // A flip in a frame-header bit that the decoder does not need (the
        // checksum flag, say) still yields the payload; any other is refused.
        match dh.stream_to_memory(&s) {
            Ok(out) => assert_eq!(out, b"hello\n".to_vec()),
            Err(e) => assert_eq!(e.kind(), ErrorKind::InvalidData),
        }
    }
}

#[test]
fn bad_magic_rejected() {
    let mut data = b"NOTADEPOT".to_vec();
    data.extend_from_slice(&[0u8; 32]);
    let err = DepotHandle::open_memory(data, OpenMode::Read).err().unwrap();
    assert!(matches!(err, DepotError::BadMagic));
    assert_eq!(err.kind(), ErrorKind::InvalidData);
}

#[test]
fn large_multithreaded_depot() {
    let mut seed: u32 = 12345;
    let mut block = vec![0u8; 4096];
    for b in block.iter_mut() {
        seed = seed.wrapping_mul(1_103_515_245).wrapping_add(12_345);
        *b = (seed >> 24) as u8;
    }
    let mut dh = fresh();
    dh.set_comp_level(10);
    dh.set_mt_threads(4);
    dh.set_comp_frame_size(1 << 20);
    let mut payloads = Vec::new();
    for i in 0..10u8 {
        let mut p = Vec::with_capacity(4 << 20);
        while p.len() < (4 << 20) {
            p.extend_from_slice(&block);
            p.push(i);
        }
        p.truncate(4 << 20);
        dh.add_named_sized_stream(&format!("f{}", i), &p).unwrap();
        payloads.push(p);
    }
    let img = dh.close().unwrap();
    assert!(img.len() < 40 << 20);
    let mut dh = DepotHandle::open_memory(img, OpenMode::Read).unwrap();
    assert_eq!(dh.stream_count(), 10);
    for (i, p) in payloads.iter().enumerate() {
        let s = dh.get_named_stream(&format!("f{}", i)).unwrap();
        assert_eq!(&dh.stream_to_memory(&s).unwrap(), p);
    }
}

#[test]
fn round_trip_many_entries() {
    let entries: Vec<(String, Vec<u8>)> = (0..20u32)
        .map(|i| (format!("dir/file-{:02}.bin", 19 - i), (0..i * 37).map(|x| (x * 7 + i) as u8).collect()))
        .collect();
    let refs: Vec<(&str, Vec<u8>)> = entries.iter().map(|(n, d)| (n.as_str(), d.clone())).collect();
    let img = build(&refs, 5);
    let mut dh = DepotHandle::open_memory(img, OpenMode::Read).unwrap();
    assert_eq!(dh.stream_count(), 20);
    for (name, data) in &entries {
        let s = dh.get_named_stream(name).unwrap();
        assert_eq!(&dh.stream_to_memory(&s).unwrap(), data);
    }
}

#[test]
fn round_trip_unicode_names() {
    let img = build(&[("ünïcødé/ファイル", b"xyz".to_vec()), ("ascii", b"abc".to_vec())], 1);
    let mut dh = DepotHandle::open_memory(img, OpenMode::Read).unwrap();
    let s = dh.get_named_stream("ünïcødé/ファイル").unwrap();
    assert_eq!(dh.stream_to_memory(&s).unwrap(), b"xyz".to_vec());
    let names: Vec<String> = dh.streams().into_iter().map(|s| s.name).collect();
    assert_eq!(names, vec!["ascii".to_string(), "ünïcødé/ファイル".to_string()]);
}

#[test]
fn toc_independent_of_insertion_order() {
    let mut a = fresh();
    let mut b = fresh();
    for n in ["x", "b", "m"] {
        a.add_stream_at(n, &[], fixed_ts()).unwrap();
    }
    for n in ["m", "x", "b"] {
        b.add_stream_at(n, &[], fixed_ts()).unwrap();
    }
    let mut ta = Vec::new();
    let mut tb = Vec::new();
    a.get_toc().ser(&mut ta);
    b.get_toc().ser(&mut tb);
    assert_eq!(ta, tb);
    assert_eq!(a.close().unwrap(), b.close().unwrap());
}

#[test]
fn unfinalized_depot_does_not_open() {
    let mut dh = fresh();
    dh.add_named_sized_stream("a", b"abc").unwrap();
    let img = dh.handle.into_inner();
    let err = DepotHandle::open_memory(img, OpenMode::Read).err().unwrap();
    assert!(matches!(err, DepotError::TocOutOfRange(u64::MAX)));
    assert_eq!(err.kind(), ErrorKind::InvalidData);
}

#[test]
fn reopened_toc_matches_memory() {
    let mut dh = fresh();
    dh.set_comp_level(7);
    dh.add_stream_at("one", b"1111", fixed_ts()).unwrap();
    dh.add_stream_at("two", b"", fixed_ts()).unwrap();
    let before = dh.get_toc();
    let img = dh.close().unwrap();
    let reopened = DepotHandle::open_memory(img, OpenMode::Read).unwrap().get_toc();
    assert_eq!(before.compression_level, 7);
    assert_eq!(reopened.compression_level, 7);
    assert_eq!(before.entry_count, reopened.entry_count);
    assert_eq!(before.size, 4);
    assert_eq!(reopened.size, 4);
    assert_eq!(before.entries.len(), reopened.entries.len());
    for (x, y) in before.entries.iter().zip(reopened.entries.iter()) {
        assert_eq!(x.name, y.name);
        assert_eq!(x.einf, y.einf);
    }
}

#[test]
fn header_layout() {
    let dh = fresh();
    let img = dh.handle.data.clone();
    assert_eq!(img.len(), 18);
    assert_eq!(&img[0..8], b"DEPOTARC");
    assert_eq!(&img[8..10], &[0, 1]);
    assert_eq!(&img[10..18], &[0xFF; 8]);
    assert_eq!(MAGIC, u64::from_be_bytes(*b"DEPOTARC"));
}

#[test]
fn finalized_header_points_at_toc() {
    let img = build(&[("a", b"aaaa".to_vec())], 3);
    let toc_offset = u64::from_be_bytes(img[10..18].try_into().unwrap());
    assert!(toc_offset >= 18 && (toc_offset as usize) < img.len());
    // level 3, one entry, four bytes in all
    let t = toc_offset as usize;
    assert_eq!(&img[t..t + 4], &[0, 0, 0, 3]);
    assert_eq!(&img[t + 4..t + 12], &1u64.to_be_bytes());
    assert_eq!(&img[t + 12..t + 20], &4u64.to_be_bytes());
    assert_eq!(&img[t + 20..t + 24], &1u32.to_be_bytes());
    assert_eq!(img[t + 24], b'a');
    assert_eq!(img.len(), t + 20 + 4 + 1 + 56);
}

#[test]
fn empty_entry_writes_nothing() {
    let mut dh = fresh();
    dh.add_named_sized_stream("e", b"").unwrap();
    assert_eq!(dh.handle.data.len(), 18);
    let s = dh.get_named_stream("e").unwrap();
    assert_eq!(s.einf.offset, 18);
    assert_eq!(s.einf.hash, u64::MAX);
}

#[test]
fn entry_records_hash_and_sizes() {
    let mut dh = fresh();
    dh.add_named_sized_stream("p", b"payload bytes").unwrap();
    let s = dh.get_named_stream("p").unwrap();
    assert_eq!(s.einf.size, 13);
    assert_eq!(s.einf.flags, 0);
    assert_eq!(s.einf.offset, 18);
    assert_eq!(s.einf.hash, seahash::hash(b"payload bytes"));
    assert_eq!(s.einf.stream_size as usize + 18, dh.handle.data.len());
    assert_ne!(&dh.handle.data[18..], b"payload bytes");
}

#[test]
fn read_only_rejects_append() {
    let img = build(&[("a", b"a".to_vec())], 3);
    let mut dh = DepotHandle::open_memory(img, OpenMode::Read).unwrap();
    let err = dh.add_named_sized_stream("b", b"b").unwrap_err();
    assert_eq!(err.kind(), ErrorKind::PermissionDenied);
    let err = dh.add_file("b", PathKind::File, b"b").unwrap_err();
    assert_eq!(err.kind(), ErrorKind::PermissionDenied);
}

#[test]
fn duplicate_name_rejected() {
    let mut dh = fresh();
    dh.add_named_sized_stream("a", b"one").unwrap();
    let err = dh.add_named_sized_stream("a", b"two").unwrap_err();
    assert!(matches!(err, DepotError::DuplicateName(_)));
    assert_eq!(dh.stream_count(), 1);
}

#[test]
fn add_file_path_kinds() {
    let mut dh = fresh();
    assert_eq!(dh.add_file("nope", PathKind::Missing, b"").unwrap_err().kind(), ErrorKind::NotFound);
    assert_eq!(dh.add_file("dir", PathKind::Directory, b"").unwrap_err().kind(), ErrorKind::InvalidInput);
    assert_eq!(dh.add_file("dev", PathKind::Other, b"").unwrap_err().kind(), ErrorKind::InvalidInput);
    dh.add_file("ok.txt", PathKind::File, b"fine").unwrap();
    assert_eq!(dh.stream_count(), 1);
}

#[test]
fn size_and_hash_mismatch_detected() {
    let img = build(&[("a", b"hello world".to_vec())], 3);
    let mut dh = DepotHandle::open_memory(img, OpenMode::Read).unwrap();
    let s = dh.get_named_stream("a").unwrap();
    let mut longer = s.einf;
    longer.size = 20;
    let err = dh.stream_to_memory(&StreamInfo::from(("a".to_string(), longer))).unwrap_err();
    assert!(matches!(err, DepotError::SizeMismatch { expected: 20, actual: 11, .. }));
    let mut shorter = s.einf;
    shorter.size = 5;
    let mut out = Vec::new();
    let err = dh.extract_stream(&StreamInfo::from(("a".to_string(), shorter)), &mut out).unwrap_err();
    assert!(matches!(err, DepotError::HashMismatch { .. }));
    assert_eq!(out, b"hello".to_vec());
    let mut wrong = s.einf;
    wrong.hash ^= 1;
    let err = dh.stream_to_memory(&StreamInfo::from(("a".to_string(), wrong))).unwrap_err();
    assert!(matches!(err, DepotError::HashMismatch { .. }));
    let mut outside = s.einf;
    outside.offset = u64::MAX - 1;
    let err = dh.stream_to_memory(&StreamInfo::from(("a".to_string(), outside))).unwrap_err();
    assert!(matches!(err, DepotError::RegionOutOfRange(_)));
}

#[test]
fn timestamp_packing() {
    let t = TsWithTz { ts: 1, tz: -3600 };
    assert_eq!(t.to_u64(), 0x0000_0001_FFFF_F1F0);
    assert_eq!(TsWithTz::from_u64(0x0000_0001_FFFF_F1F0), t);
    let n = TsWithTz { ts: -2, tz: 7200 };
    assert_eq!(TsWithTz::from_u64(n.to_u64()), n);
    assert_eq!(n.to_u64() >> 32, 0xFFFF_FFFE);
    let now = TsWithTz::now();
    assert!(now.tz > -86400 && now.tz < 86400);
}

#[test]
fn codec_big_endian() {
    let mut v = Vec::new();
    write_u16(&mut v, 0x0102);
    write_u32(&mut v, 0x0304_0506);
    write_u64(&mut v, 0x0708_090A_0B0C_0D0E);
    assert_eq!(v, (1u8..=14).collect::<Vec<u8>>());
    assert_eq!(read_u64(&v, 6), Some(0x0708_090A_0B0C_0D0E));
    assert_eq!(read_u64(&v, 7), None);
}

#[test]
fn entry_record_is_56_bytes() {
    let e = EntryInfo {
        offset: 1,
        size: 2,
        stream_size: 3,
        flags: 0,
        create_ts: fixed_ts(),
        mod_ts: fixed_ts(),
        hash: 4,
    };
    let mut v = Vec::new();
    e.ser(&mut v);
    assert_eq!(v.len(), 56);
    assert_eq!(EntryInfo::de(&v, 0).unwrap(), e);
    let mut bad = v.clone();
    bad[31] = 2;
    assert!(matches!(EntryInfo::de(&bad, 0), Err(DepotError::BadFlags)));
    assert!(matches!(EntryInfo::de(&v[..55], 0), Err(DepotError::Truncated)));
}

#[test]
fn newer_version_rejected() {
    let mut img = build(&[("a", b"a".to_vec())], 3);
    img[9] = 2;
    let err = DepotHandle::open_memory(img, OpenMode::Read).err().unwrap();
    assert!(matches!(err, DepotError::UnsupportedVersion(2)));
}

#[test]
fn embedded_depot_at_offset() {
    let mut dh = DepotHandle::create(ByteHandle { data: vec![9u8; 5], pos: 5 }).unwrap();
    dh.add_named_sized_stream("a", b"embedded").unwrap();
    let img = dh.close().unwrap();
    assert_eq!(&img[..5], &[9u8; 5]);
    let mut dh = DepotHandle::new(ByteHandle { data: img, pos: 5 }, OpenMode::Read).unwrap();
    let s = dh.get_named_stream("a").unwrap();
    assert_eq!(dh.stream_to_memory(&s).unwrap(), b"embedded".to_vec());
}

#[test]
fn entry_region_past_toc_rejected() {
    let mut img = build(&[("a", b"aaaa".to_vec())], 3);
    let t = u64::from_be_bytes(img[10..18].try_into().unwrap()) as usize;
    let rec = t + 20 + 4 + 1;
    img[rec + 16..rec + 24].copy_from_slice(&(t as u64).to_be_bytes());
    let err = DepotHandle::open_memory(img, OpenMode::Read).err().unwrap();
    assert!(matches!(err, DepotError::EntryOutOfBounds));
    assert_eq!(err.kind(), ErrorKind::InvalidData);
}

#[test]
fn unordered_toc_rejected() {
    let mut img = build(&[("a", Vec::new()), ("b", Vec::new())], 3);
    let t = u64::from_be_bytes(img[10..18].try_into().unwrap()) as usize;
    // swap the two one-letter names
    img[t + 24] = b'b';
    img[t + 24 + 1 + 56 + 4] = b'a';
    let err = DepotHandle::open_memory(img, OpenMode::Read).err().unwrap();
    assert!(matches!(err, DepotError::Unordered));
}

#[test]
fn timestamp_from_parts_cuts_to_32_bits() {
    assert_eq!(TsWithTz::from_parts(0x1_0000_0005, 3), TsWithTz { ts: 5, tz: 3 });
    assert_eq!(TsWithTz::from_parts(0xFFFF_FFFF, -60), TsWithTz { ts: -1, tz: -60 });
    assert_eq!(TsWithTz::from_parts(-7, 0).ts, -7);
}

#[test]
fn errors_name_their_path_or_entry() {
    let mut dh = fresh();
    assert!(matches!(dh.add_file("gone.txt", PathKind::Missing, b""), Err(DepotError::NotFound(p)) if p == "gone.txt"));
    assert!(matches!(dh.add_file("d", PathKind::Directory, b""), Err(DepotError::NotAFile(p)) if p == "d"));
    dh.add_named_sized_stream("x", b"some bytes").unwrap();
    let s = dh.get_named_stream("x").unwrap();
    let mut long = s.einf;
    long.size = 99;
    let err = dh.stream_to_memory(&StreamInfo::from(("x".to_string(), long))).unwrap_err();
    assert!(matches!(err, DepotError::SizeMismatch { name, expected: 99, actual: 10 } if name == "x"));
}

#[test]
fn frame_sizes_and_levels_round_trip() {
    let payload: Vec<u8> = (0..100_000u32).map(|i| (i % 251) as u8 ^ (i / 1000) as u8).collect();
    for (level, frame) in [(1, 1usize), (3, 4096), (19, 1 << 20), (-5, 7)] {
        let mut dh = fresh();
        dh.set_comp_level(level);
        dh.set_comp_frame_size(frame);
        dh.add_named_sized_stream("p", &payload).unwrap();
        let img = dh.close().unwrap();
        let mut dh = DepotHandle::open_memory(img, OpenMode::Read).unwrap();
        let s = dh.get_named_stream("p").unwrap();
        assert_eq!(dh.stream_to_memory(&s).unwrap(), payload);
    }
}

#[test]
fn successive_appends_are_contiguous() {
    let mut dh = fresh();
    dh.add_named_sized_stream("one", b"first payload").unwrap();
    dh.add_named_sized_stream("two", b"second payload").unwrap();
    let a = dh.get_named_stream("one").unwrap().einf;
    let b = dh.get_named_stream("two").unwrap().einf;
    assert!(a.stream_size > 0);
    assert_eq!(b.offset, a.offset + a.stream_size);
}

#[test]
fn empty_entry_at_offset_zero_opens() {
    let mut img = build(&[("e", Vec::new())], 3);
    let t = u64::from_be_bytes(img[10..18].try_into().unwrap()) as usize;
    let rec = t + 20 + 4 + 1;
    img[rec..rec + 8].copy_from_slice(&0u64.to_be_bytes());
    let mut dh = DepotHandle::open_memory(img, OpenMode::Read).unwrap();
    let s = dh.get_named_stream("e").unwrap();
    assert_eq!(s.einf.offset, 0);
    assert!(dh.stream_to_memory(&s).unwrap().is_empty());
}

#[test]
fn wrong_total_size_rejected() {
    let mut img = build(&[("a", b"four".to_vec()), ("e", Vec::new())], 3);
    let t = u64::from_be_bytes(img[10..18].try_into().unwrap()) as usize;
    assert_eq!(&img[t + 12..t + 20], &4u64.to_be_bytes());
    img[t + 12..t + 20].copy_from_slice(&5u64.to_be_bytes());
    let err = DepotHandle::open_memory(img, OpenMode::Read).err().unwrap();
    assert!(matches!(err, DepotError::TotalMismatch));
    assert_eq!(err.kind(), ErrorKind::InvalidData);
}
