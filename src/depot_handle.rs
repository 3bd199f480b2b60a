//! The depot: create, open, append, extract and finalize over a byte handle.
use crate::codec::{from_be16, from_be64};
use crate::error::{DepotError, ErrorKind};
use crate::handle::{splice, ByteHandle};
use crate::outside::{content_hash, seahash_of, zstd_compress, zstd_decoded, zstd_decompress, zstd_encoded};
use crate::timestamp::TsWithTz;
use crate::types::{
    has_name, header_at, lemma_rows_size_insert, rows_size, header_bytes, key, lemma_header_read, lemma_insert_map, parse_toc, regions_ok, rows_map, DepotHeader, DepotToc, EntryInfo, Row, StreamInfo, EMPTY_FLAG,
    EMPTY_HASH, HEADER_LEN, MAGIC, UNFINALIZED, VERSION,
};
use vstd::prelude::*;
use vstd::slice::slice_subrange;

verus! {

/// What a handle was opened for.
#[derive(Clone, Copy, Debug, PartialEq, Eq, Hash, Structural)]
pub enum OpenMode {
    Read,
    Write,
    ReadWrite,
}

/// Where a path to add stands on the host: what the caller found there.
#[derive(Clone, Copy, Debug, PartialEq, Eq, Structural)]
pub enum PathKind {
    Missing,
    Directory,
    File,
    Other,
}

/// The header and the table of contents in memory.
#[derive(Clone, Debug)]
pub struct DepotMetadata {
    pub header: DepotHeader,
    pub toc: DepotToc,
}

/// What opening reads at `off`: the header, and the table of contents at the
/// offset it gives, which must lie after the header and before the end.
pub open spec fn open_spec(data: Seq<u8>, off: int) -> Option<(DepotHeader, (i32, u64, u64, Seq<Row>, int))> {
    if 0 <= off && off + 18 <= data.len() && from_be64(data.subrange(off, off + 8)) == MAGIC {
        let h = DepotHeader {
            version: from_be16(data.subrange(off + 8, off + 10)),
            toc_offset: from_be64(data.subrange(off + 10, off + 18)),
        };
        if h.version <= VERSION && off + 18 <= h.toc_offset < data.len() {
            match parse_toc(data, h.toc_offset as int) {
                None => None,
                Some(t) => if regions_ok(t.3, off + 18, h.toc_offset as int) && t.2 == rows_size(t.3) {
                    Some((h, t))
                } else {
                    None
                },
            }
        } else {
            None
        }
    } else {
        None
    }
}

/// The decoded payload of a non-empty entry, where its region lies within
/// `data` and decodes.
pub open spec fn decoded(data: Seq<u8>, e: EntryInfo) -> Option<Seq<u8>> {
    if e.offset + e.stream_size <= data.len() {
        zstd_decoded(data.subrange(e.offset as int, e.offset + e.stream_size))
    } else {
        None
    }
}

/// What extraction hands to the writer: the decoded payload, cut to the
/// recorded size.
pub open spec fn delivered(d: Seq<u8>, e: EntryInfo) -> Seq<u8> {
    if d.len() > e.size {
        d.take(e.size as int)
    } else {
        d
    }
}

/// A non-empty entry extracts to `payload` from `data`: its region decodes,
/// and what is delivered has the recorded size and hash.
pub open spec fn extracts_to(data: Seq<u8>, e: EntryInfo, payload: Seq<u8>) -> bool {
    &&& decoded(data, e) is Some
    &&& delivered(decoded(data, e)->0, e) == payload
    &&& payload.len() == e.size
    &&& seahash_of(payload) == e.hash
}

/// A depot on an in-memory byte handle.
pub struct DepotHandle {
    pub metadata: DepotMetadata,
    pub mode: OpenMode,
    /// Where the header starts in the handle's region.
    pub header_offset: u64,
    /// Worker threads that the compressor may use.
    pub mt_threads: usize,
    /// The capacity of the buffer through which an append copies its source
    /// into the compressor.
    pub compression_frame_size: usize,
    pub handle: ByteHandle,
}

impl DepotHandle {
    pub open spec fn wf(&self) -> bool {
        &&& self.metadata.toc.wf()
        &&& self.handle.wf()
        &&& self.header_offset + 18 <= self.handle.pos
        &&& self.metadata.header.version <= VERSION
        &&& self.metadata.toc.totals_ok()
        &&& header_at(self.image(), self.header_offset as int, self.metadata.header)
        &&& regions_ok(self.rows(), self.header_offset + 18, self.handle.pos as int)
    }

    /// The rows of the in-memory table.
    pub open spec fn rows(&self) -> Seq<Row> {
        self.metadata.toc.rows()
    }

    /// The bytes of the depot.
    pub open spec fn image(&self) -> Seq<u8> {
        self.handle.data@
    }

    /// Opens the depot that starts at the handle's position: reads the
    /// header, then the table of contents where the header points.
    pub fn new(handle: ByteHandle, mode: OpenMode) -> (r: Result<DepotHandle, DepotError>)
        requires
            handle.wf(),
        ensures
            r is Ok <==> open_spec(handle.data@, handle.pos as int) is Some,
            r is Err ==> r->Err_0.kind() == ErrorKind::InvalidData,
            handle.pos + 8 <= handle.data@.len() && from_be64(
                handle.data@.subrange(handle.pos as int, handle.pos + 8),
            ) != MAGIC ==> r matches Err(DepotError::BadMagic),
            r is Ok ==> {
                let d = r->Ok_0;
                let (h, (level, count, size, rows, end)) = open_spec(handle.data@, handle.pos as int)->0;
                &&& d.wf()
                &&& d.image() == handle.data@
                &&& d.mode == mode
                &&& d.header_offset == handle.pos
                &&& d.metadata.header == h
                &&& d.metadata.toc.compression_level == level
                &&& d.metadata.toc.entry_count == count
                &&& d.metadata.toc.size == size
                &&& d.rows() == rows
                &&& d.handle.pos == end
                &&& d.mt_threads == 1
                &&& d.compression_frame_size == 8192
            },
    {
        let header_offset = handle.pos;
        let buf = handle.data.as_slice();
        let header = match DepotHeader::de(buf, header_offset) {
            Ok(h) => h,
            Err(e) => return Err(e),
        };
        if header.version > VERSION {
            return Err(DepotError::UnsupportedVersion(header.version));
        }
        let len = handle.data.len();
        assert(buf@.len() == len);
        let header_end = header_offset + HEADER_LEN;
        if header.toc_offset < header_end as u64 || header.toc_offset
            >= handle.data.len() as u64 {
            return Err(DepotError::TocOutOfRange(header.toc_offset));
        }
        let (toc, end) = match DepotToc::de(handle.data.as_slice(), header.toc_offset as usize) {
            Ok(t) => t,
            Err(e) => return Err(e),
        };
        if !toc.regions_within(header_end as u64, header.toc_offset) {
            return Err(DepotError::EntryOutOfBounds);
        }
        if !toc.sizes_add_up() {
            return Err(DepotError::TotalMismatch);
        }
        let mut handle = handle;
        handle.pos = end;
        Ok(
            DepotHandle {
                metadata: DepotMetadata { header, toc },
                mode,
                header_offset: header_offset as u64,
                mt_threads: 1,
                compression_frame_size: 8192,
                handle,
            },
        )
    }

    /// Opens the depot held in `data`.
    pub fn open_memory(data: Vec<u8>, mode: OpenMode) -> (r: Result<DepotHandle, DepotError>)
        ensures
            r is Ok <==> open_spec(data@, 0) is Some,
            r is Err ==> r->Err_0.kind() == ErrorKind::InvalidData,
            8 <= data@.len() && from_be64(data@.subrange(0, 8)) != MAGIC ==> r matches Err(
                DepotError::BadMagic,
            ),
            r is Ok ==> {
                let d = r->Ok_0;
                let (h, (level, count, size, rows, end)) = open_spec(data@, 0)->0;
                &&& d.wf()
                &&& d.image() == data@
                &&& d.mode == mode
                &&& d.header_offset == 0
                &&& d.metadata.header == h
                &&& d.metadata.toc.compression_level == level
                &&& d.metadata.toc.entry_count == count
                &&& d.metadata.toc.size == size
                &&& d.rows() == rows
            },
    {
        DepotHandle::new(ByteHandle::new(data), mode)
    }

    /// Starts a depot at the handle's position: writes a header whose table
    /// offset is the unfinalized mark, and keeps an empty table in memory.
    pub fn create(handle: ByteHandle) -> (r: Result<DepotHandle, DepotError>)
        requires
            handle.wf(),
            handle.pos + 18 <= usize::MAX,
        ensures
            r is Ok,
            r->Ok_0.wf(),
            r->Ok_0.image() == splice(
                handle.data@,
                handle.pos as int,
                header_bytes(VERSION, UNFINALIZED),
            ),
            r->Ok_0.handle.pos == handle.pos + 18,
            r->Ok_0.header_offset == handle.pos,
            r->Ok_0.mode == OpenMode::ReadWrite,
            r->Ok_0.metadata.header == (DepotHeader { version: VERSION, toc_offset: UNFINALIZED }),
            r->Ok_0.rows() == Seq::<Row>::empty(),
            r->Ok_0.metadata.toc.compression_level == 0,
            r->Ok_0.metadata.toc.entry_count == 0,
            r->Ok_0.metadata.toc.size == 0,
            r->Ok_0.mt_threads == 1,
            r->Ok_0.compression_frame_size == 8192,
    {
        let mut handle = handle;
        let header_offset = handle.pos;
        let header = DepotHeader { version: VERSION, toc_offset: UNFINALIZED };
        let mut bytes: Vec<u8> = Vec::new();
        header.ser(&mut bytes);
        assert(bytes@ =~= header_bytes(VERSION, UNFINALIZED));
        let ghost before = handle.data@;
        handle.write_all(bytes.as_slice());
        proof {
            crate::handle::lemma_splice_keeps(before, header_offset as int, bytes@, 0, 0);
            lemma_header_read(handle.data@, header_offset as int, VERSION, UNFINALIZED);
        }
        Ok(
            DepotHandle {
                metadata: DepotMetadata { header, toc: DepotToc::default() },
                mode: OpenMode::ReadWrite,
                header_offset: header_offset as u64,
                mt_threads: 1,
                compression_frame_size: 8192,
                handle,
            },
        )
    }

    pub fn set_comp_level(&mut self, level: i32)
        ensures
            *final(self) == (DepotHandle {
                metadata: DepotMetadata {
                    toc: DepotToc { compression_level: level, ..old(self).metadata.toc },
                    ..old(self).metadata
                },
                ..*old(self)
            }),
    {
        self.metadata.toc.compression_level = level;
    }

    pub fn set_mt_threads(&mut self, threads: usize)
        ensures
            *final(self) == (DepotHandle { mt_threads: threads, ..*old(self) }),
    {
        self.mt_threads = threads;
    }

    pub fn set_comp_frame_size(&mut self, size: usize)
        ensures
            *final(self) == (DepotHandle { compression_frame_size: size, ..*old(self) }),
    {
        self.compression_frame_size = size;
    }

    /// The number of entries.
    pub fn stream_count(&self) -> (r: u64)
        ensures
            r == self.metadata.toc.entry_count,
    {
        self.metadata.toc.entry_count
    }
}


/// The depot after finalizing: the table appended at the end, and the header
/// at `off` rewritten to point at it.
pub open spec fn finalized(data: Seq<u8>, off: int, version: u16, toc: Seq<u8>) -> Seq<u8> {
    splice(data + toc, off, header_bytes(version, data.len() as u64))
}

/// What an append of `data` under `name` owes, whatever the compressor and
/// the clock gave.
pub open spec fn append_post(
    pre: DepotHandle,
    post: DepotHandle,
    name: Seq<char>,
    data: Seq<u8>,
    r: Result<(), DepotError>,
) -> bool {
    let writable = pre.mode != OpenMode::Read;
    let fresh = writable && !has_name(pre.rows(), name);
    let fits = fresh && key(name).len() <= u32::MAX;
    let counted = fits && pre.metadata.toc.entry_count < u64::MAX && (data.len() == 0
        || pre.metadata.toc.size + data.len() <= u64::MAX);
    let enc = pre.encoding_of(data);
    let placed = counted && (data.len() == 0 || pre.handle.pos + enc.len() <= usize::MAX);
    let e = rows_map(post.rows())[name];
    &&& (!writable <==> r matches Err(DepotError::ReadOnly))
    &&& (writable && has_name(pre.rows(), name) <==> r matches Err(DepotError::DuplicateName(_)))
    &&& (match r {
        Err(DepotError::DuplicateName(n)) => n@ == name,
        _ => true,
    })
    &&& (fresh && key(name).len() > u32::MAX <==> r matches Err(DepotError::NameTooLong))
    &&& (fits && !placed <==> r matches Err(DepotError::SizeOverflow))
    &&& (r is Ok <==> placed)
    &&& (r is Err ==> post == pre)
    &&& (r is Ok ==> {
        &&& post.wf()
        &&& rows_map(post.rows()) == rows_map(pre.rows()).insert(name, e)
        &&& has_name(post.rows(), name)
        &&& post.metadata.toc.entry_count == pre.metadata.toc.entry_count + 1
        &&& post.metadata.toc.compression_level == pre.metadata.toc.compression_level
        &&& post.metadata.header == pre.metadata.header
        &&& post.mode == pre.mode
        &&& post.header_offset == pre.header_offset
        &&& post.mt_threads == pre.mt_threads
        &&& post.compression_frame_size == pre.compression_frame_size
        &&& e.offset == pre.handle.pos
        &&& e.create_ts == e.mod_ts
        &&& (data.len() == 0 ==> {
            &&& e.flags == EMPTY_FLAG
            &&& e.size == 0
            &&& e.stream_size == 0
            &&& e.hash == EMPTY_HASH
            &&& post.handle == pre.handle
            &&& post.metadata.toc.size == pre.metadata.toc.size
        })
        &&& (data.len() > 0 ==> {
            &&& e.flags == 0
            &&& e.size == data.len()
            &&& e.hash == seahash_of(data)
            &&& post.image() == splice(
                pre.image(),
                pre.handle.pos as int,
                post.image().subrange(e.offset as int, e.offset + e.stream_size),
            )
            &&& post.handle.pos == pre.handle.pos + e.stream_size
            &&& post.metadata.toc.size == pre.metadata.toc.size + data.len()
            &&& e.stream_size == enc.len()
            &&& e.stream_size > 0
            &&& post.image().subrange(e.offset as int, e.offset + e.stream_size) == enc
            &&& decoded(post.image(), e) == Some(data)
            &&& extracts_to(post.image(), e, data)
        })
    })
}

impl DepotHandle {
    /// The worker count handed to the compressor: the low 32 bits of `mt_threads`.
    pub open spec fn threads_spec(&self) -> u32 {
        (self.mt_threads as int % 0x1_0000_0000) as u32
    }

    /// The frame that an append of `data` writes, under the current level,
    /// worker count and block size.
    pub open spec fn encoding_of(&self, data: Seq<u8>) -> Seq<u8> {
        zstd_encoded(data, self.metadata.toc.compression_level, self.threads_spec(), self.compression_frame_size)
    }

    /// Appends `data` under `name`, stamped with `ts`: compressed at the
    /// handle's position, or, for no bytes, recorded as an empty entry.
    pub fn add_stream_at(&mut self, name: &str, data: &[u8], ts: TsWithTz) -> (r: Result<(), DepotError>)
        requires
            old(self).wf(),
        ensures
            append_post(*old(self), *final(self), name@, data@, r),
            r is Ok ==> rows_map(final(self).rows())[name@].create_ts == ts,
    {
        if self.mode == OpenMode::Read {
            return Err(DepotError::ReadOnly);
        }
        let found = self.metadata.toc.find(name);
        if found.is_some() {
            let owned = name.to_owned();
            return Err(DepotError::DuplicateName(owned));
        }
        if name.as_bytes().len() > 0xFFFF_FFFF {
            return Err(DepotError::NameTooLong);
        }
        if self.metadata.toc.entry_count == u64::MAX {
            return Err(DepotError::SizeOverflow);
        }
        let before = self.handle.position();
        if data.len() == 0 {
            let einf = EntryInfo {
                offset: before,
                size: 0,
                stream_size: 0,
                flags: EMPTY_FLAG,
                create_ts: ts,
                mod_ts: ts,
                hash: EMPTY_HASH,
            };
            let ghost pre_rows = self.rows();
            let k = self.metadata.toc.insert_row(StreamInfo { name: name.to_owned(), einf });
            proof {
                lemma_rows_size_insert(pre_rows, k->Ok_0 as int, (name@, einf));
                lemma_insert_map(pre_rows, k->Ok_0 as int, (name@, einf));
                vstd::map::axiom_map_insert_same(rows_map(pre_rows), name@, einf);
                assert(rows_map(self.rows()).dom().contains(name@));
            }
            return Ok(());
        }
        let size = data.len() as u64;
        if size > u64::MAX - self.metadata.toc.size {
            return Err(DepotError::SizeOverflow);
        }
        let threads = (self.mt_threads as u64 % 0x1_0000_0000) as u32;
        let compressed = zstd_compress(
            data,
            self.metadata.toc.compression_level,
            threads,
            self.compression_frame_size,
        ).unwrap();
        if compressed.len() > usize::MAX - self.handle.pos {
            return Err(DepotError::SizeOverflow);
        }
        let hash = content_hash(data);
        let ghost pre_image = self.handle.data@;
        self.handle.write_all(compressed.as_slice());
        let einf = EntryInfo {
            offset: before,
            size,
            stream_size: compressed.len() as u64,
            flags: 0,
            create_ts: ts,
            mod_ts: ts,
            hash,
        };
        let ghost pre_rows = self.rows();
        let k = self.metadata.toc.insert_row(StreamInfo { name: name.to_owned(), einf });
        self.metadata.toc.size = self.metadata.toc.size + size;
        proof {
            lemma_rows_size_insert(pre_rows, k->Ok_0 as int, (name@, einf));
            lemma_insert_map(pre_rows, k->Ok_0 as int, (name@, einf));
            vstd::map::axiom_map_insert_same(rows_map(pre_rows), name@, einf);
            assert(rows_map(self.rows()).dom().contains(name@));
            crate::handle::lemma_splice_keeps(pre_image, before as int, compressed@, 0, 0);
            let off = self.header_offset as int;
            crate::handle::lemma_splice_keeps(pre_image, before as int, compressed@, off, off + 8);
            crate::handle::lemma_splice_keeps(pre_image, before as int, compressed@, off + 8, off + 10);
            crate::handle::lemma_splice_keeps(pre_image, before as int, compressed@, off + 10, off + 18);
            assert(self.image().subrange(before as int, before + compressed@.len()) == compressed@);
            assert(data@.take(size as int) =~= data@);
        }
        Ok(())
    }
}


impl DepotHandle {
    /// Appends `data` under `name`, stamped with the current local time.
    pub fn add_named_sized_stream(&mut self, name: &str, data: &[u8]) -> (r: Result<(), DepotError>)
        requires
            old(self).wf(),
        ensures
            append_post(*old(self), *final(self), name@, data@, r),
            r is Ok ==> -86400 < rows_map(final(self).rows())[name@].create_ts.tz < 86400,
    {
        let now = TsWithTz::now();
        self.add_stream_at(name, data, now)
    }

    /// Appends a file of the host under its path: `kind` is what stands at
    /// the path, `contents` the file's bytes.
    pub fn add_file(&mut self, path: &str, kind: PathKind, contents: &[u8]) -> (r: Result<(), DepotError>)
        requires
            old(self).wf(),
        ensures
            old(self).mode == OpenMode::Read ==> r matches Err(DepotError::ReadOnly),
            old(self).mode != OpenMode::Read && kind == PathKind::Missing ==> match r {
                Err(DepotError::NotFound(p)) => p@ == path@,
                _ => false,
            },
            old(self).mode != OpenMode::Read && (kind == PathKind::Directory || kind == PathKind::Other)
                ==> match r {
                Err(DepotError::NotAFile(p)) => p@ == path@,
                _ => false,
            },
            kind != PathKind::File ==> r is Err,
            r is Err ==> *final(self) == *old(self),
            old(self).mode != OpenMode::Read && kind == PathKind::File ==> append_post(*old(self), *final(self), path@, contents@, r),
    {
        if self.mode == OpenMode::Read {
            return Err(DepotError::ReadOnly);
        }
        match kind {
            PathKind::Directory => Err(DepotError::NotAFile(path.to_owned())),
            PathKind::Missing => Err(DepotError::NotFound(path.to_owned())),
            PathKind::Other => Err(DepotError::NotAFile(path.to_owned())),
            PathKind::File => self.add_named_sized_stream(path, contents),
        }
    }

    /// Decodes the entry's stream into `writer`: no more bytes than its
    /// recorded size, which must be met, and whose hash must match.
    pub fn extract_stream(&mut self, stream: &StreamInfo, writer: &mut Vec<u8>) -> (r: Result<(), DepotError>)
        ensures
            *final(self) == *old(self),
            stream.einf.is_empty() ==> r is Ok && final(writer)@ == old(writer)@,
            !stream.einf.is_empty() ==> {
                let e = stream.einf;
                let d = decoded(old(self).image(), e);
                &&& (d is None ==> final(writer)@ == old(writer)@)
                &&& (d is None <==> (r matches Err(DepotError::RegionOutOfRange(_)) || r matches Err(DepotError::Corrupt(_))))
                &&& (e.offset + e.stream_size > old(self).image().len() <==> r matches Err(DepotError::RegionOutOfRange(_)))
                &&& (d is Some ==> final(writer)@ == old(writer)@ + delivered(d->0, e))
                &&& (d is Some && delivered(d->0, e).len() != e.size <==> r matches Err(DepotError::SizeMismatch { .. }))
                &&& (d is Some && delivered(d->0, e).len() == e.size && seahash_of(delivered(d->0, e)) != e.hash
                    <==> r matches Err(DepotError::HashMismatch { .. }))
                &&& (r is Ok <==> extracts_to(old(self).image(), e, delivered(d->0, e)))
                &&& match r {
                    Err(DepotError::RegionOutOfRange(n)) => n@ == stream.name@,
                    Err(DepotError::Corrupt(n)) => n@ == stream.name@,
                    Err(DepotError::SizeMismatch { name, expected, actual }) => name@ == stream.name@
                        && expected == e.size && actual == delivered(d->0, e).len(),
                    Err(DepotError::HashMismatch { name, expected, actual }) => name@ == stream.name@
                        && expected == e.hash && actual == seahash_of(delivered(d->0, e)),
                    _ => true,
                }
            },
            r is Err ==> r->Err_0.kind() == ErrorKind::InvalidData,
    {
        let e = stream.einf;
        if e.is_empty() {
            return Ok(());
        }
        let buf = self.handle.data.as_slice();
        let len = buf.len() as u64;
        if e.stream_size > len || e.offset > len - e.stream_size {
            return Err(DepotError::RegionOutOfRange(stream.name.clone()));
        }
        let region = slice_subrange(buf, e.offset as usize, (e.offset + e.stream_size) as usize);
        let out = match zstd_decompress(region) {
            Ok(out) => out,
            Err(_) => return Err(DepotError::Corrupt(stream.name.clone())),
        };
        let n: usize = if out.len() as u64 > e.size {
            e.size as usize
        } else {
            out.len()
        };
        let part = slice_subrange(out.as_slice(), 0, n);
        assert(part@ == delivered(out@, e));
        writer.extend_from_slice(part);
        if n as u64 != e.size {
            return Err(DepotError::SizeMismatch { name: stream.name.clone(), expected: e.size, actual: n as u64 });
        }
        let hash = content_hash(part);
        if hash != e.hash {
            return Err(DepotError::HashMismatch { name: stream.name.clone(), expected: e.hash, actual: hash });
        }
        Ok(())
    }

    /// Decodes the entry's stream into a new buffer.
    pub fn stream_to_memory(&mut self, stream: &StreamInfo) -> (r: Result<Vec<u8>, DepotError>)
        ensures
            *final(self) == *old(self),
            stream.einf.is_empty() ==> r is Ok && r->Ok_0@ == Seq::<u8>::empty(),
            !stream.einf.is_empty() ==> (r is Ok <==> decoded(old(self).image(), stream.einf) is Some
                && extracts_to(old(self).image(), stream.einf, delivered(decoded(old(self).image(), stream.einf)->0, stream.einf))),
            !stream.einf.is_empty() && r is Ok ==> r->Ok_0@ == delivered(decoded(old(self).image(), stream.einf)->0, stream.einf),
            r is Err ==> r->Err_0.kind() == ErrorKind::InvalidData,
    {
        let mut buf: Vec<u8> = Vec::new();
        match self.extract_stream(stream, &mut buf) {
            Ok(()) => {
                assert(buf@ =~= Seq::<u8>::empty() + buf@);
                Ok(buf)
            },
            Err(e) => Err(e),
        }
    }
}


impl DepotHandle {
    /// Writes the table of contents at the end and points the header at it.
    pub fn finalize(&mut self) -> (r: Result<(), DepotError>)
        requires
            old(self).wf(),
        ensures
            old(self).mode == OpenMode::Read <==> r matches Err(DepotError::ReadOnly),
            old(self).mode != OpenMode::Read && old(self).image().len() + old(self).metadata.toc.bytes().len()
                > usize::MAX <==> r matches Err(DepotError::SizeOverflow),
            r is Ok <==> old(self).mode != OpenMode::Read && old(self).image().len()
                + old(self).metadata.toc.bytes().len() <= usize::MAX,
            r is Err ==> *final(self) == *old(self),
            r is Ok ==> {
                &&& final(self).wf()
                &&& final(self).image() == finalized(
                    old(self).image(),
                    old(self).header_offset as int,
                    old(self).metadata.header.version,
                    old(self).metadata.toc.bytes(),
                )
                &&& final(self).metadata.header.toc_offset == old(self).image().len()
                &&& final(self).metadata.toc == old(self).metadata.toc
                &&& final(self).metadata.header.version == old(self).metadata.header.version
            },
    {
        if self.mode == OpenMode::Read {
            return Err(DepotError::ReadOnly);
        }
        let mut bytes: Vec<u8> = Vec::new();
        self.metadata.toc.ser(&mut bytes);
        assert(bytes@ =~= self.metadata.toc.bytes());
        if bytes.len() > usize::MAX - self.handle.data.len() {
            return Err(DepotError::SizeOverflow);
        }
        let ghost start_data = self.image();
        self.handle.seek_end();
        let toc_offset = self.handle.position();
        self.handle.write_all(bytes.as_slice());
        assert(self.image() =~= start_data + bytes@);
        self.handle.seek_start(self.header_offset);
        self.metadata.header.toc_offset = toc_offset;
        let mut hb: Vec<u8> = Vec::new();
        self.metadata.header.ser(&mut hb);
        assert(hb@ =~= header_bytes(self.metadata.header.version, toc_offset));
        let ghost full = self.image();
        self.handle.write_all(hb.as_slice());
        proof {
            crate::handle::lemma_splice_keeps(full, self.header_offset as int, hb@, 0, 0);
            lemma_header_read(self.image(), self.header_offset as int, self.metadata.header.version, toc_offset);
        }
        self.handle.seek_end();
        Ok(())
    }

    /// Finalizes the depot and hands back its bytes.
    pub fn close(self) -> (r: Result<Vec<u8>, DepotError>)
        requires
            self.wf(),
        ensures
            self.mode == OpenMode::Read <==> r matches Err(DepotError::ReadOnly),
            self.mode != OpenMode::Read && self.image().len() + self.metadata.toc.bytes().len() > usize::MAX
                <==> r matches Err(DepotError::SizeOverflow),
            r is Ok <==> self.mode != OpenMode::Read && self.image().len() + self.metadata.toc.bytes().len()
                <= usize::MAX,
            r is Ok ==> r->Ok_0@ == finalized(
                self.image(),
                self.header_offset as int,
                self.metadata.header.version,
                self.metadata.toc.bytes(),
            ),
    {
        let mut me = self;
        match me.finalize() {
            Ok(()) => Ok(me.handle.into_inner()),
            Err(e) => Err(e),
        }
    }

    /// Nothing is buffered between the depot and its bytes: a no-op.
    pub fn flush(&mut self) -> (r: Result<(), DepotError>)
        ensures
            r is Ok,
            *final(self) == *old(self),
    {
        Ok(())
    }

    /// A copy of the table of contents.
    pub fn get_toc(&self) -> (r: DepotToc)
        ensures
            r.compression_level == self.metadata.toc.compression_level,
            r.entry_count == self.metadata.toc.entry_count,
            r.size == self.metadata.toc.size,
            r.rows() == self.rows(),
    {
        self.metadata.toc.copy()
    }

    /// The entries in ascending order of name.
    pub fn streams(&self) -> (r: Vec<StreamInfo>)
        ensures
            crate::types::rows_of(r@) == self.rows(),
    {
        self.metadata.toc.copy().entries
    }

    /// The entry named `name`, if there is one.
    pub fn get_named_stream(&self, name: &str) -> (r: Option<StreamInfo>)
        requires
            self.wf(),
        ensures
            r is Some <==> has_name(self.rows(), name@),
            r is Some ==> r->0@ == (name@, rows_map(self.rows())[name@]),
    {
        match self.metadata.toc.find(name) {
            Some(i) => {
                proof {
                    crate::types::lemma_lookup_at(self.rows(), i as int);
                }
                Some(StreamInfo::from((name.to_owned(), self.metadata.toc.entries[i].einf)))
            },
            None => None,
        }
    }
}

} // verus!
