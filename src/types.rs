//! The header, the entry records and the table of contents, with their wire
//! encoding.
use crate::codec::{
    be16, be32, be64, from_be16, from_be32, from_be64, lemma_be16_round_trip,
    lemma_be32_round_trip, lemma_be64_round_trip, read_u16, read_u32, read_u64, write_u16,
    write_u32, write_u64,
};
use crate::error::{DepotError, ErrorKind};
use crate::order::{bytes_lt, compare_bytes, lemma_lt_irreflexive, lemma_lt_transitive};
use crate::outside::utf8_to_string;
use crate::timestamp::{lemma_pack_round_trip, unpack_ts, unpack_tz, TsWithTz};
use vstd::prelude::*;
use vstd::slice::slice_subrange;
use vstd::utf8::{decode_utf8, encode_utf8, encode_utf8_decode_utf8, encode_utf8_valid_utf8, valid_utf8};

verus! {

/// "DEPOTARC" read as a big-endian 64-bit word.
pub const MAGIC: u64 = 0x4445_504F_5441_5243;

/// The format version that this library writes and the newest it reads.
pub const VERSION: u16 = 1;

/// The `toc_offset` of a depot that has not been finalized.
pub const UNFINALIZED: u64 = 0xFFFF_FFFF_FFFF_FFFF;

/// Bytes of a header on the wire.
pub const HEADER_LEN: usize = 18;

/// Bytes of an entry record on the wire.
pub const ENTRY_LEN: usize = 56;

/// Flag bit 0: the entry has no compressed payload.
pub const EMPTY_FLAG: u64 = 1;

/// The hash recorded for an empty entry.
pub const EMPTY_HASH: u64 = 0xFFFF_FFFF_FFFF_FFFF;

/// Where and how one stream is stored.
#[derive(Clone, Copy, Debug, PartialEq, Eq, Structural)]
pub struct EntryInfo {
    pub offset: u64,
    pub size: u64,
    pub stream_size: u64,
    pub flags: u64,
    pub create_ts: TsWithTz,
    pub mod_ts: TsWithTz,
    pub hash: u64,
}

impl EntryInfo {
    /// Reserved flag bits are zero.
    pub open spec fn valid(self) -> bool {
        self.flags <= EMPTY_FLAG
    }

    /// The entry stands for a zero-byte stream.
    pub open spec fn is_empty_spec(&self) -> bool {
        self.flags % 2 == 1
    }

    #[verifier::when_used_as_spec(is_empty_spec)]
    pub fn is_empty(&self) -> (r: bool)
        ensures
            r == self.is_empty_spec(),
    {
        let f = self.flags;
        assert((f & 1u64 == 1u64) == (f % 2 == 1)) by (bit_vector);
        f & EMPTY_FLAG == EMPTY_FLAG
    }
}

/// A name and the record stored under it.
#[derive(Clone, Debug)]
pub struct StreamInfo {
    pub name: String,
    pub einf: EntryInfo,
}

/// A table row as a mathematical value: the name's characters and its record.
pub type Row = (Seq<char>, EntryInfo);

impl View for StreamInfo {
    type V = Row;

    open spec fn view(&self) -> Row {
        (self.name@, self.einf)
    }
}

impl StreamInfo {
    pub fn from(pair: (String, EntryInfo)) -> (r: StreamInfo)
        ensures
            r@ == (pair.0@, pair.1),
    {
        StreamInfo { name: pair.0, einf: pair.1 }
    }

    /// A copy with the same name and record.
    pub fn copy(&self) -> (r: StreamInfo)
        ensures
            r@ == self@,
    {
        StreamInfo { name: self.name.clone(), einf: self.einf }
    }
}

/// The UTF-8 bytes of a name, the key by which rows are ordered.
pub open spec fn key(name: Seq<char>) -> Seq<u8> {
    encode_utf8(name)
}

/// A length-prefixed name: a 32-bit big-endian byte count, then the UTF-8 bytes.
pub open spec fn name_bytes(name: Seq<char>) -> Seq<u8> {
    be32(key(name).len() as u32) + key(name)
}

/// The seven 64-bit fields of a record, big-endian, in declaration order.
pub open spec fn entry_bytes(e: EntryInfo) -> Seq<u8> {
    be64(e.offset) + be64(e.size) + be64(e.stream_size) + be64(e.flags) + be64(
        e.create_ts.to_spec(),
    ) + be64(e.mod_ts.to_spec()) + be64(e.hash)
}

pub open spec fn row_bytes(r: Row) -> Seq<u8> {
    name_bytes(r.0) + entry_bytes(r.1)
}

pub open spec fn rows_bytes(rows: Seq<Row>) -> Seq<u8>
    decreases rows.len(),
{
    if rows.len() == 0 {
        Seq::empty()
    } else {
        row_bytes(rows[0]) + rows_bytes(rows.drop_first())
    }
}

/// Rows that can be written: names fit their length prefix, records are valid,
/// and names strictly ascend.
pub open spec fn rows_ok(rows: Seq<Row>) -> bool {
    &&& forall|i: int| 0 <= i < rows.len() ==> #[trigger] key(rows[i].0).len() <= u32::MAX
    &&& forall|i: int| 0 <= i < rows.len() ==> (#[trigger] rows[i]).1.valid()
    &&& forall|i: int, j: int|
        0 <= i < j < rows.len() ==> bytes_lt(#[trigger] key(rows[i].0), #[trigger] key(rows[j].0))
}

/// The serialized table: level, count and total size, then each row in order.
pub open spec fn toc_bytes(level: i32, count: u64, size: u64, rows: Seq<Row>) -> Seq<u8> {
    be32(level as u32) + be64(count) + be64(size) + rows_bytes(rows)
}

/// The header on the wire.
pub open spec fn header_bytes(version: u16, toc_offset: u64) -> Seq<u8> {
    be64(MAGIC) + be16(version) + be64(toc_offset)
}

/// The name stored at `p`, and where it ends.
pub open spec fn parse_name(buf: Seq<u8>, p: int) -> Option<(Seq<char>, int)> {
    if 0 <= p && p + 4 <= buf.len() {
        let n = from_be32(buf.subrange(p, p + 4)) as int;
        if p + 4 + n <= buf.len() && valid_utf8(buf.subrange(p + 4, p + 4 + n)) {
            Some((decode_utf8(buf.subrange(p + 4, p + 4 + n)), p + 4 + n))
        } else {
            None
        }
    } else {
        None
    }
}

/// The 64-bit field `k` of a record at `p`.
pub open spec fn field(buf: Seq<u8>, p: int, k: int) -> u64 {
    from_be64(buf.subrange(p + 8 * k, p + 8 * k + 8))
}

/// The record stored at `p`, if it is whole and its reserved bits are clear.
pub open spec fn parse_entry(buf: Seq<u8>, p: int) -> Option<EntryInfo> {
    if 0 <= p && p + 56 <= buf.len() && field(buf, p, 3) <= EMPTY_FLAG {
        Some(
            EntryInfo {
                offset: field(buf, p, 0),
                size: field(buf, p, 1),
                stream_size: field(buf, p, 2),
                flags: field(buf, p, 3),
                create_ts: TsWithTz { ts: unpack_ts(field(buf, p, 4)), tz: unpack_tz(field(buf, p, 4)) },
                mod_ts: TsWithTz { ts: unpack_ts(field(buf, p, 5)), tz: unpack_tz(field(buf, p, 5)) },
                hash: field(buf, p, 6),
            },
        )
    } else {
        None
    }
}

/// `n` rows stored from `p`, each name after `prev`, and where they end.
pub open spec fn parse_rows(buf: Seq<u8>, p: int, n: nat, prev: Option<Seq<char>>) -> Option<
    (Seq<Row>, int),
>
    decreases n,
{
    if n == 0 {
        Some((Seq::empty(), p))
    } else {
        match parse_name(buf, p) {
            None => None,
            Some((name, q)) => {
                if prev is Some && !bytes_lt(key(prev->0), key(name)) {
                    None
                } else {
                    match parse_entry(buf, q) {
                        None => None,
                        Some(e) => match parse_rows(buf, q + 56, (n - 1) as nat, Some(name)) {
                            None => None,
                            Some((rest, end)) => Some((seq![(name, e)] + rest, end)),
                        },
                    }
                }
            },
        }
    }
}

/// A whole table stored from `p`: level, count, size, rows, and where it ends.
pub open spec fn parse_toc(buf: Seq<u8>, p: int) -> Option<(i32, u64, u64, Seq<Row>, int)> {
    if 0 <= p && p + 20 <= buf.len() {
        let count = from_be64(buf.subrange(p + 4, p + 12));
        match parse_rows(buf, p + 20, count as nat, None) {
            None => None,
            Some((rows, end)) => Some(
                (
                    from_be32(buf.subrange(p, p + 4)) as i32,
                    count,
                    from_be64(buf.subrange(p + 12, p + 20)),
                    rows,
                    end,
                ),
            ),
        }
    } else {
        None
    }
}

/// The header fields.
#[derive(Clone, Copy, Debug, PartialEq, Eq, Structural)]
pub struct DepotHeader {
    pub version: u16,
    pub toc_offset: u64,
}

impl DepotHeader {
    /// Appends the header's wire form.
    pub fn ser(&self, out: &mut Vec<u8>)
        ensures
            final(out)@ == old(out)@ + header_bytes(self.version, self.toc_offset),
    {
        let ghost start = out@;
        write_u64(out, MAGIC);
        write_u16(out, self.version);
        write_u64(out, self.toc_offset);
        assert(out@ =~= start + header_bytes(self.version, self.toc_offset));
    }

    /// Reads a header at `pos`: the magic first, then the version and offset.
    pub fn de(buf: &[u8], pos: usize) -> (r: Result<DepotHeader, DepotError>)
        ensures
            pos + 8 <= buf@.len() && from_be64(buf@.subrange(pos as int, pos + 8)) != MAGIC
                <==> r matches Err(DepotError::BadMagic),
            r is Ok <==> pos + 18 <= buf@.len() && from_be64(buf@.subrange(pos as int, pos + 8))
                == MAGIC,
            r is Err ==> r matches Err(DepotError::BadMagic) || r matches Err(DepotError::Truncated),
            r is Ok ==> r->Ok_0.version == from_be16(buf@.subrange(pos + 8, pos + 10))
                && r->Ok_0.toc_offset == from_be64(buf@.subrange(pos + 10, pos + 18)),
    {
        let magic = match read_u64(buf, pos) {
            Some(m) => m,
            None => return Err(DepotError::Truncated),
        };
        if magic != MAGIC {
            return Err(DepotError::BadMagic);
        }
        if buf.len() - pos < 18 {
            return Err(DepotError::Truncated);
        }
        let version = read_u16(buf, pos + 8).unwrap();
        let toc_offset = read_u64(buf, pos + 10).unwrap();
        Ok(DepotHeader { version, toc_offset })
    }
}

impl EntryInfo {
    /// Appends the record's wire form.
    pub fn ser(&self, out: &mut Vec<u8>)
        ensures
            final(out)@ == old(out)@ + entry_bytes(*self),
    {
        let ghost start = out@;
        write_u64(out, self.offset);
        write_u64(out, self.size);
        write_u64(out, self.stream_size);
        write_u64(out, self.flags);
        write_u64(out, self.create_ts.to_u64());
        write_u64(out, self.mod_ts.to_u64());
        write_u64(out, self.hash);
        assert(out@ =~= start + entry_bytes(*self));
    }

    /// Reads a record at `pos`.
    pub fn de(buf: &[u8], pos: usize) -> (r: Result<EntryInfo, DepotError>)
        ensures
            r is Ok <==> parse_entry(buf@, pos as int) is Some,
            r is Ok ==> parse_entry(buf@, pos as int) == Some(r->Ok_0),
            r is Err ==> r matches Err(DepotError::Truncated) || r matches Err(DepotError::BadFlags),
    {
        if buf.len() < 56 || pos > buf.len() - 56 {
            return Err(DepotError::Truncated);
        }
        let offset = read_u64(buf, pos).unwrap();
        let size = read_u64(buf, pos + 8).unwrap();
        let stream_size = read_u64(buf, pos + 16).unwrap();
        let flags = read_u64(buf, pos + 24).unwrap();
        let create = read_u64(buf, pos + 32).unwrap();
        let modified = read_u64(buf, pos + 40).unwrap();
        let hash = read_u64(buf, pos + 48).unwrap();
        if flags > EMPTY_FLAG {
            return Err(DepotError::BadFlags);
        }
        Ok(
            EntryInfo {
                offset,
                size,
                stream_size,
                flags,
                create_ts: TsWithTz::from_u64(create),
                mod_ts: TsWithTz::from_u64(modified),
                hash,
            },
        )
    }
}


/// The table of contents: settings, totals, and the rows sorted by name.
#[derive(Clone, Debug)]
pub struct DepotToc {
    /// The compression level that appends use.
    pub compression_level: i32,
    /// The number of rows.
    pub entry_count: u64,
    /// The sum of the uncompressed sizes of the non-empty entries.
    pub size: u64,
    /// The rows, in ascending order of their names' UTF-8 bytes.
    pub entries: Vec<StreamInfo>,
}

impl Default for DepotToc {
    /// An empty table at compression level 0.
    fn default() -> (r: DepotToc)
        ensures
            r.wf(),
            r.compression_level == 0,
            r.entry_count == 0,
            r.size == 0,
            r.rows() == Seq::<Row>::empty(),
    {
        let r = DepotToc { compression_level: 0, entry_count: 0, size: 0, entries: Vec::new() };
        assert(r.rows() =~= Seq::<Row>::empty());
        r
    }
}

impl DepotToc {
    /// The rows as mathematical values.
    pub open spec fn rows(&self) -> Seq<Row> {
        self.entries@.map_values(|s: StreamInfo| s@)
    }

    /// Rows sorted, valid and counted.
    pub open spec fn wf(&self) -> bool {
        &&& rows_ok(self.rows())
        &&& self.entry_count == self.entries@.len()
    }

    /// The wire form of this table.
    pub open spec fn bytes(&self) -> Seq<u8> {
        toc_bytes(self.compression_level, self.entry_count, self.size, self.rows())
    }

    /// The index of the row named `name`, if there is one.
    pub fn find(&self, name: &str) -> (r: Option<usize>)
        requires
            self.wf(),
        ensures
            r is Some ==> r->0 < self.rows().len() && self.rows()[r->0 as int].0 == name@,
            r is None ==> forall|i: int| 0 <= i < self.rows().len() ==> self.rows()[i].0 != name@,
    {
        let nb = name.as_bytes();
        let mut i: usize = 0;
        while i < self.entries.len()
            invariant
                i <= self.entries@.len(),
                nb@ == key(name@),
                forall|j: int| 0 <= j < i ==> self.rows()[j].0 != name@,
            decreases self.entries@.len() - i,
        {
            let eb = self.entries[i].name.as_str().as_bytes();
            if compare_bytes(eb, nb) == 0 {
                proof {
                    encode_utf8_decode_utf8(name@);
                    encode_utf8_decode_utf8(self.rows()[i as int].0);
                }
                return Some(i);
            }
            proof {
                if self.rows()[i as int].0 == name@ {
                    assert(eb@ == nb@);
                }
            }
            i = i + 1;
        }
        None
    }

    /// Appends the table's wire form.
    pub fn ser(&self, out: &mut Vec<u8>)
        requires
            self.wf(),
        ensures
            final(out)@ == old(out)@ + self.bytes(),
    {
        let ghost start = out@;
        write_u32(out, self.compression_level as u32);
        write_u64(out, self.entry_count);
        write_u64(out, self.size);
        let ghost pre = out@;
        let mut i: usize = 0;
        assert(self.rows().take(0) =~= Seq::<Row>::empty());
        while i < self.entries.len()
            invariant
                self.wf(),
                i <= self.entries@.len(),
                out@ == pre + rows_bytes(self.rows().take(i as int)),
            decreases self.entries@.len() - i,
        {
            let ghost before = out@;
            let row = &self.entries[i];
            let nb = row.name.as_str().as_bytes();
            assert(key(self.rows()[i as int].0).len() <= u32::MAX);
            write_u32(out, nb.len() as u32);
            out.extend_from_slice(nb);
            row.einf.ser(out);
            proof {
                lemma_rows_bytes_push(self.rows().take(i as int), self.rows()[i as int]);
                assert(self.rows().take(i + 1) =~= self.rows().take(i as int).push(
                    self.rows()[i as int],
                ));
                assert(out@ =~= before + row_bytes(self.rows()[i as int]));
            }
            i = i + 1;
        }
        assert(self.rows().take(i as int) =~= self.rows());
        assert(out@ =~= start + self.bytes());
    }
}

pub proof fn lemma_rows_bytes_push(rows: Seq<Row>, r: Row)
    ensures
        rows_bytes(rows.push(r)) == rows_bytes(rows) + row_bytes(r),
    decreases rows.len(),
{
    if rows.len() == 0 {
        assert(rows.push(r).drop_first() =~= Seq::<Row>::empty());
        assert(rows_bytes(rows.push(r).drop_first()) =~= Seq::<u8>::empty());
        assert(rows.push(r)[0] == r);
        assert(rows_bytes(rows.push(r)) =~= rows_bytes(rows) + row_bytes(r));
    } else {
        assert(rows.push(r).drop_first() =~= rows.drop_first().push(r));
        lemma_rows_bytes_push(rows.drop_first(), r);
        assert(rows.push(r)[0] == rows[0]);
        assert(rows_bytes(rows.push(r)) == row_bytes(rows[0]) + rows_bytes(rows.drop_first().push(r)));
        assert(rows_bytes(rows.push(r)) =~= rows_bytes(rows) + row_bytes(r));
    }
}


/// `rows` placed before whatever rows `r` holds.
pub open spec fn prepend(rows: Seq<Row>, r: Option<(Seq<Row>, int)>) -> Option<(Seq<Row>, int)> {
    match r {
        None => None,
        Some((rest, end)) => Some((rows + rest, end)),
    }
}

/// The rows of a vector of streams.
pub open spec fn rows_of(v: Seq<StreamInfo>) -> Seq<Row> {
    v.map_values(|s: StreamInfo| s@)
}

/// A window of a buffer that holds `x` holds the matching window of `x`.
proof fn lemma_window(buf: Seq<u8>, p: int, x: Seq<u8>, a: int, b: int)
    requires
        0 <= p,
        p + x.len() <= buf.len(),
        buf.subrange(p, p + x.len()) == x,
        0 <= a <= b <= x.len(),
    ensures
        buf.subrange(p + a, p + b) == x.subrange(a, b),
{
    assert(buf.subrange(p + a, p + b) =~= buf.subrange(p, p + x.len()).subrange(a, b));
}

proof fn lemma_entry_round_trip(buf: Seq<u8>, q: int, e: EntryInfo)
    requires
        0 <= q,
        q + 56 <= buf.len(),
        buf.subrange(q, q + 56) == entry_bytes(e),
        e.valid(),
    ensures
        parse_entry(buf, q) == Some(e),
{
    let x = entry_bytes(e);
    lemma_be64_round_trip(e.offset);
    lemma_be64_round_trip(e.size);
    lemma_be64_round_trip(e.stream_size);
    lemma_be64_round_trip(e.flags);
    lemma_be64_round_trip(e.create_ts.to_spec());
    lemma_be64_round_trip(e.mod_ts.to_spec());
    lemma_be64_round_trip(e.hash);
    lemma_pack_round_trip(e.create_ts.ts, e.create_ts.tz, 0);
    lemma_pack_round_trip(e.mod_ts.ts, e.mod_ts.tz, 0);
    assert(x.len() == 56);
    lemma_window(buf, q, x, 0, 8);
    lemma_window(buf, q, x, 8, 16);
    lemma_window(buf, q, x, 16, 24);
    lemma_window(buf, q, x, 24, 32);
    lemma_window(buf, q, x, 32, 40);
    lemma_window(buf, q, x, 40, 48);
    lemma_window(buf, q, x, 48, 56);
    assert(x.subrange(0, 8) =~= be64(e.offset));
    assert(x.subrange(8, 16) =~= be64(e.size));
    assert(x.subrange(16, 24) =~= be64(e.stream_size));
    assert(x.subrange(24, 32) =~= be64(e.flags));
    assert(x.subrange(32, 40) =~= be64(e.create_ts.to_spec()));
    assert(x.subrange(40, 48) =~= be64(e.mod_ts.to_spec()));
    assert(x.subrange(48, 56) =~= be64(e.hash));
}

/// Rows written out are read back as the same rows, ending where they end.
#[verifier::rlimit(50)]
pub proof fn lemma_rows_round_trip(buf: Seq<u8>, p: int, rows: Seq<Row>, prev: Option<Seq<char>>)
    requires
        0 <= p,
        p + rows_bytes(rows).len() <= buf.len(),
        buf.subrange(p, p + rows_bytes(rows).len()) == rows_bytes(rows),
        rows_ok(rows),
        prev is Some && rows.len() > 0 ==> bytes_lt(key(prev->0), key(rows[0].0)),
    ensures
        parse_rows(buf, p, rows.len() as nat, prev) == Some((rows, p + rows_bytes(rows).len())),
    decreases rows.len(),
{
    if rows.len() == 0 {
        assert(rows =~= Seq::<Row>::empty());
    } else {
        let r = rows[0];
        let x = rows_bytes(rows);
        let k = key(r.0);
        let n = k.len() as int;
        assert(n <= u32::MAX);
        lemma_be32_round_trip(n as u32);
        assert(x == name_bytes(r.0) + entry_bytes(r.1) + rows_bytes(rows.drop_first()));
        lemma_window(buf, p, x, 0, 4);
        assert(x.subrange(0, 4) =~= be32(n as u32));
        lemma_window(buf, p, x, 4, 4 + n);
        assert(x.subrange(4, 4 + n) =~= k);
        encode_utf8_valid_utf8(r.0);
        encode_utf8_decode_utf8(r.0);
        assert(parse_name(buf, p) == Some((r.0, p + 4 + n)));
        let q = p + 4 + n;
        lemma_window(buf, p, x, 4 + n, 4 + n + 56);
        assert(x.subrange(4 + n, 4 + n + 56) =~= entry_bytes(r.1));
        assert(buf.subrange(q, q + 56) == entry_bytes(r.1));
        lemma_entry_round_trip(buf, q, r.1);
        let rest = rows.drop_first();
        let y = rows_bytes(rest);
        lemma_window(buf, p, x, 4 + n + 56, x.len() as int);
        assert(x.subrange(4 + n + 56, x.len() as int) =~= y);
        assert forall|i: int| 0 <= i < rest.len() implies #[trigger] key(rest[i].0).len() <= u32::MAX by {
            assert(rest[i] == rows[i + 1]);
        }
        assert forall|i: int| 0 <= i < rest.len() implies (#[trigger] rest[i]).1.valid() by {
            assert(rest[i] == rows[i + 1]);
        }
        assert forall|i: int, j: int| 0 <= i < j < rest.len() implies bytes_lt(
            #[trigger] key(rest[i].0),
            #[trigger] key(rest[j].0),
        ) by {
            assert(rest[i] == rows[i + 1]);
            assert(rest[j] == rows[j + 1]);
        }
        if rest.len() > 0 {
            assert(rest[0] == rows[1]);
            assert(bytes_lt(key(rows[0].0), key(rows[1].0)));
        }
        lemma_rows_round_trip(buf, q + 56, rest, Some(r.0));
        assert(seq![(r.0, r.1)] + rest =~= rows);
    }
}

/// The three-field preamble plus rows, written out, read back as they were.
pub proof fn lemma_toc_round_trip(buf: Seq<u8>, p: int, level: i32, count: u64, size: u64, rows: Seq<Row>)
    requires
        0 <= p,
        p + toc_bytes(level, count, size, rows).len() <= buf.len(),
        buf.subrange(p, p + toc_bytes(level, count, size, rows).len()) == toc_bytes(level, count, size, rows),
        rows_ok(rows),
        count == rows.len(),
    ensures
        parse_toc(buf, p) == Some((level, count, size, rows, p + toc_bytes(level, count, size, rows).len())),
{
    let x = toc_bytes(level, count, size, rows);
    lemma_be32_round_trip(level as u32);
    lemma_be64_round_trip(count);
    lemma_be64_round_trip(size);
    assert((level as u32) as i32 == level) by (bit_vector);
    lemma_window(buf, p, x, 0, 4);
    assert(x.subrange(0, 4) =~= be32(level as u32));
    lemma_window(buf, p, x, 4, 12);
    assert(x.subrange(4, 12) =~= be64(count));
    lemma_window(buf, p, x, 12, 20);
    assert(x.subrange(12, 20) =~= be64(size));
    lemma_window(buf, p, x, 20, x.len() as int);
    assert(x.subrange(20, x.len() as int) =~= rows_bytes(rows));
    lemma_rows_round_trip(buf, p + 20, rows, None);
}


impl DepotToc {
    #[verifier::rlimit(80)]
    /// Reads a table at `pos`: the preamble, then `entry_count` rows whose
    /// names must strictly ascend. Gives the table and where it ends.
    pub fn de(buf: &[u8], pos: usize) -> (r: Result<(DepotToc, usize), DepotError>)
        ensures
            r is Ok <==> parse_toc(buf@, pos as int) is Some,
            r is Ok ==> pos + 20 <= r->Ok_0.1 <= buf@.len(),
            r is Ok ==> r->Ok_0.0.wf() && parse_toc(buf@, pos as int) == Some(
                (
                    r->Ok_0.0.compression_level,
                    r->Ok_0.0.entry_count,
                    r->Ok_0.0.size,
                    r->Ok_0.0.rows(),
                    r->Ok_0.1 as int,
                ),
            ),
            r is Err ==> r->Err_0.kind() == ErrorKind::InvalidData,
    {
        if buf.len() < 20 || pos > buf.len() - 20 {
            return Err(DepotError::Truncated);
        }
        let level = #[verifier::truncate] (read_u32(buf, pos).unwrap() as i32);
        let count = read_u64(buf, pos + 4).unwrap();
        let size = read_u64(buf, pos + 12).unwrap();
        let mut entries: Vec<StreamInfo> = Vec::new();
        let mut p: usize = pos + 20;
        let mut i: u64 = 0;
        let ghost whole = parse_rows(buf@, pos + 20, count as nat, None);
        proof {
            match parse_rows(buf@, p as int, count as nat, None) {
                None => {},
                Some((rest, end)) => {
                    assert(Seq::<Row>::empty() + rest =~= rest);
                },
            }
            assert(rows_of(entries@) =~= Seq::<Row>::empty());
            assert(level == from_be32(buf@.subrange(pos as int, pos + 4)) as i32);
        }
        while i < count
            invariant
                pos + 20 <= p <= buf@.len(),
                i <= count,
                entries@.len() == i,
                rows_ok(rows_of(entries@)),
                whole == parse_rows(buf@, pos + 20, count as nat, None),
                parse_toc(buf@, pos as int) == match whole {
                    None => None,
                    Some((rows, end)) => Some((level, count, size, rows, end)),
                },
                whole == prepend(
                    rows_of(entries@),
                    parse_rows(
                        buf@,
                        p as int,
                        (count - i) as nat,
                        if i == 0 {
                            None
                        } else {
                            Some(entries@[i - 1].name@)
                        },
                    ),
                ),
            decreases count - i,
        {
            let ghost prev = if i == 0 {
                None
            } else {
                Some(entries@[i - 1].name@)
            };
            let ghost rows = rows_of(entries@);
            if buf.len() - p < 4 {
                proof {
                    lemma_rows_unfold(buf@, p as int, (count - i) as nat, prev);
                    assert(parse_name(buf@, p as int) is None);
                    assert(whole is None);
                }
                return Err(DepotError::Truncated);
            }
            let n = read_u32(buf, p).unwrap() as usize;
            let start = p + 4;
            if n > buf.len() - start {
                proof {
                    lemma_rows_unfold(buf@, p as int, (count - i) as nat, prev);
                }
                return Err(DepotError::Truncated);
            }
            let nb = slice_subrange(buf, start, start + n);
            let name = match utf8_to_string(nb) {
                Some(name) => name,
                None => {
                    proof {
                        lemma_rows_unfold(buf@, p as int, (count - i) as nat, prev);
                    }
                    return Err(DepotError::BadName);
                },
            };
            proof {
                vstd::utf8::decode_utf8_encode_utf8(nb@);
                assert(nb@ =~= buf@.subrange(start as int, start + n));
                assert(parse_name(buf@, p as int) == Some((name@, (start + n) as int)));
                assert(key(name@) == nb@);
            }
            if i > 0 {
                let last_name = &entries[entries.len() - 1].name;
                let lb = last_name.as_str().as_bytes();
                let cb = name.as_str().as_bytes();
                let c = compare_bytes(lb, cb);
                if c >= 0 {
                    proof {
                        lemma_rows_unfold(buf@, p as int, (count - i) as nat, prev);
                    }
                    return Err(DepotError::Unordered);
                }
                assert(lb@ == key(last_name@));
                assert(cb@ == key(name@));
                assert(last_name@ == entries@[i - 1].name@);
            }
            let e = match EntryInfo::de(buf, start + n) {
                Ok(e) => e,
                Err(err) => {
                    proof {
                        lemma_rows_unfold(buf@, p as int, (count - i) as nat, prev);
                    }
                    return Err(err);
                },
            };
            proof {
                let row: Row = (name@, e);
                let next = parse_rows(buf@, (start + n + 56) as int, (count - i - 1) as nat, Some(name@));
                lemma_rows_unfold(buf@, p as int, (count - i) as nat, prev);
                lemma_prepend_push(rows, row, next);
                assert(rows_of(entries@.push(StreamInfo { name: name, einf: e })) =~= rows.push(row));
                if i > 0 {
                    assert(rows[rows.len() - 1].0 == entries@[i - 1].name@);
                }
                lemma_rows_ok_push(rows, row);
            }
            entries.push(StreamInfo { name, einf: e });
            p = start + n + 56;
            i = i + 1;
        }
        proof {
            assert(parse_rows(buf@, p as int, 0, None) == Some((Seq::<Row>::empty(), p as int)));
            assert(rows_of(entries@) + Seq::<Row>::empty() =~= rows_of(entries@));
        }
        let toc = DepotToc { compression_level: level, entry_count: count, size, entries };
        assert(toc.rows() == rows_of(toc.entries@));
        Ok((toc, p))
    }
}


/// One step of `parse_rows`: a name, the order check, a record, and the rest.
proof fn lemma_rows_unfold(buf: Seq<u8>, p: int, n: nat, prev: Option<Seq<char>>)
    requires
        n > 0,
    ensures
        parse_rows(buf, p, n, prev) == match parse_name(buf, p) {
            None => None,
            Some((name, q)) => {
                if prev is Some && !bytes_lt(key(prev->0), key(name)) {
                    None
                } else {
                    match parse_entry(buf, q) {
                        None => None,
                        Some(e) => prepend(seq![(name, e)], parse_rows(buf, q + 56, (n - 1) as nat, Some(name))),
                    }
                }
            },
        },
{
}

proof fn lemma_prepend_push(rows: Seq<Row>, row: Row, x: Option<(Seq<Row>, int)>)
    ensures
        prepend(rows, prepend(seq![row], x)) == prepend(rows.push(row), x),
{
    match x {
        None => {},
        Some((rest, end)) => {
            assert(rows + (seq![row] + rest) =~= rows.push(row) + rest);
        },
    }
}

proof fn lemma_rows_ok_push(rows: Seq<Row>, row: Row)
    requires
        rows_ok(rows),
        row.1.valid(),
        key(row.0).len() <= u32::MAX,
        rows.len() > 0 ==> bytes_lt(key(rows[rows.len() - 1].0), key(row.0)),
    ensures
        rows_ok(rows.push(row)),
{
    let s = rows.push(row);
    assert forall|i: int| 0 <= i < s.len() implies #[trigger] key(s[i].0).len() <= u32::MAX by {
        if i < rows.len() {
            assert(s[i] == rows[i]);
        }
    }
    assert forall|i: int| 0 <= i < s.len() implies (#[trigger] s[i]).1.valid() by {
        if i < rows.len() {
            assert(s[i] == rows[i]);
        }
    }
    assert forall|a: int, b: int| 0 <= a < b < s.len() implies bytes_lt(
        #[trigger] key(s[a].0),
        #[trigger] key(s[b].0),
    ) by {
        assert(s[a] == rows[a]);
        if b < rows.len() {
            assert(s[b] == rows[b]);
        } else if a < rows.len() - 1 {
            lemma_lt_transitive(key(rows[a].0), key(rows[rows.len() - 1].0), key(row.0));
        }
    }
}


impl DepotToc {
    /// Puts a row under a new name in its sorted place and counts it.
    pub fn insert_row(&mut self, row: StreamInfo) -> (r: Result<usize, DepotError>)
        requires
            old(self).wf(),
            old(self).entry_count < u64::MAX,
            row.einf.valid(),
        ensures
            (exists|i: int| 0 <= i < old(self).rows().len() && old(self).rows()[i].0 == row.name@)
                <==> r matches Err(DepotError::DuplicateName(_)),
            key(row.name@).len() > u32::MAX && !(r matches Err(DepotError::DuplicateName(_)))
                <==> r matches Err(DepotError::NameTooLong),
            r is Err ==> *final(self) == *old(self),
            r is Err ==> r matches Err(DepotError::DuplicateName(_)) || r matches Err(DepotError::NameTooLong),
            r is Ok ==> {
                let k = r->Ok_0 as int;
                &&& final(self).wf()
                &&& k <= old(self).rows().len()
                &&& final(self).rows() == old(self).rows().insert(k, row@)
                &&& final(self).entry_count == old(self).entry_count + 1
                &&& final(self).compression_level == old(self).compression_level
                &&& final(self).size == old(self).size
                &&& forall|j: int| 0 <= j < k ==> bytes_lt(key(old(self).rows()[j].0), key(row.name@))
                &&& forall|j: int| k <= j < old(self).rows().len() ==> bytes_lt(key(row.name@), key(old(self).rows()[j].0))
            },
    {
        let nb = row.name.as_str().as_bytes();
        let ghost rows = self.rows();
        let mut i: usize = 0;
        let mut c: i8 = 1;
        while i < self.entries.len()
            invariant
                self.wf(),
                rows == self.rows(),
                i <= self.entries@.len(),
                nb@ == key(row.name@),
                forall|j: int| 0 <= j < i ==> bytes_lt(#[trigger] key(rows[j].0), nb@),
            ensures
                self.wf(),
                rows == self.rows(),
                i <= self.entries@.len(),
                forall|j: int| 0 <= j < i ==> bytes_lt(#[trigger] key(rows[j].0), nb@),
                i < self.entries@.len() ==> c >= 0,
                i < self.entries@.len() ==> (c == 0 <==> key(rows[i as int].0) == nb@),
                i < self.entries@.len() && c > 0 ==> bytes_lt(nb@, key(rows[i as int].0)),
            decreases self.entries@.len() - i,
        {
            c = compare_bytes(self.entries[i].name.as_str().as_bytes(), nb);
            assert(rows[i as int].0 == self.entries@[i as int].name@);
            if c >= 0 {
                break;
            }
            i = i + 1;
        }
        if i < self.entries.len() && c == 0 {
            proof {
                encode_utf8_decode_utf8(row.name@);
                encode_utf8_decode_utf8(rows[i as int].0);
                assert(rows[i as int].0 == row.name@);
            }
            return Err(DepotError::DuplicateName(row.name));
        }
        proof {
            assert forall|j: int| i <= j < rows.len() implies bytes_lt(nb@, key(rows[j].0)) by {
                if j > i {
                    lemma_lt_transitive(nb@, key(rows[i as int].0), key(rows[j].0));
                }
            }
            assert forall|j: int| 0 <= j < rows.len() implies rows[j].0 != row.name@ by {
                if j < i {
                    lemma_lt_irreflexive(nb@);
                } else {
                    lemma_lt_irreflexive(nb@);
                }
            }
        }
        if nb.len() > 0xFFFF_FFFF {
            return Err(DepotError::NameTooLong);
        }
        let ghost v = row@;
        self.entries.insert(i, row);
        self.entry_count = self.entry_count + 1;
        proof {
            let s = self.rows();
            assert(s =~= rows.insert(i as int, v));
            assert forall|a: int| 0 <= a < s.len() implies #[trigger] key(s[a].0).len() <= u32::MAX by {
                if a > i {
                    assert(s[a] == rows[a - 1]);
                } else if a < i {
                    assert(s[a] == rows[a]);
                }
            }
            assert forall|a: int| 0 <= a < s.len() implies (#[trigger] s[a]).1.valid() by {
                if a > i {
                    assert(s[a] == rows[a - 1]);
                } else if a < i {
                    assert(s[a] == rows[a]);
                }
            }
            assert forall|a: int, b: int| 0 <= a < b < s.len() implies bytes_lt(
                #[trigger] key(s[a].0),
                #[trigger] key(s[b].0),
            ) by {
                if a < i && b == i {
                } else if a < i && b > i {
                    assert(s[b] == rows[b - 1]);
                    assert(s[a] == rows[a]);
                } else if a == i {
                    assert(s[b] == rows[b - 1]);
                } else if a > i {
                    assert(s[b] == rows[b - 1]);
                    assert(s[a] == rows[a - 1]);
                } else {
                    assert(s[b] == rows[b]);
                    assert(s[a] == rows[a]);
                }
            }
        }
        Ok(i)
    }
}


/// Some row carries `name`.
pub open spec fn has_name(rows: Seq<Row>, name: Seq<char>) -> bool {
    exists|i: int| 0 <= i < rows.len() && #[trigger] rows[i].0 == name
}

/// The record under `name`.
pub open spec fn lookup(rows: Seq<Row>, name: Seq<char>) -> EntryInfo {
    rows[name_index(rows, name)].1
}

/// An index of a row that carries `name`.
pub open spec fn name_index(rows: Seq<Row>, name: Seq<char>) -> int {
    choose|i: int| 0 <= i < rows.len() && #[trigger] rows[i].0 == name
}

/// The rows as a map from name to record.
pub open spec fn rows_map(rows: Seq<Row>) -> Map<Seq<char>, EntryInfo> {
    Map::new(|n: Seq<char>| has_name(rows, n), |n: Seq<char>| lookup(rows, n))
}

/// In sorted rows each name stands once.
pub proof fn lemma_names_unique(rows: Seq<Row>, i: int, j: int)
    requires
        rows_ok(rows),
        0 <= i < rows.len(),
        0 <= j < rows.len(),
        rows[i].0 == rows[j].0,
    ensures
        i == j,
{
    if i < j {
        assert(bytes_lt(key(rows[i].0), key(rows[j].0)));
        lemma_lt_irreflexive(key(rows[i].0));
    } else if j < i {
        assert(bytes_lt(key(rows[j].0), key(rows[i].0)));
        lemma_lt_irreflexive(key(rows[i].0));
    }
}

/// The record that `lookup` finds is the one at the name's index.
pub proof fn lemma_lookup_at(rows: Seq<Row>, k: int)
    requires
        rows_ok(rows),
        0 <= k < rows.len(),
    ensures
        has_name(rows, rows[k].0),
        lookup(rows, rows[k].0) == rows[k].1,
{
    let n = rows[k].0;
    assert(has_name(rows, n));
    let j = name_index(rows, n);
    lemma_names_unique(rows, k, j);
}

/// Inserting a row under a new name adds that name to the map.
pub proof fn lemma_insert_map(rows: Seq<Row>, k: int, row: Row)
    requires
        rows_ok(rows),
        rows_ok(rows.insert(k, row)),
        0 <= k <= rows.len(),
        !has_name(rows, row.0),
    ensures
        rows_map(rows.insert(k, row)) == rows_map(rows).insert(row.0, row.1),
{
    let s = rows.insert(k, row);
    assert forall|n: Seq<char>| has_name(s, n) <==> has_name(rows, n) || n == row.0 by {
        if has_name(s, n) {
            let i = choose|i: int| 0 <= i < s.len() && #[trigger] s[i].0 == n;
            if i < k {
                assert(rows[i] == s[i]);
            } else if i > k {
                assert(rows[i - 1] == s[i]);
            }
        }
        if has_name(rows, n) {
            let i = choose|i: int| 0 <= i < rows.len() && #[trigger] rows[i].0 == n;
            if i < k {
                assert(s[i] == rows[i]);
            } else {
                assert(s[i + 1] == rows[i]);
            }
        }
        if n == row.0 {
            assert(s[k] == row);
        }
    }
    assert forall|n: Seq<char>| #[trigger] has_name(s, n) implies lookup(s, n) == (if n == row.0 {
        row.1
    } else {
        lookup(rows, n)
    }) by {
        if n == row.0 {
            assert(s[k] == row);
            lemma_lookup_at(s, k);
        } else {
            let i = choose|i: int| 0 <= i < rows.len() && #[trigger] rows[i].0 == n;
            lemma_lookup_at(rows, i);
            if i < k {
                assert(s[i] == rows[i]);
                lemma_lookup_at(s, i);
            } else {
                assert(s[i + 1] == rows[i]);
                lemma_lookup_at(s, i + 1);
            }
        }
    }
    assert(rows_map(s) =~= rows_map(rows).insert(row.0, row.1));
}


impl DepotToc {
    /// A copy of the table.
    pub fn copy(&self) -> (r: DepotToc)
        ensures
            r.compression_level == self.compression_level,
            r.entry_count == self.entry_count,
            r.size == self.size,
            r.rows() == self.rows(),
    {
        let mut entries: Vec<StreamInfo> = Vec::new();
        let mut i: usize = 0;
        while i < self.entries.len()
            invariant
                i <= self.entries@.len(),
                entries@.len() == i,
                rows_of(entries@) == self.rows().take(i as int),
            decreases self.entries@.len() - i,
        {
            let ghost before = entries@;
            let c = self.entries[i].copy();
            entries.push(c);
            assert(entries@ == before.push(c));
            assert(rows_of(entries@).len() == i + 1);
            assert forall|j: int| 0 <= j < i + 1 implies rows_of(entries@)[j] == self.rows().take(i + 1)[j] by {
                if j < i {
                    assert(rows_of(entries@)[j] == rows_of(before)[j]);
                }
            }
            assert(rows_of(entries@) =~= self.rows().take(i + 1));
            i = i + 1;
        }
        assert(self.rows().take(i as int) =~= self.rows());
        DepotToc {
            compression_level: self.compression_level,
            entry_count: self.entry_count,
            size: self.size,
            entries,
        }
    }
}


/// Every row ends by `hi`, and every non-empty row's region starts at `lo`
/// or later: an empty row's offset is free below `hi`.
pub open spec fn regions_ok(rows: Seq<Row>, lo: int, hi: int) -> bool {
    forall|i: int|
        0 <= i < rows.len() ==> (!(#[trigger] rows[i]).1.is_empty_spec() ==> lo <= rows[i].1.offset)
            && rows[i].1.offset + rows[i].1.stream_size <= hi
}

impl DepotToc {
    /// Every row ends by `hi`, and every non-empty one starts at `lo` or later.
    pub fn regions_within(&self, lo: u64, hi: u64) -> (r: bool)
        ensures
            r == regions_ok(self.rows(), lo as int, hi as int),
    {
        let mut i: usize = 0;
        while i < self.entries.len()
            invariant
                i <= self.entries@.len(),
                regions_ok(self.rows().take(i as int), lo as int, hi as int),
            decreases self.entries@.len() - i,
        {
            let e = self.entries[i].einf;
            assert(self.rows()[i as int].1 == e);
            if (!e.is_empty() && e.offset < lo) || e.stream_size > hi || e.offset > hi - e.stream_size {
                return false;
            }
            assert forall|j: int| 0 <= j < i + 1 implies (!(#[trigger] self.rows().take(
                i + 1,
            )[j]).1.is_empty_spec() ==> lo <= self.rows().take(i + 1)[j].1.offset) && self.rows().take(i + 1)[j].1.offset + self.rows().take(i + 1)[j].1.stream_size
                <= hi by {
                if j < i {
                    assert(self.rows().take(i + 1)[j] == self.rows().take(i as int)[j]);
                }
            }
            i = i + 1;
        }
        assert(self.rows().take(i as int) =~= self.rows());
        true
    }
}


/// The header fields `h` are what the image holds at `off`.
pub open spec fn header_at(data: Seq<u8>, off: int, h: DepotHeader) -> bool {
    &&& 0 <= off
    &&& off + 18 <= data.len()
    &&& from_be64(data.subrange(off, off + 8)) == MAGIC
    &&& from_be16(data.subrange(off + 8, off + 10)) == h.version
    &&& from_be64(data.subrange(off + 10, off + 18)) == h.toc_offset
}

/// A header written at `off` is read back field by field.
pub proof fn lemma_header_read(img: Seq<u8>, off: int, version: u16, toc_offset: u64)
    requires
        0 <= off,
        off + 18 <= img.len(),
        img.subrange(off, off + 18) == header_bytes(version, toc_offset),
    ensures
        from_be64(img.subrange(off, off + 8)) == MAGIC,
        from_be16(img.subrange(off + 8, off + 10)) == version,
        from_be64(img.subrange(off + 10, off + 18)) == toc_offset,
{
    let hb = header_bytes(version, toc_offset);
    assert(img.subrange(off, off + 8) =~= hb.subrange(0, 8));
    assert(img.subrange(off + 8, off + 10) =~= hb.subrange(8, 10));
    assert(img.subrange(off + 10, off + 18) =~= hb.subrange(10, 18));
    assert(hb.subrange(0, 8) =~= be64(MAGIC));
    assert(hb.subrange(8, 10) =~= be16(version));
    assert(hb.subrange(10, 18) =~= be64(toc_offset));
    lemma_be64_round_trip(MAGIC);
    lemma_be16_round_trip(version);
    lemma_be64_round_trip(toc_offset);
}


/// What a row adds to the table's total size: its size, unless it is empty.
pub open spec fn row_size(r: Row) -> int {
    if r.1.is_empty_spec() {
        0
    } else {
        r.1.size as int
    }
}

/// The sum of the sizes of the non-empty rows.
pub open spec fn rows_size(rows: Seq<Row>) -> int
    decreases rows.len(),
{
    if rows.len() == 0 {
        0
    } else {
        row_size(rows[0]) + rows_size(rows.drop_first())
    }
}

/// A row inserted anywhere adds its own size to the sum.
pub proof fn lemma_rows_size_insert(rows: Seq<Row>, k: int, r: Row)
    requires
        0 <= k <= rows.len(),
    ensures
        rows_size(rows.insert(k, r)) == rows_size(rows) + row_size(r),
    decreases rows.len(),
{
    if k == 0 {
        assert(rows.insert(k, r).drop_first() =~= rows);
    } else {
        assert(rows.insert(k, r)[0] == rows[0]);
        assert(rows.insert(k, r).drop_first() =~= rows.drop_first().insert(k - 1, r));
        lemma_rows_size_insert(rows.drop_first(), k - 1, r);
    }
}

/// The sum over a prefix is at most the sum over the whole.
pub proof fn lemma_rows_size_prefix(rows: Seq<Row>, i: int)
    requires
        0 <= i <= rows.len(),
    ensures
        rows_size(rows.take(i)) <= rows_size(rows),
    decreases rows.len() - i,
{
    if i == rows.len() {
        assert(rows.take(i) =~= rows);
    } else {
        lemma_rows_size_insert(rows.take(i), i, rows[i]);
        assert(rows.take(i).insert(i, rows[i]) =~= rows.take(i + 1));
        lemma_rows_size_prefix(rows, i + 1);
    }
}

impl DepotToc {
    /// The recorded total equals the sum of the non-empty rows' sizes.
    pub open spec fn totals_ok(&self) -> bool {
        self.size == rows_size(self.rows())
    }

    /// Whether the recorded total equals the sum of the non-empty rows' sizes.
    pub fn sizes_add_up(&self) -> (r: bool)
        ensures
            r == self.totals_ok(),
    {
        let mut acc: u64 = 0;
        let mut i: usize = 0;
        assert(self.rows().take(0) =~= Seq::<Row>::empty());
        while i < self.entries.len()
            invariant
                i <= self.entries@.len(),
                acc == rows_size(self.rows().take(i as int)),
                acc <= self.size,
            decreases self.entries@.len() - i,
        {
            let e = self.entries[i].einf;
            assert(self.rows()[i as int].1 == e);
            proof {
                lemma_rows_size_insert(self.rows().take(i as int), i as int, self.rows()[i as int]);
                assert(self.rows().take(i as int).insert(i as int, self.rows()[i as int])
                    =~= self.rows().take(i + 1));
            }
            if !e.is_empty() {
                if e.size > self.size - acc {
                    proof {
                        lemma_rows_size_prefix(self.rows(), i + 1);
                    }
                    return false;
                }
                acc = acc + e.size;
            }
            i = i + 1;
        }
        assert(self.rows().take(i as int) =~= self.rows());
        acc == self.size
    }
}

} // verus!
