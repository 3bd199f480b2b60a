//! Properties that relate several operations of the depot.

use crate::depot_handle::{append_post, decoded, extracts_to, finalized, open_spec, DepotHandle};
use crate::handle::lemma_splice_keeps;
use crate::order::{bytes_lt, lemma_lt_asymmetric};
use crate::types::{
    has_name, header_bytes, key, lemma_header_read, lemma_lookup_at, lemma_names_unique, lemma_toc_round_trip,
    regions_ok, rows_map, rows_ok, DepotHeader, DepotToc, EntryInfo, Row, MAGIC, UNFINALIZED, VERSION,
};
use vstd::prelude::*;

verus! {

/// Finalizing writes a table that opening reads back unchanged: the header
/// at `off` points at it, and level, count, size and rows are the ones that
/// were in memory.
#[verifier::rlimit(100)]
pub proof fn lemma_finalize_then_open(data: Seq<u8>, off: int, version: u16, toc: DepotToc)
    requires
        toc.wf(),
        0 <= off,
        off + 18 <= data.len(),
        data.len() + toc.bytes().len() <= u64::MAX,
        version <= VERSION,
        regions_ok(toc.rows(), off + 18, data.len() as int),
        toc.totals_ok(),
    ensures
        open_spec(finalized(data, off, version, toc.bytes()), off) == Some(
            (
                DepotHeader { version, toc_offset: data.len() as u64 },
                (
                    toc.compression_level,
                    toc.entry_count,
                    toc.size,
                    toc.rows(),
                    (data.len() + toc.bytes().len()) as int,
                ),
            ),
        ),
{
    let tb = toc.bytes();
    let hb = header_bytes(version, data.len() as u64);
    let full = data + tb;
    let img = finalized(data, off, version, tb);
    assert(tb.len() >= 20);
    lemma_splice_keeps(full, off, hb, data.len() as int, full.len() as int);
    assert(full.subrange(data.len() as int, full.len() as int) =~= tb);
    lemma_toc_round_trip(img, data.len() as int, toc.compression_level, toc.entry_count, toc.size, toc.rows());
    lemma_header_read(img, off, version, data.len() as u64);
}

/// Round trip: a stream that extracts to `payload` before finalizing, and
/// whose region lies after the header, extracts to the same bytes from the
/// finalized depot, whose reopened table still lists it.
#[verifier::rlimit(100)]
pub proof fn lemma_round_trip(
    data: Seq<u8>,
    off: int,
    version: u16,
    toc: DepotToc,
    name: Seq<char>,
    payload: Seq<u8>,
)
    requires
        toc.wf(),
        0 <= off,
        off + 18 <= data.len(),
        data.len() + toc.bytes().len() <= u64::MAX,
        version <= VERSION,
        regions_ok(toc.rows(), off + 18, data.len() as int),
        toc.totals_ok(),
        has_name(toc.rows(), name),
        rows_map(toc.rows())[name].offset >= off + 18,
        extracts_to(data, rows_map(toc.rows())[name], payload),
    ensures
        match open_spec(finalized(data, off, version, toc.bytes()), off) {
            Some((_, (_, _, _, rows, _))) => rows == toc.rows(),
            None => false,
        },
        extracts_to(finalized(data, off, version, toc.bytes()), rows_map(toc.rows())[name], payload),
{
    lemma_finalize_then_open(data, off, version, toc);
    lemma_region_kept(data, off, version, toc.bytes(), rows_map(toc.rows())[name], payload);
}

/// Finalizing leaves the region of a stream that lies after the header as
/// it was.
proof fn lemma_region_kept(data: Seq<u8>, off: int, version: u16, tb: Seq<u8>, e: EntryInfo, payload: Seq<u8>)
    requires
        0 <= off,
        off + 18 <= data.len(),
        e.offset >= off + 18,
        extracts_to(data, e, payload),
    ensures
        extracts_to(finalized(data, off, version, tb), e, payload),
{
    let full = data + tb;
    let hb = header_bytes(version, data.len() as u64);
    let lo = e.offset as int;
    let hi = e.offset + e.stream_size;
    lemma_splice_keeps(full, off, hb, lo, hi);
    assert(full.subrange(lo, hi) =~= data.subrange(lo, hi));
    assert(decoded(finalized(data, off, version, tb), e) == decoded(data, e));
}

/// A depot whose header still carries the unfinalized mark does not open.
pub proof fn lemma_unfinalized_rejected(data: Seq<u8>, off: int, version: u16)
    requires
        0 <= off,
        off + 18 <= data.len(),
        data.len() <= u64::MAX,
        data.subrange(off, off + 18) == header_bytes(version, UNFINALIZED),
    ensures
        open_spec(data, off) is None,
{
    lemma_header_read(data, off, version, UNFINALIZED);
}

/// Dropping the first of sorted rows drops its name from the map.
proof fn lemma_drop_first_map(s: Seq<Row>)
    requires
        rows_ok(s),
        s.len() > 0,
    ensures
        rows_ok(s.drop_first()),
        rows_map(s.drop_first()) == rows_map(s).remove(s[0].0),
{
    let t = s.drop_first();
    assert forall|i: int| 0 <= i < t.len() implies #[trigger] key(t[i].0).len() <= u32::MAX by {
        assert(t[i] == s[i + 1]);
    }
    assert forall|i: int| 0 <= i < t.len() implies (#[trigger] t[i]).1.valid() by {
        assert(t[i] == s[i + 1]);
    }
    assert forall|a: int, b: int| 0 <= a < b < t.len() implies bytes_lt(
        #[trigger] key(t[a].0),
        #[trigger] key(t[b].0),
    ) by {
        assert(t[a] == s[a + 1]);
        assert(t[b] == s[b + 1]);
    }
    assert forall|n: Seq<char>| has_name(t, n) <==> has_name(s, n) && n != s[0].0 by {
        if has_name(t, n) {
            let i = choose|i: int| 0 <= i < t.len() && #[trigger] t[i].0 == n;
            assert(s[i + 1] == t[i]);
            if n == s[0].0 {
                lemma_names_unique(s, 0, i + 1);
            }
        }
        if has_name(s, n) && n != s[0].0 {
            let i = choose|i: int| 0 <= i < s.len() && #[trigger] s[i].0 == n;
            assert(t[i - 1] == s[i]);
        }
    }
    assert forall|n: Seq<char>| #[trigger] has_name(t, n) implies crate::types::lookup(t, n)
        == crate::types::lookup(s, n) by {
        let i = choose|i: int| 0 <= i < t.len() && #[trigger] t[i].0 == n;
        assert(s[i + 1] == t[i]);
        lemma_lookup_at(t, i);
        lemma_lookup_at(s, i + 1);
    }
    assert(rows_map(t) =~= rows_map(s).remove(s[0].0));
}

/// Sorted rows are fixed by the map from names to records that they hold.
pub proof fn lemma_rows_determined(left: Seq<Row>, right: Seq<Row>)
    requires
        rows_ok(left),
        rows_ok(right),
        rows_map(left) == rows_map(right),
    ensures
        left == right,
    decreases left.len(),
{
    if left.len() == 0 {
        if right.len() > 0 {
            assert(has_name(right, right[0].0));
            assert(rows_map(right).dom().contains(right[0].0));
        }
        assert(left =~= right);
    } else {
        assert(has_name(left, left[0].0));
        assert(rows_map(left).dom().contains(left[0].0));
        assert(has_name(right, left[0].0));
        let a = left[0];
        let b = right[0];
        assert(has_name(right, b.0));
        assert(rows_map(right).dom().contains(b.0));
        if a.0 != b.0 {
            let i = choose|i: int| 0 <= i < left.len() && #[trigger] left[i].0 == b.0;
            let j = choose|j: int| 0 <= j < right.len() && #[trigger] right[j].0 == a.0;
            assert(bytes_lt(key(left[0].0), key(left[i].0)));
            assert(bytes_lt(key(right[0].0), key(right[j].0)));
            lemma_lt_asymmetric(key(a.0), key(b.0));
        }
        lemma_lookup_at(left, 0);
        lemma_lookup_at(right, 0);
        assert(rows_map(left)[a.0] == a.1);
        assert(a == b);
        lemma_drop_first_map(left);
        lemma_drop_first_map(right);
        lemma_rows_determined(left.drop_first(), right.drop_first());
        assert(left =~= seq![a] + left.drop_first());
        assert(right =~= seq![b] + right.drop_first());
    }
}

/// Two tables with the same settings, totals and name-to-record map
/// serialize to the same bytes, whatever order their rows were added in.
pub proof fn lemma_toc_deterministic(t1: DepotToc, t2: DepotToc)
    requires
        t1.wf(),
        t2.wf(),
        t1.compression_level == t2.compression_level,
        t1.size == t2.size,
        rows_map(t1.rows()) == rows_map(t2.rows()),
    ensures
        t1.bytes() == t2.bytes(),
{
    lemma_rows_determined(t1.rows(), t2.rows());
}


/// A stream just appended reads back whole: after finalizing, the depot
/// opens with the same rows, and the new entry extracts to the appended bytes.
pub proof fn lemma_append_round_trip(pre: DepotHandle, post: DepotHandle, name: Seq<char>, data: Seq<u8>)
    requires
        pre.wf(),
        append_post(pre, post, name, data, Ok(())),
        data.len() > 0,
        post.image().len() + post.metadata.toc.bytes().len() <= u64::MAX,
    ensures
        match open_spec(
            finalized(post.image(), post.header_offset as int, post.metadata.header.version, post.metadata.toc.bytes()),
            post.header_offset as int,
        ) {
            Some((_, (_, _, _, rows, _))) => rows == post.rows(),
            None => false,
        },
        extracts_to(
            finalized(post.image(), post.header_offset as int, post.metadata.header.version, post.metadata.toc.bytes()),
            rows_map(post.rows())[name],
            data,
        ),
{
    let e = rows_map(post.rows())[name];
    assert(rows_map(post.rows()).dom().contains(name));
    assert(has_name(post.rows(), name));
    lemma_round_trip(
        post.image(),
        post.header_offset as int,
        post.metadata.header.version,
        post.metadata.toc,
        name,
        data,
    );
}

/// An append keeps every other stream: same record, and it still extracts
/// to the same bytes.
pub proof fn lemma_append_keeps(
    pre: DepotHandle,
    post: DepotHandle,
    name: Seq<char>,
    data: Seq<u8>,
    other: Seq<char>,
    payload: Seq<u8>,
)
    requires
        pre.wf(),
        append_post(pre, post, name, data, Ok(())),
        has_name(pre.rows(), other),
        extracts_to(pre.image(), rows_map(pre.rows())[other], payload),
    ensures
        has_name(post.rows(), other),
        rows_map(post.rows())[other] == rows_map(pre.rows())[other],
        extracts_to(post.image(), rows_map(post.rows())[other], payload),
{
    let e = rows_map(pre.rows())[other];
    assert(rows_map(pre.rows()).dom().contains(other));
    let i = crate::types::name_index(pre.rows(), other);
    assert(pre.rows()[i].1 == e);
    assert(other != name);
    assert(rows_map(post.rows()).dom().contains(other));
    if data.len() > 0 {
        let ne = rows_map(post.rows())[name];
        let c = post.image().subrange(ne.offset as int, ne.offset + ne.stream_size);
        lemma_splice_keeps(pre.image(), pre.handle.pos as int, c, e.offset as int, e.offset + e.stream_size);
        assert(decoded(post.image(), e) == decoded(pre.image(), e));
    }
}


/// A depot that was never finalized does not open: its header in the image
/// still carries the unfinalized mark.
pub proof fn lemma_draft_rejected(h: DepotHandle)
    requires
        h.wf(),
        h.metadata.header.toc_offset == UNFINALIZED,
        h.image().len() <= u64::MAX,
    ensures
        open_spec(h.image(), h.header_offset as int) is None,
{
}


/// Every entry of `h` holds the payload that `p` gives for its name: a
/// non-empty one extracts to it, an empty one stands for no bytes.
pub open spec fn holds_payloads(h: DepotHandle, p: Map<Seq<char>, Seq<u8>>) -> bool {
    &&& p.dom() == rows_map(h.rows()).dom()
    &&& forall|n: Seq<char>|
        #[trigger] p.dom().contains(n) ==> if rows_map(h.rows())[n].is_empty_spec() {
            p[n].len() == 0
        } else {
            extracts_to(h.image(), rows_map(h.rows())[n], p[n])
        }
}

/// A depot without entries holds the empty map of payloads.
pub proof fn lemma_holds_empty(h: DepotHandle)
    requires
        h.rows().len() == 0,
    ensures
        holds_payloads(h, Map::empty()),
{
    assert(rows_map(h.rows()).dom() =~= Set::<Seq<char>>::empty());
}

/// An append adds its payload under its name and keeps the others.
pub proof fn lemma_append_holds(
    pre: DepotHandle,
    post: DepotHandle,
    name: Seq<char>,
    data: Seq<u8>,
    p: Map<Seq<char>, Seq<u8>>,
)
    requires
        pre.wf(),
        holds_payloads(pre, p),
        append_post(pre, post, name, data, Ok(())),
    ensures
        holds_payloads(post, p.insert(name, data)),
{
    let q = p.insert(name, data);
    assert(q.dom() =~= rows_map(post.rows()).dom());
    assert forall|n: Seq<char>| #[trigger] q.dom().contains(n) implies if rows_map(post.rows())[n].is_empty_spec() {
        q[n].len() == 0
    } else {
        extracts_to(post.image(), rows_map(post.rows())[n], q[n])
    } by {
        if n != name {
            assert(p.dom().contains(n));
            assert(has_name(pre.rows(), n));
            if !rows_map(pre.rows())[n].is_empty_spec() {
                lemma_append_keeps(pre, post, name, data, n, p[n]);
            }
        }
    }
}

/// Finalizing a depot that holds `p` gives one that opens with the same
/// rows, and from which every non-empty entry extracts to its payload.
pub proof fn lemma_finalize_holds(h: DepotHandle, p: Map<Seq<char>, Seq<u8>>)
    requires
        h.wf(),
        holds_payloads(h, p),
        h.image().len() + h.metadata.toc.bytes().len() <= u64::MAX,
    ensures
        match open_spec(
            finalized(h.image(), h.header_offset as int, h.metadata.header.version, h.metadata.toc.bytes()),
            h.header_offset as int,
        ) {
            Some((_, (_, _, _, rows, _))) => rows == h.rows(),
            None => false,
        },
        forall|n: Seq<char>|
            #[trigger] p.dom().contains(n) && !rows_map(h.rows())[n].is_empty_spec() ==> extracts_to(
                finalized(h.image(), h.header_offset as int, h.metadata.header.version, h.metadata.toc.bytes()),
                rows_map(h.rows())[n],
                p[n],
            ),
{
    let off = h.header_offset as int;
    lemma_finalize_then_open(h.image(), off, h.metadata.header.version, h.metadata.toc);
    assert forall|n: Seq<char>|
        #[trigger] p.dom().contains(n) && !rows_map(h.rows())[n].is_empty_spec() implies extracts_to(
            finalized(h.image(), off, h.metadata.header.version, h.metadata.toc.bytes()),
            rows_map(h.rows())[n],
            p[n],
        ) by {
        assert(has_name(h.rows(), n));
        let i = crate::types::name_index(h.rows(), n);
        assert(h.rows()[i].1 == rows_map(h.rows())[n]);
        lemma_region_kept(h.image(), off, h.metadata.header.version, h.metadata.toc.bytes(), rows_map(h.rows())[n], p[n]);
    }
}

} // verus!
