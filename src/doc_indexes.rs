//! The posting-list store: a trailer-anchored byte layout mapping a dense
//! term id to a run of fixed-size posting entries, and its builder.
use std::sync::Arc;

use vstd::prelude::*;

use crate::data::Data;
use crate::codec::{
    concat_fixed, le_bytes_u16, le_bytes_u32, le_bytes_u64, le_u16, le_u32, le_u64,
    lemma_concat_fixed, lemma_le_u16_round_trip, lemma_le_u32_round_trip, lemma_le_u64_round_trip,
    push_u16_le, push_u32_le, push_u64_le, read_u16_le, read_u32_le, read_u64_le,
};

verus! {

/// Bytes taken by one encoded posting entry.
pub const ENTRY_SIZE: usize = 14;

/// Bytes taken by one encoded range.
pub const RANGE_SIZE: usize = 16;

/// Bytes taken by the trailer holding the length of the ranges segment.
pub const TRAILER_SIZE: usize = 8;

/// One occurrence of a term: in which document, in which attribute, at which position.
#[derive(Clone, Copy, Debug, PartialEq, Eq, Structural)]
pub struct DocIndex {
    pub document_id: u64,
    pub attribute: u16,
    pub attribute_index: u32,
}

/// A half-open window `[start, end)` into the entry array.
#[derive(Clone, Copy, Debug, PartialEq, Eq, Structural)]
pub struct Range {
    pub start: u64,
    pub end: u64,
}

/// Encoding of an entry: document id, attribute, position, each little-endian.
pub open spec fn entry_bytes(e: DocIndex) -> Seq<u8> {
    le_bytes_u64(e.document_id) + le_bytes_u16(e.attribute) + le_bytes_u32(e.attribute_index)
}

/// The entry held by the first `ENTRY_SIZE` bytes of `b`.
pub open spec fn entry_of(b: Seq<u8>) -> DocIndex {
    DocIndex {
        document_id: le_u64(b.subrange(0, 8)),
        attribute: le_u16(b.subrange(8, 10)),
        attribute_index: le_u32(b.subrange(10, 14)),
    }
}

/// Encoding of a range: start then end, each little-endian.
pub open spec fn range_bytes(r: Range) -> Seq<u8> {
    le_bytes_u64(r.start) + le_bytes_u64(r.end)
}

pub open spec fn entry_encoder() -> spec_fn(DocIndex) -> Seq<u8> {
    |e: DocIndex| entry_bytes(e)
}

pub open spec fn range_encoder() -> spec_fn(Range) -> Seq<u8> {
    |r: Range| range_bytes(r)
}

/// The entries segment for `s`.
pub open spec fn entries_segment(s: Seq<DocIndex>) -> Seq<u8> {
    concat_fixed(s, entry_encoder())
}

/// The ranges segment for `s`.
pub open spec fn ranges_segment(s: Seq<Range>) -> Seq<u8> {
    concat_fixed(s, range_encoder())
}

/// The `i`-th range of a ranges segment.
pub open spec fn range_at(rb: Seq<u8>, i: int) -> Range {
    Range {
        start: le_u64(rb.subrange(16 * i, 16 * i + 8)),
        end: le_u64(rb.subrange(16 * i + 8, 16 * i + 16)),
    }
}

/// The `j`-th entry of an entries segment.
pub open spec fn entry_at(eb: Seq<u8>, j: int) -> DocIndex {
    entry_of(eb.subrange(14 * j, 14 * j + 14))
}

/// Both segments are whole numbers of records, and every range lies within the entries.
pub open spec fn segments_ok(rb: Seq<u8>, eb: Seq<u8>) -> bool {
    &&& rb.len() % 16 == 0
    &&& eb.len() % 14 == 0
    &&& forall|i: int|
        0 <= i < rb.len() / 16 ==> #[trigger] range_at(rb, i).start <= range_at(rb, i).end
            <= eb.len() / 14
}

/// The posting list of term `i`.
pub open spec fn list_at(rb: Seq<u8>, eb: Seq<u8>, i: int) -> Seq<DocIndex> {
    let r = range_at(rb, i);
    Seq::new((r.end - r.start) as nat, |k: int| entry_at(eb, r.start + k))
}

/// All posting lists held by a pair of segments, by term id.
pub open spec fn lists_of(rb: Seq<u8>, eb: Seq<u8>) -> Seq<Seq<DocIndex>> {
    Seq::new(rb.len() / 16, |i: int| list_at(rb, eb, i))
}

/// Byte length of the ranges segment, as the trailer of `b` gives it.
pub open spec fn trailer_of(b: Seq<u8>) -> u64 {
    le_u64(b.subrange(b.len() - 8, b.len() as int))
}

/// Where the ranges segment of `b` starts.
pub open spec fn ranges_offset(b: Seq<u8>) -> int {
    b.len() - 8 - trailer_of(b)
}

/// The ranges segment of `b`, located from its trailer.
pub open spec fn ranges_part(b: Seq<u8>) -> Seq<u8> {
    b.subrange(ranges_offset(b), b.len() - 8)
}

/// The entries segment of `b`, located from its trailer.
pub open spec fn entries_part(b: Seq<u8>) -> Seq<u8> {
    b.subrange(0, ranges_offset(b))
}

/// `b` holds a trailer, the segments it locates fit in `b`, and they are consistent.
pub open spec fn valid_buffer(b: Seq<u8>) -> bool {
    &&& b.len() >= 8
    &&& trailer_of(b) <= b.len() - 8
    &&& segments_ok(ranges_part(b), entries_part(b))
}

/// The posting lists that a valid buffer holds.
pub open spec fn buffer_lists(b: Seq<u8>) -> Seq<Seq<DocIndex>> {
    lists_of(ranges_part(b), entries_part(b))
}

/// The buffer laid out from the given entries and ranges.
pub open spec fn layout(entries: Seq<DocIndex>, ranges: Seq<Range>) -> Seq<u8> {
    entries_segment(entries) + ranges_segment(ranges) + le_bytes_u64((16 * ranges.len()) as u64)
}

pub proof fn lemma_entry_round_trip(e: DocIndex)
    ensures
        entry_bytes(e).len() == 14,
        entry_of(entry_bytes(e)) == e,
{
    let b = entry_bytes(e);
    lemma_le_u64_round_trip(e.document_id);
    lemma_le_u16_round_trip(e.attribute);
    lemma_le_u32_round_trip(e.attribute_index);
    assert(b.subrange(0, 8) =~= le_bytes_u64(e.document_id));
    assert(b.subrange(8, 10) =~= le_bytes_u16(e.attribute));
    assert(b.subrange(10, 14) =~= le_bytes_u32(e.attribute_index));
}

pub proof fn lemma_entries_segment(s: Seq<DocIndex>)
    ensures
        entries_segment(s).len() == 14 * s.len(),
        forall|j: int| 0 <= j < s.len() ==> #[trigger] entry_at(entries_segment(s), j) == s[j],
{
    assert forall|e: DocIndex| #[trigger] entry_encoder()(e).len() == 14 by {
        lemma_entry_round_trip(e);
    }
    lemma_concat_fixed(s, entry_encoder(), 14);
    assert forall|j: int| 0 <= j < s.len() implies #[trigger] entry_at(entries_segment(s), j)
        == s[j] by {
        lemma_entry_round_trip(s[j]);
        assert(entries_segment(s).subrange(14 * j, 14 * j + 14) == entry_encoder()(s[j]));
    }
}

pub proof fn lemma_ranges_segment(s: Seq<Range>)
    ensures
        ranges_segment(s).len() == 16 * s.len(),
        forall|i: int| 0 <= i < s.len() ==> #[trigger] range_at(ranges_segment(s), i) == s[i],
{
    assert forall|r: Range| #[trigger] range_encoder()(r).len() == 16 by {}
    lemma_concat_fixed(s, range_encoder(), 16);
    assert forall|i: int| 0 <= i < s.len() implies #[trigger] range_at(ranges_segment(s), i)
        == s[i] by {
        let rb = ranges_segment(s);
        let w = rb.subrange(16 * i, 16 * i + 16);
        assert(w == range_encoder()(s[i]));
        assert(rb.subrange(16 * i, 16 * i + 8) =~= w.subrange(0, 8));
        assert(rb.subrange(16 * i + 8, 16 * i + 16) =~= w.subrange(8, 16));
        assert(w.subrange(0, 8) =~= le_bytes_u64(s[i].start));
        assert(w.subrange(8, 16) =~= le_bytes_u64(s[i].end));
        lemma_le_u64_round_trip(s[i].start);
        lemma_le_u64_round_trip(s[i].end);
    }
}

/// Why a buffer cannot be read as a posting-list store.
#[derive(Clone, Copy, Debug, PartialEq, Eq, Structural)]
pub enum DocIndexesError {
    /// The buffer is shorter than its trailer.
    MissingTrailer,
    /// The trailer gives a ranges segment longer than the bytes before it.
    RangesTooLong,
    /// A segment is not a whole number of records.
    MisalignedSegment,
    /// A range is reversed or reaches past the last entry.
    RangeOutOfBounds,
}

/// What loading `b` fails with, if it fails.
pub open spec fn load_error(b: Seq<u8>) -> Option<DocIndexesError> {
    if b.len() < 8 {
        Some(DocIndexesError::MissingTrailer)
    } else if trailer_of(b) > b.len() - 8 {
        Some(DocIndexesError::RangesTooLong)
    } else if ranges_part(b).len() % 16 != 0 || entries_part(b).len() % 14 != 0 {
        Some(DocIndexesError::MisalignedSegment)
    } else if !segments_ok(ranges_part(b), entries_part(b)) {
        Some(DocIndexesError::RangeOutOfBounds)
    } else {
        None
    }
}

/// Whether every range of `ranges` is ordered and lies within `indexes`.
fn ranges_in_bounds(ranges: &Data, indexes: &Data) -> (r: bool)
    requires
        ranges.wf(),
        indexes.wf(),
        ranges@.len() % 16 == 0,
        indexes@.len() % 14 == 0,
    ensures
        r == segments_ok(ranges@, indexes@),
{
    proof {
        ranges.lemma_len_bound();
    }
    let n_ranges = ranges.len() / RANGE_SIZE;
    let n_entries = (indexes.len() / ENTRY_SIZE) as u64;
    let mut i: usize = 0;
    while i < n_ranges
        invariant
            i <= n_ranges,
            n_ranges == ranges@.len() / 16,
            ranges@.len() % 16 == 0,
            ranges.wf(),
            ranges@.len() <= usize::MAX,
            n_entries == indexes@.len() / 14,
            forall|j: int|
                0 <= j < i ==> #[trigger] range_at(ranges@, j).start <= range_at(ranges@, j).end
                    <= n_entries,
        decreases n_ranges - i,
    {
        assert(16 * i + 16 <= ranges@.len()) by (nonlinear_arith)
            requires
                i < n_ranges,
                n_ranges == ranges@.len() / 16,
                ranges@.len() % 16 == 0,
        ;
        let start = ranges.read_u64(RANGE_SIZE * i);
        let end = ranges.read_u64(RANGE_SIZE * i + 8);
        if start > end || end > n_entries {
            assert(range_at(ranges@, i as int) == Range { start, end });
            assert(!segments_ok(ranges@, indexes@)) by {
                if segments_ok(ranges@, indexes@) {
                    assert(0 <= i < ranges@.len() / 16);
                    assert(range_at(ranges@, i as int).start <= range_at(ranges@, i as int).end
                        <= indexes@.len() / 14);
                }
            }
            return false;
        }
        i = i + 1;
    }
    true
}

/// Posting lists by term id, read in place from a shared buffer.
#[derive(Clone)]
pub struct DocIndexes {
    ranges: Data,
    indexes: Data,
}

impl DocIndexes {
    /// The ranges segment.
    pub closed spec fn ranges_bytes(&self) -> Seq<u8> {
        self.ranges@
    }

    /// The entries segment.
    pub closed spec fn entries_bytes(&self) -> Seq<u8> {
        self.indexes@
    }

    /// The posting lists, by term id.
    pub open spec fn lists(&self) -> Seq<Seq<DocIndex>> {
        lists_of(self.ranges_bytes(), self.entries_bytes())
    }

    pub closed spec fn wf(&self) -> bool {
        &&& self.ranges.wf()
        &&& self.indexes.wf()
        &&& segments_ok(self.ranges@, self.indexes@)
    }

    /// Reads a store that owns the whole of `vec`.
    pub fn from_bytes(vec: Vec<u8>) -> (r: Result<DocIndexes, DocIndexesError>)
        ensures
            match r {
                Ok(d) => {
                    &&& valid_buffer(vec@)
                    &&& d.wf()
                    &&& d.lists() == buffer_lists(vec@)
                    &&& d.ranges_bytes() == ranges_part(vec@)
                    &&& d.entries_bytes() == entries_part(vec@)
                },
                Err(e) => load_error(vec@) == Some(e),
            },
            load_error(vec@) is None <==> valid_buffer(vec@),
            r is Ok <==> valid_buffer(vec@),
    {
        let len = vec.len();
        let ghost b = vec@;
        let r = DocIndexes::from_shared_bytes(Arc::new(vec), 0, len);
        assert(b.subrange(0, len as int) =~= b);
        r
    }

    /// Reads a store from the window `bytes[offset..offset + len]`, sharing the buffer.
    pub fn from_shared_bytes(bytes: Arc<Vec<u8>>, offset: usize, len: usize) -> (r: Result<
        DocIndexes,
        DocIndexesError,
    >)
        requires
            offset + len <= (*bytes)@.len(),
        ensures
            ({
                let b = (*bytes)@.subrange(offset as int, offset + len);
                &&& match r {
                    Ok(d) => {
                        &&& valid_buffer(b)
                        &&& d.wf()
                        &&& d.lists() == buffer_lists(b)
                        &&& d.ranges_bytes() == ranges_part(b)
                        &&& d.entries_bytes() == entries_part(b)
                    },
                    Err(e) => load_error(b) == Some(e),
                }
                &&& (load_error(b) is None <==> valid_buffer(b))
                &&& (r is Ok <==> valid_buffer(b))
            }),
    {
        let data = Data::shared(bytes, offset, len);
        DocIndexes::from_data(data)
    }

    fn from_data(data: Data) -> (r: Result<DocIndexes, DocIndexesError>)
        requires
            data.wf(),
        ensures
            match r {
                Ok(d) => {
                    &&& valid_buffer(data@)
                    &&& d.wf()
                    &&& d.lists() == buffer_lists(data@)
                    &&& d.ranges_bytes() == ranges_part(data@)
                    &&& d.entries_bytes() == entries_part(data@)
                },
                Err(e) => load_error(data@) == Some(e),
            },
            load_error(data@) is None <==> valid_buffer(data@),
            r is Ok <==> valid_buffer(data@),
    {
        let len = data.len();
        if len < TRAILER_SIZE {
            return Err(DocIndexesError::MissingTrailer);
        }
        let ranges_len_offset = len - TRAILER_SIZE;
        let ranges_len = data.read_u64(ranges_len_offset);
        assert(data@.subrange(ranges_len_offset as int, ranges_len_offset + 8) =~= data@.subrange(
            data@.len() - 8,
            data@.len() as int,
        ));
        if ranges_len > ranges_len_offset as u64 {
            return Err(DocIndexesError::RangesTooLong);
        }
        let ranges_len = ranges_len as usize;
        let ranges_offset = ranges_len_offset - ranges_len;
        if ranges_len % RANGE_SIZE != 0 || ranges_offset % ENTRY_SIZE != 0 {
            return Err(DocIndexesError::MisalignedSegment);
        }
        let ranges = data.range(ranges_offset, ranges_len);
        let indexes = data.range(0, ranges_offset);
        proof {
            assert(ranges@ =~= ranges_part(data@));
            assert(indexes@ =~= entries_part(data@));
        }
        if !ranges_in_bounds(&ranges, &indexes) {
            return Err(DocIndexesError::RangeOutOfBounds);
        }
        Ok(DocIndexes { ranges, indexes })
    }

    /// The ranges segment and the entries segment, as owned bytes, for embedding
    /// the store in a larger container.
    pub fn to_parts(&self) -> (r: (Vec<u8>, Vec<u8>))
        requires
            self.wf(),
        ensures
            r.0@ == self.ranges_bytes(),
            r.1@ == self.entries_bytes(),
    {
        (self.ranges.to_vec(), self.indexes.to_vec())
    }

    /// Reads a store back from its ranges segment and entries segment.
    pub fn from_parts(ranges: Vec<u8>, entries: Vec<u8>) -> (r: Result<DocIndexes, DocIndexesError>)
        ensures
            match r {
                Ok(d) => {
                    &&& segments_ok(ranges@, entries@)
                    &&& d.wf()
                    &&& d.ranges_bytes() == ranges@
                    &&& d.entries_bytes() == entries@
                },
                Err(e) => if ranges@.len() % 16 != 0 || entries@.len() % 14 != 0 {
                    e == DocIndexesError::MisalignedSegment
                } else {
                    e == DocIndexesError::RangeOutOfBounds && !segments_ok(ranges@, entries@)
                },
            },
            r is Ok <==> segments_ok(ranges@, entries@),
    {
        let rl = ranges.len();
        let el = entries.len();
        let ghost rv = ranges@;
        let ghost ev = entries@;
        let ranges = Data::shared(Arc::new(ranges), 0, rl);
        let indexes = Data::shared(Arc::new(entries), 0, el);
        assert(ranges@ =~= rv);
        assert(indexes@ =~= ev);
        if rl % RANGE_SIZE != 0 || el % ENTRY_SIZE != 0 {
            return Err(DocIndexesError::MisalignedSegment);
        }
        if !ranges_in_bounds(&ranges, &indexes) {
            return Err(DocIndexesError::RangeOutOfBounds);
        }
        Ok(DocIndexes { ranges, indexes })
    }

    /// The posting list of term `index`, or `None` past the last term.
    pub fn get(&self, index: u64) -> (r: Option<Vec<DocIndex>>)
        requires
            self.wf(),
        ensures
            match r {
                Some(v) => index < self.lists().len() && v@ == self.lists()[index as int],
                None => index >= self.lists().len(),
            },
    {
        let n_ranges = self.ranges.len() / RANGE_SIZE;
        if index >= n_ranges as u64 {
            return None;
        }
        let i = index as usize;
        assert(16 * i + 16 <= self.ranges@.len()) by (nonlinear_arith)
            requires
                i < n_ranges,
                n_ranges == self.ranges@.len() / 16,
                self.ranges@.len() % 16 == 0,
        ;
        let start = self.ranges.read_u64(RANGE_SIZE * i);
        let end = self.ranges.read_u64(RANGE_SIZE * i + 8);
        assert(range_at(self.ranges@, i as int).start <= range_at(self.ranges@, i as int).end
            <= self.indexes@.len() / 14);
        let ghost list = self.lists()[i as int];
        proof {
            self.indexes.lemma_len_bound();
        }
        let mut out: Vec<DocIndex> = Vec::new();
        let mut k: u64 = start;
        while k < end
            invariant
                start <= k <= end,
                end <= self.indexes@.len() / 14,
                self.indexes.wf(),
                self.indexes@.len() <= usize::MAX,
                list == list_at(self.ranges@, self.indexes@, i as int),
                start == range_at(self.ranges@, i as int).start,
                end == range_at(self.ranges@, i as int).end,
                out@ == list.subrange(0, (k - start) as int),
            decreases end - k,
        {
            let j = k as usize;
            assert(14 * j + 14 <= self.indexes@.len()) by (nonlinear_arith)
                requires
                    j < self.indexes@.len() / 14,
            ;
            assert(14 * j + 14 <= usize::MAX);
            let off = ENTRY_SIZE * j;
            let document_id = self.indexes.read_u64(off);
            let attribute = self.indexes.read_u16(off + 8);
            let attribute_index = self.indexes.read_u32(off + 10);
            let e = DocIndex { document_id, attribute, attribute_index };
            proof {
                let w = self.indexes@.subrange(14 * j, 14 * j + 14);
                assert(w.subrange(0, 8) =~= self.indexes@.subrange(off as int, off + 8));
                assert(w.subrange(8, 10) =~= self.indexes@.subrange(off + 8, off + 10));
                assert(w.subrange(10, 14) =~= self.indexes@.subrange(off + 10, off + 14));
                assert(e == entry_at(self.indexes@, j as int));
            }
            out.push(e);
            k = k + 1;
            assert(out@ =~= list.subrange(0, (k - start) as int));
        }
        assert(out@ =~= list);
        Some(out)
    }
}

/// The posting lists laid end to end.
pub open spec fn concat_lists(lists: Seq<Seq<DocIndex>>) -> Seq<DocIndex>
    decreases lists.len(),
{
    if lists.len() == 0 {
        Seq::empty()
    } else {
        concat_lists(lists.drop_last()) + lists.last()
    }
}

/// Writes posting lists in term-id order: the `i`-th call of `insert` gives term `i`.
pub struct DocIndexesBuilder {
    ranges: Vec<Range>,
    wtr: Vec<u8>,
    prefix: Ghost<Seq<u8>>,
    entries: Ghost<Seq<DocIndex>>,
    lists: Ghost<Seq<Seq<DocIndex>>>,
}

impl DocIndexesBuilder {
    /// The posting lists inserted so far, in order.
    pub closed spec fn lists(&self) -> Seq<Seq<DocIndex>> {
        self.lists@
    }

    /// The bytes that the writer held before the first insertion.
    pub closed spec fn prefix(&self) -> Seq<u8> {
        self.prefix@
    }

    /// All entries inserted so far, end to end.
    pub closed spec fn entries(&self) -> Seq<DocIndex> {
        self.entries@
    }

    /// The ranges recorded so far, one per insertion.
    pub closed spec fn ranges(&self) -> Seq<Range> {
        self.ranges@
    }

    /// The bytes that finishing now would produce.
    pub open spec fn output(&self) -> Seq<u8> {
        self.prefix() + layout(self.entries(), self.ranges())
    }

    /// The length of `output()`.
    pub closed spec fn output_len(&self) -> nat {
        self.wtr@.len() + 16 * self.ranges@.len() + 8
    }

    pub closed spec fn wf(&self) -> bool {
        let n = self.ranges@.len();
        let m = self.entries@.len();
        &&& self.wtr@ == self.prefix@ + entries_segment(self.entries@)
        &&& self.entries@ == concat_lists(self.lists@)
        &&& self.wtr@.len() + 16 * n + 8 <= usize::MAX
        &&& self.lists@.len() == n
        &&& forall|i: int|
            0 <= i < n ==> #[trigger] self.ranges@[i].start <= self.ranges@[i].end <= m
        &&& forall|i: int|
            0 < i < n ==> #[trigger] self.ranges@[i].start == self.ranges@[i - 1].end
        &&& n > 0 ==> self.ranges@[0].start == 0 && self.ranges@[n - 1].end == m
        &&& n == 0 ==> m == 0
        &&& forall|i: int|
            0 <= i < n ==> #[trigger] self.lists@[i] == self.entries@.subrange(
                self.ranges@[i].start as int,
                self.ranges@[i].end as int,
            )
    }

    /// A builder that writes into a fresh vector.
    pub fn memory() -> (r: Self)
        ensures
            r.wf(),
            r.lists() == Seq::<Seq<DocIndex>>::empty(),
            r.prefix() == Seq::<u8>::empty(),
            r.entries() == Seq::<DocIndex>::empty(),
            r.ranges() == Seq::<Range>::empty(),
            r.output_len() == 8,
    {
        DocIndexesBuilder::new(Vec::new())
    }

    /// A builder that appends to `wtr`.
    pub fn new(wtr: Vec<u8>) -> (r: Self)
        requires
            wtr@.len() + 8 <= usize::MAX,
        ensures
            r.wf(),
            r.lists() == Seq::<Seq<DocIndex>>::empty(),
            r.prefix() == wtr@,
            r.entries() == Seq::<DocIndex>::empty(),
            r.ranges() == Seq::<Range>::empty(),
            r.output_len() == wtr@.len() + 8,
    {
        proof {
            lemma_entries_segment(Seq::empty());
        }
        let ghost prefix = wtr@;
        let r = DocIndexesBuilder {
            ranges: Vec::new(),
            wtr,
            prefix: Ghost(prefix),
            entries: Ghost(Seq::empty()),
            lists: Ghost(Seq::empty()),
        };
        assert(r.wtr@ =~= r.prefix@ + entries_segment(r.entries@));
        r
    }

    /// Appends the posting list of the next term id.
    pub fn insert(&mut self, indexes: &[DocIndex])
        requires
            old(self).wf(),
            old(self).output_len() + 14 * indexes@.len() + 16 <= usize::MAX,
        ensures
            final(self).wf(),
            final(self).lists() == old(self).lists().push(indexes@),
            final(self).prefix() == old(self).prefix(),
            final(self).output_len() == old(self).output_len() + 14 * indexes@.len() + 16,
            final(self).entries() == old(self).entries() + indexes@,
            final(self).ranges() == old(self).ranges().push(
                Range {
                    start: old(self).entries().len() as u64,
                    end: (old(self).entries().len() + indexes@.len()) as u64,
                },
            ),
    {
        let ghost old_entries = self.entries@;
        let ghost old_ranges = self.ranges@;
        let ghost old_lists = self.lists@;
        proof {
            lemma_entries_segment(old_entries);
            assert(old_entries.len() <= 14 * old_entries.len());
        }
        let len = indexes.len();
        let start: u64 = if self.ranges.len() == 0 {
            0
        } else {
            self.ranges[self.ranges.len() - 1].end
        };
        let end: u64 = start + len as u64;
        self.ranges.push(Range { start, end });
        let mut i: usize = 0;
        while i < len
            invariant
                i <= len,
                len == indexes@.len(),
                self.wtr@ == self.prefix@ + entries_segment(old_entries + indexes@.subrange(0, i as int)),
                self.ranges@ == old_ranges.push(Range { start, end }),
                self.lists@ == old_lists,
                self.entries@ == old_entries,
                self.prefix@ == old(self).prefix@,
                start == old_entries.len(),
                end == old_entries.len() + len,
            decreases len - i,
        {
            let e = indexes[i];
            let ghost before = old_entries + indexes@.subrange(0, i as int);
            let ghost after = old_entries + indexes@.subrange(0, i + 1);
            push_u64_le(&mut self.wtr, e.document_id);
            push_u16_le(&mut self.wtr, e.attribute);
            push_u32_le(&mut self.wtr, e.attribute_index);
            proof {
                assert(after.drop_last() =~= before);
                assert(after.last() == e);
                assert(entries_segment(after) == entries_segment(before) + entry_bytes(e));
            }
            assert(self.wtr@ =~= self.prefix@ + entries_segment(after));
            i = i + 1;
        }
        proof {
            let new_entries = old_entries + indexes@;
            assert(indexes@.subrange(0, len as int) =~= indexes@);
            self.entries@ = new_entries;
            self.lists@ = self.lists@.push(indexes@);
            assert(self.lists@.drop_last() =~= old_lists);
            lemma_entries_segment(new_entries);
            let n = self.ranges@.len();
            assert forall|k: int| 0 <= k < n implies #[trigger] self.lists@[k]
                == self.entries@.subrange(
                self.ranges@[k].start as int,
                self.ranges@[k].end as int,
            ) by {
                if k == n - 1 {
                    assert(self.entries@.subrange(start as int, end as int) =~= indexes@);
                } else {
                    assert(self.ranges@[k] == old_ranges[k]);
                    assert(self.lists@[k] == old_lists[k]);
                    assert(old_entries.subrange(
                        self.ranges@[k].start as int,
                        self.ranges@[k].end as int,
                    ) =~= new_entries.subrange(
                        self.ranges@[k].start as int,
                        self.ranges@[k].end as int,
                    ));
                }
            }
        }
    }

    /// Writes the ranges and the trailer, and hands back the buffer.
    pub fn into_inner(self) -> (r: Vec<u8>)
        requires
            self.wf(),
        ensures
            r@ == self.output(),
    {
        let mut wtr = self.wtr;
        let ranges = self.ranges;
        let n = ranges.len();
        let mut i: usize = 0;
        while i < n
            invariant
                i <= n,
                n == ranges@.len(),
                ranges@ == self.ranges(),
                wtr@ == self.wtr@ + ranges_segment(ranges@.subrange(0, i as int)),
                self.output_len() <= usize::MAX,
                self.output_len() == self.wtr@.len() + 16 * n + 8,
            decreases n - i,
        {
            let ghost before = ranges@.subrange(0, i as int);
            let ghost after = ranges@.subrange(0, i + 1);
            let r = ranges[i];
            push_u64_le(&mut wtr, r.start);
            push_u64_le(&mut wtr, r.end);
            proof {
                assert(after.drop_last() =~= before);
                assert(ranges_segment(after) == ranges_segment(before) + range_bytes(r));
            }
            assert(wtr@ =~= self.wtr@ + ranges_segment(after));
            i = i + 1;
        }
        assert(ranges@.subrange(0, n as int) =~= ranges@);
        let len: u64 = 16 * (n as u64);
        push_u64_le(&mut wtr, len);
        assert(wtr@ =~= self.output());
        wtr
    }

    /// Writes the ranges and the trailer, dropping the buffer.
    pub fn finish(self)
        requires
            self.wf(),
    {
        let _ = self.into_inner();
    }
}

/// Reading the trailer of a built buffer and slicing by it gives back exactly the
/// ranges and entries segments written at build time.
pub proof fn lemma_trailer_locates_segments(b: DocIndexesBuilder)
    requires
        b.wf(),
        b.prefix().len() == 0,
    ensures
        b.output().len() >= 8,
        trailer_of(b.output()) == 16 * b.ranges().len(),
        ranges_part(b.output()) == ranges_segment(b.ranges()),
        entries_part(b.output()) == entries_segment(b.entries()),
        entries_part(b.output()) == entries_segment(concat_lists(b.lists())),
        b.output().len() == 14 * b.entries().len() + 16 * b.ranges().len() + 8,
{
    let e = entries_segment(b.entries());
    let r = ranges_segment(b.ranges());
    let n = b.ranges().len();
    let t = le_bytes_u64((16 * n) as u64);
    let out = b.output();
    lemma_entries_segment(b.entries());
    lemma_ranges_segment(b.ranges());
    lemma_le_u64_round_trip((16 * n) as u64);
    assert(b.prefix() + layout(b.entries(), b.ranges()) =~= e + r + t);
    assert(out.subrange(out.len() - 8, out.len() as int) =~= t);
    assert(ranges_part(out) =~= r);
    assert(entries_part(out) =~= e);
}

/// Building then loading gives back the inserted posting lists, in insertion order.
pub proof fn lemma_build_then_load(b: DocIndexesBuilder)
    requires
        b.wf(),
        b.prefix().len() == 0,
    ensures
        valid_buffer(b.output()),
        load_error(b.output()) is None,
        buffer_lists(b.output()) == b.lists(),
{
    lemma_trailer_locates_segments(b);
    let out = b.output();
    let rs = b.ranges();
    let rb = ranges_part(out);
    let eb = entries_part(out);
    let n = rs.len();
    let m = b.entries().len();
    lemma_ranges_segment(rs);
    assert((16 * n) % 16 == 0 && (16 * n) / 16 == n) by (nonlinear_arith);
    assert((14 * m) % 14 == 0 && (14 * m) / 14 == m) by (nonlinear_arith);
    assert forall|i: int| 0 <= i < rb.len() / 16 implies #[trigger] range_at(rb, i).start
        <= range_at(rb, i).end <= eb.len() / 14 by {
        assert(range_at(rb, i) == rs[i]);
    }
    lemma_built_lists(b);
}

proof fn lemma_built_lists(b: DocIndexesBuilder)
    requires
        b.wf(),
        b.prefix().len() == 0,
    ensures
        lists_of(ranges_part(b.output()), entries_part(b.output())) == b.lists(),
{
    lemma_trailer_locates_segments(b);
    let out = b.output();
    let ents = b.entries();
    let rs = b.ranges();
    let rb = ranges_part(out);
    let eb = entries_part(out);
    let n = rs.len();
    lemma_entries_segment(ents);
    lemma_ranges_segment(rs);
    assert((16 * n) / 16 == n) by (nonlinear_arith);
    assert forall|i: int| 0 <= i < n implies #[trigger] lists_of(rb, eb)[i] == b.lists()[i] by {
        assert(range_at(rb, i) == rs[i]);
        let l = list_at(rb, eb, i);
        assert(l =~= ents.subrange(rs[i].start as int, rs[i].end as int));
    }
    assert(lists_of(rb, eb) =~= b.lists());
}

/// The shape of what a builder holds: its entries are the inserted lists end to
/// end, and its ranges are contiguous from 0, one per list, each as long as its list.
pub proof fn lemma_builder_shape(b: DocIndexesBuilder)
    requires
        b.wf(),
    ensures
        b.output().len() == b.output_len(),
        b.entries() == concat_lists(b.lists()),
        b.ranges().len() == b.lists().len(),
        b.ranges().len() > 0 ==> b.ranges()[0].start == 0 && b.ranges().last().end
            == b.entries().len(),
        b.ranges().len() == 0 ==> b.entries().len() == 0,
        forall|i: int|
            0 < i < b.ranges().len() ==> #[trigger] b.ranges()[i].start == b.ranges()[i - 1].end,
        forall|i: int|
            0 <= i < b.ranges().len() ==> #[trigger] b.ranges()[i].start <= b.ranges()[i].end
                && b.ranges()[i].end - b.ranges()[i].start == b.lists()[i].len(),
{
    lemma_entries_segment(b.entries());
    lemma_ranges_segment(b.ranges());
    assert forall|i: int| 0 <= i < b.ranges().len() implies #[trigger] b.ranges()[i].start
        <= b.ranges()[i].end && b.ranges()[i].end - b.ranges()[i].start == b.lists()[i].len() by {
        assert(b.lists()[i] == b.entries().subrange(
            b.ranges()[i].start as int,
            b.ranges()[i].end as int,
        ));
    }
}

/// An empty build is just the zero trailer; a build of one empty posting list is
/// the range `[0, 0)` and then the trailer 16.
pub proof fn lemma_empty_build_bytes(b: DocIndexesBuilder)
    requires
        b.wf(),
        b.prefix().len() == 0,
        b.lists().len() == 0 || b.lists() == seq![Seq::<DocIndex>::empty()],
    ensures
        b.lists().len() == 0 ==> b.output() == le_bytes_u64(0),
        b.lists().len() == 1 ==> b.output() == le_bytes_u64(0) + le_bytes_u64(0) + le_bytes_u64(16),
{
    lemma_builder_shape(b);
    lemma_entries_segment(b.entries());
    let l = b.lists();
    if l.len() == 1 {
        assert(l.drop_last() =~= Seq::<Seq<DocIndex>>::empty());
        assert(concat_lists(l) =~= Seq::<DocIndex>::empty());
        let r = b.ranges();
        assert(r =~= seq![Range { start: 0, end: 0 }]);
        assert(r.drop_last() =~= Seq::<Range>::empty());
        assert(ranges_segment(r) == ranges_segment(r.drop_last()) + range_bytes(r.last()));
        assert(b.output() =~= le_bytes_u64(0) + le_bytes_u64(0) + le_bytes_u64(16));
    } else {
        assert(b.ranges() =~= Seq::<Range>::empty());
        assert(b.output() =~= le_bytes_u64(0));
    }
}

/// An empty build loads and holds no posting list; a build of one empty posting
/// list loads and holds just that empty list.
pub proof fn lemma_empty_builds(b: DocIndexesBuilder)
    requires
        b.wf(),
        b.prefix().len() == 0,
        b.lists().len() == 0 || b.lists() == seq![Seq::<DocIndex>::empty()],
    ensures
        valid_buffer(b.output()),
        b.lists().len() == 0 ==> buffer_lists(b.output()).len() == 0,
        b.lists().len() == 1 ==> buffer_lists(b.output()) == seq![Seq::<DocIndex>::empty()],
{
    lemma_build_then_load(b);
}

} // verus!
