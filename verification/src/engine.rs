//! The generic record engine: directory scanner, space allocator, and the
//! append/scan record protocol, parameterized by a caller-supplied codec.
//!
//! The engine treats each record as an opaque byte sequence produced and
//! consumed by a [`RecordCodec`]; it neither interprets nor validates record
//! contents. Directory entries are append-only and ordered by insertion, so
//! entry order is the record's logical row position. Callers must serialize
//! access to a given page themselves: the engine holds no lock and caches no
//! page between calls.

use vstd::prelude::*;

use crate::page::{
    copy_in, page_header_wf, page_higher, page_lower, spec_u16_at, spec_u64_at, write_u16,
    PageHeader, CHECKSUM_OFFSET, FLAGS_OFFSET, HEADER_SIZE, HIGHER_OFFSET, LOWER_OFFSET,
    LSN_OFFSET, PAGE_SIZE, SPECIAL_SPACE_OFFSET,
};

verus! {

/// The typed failures of the engine. I/O failures belong to the caller that
/// owns the file handle; the engine itself never touches storage.
#[derive(Clone, Copy, Debug, PartialEq, Eq, Structural)]
pub enum PageError {
    /// The allocator cannot fit the next record between `lower` and `higher`.
    /// The failing batch is abandoned whole: no partial write.
    SpaceExhausted,
    /// A record's encoded size cannot be computed (a text field longer than
    /// its two-byte length prefix can say).
    EncodingError,
    /// The page header or a record's bytes are inconsistent with the expected
    /// layout: a boundary out of range, a length prefix running past the
    /// page, or text that is not valid UTF-8.
    MalformedRecord,
}

/// Number of directory entries recorded in the page's header.
pub open spec fn dir_count(p: Seq<u8>) -> int {
    (page_lower(p) - HEADER_SIZE) / 2
}

/// The `i`-th directory entry: the byte offset in the page of the `i`-th
/// record's first byte.
pub open spec fn dir_entry(p: Seq<u8>, i: int) -> int {
    spec_u16_at(p, HEADER_SIZE + 2 * i)
}

/// A catalog codec: converts typed records to and from the opaque byte
/// encodings the record engine stores. The four members tie the executable
/// encode/decode pair to one spec-level byte encoding, so that the engine's
/// contracts can speak of stored records without knowing their schema.
pub trait RecordCodec: View + Sized {
    /// True when the record can be encoded: every variable-length field fits
    /// the width of its length prefix.
    spec fn spec_valid(&self) -> bool;

    /// The record's byte encoding.
    spec fn spec_encoded(&self) -> Seq<u8>;

    /// The record decoded from `p` at `off` (as its abstract view), paired
    /// with the offset one past its last byte; `None` when the bytes there
    /// are not a well-formed encoding that lies inside `p`.
    spec fn spec_decoded(p: Seq<u8>, off: int) -> Option<(Self::V, int)>;

    /// Round trip, one record: decoding at an offset where this record's
    /// encoding lies yields exactly this record.
    proof fn lemma_encode_decode(&self, p: Seq<u8>, off: int)
        requires
            self.spec_valid(),
            0 <= off,
            off + self.spec_encoded().len() <= p.len(),
            p.subrange(off, off + self.spec_encoded().len() as int) == self.spec_encoded(),
        ensures
            Self::spec_decoded(p, off) == Some(
                (self.view(), off + self.spec_encoded().len() as int),
            ),
    ;

    /// The record's encoded size in bytes, or `None` when the record cannot
    /// be encoded.
    fn encoded_len(&self) -> (r: Option<usize>)
        ensures
            match r {
                Some(n) => self.spec_valid() && n as int == self.spec_encoded().len(),
                None => !self.spec_valid(),
            },
    ;

    /// Encode the record.
    fn encode(&self) -> (r: Vec<u8>)
        requires
            self.spec_valid(),
        ensures
            r@ == self.spec_encoded(),
    ;

    /// Decode one record from `p` at `off`.
    fn decode(p: &Vec<u8>, off: usize) -> (r: Result<(Self, usize), PageError>)
        ensures
            match r {
                Ok((rec, next)) => {
                    &&& Self::spec_decoded(p@, off as int) == Some((rec.view(), next as int))
                    &&& rec.spec_valid()
                },
                Err(e) => {
                    &&& e == PageError::MalformedRecord
                    &&& Self::spec_decoded(p@, off as int) is None
                },
            },
    ;
}

/// True when directory entry `i` locates a record whose bytes, lying wholly
/// in the tuple area (at or past `hi`), are exactly `rec`'s encoding.
pub open spec fn entry_stores<R: RecordCodec>(p: Seq<u8>, i: int, rec: R, hi: int) -> bool {
    let off = dir_entry(p, i);
    &&& rec.spec_valid()
    &&& hi <= off
    &&& off + rec.spec_encoded().len() <= PAGE_SIZE
    &&& p.subrange(off, off + rec.spec_encoded().len() as int) == rec.spec_encoded()
}

/// True when the page is well formed and stores exactly the records `recs`,
/// in directory order, each wholly inside the tuple area.
pub open spec fn page_stores<R: RecordCodec>(p: Seq<u8>, recs: Seq<R>) -> bool {
    &&& page_header_wf(p)
    &&& dir_count(p) == recs.len()
    &&& forall|i: int|
        0 <= i < recs.len() ==> entry_stores(p, i, #[trigger] recs[i], page_higher(p))
}

/// True when `rec` is exactly what decoding the page at directory entry `i`
/// yields: decoding succeeds there and returns `rec`'s view.
pub open spec fn decoded_at<R: RecordCodec>(p: Seq<u8>, i: int, rec: R) -> bool {
    &&& R::spec_decoded(p, dir_entry(p, i)) is Some
    &&& rec.view() == R::spec_decoded(p, dir_entry(p, i)).unwrap().0
    &&& rec.spec_valid()
}

/// What a successful read means: the page is well formed and the records
/// returned are, in order, exactly what each directory entry decodes to.
pub open spec fn read_ok<R: RecordCodec>(p: Seq<u8>, recs: Seq<R>) -> bool {
    &&& page_header_wf(p)
    &&& recs.len() == dir_count(p)
    &&& forall|i: int| 0 <= i < recs.len() ==> decoded_at(p, i, #[trigger] recs[i])
}

/// What a failed read means: the only error is a malformed page, and it is
/// reported only when the header is out of range or some directory entry
/// does not decode.
pub open spec fn read_err<R: RecordCodec>(p: Seq<u8>, e: PageError) -> bool {
    &&& e == PageError::MalformedRecord
    &&& (!page_header_wf(p) || exists|i: int|
        0 <= i < dir_count(p) && R::spec_decoded(p, #[trigger] dir_entry(p, i)) is None)
}

/// Total size in bytes of the records' encodings.
pub open spec fn total_encoded_len<R: RecordCodec>(recs: Seq<R>) -> nat
    decreases recs.len(),
{
    if recs.len() == 0 {
        0
    } else {
        recs[0].spec_encoded().len() + total_encoded_len(recs.drop_first())
    }
}

/// The outcome the allocator reaches on a batch, record by record, with
/// `space` free bytes between `lower` and `higher`: `None` when every record
/// fits (each costing its encoding plus a two-byte directory entry), or the
/// first failure.
pub open spec fn batch_outcome<R: RecordCodec>(recs: Seq<R>, space: int) -> Option<PageError>
    decreases recs.len(),
{
    if recs.len() == 0 {
        None
    } else if !recs[0].spec_valid() {
        Some(PageError::EncodingError)
    } else if 2 + recs[0].spec_encoded().len() > space {
        Some(PageError::SpaceExhausted)
    } else {
        batch_outcome(recs.drop_first(), space - 2 - recs[0].spec_encoded().len())
    }
}

/// What a successful append means, relating the page before (`p0`) and
/// after (`p1`): the whole batch fit; `lower` grew by one directory entry
/// per record and `higher` sank by the records' total encoded size; the
/// inert header fields kept their values; and whatever records the page
/// stored before, it now stores them followed by the appended batch, in
/// order.
pub open spec fn append_ok<R: RecordCodec>(p0: Seq<u8>, p1: Seq<u8>, recs: Seq<R>) -> bool {
    &&& page_header_wf(p0)
    &&& batch_outcome(recs, page_higher(p0) - page_lower(p0)) is None
    &&& p1.len() == PAGE_SIZE
    &&& page_header_wf(p1)
    &&& page_lower(p1) == page_lower(p0) + 2 * recs.len()
    &&& page_higher(p1) == page_higher(p0) - total_encoded_len(recs)
    &&& spec_u64_at(p1, LSN_OFFSET as int) == spec_u64_at(p0, LSN_OFFSET as int)
    &&& spec_u16_at(p1, CHECKSUM_OFFSET as int) == spec_u16_at(p0, CHECKSUM_OFFSET as int)
    &&& spec_u16_at(p1, FLAGS_OFFSET as int) == spec_u16_at(p0, FLAGS_OFFSET as int)
    &&& spec_u16_at(p1, SPECIAL_SPACE_OFFSET as int) == spec_u16_at(
        p0,
        SPECIAL_SPACE_OFFSET as int,
    )
    &&& forall|prev: Seq<R>| #[trigger] page_stores(p0, prev) ==> page_stores(p1, prev + recs)
}

/// What a failed append means: the page is byte-for-byte unchanged, and the
/// error is either a malformed header or exactly what the allocator's walk
/// over the batch reaches first.
pub open spec fn append_err<R: RecordCodec>(
    p0: Seq<u8>,
    p1: Seq<u8>,
    recs: Seq<R>,
    e: PageError,
) -> bool {
    &&& p1 == p0
    &&& if page_header_wf(p0) {
        batch_outcome(recs, page_higher(p0) - page_lower(p0)) == Some(e)
    } else {
        e == PageError::MalformedRecord
    }
}

/// A successful batch means every record was encodable and the whole batch,
/// directory entries included, fits in the free space.
pub proof fn lemma_batch_outcome_fits<R: RecordCodec>(recs: Seq<R>, space: int)
    requires
        0 <= space,
        batch_outcome(recs, space) is None,
    ensures
        forall|i: int| 0 <= i < recs.len() ==> (#[trigger] recs[i]).spec_valid(),
        total_encoded_len(recs) + 2 * recs.len() <= space,
    decreases recs.len(),
{
    if recs.len() > 0 {
        let rest = recs.drop_first();
        lemma_batch_outcome_fits(rest, space - 2 - recs[0].spec_encoded().len());
        assert forall|i: int| 0 <= i < recs.len() implies (#[trigger] recs[i]).spec_valid() by {
            if i >= 1 {
                assert(rest[i - 1] == recs[i]);
            }
        }
    }
}

/// Space exhaustion law: a batch of encodable records succeeds exactly when
/// its total encoded size plus two directory bytes per record fits in the
/// free space; when it does not fit, the allocator reports exhaustion and
/// nothing else.
pub proof fn lemma_space_allocation<R: RecordCodec>(recs: Seq<R>, space: int)
    requires
        0 <= space,
        forall|i: int| 0 <= i < recs.len() ==> (#[trigger] recs[i]).spec_valid(),
    ensures
        batch_outcome(recs, space) is None <==> total_encoded_len(recs) + 2 * recs.len() <= space,
        batch_outcome(recs, space) is Some ==> batch_outcome(recs, space) == Some(
            PageError::SpaceExhausted,
        ),
    decreases recs.len(),
{
    if recs.len() > 0 {
        let rest = recs.drop_first();
        if 2 + recs[0].spec_encoded().len() <= space {
            assert forall|i: int| 0 <= i < rest.len() implies (#[trigger] rest[i]).spec_valid() by {
                assert(rest[i] == recs[i + 1]);
            }
            lemma_space_allocation(rest, space - 2 - recs[0].spec_encoded().len());
            assert(rest.len() == recs.len() - 1);
            assert(total_encoded_len(recs) == recs[0].spec_encoded().len() + total_encoded_len(
                rest,
            ));
        } else {
            assert(batch_outcome(recs, space) == Some(PageError::SpaceExhausted));
            assert(total_encoded_len(recs) >= recs[0].spec_encoded().len());
        }
    }
}

/// One step of totalling encoded sizes along a prefix of the batch.
proof fn lemma_total_take_step<R: RecordCodec>(s: Seq<R>, k: int)
    requires
        0 <= k < s.len(),
    ensures
        total_encoded_len(s.take(k + 1)) == total_encoded_len(s.take(k))
            + s[k].spec_encoded().len(),
    decreases k,
{
    if k == 0 {
        assert(s.take(0) =~= Seq::<R>::empty());
        assert(s.take(1).drop_first() =~= Seq::<R>::empty());
        assert(s.take(1)[0] == s[0]);
    } else {
        lemma_total_take_step(s.drop_first(), k - 1);
        assert(s.take(k + 1).drop_first() =~= s.drop_first().take(k));
        assert(s.take(k).drop_first() =~= s.drop_first().take(k - 1));
        assert(s.take(k + 1)[0] == s[0]);
        assert(s.take(k)[0] == s[0]);
        assert(s.drop_first()[k - 1] == s[k]);
    }
}

/// Round-trip law, read side: a page that stores `recs` decodes, at each
/// directory entry, exactly the record stored there. Together with the write
/// path's postcondition (appending makes the page store the appended
/// records) and the read path's postcondition (reading returns what each
/// entry decodes to), reading a page after appending to it returns the
/// appended records, same values, same order.
pub proof fn lemma_page_stores_decode<R: RecordCodec>(p: Seq<u8>, recs: Seq<R>)
    requires
        page_stores(p, recs),
    ensures
        forall|i: int|
            0 <= i < recs.len() ==> R::spec_decoded(p, dir_entry(p, i)) == Some(
                ((#[trigger] recs[i]).view(), dir_entry(p, i) + recs[i].spec_encoded().len()),
            ),
{
    assert forall|i: int| 0 <= i < recs.len() implies R::spec_decoded(p, dir_entry(p, i)) == Some(
        ((#[trigger] recs[i]).view(), dir_entry(p, i) + recs[i].spec_encoded().len()),
    ) by {
        assert(entry_stores(p, i, recs[i], page_higher(p)));
        recs[i].lemma_encode_decode(p, dir_entry(p, i));
    }
}

/// Round-trip law: appending `recs` to a page that stored `prev`, then
/// reading the page back, yields `prev` followed by `recs` — the same
/// values, in the same order. `p0` is the page before the append, `p1` the
/// page after it, and `out` what the read path returned for `p1`. For a
/// freshly created page `prev` is empty, so the read returns exactly the
/// appended records.
pub proof fn lemma_round_trip<R: RecordCodec>(
    p0: Seq<u8>,
    p1: Seq<u8>,
    prev: Seq<R>,
    recs: Seq<R>,
    out: Seq<R>,
)
    requires
        page_stores(p0, prev),
        append_ok(p0, p1, recs),
        read_ok(p1, out),
    ensures
        out.len() == prev.len() + recs.len(),
        forall|i: int| 0 <= i < out.len() ==> (#[trigger] out[i]).view() == (prev + recs)[i].view(),
{
    let all = prev + recs;
    assert(page_stores(p1, all));
    lemma_page_stores_decode(p1, all);
    assert forall|i: int| 0 <= i < out.len() implies (#[trigger] out[i]).view()
        == (prev + recs)[i].view() by {
        assert(decoded_at(p1, i, out[i]));
        assert(R::spec_decoded(p1, dir_entry(p1, i)) == Some(
            (all[i].view(), dir_entry(p1, i) + all[i].spec_encoded().len()),
        ));
    }
}

/// A freshly created page (empty directory) stores the empty record
/// sequence, whatever the codec.
pub proof fn lemma_fresh_page_stores_nothing<R: RecordCodec>(p: Seq<u8>)
    requires
        page_header_wf(p),
        page_lower(p) == HEADER_SIZE,
    ensures
        page_stores(p, Seq::<R>::empty()),
{
}

/// Idempotent-header law: reading a page whose directory is empty — as
/// page creation leaves it, with `lower` at the header's end — returns no
/// records.
pub proof fn lemma_read_of_empty_page<R: RecordCodec>(p: Seq<u8>, out: Seq<R>)
    requires
        page_lower(p) == HEADER_SIZE,
        read_ok(p, out),
    ensures
        out.len() == 0,
{
}

/// The record engine. It owns no page and no file: every operation works on
/// a page buffer handed in by the caller, who must serialize access to the
/// underlying page file (one exclusive writer at a time).
pub struct Storage {}

impl Storage {
    /// A new engine handle.
    pub fn new() -> (s: Storage) {
        Storage {  }
    }

    /// Allocate a fresh page: zero-filled, with a header holding placeholder
    /// sentinel stamps (`lsn` 12345678, `checksum` 42, `flags` 40, none of
    /// them semantically meaningful), an empty directory (`lower` ==
    /// [`HEADER_SIZE`]) and a tuple area spanning the whole remaining page
    /// (`higher` == [`PAGE_SIZE`]).
    pub fn create_page(&self) -> (p: Vec<u8>)
        ensures
            page_header_wf(p@),
            page_lower(p@) == HEADER_SIZE,
            page_higher(p@) == PAGE_SIZE,
            dir_count(p@) == 0,
            spec_u64_at(p@, LSN_OFFSET as int) == 12345678,
            spec_u16_at(p@, CHECKSUM_OFFSET as int) == 42,
            spec_u16_at(p@, FLAGS_OFFSET as int) == 40,
            spec_u16_at(p@, SPECIAL_SPACE_OFFSET as int) == PAGE_SIZE,
            forall|i: int| HEADER_SIZE <= i < PAGE_SIZE ==> p@[i] == 0,
    {
        let mut p: Vec<u8> = vec![0u8; PAGE_SIZE];
        let header = PageHeader {
            lsn: 12345678,
            checksum: 42,
            flags: 40,
            lower: HEADER_SIZE as u16,
            higher: PAGE_SIZE as u16,
            special_space: PAGE_SIZE as u16,
        };
        header.encode(&mut p);
        p
    }

    /// Walk the pointer directory between the header's end and `lower`,
    /// yielding each record's byte offset, oldest first. The sequence is
    /// re-derived from the page on every call; nothing is cached.
    pub fn scan_directory(&self, p: &Vec<u8>) -> (r: Result<Vec<u16>, PageError>)
        requires
            p@.len() == PAGE_SIZE,
        ensures
            match r {
                Ok(offsets) => {
                    &&& page_header_wf(p@)
                    &&& offsets@.len() == dir_count(p@)
                    &&& forall|i: int|
                        0 <= i < offsets@.len() ==> (#[trigger] offsets@[i]) as int == dir_entry(
                            p@,
                            i,
                        )
                },
                Err(e) => {
                    &&& e == PageError::MalformedRecord
                    &&& !page_header_wf(p@)
                },
            },
    {
        let header = PageHeader::decode(p);
        let lower = header.lower;
        let higher = header.higher;
        if lower < HEADER_SIZE as u16 || higher < lower || higher > PAGE_SIZE as u16 || (lower
            - HEADER_SIZE as u16) % 2 != 0 {
            return Err(PageError::MalformedRecord);
        }
        let mut offsets: Vec<u16> = Vec::new();
        let mut at: u16 = HEADER_SIZE as u16;
        while at < lower
            invariant
                p@.len() == PAGE_SIZE,
                HEADER_SIZE <= at <= lower,
                lower as int == page_lower(p@),
                lower <= PAGE_SIZE,
                (at - HEADER_SIZE) % 2 == 0,
                (lower - HEADER_SIZE) % 2 == 0,
                offsets@.len() == (at - HEADER_SIZE) / 2,
                forall|i: int|
                    0 <= i < offsets@.len() ==> (#[trigger] offsets@[i]) as int == dir_entry(p@, i),
            decreases lower - at,
        {
            let entry = crate::page::read_u16(p, at as usize);
            offsets.push(entry);
            at = at + 2;
        }
        Ok(offsets)
    }

    /// Read path of the record engine: scan the directory and decode one
    /// record per entry, returning the decoded records in directory order
    /// (insertion order, oldest first).
    pub fn read_metadata<R: RecordCodec>(&self, p: &Vec<u8>) -> (r: Result<Vec<R>, PageError>)
        requires
            p@.len() == PAGE_SIZE,
        ensures
            match r {
                Ok(records) => read_ok(p@, records@),
                Err(e) => read_err::<R>(p@, e),
            },
    {
        let offsets = match self.scan_directory(p) {
            Ok(offsets) => offsets,
            Err(e) => {
                return Err(e);
            },
        };
        let n = offsets.len();
        let mut records: Vec<R> = Vec::new();
        let mut k: usize = 0;
        while k < n
            invariant
                p@.len() == PAGE_SIZE,
                page_header_wf(p@),
                n == offsets@.len(),
                offsets@.len() == dir_count(p@),
                k <= n,
                records@.len() == k,
                forall|i: int|
                    0 <= i < offsets@.len() ==> (#[trigger] offsets@[i]) as int == dir_entry(p@, i),
                forall|i: int| 0 <= i < k ==> decoded_at(p@, i, #[trigger] records@[i]),
            decreases n - k,
        {
            let off = offsets[k];
            match R::decode(p, off as usize) {
                Ok((rec, next)) => {
                    let ghost prev = records@;
                    proof {
                        assert(off as int == dir_entry(p@, k as int));
                        assert(R::spec_decoded(p@, dir_entry(p@, k as int)) == Some(
                            (rec.view(), next as int),
                        ));
                    }
                    records.push(rec);
                    proof {
                        assert forall|i: int| 0 <= i < k + 1 implies decoded_at(
                            p@,
                            i,
                            #[trigger] records@[i],
                        ) by {
                            if i < k {
                                assert(records@[i] == prev[i]);
                                assert(decoded_at(p@, i, prev[i]));
                            } else {
                                assert(records@[i] == rec);
                            }
                        }
                    }
                },
                Err(e) => {
                    assert(R::spec_decoded(p@, dir_entry(p@, k as int)) is None);
                    return Err(e);
                },
            }
            k = k + 1;
        }
        Ok(records)
    }

    /// Write path of the record engine: for each record in order, allocate
    /// space by moving `higher` down, write the record's directory entry at
    /// `lower`, copy its encoding to the new `higher`, and advance `lower`
    /// by two; finally store the updated boundaries in the header. The batch
    /// is planned in full before the page is touched, so a failing batch
    /// leaves the page byte-for-byte unchanged: no partial write. Appending
    /// never moves or reorders the records already stored.
    pub fn write_metadata<R: RecordCodec>(&self, p: &mut Vec<u8>, records: &Vec<R>) -> (r: Result<
        (),
        PageError,
    >)
        requires
            old(p)@.len() == PAGE_SIZE,
        ensures
            match r {
                Ok(()) => append_ok(old(p)@, final(p)@, records@),
                Err(e) => append_err(old(p)@, final(p)@, records@, e),
            },
    {
        let header = PageHeader::decode(p);
        let lower0 = header.lower;
        let higher0 = header.higher;
        if lower0 < HEADER_SIZE as u16 || higher0 < lower0 || higher0 > PAGE_SIZE as u16 || (lower0
            - HEADER_SIZE as u16) % 2 != 0 {
            return Err(PageError::MalformedRecord);
        }
        let n = records.len();

        // Plan the whole batch before mutating anything: walk the records
        // with the allocator's arithmetic and report the first failure.
        proof {
            assert(records@.skip(0) =~= records@);
        }
        let mut space: usize = (higher0 - lower0) as usize;
        let mut k: usize = 0;
        while k < n
            invariant
                n == records@.len(),
                k <= n,
                space <= PAGE_SIZE,
                p@ == old(p)@,
                old(p)@.len() == PAGE_SIZE,
                page_header_wf(old(p)@),
                lower0 as int == page_lower(old(p)@),
                higher0 as int == page_higher(old(p)@),
                batch_outcome(records@, higher0 as int - lower0 as int) == batch_outcome(
                    records@.skip(k as int),
                    space as int,
                ),
            decreases n - k,
        {
            proof {
                assert(records@.skip(k as int)[0] == records@[k as int]);
            }
            match records[k].encoded_len() {
                None => {
                    return Err(PageError::EncodingError);
                },
                Some(sz) => {
                    if space < 2 || sz > space - 2 {
                        return Err(PageError::SpaceExhausted);
                    }
                    space = space - 2 - sz;
                    proof {
                        assert(records@.skip(k as int).drop_first() =~= records@.skip(
                            k as int + 1,
                        ));
                    }
                },
            }
            k = k + 1;
        }
        proof {
            assert(records@.skip(n as int) =~= Seq::<R>::empty());
        }

        // Every record fits: mutate the page.
        proof {
            assert(records@.take(0) =~= Seq::<R>::empty());
        }
        let ghost old_count: int = (lower0 as int - HEADER_SIZE as int) / 2;
        let mut lower = lower0;
        let mut higher = higher0;
        k = 0;
        while k < n
            invariant
                n == records@.len(),
                k <= n,
                p@.len() == PAGE_SIZE,
                old(p)@.len() == PAGE_SIZE,
                HEADER_SIZE as int <= lower0 as int,
                lower0 <= higher0,
                higher0 as int <= PAGE_SIZE as int,
                (lower0 as int - HEADER_SIZE as int) % 2 == 0,
                old_count == (lower0 as int - HEADER_SIZE as int) / 2,
                lower as int == lower0 as int + 2 * (k as int),
                higher as int == higher0 as int - total_encoded_len(records@.take(k as int)),
                lower <= higher,
                batch_outcome(records@.skip(k as int), higher as int - lower as int) is None,
                forall|i: int|
                    0 <= i < PAGE_SIZE && !(lower0 as int <= i < lower as int) && !(
                    higher as int <= i < higher0 as int) ==> p@[i] == old(p)@[i],
                forall|j: int|
                    0 <= j < k ==> entry_stores(
                        p@,
                        old_count + j,
                        #[trigger] records@[j],
                        higher as int,
                    ),
            decreases n - k,
        {
            let ghost pk = p@;
            proof {
                assert(records@.skip(k as int)[0] == records@[k as int]);
            }
            let rec = &records[k];
            let enc = rec.encode();
            let size = enc.len();
            proof {
                assert(2 + records@[k as int].spec_encoded().len() <= higher as int
                    - lower as int);
            }
            let new_higher = higher - (size as u16);
            write_u16(p, lower as usize, new_higher);
            copy_in(p, new_higher as usize, &enc);
            proof {
                let ghost pn = p@;
                // the new entry is stored
                assert(spec_u16_at(pn, lower as int) == new_higher as int);
                assert(dir_entry(pn, old_count + k as int) == new_higher as int);
                assert(pn.subrange(new_higher as int, new_higher as int + size as int) == enc@);
                assert(entry_stores(pn, old_count + k as int, records@[k as int],
                    new_higher as int));
                // the entries already appended are untouched
                assert forall|j: int| 0 <= j < k implies entry_stores(
                    pn,
                    old_count + j,
                    #[trigger] records@[j],
                    new_higher as int,
                ) by {
                    assert(entry_stores(pk, old_count + j, records@[j], higher as int));
                    let off = dir_entry(pk, old_count + j);
                    let len = records@[j].spec_encoded().len();
                    assert(pn[HEADER_SIZE as int + 2 * (old_count + j)] == pk[HEADER_SIZE as int
                        + 2 * (old_count + j)]);
                    assert(pn[HEADER_SIZE as int + 2 * (old_count + j) + 1] == pk[
                        HEADER_SIZE as int + 2 * (old_count + j) + 1]);
                    assert(dir_entry(pn, old_count + j) == off);
                    assert(pn.subrange(off, off + len) =~= pk.subrange(off, off + len));
                }
                lemma_total_take_step(records@, k as int);
                assert(records@.skip(k as int).drop_first() =~= records@.skip(k as int + 1));
            }
            lower = lower + 2;
            higher = new_higher;
            k = k + 1;
        }
        proof {
            assert(records@.take(n as int) =~= records@);
        }

        // Persist the moved boundaries; all other header fields keep their
        // bytes.
        let ghost pl = p@;
        write_u16(p, LOWER_OFFSET, lower);
        let ghost pm = p@;
        write_u16(p, HIGHER_OFFSET, higher);
        proof {
            let pf = p@;
            assert(page_lower(pf) == lower as int);
            assert(page_higher(pf) == higher as int);
            assert forall|i: int| HEADER_SIZE as int <= i < PAGE_SIZE implies pf[i] == pl[i] by {}
            assert(page_header_wf(pf));
            assert(dir_count(pf) == old_count + n as int);
            assert forall|prev: Seq<R>| #[trigger]
                page_stores(old(p)@, prev) implies page_stores(pf, prev + records@) by {
                assert(dir_count(old(p)@) == old_count);
                assert(prev.len() == old_count);
                let all = prev + records@;
                assert(all.len() == old_count + n as int);
                assert forall|i: int| 0 <= i < all.len() implies entry_stores(
                    pf,
                    i,
                    #[trigger] all[i],
                    page_higher(pf),
                ) by {
                    if i < old_count {
                        assert(all[i] == prev[i]);
                        assert(entry_stores(old(p)@, i, prev[i], page_higher(old(p)@)));
                        let off = dir_entry(old(p)@, i);
                        let len = prev[i].spec_encoded().len();
                        assert(HEADER_SIZE as int + 2 * i + 1 < lower0 as int);
                        assert(pf[HEADER_SIZE as int + 2 * i] == old(p)@[HEADER_SIZE as int + 2
                            * i]);
                        assert(pf[HEADER_SIZE as int + 2 * i + 1] == old(p)@[HEADER_SIZE as int
                            + 2 * i + 1]);
                        assert(dir_entry(pf, i) == off);
                        assert(higher0 as int <= off);
                        assert(pf.subrange(off, off + len) =~= old(p)@.subrange(off, off + len));
                    } else {
                        let j = i - old_count;
                        assert(all[i] == records@[j]);
                        assert(entry_stores(pl, old_count + j, records@[j], higher as int));
                        let off = dir_entry(pl, old_count + j);
                        let len = records@[j].spec_encoded().len();
                        assert(pf[HEADER_SIZE as int + 2 * i] == pl[HEADER_SIZE as int + 2 * i]);
                        assert(pf[HEADER_SIZE as int + 2 * i + 1] == pl[HEADER_SIZE as int + 2 * i
                            + 1]);
                        assert(dir_entry(pf, i) == off);
                        assert(pf.subrange(off, off + len) =~= pl.subrange(off, off + len));
                    }
                }
            }
        }
        Ok(())
    }
}

} // verus!
