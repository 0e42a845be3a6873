use vstd::prelude::*;
use vstd::slice::*;

use crate::digest::{chain_hash, compute_chain_hash, zero_hash};
use crate::errors::StoreError;
use crate::record::{
    decode_record, encode_record, lemma_record_roundtrip, zero_pad, Record, RecordV,
};
use crate::NULLID_REVISION;

verus! {

/// Append-only storage engine: an index stream of 64-byte records and a data
/// stream of raw hunks, held as in-memory byte streams. The unverified shell
/// loads both streams from the paired on-disk files and, after a successful
/// append, writes the new suffix of each stream back; both files only ever
/// grow.
pub struct RevLog {
    index: Vec<u8>,
    data: Vec<u8>,
}

/// The mathematical model of a revlog: its two byte streams.
pub struct RevLogV {
    pub index: Seq<u8>,
    pub data: Seq<u8>,
}

impl View for RevLog {
    type V = RevLogV;

    closed spec fn view(&self) -> RevLogV {
        RevLogV { index: self.index@, data: self.data@ }
    }
}

/// Number of whole records the index stream holds.
pub open spec fn num_revs(index: Seq<u8>) -> int {
    (index.len() / 64) as int
}

/// The index stream is well formed when its byte length is an exact multiple
/// of the record size and the revision count is representable as a `u32`.
pub open spec fn log_wf(index: Seq<u8>) -> bool {
    &&& index.len() % 64 == 0
    &&& num_revs(index) <= 0xffff_ffff
}

/// The record stored at revision `i` of the index stream.
pub open spec fn rec_at(index: Seq<u8>, i: int) -> RecordV
    recommends
        0 <= i < num_revs(index),
{
    RecordV::from_bytes(index.subrange(64 * i, 64 * i + 64))
}

/// What `size` returns: the revision count, or a corruption signal.
pub open spec fn spec_size(index: Seq<u8>) -> Result<u32, StoreError> {
    if log_wf(index) {
        Result::Ok(num_revs(index) as u32)
    } else {
        Result::Err(StoreError::FormatError)
    }
}

/// The record that appending `content` creates: its hunk directly after the
/// previous hunk (at offset 0 for the first revision), its first parent the
/// previous revision (absent for the first), its hash chained from the
/// parent's hash. Every revision is a full snapshot, so the reserved
/// uncompressed length always mirrors the stored hunk length.
pub open spec fn next_record_v(index: Seq<u8>, content: Seq<u8>) -> RecordV
    recommends
        log_wf(index),
        content.len() <= 0xffff_ffff,
{
    let n = num_revs(index);
    if n == 0 {
        RecordV {
            hunk_offset: 0,
            hunk_length: content.len() as u32,
            uncompressed_length: content.len() as u32,
            base_revision: 0,
            link_revision: 0,
            parent1_revision: Option::None,
            parent2_revision: Option::None,
            hash: chain_hash(zero_hash(), content),
            padding: zero_pad(),
        }
    } else {
        let prev = rec_at(index, n - 1);
        RecordV {
            hunk_offset: (prev.hunk_offset + prev.hunk_length) as u64,
            hunk_length: content.len() as u32,
            uncompressed_length: content.len() as u32,
            base_revision: n as u32,
            link_revision: 0,
            parent1_revision: Option::Some((n - 1) as u32),
            parent2_revision: Option::None,
            hash: chain_hash(prev.hash, content),
            padding: zero_pad(),
        }
    }
}

/// A revision can be appended when the index stream is well formed, a new
/// revision number is still available, and the new hunk's offset does not
/// overflow the 64-bit offset field.
pub open spec fn can_append(index: Seq<u8>) -> bool {
    &&& log_wf(index)
    &&& num_revs(index) < 0xffff_ffff
    &&& (num_revs(index) > 0 ==> rec_at(index, num_revs(index) - 1).hunk_offset + rec_at(
        index,
        num_revs(index) - 1,
    ).hunk_length <= u64::MAX)
}

/// The index stream after appending one revision with the given content.
pub open spec fn append_index(index: Seq<u8>, content: Seq<u8>) -> Seq<u8> {
    index + next_record_v(index, content).to_bytes()
}

/// What `get_record` returns for each revision number.
pub open spec fn spec_get_record(index: Seq<u8>, rev: u32) -> Result<RecordV, StoreError> {
    if rev == NULLID_REVISION {
        Result::Ok(RecordV::default_v())
    } else if !log_wf(index) {
        Result::Err(StoreError::FormatError)
    } else if rev as int >= num_revs(index) {
        Result::Err(StoreError::OutOfRange)
    } else {
        Result::Ok(rec_at(index, rev as int))
    }
}

/// What `get_hunk` returns: the record's extent of the data stream, or a
/// short-read error when the data stream does not reach that far.
pub open spec fn spec_get_hunk(v: RevLogV, rev: u32) -> Result<Seq<u8>, StoreError> {
    match spec_get_record(v.index, rev) {
        Result::Ok(rv) => if rv.hunk_offset + rv.hunk_length <= v.data.len() {
            Result::Ok(v.data.subrange(rv.hunk_offset as int, rv.hunk_offset + rv.hunk_length))
        } else {
            Result::Err(StoreError::IoError)
        },
        Result::Err(e) => Result::Err(e),
    }
}

/// What `get_last_hunk` returns: the newest revision's hunk, or `EmptyLog`
/// when nothing has been committed yet.
pub open spec fn spec_get_last_hunk(v: RevLogV) -> Result<Seq<u8>, StoreError> {
    match spec_size(v.index) {
        Result::Ok(n) => if n == 0 {
            Result::Err(StoreError::EmptyLog)
        } else {
            spec_get_hunk(v, (n - 1) as u32)
        },
        Result::Err(e) => Result::Err(e),
    }
}

impl RevLog {
    /// Creates a fresh, empty revlog.
    pub fn new() -> (r: RevLog)
        ensures
            r@.index == Seq::<u8>::empty(),
            r@.data == Seq::<u8>::empty(),
    {
        RevLog { index: Vec::new(), data: Vec::new() }
    }

    /// Wraps index and data streams that the caller read from the paired
    /// on-disk files.
    pub fn from_parts(index: Vec<u8>, data: Vec<u8>) -> (r: RevLog)
        ensures
            r@.index == index@,
            r@.data == data@,
    {
        RevLog { index, data }
    }

    /// The raw index stream, for persisting.
    pub fn index_bytes(&self) -> (r: &Vec<u8>)
        ensures
            r@ == self@.index,
    {
        &self.index
    }

    /// The raw data stream, for persisting.
    pub fn data_bytes(&self) -> (r: &Vec<u8>)
        ensures
            r@ == self@.data,
    {
        &self.data
    }

    /// Number of revisions: the index stream's byte length divided by the
    /// record size. Any length that is not an exact multiple of the record
    /// size is a corruption signal.
    pub fn size(&self) -> (r: Result<u32, StoreError>)
        ensures
            r == spec_size(self@.index),
    {
        let n = self.index.len();
        if n % 64 == 0 && n / 64 <= 0xffff_ffff {
            Result::Ok((n / 64) as u32)
        } else {
            Result::Err(StoreError::FormatError)
        }
    }

    /// Appends one revision holding `content` and returns its freshly
    /// computed record. On any failure the revlog is unchanged.
    pub fn add_revision(&mut self, content: &[u8]) -> (r: Result<Record, StoreError>)
        requires
            content@.len() <= 0xffff_ffff,
        ensures
            match r {
                Result::Ok(rec) => {
                    &&& can_append(old(self)@.index)
                    &&& rec@ == next_record_v(old(self)@.index, content@)
                    &&& rec@.wf()
                    &&& final(self)@.index == append_index(old(self)@.index, content@)
                    &&& final(self)@.data == old(self)@.data + content@
                },
                Result::Err(e) => {
                    &&& !can_append(old(self)@.index)
                    &&& e == StoreError::FormatError
                    &&& final(self)@.index == old(self)@.index
                    &&& final(self)@.data == old(self)@.data
                },
            },
    {
        let n = match self.size() {
            Result::Ok(v) => v,
            Result::Err(e) => {
                return Result::Err(e);
            },
        };
        let clen = content.len();
        let record = if n == 0 {
            let parent = vec![0u8; 20];
            proof {
                assert(parent@ =~= zero_hash());
            }
            let hash = compute_chain_hash(parent.as_slice(), content);
            let rec = Record {
                hunk_offset: 0,
                hunk_length: clen as u32,
                uncompressed_length: clen as u32,
                base_revision: 0,
                link_revision: 0,
                parent1_revision: Option::None,
                parent2_revision: Option::None,
                hash,
                padding: vec![0u8; 12],
            };
            proof {
                assert(rec@.padding =~= zero_pad());
                assert(rec@ == next_record_v(old(self)@.index, content@));
            }
            rec
        } else {
            if n == NULLID_REVISION {
                return Result::Err(StoreError::FormatError);
            }
            let prev = match self.get_record(n - 1) {
                Result::Ok(p) => p,
                Result::Err(_) => {
                    proof {
                        assert(false);
                    }
                    return Result::Err(StoreError::FormatError);
                },
            };
            let offset = match prev.hunk_offset.checked_add(prev.hunk_length as u64) {
                Option::Some(v) => v,
                Option::None => {
                    return Result::Err(StoreError::FormatError);
                },
            };
            let hash = compute_chain_hash(prev.hash.as_slice(), content);
            let rec = Record {
                hunk_offset: offset,
                hunk_length: clen as u32,
                uncompressed_length: clen as u32,
                base_revision: n,
                link_revision: 0,
                parent1_revision: Option::Some(n - 1),
                parent2_revision: Option::None,
                hash,
                padding: vec![0u8; 12],
            };
            proof {
                assert(rec@.padding =~= zero_pad());
                assert(rec@ == next_record_v(old(self)@.index, content@));
            }
            rec
        };
        let mut enc = encode_record(&record);
        self.index.append(&mut enc);
        self.data.extend_from_slice(content);
        Result::Ok(record)
    }

    /// Reads the record of revision `rev`. The sentinel revision yields the
    /// all-default record, so parent lookups never need a special case.
    pub fn get_record(&self, rev: u32) -> (r: Result<Record, StoreError>)
        ensures
            ({
                let s = spec_get_record(self@.index, rev);
                match r {
                    Result::Ok(rec) => s matches Result::Ok(rv) && rec@ == rv && rec@.wf(),
                    Result::Err(e) => s matches Result::Err(e2) && e == e2,
                }
            }),
    {
        if rev == NULLID_REVISION {
            return Result::Ok(Record::default());
        }
        let n = match self.size() {
            Result::Ok(v) => v,
            Result::Err(e) => {
                return Result::Err(e);
            },
        };
        if rev >= n {
            return Result::Err(StoreError::OutOfRange);
        }
        let len = self.index.len();
        proof {
            assert(64 * num_revs(self@.index) <= len);
            assert(64 * (rev as int) + 64 <= 64 * num_revs(self@.index));
        }
        let start = (rev as usize) * 64;
        Result::Ok(decode_record(self.index.as_slice(), start))
    }

    /// Reads the raw bytes of revision `rev`'s hunk from the data stream.
    pub fn get_hunk(&self, rev: u32) -> (r: Result<Vec<u8>, StoreError>)
        ensures
            ({
                let s = spec_get_hunk(self@, rev);
                match r {
                    Result::Ok(h) => s matches Result::Ok(b) && h@ == b,
                    Result::Err(e) => s matches Result::Err(e2) && e == e2,
                }
            }),
    {
        let record = match self.get_record(rev) {
            Result::Ok(rec) => rec,
            Result::Err(e) => {
                return Result::Err(e);
            },
        };
        let dlen = self.data.len();
        if record.hunk_offset > dlen as u64 || record.hunk_length as u64 > dlen as u64
            - record.hunk_offset {
            return Result::Err(StoreError::IoError);
        }
        let start = record.hunk_offset as usize;
        let end = start + record.hunk_length as usize;
        Result::Ok(slice_to_vec(slice_subrange(self.data.as_slice(), start, end)))
    }

    /// Reads the newest revision's hunk; `EmptyLog` when the revlog has no
    /// revisions yet.
    pub fn get_last_hunk(&self) -> (r: Result<Vec<u8>, StoreError>)
        ensures
            ({
                let s = spec_get_last_hunk(self@);
                match r {
                    Result::Ok(h) => s matches Result::Ok(b) && h@ == b,
                    Result::Err(e) => s matches Result::Err(e2) && e == e2,
                }
            }),
    {
        let n = match self.size() {
            Result::Ok(v) => v,
            Result::Err(e) => {
                return Result::Err(e);
            },
        };
        if n == 0 {
            return Result::Err(StoreError::EmptyLog);
        }
        self.get_hunk(n - 1)
    }
}

/// Appending one revision grows the revision count by exactly one, stores
/// the new record after all existing ones, and leaves every existing record
/// unchanged.
pub proof fn lemma_append_one(index: Seq<u8>, content: Seq<u8>)
    requires
        log_wf(index),
        content.len() <= 0xffff_ffff,
    ensures
        ({
            let j = append_index(index, content);
            &&& j.len() == index.len() + 64
            &&& num_revs(j) == num_revs(index) + 1
            &&& (num_revs(index) < 0xffff_ffff ==> log_wf(j))
            &&& rec_at(j, num_revs(index)) == next_record_v(index, content)
            &&& forall|i: int| 0 <= i < num_revs(index) ==> rec_at(j, i) == rec_at(index, i)
        }),
{
    let rv = next_record_v(index, content);
    assert(rv.wf());
    lemma_record_roundtrip(rv);
    let j = append_index(index, content);
    assert(64 * num_revs(index) == index.len());
    assert(j.subrange(64 * num_revs(index), 64 * num_revs(index) + 64) =~= rv.to_bytes());
    assert forall|i: int| 0 <= i < num_revs(index) implies rec_at(j, i) == rec_at(index, i) by {
        assert(j.subrange(64 * i, 64 * i + 64) =~= index.subrange(64 * i, 64 * i + 64));
    }
}

/// Law: appending contents `c0` then `c1` to an empty revlog gives a log of
/// one and then two revisions, whose first record sits at offset 0 with no
/// parent, and whose second record sits directly after the first hunk with
/// the first revision as its parent.
pub proof fn lemma_two_appends_from_empty(c0: Seq<u8>, c1: Seq<u8>)
    requires
        0 < c0.len() <= 0xffff_ffff,
        0 < c1.len() <= 0xffff_ffff,
    ensures
        ({
            let i1 = append_index(Seq::<u8>::empty(), c0);
            let i2 = append_index(i1, c1);
            &&& num_revs(i1) == 1
            &&& num_revs(i2) == 2
            &&& rec_at(i2, 0).hunk_offset == 0
            &&& rec_at(i2, 0).hunk_length == c0.len()
            &&& rec_at(i2, 0).parent1_revision == Option::<u32>::None
            &&& rec_at(i2, 1).hunk_offset == c0.len()
            &&& rec_at(i2, 1).hunk_length == c1.len()
            &&& rec_at(i2, 1).parent1_revision == Option::Some(0u32)
        }),
{
    let e = Seq::<u8>::empty();
    lemma_append_one(e, c0);
    let i1 = append_index(e, c0);
    lemma_append_one(i1, c1);
}

/// Law: hash determinism. The record created by appending content to a
/// freshly created (empty) revlog is a function of the content alone: two
/// empty revlogs handed the same content produce identical records, whatever
/// their data streams hold.
pub proof fn lemma_fresh_append_deterministic(log1: RevLogV, log2: RevLogV, content: Seq<u8>)
    requires
        log_wf(log1.index),
        log_wf(log2.index),
        num_revs(log1.index) == 0,
        num_revs(log2.index) == 0,
    ensures
        next_record_v(log1.index, content) == next_record_v(log2.index, content),
{
    assert(log1.index =~= Seq::<u8>::empty());
    assert(log2.index =~= Seq::<u8>::empty());
}

} // verus!
