use vstd::prelude::*;
use vstd::bytes::*;
use vstd::slice::*;

use crate::digest::zero_hash;
use crate::NULLID_REVISION;

verus! {

/// The fixed 64-byte binary descriptor of one revision's placement and
/// lineage in a revlog: where its hunk lies in the data stream, which
/// revisions it descends from, and its content hash.
#[derive(Debug, PartialEq, Eq)]
pub struct Record {
    pub hunk_offset: u64,
    pub hunk_length: u32,
    pub uncompressed_length: u32,
    pub base_revision: u32,
    pub link_revision: u32,
    pub parent1_revision: Option<u32>,
    pub parent2_revision: Option<u32>,
    pub hash: Vec<u8>,
    pub padding: Vec<u8>,
}

/// The mathematical model of a `Record`.
pub struct RecordV {
    pub hunk_offset: u64,
    pub hunk_length: u32,
    pub uncompressed_length: u32,
    pub base_revision: u32,
    pub link_revision: u32,
    pub parent1_revision: Option<u32>,
    pub parent2_revision: Option<u32>,
    pub hash: Seq<u8>,
    pub padding: Seq<u8>,
}

impl View for Record {
    type V = RecordV;

    open spec fn view(&self) -> RecordV {
        RecordV {
            hunk_offset: self.hunk_offset,
            hunk_length: self.hunk_length,
            uncompressed_length: self.uncompressed_length,
            base_revision: self.base_revision,
            link_revision: self.link_revision,
            parent1_revision: self.parent1_revision,
            parent2_revision: self.parent2_revision,
            hash: self.hash@,
            padding: self.padding@,
        }
    }
}

/// The 12 zero bytes that pad a record to exactly 64 bytes.
pub open spec fn zero_pad() -> Seq<u8> {
    Seq::new(12, |i: int| 0u8)
}

/// An absent parent is stored on disk as the sentinel revision number.
pub open spec fn rev_to_wire(p: Option<u32>) -> u32 {
    match p {
        Option::None => NULLID_REVISION,
        Option::Some(v) => v,
    }
}

/// The sentinel revision number decodes to an absent parent.
pub open spec fn rev_from_wire(v: u32) -> Option<u32> {
    if v == NULLID_REVISION {
        Option::None
    } else {
        Option::Some(v)
    }
}

impl RecordV {
    /// A record is well formed when its hash is 20 bytes, its padding is 12
    /// bytes, and no parent field holds the sentinel as a present value.
    pub open spec fn wf(self) -> bool {
        &&& self.hash.len() == 20
        &&& self.padding.len() == 12
        &&& self.parent1_revision != Option::Some(NULLID_REVISION)
        &&& self.parent2_revision != Option::Some(NULLID_REVISION)
    }

    /// The record every field of which is zero or absent; it stands in for
    /// the record of the sentinel "no parent" revision.
    pub open spec fn default_v() -> RecordV {
        RecordV {
            hunk_offset: 0,
            hunk_length: 0,
            uncompressed_length: 0,
            base_revision: 0,
            link_revision: 0,
            parent1_revision: Option::None,
            parent2_revision: Option::None,
            hash: zero_hash(),
            padding: zero_pad(),
        }
    }

    /// The 64-byte wire encoding of a record: little-endian fixed-width
    /// fields in declaration order, then the raw hash and padding bytes.
    pub open spec fn to_bytes(self) -> Seq<u8> {
        spec_u64_to_le_bytes(self.hunk_offset) + spec_u32_to_le_bytes(self.hunk_length)
            + spec_u32_to_le_bytes(self.uncompressed_length)
            + spec_u32_to_le_bytes(self.base_revision) + spec_u32_to_le_bytes(self.link_revision)
            + spec_u32_to_le_bytes(rev_to_wire(self.parent1_revision))
            + spec_u32_to_le_bytes(rev_to_wire(self.parent2_revision)) + self.hash + self.padding
    }

    /// The record described by a 64-byte slice of the index stream.
    pub open spec fn from_bytes(s: Seq<u8>) -> RecordV
        recommends
            s.len() == 64,
    {
        RecordV {
            hunk_offset: spec_u64_from_le_bytes(s.subrange(0, 8)),
            hunk_length: spec_u32_from_le_bytes(s.subrange(8, 12)),
            uncompressed_length: spec_u32_from_le_bytes(s.subrange(12, 16)),
            base_revision: spec_u32_from_le_bytes(s.subrange(16, 20)),
            link_revision: spec_u32_from_le_bytes(s.subrange(20, 24)),
            parent1_revision: rev_from_wire(spec_u32_from_le_bytes(s.subrange(24, 28))),
            parent2_revision: rev_from_wire(spec_u32_from_le_bytes(s.subrange(28, 32))),
            hash: s.subrange(32, 52),
            padding: s.subrange(52, 64),
        }
    }
}

/// A well-formed record encodes to exactly 64 bytes.
pub proof fn lemma_record_bytes_len(rv: RecordV)
    requires
        rv.wf(),
    ensures
        rv.to_bytes().len() == 64,
{
    lemma_auto_spec_u64_to_from_le_bytes();
    lemma_auto_spec_u32_to_from_le_bytes();
}

/// Law: decoding the encoding of a well-formed record gives the record back.
pub proof fn lemma_record_roundtrip(rv: RecordV)
    requires
        rv.wf(),
    ensures
        rv.to_bytes().len() == 64,
        RecordV::from_bytes(rv.to_bytes()) == rv,
{
    lemma_auto_spec_u64_to_from_le_bytes();
    lemma_auto_spec_u32_to_from_le_bytes();
    let s = rv.to_bytes();
    assert(s.subrange(0, 8) =~= spec_u64_to_le_bytes(rv.hunk_offset));
    assert(s.subrange(8, 12) =~= spec_u32_to_le_bytes(rv.hunk_length));
    assert(s.subrange(12, 16) =~= spec_u32_to_le_bytes(rv.uncompressed_length));
    assert(s.subrange(16, 20) =~= spec_u32_to_le_bytes(rv.base_revision));
    assert(s.subrange(20, 24) =~= spec_u32_to_le_bytes(rv.link_revision));
    assert(s.subrange(24, 28) =~= spec_u32_to_le_bytes(rev_to_wire(rv.parent1_revision)));
    assert(s.subrange(28, 32) =~= spec_u32_to_le_bytes(rev_to_wire(rv.parent2_revision)));
    assert(s.subrange(32, 52) =~= rv.hash);
    assert(s.subrange(52, 64) =~= rv.padding);
}

impl Default for Record {
    /// The all-default record: zero offsets and lengths, no parents, a zero
    /// hash, zero padding.
    fn default() -> (r: Record)
        ensures
            r@ == RecordV::default_v(),
            r@.wf(),
    {
        let r = Record {
            hunk_offset: 0,
            hunk_length: 0,
            uncompressed_length: 0,
            base_revision: 0,
            link_revision: 0,
            parent1_revision: Option::None,
            parent2_revision: Option::None,
            hash: vec![0u8; 20],
            padding: vec![0u8; 12],
        };
        proof {
            assert(r.hash@ =~= zero_hash());
            assert(r.padding@ =~= zero_pad());
        }
        r
    }
}

/// Encodes a record into its 64-byte wire form.
pub fn encode_record(r: &Record) -> (out: Vec<u8>)
    requires
        r@.wf(),
    ensures
        out@ == r@.to_bytes(),
        out@.len() == 64,
{
    let mut out: Vec<u8> = Vec::new();
    let mut field = u64_to_le_bytes(r.hunk_offset);
    out.append(&mut field);
    let mut field = u32_to_le_bytes(r.hunk_length);
    out.append(&mut field);
    let mut field = u32_to_le_bytes(r.uncompressed_length);
    out.append(&mut field);
    let mut field = u32_to_le_bytes(r.base_revision);
    out.append(&mut field);
    let mut field = u32_to_le_bytes(r.link_revision);
    out.append(&mut field);
    let p1 = match r.parent1_revision {
        Option::Some(v) => v,
        Option::None => NULLID_REVISION,
    };
    let mut field = u32_to_le_bytes(p1);
    out.append(&mut field);
    let p2 = match r.parent2_revision {
        Option::Some(v) => v,
        Option::None => NULLID_REVISION,
    };
    let mut field = u32_to_le_bytes(p2);
    out.append(&mut field);
    out.extend_from_slice(r.hash.as_slice());
    out.extend_from_slice(r.padding.as_slice());
    proof {
        assert(out@ =~= r@.to_bytes());
        lemma_record_bytes_len(r@);
    }
    out
}

/// Decodes the 64-byte record that starts at `start` in an index stream.
pub fn decode_record(bytes: &[u8], start: usize) -> (r: Record)
    requires
        start + 64 <= bytes@.len(),
    ensures
        r@ == RecordV::from_bytes(bytes@.subrange(start as int, start as int + 64)),
        r@.wf(),
{
    let len = bytes.len();
    let s = slice_subrange(bytes, start, start + 64);
    let p1_wire = u32_from_le_bytes(slice_subrange(s, 24, 28));
    let p2_wire = u32_from_le_bytes(slice_subrange(s, 28, 32));
    let r = Record {
        hunk_offset: u64_from_le_bytes(slice_subrange(s, 0, 8)),
        hunk_length: u32_from_le_bytes(slice_subrange(s, 8, 12)),
        uncompressed_length: u32_from_le_bytes(slice_subrange(s, 12, 16)),
        base_revision: u32_from_le_bytes(slice_subrange(s, 16, 20)),
        link_revision: u32_from_le_bytes(slice_subrange(s, 20, 24)),
        parent1_revision: if p1_wire == NULLID_REVISION {
            Option::None
        } else {
            Option::Some(p1_wire)
        },
        parent2_revision: if p2_wire == NULLID_REVISION {
            Option::None
        } else {
            Option::Some(p2_wire)
        },
        hash: slice_to_vec(slice_subrange(s, 32, 52)),
        padding: slice_to_vec(slice_subrange(s, 52, 64)),
    };
    r
}

/// The payload kinds a revision can store. Delta storage is a reserved,
/// unimplemented variant: every revision is stored as a full snapshot.
#[derive(Debug, PartialEq, Eq)]
pub enum Hunk {
    Snapshot(Vec<u8>),
    Delta,
}

} // verus!
