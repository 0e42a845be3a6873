use vstd::prelude::*;
use vstd::bytes::*;

use crate::codec::{bytes_eq, lp_bytes, push_lp, push_u64, read_lp, read_u64, read_vec};
use crate::errors::StoreError;

verus! {

/// One manifest line: a repository-relative path and the 20-byte content
/// hash of the latest revision of that path's own revlog.
#[derive(Debug, PartialEq, Eq)]
pub struct ManifestEntry {
    pub path: Vec<u8>,
    pub hash: Vec<u8>,
}

/// The mathematical model of a manifest entry.
pub struct ManifestEntryV {
    pub path: Seq<u8>,
    pub hash: Seq<u8>,
}

impl View for ManifestEntry {
    type V = ManifestEntryV;

    open spec fn view(&self) -> ManifestEntryV {
        ManifestEntryV { path: self.path@, hash: self.hash@ }
    }
}

impl ManifestEntryV {
    /// An entry is well formed when its hash is 20 bytes and its path fits
    /// the length prefix.
    pub open spec fn wf(self) -> bool {
        &&& self.hash.len() == 20
        &&& self.path.len() <= u64::MAX
    }
}

/// A mapping from repository-relative path to content hash: the payload of
/// exactly one manifest-revlog revision. Lookups go by the first entry
/// holding the path; the entries a commit builds keep paths unique.
#[derive(Debug, Default, PartialEq, Eq)]
pub struct Manifest {
    pub entries: Vec<ManifestEntry>,
}

impl View for Manifest {
    type V = Seq<ManifestEntryV>;

    open spec fn view(&self) -> Seq<ManifestEntryV> {
        self.entries@.map_values(|e: ManifestEntry| e@)
    }
}

/// Every entry is well formed and the count fits the wire prefix.
pub open spec fn wf_entries(es: Seq<ManifestEntryV>) -> bool {
    &&& es.len() <= u64::MAX
    &&& forall|i: int| 0 <= i < es.len() ==> (#[trigger] es[i]).wf()
}

/// Whether some entry holds `path`.
pub open spec fn contains_path(es: Seq<ManifestEntryV>, path: Seq<u8>) -> bool {
    exists|i: int| 0 <= i < es.len() && (#[trigger] es[i]).path == path
}

/// No two entries hold the same path: the invariant of every manifest this
/// library builds, starting empty and growing only by `insert`. A decoded
/// payload is taken as it stands; lookups go by the first entry either way.
pub open spec fn unique_paths(es: Seq<ManifestEntryV>) -> bool {
    forall|i: int, j: int|
        0 <= i < j < es.len() ==> (#[trigger] es[i]).path != (#[trigger] es[j]).path
}

/// The wire form of one entry: the length-prefixed path, then the 20 hash
/// bytes.
pub open spec fn entry_bytes(e: ManifestEntryV) -> Seq<u8> {
    lp_bytes(e.path) + e.hash
}

/// The wire form of a run of entries, in order.
pub open spec fn entries_bytes(es: Seq<ManifestEntryV>) -> Seq<u8>
    decreases es.len(),
{
    if es.len() == 0 {
        Seq::empty()
    } else {
        entry_bytes(es[0]) + entries_bytes(es.drop_first())
    }
}

/// The wire form of a manifest: the entry count as eight little-endian
/// bytes, then the entries.
pub open spec fn manifest_bytes(es: Seq<ManifestEntryV>) -> Seq<u8> {
    spec_u64_to_le_bytes(es.len() as u64) + entries_bytes(es)
}

/// Decodes exactly `n` entries from `s`; trailing bytes are malformed.
pub open spec fn decode_entries(s: Seq<u8>, n: nat) -> Option<Seq<ManifestEntryV>>
    decreases n,
{
    if n == 0 {
        if s.len() == 0 {
            Option::Some(Seq::<ManifestEntryV>::empty())
        } else {
            Option::None
        }
    } else if s.len() < 8 {
        Option::None
    } else {
        let plen = spec_u64_from_le_bytes(s.subrange(0, 8)) as int;
        if s.len() < 8 + plen + 20 {
            Option::None
        } else {
            let e = ManifestEntryV {
                path: s.subrange(8, 8 + plen),
                hash: s.subrange(8 + plen, 8 + plen + 20),
            };
            match decode_entries(s.skip(8 + plen + 20), (n - 1) as nat) {
                Option::Some(rest) => Option::Some(seq![e] + rest),
                Option::None => Option::None,
            }
        }
    }
}

/// What decoding a manifest payload gives: the entries, or nothing for a
/// truncated or malformed buffer.
pub open spec fn spec_decode_manifest(s: Seq<u8>) -> Option<Seq<ManifestEntryV>> {
    if s.len() < 8 {
        Option::None
    } else {
        decode_entries(s.skip(8), spec_u64_from_le_bytes(s.subrange(0, 8)) as nat)
    }
}

/// Encoding distributes over appending one entry at the end.
proof fn lemma_entries_bytes_snoc(es: Seq<ManifestEntryV>, e: ManifestEntryV)
    ensures
        entries_bytes(es.push(e)) == entries_bytes(es) + entry_bytes(e),
    decreases es.len(),
{
    if es.len() == 0 {
        let p = es.push(e);
        assert(p[0] == e);
        assert(p.drop_first() =~= Seq::<ManifestEntryV>::empty());
        assert(entries_bytes(p) == entry_bytes(p[0]) + entries_bytes(p.drop_first()));
        assert(entries_bytes(Seq::<ManifestEntryV>::empty()) == Seq::<u8>::empty());
        assert(entries_bytes(p) =~= entries_bytes(es) + entry_bytes(e));
    } else {
        assert(es.push(e)[0] == es[0]);
        assert(es.push(e).drop_first() =~= es.drop_first().push(e));
        lemma_entries_bytes_snoc(es.drop_first(), e);
        assert(entries_bytes(es.push(e)) =~= entries_bytes(es) + entry_bytes(e));
    }
}

/// Decoding the encoding of a run of well-formed entries gives it back.
proof fn lemma_entries_roundtrip(es: Seq<ManifestEntryV>)
    requires
        forall|i: int| 0 <= i < es.len() ==> (#[trigger] es[i]).wf(),
    ensures
        decode_entries(entries_bytes(es), es.len() as nat) == Option::Some(es),
    decreases es.len(),
{
    lemma_auto_spec_u64_to_from_le_bytes();
    if es.len() == 0 {
    } else {
        let e = es[0];
        let rest = es.drop_first();
        let b = entries_bytes(es);
        let plen = e.path.len() as int;
        assert(b.subrange(0, 8) =~= spec_u64_to_le_bytes(e.path.len() as u64));
        assert(b.subrange(8, 8 + plen) =~= e.path);
        assert(b.subrange(8 + plen, 8 + plen + 20) =~= e.hash);
        assert(b.skip(8 + plen + 20) =~= entries_bytes(rest));
        assert(forall|i: int| 0 <= i < rest.len() ==> (#[trigger] rest[i]).wf());
        lemma_entries_roundtrip(rest);
        assert(seq![e] + rest =~= es);
    }
}

/// Law: decoding the encoding of a well-formed manifest gives it back.
pub proof fn lemma_manifest_roundtrip(es: Seq<ManifestEntryV>)
    requires
        wf_entries(es),
    ensures
        spec_decode_manifest(manifest_bytes(es)) == Option::Some(es),
{
    lemma_auto_spec_u64_to_from_le_bytes();
    let b = manifest_bytes(es);
    assert(b.subrange(0, 8) =~= spec_u64_to_le_bytes(es.len() as u64));
    assert(b.skip(8) =~= entries_bytes(es));
    lemma_entries_roundtrip(es);
}

/// The entries left by replacing the first entry holding `path`, or by
/// appending a new entry when no entry holds it.
pub open spec fn spec_insert(
    es: Seq<ManifestEntryV>,
    path: Seq<u8>,
    hash: Seq<u8>,
) -> Seq<ManifestEntryV>
    decreases es.len(),
{
    if es.len() == 0 {
        seq![ManifestEntryV { path, hash }]
    } else if es[0].path == path {
        seq![ManifestEntryV { path, hash }] + es.drop_first()
    } else {
        seq![es[0]] + spec_insert(es.drop_first(), path, hash)
    }
}

/// Splices decoded entries onto an already-decoded prefix.
spec fn decode_join(
    prefix: Seq<ManifestEntryV>,
    s: Seq<u8>,
    n: nat,
) -> Option<Seq<ManifestEntryV>> {
    match decode_entries(s, n) {
        Option::Some(rest) => Option::Some(prefix + rest),
        Option::None => Option::None,
    }
}

impl Manifest {
    /// A manifest is well formed when every entry is.
    pub open spec fn wf(self) -> bool {
        wf_entries(self@)
    }

    /// Creates an empty manifest.
    pub fn new() -> (r: Manifest)
        ensures
            r@ == Seq::<ManifestEntryV>::empty(),
            r.wf(),
            unique_paths(r@),
    {
        Manifest { entries: Vec::new() }
    }

    /// Index of the first entry holding `path`, if any.
    pub fn find(&self, path: &Vec<u8>) -> (r: Option<usize>)
        ensures
            match r {
                Option::Some(i) => {
                    &&& 0 <= i < self@.len()
                    &&& self@[i as int].path == path@
                    &&& forall|j: int| 0 <= j < i ==> (#[trigger] self@[j]).path != path@
                },
                Option::None => forall|j: int|
                    0 <= j < self@.len() ==> (#[trigger] self@[j]).path != path@,
            },
    {
        let n = self.entries.len();
        let mut i: usize = 0;
        while i < n
            invariant
                i <= n,
                n == self.entries.len(),
                forall|j: int| 0 <= j < i ==> (#[trigger] self@[j]).path != path@,
            decreases n - i,
        {
            if bytes_eq(&self.entries[i].path, path) {
                return Option::Some(i);
            }
            i += 1;
        }
        Option::None
    }

    /// The hash recorded for `path`: the first entry's, if the manifest
    /// tracks the path at all.
    pub fn get(&self, path: &Vec<u8>) -> (r: Option<&Vec<u8>>)
        ensures
            match r {
                Option::Some(h) => exists|i: int|
                    0 <= i < self@.len() && (#[trigger] self@[i]).path == path@ && h@
                        == self@[i].hash && (forall|j: int|
                        0 <= j < i ==> (#[trigger] self@[j]).path != path@),
                Option::None => forall|j: int|
                    0 <= j < self@.len() ==> (#[trigger] self@[j]).path != path@,
            },
    {
        match self.find(path) {
            Option::Some(i) => Option::Some(&self.entries[i].hash),
            Option::None => Option::None,
        }
    }

    /// Records `hash` for `path`: replaces the first entry holding the path,
    /// or appends a new entry when the path is untracked.
    pub fn insert(&mut self, path: Vec<u8>, hash: Vec<u8>)
        requires
            hash@.len() == 20,
            path@.len() <= u64::MAX,
            old(self)@.len() < u64::MAX,
        ensures
            final(self)@ == spec_insert(old(self)@, path@, hash@),
            old(self).wf() ==> final(self).wf(),
            unique_paths(old(self)@) ==> unique_paths(final(self)@),
    {
        let ghost old_es = self@;
        proof {
            if unique_paths(old_es) {
                lemma_spec_insert_unique(old_es, path@, hash@);
            }
        }
        match self.find(&path) {
            Option::Some(i) => {
                self.entries.set(i, ManifestEntry { path, hash });
                proof {
                    lemma_spec_insert_at_first(old_es, path@, hash@, i as int);
                    assert(self@ =~= old_es.update(
                        i as int,
                        ManifestEntryV { path: path@, hash: hash@ },
                    ));
                }
            },
            Option::None => {
                self.entries.push(ManifestEntry { path, hash });
                proof {
                    lemma_spec_insert_absent(old_es, path@, hash@);
                    assert(self@ =~= old_es.push(ManifestEntryV { path: path@, hash: hash@ }));
                }
            },
        }
        proof {
            lemma_spec_insert_wf(old_es, path@, hash@);
        }
    }

    /// Serializes the manifest into its deterministic binary payload.
    pub fn encode(&self) -> (out: Vec<u8>)
        ensures
            out@ == manifest_bytes(self@),
    {
        let mut out: Vec<u8> = Vec::new();
        push_u64(&mut out, self.entries.len() as u64);
        let n = self.entries.len();
        let mut i: usize = 0;
        while i < n
            invariant
                i <= n,
                n == self.entries.len(),
                out@ == spec_u64_to_le_bytes(self@.len() as u64) + entries_bytes(
                    self@.take(i as int),
                ),
            decreases n - i,
        {
            push_lp(&mut out, &self.entries[i].path);
            out.extend_from_slice(self.entries[i].hash.as_slice());
            proof {
                assert(self@.take(i + 1) =~= self@.take(i as int).push(self@[i as int]));
                lemma_entries_bytes_snoc(self@.take(i as int), self@[i as int]);
                assert(out@ =~= spec_u64_to_le_bytes(self@.len() as u64) + entries_bytes(
                    self@.take(i + 1),
                ));
            }
            i += 1;
        }
        proof {
            assert(self@.take(n as int) =~= self@);
        }
        out
    }

    /// Deserializes a manifest payload, rejecting truncated or malformed
    /// buffers.
    pub fn decode(bytes: &Vec<u8>) -> (r: Result<Manifest, StoreError>)
        ensures
            match r {
                Result::Ok(m) => spec_decode_manifest(bytes@) == Option::Some(m@),
                Result::Err(e) => {
                    &&& spec_decode_manifest(bytes@) == Option::<Seq<ManifestEntryV>>::None
                    &&& e == StoreError::FormatError
                },
            },
    {
        let s = bytes.as_slice();
        let mut pos: usize = 0;
        let count = match read_u64(s, &mut pos) {
            Result::Ok(v) => v,
            Result::Err(e) => {
                return Result::Err(e);
            },
        };
        let mut entries: Vec<ManifestEntry> = Vec::new();
        let mut i: u64 = 0;
        proof {
            match decode_entries(bytes@.skip(8), count as nat) {
                Option::Some(rest) => {
                    assert(Seq::<ManifestEntryV>::empty() + rest =~= rest);
                },
                Option::None => {},
            }
        }
        while i < count
            invariant
                i <= count,
                8 <= pos <= bytes@.len(),
                s@ == bytes@,
                count == spec_u64_from_le_bytes(bytes@.subrange(0, 8)),
                entries@.len() == i,
                decode_entries(bytes@.skip(8), count as nat) == decode_join(
                    entries@.map_values(|e: ManifestEntry| e@),
                    bytes@.skip(pos as int),
                    (count - i) as nat,
                ),
            decreases count - i,
        {
            let ghost prefix = entries@.map_values(|e: ManifestEntry| e@);
            let ghost old_pos = pos as int;
            let ghost s_rem = bytes@.skip(old_pos);
            let path = match read_lp(s, &mut pos) {
                Result::Ok(v) => v,
                Result::Err(e) => {
                    proof {
                        assert(s_rem.len() == bytes@.len() - old_pos);
                        if bytes@.len() < old_pos + 8 {
                            assert(s_rem.len() < 8);
                        } else {
                            assert(s_rem.subrange(0, 8) =~= bytes@.subrange(
                                old_pos,
                                old_pos + 8,
                            ));
                            assert(s_rem.len() < 8 + spec_u64_from_le_bytes(
                                s_rem.subrange(0, 8),
                            ) + 20);
                        }
                        assert(decode_entries(s_rem, (count - i) as nat) is None);
                    }
                    return Result::Err(e);
                },
            };
            let hash = match read_vec(s, &mut pos, 20) {
                Result::Ok(v) => v,
                Result::Err(e) => {
                    proof {
                        assert(s_rem.subrange(0, 8) =~= bytes@.subrange(old_pos, old_pos + 8));
                        assert(decode_entries(s_rem, (count - i) as nat) is None);
                    }
                    return Result::Err(e);
                },
            };
            proof {
                let plen = path@.len() as int;
                assert(s_rem.subrange(0, 8) =~= bytes@.subrange(old_pos, old_pos + 8));
                assert(s_rem.subrange(8, 8 + plen) =~= path@);
                assert(s_rem.subrange(8 + plen, 8 + plen + 20) =~= hash@);
                assert(s_rem.skip(8 + plen + 20) =~= bytes@.skip(old_pos + 8 + plen + 20));
            }
            entries.push(ManifestEntry { path, hash });
            proof {
                let e_v = entries@[entries@.len() - 1]@;
                assert(entries@.map_values(|e: ManifestEntry| e@) =~= prefix.push(e_v));
                match decode_entries(bytes@.skip(pos as int), (count - i - 1) as nat) {
                    Option::Some(rest) => {
                        assert(prefix + (seq![e_v] + rest) =~= prefix.push(e_v) + rest);
                    },
                    Option::None => {},
                }
            }
            i += 1;
        }
        if pos != bytes.len() {
            proof {
                assert(bytes@.skip(pos as int).len() != 0);
            }
            return Result::Err(StoreError::FormatError);
        }
        proof {
            assert(bytes@.skip(pos as int).len() == 0);
            let prefix = entries@.map_values(|e: ManifestEntry| e@);
            match decode_entries(bytes@.skip(pos as int), 0) {
                Option::Some(rest) => {
                    assert(prefix + rest =~= prefix);
                },
                Option::None => {},
            }
        }
        Result::Ok(Manifest { entries })
    }
}

/// Replacing the first entry holding a path is an update at its index.
proof fn lemma_spec_insert_at_first(
    es: Seq<ManifestEntryV>,
    path: Seq<u8>,
    hash: Seq<u8>,
    i: int,
)
    requires
        0 <= i < es.len(),
        es[i].path == path,
        forall|j: int| 0 <= j < i ==> (#[trigger] es[j]).path != path,
    ensures
        spec_insert(es, path, hash) == es.update(i, ManifestEntryV { path, hash }),
    decreases es.len(),
{
    if i == 0 {
        assert(spec_insert(es, path, hash) =~= es.update(0, ManifestEntryV { path, hash }));
    } else {
        assert(forall|j: int|
            0 <= j < i - 1 ==> (#[trigger] es.drop_first()[j]).path != path);
        lemma_spec_insert_at_first(es.drop_first(), path, hash, i - 1);
        assert(spec_insert(es, path, hash) =~= es.update(i, ManifestEntryV { path, hash }));
    }
}

/// Inserting an untracked path appends its entry.
proof fn lemma_spec_insert_absent(es: Seq<ManifestEntryV>, path: Seq<u8>, hash: Seq<u8>)
    requires
        forall|j: int| 0 <= j < es.len() ==> (#[trigger] es[j]).path != path,
    ensures
        spec_insert(es, path, hash) == es.push(ManifestEntryV { path, hash }),
    decreases es.len(),
{
    if es.len() == 0 {
        assert(spec_insert(es, path, hash) =~= es.push(ManifestEntryV { path, hash }));
    } else {
        assert(forall|j: int|
            0 <= j < es.drop_first().len() ==> (#[trigger] es.drop_first()[j]).path != path);
        lemma_spec_insert_absent(es.drop_first(), path, hash);
        assert(spec_insert(es, path, hash) =~= es.push(ManifestEntryV { path, hash }));
    }
}

/// Whatever run of entries a buffer decodes to is well formed and has the
/// announced length.
proof fn lemma_decode_entries_wf(s: Seq<u8>, n: nat)
    ensures
        decode_entries(s, n) matches Option::Some(es) ==> es.len() == n && forall|i: int|
            0 <= i < es.len() ==> (#[trigger] es[i]).wf(),
    decreases n,
{
    if n == 0 {
    } else if s.len() < 8 {
    } else {
        let plen = spec_u64_from_le_bytes(s.subrange(0, 8)) as int;
        if s.len() < 8 + plen + 20 {
        } else {
            lemma_decode_entries_wf(s.skip(8 + plen + 20), (n - 1) as nat);
            match decode_entries(s.skip(8 + plen + 20), (n - 1) as nat) {
                Option::Some(rest) => {
                    let e = ManifestEntryV {
                        path: s.subrange(8, 8 + plen),
                        hash: s.subrange(8 + plen, 8 + plen + 20),
                    };
                    let es = seq![e] + rest;
                    assert forall|i: int| 0 <= i < es.len() implies (#[trigger] es[i]).wf() by {
                        if i == 0 {
                            assert(es[0] == e);
                        } else {
                            assert(es[i] == rest[i - 1]);
                        }
                    }
                },
                Option::None => {},
            }
        }
    }
}

/// Whatever a manifest payload decodes to is well formed.
pub proof fn lemma_decode_manifest_wf(s: Seq<u8>)
    ensures
        spec_decode_manifest(s) matches Option::Some(es) ==> wf_entries(es),
{
    if s.len() < 8 {
    } else {
        lemma_decode_entries_wf(s.skip(8), spec_u64_from_le_bytes(s.subrange(0, 8)) as nat);
    }
}

/// An insert leaves exactly the old paths and the inserted one.
proof fn lemma_spec_insert_paths(es: Seq<ManifestEntryV>, path: Seq<u8>, hash: Seq<u8>, q: Seq<u8>)
    ensures
        contains_path(spec_insert(es, path, hash), q) <==> (contains_path(es, q) || q == path),
    decreases es.len(),
{
    let ne = ManifestEntryV { path, hash };
    let r = spec_insert(es, path, hash);
    if es.len() == 0 {
        assert(r[0] == ne);
        if contains_path(es, q) {
            let i = choose|i: int| 0 <= i < es.len() && (#[trigger] es[i]).path == q;
            assert(false);
        }
    } else if es[0].path == path {
        assert(r[0] == ne);
        assert forall|i: int| 1 <= i < r.len() implies #[trigger] r[i] == es[i] by {
            assert(r[i] == es.drop_first()[i - 1]);
        }
        if contains_path(r, q) {
            let i = choose|i: int| 0 <= i < r.len() && (#[trigger] r[i]).path == q;
            if i == 0 {
            } else {
                assert(es[i].path == q);
            }
        }
        if contains_path(es, q) {
            let i = choose|i: int| 0 <= i < es.len() && (#[trigger] es[i]).path == q;
            if i == 0 {
                assert(r[0].path == q);
            } else {
                assert(r[i].path == q);
            }
        }
        if q == path {
            assert(r[0].path == q);
        }
    } else {
        lemma_spec_insert_paths(es.drop_first(), path, hash, q);
        let r2 = spec_insert(es.drop_first(), path, hash);
        assert(r[0] == es[0]);
        assert forall|i: int| 1 <= i < r.len() implies #[trigger] r[i] == r2[i - 1] by {}
        if contains_path(r, q) {
            let i = choose|i: int| 0 <= i < r.len() && (#[trigger] r[i]).path == q;
            if i == 0 {
                assert(es[0].path == q);
            } else {
                assert(contains_path(r2, q));
                if contains_path(es.drop_first(), q) {
                    let j = choose|j: int|
                        0 <= j < es.drop_first().len() && (#[trigger] es.drop_first()[j]).path
                            == q;
                    assert(es[j + 1].path == q);
                }
            }
        }
        if contains_path(es, q) {
            let i = choose|i: int| 0 <= i < es.len() && (#[trigger] es[i]).path == q;
            if i == 0 {
                assert(r[0].path == q);
            } else {
                assert(es.drop_first()[i - 1].path == q);
                assert(contains_path(es.drop_first(), q));
                let j = choose|j: int| 0 <= j < r2.len() && (#[trigger] r2[j]).path == q;
                assert(r[j + 1].path == q);
            }
        }
        if q == path {
            let j = choose|j: int| 0 <= j < r2.len() && (#[trigger] r2[j]).path == q;
            assert(r[j + 1].path == q);
        }
    }
}

/// Law: inserting into a manifest whose paths are unique keeps them unique.
pub proof fn lemma_spec_insert_unique(es: Seq<ManifestEntryV>, path: Seq<u8>, hash: Seq<u8>)
    requires
        unique_paths(es),
    ensures
        unique_paths(spec_insert(es, path, hash)),
    decreases es.len(),
{
    let ne = ManifestEntryV { path, hash };
    let r = spec_insert(es, path, hash);
    if es.len() == 0 {
        assert forall|i: int, j: int|
            0 <= i < j < r.len() implies (#[trigger] r[i]).path != (#[trigger] r[j]).path by {}
    } else if es[0].path == path {
        assert(r[0] == ne);
        assert forall|i: int, j: int|
            0 <= i < j < r.len() implies (#[trigger] r[i]).path != (#[trigger] r[j]).path by {
            if i == 0 {
                assert(r[j] == es.drop_first()[j - 1]);
                assert(r[j] == es[j]);
                assert(es[0].path != es[j].path);
            } else {
                assert(r[i] == es[i]);
                assert(r[j] == es[j]);
            }
        }
    } else {
        assert(unique_paths(es.drop_first())) by {
            assert forall|i: int, j: int|
                0 <= i < j < es.drop_first().len() implies (#[trigger] es.drop_first()[i]).path
                != (#[trigger] es.drop_first()[j]).path by {
                assert(es.drop_first()[i] == es[i + 1]);
                assert(es.drop_first()[j] == es[j + 1]);
            }
        }
        lemma_spec_insert_unique(es.drop_first(), path, hash);
        let r2 = spec_insert(es.drop_first(), path, hash);
        assert(!contains_path(r2, es[0].path)) by {
            lemma_spec_insert_paths(es.drop_first(), path, hash, es[0].path);
            if contains_path(es.drop_first(), es[0].path) {
                let p0 = es[0].path;
                let j = choose|j: int|
                    0 <= j < es.drop_first().len() && (#[trigger] es.drop_first()[j]).path == p0;
                assert(es[j + 1].path == es[0].path);
            }
        }
        assert forall|i: int, j: int|
            0 <= i < j < r.len() implies (#[trigger] r[i]).path != (#[trigger] r[j]).path by {
            if i == 0 {
                assert(r[j] == r2[j - 1]);
                if r2[j - 1].path == es[0].path {
                    assert(contains_path(r2, es[0].path));
                }
            } else {
                assert(r[i] == r2[i - 1]);
                assert(r[j] == r2[j - 1]);
            }
        }
    }
}

/// Inserting a well-formed entry keeps the entries well formed.
pub proof fn lemma_spec_insert_wf(es: Seq<ManifestEntryV>, path: Seq<u8>, hash: Seq<u8>)
    requires
        hash.len() == 20,
        path.len() <= u64::MAX,
        es.len() < u64::MAX,
    ensures
        spec_insert(es, path, hash).len() <= es.len() + 1,
        wf_entries(es) ==> wf_entries(spec_insert(es, path, hash)),
    decreases es.len(),
{
    let ne = ManifestEntryV { path, hash };
    let r = spec_insert(es, path, hash);
    if es.len() == 0 {
        if wf_entries(es) {
            assert forall|i: int| 0 <= i < r.len() implies (#[trigger] r[i]).wf() by {
                assert(r[i] == ne);
            }
        }
    } else if es[0].path == path {
        if wf_entries(es) {
            assert forall|i: int| 0 <= i < r.len() implies (#[trigger] r[i]).wf() by {
                if i == 0 {
                    assert(r[0] == ne);
                } else {
                    assert(r[i] == es.drop_first()[i - 1]);
                    assert(es.drop_first()[i - 1] == es[i]);
                }
            }
        }
    } else {
        lemma_spec_insert_wf(es.drop_first(), path, hash);
        let r2 = spec_insert(es.drop_first(), path, hash);
        if wf_entries(es) {
            assert(wf_entries(es.drop_first())) by {
                assert forall|i: int|
                    0 <= i < es.drop_first().len() implies (#[trigger] es.drop_first()[i]).wf() by {
                    assert(es.drop_first()[i] == es[i + 1]);
                }
            }
            assert forall|i: int| 0 <= i < r.len() implies (#[trigger] r[i]).wf() by {
                if i == 0 {
                    assert(r[0] == es[0]);
                } else {
                    assert(r[i] == r2[i - 1]);
                }
            }
        }
    }
}

} // verus!
