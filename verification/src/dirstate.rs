use vstd::prelude::*;
use vstd::bytes::*;

use crate::changeset::Timestamp;
use crate::codec::{bytes_eq, lp_bytes, lp_ok, lp_rest, lp_val, push_lp, push_u32, push_u64,
    read_lp, read_u32, read_u64, read_u8, read_vec};
use crate::errors::StoreError;

verus! {

/// How a tracked path stands relative to the last committed snapshot.
/// `Merged` and `Removed` are reserved states whose handling is
/// unimplemented; operations that would act on them fail fast instead of
/// silently doing nothing.
#[derive(Debug, Clone, Copy, PartialEq, Eq, Structural)]
pub enum Status {
    Normal,
    Merged,
    Added,
    Removed,
}

/// What the dirstate records about one tracked path.
#[derive(Debug, Clone, Copy, PartialEq, Eq, Structural)]
pub struct Entry {
    pub status: Status,
    pub mode: u32,
    pub size: u64,
    pub mtime: Timestamp,
}

/// Live metadata of one on-disk file, as the unverified shell stats it.
#[derive(Debug, Clone, Copy, PartialEq, Eq, Structural)]
pub struct FileMeta {
    pub mode: u32,
    pub size: u64,
    pub mtime: Timestamp,
}

/// One tracked path with its recorded entry.
#[derive(Debug, PartialEq, Eq)]
pub struct DirstateEntry {
    pub path: Vec<u8>,
    pub entry: Entry,
}

/// The mathematical model of a tracked path.
pub struct DirstateEntryV {
    pub path: Seq<u8>,
    pub entry: Entry,
}

impl View for DirstateEntry {
    type V = DirstateEntryV;

    open spec fn view(&self) -> DirstateEntryV {
        DirstateEntryV { path: self.path@, entry: self.entry }
    }
}

/// Working-tree bookkeeping: the hash of the last committed changeset and a
/// per-path record of what was last seen on disk. Persisted as a single
/// serialized blob by the unverified shell.
#[derive(Debug, PartialEq, Eq)]
pub struct Dirstate {
    pub parent1_hash: Vec<u8>,
    parent2_hash: Vec<u8>,
    entries: Vec<DirstateEntry>,
}

/// The mathematical model of a dirstate.
pub struct DirstateV {
    pub parent1_hash: Seq<u8>,
    pub parent2_hash: Seq<u8>,
    pub entries: Seq<DirstateEntryV>,
}

impl View for Dirstate {
    type V = DirstateV;

    closed spec fn view(&self) -> DirstateV {
        DirstateV {
            parent1_hash: self.parent1_hash@,
            parent2_hash: self.parent2_hash@,
            entries: self.entries@.map_values(|e: DirstateEntry| e@),
        }
    }
}

impl DirstateV {
    /// A dirstate is well formed when both parent hashes are 20 bytes and
    /// every tracked path fits its length prefix.
    pub open spec fn wf(self) -> bool {
        &&& self.parent1_hash.len() == 20
        &&& self.parent2_hash.len() == 20
        &&& self.entries.len() <= u64::MAX
        &&& forall|i: int| 0 <= i < self.entries.len() ==> (#[trigger] self.entries[i]).path.len()
            <= u64::MAX
    }
}

/// No two entries track the same path: the invariant of every dirstate
/// this library builds, starting empty and growing only by `mark_added`,
/// which registers a path at most once. A decoded blob is taken as it
/// stands; lookups go by the first entry either way.
pub open spec fn unique_paths(es: Seq<DirstateEntryV>) -> bool {
    forall|i: int, j: int|
        0 <= i < j < es.len() ==> (#[trigger] es[i]).path != (#[trigger] es[j]).path
}

/// The wire code of a status.
pub open spec fn status_code(s: Status) -> u8 {
    match s {
        Status::Normal => 0,
        Status::Merged => 1,
        Status::Added => 2,
        Status::Removed => 3,
    }
}

/// The status a wire code stands for; codes past the last status are
/// malformed.
pub open spec fn code_status(c: u8) -> Option<Status> {
    if c == 0 {
        Option::Some(Status::Normal)
    } else if c == 1 {
        Option::Some(Status::Merged)
    } else if c == 2 {
        Option::Some(Status::Added)
    } else if c == 3 {
        Option::Some(Status::Removed)
    } else {
        Option::None
    }
}

/// The 25 fixed bytes of an entry: status code, mode, size, and mtime.
pub open spec fn entry_fixed_bytes(e: Entry) -> Seq<u8> {
    seq![status_code(e.status)] + spec_u32_to_le_bytes(e.mode) + spec_u64_to_le_bytes(e.size)
        + spec_u64_to_le_bytes(e.mtime.secs) + spec_u32_to_le_bytes(e.mtime.nanos)
}

/// The wire form of one tracked path: the length-prefixed path, then the
/// fixed entry bytes.
pub open spec fn dentry_bytes(e: DirstateEntryV) -> Seq<u8> {
    lp_bytes(e.path) + entry_fixed_bytes(e.entry)
}

/// The wire form of a run of tracked paths, in order.
pub open spec fn dentries_bytes(es: Seq<DirstateEntryV>) -> Seq<u8>
    decreases es.len(),
{
    if es.len() == 0 {
        Seq::empty()
    } else {
        dentry_bytes(es[0]) + dentries_bytes(es.drop_first())
    }
}

/// The wire form of a dirstate: both parent hashes, the entry count, then
/// the entries.
pub open spec fn dirstate_bytes(d: DirstateV) -> Seq<u8> {
    d.parent1_hash + d.parent2_hash + spec_u64_to_le_bytes(d.entries.len() as u64)
        + dentries_bytes(d.entries)
}

/// Decodes the 25 fixed entry bytes at the front of `s`.
pub open spec fn decode_entry_fixed(s: Seq<u8>) -> Option<Entry> {
    if s.len() < 25 {
        Option::None
    } else {
        match code_status(s[0]) {
            Option::Some(status) => Option::Some(
                Entry {
                    status,
                    mode: spec_u32_from_le_bytes(s.subrange(1, 5)),
                    size: spec_u64_from_le_bytes(s.subrange(5, 13)),
                    mtime: Timestamp {
                        secs: spec_u64_from_le_bytes(s.subrange(13, 21)),
                        nanos: spec_u32_from_le_bytes(s.subrange(21, 25)),
                    },
                },
            ),
            Option::None => Option::None,
        }
    }
}

/// Decodes exactly `n` tracked paths from `s`; trailing bytes are malformed.
pub open spec fn decode_dentries(s: Seq<u8>, n: nat) -> Option<Seq<DirstateEntryV>>
    decreases n,
{
    if n == 0 {
        if s.len() == 0 {
            Option::Some(Seq::<DirstateEntryV>::empty())
        } else {
            Option::None
        }
    } else if !lp_ok(s) {
        Option::None
    } else {
        match decode_entry_fixed(lp_rest(s)) {
            Option::Some(entry) => {
                match decode_dentries(lp_rest(s).skip(25), (n - 1) as nat) {
                    Option::Some(rest) => Option::Some(
                        seq![DirstateEntryV { path: lp_val(s), entry }] + rest,
                    ),
                    Option::None => Option::None,
                }
            },
            Option::None => Option::None,
        }
    }
}

/// What decoding a dirstate blob gives: the dirstate, or nothing for a
/// truncated or malformed buffer.
pub open spec fn spec_decode_dirstate(s: Seq<u8>) -> Option<DirstateV> {
    if s.len() < 48 {
        Option::None
    } else {
        let n = spec_u64_from_le_bytes(s.subrange(40, 48));
        match decode_dentries(s.skip(48), n as nat) {
            Option::Some(entries) => Option::Some(
                DirstateV {
                    parent1_hash: s.subrange(0, 20),
                    parent2_hash: s.subrange(20, 40),
                    entries,
                },
            ),
            Option::None => Option::None,
        }
    }
}

/// Encoding distributes over appending one tracked path at the end.
proof fn lemma_dentries_bytes_snoc(es: Seq<DirstateEntryV>, e: DirstateEntryV)
    ensures
        dentries_bytes(es.push(e)) == dentries_bytes(es) + dentry_bytes(e),
    decreases es.len(),
{
    if es.len() == 0 {
        let p = es.push(e);
        assert(p[0] == e);
        assert(p.drop_first() =~= Seq::<DirstateEntryV>::empty());
        assert(dentries_bytes(p) == dentry_bytes(p[0]) + dentries_bytes(p.drop_first()));
        assert(dentries_bytes(Seq::<DirstateEntryV>::empty()) == Seq::<u8>::empty());
        assert(dentries_bytes(p) =~= dentries_bytes(es) + dentry_bytes(e));
    } else {
        assert(es.push(e)[0] == es[0]);
        assert(es.push(e).drop_first() =~= es.drop_first().push(e));
        lemma_dentries_bytes_snoc(es.drop_first(), e);
        assert(dentries_bytes(es.push(e)) =~= dentries_bytes(es) + dentry_bytes(e));
    }
}

/// Decoding the encoding of a run of well-formed tracked paths gives it
/// back.
proof fn lemma_dentries_roundtrip(es: Seq<DirstateEntryV>)
    requires
        forall|i: int| 0 <= i < es.len() ==> (#[trigger] es[i]).path.len() <= u64::MAX,
    ensures
        decode_dentries(dentries_bytes(es), es.len() as nat) == Option::Some(es),
    decreases es.len(),
{
    lemma_auto_spec_u64_to_from_le_bytes();
    lemma_auto_spec_u32_to_from_le_bytes();
    if es.len() == 0 {
    } else {
        let e = es[0];
        let rest = es.drop_first();
        let b = dentries_bytes(es);
        let plen = e.path.len() as int;
        let f = entry_fixed_bytes(e.entry);
        assert(b.subrange(0, 8) =~= spec_u64_to_le_bytes(e.path.len() as u64));
        assert(lp_ok(b));
        assert(lp_val(b) =~= e.path);
        assert(lp_rest(b) =~= f + dentries_bytes(rest));
        let r = lp_rest(b);
        assert(r[0] == status_code(e.entry.status));
        assert(r.subrange(1, 5) =~= spec_u32_to_le_bytes(e.entry.mode));
        assert(r.subrange(5, 13) =~= spec_u64_to_le_bytes(e.entry.size));
        assert(r.subrange(13, 21) =~= spec_u64_to_le_bytes(e.entry.mtime.secs));
        assert(r.subrange(21, 25) =~= spec_u32_to_le_bytes(e.entry.mtime.nanos));
        assert(decode_entry_fixed(r) == Option::Some(e.entry));
        assert(r.skip(25) =~= dentries_bytes(rest));
        assert(forall|i: int| 0 <= i < rest.len() ==> (#[trigger] rest[i]).path.len() <= u64::MAX);
        lemma_dentries_roundtrip(rest);
        assert(seq![e] + rest =~= es);
    }
}

/// Law: decoding the encoding of a well-formed dirstate gives it back.
pub proof fn lemma_dirstate_roundtrip(d: DirstateV)
    requires
        d.wf(),
    ensures
        spec_decode_dirstate(dirstate_bytes(d)) == Option::Some(d),
{
    lemma_auto_spec_u64_to_from_le_bytes();
    let b = dirstate_bytes(d);
    assert(b.subrange(0, 20) =~= d.parent1_hash);
    assert(b.subrange(20, 40) =~= d.parent2_hash);
    assert(b.subrange(40, 48) =~= spec_u64_to_le_bytes(d.entries.len() as u64));
    assert(b.skip(48) =~= dentries_bytes(d.entries));
    lemma_dentries_roundtrip(d.entries);
    match spec_decode_dirstate(b) {
        Option::Some(r) => {
            assert(r.parent1_hash == d.parent1_hash);
        },
        Option::None => {},
    }
}

/// Whether an entry must be part of the next commit: added or removed
/// paths always, normal paths whose live size or mtime differ from the
/// record; a normal path that cannot be statted is skipped.
pub open spec fn committable(e: Entry, live: Option<FileMeta>) -> bool {
    match e.status {
        Status::Added => true,
        Status::Removed => true,
        Status::Normal => match live {
            Option::Some(m) => m.size != e.size || m.mtime != e.mtime,
            Option::None => false,
        },
        Status::Merged => false,
    }
}

/// Splices decoded tracked paths onto an already-decoded prefix.
spec fn dentries_join(
    prefix: Seq<DirstateEntryV>,
    s: Seq<u8>,
    n: nat,
) -> Option<Seq<DirstateEntryV>> {
    match decode_dentries(s, n) {
        Option::Some(rest) => Option::Some(prefix + rest),
        Option::None => Option::None,
    }
}

impl Default for Dirstate {
    /// The empty dirstate: zeroed parent hashes and no tracked paths.
    fn default() -> (r: Dirstate)
        ensures
            r@.parent1_hash == Seq::new(20, |i: int| 0u8),
            r@.parent2_hash == Seq::new(20, |i: int| 0u8),
            r@.entries == Seq::<DirstateEntryV>::empty(),
            r@.wf(),
            unique_paths(r@.entries),
    {
        let r = Dirstate {
            parent1_hash: vec![0u8; 20],
            parent2_hash: vec![0u8; 20],
            entries: Vec::new(),
        };
        proof {
            assert(r.parent1_hash@ =~= Seq::new(20, |i: int| 0u8));
            assert(r.parent2_hash@ =~= Seq::new(20, |i: int| 0u8));
            assert(r@.entries =~= Seq::<DirstateEntryV>::empty());
        }
        r
    }
}

impl Dirstate {
    /// A dirstate is well formed when its model is.
    pub open spec fn wf(self) -> bool {
        self@.wf()
    }

    /// The tracked paths and their entries.
    pub fn entries(&self) -> (r: &Vec<DirstateEntry>)
        ensures
            r@.map_values(|e: DirstateEntry| e@) == self@.entries,
    {
        &self.entries
    }

    /// The tracked paths and their entries, for updating in place.
    pub fn mut_entries(&mut self) -> (r: &mut Vec<DirstateEntry>)
        ensures
            r@.map_values(|e: DirstateEntry| e@) == old(self)@.entries,
            final(self)@.entries == final(r)@.map_values(|e: DirstateEntry| e@),
            final(self)@.parent1_hash == old(self)@.parent1_hash,
            final(self)@.parent2_hash == old(self)@.parent2_hash,
    {
        &mut self.entries
    }

    /// An owned copy of the path of entry `i`.
    pub fn path_at(&self, i: usize) -> (r: Vec<u8>)
        requires
            i < self@.entries.len(),
        ensures
            r@ == self@.entries[i as int].path,
    {
        crate::codec::bytes_clone(&self.entries[i].path)
    }

    /// The recorded entry of tracked path `i`.
    pub fn entry_at(&self, i: usize) -> (r: Entry)
        requires
            i < self@.entries.len(),
        ensures
            r == self@.entries[i as int].entry,
    {
        self.entries[i].entry
    }

    /// Replaces the recorded entry of tracked path `i`, keeping its path.
    pub fn set_entry(&mut self, i: usize, entry: Entry)
        requires
            i < old(self)@.entries.len(),
        ensures
            final(self)@.entries == old(self)@.entries.update(
                i as int,
                DirstateEntryV { path: old(self)@.entries[i as int].path, entry },
            ),
            final(self)@.parent1_hash == old(self)@.parent1_hash,
            final(self)@.parent2_hash == old(self)@.parent2_hash,
            unique_paths(old(self)@.entries) ==> unique_paths(final(self)@.entries),
    {
        let ghost old_es = self@.entries;
        let e = &mut self.entries[i];
        e.entry = entry;
        proof {
            assert(self@.entries =~= old_es.update(
                i as int,
                DirstateEntryV { path: old_es[i as int].path, entry },
            ));
            if unique_paths(old_es) {
                let es = self@.entries;
                assert forall|a: int, b: int|
                    0 <= a < b < es.len() implies (#[trigger] es[a]).path
                    != (#[trigger] es[b]).path by {
                    assert(es[a].path == old_es[a].path);
                    assert(es[b].path == old_es[b].path);
                }
            }
        }
    }

    /// Replaces the recorded hash of the last committed changeset.
    pub fn set_parent1_hash(&mut self, hash: Vec<u8>)
        ensures
            final(self)@.parent1_hash == hash@,
            final(self)@.parent2_hash == old(self)@.parent2_hash,
            final(self)@.entries == old(self)@.entries,
    {
        self.parent1_hash = hash;
    }

    /// Index of the first entry tracking `path`, if any.
    pub fn find(&self, path: &Vec<u8>) -> (r: Option<usize>)
        ensures
            match r {
                Option::Some(i) => {
                    &&& 0 <= i < self@.entries.len()
                    &&& self@.entries[i as int].path == path@
                    &&& forall|j: int|
                        0 <= j < i ==> (#[trigger] self@.entries[j]).path != path@
                },
                Option::None => forall|j: int|
                    0 <= j < self@.entries.len() ==> (#[trigger] self@.entries[j]).path != path@,
            },
    {
        let n = self.entries.len();
        let mut i: usize = 0;
        while i < n
            invariant
                i <= n,
                n == self.entries.len(),
                forall|j: int| 0 <= j < i ==> (#[trigger] self@.entries[j]).path != path@,
            decreases n - i,
        {
            if bytes_eq(&self.entries[i].path, path) {
                return Option::Some(i);
            }
            i += 1;
        }
        Option::None
    }

    /// Starts tracking `path` with status `Added`. Re-adding a tracked path
    /// is a no-op: the first registration wins.
    pub fn mark_added(&mut self, path: Vec<u8>, mode: u32, size: u64, mtime: Timestamp)
        requires
            path@.len() <= u64::MAX,
            old(self)@.entries.len() < u64::MAX,
        ensures
            final(self)@.parent1_hash == old(self)@.parent1_hash,
            final(self)@.parent2_hash == old(self)@.parent2_hash,
            (exists|j: int|
                0 <= j < old(self)@.entries.len() && (#[trigger] old(self)@.entries[j]).path
                    == path@) ==> final(self)@.entries == old(self)@.entries,
            (forall|j: int|
                0 <= j < old(self)@.entries.len() ==> (#[trigger] old(self)@.entries[j]).path
                    != path@) ==> final(self)@.entries == old(self)@.entries.push(
                DirstateEntryV {
                    path: path@,
                    entry: Entry { status: Status::Added, mode, size, mtime },
                },
            ),
            old(self).wf() ==> final(self).wf(),
            unique_paths(old(self)@.entries) ==> unique_paths(final(self)@.entries),
    {
        match self.find(&path) {
            Option::Some(_) => {
            },
            Option::None => {
                let ghost old_es = self@.entries;
                self.entries.push(
                    DirstateEntry {
                        path,
                        entry: Entry { status: Status::Added, mode, size, mtime },
                    },
                );
                proof {
                    assert(self@.entries =~= old_es.push(
                        self.entries@[self.entries@.len() - 1]@,
                    ));
                    if old(self).wf() {
                        assert forall|i: int|
                            0 <= i < self@.entries.len() implies (#[trigger] self@.entries[i]).path.len()
                            <= u64::MAX by {
                            if i < old_es.len() {
                                assert(self@.entries[i] == old_es[i]);
                            }
                        }
                    }
                    if unique_paths(old_es) {
                        let es = self@.entries;
                        assert forall|a: int, b: int|
                            0 <= a < b < es.len() implies (#[trigger] es[a]).path
                            != (#[trigger] es[b]).path by {
                            if b < old_es.len() {
                                assert(es[a] == old_es[a]);
                                assert(es[b] == old_es[b]);
                            } else {
                                assert(es[a] == old_es[a]);
                                assert(es[b].path == path@);
                            }
                        }
                    }
                }
            },
        }
    }

    /// Classifies one path against its live metadata: `A` for an added
    /// path, `?` for an untracked one, `C` for an unchanged normal path,
    /// `M` for a normal path whose size or mtime changed. The reserved
    /// `Merged` and `Removed` states fail fast.
    pub fn status(&self, path: &Vec<u8>, meta: &FileMeta) -> (r: Result<char, StoreError>)
        ensures
            ({
                let es = self@.entries;
                match r {
                    Result::Ok(c) => {
                        &&& (c == '?') <==> (forall|j: int|
                            0 <= j < es.len() ==> (#[trigger] es[j]).path != path@)
                        &&& (c == 'A' || c == 'C' || c == 'M' || c == '?')
                        &&& (exists|i: int|
                            0 <= i < es.len() && (#[trigger] es[i]).path == path@) ==> {
                            let e = es[first_with_path(es, path@)].entry;
                            &&& (c == 'A' <==> e.status == Status::Added)
                            &&& (c == 'C' <==> e.status == Status::Normal && e.size == meta.size
                                && e.mtime == meta.mtime)
                            &&& (c == 'M' <==> e.status == Status::Normal && !(e.size == meta.size
                                && e.mtime == meta.mtime))
                        }
                    },
                    Result::Err(e) => {
                        &&& e == StoreError::UnsupportedOperation
                        &&& exists|i: int|
                            0 <= i < es.len() && (#[trigger] es[i]).path == path@
                        &&& {
                            let st = es[first_with_path(es, path@)].entry.status;
                            st == Status::Merged || st == Status::Removed
                        }
                    },
                }
            }),
    {
        match self.find(path) {
            Option::None => Result::Ok('?'),
            Option::Some(i) => {
                proof {
                    lemma_first_with_path(self@.entries, path@, i as int);
                }
                let e = &self.entries[i].entry;
                match e.status {
                    Status::Added => Result::Ok('A'),
                    Status::Merged => Result::Err(StoreError::UnsupportedOperation),
                    Status::Removed => Result::Err(StoreError::UnsupportedOperation),
                    Status::Normal => {
                        if e.size == meta.size && e.mtime.secs == meta.mtime.secs && e.mtime.nanos
                            == meta.mtime.nanos {
                            Result::Ok('C')
                        } else {
                            Result::Ok('M')
                        }
                    },
                }
            },
        }
    }

    /// The indices of every entry that the next commit must re-snapshot, in
    /// increasing order: added or removed paths, and normal paths whose
    /// live size or mtime differ. A tracked `Merged` path fails fast. The
    /// caller supplies, for each entry in order, the live metadata of its
    /// path, or nothing where the file could not be statted.
    pub fn committable_files(&self, live: &Vec<Option<FileMeta>>) -> (r: Result<
        Vec<usize>,
        StoreError,
    >)
        requires
            live@.len() == self@.entries.len(),
        ensures
            ({
                let es = self@.entries;
                match r {
                    Result::Ok(ix) => {
                        &&& forall|j: int| 0 <= j < es.len() ==> (#[trigger] es[j]).entry.status
                            != Status::Merged
                        &&& forall|k: int|
                            0 <= k < ix@.len() ==> 0 <= #[trigger] ix@[k] < es.len()
                                && committable(es[ix@[k] as int].entry, live@[ix@[k] as int])
                        &&& forall|k1: int, k2: int|
                            0 <= k1 < k2 < ix@.len() ==> ix@[k1] < ix@[k2]
                        &&& forall|j: int|
                            0 <= j < es.len() && committable(
                                (#[trigger] es[j]).entry,
                                live@[j],
                            ) ==> exists|k: int| 0 <= k < ix@.len() && ix@[k] == j
                    },
                    Result::Err(e) => {
                        &&& e == StoreError::UnsupportedOperation
                        &&& exists|j: int|
                            0 <= j < es.len() && (#[trigger] es[j]).entry.status == Status::Merged
                    },
                }
            }),
    {
        let n = self.entries.len();
        let mut ix: Vec<usize> = Vec::new();
        let mut i: usize = 0;
        while i < n
            invariant
                i <= n,
                n == self.entries.len(),
                live@.len() == self@.entries.len(),
                forall|j: int| 0 <= j < i ==> (#[trigger] self@.entries[j]).entry.status
                    != Status::Merged,
                forall|k: int|
                    0 <= k < ix@.len() ==> 0 <= #[trigger] ix@[k] < i && committable(
                        self@.entries[ix@[k] as int].entry,
                        live@[ix@[k] as int],
                    ),
                forall|k1: int, k2: int| 0 <= k1 < k2 < ix@.len() ==> ix@[k1] < ix@[k2],
                forall|j: int|
                    0 <= j < i && committable((#[trigger] self@.entries[j]).entry, live@[j])
                        ==> exists|k: int| 0 <= k < ix@.len() && ix@[k] == j,
            decreases n - i,
        {
            let e = &self.entries[i].entry;
            let wanted = match e.status {
                Status::Added => true,
                Status::Removed => true,
                Status::Merged => {
                    proof {
                        assert(self@.entries[i as int].entry.status == Status::Merged);
                    }
                    return Result::Err(StoreError::UnsupportedOperation);
                },
                Status::Normal => {
                    match live[i] {
                        Option::Some(m) => {
                            e.size != m.size || e.mtime.secs != m.mtime.secs || e.mtime.nanos
                                != m.mtime.nanos
                        },
                        Option::None => false,
                    }
                },
            };
            let ghost old_ix = ix@;
            if wanted {
                ix.push(i);
            }
            proof {
                assert(wanted == committable(self@.entries[i as int].entry, live@[i as int]));
                assert forall|j: int|
                    0 <= j < i + 1 && committable(
                        (#[trigger] self@.entries[j]).entry,
                        live@[j],
                    ) implies exists|k: int| 0 <= k < ix@.len() && ix@[k] == j by {
                    if j < i {
                        let k = choose|k: int| 0 <= k < old_ix.len() && old_ix[k] == j;
                        assert(ix@[k] == j);
                    } else {
                        assert(ix@[ix@.len() - 1] == j);
                    }
                }
            }
            i += 1;
        }
        Result::Ok(ix)
    }

    /// Serializes the dirstate into its deterministic binary blob.
    pub fn encode(&self) -> (out: Vec<u8>)
        ensures
            out@ == dirstate_bytes(self@),
    {
        let mut out: Vec<u8> = Vec::new();
        out.extend_from_slice(self.parent1_hash.as_slice());
        out.extend_from_slice(self.parent2_hash.as_slice());
        push_u64(&mut out, self.entries.len() as u64);
        let ghost head = self@.parent1_hash + self@.parent2_hash + spec_u64_to_le_bytes(
            self@.entries.len() as u64,
        );
        proof {
            assert(out@ =~= head + dentries_bytes(self@.entries.take(0)));
        }
        let n = self.entries.len();
        let mut i: usize = 0;
        while i < n
            invariant
                i <= n,
                n == self.entries.len(),
                out@ == head + dentries_bytes(self@.entries.take(i as int)),
            decreases n - i,
        {
            push_lp(&mut out, &self.entries[i].path);
            let e = &self.entries[i].entry;
            let code: u8 = match e.status {
                Status::Normal => 0,
                Status::Merged => 1,
                Status::Added => 2,
                Status::Removed => 3,
            };
            out.push(code);
            push_u32(&mut out, e.mode);
            push_u64(&mut out, e.size);
            push_u64(&mut out, e.mtime.secs);
            push_u32(&mut out, e.mtime.nanos);
            proof {
                let es = self@.entries;
                assert(es.take(i + 1) =~= es.take(i as int).push(es[i as int]));
                lemma_dentries_bytes_snoc(es.take(i as int), es[i as int]);
                assert(out@ =~= head + dentries_bytes(es.take(i + 1)));
            }
            i += 1;
        }
        proof {
            assert(self@.entries.take(n as int) =~= self@.entries);
            assert(out@ =~= dirstate_bytes(self@));
        }
        out
    }

    /// Deserializes a dirstate blob, rejecting truncated or malformed
    /// buffers.
    pub fn decode(bytes: &Vec<u8>) -> (r: Result<Dirstate, StoreError>)
        ensures
            match r {
                Result::Ok(d) => spec_decode_dirstate(bytes@) == Option::Some(d@),
                Result::Err(e) => {
                    &&& spec_decode_dirstate(bytes@) == Option::<DirstateV>::None
                    &&& e == StoreError::FormatError
                },
            },
    {
        let s = bytes.as_slice();
        let mut pos: usize = 0;
        let parent1_hash = match read_vec(s, &mut pos, 20) {
            Result::Ok(v) => v,
            Result::Err(e) => {
                return Result::Err(e);
            },
        };
        let parent2_hash = match read_vec(s, &mut pos, 20) {
            Result::Ok(v) => v,
            Result::Err(e) => {
                return Result::Err(e);
            },
        };
        let count = match read_u64(s, &mut pos) {
            Result::Ok(v) => v,
            Result::Err(e) => {
                return Result::Err(e);
            },
        };
        let mut entries: Vec<DirstateEntry> = Vec::new();
        let mut i: u64 = 0;
        proof {
            match decode_dentries(bytes@.skip(48), count as nat) {
                Option::Some(rest) => {
                    assert(Seq::<DirstateEntryV>::empty() + rest =~= rest);
                },
                Option::None => {},
            }
        }
        while i < count
            invariant
                i <= count,
                48 <= pos <= bytes@.len(),
                s@ == bytes@,
                count == spec_u64_from_le_bytes(bytes@.subrange(40, 48)),
                entries@.len() == i,
                decode_dentries(bytes@.skip(48), count as nat) == dentries_join(
                    entries@.map_values(|e: DirstateEntry| e@),
                    bytes@.skip(pos as int),
                    (count - i) as nat,
                ),
            decreases count - i,
        {
            let ghost prefix = entries@.map_values(|e: DirstateEntry| e@);
            let ghost old_pos = pos as int;
            let ghost s_rem = bytes@.skip(old_pos);
            let path = match read_lp(s, &mut pos) {
                Result::Ok(v) => v,
                Result::Err(e) => {
                    proof {
                        if bytes@.len() < old_pos + 8 {
                            assert(s_rem.len() < 8);
                        } else {
                            assert(s_rem.subrange(0, 8) =~= bytes@.subrange(
                                old_pos,
                                old_pos + 8,
                            ));
                        }
                        assert(!lp_ok(s_rem));
                        assert(decode_dentries(s_rem, (count - i) as nat) is None);
                    }
                    return Result::Err(e);
                },
            };
            proof {
                let plen = path@.len() as int;
                assert(s_rem.subrange(0, 8) =~= bytes@.subrange(old_pos, old_pos + 8));
                assert(lp_ok(s_rem));
                assert(lp_val(s_rem) =~= path@);
                assert(lp_rest(s_rem) =~= bytes@.skip(old_pos + 8 + plen));
            }
            let ghost fpos = pos as int;
            let ghost f_rem = bytes@.skip(fpos);
            let code = match read_u8(s, &mut pos) {
                Result::Ok(v) => v,
                Result::Err(e) => {
                    proof {
                        assert(f_rem.len() < 25);
                        assert(decode_dentries(s_rem, (count - i) as nat) is None);
                    }
                    return Result::Err(e);
                },
            };
            let status = if code == 0 {
                Status::Normal
            } else if code == 1 {
                Status::Merged
            } else if code == 2 {
                Status::Added
            } else if code == 3 {
                Status::Removed
            } else {
                proof {
                    assert(f_rem[0] == code);
                    assert(decode_dentries(s_rem, (count - i) as nat) is None);
                }
                return Result::Err(StoreError::FormatError);
            };
            let mode = match read_u32(s, &mut pos) {
                Result::Ok(v) => v,
                Result::Err(e) => {
                    proof {
                        assert(f_rem.len() < 25);
                        assert(decode_dentries(s_rem, (count - i) as nat) is None);
                    }
                    return Result::Err(e);
                },
            };
            let size = match read_u64(s, &mut pos) {
                Result::Ok(v) => v,
                Result::Err(e) => {
                    proof {
                        assert(f_rem.len() < 25);
                        assert(decode_dentries(s_rem, (count - i) as nat) is None);
                    }
                    return Result::Err(e);
                },
            };
            let secs = match read_u64(s, &mut pos) {
                Result::Ok(v) => v,
                Result::Err(e) => {
                    proof {
                        assert(f_rem.len() < 25);
                        assert(decode_dentries(s_rem, (count - i) as nat) is None);
                    }
                    return Result::Err(e);
                },
            };
            let nanos = match read_u32(s, &mut pos) {
                Result::Ok(v) => v,
                Result::Err(e) => {
                    proof {
                        assert(f_rem.len() < 25);
                        assert(decode_dentries(s_rem, (count - i) as nat) is None);
                    }
                    return Result::Err(e);
                },
            };
            let entry = Entry { status, mode, size, mtime: Timestamp { secs, nanos } };
            proof {
                assert(f_rem[0] == code);
                assert(f_rem.subrange(1, 5) =~= bytes@.subrange(fpos + 1, fpos + 5));
                assert(f_rem.subrange(5, 13) =~= bytes@.subrange(fpos + 5, fpos + 13));
                assert(f_rem.subrange(13, 21) =~= bytes@.subrange(fpos + 13, fpos + 21));
                assert(f_rem.subrange(21, 25) =~= bytes@.subrange(fpos + 21, fpos + 25));
                assert(decode_entry_fixed(f_rem) == Option::Some(entry));
                assert(f_rem.skip(25) =~= bytes@.skip(fpos + 25));
            }
            entries.push(DirstateEntry { path, entry });
            proof {
                let e_v = entries@[entries@.len() - 1]@;
                assert(entries@.map_values(|e: DirstateEntry| e@) =~= prefix.push(e_v));
                match decode_dentries(bytes@.skip(pos as int), (count - i - 1) as nat) {
                    Option::Some(rest) => {
                        assert(prefix + (seq![e_v] + rest) =~= prefix.push(e_v) + rest);
                    },
                    Option::None => {},
                }
            }
            i += 1;
        }
        if pos != bytes.len() {
            proof {
                assert(bytes@.skip(pos as int).len() != 0);
            }
            return Result::Err(StoreError::FormatError);
        }
        proof {
            assert(bytes@.skip(pos as int).len() == 0);
            let prefix = entries@.map_values(|e: DirstateEntry| e@);
            match decode_dentries(bytes@.skip(pos as int), 0) {
                Option::Some(rest) => {
                    assert(prefix + rest =~= prefix);
                },
                Option::None => {},
            }
        }
        let d = Dirstate { parent1_hash, parent2_hash, entries };
        proof {
            assert(bytes@.subrange(0, 20) =~= d.parent1_hash@);
            assert(bytes@.subrange(20, 40) =~= d.parent2_hash@);
        }
        Result::Ok(d)
    }
}

/// The index of the first entry holding `path`.
pub open spec fn first_with_path(es: Seq<DirstateEntryV>, path: Seq<u8>) -> int
    decreases es.len(),
{
    if es.len() == 0 {
        0
    } else if es[0].path == path {
        0
    } else {
        1 + first_with_path(es.drop_first(), path)
    }
}

/// An index that holds `path` and is preceded by no index that does is the
/// first such index.
proof fn lemma_first_with_path(es: Seq<DirstateEntryV>, path: Seq<u8>, i: int)
    requires
        0 <= i < es.len(),
        es[i].path == path,
        forall|j: int| 0 <= j < i ==> (#[trigger] es[j]).path != path,
    ensures
        first_with_path(es, path) == i,
    decreases es.len(),
{
    if i == 0 {
    } else {
        assert(forall|j: int|
            0 <= j < i - 1 ==> (#[trigger] es.drop_first()[j]).path != path);
        lemma_first_with_path(es.drop_first(), path, i - 1);
    }
}

} // verus!
