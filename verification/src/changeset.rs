use vstd::prelude::*;
use vstd::bytes::*;

use crate::codec::{lp_bytes, lp_ok, lp_rest, lp_val, push_lp, push_u32, push_u64, read_lp,
    read_u32, read_u64, read_u8, read_vec};
use crate::errors::StoreError;

verus! {

/// A timestamp: seconds and nanoseconds since the epoch. The unverified
/// shell converts the platform clock to and from this plain form.
#[derive(Debug, Clone, Copy, PartialEq, Eq, Structural)]
pub struct Timestamp {
    pub secs: u64,
    pub nanos: u32,
}

/// Commit metadata: the payload of exactly one changelog-revlog revision.
/// The timestamp is optional: a commit with no resolvable clock is still
/// valid.
#[derive(Debug, PartialEq, Eq)]
pub struct Changeset {
    pub manifest_nodeid: Vec<u8>,
    pub committer: Vec<u8>,
    pub message: Vec<u8>,
    pub time: Option<Timestamp>,
    pub changed_files: Vec<Vec<u8>>,
}

/// The mathematical model of a changeset.
pub struct ChangesetV {
    pub manifest_nodeid: Seq<u8>,
    pub committer: Seq<u8>,
    pub message: Seq<u8>,
    pub time: Option<Timestamp>,
    pub changed_files: Seq<Seq<u8>>,
}

impl View for Changeset {
    type V = ChangesetV;

    open spec fn view(&self) -> ChangesetV {
        ChangesetV {
            manifest_nodeid: self.manifest_nodeid@,
            committer: self.committer@,
            message: self.message@,
            time: self.time,
            changed_files: self.changed_files@.map_values(|p: Vec<u8>| p@),
        }
    }
}

impl ChangesetV {
    /// A changeset is well formed when its manifest reference is 20 bytes
    /// and every variable-length field fits its length prefix.
    pub open spec fn wf(self) -> bool {
        &&& self.manifest_nodeid.len() == 20
        &&& self.committer.len() <= u64::MAX
        &&& self.message.len() <= u64::MAX
        &&& self.changed_files.len() <= u64::MAX
        &&& forall|i: int|
            0 <= i < self.changed_files.len() ==> (#[trigger] self.changed_files[i]).len()
                <= u64::MAX
    }

    /// The all-default changeset: a zero manifest reference, empty texts, no
    /// timestamp, no changed paths. It stands in when the changelog is still
    /// empty.
    pub open spec fn default_v() -> ChangesetV {
        ChangesetV {
            manifest_nodeid: Seq::new(20, |i: int| 0u8),
            committer: Seq::empty(),
            message: Seq::empty(),
            time: Option::None,
            changed_files: Seq::empty(),
        }
    }
}

/// The wire form of the optional timestamp: a presence tag byte, then the
/// seconds and nanoseconds when present.
pub open spec fn time_bytes(t: Option<Timestamp>) -> Seq<u8> {
    match t {
        Option::None => seq![0u8],
        Option::Some(ts) => seq![1u8] + spec_u64_to_le_bytes(ts.secs) + spec_u32_to_le_bytes(
            ts.nanos,
        ),
    }
}

/// The wire form of a run of changed paths, each length-prefixed.
pub open spec fn files_bytes(fs: Seq<Seq<u8>>) -> Seq<u8>
    decreases fs.len(),
{
    if fs.len() == 0 {
        Seq::empty()
    } else {
        lp_bytes(fs[0]) + files_bytes(fs.drop_first())
    }
}

/// The wire form of a changeset: the 20 manifest-reference bytes, the
/// length-prefixed committer and message, the optional timestamp, then the
/// counted run of changed paths.
pub open spec fn changeset_bytes(c: ChangesetV) -> Seq<u8> {
    c.manifest_nodeid + lp_bytes(c.committer) + lp_bytes(c.message) + time_bytes(c.time)
        + spec_u64_to_le_bytes(c.changed_files.len() as u64) + files_bytes(c.changed_files)
}

/// Decodes the optional timestamp at the front of `s`, yielding it and the
/// remaining bytes.
pub open spec fn decode_time(s: Seq<u8>) -> Option<(Option<Timestamp>, Seq<u8>)> {
    if s.len() < 1 {
        Option::None
    } else if s[0] == 0 {
        Option::Some((Option::None, s.skip(1)))
    } else if s[0] == 1 {
        if s.len() < 13 {
            Option::None
        } else {
            Option::Some(
                (
                    Option::Some(
                        Timestamp {
                            secs: spec_u64_from_le_bytes(s.subrange(1, 9)),
                            nanos: spec_u32_from_le_bytes(s.subrange(9, 13)),
                        },
                    ),
                    s.skip(13),
                ),
            )
        }
    } else {
        Option::None
    }
}

/// Decodes exactly `n` changed paths from `s`; trailing bytes are malformed.
pub open spec fn decode_files(s: Seq<u8>, n: nat) -> Option<Seq<Seq<u8>>>
    decreases n,
{
    if n == 0 {
        if s.len() == 0 {
            Option::Some(Seq::<Seq<u8>>::empty())
        } else {
            Option::None
        }
    } else if !lp_ok(s) {
        Option::None
    } else {
        match decode_files(lp_rest(s), (n - 1) as nat) {
            Option::Some(rest) => Option::Some(seq![lp_val(s)] + rest),
            Option::None => Option::None,
        }
    }
}

/// What decoding a changeset payload gives: the changeset, or nothing for a
/// truncated or malformed buffer.
pub open spec fn spec_decode_changeset(s: Seq<u8>) -> Option<ChangesetV> {
    if s.len() < 20 {
        Option::None
    } else {
        let manifest_nodeid = s.subrange(0, 20);
        let s1 = s.skip(20);
        if !lp_ok(s1) {
            Option::None
        } else {
            let committer = lp_val(s1);
            let s2 = lp_rest(s1);
            if !lp_ok(s2) {
                Option::None
            } else {
                let message = lp_val(s2);
                let s3 = lp_rest(s2);
                match decode_time(s3) {
                    Option::None => Option::None,
                    Option::Some((time, s4)) => {
                        if s4.len() < 8 {
                            Option::None
                        } else {
                            let n = spec_u64_from_le_bytes(s4.subrange(0, 8));
                            match decode_files(s4.skip(8), n as nat) {
                                Option::Some(changed_files) => Option::Some(
                                    ChangesetV {
                                        manifest_nodeid,
                                        committer,
                                        message,
                                        time,
                                        changed_files,
                                    },
                                ),
                                Option::None => Option::None,
                            }
                        }
                    },
                }
            }
        }
    }
}

/// Whatever a changeset payload decodes to carries a 20-byte manifest
/// reference and well-formed variable-length fields.
pub proof fn lemma_decode_changeset_wf(s: Seq<u8>)
    ensures
        spec_decode_changeset(s) matches Option::Some(c) ==> c.manifest_nodeid.len() == 20,
{
    match spec_decode_changeset(s) {
        Option::Some(c) => {
            assert(c.manifest_nodeid == s.subrange(0, 20));
        },
        Option::None => {},
    }
}

/// Encoding distributes over appending one path at the end.
proof fn lemma_files_bytes_snoc(fs: Seq<Seq<u8>>, p: Seq<u8>)
    ensures
        files_bytes(fs.push(p)) == files_bytes(fs) + lp_bytes(p),
    decreases fs.len(),
{
    if fs.len() == 0 {
        let q = fs.push(p);
        assert(q[0] == p);
        assert(q.drop_first() =~= Seq::<Seq<u8>>::empty());
        assert(files_bytes(q) == lp_bytes(q[0]) + files_bytes(q.drop_first()));
        assert(files_bytes(Seq::<Seq<u8>>::empty()) == Seq::<u8>::empty());
        assert(files_bytes(q) =~= files_bytes(fs) + lp_bytes(p));
    } else {
        assert(fs.push(p)[0] == fs[0]);
        assert(fs.push(p).drop_first() =~= fs.drop_first().push(p));
        lemma_files_bytes_snoc(fs.drop_first(), p);
        assert(files_bytes(fs.push(p)) =~= files_bytes(fs) + lp_bytes(p));
    }
}

/// Decoding the encoding of a run of paths gives it back.
proof fn lemma_files_roundtrip(fs: Seq<Seq<u8>>)
    requires
        forall|i: int| 0 <= i < fs.len() ==> (#[trigger] fs[i]).len() <= u64::MAX,
    ensures
        decode_files(files_bytes(fs), fs.len() as nat) == Option::Some(fs),
    decreases fs.len(),
{
    lemma_auto_spec_u64_to_from_le_bytes();
    if fs.len() == 0 {
    } else {
        let p = fs[0];
        let rest = fs.drop_first();
        let b = files_bytes(fs);
        let plen = p.len() as int;
        assert(b.subrange(0, 8) =~= spec_u64_to_le_bytes(p.len() as u64));
        assert(lp_ok(b));
        assert(lp_val(b) =~= p);
        assert(lp_rest(b) =~= files_bytes(rest));
        assert(forall|i: int| 0 <= i < rest.len() ==> (#[trigger] rest[i]).len() <= u64::MAX);
        lemma_files_roundtrip(rest);
        assert(seq![p] + rest =~= fs);
    }
}

/// Law: decoding the encoding of a well-formed changeset gives it back.
pub proof fn lemma_changeset_roundtrip(c: ChangesetV)
    requires
        c.wf(),
    ensures
        spec_decode_changeset(changeset_bytes(c)) == Option::Some(c),
{
    lemma_auto_spec_u64_to_from_le_bytes();
    lemma_auto_spec_u32_to_from_le_bytes();
    let b = changeset_bytes(c);
    let t = time_bytes(c.time);
    let tail = spec_u64_to_le_bytes(c.changed_files.len() as u64) + files_bytes(c.changed_files);
    assert(b.subrange(0, 20) =~= c.manifest_nodeid);
    let s1 = b.skip(20);
    assert(s1 =~= lp_bytes(c.committer) + (lp_bytes(c.message) + (t + tail)));
    assert(s1.subrange(0, 8) =~= spec_u64_to_le_bytes(c.committer.len() as u64));
    assert(lp_ok(s1));
    assert(lp_val(s1) =~= c.committer);
    let s2 = lp_rest(s1);
    assert(s2 =~= lp_bytes(c.message) + (t + tail));
    assert(s2.subrange(0, 8) =~= spec_u64_to_le_bytes(c.message.len() as u64));
    assert(lp_ok(s2));
    assert(lp_val(s2) =~= c.message);
    let s3 = lp_rest(s2);
    assert(s3 =~= t + tail);
    match c.time {
        Option::None => {
            assert(s3[0] == 0);
            assert(s3.skip(1) =~= tail);
            assert(decode_time(s3) == Option::Some((Option::<Timestamp>::None, s3.skip(1))));
        },
        Option::Some(ts) => {
            assert(s3[0] == 1);
            assert(s3.subrange(1, 9) =~= spec_u64_to_le_bytes(ts.secs));
            assert(s3.subrange(9, 13) =~= spec_u32_to_le_bytes(ts.nanos));
            assert(s3.skip(13) =~= tail);
            assert(decode_time(s3) == Option::Some((c.time, s3.skip(13))));
        },
    }
    let s4 = tail;
    assert(s4.subrange(0, 8) =~= spec_u64_to_le_bytes(c.changed_files.len() as u64));
    assert(s4.skip(8) =~= files_bytes(c.changed_files));
    lemma_files_roundtrip(c.changed_files);
    match spec_decode_changeset(b) {
        Option::Some(d) => {
            assert(d.manifest_nodeid == c.manifest_nodeid);
        },
        Option::None => {},
    }
}

/// Splices decoded paths onto an already-decoded prefix.
spec fn files_join(prefix: Seq<Seq<u8>>, s: Seq<u8>, n: nat) -> Option<Seq<Seq<u8>>> {
    match decode_files(s, n) {
        Option::Some(rest) => Option::Some(prefix + rest),
        Option::None => Option::None,
    }
}

/// Completes a decoded changeset head with its changed-path list, when that
/// list decoded.
spec fn with_files(head: ChangesetV, fs: Option<Seq<Seq<u8>>>) -> Option<ChangesetV> {
    match fs {
        Option::Some(changed_files) => Option::Some(
            ChangesetV {
                manifest_nodeid: head.manifest_nodeid,
                committer: head.committer,
                message: head.message,
                time: head.time,
                changed_files,
            },
        ),
        Option::None => Option::None,
    }
}

impl Default for Changeset {
    /// The all-default changeset: a zero manifest reference, empty texts, no
    /// timestamp, no changed paths.
    fn default() -> (r: Changeset)
        ensures
            r@ == ChangesetV::default_v(),
            r@.wf(),
    {
        let r = Changeset {
            manifest_nodeid: vec![0u8; 20],
            committer: Vec::new(),
            message: Vec::new(),
            time: Option::None,
            changed_files: Vec::new(),
        };
        proof {
            assert(r.manifest_nodeid@ =~= Seq::new(20, |i: int| 0u8));
            assert(r.changed_files@.map_values(|p: Vec<u8>| p@) =~= Seq::<Seq<u8>>::empty());
        }
        r
    }
}

impl Changeset {
    /// A changeset is well formed when its model is.
    pub open spec fn wf(self) -> bool {
        self@.wf()
    }

    /// Serializes the changeset into its deterministic binary payload.
    pub fn encode(&self) -> (out: Vec<u8>)
        requires
            self@.wf(),
        ensures
            out@ == changeset_bytes(self@),
    {
        let mut out: Vec<u8> = Vec::new();
        out.extend_from_slice(self.manifest_nodeid.as_slice());
        push_lp(&mut out, &self.committer);
        push_lp(&mut out, &self.message);
        match self.time {
            Option::None => {
                out.push(0u8);
            },
            Option::Some(ts) => {
                out.push(1u8);
                push_u64(&mut out, ts.secs);
                push_u32(&mut out, ts.nanos);
            },
        }
        proof {
            assert(out@ =~= self@.manifest_nodeid + lp_bytes(self@.committer) + lp_bytes(
                self@.message,
            ) + time_bytes(self@.time));
        }
        push_u64(&mut out, self.changed_files.len() as u64);
        let ghost head = self@.manifest_nodeid + lp_bytes(self@.committer) + lp_bytes(
            self@.message,
        ) + time_bytes(self@.time) + spec_u64_to_le_bytes(self@.changed_files.len() as u64);
        let n = self.changed_files.len();
        let mut i: usize = 0;
        while i < n
            invariant
                i <= n,
                n == self.changed_files.len(),
                out@ == head + files_bytes(self@.changed_files.take(i as int)),
            decreases n - i,
        {
            push_lp(&mut out, &self.changed_files[i]);
            proof {
                let fs = self@.changed_files;
                assert(fs.take(i + 1) =~= fs.take(i as int).push(fs[i as int]));
                lemma_files_bytes_snoc(fs.take(i as int), fs[i as int]);
                assert(out@ =~= head + files_bytes(fs.take(i + 1)));
            }
            i += 1;
        }
        proof {
            assert(self@.changed_files.take(n as int) =~= self@.changed_files);
            assert(out@ =~= changeset_bytes(self@));
        }
        out
    }

    /// Deserializes a changeset payload, rejecting truncated or malformed
    /// buffers.
    pub fn decode(bytes: &Vec<u8>) -> (r: Result<Changeset, StoreError>)
        ensures
            match r {
                Result::Ok(c) => spec_decode_changeset(bytes@) == Option::Some(c@),
                Result::Err(e) => {
                    &&& spec_decode_changeset(bytes@) == Option::<ChangesetV>::None
                    &&& e == StoreError::FormatError
                },
            },
    {
        let s = bytes.as_slice();
        let mut pos: usize = 0;
        let manifest_nodeid = match read_vec(s, &mut pos, 20) {
            Result::Ok(v) => v,
            Result::Err(e) => {
                return Result::Err(e);
            },
        };
        let ghost s1 = bytes@.skip(20);
        let committer = match read_lp(s, &mut pos) {
            Result::Ok(v) => v,
            Result::Err(e) => {
                proof {
                    lemma_lp_fail(bytes@, 20);
                }
                return Result::Err(e);
            },
        };
        proof {
            lemma_lp_at(bytes@, 20, committer@);
        }
        let ghost s2 = lp_rest(s1);
        let message = match read_lp(s, &mut pos) {
            Result::Ok(v) => v,
            Result::Err(e) => {
                proof {
                    lemma_lp_fail(bytes@, 28 + committer@.len() as int);
                    assert(s2 =~= bytes@.skip(28 + committer@.len() as int));
                }
                return Result::Err(e);
            },
        };
        proof {
            assert(s2 =~= bytes@.skip(28 + committer@.len() as int));
            lemma_lp_at(bytes@, 28 + committer@.len() as int, message@);
        }
        let ghost s3 = lp_rest(s2);
        let ghost tpos = 36 + committer@.len() + message@.len();
        proof {
            assert(s3 =~= bytes@.skip(tpos as int));
        }
        let tag = match read_u8(s, &mut pos) {
            Result::Ok(v) => v,
            Result::Err(e) => {
                proof {
                    assert(s3.len() < 1);
                }
                return Result::Err(e);
            },
        };
        let time: Option<Timestamp> = if tag == 0 {
            Option::None
        } else if tag == 1 {
            let secs = match read_u64(s, &mut pos) {
                Result::Ok(v) => v,
                Result::Err(e) => {
                    proof {
                        assert(s3.len() < 13);
                    }
                    return Result::Err(e);
                },
            };
            let nanos = match read_u32(s, &mut pos) {
                Result::Ok(v) => v,
                Result::Err(e) => {
                    proof {
                        assert(s3.len() < 13);
                    }
                    return Result::Err(e);
                },
            };
            proof {
                assert(s3.subrange(1, 9) =~= bytes@.subrange(tpos as int + 1, tpos as int + 9));
                assert(s3.subrange(9, 13) =~= bytes@.subrange(tpos as int + 9, tpos as int + 13));
            }
            Option::Some(Timestamp { secs, nanos })
        } else {
            proof {
                assert(s3[0] == tag);
            }
            return Result::Err(StoreError::FormatError);
        };
        let ghost s4 = if tag == 0 {
            s3.skip(1)
        } else {
            s3.skip(13)
        };
        proof {
            assert(decode_time(s3) == Option::Some((time, s4)));
            assert(s4 =~= bytes@.skip(pos as int));
        }
        let ghost fstart = pos as int;
        let count = match read_u64(s, &mut pos) {
            Result::Ok(v) => v,
            Result::Err(e) => {
                proof {
                    assert(s4.len() < 8);
                }
                return Result::Err(e);
            },
        };
        proof {
            assert(s4.subrange(0, 8) =~= bytes@.subrange(fstart, fstart + 8));
        }
        let mut changed_files: Vec<Vec<u8>> = Vec::new();
        let mut i: u64 = 0;
        let ghost head = ChangesetV {
            manifest_nodeid: manifest_nodeid@,
            committer: committer@,
            message: message@,
            time,
            changed_files: Seq::empty(),
        };
        proof {
            assert(manifest_nodeid@ =~= bytes@.subrange(0, 20));
            assert(s4.skip(8) =~= bytes@.skip(pos as int));
            match decode_files(s4.skip(8), count as nat) {
                Option::Some(rest) => {
                    assert(Seq::<Seq<u8>>::empty() + rest =~= rest);
                },
                Option::None => {},
            }
            assert(spec_decode_changeset(bytes@) == with_files(
                head,
                decode_files(s4.skip(8), count as nat),
            ));
        }
        while i < count
            invariant
                i <= count,
                fstart + 8 <= pos <= bytes@.len(),
                s@ == bytes@,
                changed_files@.len() == i,
                spec_decode_changeset(bytes@) == with_files(
                    head,
                    decode_files(s4.skip(8), count as nat),
                ),
                decode_files(s4.skip(8), count as nat) == files_join(
                    changed_files@.map_values(|p: Vec<u8>| p@),
                    bytes@.skip(pos as int),
                    (count - i) as nat,
                ),
            decreases count - i,
        {
            let ghost prefix = changed_files@.map_values(|p: Vec<u8>| p@);
            let ghost old_pos = pos as int;
            let ghost s_rem = bytes@.skip(old_pos);
            let path = match read_lp(s, &mut pos) {
                Result::Ok(v) => v,
                Result::Err(e) => {
                    proof {
                        if bytes@.len() < old_pos + 8 {
                            assert(s_rem.len() < 8);
                        } else {
                            assert(s_rem.subrange(0, 8) =~= bytes@.subrange(
                                old_pos,
                                old_pos + 8,
                            ));
                        }
                        assert(!lp_ok(s_rem));
                        assert(decode_files(s_rem, (count - i) as nat) is None);
                    }
                    return Result::Err(e);
                },
            };
            proof {
                let plen = path@.len() as int;
                assert(s_rem.subrange(0, 8) =~= bytes@.subrange(old_pos, old_pos + 8));
                assert(lp_ok(s_rem));
                assert(lp_val(s_rem) =~= path@);
                assert(lp_rest(s_rem) =~= bytes@.skip(old_pos + 8 + plen));
            }
            changed_files.push(path);
            proof {
                let p_v = changed_files@[changed_files@.len() - 1]@;
                assert(changed_files@.map_values(|p: Vec<u8>| p@) =~= prefix.push(p_v));
                match decode_files(bytes@.skip(pos as int), (count - i - 1) as nat) {
                    Option::Some(rest) => {
                        assert(prefix + (seq![p_v] + rest) =~= prefix.push(p_v) + rest);
                    },
                    Option::None => {},
                }
            }
            i += 1;
        }
        if pos != bytes.len() {
            proof {
                assert(bytes@.skip(pos as int).len() != 0);
            }
            return Result::Err(StoreError::FormatError);
        }
        proof {
            assert(bytes@.skip(pos as int).len() == 0);
            let prefix = changed_files@.map_values(|p: Vec<u8>| p@);
            match decode_files(bytes@.skip(pos as int), 0) {
                Option::Some(rest) => {
                    assert(prefix + rest =~= prefix);
                },
                Option::None => {},
            }
        }
        let c = Changeset { manifest_nodeid, committer, message, time, changed_files };
        proof {
            assert(bytes@.subrange(0, 20) =~= c.manifest_nodeid@);
        }
        Result::Ok(c)
    }
}

/// When a length-prefixed read at `at` fails, the suffix of the buffer from
/// `at` has no well-formed length-prefixed field at its front.
proof fn lemma_lp_fail(b: Seq<u8>, at: int)
    requires
        0 <= at <= b.len(),
        b.len() < at + 8 || b.len() < at + 8 + spec_u64_from_le_bytes(b.subrange(at, at + 8)),
    ensures
        !lp_ok(b.skip(at)),
{
    let s = b.skip(at);
    if b.len() < at + 8 {
        assert(s.len() < 8);
    } else {
        assert(s.subrange(0, 8) =~= b.subrange(at, at + 8));
    }
}

/// When a length-prefixed read at `at` succeeds with value `v`, the suffix
/// of the buffer from `at` starts with that field.
proof fn lemma_lp_at(b: Seq<u8>, at: int, v: Seq<u8>)
    requires
        0 <= at,
        at + 8 <= b.len(),
        v.len() == spec_u64_from_le_bytes(b.subrange(at, at + 8)),
        at + 8 + v.len() <= b.len(),
        v == b.subrange(at + 8, at + 8 + v.len()),
    ensures
        lp_ok(b.skip(at)),
        lp_val(b.skip(at)) == v,
        lp_rest(b.skip(at)) == b.skip(at + 8 + v.len()),
{
    let s = b.skip(at);
    assert(s.subrange(0, 8) =~= b.subrange(at, at + 8));
    assert(lp_val(s) =~= v);
    assert(lp_rest(s) =~= b.skip(at + 8 + v.len()));
}

} // verus!
