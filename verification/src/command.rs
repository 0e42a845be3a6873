use vstd::prelude::*;
use vstd::slice::slice_subrange;

use crate::changeset::{spec_decode_changeset, Changeset, ChangesetV, Timestamp};
use crate::dirstate::{Dirstate, DirstateEntry, DirstateEntryV, Status};
use crate::errors::StoreError;
use crate::manifest::{Manifest, ManifestEntryV};
use crate::record::{rev_to_wire, Record, RecordV};
use crate::render::{dec_bytes, hex_bytes, lemma_hex_bytes_len, push_decimal, push_hex, to_hex};
use crate::revlog::{log_wf, num_revs, rec_at, spec_get_hunk, spec_get_last_hunk, spec_get_record,
    spec_size, RevLog, RevLogV};

verus! {

/// The header line of the record table: "rev offset length base nodeid p1 p2" and a newline.
pub open spec fn index_header() -> Seq<u8> {
    seq![114u8, 101u8, 118u8, 32u8, 111u8, 102u8, 102u8, 115u8, 101u8, 116u8, 32u8, 108u8, 101u8, 110u8, 103u8, 116u8, 104u8, 32u8, 98u8, 97u8, 115u8, 101u8, 32u8, 110u8, 111u8, 100u8, 101u8, 105u8, 100u8, 32u8, 112u8, 49u8, 32u8, 112u8, 50u8, 10u8]
}

/// The three-space column separator of the record table.
pub open spec fn column_sep() -> Seq<u8> {
    seq![32u8, 32u8, 32u8]
}

/// The first twelve hex digits of a hash.
pub open spec fn hex12(h: Seq<u8>) -> Seq<u8> {
    hex_bytes(h).take(12)
}

/// The hash that a parent field resolves to: the referenced record's hash,
/// with the sentinel resolving to the all-default record.
pub open spec fn parent_hash(index: Seq<u8>, p: Option<u32>) -> Seq<u8> {
    match spec_get_record(index, rev_to_wire(p)) {
        Result::Ok(pr) => pr.hash,
        Result::Err(_) => Seq::empty(),
    }
}

/// Whether a parent field resolves to a record.
pub open spec fn parent_ok(index: Seq<u8>, p: Option<u32>) -> bool {
    spec_get_record(index, rev_to_wire(p)) is Ok
}

/// One line of the record table, from its parts: revision number, hunk
/// offset and length, base revision, and the first twelve hex digits of
/// the revision's hash and of its parents' hashes.
pub open spec fn row_text(rev: nat, r: RecordV, p1h: Seq<u8>, p2h: Seq<u8>) -> Seq<u8> {
    dec_bytes(rev) + column_sep() + dec_bytes(r.hunk_offset as nat) + column_sep() + dec_bytes(
        r.hunk_length as nat,
    ) + column_sep() + dec_bytes(r.base_revision as nat) + column_sep() + hex12(r.hash)
        + column_sep() + hex12(p1h) + column_sep() + hex12(p2h) + seq![10u8]
}

/// One line of the record table.
pub open spec fn index_row(index: Seq<u8>, rev: int) -> Seq<u8> {
    let r = rec_at(index, rev);
    row_text(
        rev as nat,
        r,
        parent_hash(index, r.parent1_revision),
        parent_hash(index, r.parent2_revision),
    )
}

/// The record-table lines of the first `upto` revisions, in order.
pub open spec fn index_rows(index: Seq<u8>, upto: int) -> Seq<u8>
    decreases upto,
{
    if upto <= 0 {
        Seq::empty()
    } else {
        index_rows(index, upto - 1) + index_row(index, upto - 1)
    }
}

/// Appends the first twelve hex digits of a 20-byte hash to `out`.
fn push_hex12(out: &mut Vec<u8>, h: &Vec<u8>)
    requires
        h@.len() == 20,
    ensures
        final(out)@ == old(out)@ + hex12(h@),
{
    let hx = to_hex(h.as_slice());
    proof {
        lemma_hex_bytes_len(h@);
    }
    out.extend_from_slice(slice_subrange(hx.as_slice(), 0, 12));
    proof {
        assert(hx@.subrange(0, 12) =~= hex12(h@));
    }
}

/// Appends the three-space column separator to `out`.
fn push_sep(out: &mut Vec<u8>)
    ensures
        final(out)@ == old(out)@ + column_sep(),
{
    out.push(32u8);
    out.push(32u8);
    out.push(32u8);
    proof {
        assert(out@ =~= old(out)@ + column_sep());
    }
}

/// Renders one line of the record table.
#[verifier::rlimit(100)]
fn render_row(rev: u32, rec: &Record, p1: &Record, p2: &Record) -> (row: Vec<u8>)
    requires
        rec@.hash.len() == 20,
        p1@.hash.len() == 20,
        p2@.hash.len() == 20,
    ensures
        row@ == row_text(rev as nat, rec@, p1@.hash, p2@.hash),
{
    let mut row: Vec<u8> = Vec::new();
    push_decimal(&mut row, rev as u64);
    push_sep(&mut row);
    push_decimal(&mut row, rec.hunk_offset);
    push_sep(&mut row);
    push_decimal(&mut row, rec.hunk_length as u64);
    push_sep(&mut row);
    push_decimal(&mut row, rec.base_revision as u64);
    push_sep(&mut row);
    proof {
        assert(row@ =~= dec_bytes(rev as nat) + column_sep() + dec_bytes(
            rec@.hunk_offset as nat,
        ) + column_sep() + dec_bytes(rec@.hunk_length as nat) + column_sep() + dec_bytes(
            rec@.base_revision as nat,
        ) + column_sep());
    }
    let ghost half = row@;
    push_hex12(&mut row, &rec.hash);
    push_sep(&mut row);
    push_hex12(&mut row, &p1.hash);
    push_sep(&mut row);
    push_hex12(&mut row, &p2.hash);
    row.push(10u8);
    proof {
        assert(row@ =~= half + (hex12(rec@.hash) + column_sep() + hex12(p1@.hash) + column_sep()
            + hex12(p2@.hash) + seq![10u8]));
        assert(row@ =~= row_text(rev as nat, rec@, p1@.hash, p2@.hash));
    }
    row
}

/// Renders the record table of a revlog: a read-only diagnostic listing
/// every record with its parents' hashes resolved.
#[verifier::rlimit(100)]
pub fn debug_index(log: &RevLog) -> (r: Result<Vec<u8>, StoreError>)
    ensures
        ({
            let index = log@.index;
            match r {
                Result::Ok(out) => {
                    &&& log_wf(index)
                    &&& out@ == index_header() + index_rows(index, num_revs(index))
                    &&& forall|rev: int|
                        0 <= rev < num_revs(index) ==> parent_ok(
                            index,
                            (#[trigger] rec_at(index, rev)).parent1_revision,
                        ) && parent_ok(index, rec_at(index, rev).parent2_revision)
                },
                Result::Err(e) => {
                    ||| !log_wf(index) && e == StoreError::FormatError
                    ||| e == StoreError::OutOfRange && (exists|rev: int|
                        0 <= rev < num_revs(index) && (!parent_ok(
                            index,
                            (#[trigger] rec_at(index, rev)).parent1_revision,
                        ) || !parent_ok(index, rec_at(index, rev).parent2_revision)))
                },
            }
        }),
{
    let n = match log.size() {
        Result::Ok(v) => v,
        Result::Err(e) => {
            return Result::Err(e);
        },
    };
    let mut out: Vec<u8> = Vec::new();
    out.push(114u8);
    out.push(101u8);
    out.push(118u8);
    out.push(32u8);
    out.push(111u8);
    out.push(102u8);
    out.push(102u8);
    out.push(115u8);
    out.push(101u8);
    out.push(116u8);
    out.push(32u8);
    out.push(108u8);
    out.push(101u8);
    out.push(110u8);
    out.push(103u8);
    out.push(116u8);
    out.push(104u8);
    out.push(32u8);
    out.push(98u8);
    out.push(97u8);
    out.push(115u8);
    out.push(101u8);
    out.push(32u8);
    out.push(110u8);
    out.push(111u8);
    out.push(100u8);
    out.push(101u8);
    out.push(105u8);
    out.push(100u8);
    out.push(32u8);
    out.push(112u8);
    out.push(49u8);
    out.push(32u8);
    out.push(112u8);
    out.push(50u8);
    out.push(10u8);
    proof {
        assert(out@ =~= index_header() + index_rows(log@.index, 0));
    }
    let mut rev: u32 = 0;
    while rev < n
        invariant
            rev <= n,
            spec_size(log@.index) == Result::<u32, StoreError>::Ok(n),
            out@ == index_header() + index_rows(log@.index, rev as int),
            forall|t: int|
                0 <= t < rev ==> parent_ok(
                    log@.index,
                    (#[trigger] rec_at(log@.index, t)).parent1_revision,
                ) && parent_ok(log@.index, rec_at(log@.index, t).parent2_revision),
        decreases n - rev,
    {
        let rec = match log.get_record(rev) {
            Result::Ok(v) => v,
            Result::Err(_) => {
                proof {
                    assert(false);
                }
                return Result::Err(StoreError::FormatError);
            },
        };
        let p1w = match rec.parent1_revision {
            Option::Some(v) => v,
            Option::None => crate::NULLID_REVISION,
        };
        let p1 = match log.get_record(p1w) {
            Result::Ok(v) => v,
            Result::Err(e) => {
                return Result::Err(e);
            },
        };
        let p2w = match rec.parent2_revision {
            Option::Some(v) => v,
            Option::None => crate::NULLID_REVISION,
        };
        let p2 = match log.get_record(p2w) {
            Result::Ok(v) => v,
            Result::Err(e) => {
                return Result::Err(e);
            },
        };
        let mut row = render_row(rev, &rec, &p1, &p2);
        out.append(&mut row);
        proof {
            assert(index_row(log@.index, rev as int) == row_text(
                rev as nat,
                rec@,
                p1@.hash,
                p2@.hash,
            ));
            assert(out@ =~= index_header() + index_rows(log@.index, rev + 1));
        }
        rev += 1;
    }
    Result::Ok(out)
}

/// Renders the record table of the changelog revlog.
pub fn debug_changelog_index(log: &RevLog) -> (r: Result<Vec<u8>, StoreError>)
    ensures
        ({
            let index = log@.index;
            match r {
                Result::Ok(out) => log_wf(index) && out@ == index_header() + index_rows(
                    index,
                    num_revs(index),
                ),
                Result::Err(e) => e == StoreError::FormatError || e == StoreError::OutOfRange,
            }
        }),
{
    debug_index(log)
}

/// Renders the record table of the manifest revlog.
pub fn debug_manifest_index(log: &RevLog) -> (r: Result<Vec<u8>, StoreError>)
    ensures
        ({
            let index = log@.index;
            match r {
                Result::Ok(out) => log_wf(index) && out@ == index_header() + index_rows(
                    index,
                    num_revs(index),
                ),
                Result::Err(e) => e == StoreError::FormatError || e == StoreError::OutOfRange,
            }
        }),
{
    debug_index(log)
}

/// One rendered manifest line: the path, a NUL byte, the hex hash, a
/// newline.
pub open spec fn manifest_line(e: ManifestEntryV) -> Seq<u8> {
    e.path + seq![0u8] + hex_bytes(e.hash) + seq![10u8]
}

/// The rendered lines of the first `upto` manifest entries, in order.
pub open spec fn manifest_text(es: Seq<ManifestEntryV>, upto: int) -> Seq<u8>
    decreases upto,
{
    if upto <= 0 {
        Seq::empty()
    } else {
        manifest_text(es, upto - 1) + manifest_line(es[upto - 1])
    }
}

/// Renders a manifest as newline-separated path and hex-hash lines.
pub fn render_manifest(m: &Manifest) -> (out: Vec<u8>)
    ensures
        out@ == manifest_text(m@, m@.len() as int),
{
    let mut out: Vec<u8> = Vec::new();
    let n = m.entries.len();
    let mut i: usize = 0;
    while i < n
        invariant
            i <= n,
            n == m.entries.len(),
            out@ == manifest_text(m@, i as int),
        decreases n - i,
    {
        out.extend_from_slice(m.entries[i].path.as_slice());
        out.push(0u8);
        push_hex(&mut out, m.entries[i].hash.as_slice());
        out.push(10u8);
        proof {
            assert(out@ =~= manifest_text(m@, i + 1));
        }
        i += 1;
    }
    out
}

/// The rendered optional timestamp: seconds, a dot, nanoseconds, and a
/// newline; nothing when absent.
pub open spec fn time_text(t: Option<Timestamp>) -> Seq<u8> {
    match t {
        Option::None => Seq::empty(),
        Option::Some(ts) => dec_bytes(ts.secs as nat) + seq![46u8] + dec_bytes(ts.nanos as nat)
            + seq![10u8],
    }
}

/// The rendered lines of the first `upto` changed paths, in order.
pub open spec fn files_text(fs: Seq<Seq<u8>>, upto: int) -> Seq<u8>
    decreases upto,
{
    if upto <= 0 {
        Seq::empty()
    } else {
        files_text(fs, upto - 1) + fs[upto - 1] + seq![10u8]
    }
}

/// The rendered changeset: the hex manifest reference, the committer, the
/// optional timestamp, the changed paths, a blank line, and the message.
pub open spec fn changeset_text(c: ChangesetV) -> Seq<u8> {
    hex_bytes(c.manifest_nodeid) + seq![10u8] + c.committer + seq![10u8] + time_text(c.time)
        + files_text(c.changed_files, c.changed_files.len() as int) + seq![10u8] + c.message
        + seq![10u8]
}

/// Appends the rendered timestamp to `out`.
fn push_time(out: &mut Vec<u8>, t: Option<Timestamp>)
    ensures
        final(out)@ == old(out)@ + time_text(t),
{
    match t {
        Option::None => {
            proof {
                assert(out@ =~= old(out)@ + time_text(t));
            }
        },
        Option::Some(ts) => {
            push_decimal(out, ts.secs);
            out.push(46u8);
            push_decimal(out, ts.nanos as u64);
            out.push(10u8);
            proof {
                assert(out@ =~= old(out)@ + time_text(t));
            }
        },
    }
}

/// Renders a changeset as its informational text.
#[verifier::rlimit(100)]
pub fn render_changeset(c: &Changeset) -> (out: Vec<u8>)
    ensures
        out@ == changeset_text(c@),
{
    let mut out: Vec<u8> = Vec::new();
    push_hex(&mut out, c.manifest_nodeid.as_slice());
    out.push(10u8);
    out.extend_from_slice(c.committer.as_slice());
    out.push(10u8);
    push_time(&mut out, c.time);
    proof {
        assert(out@ =~= hex_bytes(c@.manifest_nodeid) + seq![10u8] + c@.committer + seq![10u8]
            + time_text(c@.time));
    }
    let ghost head = out@;
    let n = c.changed_files.len();
    let mut i: usize = 0;
    proof {
        assert(out@ =~= head + files_text(c@.changed_files, 0));
    }
    while i < n
        invariant
            i <= n,
            n == c.changed_files.len(),
            out@ == head + files_text(c@.changed_files, i as int),
        decreases n - i,
    {
        out.extend_from_slice(c.changed_files[i].as_slice());
        out.push(10u8);
        proof {
            assert(out@ =~= head + files_text(c@.changed_files, i + 1));
        }
        i += 1;
    }
    out.push(10u8);
    out.extend_from_slice(c.message.as_slice());
    out.push(10u8);
    proof {
        assert(out@ =~= changeset_text(c@));
    }
    out
}

/// What `heads` renders: the changelog's revision count, then its latest
/// changeset.
pub open spec fn spec_heads(v: RevLogV) -> Result<Seq<u8>, StoreError> {
    match spec_get_last_hunk(v) {
        Result::Ok(h) => match spec_decode_changeset(h) {
            Option::Some(c) => Result::Ok(
                dec_bytes(num_revs(v.index) as nat) + seq![10u8] + changeset_text(c),
            ),
            Option::None => Result::Err(StoreError::FormatError),
        },
        Result::Err(e) => Result::Err(e),
    }
}

/// Renders the head of history: the changelog's revision count and its
/// latest changeset.
pub fn heads(changelog: &RevLog) -> (r: Result<Vec<u8>, StoreError>)
    ensures
        ({
            let s = spec_heads(changelog@);
            match r {
                Result::Ok(out) => s matches Result::Ok(b) && out@ == b,
                Result::Err(e) => s matches Result::Err(e2) && e == e2,
            }
        }),
{
    let hunk = match changelog.get_last_hunk() {
        Result::Ok(h) => h,
        Result::Err(e) => {
            return Result::Err(e);
        },
    };
    let cs = match Changeset::decode(&hunk) {
        Result::Ok(c) => c,
        Result::Err(e) => {
            return Result::Err(e);
        },
    };
    let n = match changelog.size() {
        Result::Ok(v) => v,
        Result::Err(_) => {
            proof {
                assert(false);
            }
            return Result::Err(StoreError::FormatError);
        },
    };
    let mut out: Vec<u8> = Vec::new();
    push_decimal(&mut out, n as u64);
    out.push(10u8);
    let mut body = render_changeset(&cs);
    out.append(&mut body);
    proof {
        assert(out@ =~= dec_bytes(num_revs(changelog@.index) as nat) + seq![10u8]
            + changeset_text(cs@));
    }
    Result::Ok(out)
}

/// The label of a history entry's first line, "changeset: ".
pub open spec fn changeset_label() -> Seq<u8> {
    seq![99u8, 104u8, 97u8, 110u8, 103u8, 101u8, 115u8, 101u8, 116u8, 58u8, 32u8]
}

/// The label of a history entry's committer line.
pub open spec fn user_label() -> Seq<u8> {
    seq![117u8, 115u8, 101u8, 114u8, 58u8, 32u8, 32u8, 32u8, 32u8, 32u8, 32u8]
}

/// The label of a history entry's date line.
pub open spec fn date_label() -> Seq<u8> {
    seq![100u8, 97u8, 116u8, 101u8, 58u8, 32u8, 32u8, 32u8, 32u8, 32u8, 32u8]
}

/// The label of a history entry's message line.
pub open spec fn summary_label() -> Seq<u8> {
    seq![115u8, 117u8, 109u8, 109u8, 97u8, 114u8, 121u8, 58u8, 32u8, 32u8, 32u8]
}

/// One rendered history entry: the revision number and manifest reference,
/// the committer, the optional date, and the message, then a blank line.
pub open spec fn log_row(rev: int, c: ChangesetV) -> Seq<u8> {
    changeset_label() + dec_bytes(rev as nat) + seq![58u8] + hex_bytes(c.manifest_nodeid)
        + seq![10u8] + user_label() + c.committer + seq![10u8] + (match c.time {
        Option::None => Seq::<u8>::empty(),
        Option::Some(ts) => date_label() + dec_bytes(ts.secs as nat) + seq![46u8] + dec_bytes(
            ts.nanos as nat,
        ) + seq![10u8],
    }) + summary_label() + c.message + seq![10u8] + seq![10u8]
}

/// The rendered history of revisions `k - 1` down to `0`, or the first
/// failure met on the way.
pub open spec fn log_rows(v: RevLogV, k: int) -> Result<Seq<u8>, StoreError>
    decreases k,
{
    if k <= 0 {
        Result::Ok(Seq::<u8>::empty())
    } else {
        match spec_get_hunk(v, (k - 1) as u32) {
            Result::Ok(h) => match spec_decode_changeset(h) {
                Option::Some(c) => match log_rows(v, k - 1) {
                    Result::Ok(rest) => Result::Ok(log_row(k - 1, c) + rest),
                    Result::Err(e) => Result::Err(e),
                },
                Option::None => Result::Err(StoreError::FormatError),
            },
            Result::Err(e) => Result::Err(e),
        }
    }
}

/// What `log` renders: the whole history, newest first.
pub open spec fn spec_log(v: RevLogV) -> Result<Seq<u8>, StoreError> {
    match spec_size(v.index) {
        Result::Ok(n) => log_rows(v, n as int),
        Result::Err(e) => Result::Err(e),
    }
}

/// Renders one history entry.
#[verifier::rlimit(100)]
fn render_log_row(rev: u32, c: &Changeset) -> (row: Vec<u8>)
    ensures
        row@ == log_row(rev as int, c@),
{
    let mut row: Vec<u8> = Vec::new();
    row.push(99u8);
    row.push(104u8);
    row.push(97u8);
    row.push(110u8);
    row.push(103u8);
    row.push(101u8);
    row.push(115u8);
    row.push(101u8);
    row.push(116u8);
    row.push(58u8);
    row.push(32u8);
    push_decimal(&mut row, rev as u64);
    row.push(58u8);
    push_hex(&mut row, c.manifest_nodeid.as_slice());
    row.push(10u8);
    row.push(117u8);
    row.push(115u8);
    row.push(101u8);
    row.push(114u8);
    row.push(58u8);
    row.push(32u8);
    row.push(32u8);
    row.push(32u8);
    row.push(32u8);
    row.push(32u8);
    row.push(32u8);
    row.extend_from_slice(c.committer.as_slice());
    row.push(10u8);
    proof {
        assert(row@ =~= changeset_label() + dec_bytes(rev as nat) + seq![58u8] + hex_bytes(
            c@.manifest_nodeid,
        ) + seq![10u8] + user_label() + c@.committer + seq![10u8]);
    }
    let ghost head = row@;
    match c.time {
        Option::None => {
        },
        Option::Some(ts) => {
            row.push(100u8);
            row.push(97u8);
            row.push(116u8);
            row.push(101u8);
            row.push(58u8);
            row.push(32u8);
            row.push(32u8);
            row.push(32u8);
            row.push(32u8);
            row.push(32u8);
            row.push(32u8);
            push_decimal(&mut row, ts.secs);
            row.push(46u8);
            push_decimal(&mut row, ts.nanos as u64);
            row.push(10u8);
            proof {
                assert(row@ =~= head + (date_label() + dec_bytes(ts.secs as nat) + seq![46u8]
                    + dec_bytes(ts.nanos as nat) + seq![10u8]));
            }
        },
    }
    let ghost head2 = row@;
    row.push(115u8);
    row.push(117u8);
    row.push(109u8);
    row.push(109u8);
    row.push(97u8);
    row.push(114u8);
    row.push(121u8);
    row.push(58u8);
    row.push(32u8);
    row.push(32u8);
    row.push(32u8);
    row.extend_from_slice(c.message.as_slice());
    row.push(10u8);
    row.push(10u8);
    proof {
        assert(row@ =~= head2 + (summary_label() + c@.message + seq![10u8] + seq![10u8]));
        assert(row@ =~= log_row(rev as int, c@));
    }
    row
}

/// Renders the history of the repository, newest revision first.
pub fn log(changelog: &RevLog) -> (r: Result<Vec<u8>, StoreError>)
    ensures
        ({
            let s = spec_log(changelog@);
            match r {
                Result::Ok(out) => s matches Result::Ok(b) && out@ == b,
                Result::Err(e) => s matches Result::Err(e2) && e == e2,
            }
        }),
{
    let n = match changelog.size() {
        Result::Ok(v) => v,
        Result::Err(e) => {
            return Result::Err(e);
        },
    };
    let mut out: Vec<u8> = Vec::new();
    let mut k = n;
    while k > 0
        invariant
            k <= n,
            spec_size(changelog@.index) == Result::<u32, StoreError>::Ok(n),
            log_rows(changelog@, n as int) == (match log_rows(changelog@, k as int) {
                Result::Ok(rest) => Result::<Seq<u8>, StoreError>::Ok(out@ + rest),
                Result::Err(e) => Result::<Seq<u8>, StoreError>::Err(e),
            }),
        decreases k,
    {
        let h = match changelog.get_hunk(k - 1) {
            Result::Ok(h) => h,
            Result::Err(e) => {
                return Result::Err(e);
            },
        };
        let c = match Changeset::decode(&h) {
            Result::Ok(c) => c,
            Result::Err(e) => {
                return Result::Err(e);
            },
        };
        let mut row = render_log_row(k - 1, &c);
        let ghost out_old = out@;
        out.append(&mut row);
        proof {
            match log_rows(changelog@, k - 1) {
                Result::Ok(rest) => {
                    assert(out_old + (log_row(k - 1, c@) + rest) =~= out@ + rest);
                },
                Result::Err(_) => {},
            }
        }
        k -= 1;
    }
    proof {
        assert(out@ + Seq::<u8>::empty() =~= out@);
    }
    Result::Ok(out)
}

/// The rendered name of a status.
pub open spec fn status_text(s: Status) -> Seq<u8> {
    match s {
        Status::Normal => seq![78u8, 111u8, 114u8, 109u8, 97u8, 108u8],
        Status::Merged => seq![77u8, 101u8, 114u8, 103u8, 101u8, 100u8],
        Status::Added => seq![65u8, 100u8, 100u8, 101u8, 100u8],
        Status::Removed => seq![82u8, 101u8, 109u8, 111u8, 118u8, 101u8, 100u8],
    }
}

/// One rendered dirstate line: the status name, the recorded size, and the
/// path.
pub open spec fn dirstate_line(e: DirstateEntryV) -> Seq<u8> {
    status_text(e.entry.status) + seq![32u8, 32u8] + dec_bytes(e.entry.size as nat)
        + seq![32u8, 32u8] + e.path + seq![10u8]
}

/// The rendered lines of the first `upto` dirstate entries, in order.
pub open spec fn dirstate_text(es: Seq<DirstateEntryV>, upto: int) -> Seq<u8>
    decreases upto,
{
    if upto <= 0 {
        Seq::empty()
    } else {
        dirstate_text(es, upto - 1) + dirstate_line(es[upto - 1])
    }
}

/// Appends the rendered name of a status to `out`.
fn push_status(out: &mut Vec<u8>, s: Status)
    ensures
        final(out)@ == old(out)@ + status_text(s),
{
    match s {
        Status::Normal => {
            out.push(78u8);
            out.push(111u8);
            out.push(114u8);
            out.push(109u8);
            out.push(97u8);
            out.push(108u8);
        },
        Status::Merged => {
            out.push(77u8);
            out.push(101u8);
            out.push(114u8);
            out.push(103u8);
            out.push(101u8);
            out.push(100u8);
        },
        Status::Added => {
            out.push(65u8);
            out.push(100u8);
            out.push(100u8);
            out.push(101u8);
            out.push(100u8);
        },
        Status::Removed => {
            out.push(82u8);
            out.push(101u8);
            out.push(109u8);
            out.push(111u8);
            out.push(118u8);
            out.push(101u8);
            out.push(100u8);
        },
    }
    proof {
        assert(out@ =~= old(out)@ + status_text(s));
    }
}

/// Renders the dirstate's tracked paths: a read-only diagnostic listing
/// each entry's status, recorded size, and path.
pub fn debug_dirstate(d: &Dirstate) -> (out: Vec<u8>)
    ensures
        out@ == dirstate_text(d@.entries, d@.entries.len() as int),
{
    let entries = d.entries();
    let n = entries.len();
    let mut out: Vec<u8> = Vec::new();
    let mut i: usize = 0;
    while i < n
        invariant
            i <= n,
            n == entries@.len(),
            entries@.map_values(|e: DirstateEntry| e@) == d@.entries,
            out@ == dirstate_text(d@.entries, i as int),
        decreases n - i,
    {
        push_status(&mut out, entries[i].entry.status);
        out.push(32u8);
        out.push(32u8);
        push_decimal(&mut out, entries[i].entry.size);
        out.push(32u8);
        out.push(32u8);
        out.extend_from_slice(entries[i].path.as_slice());
        out.push(10u8);
        proof {
            assert(d@.entries[i as int] == entries@[i as int]@);
            assert(out@ =~= dirstate_text(d@.entries, i + 1));
        }
        i += 1;
    }
    out
}

} // verus!
