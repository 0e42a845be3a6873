use vstd::prelude::*;

use crate::changeset::{changeset_bytes, lemma_decode_changeset_wf, spec_decode_changeset,
    Changeset, ChangesetV, Timestamp};
use crate::codec::bytes_clone;
use crate::dirstate::{Dirstate, DirstateEntryV, Entry, FileMeta, Status};
use crate::errors::StoreError;
use crate::manifest::{lemma_decode_manifest_wf, lemma_spec_insert_wf, manifest_bytes,
    spec_decode_manifest, spec_insert, Manifest, ManifestEntryV};
use crate::revlog::{append_index, can_append, next_record_v, spec_get_last_hunk, RevLog, RevLogV};

verus! {

/// Loading the manifest a commit starts from: the latest manifest-revlog
/// payload, or the empty manifest exactly when that log is empty. An
/// unreadable log or an undecodable payload is a corruption signal,
/// surfaced, never repaired.
pub open spec fn spec_load_manifest(v: RevLogV) -> Result<Seq<ManifestEntryV>, StoreError> {
    match spec_get_last_hunk(v) {
        Result::Ok(h) => match spec_decode_manifest(h) {
            Option::Some(m) => Result::Ok(m),
            Option::None => Result::Err(StoreError::FormatError),
        },
        Result::Err(e) => if e == StoreError::EmptyLog {
            Result::Ok(Seq::empty())
        } else {
            Result::Err(e)
        },
    }
}

/// Loading the changeset a commit starts from: the latest changelog
/// payload, or the all-default changeset exactly when the changelog is
/// empty. Corruption is surfaced, never repaired.
pub open spec fn spec_load_changeset(v: RevLogV) -> Result<ChangesetV, StoreError> {
    match spec_get_last_hunk(v) {
        Result::Ok(h) => match spec_decode_changeset(h) {
            Option::Some(c) => Result::Ok(c),
            Option::None => Result::Err(StoreError::FormatError),
        },
        Result::Err(e) => if e == StoreError::EmptyLog {
            Result::Ok(ChangesetV::default_v())
        } else {
            Result::Err(e)
        },
    }
}

/// The loaded manifest, where loading succeeds.
pub open spec fn loaded_manifest(v: RevLogV) -> Seq<ManifestEntryV>
    recommends
        spec_load_manifest(v) is Ok,
{
    match spec_load_manifest(v) {
        Result::Ok(m) => m,
        Result::Err(_) => Seq::empty(),
    }
}

/// The loaded changeset, where loading succeeds.
pub open spec fn loaded_changeset(v: RevLogV) -> ChangesetV
    recommends
        spec_load_changeset(v) is Ok,
{
    match spec_load_changeset(v) {
        Result::Ok(c) => c,
        Result::Err(_) => ChangesetV::default_v(),
    }
}

/// The error of the first load step of a commit that fails: the latest
/// changeset is loaded first, then the latest manifest.
pub open spec fn commit_load_err(changelog: RevLogV, manifest_log: RevLogV) -> Option<StoreError> {
    match spec_load_changeset(changelog) {
        Result::Err(e) => Option::Some(e),
        Result::Ok(_) => match spec_load_manifest(manifest_log) {
            Result::Err(e) => Option::Some(e),
            Result::Ok(_) => Option::None,
        },
    }
}

/// The manifest after recording the first `k` committable files: for each
/// one, the hash of the revision its revlog gains, under its path.
pub open spec fn manifest_after(
    m0: Seq<ManifestEntryV>,
    ds: Seq<DirstateEntryV>,
    logs: Seq<RevLogV>,
    committable: Seq<usize>,
    contents: Seq<Seq<u8>>,
    k: int,
) -> Seq<ManifestEntryV>
    decreases k,
{
    if k <= 0 {
        m0
    } else {
        spec_insert(
            manifest_after(m0, ds, logs, committable, contents, k - 1),
            ds[committable[k - 1] as int].path,
            next_record_v(logs[k - 1].index, contents[k - 1]).hash,
        )
    }
}

/// The dirstate entries after marking the first `k` committed files clean:
/// status `Normal` with the file's current size and mode; the recorded
/// mtime and the path stay.
pub open spec fn entries_after(
    es: Seq<DirstateEntryV>,
    committable: Seq<usize>,
    metas: Seq<FileMeta>,
    k: int,
) -> Seq<DirstateEntryV>
    decreases k,
{
    if k <= 0 {
        es
    } else {
        let prev = entries_after(es, committable, metas, k - 1);
        let j = committable[k - 1] as int;
        prev.update(
            j,
            DirstateEntryV {
                path: prev[j].path,
                entry: Entry {
                    status: Status::Normal,
                    mode: metas[k - 1].mode,
                    size: metas[k - 1].size,
                    mtime: prev[j].entry.mtime,
                },
            },
        )
    }
}

/// The changed-path list of the new changeset: the committable paths, in
/// order.
pub open spec fn changed_paths(ds: Seq<DirstateEntryV>, committable: Seq<usize>) -> Seq<Seq<u8>> {
    Seq::new(committable.len(), |i: int| ds[committable[i] as int].path)
}

/// The changeset one commit appends. When no file is committable, no new
/// manifest revision is made and the manifest reference of the previous
/// changeset is carried forward.
pub open spec fn commit_changeset(
    changelog: RevLogV,
    manifest_log: RevLogV,
    ds: Seq<DirstateEntryV>,
    logs: Seq<RevLogV>,
    committable: Seq<usize>,
    contents: Seq<Seq<u8>>,
    committer: Seq<u8>,
    message: Seq<u8>,
    time: Option<Timestamp>,
) -> ChangesetV {
    let k = committable.len() as int;
    let m1 = manifest_after(loaded_manifest(manifest_log), ds, logs, committable, contents, k);
    ChangesetV {
        manifest_nodeid: if k > 0 {
            next_record_v(manifest_log.index, manifest_bytes(m1)).hash
        } else {
            loaded_changeset(changelog).manifest_nodeid
        },
        committer,
        message,
        time,
        changed_files: changed_paths(ds, committable),
    }
}

/// When a commit goes through: every touched log can take one more
/// revision, the manifest has room for the new entries, and both new
/// payloads fit a record's length field.
pub open spec fn commit_ok(
    changelog: RevLogV,
    manifest_log: RevLogV,
    ds: Seq<DirstateEntryV>,
    logs: Seq<RevLogV>,
    committable: Seq<usize>,
    contents: Seq<Seq<u8>>,
    committer: Seq<u8>,
    message: Seq<u8>,
    time: Option<Timestamp>,
) -> bool {
    let k = committable.len() as int;
    let m1 = manifest_after(loaded_manifest(manifest_log), ds, logs, committable, contents, k);
    let cs = commit_changeset(
        changelog,
        manifest_log,
        ds,
        logs,
        committable,
        contents,
        committer,
        message,
        time,
    );
    &&& spec_load_changeset(changelog) is Ok
    &&& spec_load_manifest(manifest_log) is Ok
    &&& (forall|t: int| 0 <= t < k ==> can_append((#[trigger] logs[t]).index))
    &&& loaded_manifest(manifest_log).len() + k <= u64::MAX
    &&& (k > 0 ==> can_append(manifest_log.index) && manifest_bytes(m1).len() <= 0xffff_ffff)
    &&& can_append(changelog.index)
    &&& changeset_bytes(cs).len() <= 0xffff_ffff
}

/// The one multi-log transaction: appends one revision with each
/// committable file's current bytes to that file's revlog, appends the
/// updated manifest (when anything changed) to the manifest revlog, appends
/// the new changeset to the changelog, and marks the committed dirstate
/// entries clean with the new changeset's hash as first parent.
///
/// A changelog or manifest revlog whose latest payload exists but cannot
/// be read or decoded is corrupt: the error is surfaced and nothing is
/// committed. On any failure the changelog and the dirstate are untouched,
/// and each per-file revlog and the manifest revlog is either untouched or
/// holds exactly the one appended revision: streams only ever grow, and
/// there is no rollback across the logs, a documented limitation of this
/// design.
pub fn commit(
    changelog: &mut RevLog,
    manifest_log: &mut RevLog,
    file_logs: &mut Vec<RevLog>,
    dirstate: &mut Dirstate,
    committable: &Vec<usize>,
    contents: &Vec<Vec<u8>>,
    metas: &Vec<FileMeta>,
    committer: &Vec<u8>,
    message: &Vec<u8>,
    time: Option<Timestamp>,
) -> (r: Result<(), StoreError>)
    requires
        committable@.len() == contents@.len(),
        committable@.len() == metas@.len(),
        committable@.len() == old(file_logs)@.len(),
        forall|t: int|
            0 <= t < committable@.len() ==> (#[trigger] committable@[t]) < old(
                dirstate,
            )@.entries.len(),
        forall|t: int| 0 <= t < contents@.len() ==> (#[trigger] contents@[t])@.len()
            <= 0xffff_ffff,
        old(dirstate)@.wf(),
        committer@.len() <= u64::MAX,
        message@.len() <= u64::MAX,
    ensures
        ({
            let logs = old(file_logs)@.map_values(|l: RevLog| l@);
            let conts = contents@.map_values(|c: Vec<u8>| c@);
            let ds = old(dirstate)@.entries;
            let k = committable@.len() as int;
            let m1 = manifest_after(
                loaded_manifest(old(manifest_log)@),
                ds,
                logs,
                committable@,
                conts,
                k,
            );
            let cs = commit_changeset(
                old(changelog)@,
                old(manifest_log)@,
                ds,
                logs,
                committable@,
                conts,
                committer@,
                message@,
                time,
            );
            let ok = commit_ok(
                old(changelog)@,
                old(manifest_log)@,
                ds,
                logs,
                committable@,
                conts,
                committer@,
                message@,
                time,
            );
            match r {
                Result::Ok(u) => {
                    &&& ok
                    &&& final(file_logs)@.len() == k
                    &&& forall|t: int|
                        0 <= t < k ==> (#[trigger] final(file_logs)@[t])@.index == append_index(
                            logs[t].index,
                            conts[t],
                        ) && final(file_logs)@[t]@.data == logs[t].data + conts[t]
                    &&& (k > 0 ==> final(manifest_log)@.index == append_index(
                        old(manifest_log)@.index,
                        manifest_bytes(m1),
                    ) && final(manifest_log)@.data == old(manifest_log)@.data + manifest_bytes(
                        m1,
                    ))
                    &&& (k == 0 ==> final(manifest_log)@.index == old(manifest_log)@.index
                        && final(manifest_log)@.data == old(manifest_log)@.data)
                    &&& final(changelog)@.index == append_index(
                        old(changelog)@.index,
                        changeset_bytes(cs),
                    )
                    &&& final(changelog)@.data == old(changelog)@.data + changeset_bytes(cs)
                    &&& final(dirstate)@.entries == entries_after(ds, committable@, metas@, k)
                    &&& final(dirstate)@.parent1_hash == next_record_v(
                        old(changelog)@.index,
                        changeset_bytes(cs),
                    ).hash
                    &&& final(dirstate)@.parent2_hash == old(dirstate)@.parent2_hash
                },
                Result::Err(e) => {
                    &&& !ok
                    &&& e == (match commit_load_err(old(changelog)@, old(manifest_log)@) {
                        Option::Some(le) => le,
                        Option::None => StoreError::FormatError,
                    })
                    &&& final(changelog)@.index == old(changelog)@.index
                    &&& final(changelog)@.data == old(changelog)@.data
                    &&& final(dirstate)@.entries == old(dirstate)@.entries
                    &&& final(dirstate)@.parent1_hash == old(dirstate)@.parent1_hash
                    &&& final(dirstate)@.parent2_hash == old(dirstate)@.parent2_hash
                    &&& final(file_logs)@.len() == k
                    &&& forall|t: int|
                        0 <= t < k ==> ((#[trigger] final(file_logs)@[t])@.index == logs[t].index
                            && final(file_logs)@[t]@.data == logs[t].data) || (final(file_logs)@[t]@.index
                            == append_index(logs[t].index, conts[t])
                            && final(file_logs)@[t]@.data == logs[t].data + conts[t])
                    &&& (final(manifest_log)@.index == old(manifest_log)@.index
                        && final(manifest_log)@.data == old(manifest_log)@.data) || (final(manifest_log)@.index
                        == append_index(old(manifest_log)@.index, manifest_bytes(m1))
                        && final(manifest_log)@.data == old(manifest_log)@.data + manifest_bytes(m1))
                },
            }
        }),
{
    let ghost logs0 = file_logs@.map_values(|l: RevLog| l@);
    let ghost conts = contents@.map_values(|c: Vec<u8>| c@);
    let ghost ds0 = dirstate@.entries;
    let kn = committable.len();
    let ghost kk = committable@.len() as int;

    // Latest changeset's manifest reference, for a commit with no changes.
    let prev_nodeid: Vec<u8> = match changelog.get_last_hunk() {
        Result::Ok(h) => {
            proof {
                lemma_decode_changeset_wf(h@);
            }
            match Changeset::decode(&h) {
                Result::Ok(c) => c.manifest_nodeid,
                Result::Err(e) => {
                    return Result::Err(e);
                },
            }
        },
        Result::Err(e) => match e {
            StoreError::EmptyLog => {
                let d = Changeset::default();
                d.manifest_nodeid
            },
            _ => {
                return Result::Err(e);
            },
        },
    };
    proof {
        assert(prev_nodeid@ == loaded_changeset(old(changelog)@).manifest_nodeid);
        assert(prev_nodeid@.len() == 20);
    }

    // Latest manifest, or the empty one when the log is empty.
    let mut manifest: Manifest = match manifest_log.get_last_hunk() {
        Result::Ok(h) => {
            proof {
                lemma_decode_manifest_wf(h@);
            }
            match Manifest::decode(&h) {
                Result::Ok(m) => m,
                Result::Err(e) => {
                    return Result::Err(e);
                },
            }
        },
        Result::Err(e) => match e {
            StoreError::EmptyLog => Manifest::new(),
            _ => {
                return Result::Err(e);
            },
        },
    };
    let ghost m0 = manifest@;
    proof {
        assert(m0 == loaded_manifest(old(manifest_log)@));
        assert(m0.len() <= u64::MAX);
    }

    if manifest.entries.len() as u64 > u64::MAX - (kn as u64) {
        return Result::Err(StoreError::FormatError);
    }

    // One new revision per committable file, recorded into the manifest.
    let mut changed_files: Vec<Vec<u8>> = Vec::new();
    let mut i: usize = 0;
    while i < kn
        invariant
            i <= kn,
            kn == committable@.len(),
            contents@.len() == kn,
            file_logs@.len() == kn,
            logs0.len() == kn,
            logs0 == old(file_logs)@.map_values(|l: RevLog| l@),
            conts == contents@.map_values(|c: Vec<u8>| c@),
            ds0 == dirstate@.entries,
            dirstate@.wf(),
            forall|t: int|
                0 <= t < kn ==> (#[trigger] committable@[t]) < ds0.len(),
            forall|t: int| 0 <= t < kn ==> (#[trigger] conts[t]).len() <= 0xffff_ffff,
            m0.len() + kn <= u64::MAX,
            commit_load_err(old(changelog)@, old(manifest_log)@) is None,
            manifest@ == manifest_after(m0, ds0, logs0, committable@, conts, i as int),
            manifest@.len() <= m0.len() + i,
            forall|t: int| i <= t < kn ==> (#[trigger] file_logs@[t])@ == logs0[t],
            forall|t: int|
                0 <= t < i ==> can_append((#[trigger] logs0[t]).index),
            forall|t: int|
                0 <= t < i ==> (#[trigger] file_logs@[t])@.index == append_index(
                    logs0[t].index,
                    conts[t],
                ) && file_logs@[t]@.data == logs0[t].data + conts[t],
            changed_files@.len() == i,
            forall|t: int|
                0 <= t < i ==> (#[trigger] changed_files@[t])@ == ds0[committable@[t] as int].path,
        decreases kn - i,
    {
        let j = committable[i];
        proof {
            assert(conts[i as int] == contents@[i as int]@);
        }
        let rec = {
            let log = &mut file_logs[i];
            match log.add_revision(contents[i].as_slice()) {
                Result::Ok(rec) => rec,
                Result::Err(e) => {
                    return Result::Err(e);
                },
            }
        };
        let path = dirstate.path_at(j);
        let path_for_list = dirstate.path_at(j);
        proof {
            assert(manifest@.len() < u64::MAX);
            lemma_spec_insert_wf(manifest@, path@, rec@.hash);
        }
        manifest.insert(path, rec.hash);
        changed_files.push(path_for_list);
        proof {
            assert(manifest@ == manifest_after(m0, ds0, logs0, committable@, conts, i + 1));
        }
        i += 1;
    }

    let m_enc = manifest.encode();
    let ghost m1 = manifest_after(m0, ds0, logs0, committable@, conts, kk);

    // A new manifest revision, unless nothing changed.
    let nodeid: Vec<u8> = if kn > 0 {
        if m_enc.len() as u64 > 0xffff_ffff {
            return Result::Err(StoreError::FormatError);
        }
        let rec_m = match manifest_log.add_revision(m_enc.as_slice()) {
            Result::Ok(rec) => rec,
            Result::Err(e) => {
                return Result::Err(e);
            },
        };
        rec_m.hash
    } else {
        prev_nodeid
    };

    // The new changeset, appended to the changelog.
    let cs = Changeset {
        manifest_nodeid: nodeid,
        committer: bytes_clone(committer),
        message: bytes_clone(message),
        time,
        changed_files,
    };
    proof {
        assert(cs@.changed_files =~= changed_paths(ds0, committable@));
        assert(cs@ == commit_changeset(
            old(changelog)@,
            old(manifest_log)@,
            ds0,
            logs0,
            committable@,
            conts,
            committer@,
            message@,
            time,
        ));
        assert forall|t: int|
            0 <= t < cs@.changed_files.len() implies (#[trigger] cs@.changed_files[t]).len()
            <= u64::MAX by {
            assert(cs@.changed_files[t] == ds0[committable@[t] as int].path);
        }
        assert(cs@.wf());
    }
    let cs_enc = cs.encode();
    if cs_enc.len() as u64 > 0xffff_ffff {
        return Result::Err(StoreError::FormatError);
    }
    let rec_c = match changelog.add_revision(cs_enc.as_slice()) {
        Result::Ok(rec) => rec,
        Result::Err(e) => {
            return Result::Err(e);
        },
    };

    // Mark the committed entries clean and record the new first parent.
    let ghost p1_0 = dirstate@.parent1_hash;
    let ghost p2_0 = dirstate@.parent2_hash;
    let mut t: usize = 0;
    while t < kn
        invariant
            t <= kn,
            kn == committable@.len(),
            metas@.len() == kn,
            ds0.len() == old(dirstate)@.entries.len(),
            forall|x: int|
                0 <= x < kn ==> (#[trigger] committable@[x]) < ds0.len(),
            dirstate@.entries == entries_after(ds0, committable@, metas@, t as int),
            dirstate@.entries.len() == ds0.len(),
            dirstate@.parent1_hash == p1_0,
            dirstate@.parent2_hash == p2_0,
        decreases kn - t,
    {
        let j = committable[t];
        let cur = dirstate.entry_at(j);
        dirstate.set_entry(
            j,
            Entry {
                status: Status::Normal,
                mode: metas[t].mode,
                size: metas[t].size,
                mtime: cur.mtime,
            },
        );
        proof {
            assert(dirstate@.entries == entries_after(ds0, committable@, metas@, t + 1));
        }
        t += 1;
    }
    dirstate.set_parent1_hash(rec_c.hash);
    Result::Ok(())
}

/// When a single-file snapshot goes through: both logs can take one more
/// revision, the manifest has room, and the new manifest payload fits a
/// record's length field.
pub open spec fn snapshot_ok(
    revlog: RevLogV,
    manifest_log: RevLogV,
    path: Seq<u8>,
    content: Seq<u8>,
) -> bool {
    let m0 = loaded_manifest(manifest_log);
    let m1 = spec_insert(m0, path, next_record_v(revlog.index, content).hash);
    &&& can_append(revlog.index)
    &&& spec_load_manifest(manifest_log) is Ok
    &&& m0.len() < u64::MAX
    &&& manifest_bytes(m1).len() <= 0xffff_ffff
    &&& can_append(manifest_log.index)
}

/// Appends one revision with `content` to a single file's revlog and
/// records its hash in a fresh manifest revision: the single-file snapshot
/// operation. A manifest revlog whose latest payload cannot be read or
/// decoded is corrupt: the error is surfaced and no manifest revision is
/// made. On failure the manifest revlog is untouched, but the file's
/// revlog may already hold the new revision: there is no rollback.
pub fn snapshot(
    revlog: &mut RevLog,
    manifest_log: &mut RevLog,
    path: &Vec<u8>,
    content: &[u8],
) -> (r: Result<(), StoreError>)
    requires
        content@.len() <= 0xffff_ffff,
        path@.len() <= u64::MAX,
    ensures
        ({
            let m1 = spec_insert(
                loaded_manifest(old(manifest_log)@),
                path@,
                next_record_v(old(revlog)@.index, content@).hash,
            );
            match r {
                Result::Ok(u) => {
                    &&& snapshot_ok(old(revlog)@, old(manifest_log)@, path@, content@)
                    &&& final(revlog)@.index == append_index(old(revlog)@.index, content@)
                    &&& final(revlog)@.data == old(revlog)@.data + content@
                    &&& final(manifest_log)@.index == append_index(
                        old(manifest_log)@.index,
                        manifest_bytes(m1),
                    )
                    &&& final(manifest_log)@.data == old(manifest_log)@.data + manifest_bytes(m1)
                },
                Result::Err(e) => {
                    &&& !snapshot_ok(old(revlog)@, old(manifest_log)@, path@, content@)
                    &&& e == (if !can_append(old(revlog)@.index) {
                        StoreError::FormatError
                    } else {
                        match spec_load_manifest(old(manifest_log)@) {
                            Result::Err(le) => le,
                            Result::Ok(_) => StoreError::FormatError,
                        }
                    })
                    &&& final(manifest_log)@.index == old(manifest_log)@.index
                    &&& final(manifest_log)@.data == old(manifest_log)@.data
                    &&& (final(revlog)@.index == old(revlog)@.index && final(revlog)@.data == old(
                        revlog,
                    )@.data) || (final(revlog)@.index == append_index(
                        old(revlog)@.index,
                        content@,
                    ) && final(revlog)@.data == old(revlog)@.data + content@)
                },
            }
        }),
{
    let rec = match revlog.add_revision(content) {
        Result::Ok(rec) => rec,
        Result::Err(e) => {
            return Result::Err(e);
        },
    };
    let mut manifest: Manifest = match manifest_log.get_last_hunk() {
        Result::Ok(h) => {
            proof {
                lemma_decode_manifest_wf(h@);
            }
            match Manifest::decode(&h) {
                Result::Ok(m) => m,
                Result::Err(e) => {
                    return Result::Err(e);
                },
            }
        },
        Result::Err(e) => match e {
            StoreError::EmptyLog => Manifest::new(),
            _ => {
                return Result::Err(e);
            },
        },
    };
    proof {
        assert(manifest@.len() <= u64::MAX);
    }
    if manifest.entries.len() as u64 == u64::MAX {
        return Result::Err(StoreError::FormatError);
    }
    proof {
        lemma_spec_insert_wf(manifest@, path@, rec@.hash);
    }
    manifest.insert(bytes_clone(path), rec.hash);
    let m_enc = manifest.encode();
    if m_enc.len() as u64 > 0xffff_ffff {
        return Result::Err(StoreError::FormatError);
    }
    match manifest_log.add_revision(m_enc.as_slice()) {
        Result::Ok(_) => Result::Ok(()),
        Result::Err(e) => Result::Err(e),
    }
}

} // verus!
