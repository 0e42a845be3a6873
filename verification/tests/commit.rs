use hg_rs::changeset::{Changeset, Timestamp};
use hg_rs::command::{debug_index, heads, log, render_manifest};
use hg_rs::commit::{commit, snapshot};
use hg_rs::dirstate::{Dirstate, FileMeta, Status};
use hg_rs::manifest::Manifest;
use hg_rs::revlog::RevLog;

fn t(secs: u64) -> Timestamp {
    Timestamp { secs, nanos: 0 }
}

struct World {
    changelog: RevLog,
    manifest_log: RevLog,
    file_logs: Vec<RevLog>,
    dirstate: Dirstate,
}

fn world_with_one_added_file() -> World {
    let mut dirstate = Dirstate::default();
    dirstate.mark_added(b"a.txt".to_vec(), 0o644, 14, t(3));
    World {
        changelog: RevLog::new(),
        manifest_log: RevLog::new(),
        file_logs: vec![RevLog::new()],
        dirstate,
    }
}

#[test]
fn commit_marks_added_entry_clean() {
    let mut w = world_with_one_added_file();
    let live = vec![Some(FileMeta { mode: 0o644, size: 14, mtime: t(3) })];
    let ix = w.dirstate.committable_files(&live).unwrap();
    assert_eq!(ix, vec![0]);

    let contents = vec![b"hello my bytes".to_vec()];
    let metas = vec![FileMeta { mode: 0o644, size: 14, mtime: t(3) }];
    commit(
        &mut w.changelog,
        &mut w.manifest_log,
        &mut w.file_logs,
        &mut w.dirstate,
        &ix,
        &contents,
        &metas,
        &b"someone@example.com".to_vec(),
        &b"first".to_vec(),
        Some(t(100)),
    )
    .unwrap();

    let e = &w.dirstate.entries()[0];
    assert_eq!(e.entry.status, Status::Normal);
    assert_eq!(e.entry.size, 14);
    assert_eq!(e.entry.mode, 0o644);

    // one revision in each touched log
    assert_eq!(w.file_logs[0].size().unwrap(), 1);
    assert_eq!(w.manifest_log.size().unwrap(), 1);
    assert_eq!(w.changelog.size().unwrap(), 1);

    // the new changeset references the manifest revision and lists the path
    let cs = Changeset::decode(&w.changelog.get_last_hunk().unwrap()).unwrap();
    let manifest_rec = w.manifest_log.get_record(0).unwrap();
    assert_eq!(cs.manifest_nodeid, manifest_rec.hash);
    assert_eq!(cs.changed_files, vec![b"a.txt".to_vec()]);
    assert_eq!(cs.committer, b"someone@example.com".to_vec());
    assert_eq!(cs.message, b"first".to_vec());
    assert_eq!(cs.time, Some(t(100)));

    // the manifest maps the path to the file revision's hash
    let m = Manifest::decode(&w.manifest_log.get_last_hunk().unwrap()).unwrap();
    let file_rec = w.file_logs[0].get_record(0).unwrap();
    assert_eq!(m.get(&b"a.txt".to_vec()).unwrap(), &file_rec.hash);

    // the dirstate records the new changeset as first parent
    let changelog_rec = w.changelog.get_record(0).unwrap();
    assert_eq!(w.dirstate.parent1_hash, changelog_rec.hash);
}

#[test]
fn second_commit_without_changes_keeps_manifest() {
    let mut w = world_with_one_added_file();
    let live = vec![Some(FileMeta { mode: 0o644, size: 14, mtime: t(3) })];
    let ix = w.dirstate.committable_files(&live).unwrap();
    let contents = vec![b"hello my bytes".to_vec()];
    let metas = vec![FileMeta { mode: 0o644, size: 14, mtime: t(3) }];
    commit(
        &mut w.changelog,
        &mut w.manifest_log,
        &mut w.file_logs,
        &mut w.dirstate,
        &ix,
        &contents,
        &metas,
        &b"someone@example.com".to_vec(),
        &b"first".to_vec(),
        Some(t(100)),
    )
    .unwrap();

    // nothing changed on disk: the entry is Normal with matching metadata
    let ix2 = w.dirstate.committable_files(&live).unwrap();
    assert!(ix2.is_empty());

    let manifest_size = w.manifest_log.size().unwrap();
    let file_size = w.file_logs[0].size().unwrap();
    let mut no_logs: Vec<RevLog> = Vec::new();
    commit(
        &mut w.changelog,
        &mut w.manifest_log,
        &mut no_logs,
        &mut w.dirstate,
        &ix2,
        &Vec::new(),
        &Vec::new(),
        &b"someone@example.com".to_vec(),
        &b"second".to_vec(),
        Some(t(200)),
    )
    .unwrap();

    // no new per-file or manifest revisions, but a new changelog revision
    assert_eq!(w.manifest_log.size().unwrap(), manifest_size);
    assert_eq!(w.file_logs[0].size().unwrap(), file_size);
    assert_eq!(w.changelog.size().unwrap(), 2);

    // with the same manifest hash as the previous changeset
    let first = Changeset::decode(&w.changelog.get_hunk(0).unwrap()).unwrap();
    let second = Changeset::decode(&w.changelog.get_hunk(1).unwrap()).unwrap();
    assert_eq!(second.manifest_nodeid, first.manifest_nodeid);
    assert!(second.changed_files.is_empty());
}

#[test]
fn snapshot_records_one_file() {
    let mut file_log = RevLog::new();
    let mut manifest_log = RevLog::new();
    snapshot(&mut file_log, &mut manifest_log, &b"hello.txt".to_vec(), b"contents").unwrap();
    assert_eq!(file_log.size().unwrap(), 1);
    assert_eq!(manifest_log.size().unwrap(), 1);
    let m = Manifest::decode(&manifest_log.get_last_hunk().unwrap()).unwrap();
    let rec = file_log.get_record(0).unwrap();
    assert_eq!(m.get(&b"hello.txt".to_vec()).unwrap(), &rec.hash);
    assert_eq!(file_log.get_hunk(0).unwrap(), b"contents".to_vec());
}

#[test]
fn heads_and_log_render_history() {
    let mut w = world_with_one_added_file();
    let live = vec![Some(FileMeta { mode: 0o644, size: 14, mtime: t(3) })];
    let ix = w.dirstate.committable_files(&live).unwrap();
    let contents = vec![b"hello my bytes".to_vec()];
    let metas = vec![FileMeta { mode: 0o644, size: 14, mtime: t(3) }];
    commit(
        &mut w.changelog,
        &mut w.manifest_log,
        &mut w.file_logs,
        &mut w.dirstate,
        &ix,
        &contents,
        &metas,
        &b"someone@example.com".to_vec(),
        &b"first".to_vec(),
        Some(Timestamp { secs: 7, nanos: 5 }),
    )
    .unwrap();

    let h = heads(&w.changelog).unwrap();
    assert!(h.starts_with(b"1\n"));
    let text = String::from_utf8(h).unwrap();
    assert!(text.contains("someone@example.com\n"));
    assert!(text.contains("a.txt\n"));
    assert!(text.contains("\nfirst\n"));
    assert!(text.contains("7.5\n"));

    let l = log(&w.changelog).unwrap();
    let text = String::from_utf8(l).unwrap();
    assert!(text.starts_with("changeset: 0:"));
    assert!(text.contains("user:      someone@example.com\n"));
    assert!(text.contains("date:      7.5\n"));
    assert!(text.contains("summary:   first\n"));
}

#[test]
fn debug_index_lists_records() {
    let mut log = RevLog::new();
    log.add_revision(b"hello my bytes").unwrap();
    log.add_revision(b"hello my other bytes").unwrap();
    let out = debug_index(&log).unwrap();
    let text = String::from_utf8(out).unwrap();
    let lines: Vec<&str> = text.lines().collect();
    assert_eq!(lines[0], "rev offset length base nodeid p1 p2");
    assert_eq!(lines.len(), 3);
    assert!(lines[1].starts_with("0   0   14   0   "));
    assert!(lines[2].starts_with("1   14   20   1   "));
    // the second revision's first parent is the first revision's hash
    let rec0 = log.get_record(0).unwrap();
    let nodeid0: String = rec0.hash.iter().map(|b| format!("{:02x}", b)).collect();
    assert!(lines[2].contains(&nodeid0[..12]));
}

#[test]
fn manifest_rendering() {
    let mut m = Manifest::new();
    m.insert(b"a.txt".to_vec(), vec![0xabu8; 20]);
    let mut expected = b"a.txt\x00".to_vec();
    expected.extend_from_slice("ab".repeat(20).as_bytes());
    expected.push(b'\n');
    assert_eq!(render_manifest(&m), expected);
}
