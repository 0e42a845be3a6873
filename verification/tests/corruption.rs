use hg_rs::changeset::Changeset;
use hg_rs::commit::{commit, snapshot};
use hg_rs::dirstate::Dirstate;
use hg_rs::errors::StoreError;
use hg_rs::manifest::Manifest;
use hg_rs::revlog::RevLog;

/// A revlog whose one revision's payload is not a decodable manifest or
/// changeset.
fn log_with_junk_payload() -> RevLog {
    let mut log = RevLog::new();
    log.add_revision(b"junk").unwrap();
    log
}

#[test]
fn snapshot_surfaces_corrupt_manifest_payload() {
    let mut file_log = RevLog::new();
    let mut manifest_log = log_with_junk_payload();
    let before = manifest_log.index_bytes().clone();
    let r = snapshot(&mut file_log, &mut manifest_log, &b"a.txt".to_vec(), b"contents");
    assert_eq!(r.unwrap_err(), StoreError::FormatError);
    // the corrupt manifest revlog is untouched, never silently replaced
    assert_eq!(manifest_log.index_bytes(), &before);
    assert_eq!(manifest_log.size().unwrap(), 1);
}

#[test]
fn commit_surfaces_corrupt_changelog_payload() {
    let mut changelog = log_with_junk_payload();
    let mut manifest_log = RevLog::new();
    let mut file_logs: Vec<RevLog> = Vec::new();
    let mut dirstate = Dirstate::default();
    let r = commit(
        &mut changelog,
        &mut manifest_log,
        &mut file_logs,
        &mut dirstate,
        &Vec::new(),
        &Vec::new(),
        &Vec::new(),
        &b"someone@example.com".to_vec(),
        &b"msg".to_vec(),
        None,
    );
    assert_eq!(r.unwrap_err(), StoreError::FormatError);
    assert_eq!(changelog.size().unwrap(), 1);
    assert_eq!(manifest_log.size().unwrap(), 0);
    assert_eq!(dirstate, Dirstate::default());
}

#[test]
fn commit_surfaces_corrupt_manifest_payload() {
    // a readable changelog, a corrupt manifest revlog
    let mut changelog = RevLog::new();
    changelog.add_revision(&Changeset::default().encode()).unwrap();
    let mut manifest_log = log_with_junk_payload();
    let mut file_logs: Vec<RevLog> = Vec::new();
    let mut dirstate = Dirstate::default();
    let r = commit(
        &mut changelog,
        &mut manifest_log,
        &mut file_logs,
        &mut dirstate,
        &Vec::new(),
        &Vec::new(),
        &Vec::new(),
        &b"someone@example.com".to_vec(),
        &b"msg".to_vec(),
        None,
    );
    assert_eq!(r.unwrap_err(), StoreError::FormatError);
    assert_eq!(changelog.size().unwrap(), 1);
    assert_eq!(manifest_log.size().unwrap(), 1);
}

#[test]
fn commit_surfaces_unreadable_last_hunk() {
    // a record announcing more data than the stream holds: an IoError, not
    // a silent empty default
    let mut good = RevLog::new();
    good.add_revision(&Manifest::new().encode()).unwrap();
    let index = good.index_bytes().clone();
    let mut manifest_log = RevLog::from_parts(index, Vec::new());
    let mut changelog = RevLog::new();
    let mut file_logs: Vec<RevLog> = Vec::new();
    let mut dirstate = Dirstate::default();
    let r = commit(
        &mut changelog,
        &mut manifest_log,
        &mut file_logs,
        &mut dirstate,
        &Vec::new(),
        &Vec::new(),
        &Vec::new(),
        &b"someone@example.com".to_vec(),
        &b"msg".to_vec(),
        None,
    );
    assert_eq!(r.unwrap_err(), StoreError::IoError);
    assert_eq!(changelog.size().unwrap(), 0);
}

#[test]
fn empty_logs_still_commit_from_defaults() {
    // emptiness is not corruption: the defaults stand in and the commit goes
    // through
    let mut changelog = RevLog::new();
    let mut manifest_log = RevLog::new();
    let mut file_logs: Vec<RevLog> = Vec::new();
    let mut dirstate = Dirstate::default();
    commit(
        &mut changelog,
        &mut manifest_log,
        &mut file_logs,
        &mut dirstate,
        &Vec::new(),
        &Vec::new(),
        &Vec::new(),
        &b"someone@example.com".to_vec(),
        &b"msg".to_vec(),
        None,
    )
    .unwrap();
    assert_eq!(changelog.size().unwrap(), 1);
    assert_eq!(manifest_log.size().unwrap(), 0);
    let cs = Changeset::decode(&changelog.get_last_hunk().unwrap()).unwrap();
    assert_eq!(cs.manifest_nodeid, vec![0u8; 20]);
}
