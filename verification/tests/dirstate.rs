use hg_rs::changeset::Timestamp;
use hg_rs::command::debug_dirstate;
use hg_rs::dirstate::{Dirstate, FileMeta, Status};
use hg_rs::errors::StoreError;

fn t(secs: u64) -> Timestamp {
    Timestamp { secs, nanos: 0 }
}

fn meta(size: u64, secs: u64) -> FileMeta {
    FileMeta { mode: 0o644, size, mtime: t(secs) }
}

#[test]
fn mark_added_registers_once() {
    let mut d = Dirstate::default();
    d.mark_added(b"a.txt".to_vec(), 0o644, 10, t(1));
    d.mark_added(b"a.txt".to_vec(), 0o755, 99, t(9));
    assert_eq!(d.entries().len(), 1);
    let e = &d.entries()[0];
    assert_eq!(e.path, b"a.txt".to_vec());
    assert_eq!(e.entry.status, Status::Added);
    assert_eq!(e.entry.mode, 0o644);
    assert_eq!(e.entry.size, 10);
    assert_eq!(e.entry.mtime, t(1));
}

#[test]
fn status_classifies_each_case() {
    let mut d = Dirstate::default();
    d.mark_added(b"a".to_vec(), 0o644, 1, t(1));
    assert_eq!(d.status(&b"a".to_vec(), &meta(1, 1)).unwrap(), 'A');
    assert_eq!(d.status(&b"unknown".to_vec(), &meta(1, 1)).unwrap(), '?');
    d.mut_entries()[0].entry.status = Status::Normal;
    assert_eq!(d.status(&b"a".to_vec(), &meta(1, 1)).unwrap(), 'C');
    assert_eq!(d.status(&b"a".to_vec(), &meta(2, 1)).unwrap(), 'M');
    assert_eq!(d.status(&b"a".to_vec(), &meta(1, 7)).unwrap(), 'M');
    d.mut_entries()[0].entry.status = Status::Merged;
    assert_eq!(
        d.status(&b"a".to_vec(), &meta(1, 1)).unwrap_err(),
        StoreError::UnsupportedOperation
    );
    d.mut_entries()[0].entry.status = Status::Removed;
    assert_eq!(
        d.status(&b"a".to_vec(), &meta(1, 1)).unwrap_err(),
        StoreError::UnsupportedOperation
    );
}

#[test]
fn committable_entries_pick_added_removed_and_changed() {
    let mut d = Dirstate::default();
    d.mark_added(b"added".to_vec(), 0o644, 1, t(1));
    d.mark_added(b"clean".to_vec(), 0o644, 2, t(2));
    d.mark_added(b"dirty".to_vec(), 0o644, 3, t(3));
    d.mark_added(b"gone".to_vec(), 0o644, 4, t(4));
    d.mut_entries()[1].entry.status = Status::Normal;
    d.mut_entries()[2].entry.status = Status::Normal;
    d.mut_entries()[3].entry.status = Status::Removed;
    let live = vec![
        Some(meta(1, 1)),
        Some(meta(2, 2)),       // unchanged: skipped
        Some(meta(30, 3)),      // size changed: committable
        None,                   // removed: committable regardless
    ];
    let ix = d.committable_files(&live).unwrap();
    assert_eq!(ix, vec![0, 2, 3]);
}

#[test]
fn committable_entries_skip_unreadable_normal_files() {
    let mut d = Dirstate::default();
    d.mark_added(b"a".to_vec(), 0o644, 1, t(1));
    d.mut_entries()[0].entry.status = Status::Normal;
    let ix = d.committable_files(&vec![None]).unwrap();
    assert!(ix.is_empty());
}

#[test]
fn committable_entries_fail_fast_on_merged() {
    let mut d = Dirstate::default();
    d.mark_added(b"a".to_vec(), 0o644, 1, t(1));
    d.mut_entries()[0].entry.status = Status::Merged;
    assert_eq!(
        d.committable_files(&vec![Some(meta(1, 1))]).unwrap_err(),
        StoreError::UnsupportedOperation
    );
}

#[test]
fn dirstate_rendering() {
    let mut d = Dirstate::default();
    d.mark_added(b"a.txt".to_vec(), 0o644, 5, t(1));
    assert_eq!(debug_dirstate(&d), b"Added  5  a.txt\n".to_vec());
}
