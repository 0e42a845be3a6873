use hg_rs::changeset::{Changeset, Timestamp};
use hg_rs::dirstate::{Dirstate, Entry, Status};
use hg_rs::errors::StoreError;
use hg_rs::manifest::Manifest;
use hg_rs::render::to_hex;

#[test]
fn manifest_roundtrip() {
    let mut m = Manifest::new();
    m.insert(b"a.txt".to_vec(), vec![1u8; 20]);
    m.insert(b"dir/b.txt".to_vec(), vec![2u8; 20]);
    let enc = m.encode();
    let back = Manifest::decode(&enc).unwrap();
    assert_eq!(back, m);
}

#[test]
fn empty_manifest_roundtrip() {
    let m = Manifest::new();
    let back = Manifest::decode(&m.encode()).unwrap();
    assert_eq!(back, m);
}

#[test]
fn manifest_insert_replaces_by_path() {
    let mut m = Manifest::new();
    m.insert(b"a".to_vec(), vec![1u8; 20]);
    m.insert(b"a".to_vec(), vec![9u8; 20]);
    assert_eq!(m.entries.len(), 1);
    assert_eq!(m.get(&b"a".to_vec()).unwrap(), &vec![9u8; 20]);
    assert!(m.get(&b"b".to_vec()).is_none());
}

#[test]
fn manifest_decode_rejects_truncated() {
    let mut m = Manifest::new();
    m.insert(b"a.txt".to_vec(), vec![1u8; 20]);
    let mut enc = m.encode();
    enc.pop();
    assert_eq!(Manifest::decode(&enc).unwrap_err(), StoreError::FormatError);
    assert_eq!(Manifest::decode(&vec![1, 2, 3]).unwrap_err(), StoreError::FormatError);
}

#[test]
fn manifest_decode_rejects_trailing_bytes() {
    let m = Manifest::new();
    let mut enc = m.encode();
    enc.push(0);
    assert_eq!(Manifest::decode(&enc).unwrap_err(), StoreError::FormatError);
}

fn sample_changeset(time: Option<Timestamp>) -> Changeset {
    Changeset {
        manifest_nodeid: (100u8..120u8).collect(),
        committer: b"someone@example.com".to_vec(),
        message: b"first commit".to_vec(),
        time,
        changed_files: vec![b"a.txt".to_vec(), b"dir/b.txt".to_vec()],
    }
}

#[test]
fn changeset_roundtrip_with_time() {
    let c = sample_changeset(Some(Timestamp { secs: 1600000000, nanos: 987654321 }));
    let back = Changeset::decode(&c.encode()).unwrap();
    assert_eq!(back, c);
}

#[test]
fn changeset_roundtrip_without_time() {
    let c = sample_changeset(None);
    let back = Changeset::decode(&c.encode()).unwrap();
    assert_eq!(back, c);
}

#[test]
fn default_changeset_roundtrip() {
    let c = Changeset::default();
    assert_eq!(c.manifest_nodeid, vec![0u8; 20]);
    let back = Changeset::decode(&c.encode()).unwrap();
    assert_eq!(back, c);
}

#[test]
fn changeset_decode_rejects_malformed() {
    let c = sample_changeset(None);
    let mut enc = c.encode();
    enc.pop();
    assert_eq!(Changeset::decode(&enc).unwrap_err(), StoreError::FormatError);
    let mut enc2 = c.encode();
    enc2.push(7);
    assert_eq!(Changeset::decode(&enc2).unwrap_err(), StoreError::FormatError);
    assert_eq!(Changeset::decode(&vec![0u8; 5]).unwrap_err(), StoreError::FormatError);
}

#[test]
fn dirstate_roundtrip() {
    let mut d = Dirstate::default();
    d.mark_added(b"a.txt".to_vec(), 0o644, 14, Timestamp { secs: 5, nanos: 2 });
    d.mark_added(b"b.txt".to_vec(), 0o600, 3, Timestamp { secs: 9, nanos: 0 });
    d.set_parent1_hash(vec![7u8; 20]);
    let enc = d.encode();
    let back = Dirstate::decode(&enc).unwrap();
    assert_eq!(back, d);
}

#[test]
fn dirstate_decode_rejects_malformed() {
    let d = Dirstate::default();
    let mut enc = d.encode();
    enc.pop();
    assert_eq!(Dirstate::decode(&enc).unwrap_err(), StoreError::FormatError);
    let mut enc2 = d.encode();
    enc2.push(0);
    assert_eq!(Dirstate::decode(&enc2).unwrap_err(), StoreError::FormatError);
}

#[test]
fn dirstate_decode_rejects_unknown_status_code() {
    let mut d = Dirstate::default();
    d.mark_added(b"a".to_vec(), 0, 0, Timestamp { secs: 0, nanos: 0 });
    let mut enc = d.encode();
    // the status byte follows the two parent hashes, the entry count, and
    // the length-prefixed one-byte path
    let status_at = 20 + 20 + 8 + 8 + 1;
    assert_eq!(enc[status_at], 2); // Added
    enc[status_at] = 200;
    assert_eq!(Dirstate::decode(&enc).unwrap_err(), StoreError::FormatError);
}

#[test]
fn dirstate_entry_codec_keeps_fields() {
    let mut d = Dirstate::default();
    d.mark_added(b"x".to_vec(), 0o755, 42, Timestamp { secs: 123, nanos: 456 });
    let back = Dirstate::decode(&d.encode()).unwrap();
    let e: &Entry = &back.entries()[0].entry;
    assert_eq!(e.status, Status::Added);
    assert_eq!(e.mode, 0o755);
    assert_eq!(e.size, 42);
    assert_eq!(e.mtime, Timestamp { secs: 123, nanos: 456 });
}

#[test]
fn hex_rendering() {
    assert_eq!(to_hex(&[]), b"".to_vec());
    assert_eq!(to_hex(&[0x00, 0xff, 0x1a]), b"00ff1a".to_vec());
    assert_eq!(to_hex(&[0xde, 0xad, 0xbe, 0xef]), b"deadbeef".to_vec());
}
