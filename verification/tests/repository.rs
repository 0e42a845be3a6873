use hg_rs::repository::{index_data_paths, Repository};

#[test]
fn test_repo_path() {
    let repo = Repository::new(b"f".to_vec());
    assert_eq!(repo.repo_path(&b"g".to_vec()), b"f/hg-rs/g".to_vec());
}

#[test]
fn file_path_is_under_the_worktree() {
    let repo = Repository::new(b"w".to_vec());
    assert_eq!(repo.file_path(&b"hello.txt".to_vec()), b"w/hello.txt".to_vec());
}

#[test]
fn revlog_paths_pair_index_and_data() {
    let (i, d) = index_data_paths(&b"dir/hello".to_vec());
    assert_eq!(i, b"dir/hello.i".to_vec());
    assert_eq!(d, b"dir/hello.d".to_vec());

    let repo = Repository::new(b".".to_vec());
    let (i, d) = repo.revlog_paths(&b"hello.txt".to_vec());
    assert_eq!(i, b"./hg-rs/store/data/hello.txt.i".to_vec());
    assert_eq!(d, b"./hg-rs/store/data/hello.txt.d".to_vec());
}

#[test]
fn fixed_store_files() {
    let repo = Repository::new(b".".to_vec());
    let (mi, md) = repo.manifest_revlog_paths();
    assert_eq!(mi, b"./hg-rs/store/00manifest.i".to_vec());
    assert_eq!(md, b"./hg-rs/store/00manifest.d".to_vec());
    let (ci, cd) = repo.changelog_revlog_paths();
    assert_eq!(ci, b"./hg-rs/store/00changelog.i".to_vec());
    assert_eq!(cd, b"./hg-rs/store/00changelog.d".to_vec());
    assert_eq!(repo.dirstate_path(), b"./hg-rs/dirstate".to_vec());
}
