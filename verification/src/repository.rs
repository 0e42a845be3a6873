use vstd::prelude::*;

verus! {

/// The bytes of the metadata directory's name, "hg-rs".
pub open spec fn repo_dir_name() -> Seq<u8> {
    seq![104u8, 103u8, 45u8, 114u8, 115u8]
}

/// The bytes of the directory name "store".
pub open spec fn store_dir_name() -> Seq<u8> {
    seq![115u8, 116u8, 111u8, 114u8, 101u8]
}

/// The bytes of the directory name "data".
pub open spec fn data_dir_name() -> Seq<u8> {
    seq![100u8, 97u8, 116u8, 97u8]
}

/// The bytes of the dirstate file's name, "dirstate".
pub open spec fn dirstate_file_name() -> Seq<u8> {
    seq![100u8, 105u8, 114u8, 115u8, 116u8, 97u8, 116u8, 101u8]
}

/// The bytes of the fixed manifest revlog base name, "00manifest".
pub open spec fn manifest_base_name() -> Seq<u8> {
    seq![48u8, 48u8, 109u8, 97u8, 110u8, 105u8, 102u8, 101u8, 115u8, 116u8]
}

/// The bytes of the fixed changelog revlog base name, "00changelog".
pub open spec fn changelog_base_name() -> Seq<u8> {
    seq![48u8, 48u8, 99u8, 104u8, 97u8, 110u8, 103u8, 101u8, 108u8, 111u8, 103u8]
}

/// The ".i" suffix naming an index stream file.
pub open spec fn index_suffix() -> Seq<u8> {
    seq![46u8, 105u8]
}

/// The ".d" suffix naming a data stream file.
pub open spec fn data_suffix() -> Seq<u8> {
    seq![46u8, 100u8]
}

/// Two paths joined with a single separator byte.
pub open spec fn join_path(base: Seq<u8>, rest: Seq<u8>) -> Seq<u8> {
    base + seq![47u8] + rest
}

/// Joins two paths with the '/' separator.
pub fn join(base: &Vec<u8>, rest: &Vec<u8>) -> (r: Vec<u8>)
    ensures
        r@ == join_path(base@, rest@),
{
    let mut r: Vec<u8> = Vec::new();
    r.extend_from_slice(base.as_slice());
    r.push(47u8);
    r.extend_from_slice(rest.as_slice());
    proof {
        assert(r@ =~= join_path(base@, rest@));
    }
    r
}

/// The paths of the index and data files of the revlog whose streams live
/// beside each other under `base`: `base` with ".i" and with ".d" appended.
pub fn index_data_paths(base: &Vec<u8>) -> (r: (Vec<u8>, Vec<u8>))
    ensures
        r.0@ == base@ + index_suffix(),
        r.1@ == base@ + data_suffix(),
{
    let mut index: Vec<u8> = Vec::new();
    index.extend_from_slice(base.as_slice());
    index.push(46u8);
    index.push(105u8);
    let mut data: Vec<u8> = Vec::new();
    data.extend_from_slice(base.as_slice());
    data.push(46u8);
    data.push(100u8);
    proof {
        assert(index@ =~= base@ + index_suffix());
        assert(data@ =~= base@ + data_suffix());
    }
    (index, data)
}

/// The mathematical model of a repository: its two root directories.
pub struct RepositoryV {
    pub worktree: Seq<u8>,
    pub hg_dir: Seq<u8>,
}

/// Resolves the on-disk layout: the work tree root and the metadata
/// directory beside it, holding the dirstate file and the store with one
/// revlog pair per tracked file plus the fixed manifest and changelog
/// revlogs. Paths are byte strings joined with '/'; the unverified shell
/// turns them into platform paths and does all directory creation and file
/// access.
#[derive(Debug, PartialEq, Eq)]
pub struct Repository {
    worktree: Vec<u8>,
    hg_dir: Vec<u8>,
}

impl View for Repository {
    type V = RepositoryV;

    closed spec fn view(&self) -> RepositoryV {
        RepositoryV { worktree: self.worktree@, hg_dir: self.hg_dir@ }
    }
}

impl Repository {
    /// A repository rooted at `worktree`, with the metadata directory
    /// directly under it.
    pub fn new(worktree: Vec<u8>) -> (r: Repository)
        ensures
            r@.worktree == worktree@,
            r@.hg_dir == join_path(worktree@, repo_dir_name()),
    {
        let mut name: Vec<u8> = Vec::new();
        name.push(104u8);
        name.push(103u8);
        name.push(45u8);
        name.push(114u8);
        name.push(115u8);
        proof {
            assert(name@ =~= repo_dir_name());
        }
        let hg_dir = join(&worktree, &name);
        Repository { worktree, hg_dir }
    }

    /// A path under the metadata directory.
    pub fn repo_path(&self, path: &Vec<u8>) -> (r: Vec<u8>)
        ensures
            r@ == join_path(self@.hg_dir, path@),
    {
        join(&self.hg_dir, path)
    }

    /// A path under the work tree.
    pub fn file_path(&self, path: &Vec<u8>) -> (r: Vec<u8>)
        ensures
            r@ == join_path(self@.worktree, path@),
    {
        join(&self.worktree, path)
    }

    /// The store's data directory, where tracked files' revlogs live.
    pub fn store_data_dir(&self) -> (r: Vec<u8>)
        ensures
            r@ == join_path(join_path(self@.hg_dir, store_dir_name()), data_dir_name()),
    {
        let mut store: Vec<u8> = Vec::new();
        store.push(115u8);
        store.push(116u8);
        store.push(111u8);
        store.push(114u8);
        store.push(101u8);
        let mut data: Vec<u8> = Vec::new();
        data.push(100u8);
        data.push(97u8);
        data.push(116u8);
        data.push(97u8);
        proof {
            assert(store@ =~= store_dir_name());
            assert(data@ =~= data_dir_name());
        }
        let s = join(&self.hg_dir, &store);
        join(&s, &data)
    }

    /// The index and data file paths of the revlog tracking `path`.
    pub fn revlog_paths(&self, path: &Vec<u8>) -> (r: (Vec<u8>, Vec<u8>))
        ensures
            ({
                let base = join_path(
                    join_path(join_path(self@.hg_dir, store_dir_name()), data_dir_name()),
                    path@,
                );
                r.0@ == base + index_suffix() && r.1@ == base + data_suffix()
            }),
    {
        let dir = self.store_data_dir();
        let base = join(&dir, path);
        index_data_paths(&base)
    }

    /// The index and data file paths of the fixed manifest revlog.
    pub fn manifest_revlog_paths(&self) -> (r: (Vec<u8>, Vec<u8>))
        ensures
            ({
                let base = join_path(
                    join_path(self@.hg_dir, store_dir_name()),
                    manifest_base_name(),
                );
                r.0@ == base + index_suffix() && r.1@ == base + data_suffix()
            }),
    {
        let mut store: Vec<u8> = Vec::new();
        store.push(115u8);
        store.push(116u8);
        store.push(111u8);
        store.push(114u8);
        store.push(101u8);
        let mut name: Vec<u8> = Vec::new();
        name.push(48u8);
        name.push(48u8);
        name.push(109u8);
        name.push(97u8);
        name.push(110u8);
        name.push(105u8);
        name.push(102u8);
        name.push(101u8);
        name.push(115u8);
        name.push(116u8);
        proof {
            assert(store@ =~= store_dir_name());
            assert(name@ =~= manifest_base_name());
        }
        let s = join(&self.hg_dir, &store);
        let base = join(&s, &name);
        index_data_paths(&base)
    }

    /// The index and data file paths of the fixed changelog revlog.
    pub fn changelog_revlog_paths(&self) -> (r: (Vec<u8>, Vec<u8>))
        ensures
            ({
                let base = join_path(
                    join_path(self@.hg_dir, store_dir_name()),
                    changelog_base_name(),
                );
                r.0@ == base + index_suffix() && r.1@ == base + data_suffix()
            }),
    {
        let mut store: Vec<u8> = Vec::new();
        store.push(115u8);
        store.push(116u8);
        store.push(111u8);
        store.push(114u8);
        store.push(101u8);
        let mut name: Vec<u8> = Vec::new();
        name.push(48u8);
        name.push(48u8);
        name.push(99u8);
        name.push(104u8);
        name.push(97u8);
        name.push(110u8);
        name.push(103u8);
        name.push(101u8);
        name.push(108u8);
        name.push(111u8);
        name.push(103u8);
        proof {
            assert(store@ =~= store_dir_name());
            assert(name@ =~= changelog_base_name());
        }
        let s = join(&self.hg_dir, &store);
        let base = join(&s, &name);
        index_data_paths(&base)
    }

    /// The path of the persisted dirstate file.
    pub fn dirstate_path(&self) -> (r: Vec<u8>)
        ensures
            r@ == join_path(self@.hg_dir, dirstate_file_name()),
    {
        let mut name: Vec<u8> = Vec::new();
        name.push(100u8);
        name.push(105u8);
        name.push(114u8);
        name.push(115u8);
        name.push(116u8);
        name.push(97u8);
        name.push(116u8);
        name.push(101u8);
        proof {
            assert(name@ =~= dirstate_file_name());
        }
        join(&self.hg_dir, &name)
    }
}

} // verus!
