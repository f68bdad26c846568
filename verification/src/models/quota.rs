//! Sizes: the bytes under a folder and the bytes that a user has stored.

use vstd::prelude::*;
use crate::models::file::FileView;
use crate::models::folder::FolderView;
use crate::models::tree::{
    is_root_of, ancestor, files_placed, in_subtree, in_tree, lemma_index_of, lemma_subtree_owner, owned_folder, parent_of, ranked, TreeView,
};

verus! {

/// The sizes of the files that meet `p`, added up.
pub open spec fn size_sum(files: Seq<FileView>, p: spec_fn(FileView) -> bool) -> int
    decreases files.len(),
{
    if files.len() == 0 {
        0
    } else {
        size_sum(files.drop_last(), p) + if p(files.last()) {
            files.last().size as int
        } else {
            0
        }
    }
}

/// Whether a file counts for the size of the tree of the folder `root` of
/// `owner`: it lies in the tree and, where a tag is asked for, has that tag.
pub open spec fn counted(
    fs: Seq<FolderView>,
    root: i32,
    owner: i32,
    filter: Option<Seq<char>>,
    f: FileView,
) -> bool {
    in_tree(fs, root, owner, f.fk_parent) && (filter is None || f.file_type == filter)
}

/// The bytes of `files` that lie in the tree of the folder `root` of `owner`
/// and, where a tag is asked for, have that tag.
pub open spec fn tree_size(
    fs: Seq<FolderView>,
    files: Seq<FileView>,
    root: i32,
    owner: i32,
    filter: Option<Seq<char>>,
) -> int {
    size_sum(files, |f: FileView| counted(fs, root, owner, filter, f))
}

/// The sizes of the trees of those of `roots` that are roots of `owner`,
/// added up.
pub open spec fn roots_size(
    fs: Seq<FolderView>,
    roots: Seq<FolderView>,
    files: Seq<FileView>,
    owner: i32,
) -> int
    decreases roots.len(),
{
    if roots.len() == 0 {
        0
    } else {
        roots_size(fs, roots.drop_last(), files, owner) + if is_root_of(roots.last(), owner) {
            tree_size(fs, files, roots.last().id, owner, None)
        } else {
            0
        }
    }
}

impl TreeView {
    /// The bytes under the folder `root` of `owner`: the sizes of the files
    /// in its tree, of those with the tag `filter` where one is given.
    pub open spec fn folder_size(self, root: i32, owner: i32, filter: Option<Seq<char>>) -> int {
        tree_size(self.folders, self.files, root, owner, filter)
    }

    /// The bytes that `owner` has stored: the sizes of the trees of the
    /// owner's roots, added up.
    pub open spec fn used_storage(self, owner: i32) -> int {
        roots_size(self.folders, self.folders, self.files, owner)
    }
}

/// A sum of sizes lies between 0 and the number of files times the largest
/// size.
pub proof fn lemma_size_sum_bounds(files: Seq<FileView>, p: spec_fn(FileView) -> bool)
    requires
        forall|j: int| 0 <= j < files.len() ==> (#[trigger] files[j]).size >= 0,
    ensures
        0 <= size_sum(files, p) <= files.len() * 0x7fff_ffff,
    decreases files.len(),
{
    if files.len() > 0 {
        assert forall|j: int| 0 <= j < files.drop_last().len() implies (
        #[trigger] files.drop_last()[j]).size >= 0 by {
            assert(files.drop_last()[j] == files[j]);
        }
        lemma_size_sum_bounds(files.drop_last(), p);
        assert(files.last() == files[files.len() - 1]);
    }
}

/// One more file, summed: its size is added where it meets `p`.
pub proof fn lemma_size_sum_step(files: Seq<FileView>, i: int, p: spec_fn(FileView) -> bool)
    requires
        0 <= i < files.len(),
    ensures
        size_sum(files.take(i + 1), p) == size_sum(files.take(i), p) + if p(files[i]) {
            files[i].size as int
        } else {
            0
        },
{
    assert(files.take(i + 1).drop_last() == files.take(i));
}

/// Two steps up and then some more is the same as all the steps at once.
pub proof fn lemma_ancestor_steps(fs: Seq<FolderView>, id: i32, first: nat, more: nat)
    requires
        ancestor(fs, id, first) is Some,
    ensures
        ancestor(fs, id, first + more) == ancestor(fs, ancestor(fs, id, first)->0, more),
    decreases first,
{
    if first == 0 {
    } else {
        lemma_ancestor_steps(fs, parent_of(fs, id)->0, (first - 1) as nat, more);
        assert(ancestor(fs, id, first + more) == ancestor(
            fs,
            parent_of(fs, id)->0,
            (first + more - 1) as nat,
        ));
    }
}

/// A folder lies in the tree of at most one root.
pub proof fn lemma_root_unique(fs: Seq<FolderView>, r1: i32, r2: i32, id: i32)
    requires
        in_subtree(fs, r1, id),
        in_subtree(fs, r2, id),
        parent_of(fs, r1) is None,
        parent_of(fs, r2) is None,
    ensures
        r1 == r2,
{
    let k1 = choose|k: nat| ancestor(fs, id, k) == Some(r1);
    let k2 = choose|k: nat| ancestor(fs, id, k) == Some(r2);
    if k1 <= k2 {
        lemma_ancestor_steps(fs, id, k1, (k2 - k1) as nat);
    } else {
        lemma_ancestor_steps(fs, id, k2, (k1 - k2) as nat);
    }
}

/// Every folder lies in the tree of a root.
pub proof fn lemma_root_exists(fs: Seq<FolderView>, rank: spec_fn(i32) -> nat, i: int) -> (a: int)
    requires
        crate::models::tree::unique_folder_ids(fs),
        crate::models::tree::parents_owned(fs),
        ranked(fs, rank),
        0 <= i < fs.len(),
    ensures
        0 <= a < fs.len(),
        fs[a].fk_parent is None,
        in_subtree(fs, fs[a].id, fs[i].id),
    decreases rank(fs[i].id),
{
    lemma_index_of(fs, i);
    if fs[i].fk_parent is None {
        assert(ancestor(fs, fs[i].id, 0) == Some(fs[i].id));
        i
    } else {
        let p = fs[i].fk_parent->0;
        assert(owned_folder(fs, p, fs[i].fk_owner));
        let j = choose|j: int|
            0 <= j < fs.len() && (#[trigger] fs[j]).id == p && fs[j].fk_owner == fs[i].fk_owner;
        let a = lemma_root_exists(fs, rank, j);
        let k = choose|k: nat| ancestor(fs, p, k) == Some(fs[a].id);
        assert(ancestor(fs, fs[i].id, k + 1) == Some(fs[a].id));
        a
    }
}

/// What one file adds to the sizes of the trees of `roots`.
pub open spec fn share(fs: Seq<FolderView>, roots: Seq<FolderView>, owner: i32, f: FileView) -> int
    decreases roots.len(),
{
    if roots.len() == 0 {
        0
    } else {
        share(fs, roots.drop_last(), owner, f) + if is_root_of(roots.last(), owner) && in_tree(
            fs,
            roots.last().id,
            owner,
            f.fk_parent,
        ) {
            f.size as int
        } else {
            0
        }
    }
}

proof fn lemma_roots_size_split(
    fs: Seq<FolderView>,
    roots: Seq<FolderView>,
    files: Seq<FileView>,
    owner: i32,
)
    requires
        files.len() > 0,
    ensures
        roots_size(fs, roots, files, owner) == roots_size(fs, roots, files.drop_last(), owner)
            + share(fs, roots, owner, files.last()),
    decreases roots.len(),
{
    if roots.len() > 0 {
        lemma_roots_size_split(fs, roots.drop_last(), files, owner);
    }
}

proof fn lemma_roots_size_empty(fs: Seq<FolderView>, roots: Seq<FolderView>, owner: i32)
    ensures
        roots_size(fs, roots, Seq::<FileView>::empty(), owner) == 0,
    decreases roots.len(),
{
    if roots.len() > 0 {
        lemma_roots_size_empty(fs, roots.drop_last(), owner);
    }
}

proof fn lemma_share_prefix(
    fs: Seq<FolderView>,
    owner: i32,
    f: FileView,
    a: int,
    n: int,
)
    requires
        crate::models::tree::unique_folder_ids(fs),
        crate::models::tree::parents_owned(fs),
        owned_folder(fs, f.fk_parent, f.fk_owner),
        0 <= a < fs.len(),
        fs[a].fk_parent is None,
        in_subtree(fs, fs[a].id, f.fk_parent),
        0 <= n <= fs.len(),
    ensures
        share(fs, fs.take(n), owner, f) == if n > a && f.fk_owner == owner {
            f.size as int
        } else {
            0
        },
    decreases n,
{
    if n > 0 {
        lemma_share_prefix(fs, owner, f, a, n - 1);
        assert(fs.take(n).drop_last() == fs.take(n - 1));
        let r = fs[n - 1];
        assert(fs.take(n).last() == r);
        lemma_index_of(fs, n - 1);
        lemma_index_of(fs, a);
        let p = choose|p: int|
            0 <= p < fs.len() && (#[trigger] fs[p]).id == f.fk_parent && fs[p].fk_owner
                == f.fk_owner;
        if n - 1 == a {
            if r.fk_owner == owner {
                lemma_subtree_owner(fs, r.id, owner, p);
            } else if f.fk_owner == owner {
                lemma_subtree_owner(fs, r.id, r.fk_owner, p);
            }
        } else {
            if is_root_of(r, owner) && in_tree(fs, r.id, owner, f.fk_parent) {
                lemma_root_unique(fs, r.id, fs[a].id, f.fk_parent);
            }
        }
    }
}

/// What a user has stored is the sizes of the user's files, added up.
pub proof fn lemma_used_storage_is_sum_of_owned(t: TreeView, owner: i32)
    requires
        t.wf(),
    ensures
        t.used_storage(owner) == size_sum(t.files, |f: FileView| f.fk_owner == owner),
{
    lemma_roots_size_is_sum_of_owned(t.folders, t.files, owner);
}

proof fn lemma_roots_size_is_sum_of_owned(fs: Seq<FolderView>, files: Seq<FileView>, owner: i32)
    requires
        crate::models::tree::unique_folder_ids(fs),
        crate::models::tree::parents_owned(fs),
        crate::models::tree::acyclic(fs),
        files_placed(fs, files),
    ensures
        roots_size(fs, fs, files, owner) == size_sum(files, |f: FileView| f.fk_owner == owner),
    decreases files.len(),
{
    if files.len() == 0 {
        assert(files == Seq::<FileView>::empty());
        lemma_roots_size_empty(fs, fs, owner);
    } else {
        let rest = files.drop_last();
        let f = files.last();
        assert forall|j: int| 0 <= j < rest.len() implies owned_folder(
            fs,
            (#[trigger] rest[j]).fk_parent,
            rest[j].fk_owner,
        ) && rest[j].size >= 0 by {
            assert(rest[j] == files[j]);
        }
        lemma_roots_size_is_sum_of_owned(fs, rest, owner);
        lemma_roots_size_split(fs, fs, files, owner);
        assert(f == files[files.len() - 1]);
        let p = choose|p: int|
            0 <= p < fs.len() && (#[trigger] fs[p]).id == f.fk_parent && fs[p].fk_owner
                == f.fk_owner;
        let rank = choose|rank: spec_fn(i32) -> nat| ranked(fs, rank);
        let a = lemma_root_exists(fs, rank, p);
        assert(fs.take(fs.len() as int) == fs);
        lemma_share_prefix(fs, owner, f, a, fs.len() as int);
        let own = |f: FileView| f.fk_owner == owner;
        assert(size_sum(files, own) == size_sum(rest, own) + if own(f) {
            f.size as int
        } else {
            0
        });
    }
}

/// Writing a file raises what its owner has stored by the file's size, and
/// leaves what the others have stored as it is. The file is one that the
/// store takes: it gets the next id, lies in a folder of its owner, and has
/// a size that is not negative.
pub proof fn lemma_used_storage_after_new_file(t: TreeView, row: FileView, owner: i32)
    requires
        t.wf(),
        row.id == t.next_file_id,
        t.next_file_id < i32::MAX,
        row.size >= 0,
        owned_folder(t.folders, row.fk_parent, row.fk_owner),
    ensures
        t.with_file(row).used_storage(owner) == t.used_storage(owner) + if row.fk_owner == owner {
            row.size as int
        } else {
            0
        },
{
    crate::models::preserve::lemma_with_file_wf(t, row);
    lemma_used_storage_is_sum_of_owned(t, owner);
    lemma_used_storage_is_sum_of_owned(t.with_file(row), owner);
    lemma_size_sum_push(t.files, row, |f: FileView| f.fk_owner == owner);
}

proof fn lemma_size_sum_push(files: Seq<FileView>, row: FileView, p: spec_fn(FileView) -> bool)
    ensures
        size_sum(files.push(row), p) == size_sum(files, p) + if p(row) {
            row.size as int
        } else {
            0
        },
{
    assert(files.push(row).drop_last() == files);
}

proof fn lemma_size_sum_filtered(
    files: Seq<FileView>,
    kept: spec_fn(FileView) -> bool,
    p: spec_fn(FileView) -> bool,
)
    ensures
        size_sum(files.filter(kept), p) == size_sum(files, |f: FileView| kept(f) && p(f)),
    decreases files.len(),
{
    reveal(Seq::filter);
    if files.len() > 0 {
        lemma_size_sum_filtered(files.drop_last(), kept, p);
        if kept(files.last()) {
            assert(files.filter(kept).drop_last() == files.drop_last().filter(kept));
        }
    }
}

proof fn lemma_size_sum_parts(
    files: Seq<FileView>,
    kept: spec_fn(FileView) -> bool,
    p: spec_fn(FileView) -> bool,
)
    ensures
        size_sum(files, p) == size_sum(files, |f: FileView| kept(f) && p(f)) + size_sum(
            files,
            |f: FileView| !kept(f) && p(f),
        ),
    decreases files.len(),
{
    if files.len() > 0 {
        lemma_size_sum_parts(files.drop_last(), kept, p);
    }
}

proof fn lemma_size_sum_single(files: Seq<FileView>, q: spec_fn(FileView) -> bool, at: int)
    requires
        0 <= at < files.len(),
        q(files[at]),
        forall|j: int| 0 <= j < files.len() && j != at ==> !q(#[trigger] files[j]),
    ensures
        size_sum(files, q) == files[at].size,
    decreases files.len(),
{
    let rest = files.drop_last();
    if at == files.len() - 1 {
        lemma_size_sum_none(rest, q);
    } else {
        assert(rest[at] == files[at]);
        lemma_size_sum_single(rest, q, at);
    }
}

proof fn lemma_size_sum_none(files: Seq<FileView>, q: spec_fn(FileView) -> bool)
    requires
        forall|j: int| 0 <= j < files.len() ==> !q(#[trigger] files[j]),
    ensures
        size_sum(files, q) == 0,
    decreases files.len(),
{
    if files.len() > 0 {
        let rest = files.drop_last();
        assert forall|j: int| 0 <= j < rest.len() implies !q(#[trigger] rest[j]) by {
            assert(rest[j] == files[j]);
        }
        lemma_size_sum_none(rest, q);
        assert(files.last() == files[files.len() - 1]);
    }
}

/// Deleting a file lowers what its owner has stored by the file's size;
/// where the owner has no such file, nothing changes.
pub proof fn lemma_used_storage_after_delete_file(t: TreeView, id: i32, owner: i32)
    requires
        t.wf(),
    ensures
        t.without_file(id, owner).used_storage(owner) == t.used_storage(owner) - match t.file_of(
            id,
            owner,
        ) {
            Some(f) => f.size as int,
            None => 0,
        },
{
    let kept = |f: FileView| !(f.id == id && f.fk_owner == owner);
    let p = |f: FileView| f.fk_owner == owner;
    crate::models::preserve::lemma_fewer_files_wf(t, kept);
    lemma_used_storage_is_sum_of_owned(t, owner);
    lemma_used_storage_is_sum_of_owned(t.without_file(id, owner), owner);
    lemma_size_sum_filtered(t.files, kept, p);
    lemma_size_sum_parts(t.files, kept, p);
    let q = |f: FileView| !kept(f) && p(f);
    if exists|j: int|
        0 <= j < t.files.len() && (#[trigger] t.files[j]).id == id && t.files[j].fk_owner
            == owner {
        let j = choose|j: int|
            0 <= j < t.files.len() && (#[trigger] t.files[j]).id == id && t.files[j].fk_owner
                == owner;
        assert forall|k: int| 0 <= k < t.files.len() && k != j implies !q(
            #[trigger] t.files[k],
        ) by {
            if q(t.files[k]) {
                assert(t.files[k].id == t.files[j].id);
            }
        }
        lemma_size_sum_single(t.files, q, j);
    } else {
        lemma_size_sum_none(t.files, q);
    }
}

} // verus!
