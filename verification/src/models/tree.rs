//! The folder forest as a mathematical object: ancestors, subtrees and the
//! well-formedness of a tree store.

use vstd::prelude::*;
use crate::models::folder::FolderView;
use crate::models::file::FileView;

verus! {

/// Whether some folder row has this id.
pub open spec fn has_folder(fs: Seq<FolderView>, id: i32) -> bool {
    exists|i: int| 0 <= i < fs.len() && (#[trigger] fs[i]).id == id
}

/// Whether some folder row has this id and this owner.
pub open spec fn owned_folder(fs: Seq<FolderView>, id: i32, owner: i32) -> bool {
    exists|i: int| 0 <= i < fs.len() && (#[trigger] fs[i]).id == id && fs[i].fk_owner == owner
}

/// The position of the folder with this id.
pub open spec fn index_of(fs: Seq<FolderView>, id: i32) -> int {
    choose|i: int| 0 <= i < fs.len() && (#[trigger] fs[i]).id == id
}

/// The parent of the folder with this id, if it exists and has one.
pub open spec fn parent_of(fs: Seq<FolderView>, id: i32) -> Option<i32> {
    if has_folder(fs, id) {
        fs[index_of(fs, id)].fk_parent
    } else {
        None
    }
}

/// The folder reached from `id` by following `steps` parent links.
pub open spec fn ancestor(fs: Seq<FolderView>, id: i32, steps: nat) -> Option<i32>
    decreases steps,
{
    if steps == 0 {
        if has_folder(fs, id) {
            Some(id)
        } else {
            None
        }
    } else {
        match parent_of(fs, id) {
            Some(p) => ancestor(fs, p, (steps - 1) as nat),
            None => None,
        }
    }
}

/// Whether `id` is `root` or one of its descendants.
pub open spec fn in_subtree(fs: Seq<FolderView>, root: i32, id: i32) -> bool {
    exists|steps: nat| ancestor(fs, id, steps) == Some(root)
}

/// Whether a folder row is a root of `owner`.
pub open spec fn is_root_of(f: FolderView, owner: i32) -> bool {
    f.fk_owner == owner && f.fk_parent is None
}

/// The roots of `owner`, in the order in which they were created.
pub open spec fn roots_of(fs: Seq<FolderView>, owner: i32) -> Seq<FolderView> {
    fs.filter(|f: FolderView| is_root_of(f, owner))
}

/// Whether `id` lies in the subtree of `root` and `root` belongs to `owner`.
pub open spec fn in_tree(fs: Seq<FolderView>, root: i32, owner: i32, id: i32) -> bool {
    owned_folder(fs, root, owner) && in_subtree(fs, root, id)
}

/// No two folder rows share an id.
pub open spec fn unique_folder_ids(fs: Seq<FolderView>) -> bool {
    forall|i: int, j: int|
        0 <= i < fs.len() && 0 <= j < fs.len() && (#[trigger] fs[i]).id == (#[trigger] fs[j]).id
            ==> i == j
}

/// No two file rows share an id.
pub open spec fn unique_file_ids(files: Seq<FileView>) -> bool {
    forall|i: int, j: int|
        0 <= i < files.len() && 0 <= j < files.len() && (#[trigger] files[i]).id == (
        #[trigger] files[j]).id ==> i == j
}

/// Every parent link leads to a folder of the same owner.
pub open spec fn parents_owned(fs: Seq<FolderView>) -> bool {
    forall|i: int|
        0 <= i < fs.len() && (#[trigger] fs[i]).fk_parent is Some ==> owned_folder(
            fs,
            fs[i].fk_parent->0,
            fs[i].fk_owner,
        )
}

/// `rank` falls strictly along every parent link.
pub open spec fn ranked(fs: Seq<FolderView>, rank: spec_fn(i32) -> nat) -> bool {
    forall|i: int|
        0 <= i < fs.len() && (#[trigger] fs[i]).fk_parent is Some ==> rank(fs[i].fk_parent->0)
            < rank(fs[i].id)
}

/// The parent relation has no cycle: the folders can be ranked so that every
/// parent ranks below its children.
pub open spec fn acyclic(fs: Seq<FolderView>) -> bool {
    exists|rank: spec_fn(i32) -> nat| ranked(fs, rank)
}

/// Every file lies in a folder of its owner and has a size that is not
/// negative.
pub open spec fn files_placed(fs: Seq<FolderView>, files: Seq<FileView>) -> bool {
    forall|j: int|
        0 <= j < files.len() ==> owned_folder(
            fs,
            (#[trigger] files[j]).fk_parent,
            files[j].fk_owner,
        ) && files[j].size >= 0
}

/// What a renaming of the folder `id` of `owner` makes of a folder row: that
/// folder gets the name `name`, every other row stays as it is.
pub open spec fn renaming(id: i32, owner: i32, name: Seq<char>) -> spec_fn(FolderView) -> FolderView {
    |f: FolderView|
        if f.id == id && f.fk_owner == owner {
            FolderView { name, ..f }
        } else {
            f
        }
}

/// The state of a tree store: its rows in the order in which they were
/// written, and the ids that the next rows will get.
pub ghost struct TreeView {
    pub folders: Seq<FolderView>,
    pub files: Seq<FileView>,
    pub next_folder_id: int,
    pub next_file_id: int,
}

impl TreeView {
    /// The invariant of the tree store.
    pub open spec fn wf(self) -> bool {
        &&& unique_folder_ids(self.folders)
        &&& unique_file_ids(self.files)
        &&& parents_owned(self.folders)
        &&& acyclic(self.folders)
        &&& files_placed(self.folders, self.files)
        &&& forall|i: int| 0 <= i < self.folders.len() ==> (#[trigger] self.folders[i]).id < self.next_folder_id
        &&& forall|j: int| 0 <= j < self.files.len() ==> (#[trigger] self.files[j]).id < self.next_file_id
        &&& 1 <= self.next_folder_id <= i32::MAX
        &&& 1 <= self.next_file_id <= i32::MAX
        &&& self.folders.len() < self.next_folder_id
        &&& self.files.len() < self.next_file_id
    }
}

impl TreeView {
    /// The store after a new folder row was written.
    pub open spec fn with_folder(self, row: FolderView) -> TreeView {
        TreeView {
            folders: self.folders.push(row),
            files: self.files,
            next_folder_id: self.next_folder_id + 1,
            next_file_id: self.next_file_id,
        }
    }

    /// The store after a new file row was written.
    pub open spec fn with_file(self, row: FileView) -> TreeView {
        TreeView {
            folders: self.folders,
            files: self.files.push(row),
            next_folder_id: self.next_folder_id,
            next_file_id: self.next_file_id + 1,
        }
    }

    /// The store with other folder rows.
    pub open spec fn with_folders(self, folders: Seq<FolderView>) -> TreeView {
        TreeView {
            folders,
            files: self.files,
            next_folder_id: self.next_folder_id,
            next_file_id: self.next_file_id,
        }
    }

    /// The store with other file rows.
    pub open spec fn with_files(self, files: Seq<FileView>) -> TreeView {
        TreeView {
            folders: self.folders,
            files,
            next_folder_id: self.next_folder_id,
            next_file_id: self.next_file_id,
        }
    }

    /// The store after the folder `id` of `owner` got the name `name`.
    pub open spec fn renamed_folder(self, id: i32, owner: i32, name: Seq<char>) -> TreeView {
        self.with_folders(self.folders.map_values(renaming(id, owner, name)))
    }

    /// The store after the file `id` of `owner` got the name `name`.
    pub open spec fn renamed_file(self, id: i32, owner: i32, name: Seq<char>) -> TreeView {
        self.with_files(
            self.files.map_values(
                |f: FileView|
                    if f.id == id && f.fk_owner == owner {
                        FileView { name, ..f }
                    } else {
                        f
                    },
            ),
        )
    }

    /// Whether `owner` may move the folder `id` into the folder `to`: both
    /// are folders of `owner`, `id` is no root, and `to` is neither `id` nor
    /// one of its descendants.
    pub open spec fn folder_move_allowed(self, id: i32, owner: i32, to: i32) -> bool {
        &&& owned_folder(self.folders, id, owner)
        &&& parent_of(self.folders, id) is Some
        &&& owned_folder(self.folders, to, owner)
        &&& !in_subtree(self.folders, id, to)
    }

    /// The store after the folder `id` got the parent `to`.
    pub open spec fn reparented_folder(self, id: i32, to: i32) -> TreeView {
        self.with_folders(
            self.folders.map_values(
                |f: FolderView|
                    if f.id == id {
                        FolderView { fk_parent: Some(to), ..f }
                    } else {
                        f
                    },
            ),
        )
    }

    /// The store after a move of the folder `id` of `owner` into `to` was
    /// asked for: the folder has the new parent where the move is allowed,
    /// and nothing has changed where it is not.
    pub open spec fn moved_folder(self, id: i32, owner: i32, to: i32) -> TreeView {
        if self.folder_move_allowed(id, owner, to) {
            self.reparented_folder(id, to)
        } else {
            self
        }
    }

    /// Whether `owner` may move the file `id` into the folder `to`.
    pub open spec fn file_move_allowed(self, id: i32, owner: i32, to: i32) -> bool {
        &&& exists|j: int|
            0 <= j < self.files.len() && (#[trigger] self.files[j]).id == id
                && self.files[j].fk_owner == owner
        &&& owned_folder(self.folders, to, owner)
    }

    /// The store after a move of the file `id` of `owner` into `to` was asked
    /// for.
    pub open spec fn moved_file(self, id: i32, owner: i32, to: i32) -> TreeView {
        if self.file_move_allowed(id, owner, to) {
            self.with_files(
                self.files.map_values(
                    |f: FileView|
                        if f.id == id {
                            FileView { fk_parent: to, ..f }
                        } else {
                            f
                        },
                ),
            )
        } else {
            self
        }
    }

    /// Whether the file row lies in the tree of the folder `root` of `owner`.
    pub open spec fn file_under(self, root: i32, owner: i32, f: FileView) -> bool {
        in_tree(self.folders, root, owner, f.fk_parent)
    }

    /// The files that lie in the tree of the folder `root` of `owner`.
    pub open spec fn files_under(self, root: i32, owner: i32) -> Seq<FileView> {
        self.files.filter(|f: FileView| self.file_under(root, owner, f))
    }

    /// The store without the files that lie in the tree of the folder `root`
    /// of `owner`.
    pub open spec fn without_files_under(self, root: i32, owner: i32) -> TreeView {
        self.with_files(self.files.filter(|f: FileView| !self.file_under(root, owner, f)))
    }

    /// Whether a delete of the tree of the folder `top` of `owner` removes
    /// the folder row: it lies in the tree, it is no root of the forest, and
    /// it is not the top of the tree where that is to be kept.
    pub open spec fn folder_doomed(self, top: i32, owner: i32, keep_top: bool, f: FolderView) -> bool {
        in_tree(self.folders, top, owner, f.id) && f.fk_parent is Some && !(keep_top && f.id == top)
    }

    /// Whether a delete of the tree of the folder `top` leaves the folder
    /// itself: it was asked for, or the folder is a root of the forest.
    pub open spec fn top_stays(self, top: i32, keep_top: bool) -> bool {
        keep_top || parent_of(self.folders, top) is None
    }

    /// The store without the folders of the tree of the folder `root` of
    /// `owner`. The folder itself stays where `keep_root` is set, and where
    /// it is a root of the forest: a root is never deleted with its tree.
    pub open spec fn without_folders_under(self, root: i32, owner: i32, keep_root: bool) -> TreeView {
        self.with_folders(
            self.folders.filter(|f: FolderView| !self.folder_doomed(root, owner, keep_root, f)),
        )
    }

    /// The row of the file `id` of `owner`, if there is one.
    pub open spec fn file_of(self, id: i32, owner: i32) -> Option<FileView> {
        if exists|j: int|
            0 <= j < self.files.len() && (#[trigger] self.files[j]).id == id
                && self.files[j].fk_owner == owner {
            let j = choose|j: int|
                0 <= j < self.files.len() && (#[trigger] self.files[j]).id == id
                    && self.files[j].fk_owner == owner;
            Some(self.files[j])
        } else {
            None
        }
    }

    /// The store without the file `id` of `owner`.
    pub open spec fn without_file(self, id: i32, owner: i32) -> TreeView {
        self.with_files(self.files.filter(|f: FileView| !(f.id == id && f.fk_owner == owner)))
    }

    /// The store without the files of `owner`.
    pub open spec fn without_files_of(self, owner: i32) -> TreeView {
        self.with_files(self.files.filter(|f: FileView| f.fk_owner != owner))
    }

    /// The store without the folders of `owner`.
    pub open spec fn without_folders_of(self, owner: i32) -> TreeView {
        self.with_folders(self.folders.filter(|f: FolderView| f.fk_owner != owner))
    }
}

/// A folder that exists is found at its position.
pub proof fn lemma_index_of(fs: Seq<FolderView>, i: int)
    requires
        unique_folder_ids(fs),
        0 <= i < fs.len(),
    ensures
        has_folder(fs, fs[i].id),
        index_of(fs, fs[i].id) == i,
        parent_of(fs, fs[i].id) == fs[i].fk_parent,
        ancestor(fs, fs[i].id, 0) == Some(fs[i].id),
{
}

/// A folder lies in its own subtree.
pub proof fn lemma_subtree_root(fs: Seq<FolderView>, root: i32)
    requires
        has_folder(fs, root),
    ensures
        in_subtree(fs, root, root),
{
    assert(ancestor(fs, root, 0) == Some(root));
}

/// A child of a folder of the subtree lies in the subtree.
pub proof fn lemma_subtree_child(fs: Seq<FolderView>, root: i32, i: int)
    requires
        unique_folder_ids(fs),
        0 <= i < fs.len(),
        fs[i].fk_parent is Some,
        in_subtree(fs, root, fs[i].fk_parent->0),
    ensures
        in_subtree(fs, root, fs[i].id),
{
    lemma_index_of(fs, i);
    let k = choose|k: nat| ancestor(fs, fs[i].fk_parent->0, k) == Some(root);
    assert(ancestor(fs, fs[i].id, k + 1) == Some(root));
}

/// A folder of the subtree other than the root has its parent in the subtree.
pub proof fn lemma_subtree_parent(fs: Seq<FolderView>, root: i32, id: i32)
    requires
        in_subtree(fs, root, id),
        id != root,
    ensures
        parent_of(fs, id) is Some,
        in_subtree(fs, root, parent_of(fs, id)->0),
{
    let k = choose|k: nat| ancestor(fs, id, k) == Some(root);
    assert(k > 0);
    assert(ancestor(fs, parent_of(fs, id)->0, (k - 1) as nat) == Some(root));
}

/// Whatever lies in a subtree is a folder.
pub proof fn lemma_subtree_member_exists(fs: Seq<FolderView>, root: i32, id: i32)
    requires
        in_subtree(fs, root, id),
    ensures
        has_folder(fs, id),
        has_folder(fs, root),
{
    let k = choose|k: nat| ancestor(fs, id, k) == Some(root);
    lemma_ancestor_exists(fs, id, k);
}

/// An ancestor is a folder, and so is the folder it was reached from.
pub proof fn lemma_ancestor_exists(fs: Seq<FolderView>, id: i32, steps: nat)
    requires
        ancestor(fs, id, steps) is Some,
    ensures
        has_folder(fs, id),
        has_folder(fs, ancestor(fs, id, steps)->0),
    decreases steps,
{
    if steps > 0 {
        lemma_ancestor_exists(fs, parent_of(fs, id)->0, (steps - 1) as nat);
    }
}

/// Along parent links the rank does not rise.
pub proof fn lemma_ancestor_rank(
    fs: Seq<FolderView>,
    rank: spec_fn(i32) -> nat,
    id: i32,
    steps: nat,
)
    requires
        ranked(fs, rank),
        ancestor(fs, id, steps) is Some,
    ensures
        rank(ancestor(fs, id, steps)->0) + steps <= rank(id),
    decreases steps,
{
    if steps > 0 {
        let i = index_of(fs, id);
        assert(fs[i].fk_parent is Some);
        lemma_ancestor_rank(fs, rank, parent_of(fs, id)->0, (steps - 1) as nat);
    }
}

/// In an acyclic forest no folder is its own ancestor.
pub proof fn lemma_no_folder_is_its_own_ancestor(fs: Seq<FolderView>, id: i32, steps: nat)
    requires
        acyclic(fs),
        steps > 0,
    ensures
        ancestor(fs, id, steps) != Some(id),
{
    let rank = choose|rank: spec_fn(i32) -> nat| ranked(fs, rank);
    if ancestor(fs, id, steps) == Some(id) {
        lemma_ancestor_rank(fs, rank, id, steps);
    }
}

/// The parent of a folder does not lie in the folder's subtree.
pub proof fn lemma_parent_outside_subtree(fs: Seq<FolderView>, i: int)
    requires
        unique_folder_ids(fs),
        acyclic(fs),
        0 <= i < fs.len(),
        fs[i].fk_parent is Some,
    ensures
        !in_subtree(fs, fs[i].id, fs[i].fk_parent->0),
{
    lemma_index_of(fs, i);
    let p = fs[i].fk_parent->0;
    if in_subtree(fs, fs[i].id, p) {
        let k = choose|k: nat| ancestor(fs, p, k) == Some(fs[i].id);
        assert(ancestor(fs, fs[i].id, k + 1) == Some(fs[i].id));
        lemma_no_folder_is_its_own_ancestor(fs, fs[i].id, k + 1);
    }
}

/// All folders of a subtree belong to the owner of its root.
pub proof fn lemma_subtree_owner(fs: Seq<FolderView>, root: i32, owner: i32, i: int)
    requires
        unique_folder_ids(fs),
        parents_owned(fs),
        owned_folder(fs, root, owner),
        0 <= i < fs.len(),
        in_subtree(fs, root, fs[i].id),
    ensures
        fs[i].fk_owner == owner,
{
    let k = choose|k: nat| ancestor(fs, fs[i].id, k) == Some(root);
    lemma_ancestor_owner(fs, root, owner, i, k);
}

proof fn lemma_ancestor_owner(fs: Seq<FolderView>, root: i32, owner: i32, i: int, steps: nat)
    requires
        unique_folder_ids(fs),
        parents_owned(fs),
        owned_folder(fs, root, owner),
        0 <= i < fs.len(),
        ancestor(fs, fs[i].id, steps) == Some(root),
    ensures
        fs[i].fk_owner == owner,
    decreases steps,
{
    lemma_index_of(fs, i);
    if steps == 0 {
    } else {
        let p = fs[i].fk_parent->0;
        assert(owned_folder(fs, p, fs[i].fk_owner));
        let j = choose|j: int| 0 <= j < fs.len() && (#[trigger] fs[j]).id == p && fs[j].fk_owner == fs[i].fk_owner;
        lemma_ancestor_owner(fs, root, owner, j, (steps - 1) as nat);
    }
}

} // verus!
