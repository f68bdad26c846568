//! The tree store: folder and file rows, and the enumeration of a subtree.

use vstd::prelude::*;
use vstd::set_lib::lemma_len_subset;
use crate::models::file::{file_rows, File, FileView};
use crate::models::folder::{folder_rows, Folder, FolderView};
use crate::models::tree::{
    ancestor, has_folder, in_subtree, in_tree, lemma_index_of,
    lemma_parent_outside_subtree, lemma_subtree_child, lemma_subtree_member_exists,
    lemma_subtree_root, owned_folder, parent_of, unique_folder_ids, TreeView,
};

verus! {

/// The folders and files of all users.
#[derive(Debug)]
pub struct TreeStore {
    pub(crate) folders: Vec<Folder>,
    pub(crate) files: Vec<File>,
    pub(crate) next_folder_id: i32,
    pub(crate) next_file_id: i32,
}

impl View for TreeStore {
    type V = TreeView;

    open(crate) spec fn view(&self) -> TreeView {
        TreeView {
            folders: folder_rows(self.folders@),
            files: file_rows(self.files@),
            next_folder_id: self.next_folder_id as int,
            next_file_id: self.next_file_id as int,
        }
    }
}

/// The ids of a sequence of folder rows.
pub open spec fn folder_ids(fs: Seq<FolderView>) -> Seq<i32> {
    Seq::new(fs.len(), |i: int| fs[i].id)
}

/// A sequence of distinct folder ids is no longer than the sequence of
/// folders.
pub proof fn lemma_distinct_ids_bounded(fs: Seq<FolderView>, ids: Seq<i32>)
    requires
        ids.no_duplicates(),
        forall|j: int| 0 <= j < ids.len() ==> has_folder(fs, #[trigger] ids[j]),
    ensures
        ids.len() <= fs.len(),
{
    let all = folder_ids(fs);
    ids.unique_seq_to_set();
    all.lemma_cardinality_of_set();
    assert forall|x: i32| ids.to_set().contains(x) implies all.to_set().contains(x) by {
        let j = choose|j: int| 0 <= j < ids.len() && ids[j] == x;
        assert(has_folder(fs, ids[j]));
        let i = choose|i: int| 0 <= i < fs.len() && (#[trigger] fs[i]).id == x;
        assert(all[i] == x);
    }
    lemma_len_subset(ids.to_set(), all.to_set());
}

/// Whatever lies in the subtree of `root` is in `ids`, once `ids` holds the
/// root and the children of all its members.
pub proof fn lemma_closed_holds_subtree(
    fs: Seq<FolderView>,
    root: i32,
    ids: Seq<i32>,
    id: i32,
    steps: nat,
)
    requires
        unique_folder_ids(fs),
        ids.contains(root),
        forall|t: int|
            0 <= t < fs.len() && (#[trigger] fs[t]).fk_parent is Some && ids.contains(
                fs[t].fk_parent->0,
            ) ==> ids.contains(fs[t].id),
        ancestor(fs, id, steps) == Some(root),
    ensures
        ids.contains(id),
    decreases steps,
{
    if steps > 0 {
        let p = parent_of(fs, id)->0;
        lemma_closed_holds_subtree(fs, root, ids, p, (steps - 1) as nat);
        let t = choose|t: int| 0 <= t < fs.len() && (#[trigger] fs[t]).id == id;
        lemma_index_of(fs, t);
    }
}

/// Whether `id` is one of `ids`.
pub fn contains_id(ids: &Vec<i32>, id: i32) -> (found: bool)
    ensures
        found == ids@.contains(id),
{
    let mut i: usize = 0;
    while i < ids.len()
        invariant
            0 <= i <= ids.len(),
            forall|k: int| 0 <= k < i ==> ids@[k] != id,
        decreases ids.len() - i,
    {
        if ids[i] == id {
            return true;
        }
        i = i + 1;
    }
    false
}

/// The ids of a sequence of file rows.
pub open spec fn file_ids(files: Seq<FileView>) -> Seq<i32> {
    files.map_values(|f: FileView| f.id)
}

/// One more item of a sequence, filtered: the item is kept or left out.
pub proof fn lemma_filter_step<A>(s: Seq<A>, i: int, p: spec_fn(A) -> bool)
    requires
        0 <= i < s.len(),
    ensures
        s.take(i + 1).filter(p) == if p(s[i]) {
            s.take(i).filter(p).push(s[i])
        } else {
            s.take(i).filter(p)
        },
{
    reveal(Seq::filter);
    assert(s.take(i + 1).drop_last() == s.take(i));
}

/// Takes the marked rows out of `files` and returns their ids; the other
/// rows stay, in their order.
pub(crate) fn remove_marked_files(
    files: &mut Vec<File>,
    marks: &Vec<bool>,
    Ghost(gone): Ghost<spec_fn(FileView) -> bool>,
    Ghost(kept): Ghost<spec_fn(FileView) -> bool>,
) -> (removed: Vec<i32>)
    requires
        marks.len() == old(files).len(),
        forall|i: int|
            0 <= i < marks.len() ==> marks[i] == gone(#[trigger] old(files)@[i]@) && marks[i]
                != kept(old(files)@[i]@),
    ensures
        file_rows(final(files)@) == file_rows(old(files)@).filter(kept),
        removed@ == file_ids(file_rows(old(files)@).filter(gone)),
{
    let mut taken: Vec<File> = Vec::new();
    core::mem::swap(files, &mut taken);
    let ghost rows = file_rows(taken@);
    let mut removed: Vec<i32> = Vec::new();
    assert(rows.take(0).filter(kept) == Seq::<FileView>::empty());
    assert(rows.take(0).filter(gone) == Seq::<FileView>::empty());
    assert(file_ids(Seq::<FileView>::empty()) == Seq::<i32>::empty());
    assert(file_rows(files@) == Seq::<FileView>::empty());
    let mut k: usize = 0;
    for f in iter: taken
        invariant
            k == iter.index(),
            rows == file_rows(iter.seq()),
            iter.seq() == old(files)@,
            marks.len() == iter.seq().len(),
            forall|i: int|
                0 <= i < marks.len() ==> marks[i] == gone(#[trigger] iter.seq()[i]@) && marks[i]
                    != kept(iter.seq()[i]@),
            file_rows(files@) == rows.take(iter.index() as int).filter(kept),
            removed@ == file_ids(rows.take(iter.index() as int).filter(gone)),
    {
        let ghost i = iter.index() as int;
        proof {
            lemma_filter_step(rows, i, kept);
            lemma_filter_step(rows, i, gone);
            assert(rows[i] == f@);
            assert(marks[i] == gone(iter.seq()[i]@));
        }
        if marks[k] {
            proof {
                let before = rows.take(i).filter(gone);
                assert(file_ids(before.push(f@)) == file_ids(before).push(f.id));
            }
            removed.push(f.id);
        } else {
            assert(file_rows(files@.push(f)) == file_rows(files@).push(f@));
            files.push(f);
        }
        k = k + 1;
    }
    assert(rows.take(rows.len() as int) == rows);
    removed
}

/// Takes the marked rows out of `folders`; the other rows stay, in their
/// order.
pub(crate) fn remove_marked_folders(
    folders: &mut Vec<Folder>,
    marks: &Vec<bool>,
    Ghost(kept): Ghost<spec_fn(FolderView) -> bool>,
)
    requires
        marks.len() == old(folders).len(),
        forall|i: int|
            0 <= i < marks.len() ==> marks[i] != kept(#[trigger] old(folders)@[i]@),
    ensures
        folder_rows(final(folders)@) == folder_rows(old(folders)@).filter(kept),
{
    let mut taken: Vec<Folder> = Vec::new();
    core::mem::swap(folders, &mut taken);
    let ghost rows = folder_rows(taken@);
    assert(rows.take(0).filter(kept) == Seq::<FolderView>::empty());
    assert(folder_rows(folders@) == Seq::<FolderView>::empty());
    let mut k: usize = 0;
    for f in iter: taken
        invariant
            k == iter.index(),
            rows == folder_rows(iter.seq()),
            iter.seq() == old(folders)@,
            marks.len() == iter.seq().len(),
            forall|i: int|
                0 <= i < marks.len() ==> marks[i] != kept(#[trigger] iter.seq()[i]@),
            folder_rows(folders@) == rows.take(iter.index() as int).filter(kept),
    {
        let ghost i = iter.index() as int;
        proof {
            lemma_filter_step(rows, i, kept);
            assert(rows[i] == f@);
            assert(marks[i] != kept(iter.seq()[i]@));
        }
        if !marks[k] {
            assert(folder_rows(folders@.push(f)) == folder_rows(folders@).push(f@));
            folders.push(f);
        }
        k = k + 1;
    }
    assert(rows.take(rows.len() as int) == rows);
}

impl TreeStore {
    /// A store without rows.
    pub fn new() -> (store: TreeStore)
        ensures
            store@.wf(),
            store@.folders.len() == 0,
            store@.files.len() == 0,
            store@.next_folder_id == 1,
            store@.next_file_id == 1,
    {
        let store = TreeStore {
            folders: Vec::new(),
            files: Vec::new(),
            next_folder_id: 1,
            next_file_id: 1,
        };
        proof {
            let rank = |id: i32| 0nat;
            assert(crate::models::tree::ranked(store@.folders, rank));
        }
        store
    }

    /// Whether the store has an id left for one more file.
    pub fn has_file_id_left(&self) -> (left: bool)
        ensures
            left == (self@.next_file_id < i32::MAX),
    {
        self.next_file_id < i32::MAX
    }

    /// The parent of the folder `folder_id`; none where there is no such
    /// folder, and none where it is a root.
    pub fn parent_of_folder(&self, folder_id: i32) -> (parent: Option<i32>)
        requires
            self@.wf(),
        ensures
            parent == parent_of(self@.folders, folder_id),
    {
        let mut s: usize = 0;
        while s < self.folders.len()
            invariant
                0 <= s <= self.folders.len(),
                self@.wf(),
                forall|t: int| 0 <= t < s ==> (#[trigger] self@.folders[t]).id != folder_id,
            decreases self.folders.len() - s,
        {
            if self.folders[s].id == folder_id {
                proof {
                    assert(self@.folders[s as int].id == folder_id);
                    lemma_index_of(self@.folders, s as int);
                }
                return self.folders[s].fk_parent;
            }
            s = s + 1;
        }
        None
    }

    /// Whether `owner_id` owns a folder with id `folder_id`.
    pub fn owns_folder(&self, folder_id: i32, owner_id: i32) -> (owned: bool)
        ensures
            owned == owned_folder(self@.folders, folder_id, owner_id),
    {
        let mut s: usize = 0;
        while s < self.folders.len()
            invariant
                0 <= s <= self.folders.len(),
                forall|t: int|
                    0 <= t < s ==> !((#[trigger] self@.folders[t]).id == folder_id
                        && self@.folders[t].fk_owner == owner_id),
            decreases self.folders.len() - s,
        {
            if self.folders[s].id == folder_id && self.folders[s].fk_owner == owner_id {
                assert(self@.folders[s as int].id == folder_id);
                return true;
            }
            s = s + 1;
        }
        false
    }

    /// The folder `folder_id` of `owner_id` and all its descendants, the
    /// folder itself first. Empty where the owner has no such folder.
    pub fn folder_tree(&self, folder_id: i32, owner_id: i32) -> (ids: Vec<i32>)
        requires
            self@.wf(),
        ensures
            ids@.no_duplicates(),
            forall|id: i32| ids@.contains(id) <==> in_tree(self@.folders, folder_id, owner_id, id),
            ids@.len() > 0 ==> ids@[0] == folder_id,
            ids@.len() <= self@.folders.len(),
    {
        let mut ids: Vec<i32> = Vec::new();
        if !self.owns_folder(folder_id, owner_id) {
            return ids;
        }
        let ghost fs = self@.folders;
        ids.push(folder_id);
        proof {
            lemma_subtree_root(fs, folder_id);
            lemma_distinct_ids_bounded(fs, ids@);
        }
        let mut i: usize = 0;
        while i < ids.len()
            invariant
                fs == self@.folders,
                fs.len() == self.folders.len(),
                self@.wf(),
                owned_folder(fs, folder_id, owner_id),
                0 <= i <= ids.len(),
                ids.len() >= 1,
                ids.len() <= fs.len(),
                ids@[0] == folder_id,
                ids@.no_duplicates(),
                forall|j: int| 0 <= j < ids.len() ==> in_subtree(fs, folder_id, #[trigger] ids@[j]),
                forall|j: int|
                    1 <= j < ids.len() ==> exists|m: int|
                        0 <= m < i && parent_of(fs, #[trigger] ids@[j]) == Some(ids@[m]),
                forall|t: int, m: int|
                    0 <= t < fs.len() && 0 <= m < i && (#[trigger] fs[t]).fk_parent == Some(
                        #[trigger] ids@[m],
                    ) ==> ids@.contains(fs[t].id),
            decreases fs.len() - i,
        {
            let cur = ids[i];
            let mut s: usize = 0;
            while s < self.folders.len()
                invariant
                    fs == self@.folders,
                    fs.len() == self.folders.len(),
                    self@.wf(),
                    owned_folder(fs, folder_id, owner_id),
                    0 <= i < ids.len(),
                    0 <= s <= fs.len(),
                    cur == ids@[i as int],
                    ids.len() <= fs.len(),
                    ids@[0] == folder_id,
                    ids@.no_duplicates(),
                    forall|j: int|
                        0 <= j < ids.len() ==> in_subtree(fs, folder_id, #[trigger] ids@[j]),
                    forall|j: int|
                        1 <= j < ids.len() ==> (exists|m: int|
                            0 <= m < i && parent_of(fs, #[trigger] ids@[j]) == Some(ids@[m])) || (
                        parent_of(fs, ids@[j]) == Some(cur) && crate::models::tree::index_of(
                            fs,
                            ids@[j],
                        ) < s),
                    forall|t: int, m: int|
                        0 <= t < fs.len() && 0 <= m < i && (#[trigger] fs[t]).fk_parent == Some(
                            #[trigger] ids@[m],
                        ) ==> ids@.contains(fs[t].id),
                    forall|t: int|
                        0 <= t < s && (#[trigger] fs[t]).fk_parent == Some(cur) ==> ids@.contains(
                            fs[t].id,
                        ),
                decreases fs.len() - s,
            {
                let is_child = match self.folders[s].fk_parent {
                    Some(p) => p == cur,
                    None => false,
                };
                if is_child {
                    let child = self.folders[s].id;
                    let ghost before = ids@;
                    proof {
                        lemma_index_of(fs, s as int);
                        lemma_subtree_child(fs, folder_id, s as int);
                        if before.contains(child) {
                            let j = choose|j: int| 0 <= j < before.len() && before[j] == child;
                            if j == 0 {
                                lemma_parent_outside_subtree(fs, s as int);
                            } else {
                                if exists|m: int|
                                    0 <= m < i && parent_of(fs, before[j]) == Some(before[m]) {
                                    let m = choose|m: int|
                                        0 <= m < i && parent_of(fs, before[j]) == Some(before[m]);
                                    assert(before[m] == before[i as int]);
                                }
                            }
                        }
                    }
                    ids.push(child);
                    proof {
                        assert forall|j: int| 0 <= j < ids.len() implies in_subtree(
                            fs,
                            folder_id,
                            #[trigger] ids@[j],
                        ) by {
                            if j < before.len() {
                                assert(ids@[j] == before[j]);
                            }
                        }
                        assert forall|j: int| 0 <= j < ids.len() implies has_folder(
                            fs,
                            #[trigger] ids@[j],
                        ) by {
                            lemma_subtree_member_exists(fs, folder_id, ids@[j]);
                        }
                        lemma_distinct_ids_bounded(fs, ids@);
                        assert forall|j: int| 1 <= j < ids.len() implies (exists|m: int|
                            0 <= m < i && parent_of(fs, #[trigger] ids@[j]) == Some(ids@[m])) || (
                        parent_of(fs, ids@[j]) == Some(cur) && crate::models::tree::index_of(
                            fs,
                            ids@[j],
                        ) < s + 1) by {
                            if j < before.len() {
                                assert(ids@[j] == before[j]);
                                if exists|m: int|
                                    0 <= m < i && parent_of(fs, before[j]) == Some(before[m]) {
                                    let m = choose|m: int|
                                        0 <= m < i && parent_of(fs, before[j]) == Some(before[m]);
                                    assert(ids@[m] == before[m]);
                                }
                            }
                        }
                        assert forall|t: int, m: int|
                            0 <= t < fs.len() && 0 <= m < i && (#[trigger] fs[t]).fk_parent == Some(
                                #[trigger] ids@[m],
                            ) implies ids@.contains(fs[t].id) by {
                            assert(ids@[m] == before[m]);
                            assert(before.contains(fs[t].id));
                            let j = choose|j: int| 0 <= j < before.len() && before[j] == fs[t].id;
                            assert(ids@[j] == fs[t].id);
                        }
                        assert forall|t: int|
                            0 <= t < s + 1 && (#[trigger] fs[t]).fk_parent == Some(
                                cur,
                            ) implies ids@.contains(fs[t].id) by {
                            if t < s {
                                assert(before.contains(fs[t].id));
                                let j = choose|j: int|
                                    0 <= j < before.len() && before[j] == fs[t].id;
                                assert(ids@[j] == fs[t].id);
                            } else {
                                assert(ids@[before.len() as int] == child);
                            }
                        }
                    }
                }
                s = s + 1;
            }
            proof {
                assert forall|j: int| 1 <= j < ids.len() implies exists|m: int|
                    0 <= m < i + 1 && parent_of(fs, #[trigger] ids@[j]) == Some(ids@[m]) by {
                    if exists|m: int|
                        0 <= m < i && parent_of(fs, ids@[j]) == Some(ids@[m]) {
                        let m = choose|m: int|
                            0 <= m < i && parent_of(fs, ids@[j]) == Some(ids@[m]);
                        assert(0 <= m < i + 1 && parent_of(fs, ids@[j]) == Some(ids@[m]));
                    } else {
                        assert(parent_of(fs, ids@[j]) == Some(ids@[i as int]));
                    }
                }
            }
            i = i + 1;
        }
        proof {
            assert forall|id: i32| ids@.contains(id) <==> in_tree(
                fs,
                folder_id,
                owner_id,
                id,
            ) by {
                if in_subtree(fs, folder_id, id) {
                    let k = choose|k: nat| ancestor(fs, id, k) == Some(folder_id);
                    assert forall|t: int|
                        0 <= t < fs.len() && (#[trigger] fs[t]).fk_parent is Some
                            && ids@.contains(fs[t].fk_parent->0) implies ids@.contains(
                        fs[t].id,
                    ) by {
                        let m = choose|m: int|
                            0 <= m < ids.len() && ids@[m] == fs[t].fk_parent->0;
                        assert(fs[t].fk_parent == Some(ids@[m]));
                    }
                    assert(ids@[0] == folder_id);
                    lemma_closed_holds_subtree(fs, folder_id, ids@, id, k);
                }
            }
        }
        ids
    }
}

} // verus!
