//! Building a tree store from rows that come from elsewhere: the rows are
//! taken only where they keep the invariant.

use vstd::prelude::*;
use std::collections::HashMap;
use crate::models::file::{file_rows, File, FileView};
use crate::models::folder::{folder_rows, Folder, FolderView};
use crate::models::quota::lemma_ancestor_steps;
use crate::models::store::{lemma_distinct_ids_bounded, TreeStore};
use crate::models::tree::{
    acyclic, ancestor, files_placed, has_folder, lemma_ancestor_exists, lemma_index_of,
    lemma_no_folder_is_its_own_ancestor, owned_folder, parent_of, parents_owned, ranked,
    unique_file_ids, unique_folder_ids, TreeView,
};

verus! {

/// Whether `steps` parent links lead from `id` to a root.
pub open spec fn root_at(fs: Seq<FolderView>, id: i32, steps: nat) -> bool {
    ancestor(fs, id, steps) is Some && parent_of(fs, ancestor(fs, id, steps)->0) is None
}

/// Whether parent links lead from `id` to a root.
pub open spec fn reaches_root(fs: Seq<FolderView>, id: i32) -> bool {
    exists|steps: nat| root_at(fs, id, steps)
}

/// The number of parent links from `id` to its root.
pub open spec fn depth_of(fs: Seq<FolderView>, id: i32) -> nat {
    choose|steps: nat| root_at(fs, id, steps)
}

/// A folder has one depth only.
pub proof fn lemma_depth_unique(fs: Seq<FolderView>, id: i32, a: nat, b: nat)
    requires
        root_at(fs, id, a),
        root_at(fs, id, b),
    ensures
        a == b,
{
    if a < b {
        lemma_ancestor_steps(fs, id, a, (b - a) as nat);
    } else if b < a {
        lemma_ancestor_steps(fs, id, b, (a - b) as nat);
    }
}

/// Where every folder reaches a root, the forest has no cycle.
pub proof fn lemma_rooted_is_acyclic(fs: Seq<FolderView>)
    requires
        unique_folder_ids(fs),
        forall|i: int| 0 <= i < fs.len() ==> reaches_root(fs, (#[trigger] fs[i]).id),
    ensures
        acyclic(fs),
{
    let rank = |id: i32| depth_of(fs, id);
    assert forall|i: int| 0 <= i < fs.len() && (#[trigger] fs[i]).fk_parent is Some implies rank(
        fs[i].fk_parent->0,
    ) < rank(fs[i].id) by {
        lemma_index_of(fs, i);
        let x = fs[i].id;
        let p = fs[i].fk_parent->0;
        assert(reaches_root(fs, x));
        let k = depth_of(fs, x);
        assert(root_at(fs, x, k));
        assert(k > 0);
        assert(root_at(fs, p, (k - 1) as nat));
        lemma_depth_unique(fs, p, (k - 1) as nat, depth_of(fs, p));
    }
    assert(ranked(fs, rank));
}

/// In a forest without a cycle, a chain of parent links is shorter than the
/// number of folders.
pub proof fn lemma_chain_bounded(fs: Seq<FolderView>, id: i32, steps: nat)
    requires
        acyclic(fs),
        ancestor(fs, id, steps) is Some,
    ensures
        steps < fs.len(),
{
    let chain = Seq::new((steps + 1) as nat, |k: int| ancestor(fs, id, k as nat)->0);
    assert forall|k: int| 0 <= k <= steps implies (#[trigger] ancestor(fs, id, k as nat)) is Some by {
        lemma_chain_prefix(fs, id, steps, k as nat);
    }
    assert forall|a: int, b: int| 0 <= a < chain.len() && 0 <= b < chain.len() && a != b implies chain[a]
        != chain[b] by {
        assert(ancestor(fs, id, a as nat) is Some);
        assert(ancestor(fs, id, b as nat) is Some);
        if a < b {
            lemma_ancestor_steps(fs, id, a as nat, (b - a) as nat);
            lemma_no_folder_is_its_own_ancestor(fs, chain[a], (b - a) as nat);
        } else {
            lemma_ancestor_steps(fs, id, b as nat, (a - b) as nat);
            lemma_no_folder_is_its_own_ancestor(fs, chain[b], (a - b) as nat);
        }
    }
    assert forall|k: int| 0 <= k < chain.len() implies has_folder(fs, #[trigger] chain[k]) by {
        assert(ancestor(fs, id, k as nat) is Some);
        lemma_ancestor_exists(fs, id, k as nat);
    }
    lemma_distinct_ids_bounded(fs, chain);
}

proof fn lemma_chain_prefix(fs: Seq<FolderView>, id: i32, steps: nat, k: nat)
    requires
        ancestor(fs, id, steps) is Some,
        k <= steps,
    ensures
        ancestor(fs, id, k) is Some,
    decreases k,
{
    lemma_ancestor_exists(fs, id, steps);
    if k > 0 {
        lemma_chain_prefix(fs, parent_of(fs, id)->0, (steps - 1) as nat, (k - 1) as nat);
    }
}

/// The id that follows the largest of the ids of the folders, and 1 where
/// none is positive.
pub open spec fn next_folder_id(fs: Seq<FolderView>) -> int
    decreases fs.len(),
{
    if fs.len() == 0 {
        1
    } else if fs.last().id + 1 > next_folder_id(fs.drop_last()) {
        fs.last().id + 1
    } else {
        next_folder_id(fs.drop_last())
    }
}

/// The id that follows the largest of the ids of the files, and 1 where
/// none is positive.
pub open spec fn next_file_id(files: Seq<FileView>) -> int
    decreases files.len(),
{
    if files.len() == 0 {
        1
    } else if files.last().id + 1 > next_file_id(files.drop_last()) {
        files.last().id + 1
    } else {
        next_file_id(files.drop_last())
    }
}

/// The state of a store that holds these rows and no others.
pub open spec fn rows_view(fs: Seq<FolderView>, files: Seq<FileView>) -> TreeView {
    TreeView {
        folders: fs,
        files,
        next_folder_id: next_folder_id(fs),
        next_file_id: next_file_id(files),
    }
}

proof fn lemma_next_folder_id(fs: Seq<FolderView>, k: int)
    requires
        0 <= k <= fs.len(),
    ensures
        next_folder_id(fs.take(k)) >= 1,
        forall|i: int| 0 <= i < k ==> (#[trigger] fs[i]).id < next_folder_id(fs.take(k)),
    decreases k,
{
    if k > 0 {
        lemma_next_folder_id(fs, k - 1);
        assert(fs.take(k).drop_last() == fs.take(k - 1));
    }
}

proof fn lemma_next_file_id(files: Seq<FileView>, k: int)
    requires
        0 <= k <= files.len(),
    ensures
        next_file_id(files.take(k)) >= 1,
        forall|i: int| 0 <= i < k ==> (#[trigger] files[i]).id < next_file_id(files.take(k)),
    decreases k,
{
    if k > 0 {
        lemma_next_file_id(files, k - 1);
        assert(files.take(k).drop_last() == files.take(k - 1));
    }
}

/// Whether the map finds each of the first `k` folders by its id.
pub open spec fn indexes(index: Map<i32, usize>, fs: Seq<FolderView>, k: int) -> bool {
    &&& forall|i: int| 0 <= i < k ==> index.contains_key((#[trigger] fs[i]).id)
    &&& forall|id: i32| #[trigger]
        index.contains_key(id) ==> 0 <= index[id] < k && fs[index[id] as int].id == id
}

/// The positions of the folders by their ids; nothing where two folders
/// share an id.
fn index_folders(folders: &Vec<Folder>) -> (r: Option<HashMap<i32, usize>>)
    ensures
        r is Some <==> unique_folder_ids(folder_rows(folders@)),
        r is Some ==> indexes(r->0@, folder_rows(folders@), folders.len() as int),
{
    let ghost fs = folder_rows(folders@);
    let mut index: HashMap<i32, usize> = HashMap::new();
    let mut k: usize = 0;
    while k < folders.len()
        invariant
            0 <= k <= folders.len(),
            fs == folder_rows(folders@),
            indexes(index@, fs, k as int),
            forall|i: int, j: int|
                0 <= i < k && 0 <= j < k && (#[trigger] fs[i]).id == (#[trigger] fs[j]).id ==> i
                    == j,
        decreases folders.len() - k,
    {
        let id = folders[k].id;
        assert(fs[k as int].id == id);
        if index.contains_key(&id) {
            proof {
                let t = index@[id] as int;
                assert(fs[t].id == fs[k as int].id && t != k);
            }
            return None;
        }
        let ghost before = index@;
        index.insert(id, k);
        proof {
            assert forall|other: i32| #[trigger] index@.contains_key(other) implies 0
                <= index@[other] < k + 1 && fs[index@[other] as int].id == other by {
                if other != id {
                    assert(before.contains_key(other));
                }
            }
            assert forall|i: int, j: int|
                0 <= i < k + 1 && 0 <= j < k + 1 && (#[trigger] fs[i]).id == (
                #[trigger] fs[j]).id implies i == j by {
                if i == k && j < k {
                    assert(before.contains_key(fs[j].id));
                }
                if j == k && i < k {
                    assert(before.contains_key(fs[i].id));
                }
            }
        }
        k = k + 1;
    }
    Some(index)
}

/// Whether each parent link leads to a folder of the same owner.
fn check_parents(folders: &Vec<Folder>, index: &HashMap<i32, usize>) -> (ok: bool)
    requires
        unique_folder_ids(folder_rows(folders@)),
        indexes(index@, folder_rows(folders@), folders.len() as int),
    ensures
        ok == parents_owned(folder_rows(folders@)),
{
    let ghost fs = folder_rows(folders@);
    let mut i: usize = 0;
    while i < folders.len()
        invariant
            0 <= i <= folders.len(),
            fs == folder_rows(folders@),
            unique_folder_ids(fs),
            indexes(index@, fs, folders.len() as int),
            forall|t: int|
                0 <= t < i && (#[trigger] fs[t]).fk_parent is Some ==> owned_folder(
                    fs,
                    fs[t].fk_parent->0,
                    fs[t].fk_owner,
                ),
        decreases folders.len() - i,
    {
        assert(fs[i as int] == folders@[i as int]@);
        if let Some(p) = folders[i].fk_parent {
            let owned = match index.get(&p) {
                Some(at) => folders[*at].fk_owner == folders[i].fk_owner,
                None => false,
            };
            if !owned {
                proof {
                    if owned_folder(fs, p, fs[i as int].fk_owner) {
                        let j = choose|j: int|
                            0 <= j < fs.len() && (#[trigger] fs[j]).id == p && fs[j].fk_owner
                                == fs[i as int].fk_owner;
                        assert(index@.contains_key(fs[j].id));
                        assert(fs[index@[p] as int].id == fs[j].id);
                    }
                }
                return false;
            }
            proof {
                let at = index@[p] as int;
                assert(fs[at] == folders@[at]@);
                assert(fs[at].id == p && fs[at].fk_owner == fs[i as int].fk_owner);
            }
        }
        i = i + 1;
    }
    true
}

/// Whether the parent links have no cycle.
fn check_acyclic(folders: &Vec<Folder>, index: &HashMap<i32, usize>) -> (ok: bool)
    requires
        unique_folder_ids(folder_rows(folders@)),
        parents_owned(folder_rows(folders@)),
        indexes(index@, folder_rows(folders@), folders.len() as int),
    ensures
        ok == acyclic(folder_rows(folders@)),
{
    let ghost fs = folder_rows(folders@);
    let n = folders.len();
    let mut i: usize = 0;
    while i < n
        invariant
            0 <= i <= n,
            n == folders.len(),
            fs == folder_rows(folders@),
            unique_folder_ids(fs),
            parents_owned(fs),
            indexes(index@, fs, n as int),
            forall|t: int| 0 <= t < i ==> reaches_root(fs, (#[trigger] fs[t]).id),
        decreases n - i,
    {
        let mut cur: usize = i;
        let mut steps: usize = 0;
        proof {
            lemma_index_of(fs, i as int);
        }
        loop
            invariant
                0 <= cur < n,
                0 <= i < n,
                0 <= steps < n,
                n == folders.len(),
                fs == folder_rows(folders@),
                unique_folder_ids(fs),
                parents_owned(fs),
                indexes(index@, fs, n as int),
                ancestor(fs, fs[i as int].id, steps as nat) == Some(fs[cur as int].id),
            ensures
                reaches_root(fs, fs[i as int].id),
            decreases n - steps,
        {
            assert(fs[cur as int] == folders@[cur as int]@);
            proof {
                lemma_index_of(fs, cur as int);
            }
            match folders[cur].fk_parent {
                None => {
                    assert(root_at(fs, fs[i as int].id, steps as nat));
                    break ;
                },
                Some(p) => {
                    proof {
                        assert(owned_folder(fs, p, fs[cur as int].fk_owner));
                        let j = choose|j: int|
                            0 <= j < fs.len() && (#[trigger] fs[j]).id == p && fs[j].fk_owner
                                == fs[cur as int].fk_owner;
                        assert(index@.contains_key(fs[j].id));
                        lemma_index_of(fs, j);
                        lemma_ancestor_steps(fs, fs[i as int].id, steps as nat, 1);
                        assert(ancestor(fs, fs[cur as int].id, 1) == Some(p));
                    }
                    let next = match index.get(&p) {
                        Some(at) => *at,
                        None => {
                            return false;
                        },
                    };
                    if steps + 1 >= n {
                        proof {
                            if acyclic(fs) {
                                lemma_chain_bounded(fs, fs[i as int].id, (steps + 1) as nat);
                            }
                        }
                        return false;
                    }
                    cur = next;
                    steps = steps + 1;
                },
            }
        }
        i = i + 1;
    }
    proof {
        lemma_rooted_is_acyclic(fs);
    }
    true
}

/// Whether the files have distinct ids and sizes that are not negative, and
/// each lies in a folder of its owner.
fn check_files(folders: &Vec<Folder>, index: &HashMap<i32, usize>, files: &Vec<File>) -> (ok: bool)
    requires
        unique_folder_ids(folder_rows(folders@)),
        indexes(index@, folder_rows(folders@), folders.len() as int),
    ensures
        ok == (unique_file_ids(file_rows(files@)) && files_placed(
            folder_rows(folders@),
            file_rows(files@),
        )),
{
    let ghost fs = folder_rows(folders@);
    let ghost rows = file_rows(files@);
    let mut seen: HashMap<i32, usize> = HashMap::new();
    let mut k: usize = 0;
    while k < files.len()
        invariant
            0 <= k <= files.len(),
            fs == folder_rows(folders@),
            rows == file_rows(files@),
            unique_folder_ids(fs),
            indexes(index@, fs, folders.len() as int),
            forall|i: int| 0 <= i < k ==> seen@.contains_key((#[trigger] rows[i]).id),
            forall|id: i32| #[trigger]
                seen@.contains_key(id) ==> 0 <= seen@[id] < k && rows[seen@[id] as int].id == id,
            forall|i: int, j: int|
                0 <= i < k && 0 <= j < k && (#[trigger] rows[i]).id == (#[trigger] rows[j]).id
                    ==> i == j,
            forall|j: int|
                0 <= j < k ==> owned_folder(fs, (#[trigger] rows[j]).fk_parent, rows[j].fk_owner)
                    && rows[j].size >= 0,
        decreases files.len() - k,
    {
        let f = &files[k];
        assert(rows[k as int] == f@);
        if seen.contains_key(&f.id) {
            proof {
                let t = seen@[f.id] as int;
                assert(rows[t].id == rows[k as int].id && t != k);
            }
            return false;
        }
        let placed = match index.get(&f.fk_parent) {
            Some(at) => folders[*at].fk_owner == f.fk_owner,
            None => false,
        };
        if !placed || f.size < 0 {
            proof {
                if owned_folder(fs, f.fk_parent, f.fk_owner) {
                    let j = choose|j: int|
                        0 <= j < fs.len() && (#[trigger] fs[j]).id == f.fk_parent && fs[j].fk_owner
                            == f.fk_owner;
                    assert(index@.contains_key(fs[j].id));
                    assert(fs[index@[f.fk_parent] as int].id == fs[j].id);
                    assert(fs[j] == folders@[j]@);
                }
            }
            return false;
        }
        proof {
            let at = index@[f.fk_parent] as int;
            assert(fs[at] == folders@[at]@);
            assert(fs[at].id == f.fk_parent && fs[at].fk_owner == f.fk_owner);
        }
        let ghost before = seen@;
        seen.insert(f.id, k);
        proof {
            assert forall|other: i32| #[trigger] seen@.contains_key(other) implies 0
                <= seen@[other] < k + 1 && rows[seen@[other] as int].id == other by {
                if other != f.id {
                    assert(before.contains_key(other));
                }
            }
            assert forall|i: int, j: int|
                0 <= i < k + 1 && 0 <= j < k + 1 && (#[trigger] rows[i]).id == (
                #[trigger] rows[j]).id implies i == j by {
                if i == k && j < k {
                    assert(before.contains_key(rows[j].id));
                }
                if j == k && i < k {
                    assert(before.contains_key(rows[i].id));
                }
            }
        }
        k = k + 1;
    }
    true
}

/// The id that follows the largest of the ids of the folders.
fn folder_id_after(folders: &Vec<Folder>) -> (next: i64)
    ensures
        next == next_folder_id(folder_rows(folders@)),
        1 <= next <= 0x8000_0000,
        forall|i: int| 0 <= i < folders.len() ==> (#[trigger] folder_rows(folders@)[i]).id < next,
{
    let ghost fs = folder_rows(folders@);
    let mut next: i64 = 1;
    let mut k: usize = 0;
    assert(fs.take(0) == Seq::<FolderView>::empty());
    while k < folders.len()
        invariant
            0 <= k <= folders.len(),
            fs == folder_rows(folders@),
            next == next_folder_id(fs.take(k as int)),
            1 <= next <= 0x8000_0000,
        decreases folders.len() - k,
    {
        proof {
            assert(fs.take(k + 1).drop_last() == fs.take(k as int));
            assert(fs.take(k + 1).last() == folders@[k as int]@);
        }
        if folders[k].id as i64 + 1 > next {
            next = folders[k].id as i64 + 1;
        }
        k = k + 1;
    }
    proof {
        assert(fs.take(fs.len() as int) == fs);
        lemma_next_folder_id(fs, fs.len() as int);
    }
    next
}

/// The id that follows the largest of the ids of the files.
fn file_id_after(files: &Vec<File>) -> (next: i64)
    ensures
        next == next_file_id(file_rows(files@)),
        1 <= next <= 0x8000_0000,
        forall|i: int| 0 <= i < files.len() ==> (#[trigger] file_rows(files@)[i]).id < next,
{
    let ghost rows = file_rows(files@);
    let mut next: i64 = 1;
    let mut k: usize = 0;
    assert(rows.take(0) == Seq::<FileView>::empty());
    while k < files.len()
        invariant
            0 <= k <= files.len(),
            rows == file_rows(files@),
            next == next_file_id(rows.take(k as int)),
            1 <= next <= 0x8000_0000,
        decreases files.len() - k,
    {
        proof {
            assert(rows.take(k + 1).drop_last() == rows.take(k as int));
            assert(rows.take(k + 1).last() == files@[k as int]@);
        }
        if files[k].id as i64 + 1 > next {
            next = files[k].id as i64 + 1;
        }
        k = k + 1;
    }
    proof {
        assert(rows.take(rows.len() as int) == rows);
        lemma_next_file_id(rows, rows.len() as int);
    }
    next
}

impl TreeStore {
    /// A store that holds these rows, where they keep the invariant of a
    /// tree store; nothing where they do not. The next rows get the ids
    /// that follow the largest of those given.
    pub fn from_rows(folders: Vec<Folder>, files: Vec<File>) -> (store: Option<TreeStore>)
        ensures
            store is Some <==> rows_view(folder_rows(folders@), file_rows(files@)).wf(),
            store is Some ==> store->0@ == rows_view(folder_rows(folders@), file_rows(files@)),
    {
        let next_folder = folder_id_after(&folders);
        let next_file = file_id_after(&files);
        if next_folder > 0x7fff_ffff || next_file > 0x7fff_ffff {
            return None;
        }
        if folders.len() as u128 >= next_folder as u128 || files.len() as u128
            >= next_file as u128 {
            return None;
        }
        let index = match index_folders(&folders) {
            Some(index) => index,
            None => {
                return None;
            },
        };
        if !check_parents(&folders, &index) {
            return None;
        }
        if !check_acyclic(&folders, &index) {
            return None;
        }
        if !check_files(&folders, &index, &files) {
            return None;
        }
        Some(
            TreeStore {
                folders,
                files,
                next_folder_id: next_folder as i32,
                next_file_id: next_file as i32,
            },
        )
    }
}

} // verus!
