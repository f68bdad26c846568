//! The changes that a tree store makes keep its invariant.

use vstd::prelude::*;
use crate::models::file::FileView;
use crate::models::folder::FolderView;
use crate::models::tree::{
    acyclic, files_placed, in_subtree, index_of, lemma_index_of,
    lemma_parent_outside_subtree, lemma_subtree_child, lemma_subtree_parent, lemma_subtree_root,
    owned_folder, parents_owned, ranked, unique_file_ids, unique_folder_ids, TreeView,
};

verus! {

/// Filtering keeps the order: each kept item stands at a position of the
/// whole sequence, and a later kept item at a later position.
pub proof fn lemma_filter_positions<A>(s: Seq<A>, p: spec_fn(A) -> bool) -> (at: Seq<int>)
    ensures
        at.len() == s.filter(p).len(),
        forall|k: int| 0 <= k < at.len() ==> 0 <= #[trigger] at[k] < s.len(),
        forall|k: int| 0 <= k < at.len() ==> s[#[trigger] at[k]] == s.filter(p)[k],
        forall|k: int, l: int| 0 <= k < l < at.len() ==> at[k] < at[l],
        forall|i: int|
            0 <= i < s.len() && p(#[trigger] s[i]) ==> exists|k: int|
                0 <= k < at.len() && at[k] == i,
        forall|k: int| 0 <= k < at.len() ==> p(s[#[trigger] at[k]]),
    decreases s.len(),
{
    reveal(Seq::filter);
    if s.len() == 0 {
        Seq::empty()
    } else {
        let rest = s.drop_last();
        let at0 = lemma_filter_positions(rest, p);
        let at = if p(s.last()) {
            at0.push(s.len() - 1)
        } else {
            at0
        };
        assert forall|i: int| 0 <= i < s.len() && p(#[trigger] s[i]) implies exists|k: int|
            0 <= k < at.len() && at[k] == i by {
            if i < s.len() - 1 {
                assert(rest[i] == s[i]);
                let k = choose|k: int| 0 <= k < at0.len() && at0[k] == i;
                assert(at[k] == i);
            } else {
                assert(at[at.len() - 1] == i);
            }
        }
        assert forall|k: int| 0 <= k < at.len() implies s[#[trigger] at[k]] == s.filter(p)[k] by {
            if k < at0.len() {
                assert(rest[at0[k]] == s[at0[k]]);
            }
        }
        assert forall|k: int| 0 <= k < at.len() implies p(s[#[trigger] at[k]]) by {
            if k < at0.len() {
                assert(rest[at0[k]] == s[at0[k]]);
            }
        }
        at
    }
}

/// Writing a new folder row keeps the invariant.
pub proof fn lemma_with_folder_wf(t: TreeView, row: FolderView)
    requires
        t.wf(),
        row.id == t.next_folder_id,
        t.next_folder_id < i32::MAX,
        row.fk_parent is Some ==> owned_folder(t.folders, row.fk_parent->0, row.fk_owner),
    ensures
        t.with_folder(row).wf(),
{
    let fs = t.folders;
    let fs2 = t.with_folder(row).folders;
    assert forall|id: i32, owner: i32| owned_folder(fs, id, owner) implies owned_folder(
        fs2,
        id,
        owner,
    ) by {
        let i = choose|i: int|
            0 <= i < fs.len() && (#[trigger] fs[i]).id == id && fs[i].fk_owner == owner;
        assert(fs2[i] == fs[i]);
    }
    assert(parents_owned(fs2)) by {
        assert forall|i: int| 0 <= i < fs2.len() && (#[trigger] fs2[i]).fk_parent is Some implies owned_folder(
            fs2,
            fs2[i].fk_parent->0,
            fs2[i].fk_owner,
        ) by {
            if i < fs.len() {
                assert(fs2[i] == fs[i]);
            }
        }
    }
    assert(acyclic(fs2)) by {
        let rank = choose|rank: spec_fn(i32) -> nat| ranked(fs, rank);
        let rank2 = |id: i32|
            if id == row.id {
                if row.fk_parent is Some {
                    rank(row.fk_parent->0) + 1
                } else {
                    0nat
                }
            } else {
                rank(id)
            };
        assert forall|i: int| 0 <= i < fs2.len() && (#[trigger] fs2[i]).fk_parent is Some implies rank2(
            fs2[i].fk_parent->0,
        ) < rank2(fs2[i].id) by {
            let p = fs2[i].fk_parent->0;
            if i < fs.len() {
                assert(fs2[i] == fs[i]);
                assert(owned_folder(fs, p, fs[i].fk_owner));
            } else {
                assert(owned_folder(fs, p, row.fk_owner));
            }
            let j = choose|j: int| 0 <= j < fs.len() && (#[trigger] fs[j]).id == p;
            assert(p != row.id);
        }
        assert(ranked(fs2, rank2));
    }
    assert(files_placed(fs2, t.files));
}

/// Writing a new file row keeps the invariant.
pub proof fn lemma_with_file_wf(t: TreeView, row: FileView)
    requires
        t.wf(),
        row.id == t.next_file_id,
        t.next_file_id < i32::MAX,
        row.size >= 0,
        owned_folder(t.folders, row.fk_parent, row.fk_owner),
    ensures
        t.with_file(row).wf(),
{
    let files2 = t.with_file(row).files;
    assert forall|j: int| 0 <= j < files2.len() implies owned_folder(
        t.folders,
        (#[trigger] files2[j]).fk_parent,
        files2[j].fk_owner,
    ) && files2[j].size >= 0 by {
        if j < t.files.len() {
            assert(files2[j] == t.files[j]);
        }
    }
}

/// Folder rows that differ from the old ones in neither id, owner nor parent
/// keep the invariant.
pub proof fn lemma_same_links_wf(t: TreeView, fs2: Seq<FolderView>)
    requires
        t.wf(),
        fs2.len() == t.folders.len(),
        forall|i: int|
            0 <= i < fs2.len() ==> (#[trigger] fs2[i]).id == t.folders[i].id && fs2[i].fk_owner
                == t.folders[i].fk_owner && fs2[i].fk_parent == t.folders[i].fk_parent,
    ensures
        t.with_folders(fs2).wf(),
        forall|id: i32, owner: i32| owned_folder(fs2, id, owner) <==> owned_folder(t.folders, id, owner),
{
    let fs = t.folders;
    assert forall|id: i32, owner: i32| owned_folder(fs2, id, owner) <==> owned_folder(
        fs,
        id,
        owner,
    ) by {
        if owned_folder(fs, id, owner) {
            let i = choose|i: int|
                0 <= i < fs.len() && (#[trigger] fs[i]).id == id && fs[i].fk_owner == owner;
            assert(fs2[i].id == id);
        }
        if owned_folder(fs2, id, owner) {
            let i = choose|i: int|
                0 <= i < fs2.len() && (#[trigger] fs2[i]).id == id && fs2[i].fk_owner == owner;
            assert(fs[i].id == id);
        }
    }
    assert(unique_folder_ids(fs2)) by {
        assert forall|i: int, j: int|
            0 <= i < fs2.len() && 0 <= j < fs2.len() && (#[trigger] fs2[i]).id == (
            #[trigger] fs2[j]).id implies i == j by {
            assert(fs[i].id == fs[j].id);
        }
    }
    assert(parents_owned(fs2)) by {
        assert forall|i: int| 0 <= i < fs2.len() && (#[trigger] fs2[i]).fk_parent is Some implies owned_folder(
            fs2,
            fs2[i].fk_parent->0,
            fs2[i].fk_owner,
        ) by {
            assert(fs[i].fk_parent is Some);
        }
    }
    assert(acyclic(fs2)) by {
        let rank = choose|rank: spec_fn(i32) -> nat| ranked(fs, rank);
        assert forall|i: int| 0 <= i < fs2.len() && (#[trigger] fs2[i]).fk_parent is Some implies rank(
            fs2[i].fk_parent->0,
        ) < rank(fs2[i].id) by {
            assert(fs[i].fk_parent is Some);
        }
        assert(ranked(fs2, rank));
    }
    assert(files_placed(fs2, t.files)) by {
        assert forall|j: int| 0 <= j < t.files.len() implies owned_folder(
            fs2,
            (#[trigger] t.files[j]).fk_parent,
            t.files[j].fk_owner,
        ) && t.files[j].size >= 0 by {
            assert(owned_folder(fs, t.files[j].fk_parent, t.files[j].fk_owner));
        }
    }
    assert forall|i: int| 0 <= i < fs2.len() implies (#[trigger] fs2[i]).id < t.next_folder_id by {
        assert(fs[i].id < t.next_folder_id);
    }
}

/// File rows that differ from the old ones in neither id nor size, and lie
/// in folders of their owners, keep the invariant.
pub proof fn lemma_same_files_wf(t: TreeView, files2: Seq<FileView>)
    requires
        t.wf(),
        files2.len() == t.files.len(),
        forall|j: int|
            0 <= j < files2.len() ==> (#[trigger] files2[j]).id == t.files[j].id && files2[j].size
                == t.files[j].size && owned_folder(
                t.folders,
                files2[j].fk_parent,
                files2[j].fk_owner,
            ),
    ensures
        t.with_files(files2).wf(),
{
    assert(unique_file_ids(files2)) by {
        assert forall|i: int, j: int|
            0 <= i < files2.len() && 0 <= j < files2.len() && (#[trigger] files2[i]).id == (
            #[trigger] files2[j]).id implies i == j by {
            assert(t.files[i].id == t.files[j].id);
        }
    }
    assert forall|j: int| 0 <= j < files2.len() implies (#[trigger] files2[j]).size >= 0 by {
        assert(t.files[j].size >= 0);
    }
    assert forall|j: int| 0 <= j < files2.len() implies (#[trigger] files2[j]).id < t.next_file_id by {
        assert(t.files[j].id < t.next_file_id);
    }
}

/// Giving a folder a parent that lies outside its subtree keeps the
/// invariant.
pub proof fn lemma_reparent_wf(t: TreeView, id: i32, owner: i32, to: i32)
    requires
        t.wf(),
        t.folder_move_allowed(id, owner, to),
    ensures
        t.reparented_folder(id, to).wf(),
{
    let fs = t.folders;
    let fs2 = t.reparented_folder(id, to).folders;
    let rank = choose|rank: spec_fn(i32) -> nat| ranked(fs, rank);
    let rank2 = |x: i32|
        if in_subtree(fs, id, x) {
            rank(x) + rank(to) + 1
        } else {
            rank(x)
        };
    let at = choose|i: int|
        0 <= i < fs.len() && (#[trigger] fs[i]).id == id && fs[i].fk_owner == owner;
    lemma_index_of(fs, at);
    lemma_subtree_root(fs, id);
    assert forall|id: i32, owner: i32| owned_folder(fs2, id, owner) <==> owned_folder(
        fs,
        id,
        owner,
    ) by {
        if owned_folder(fs, id, owner) {
            let i = choose|i: int|
                0 <= i < fs.len() && (#[trigger] fs[i]).id == id && fs[i].fk_owner == owner;
            assert(fs2[i].id == id);
        }
        if owned_folder(fs2, id, owner) {
            let i = choose|i: int|
                0 <= i < fs2.len() && (#[trigger] fs2[i]).id == id && fs2[i].fk_owner == owner;
            assert(fs[i].id == id);
        }
    }
    assert(unique_folder_ids(fs2)) by {
        assert forall|i: int, j: int|
            0 <= i < fs2.len() && 0 <= j < fs2.len() && (#[trigger] fs2[i]).id == (
            #[trigger] fs2[j]).id implies i == j by {
            assert(fs[i].id == fs[j].id);
        }
    }
    assert(parents_owned(fs2)) by {
        assert forall|i: int| 0 <= i < fs2.len() && (#[trigger] fs2[i]).fk_parent is Some implies owned_folder(
            fs2,
            fs2[i].fk_parent->0,
            fs2[i].fk_owner,
        ) by {
            if fs[i].id == id {
                assert(i == at);
            } else {
                assert(fs[i].fk_parent is Some);
            }
        }
    }
    assert(ranked(fs2, rank2)) by {
        assert forall|i: int| 0 <= i < fs2.len() && (#[trigger] fs2[i]).fk_parent is Some implies rank2(
            fs2[i].fk_parent->0,
        ) < rank2(fs2[i].id) by {
            let x = fs[i].id;
            lemma_index_of(fs, i);
            if x == id {
            } else {
                let q = fs[i].fk_parent->0;
                assert(fs2[i].fk_parent == Some(q));
                if in_subtree(fs, id, x) {
                    lemma_subtree_parent(fs, id, x);
                } else {
                    if in_subtree(fs, id, q) {
                        lemma_subtree_child(fs, id, i);
                    }
                }
            }
        }
    }
    assert(files_placed(fs2, t.files)) by {
        assert forall|j: int| 0 <= j < t.files.len() implies owned_folder(
            fs2,
            (#[trigger] t.files[j]).fk_parent,
            t.files[j].fk_owner,
        ) && t.files[j].size >= 0 by {
            assert(owned_folder(fs, t.files[j].fk_parent, t.files[j].fk_owner));
        }
    }
    assert forall|i: int| 0 <= i < fs2.len() implies (#[trigger] fs2[i]).id < t.next_folder_id by {
        assert(fs[i].id < t.next_folder_id);
    }
}

/// Taking file rows away keeps the invariant.
pub proof fn lemma_fewer_files_wf(t: TreeView, p: spec_fn(FileView) -> bool)
    requires
        t.wf(),
    ensures
        t.with_files(t.files.filter(p)).wf(),
{
    let files2 = t.files.filter(p);
    let at = lemma_filter_positions(t.files, p);
    assert(unique_file_ids(files2)) by {
        assert forall|i: int, j: int|
            0 <= i < files2.len() && 0 <= j < files2.len() && (#[trigger] files2[i]).id == (
            #[trigger] files2[j]).id implies i == j by {
            assert(t.files[at[i]].id == t.files[at[j]].id);
            if i < j {
                assert(at[i] < at[j]);
            }
            if j < i {
                assert(at[j] < at[i]);
            }
        }
    }
    assert forall|j: int| 0 <= j < files2.len() implies owned_folder(
        t.folders,
        (#[trigger] files2[j]).fk_parent,
        files2[j].fk_owner,
    ) && files2[j].size >= 0 && files2[j].id < t.next_file_id by {
        assert(t.files[at[j]] == files2[j]);
    }
    t.files.lemma_filter_len(p);
}

/// Taking folder rows away keeps the invariant, where no row that stays, of
/// a folder or of a file, has its parent among those taken away.
pub proof fn lemma_fewer_folders_wf(t: TreeView, p: spec_fn(FolderView) -> bool)
    requires
        t.wf(),
        forall|i: int, k: int|
            0 <= i < t.folders.len() && 0 <= k < t.folders.len() && p(#[trigger] t.folders[i])
                && t.folders[i].fk_parent == Some((#[trigger] t.folders[k]).id) ==> p(t.folders[k]),
        forall|j: int, k: int|
            0 <= j < t.files.len() && 0 <= k < t.folders.len() && (#[trigger] t.files[j]).fk_parent
                == (#[trigger] t.folders[k]).id ==> p(t.folders[k]),
    ensures
        t.with_folders(t.folders.filter(p)).wf(),
{
    let fs = t.folders;
    let fs2 = fs.filter(p);
    let at = lemma_filter_positions(fs, p);
    fs.lemma_filter_len(p);
    assert forall|id: i32, owner: i32| owned_folder(fs, id, owner) && p(
        fs[index_of(fs, id)],
    ) implies owned_folder(fs2, id, owner) by {
        let i = choose|i: int|
            0 <= i < fs.len() && (#[trigger] fs[i]).id == id && fs[i].fk_owner == owner;
        lemma_index_of(fs, i);
        let k = choose|k: int| 0 <= k < at.len() && at[k] == i;
        assert(fs2[k] == fs[i]);
    }
    assert(unique_folder_ids(fs2)) by {
        assert forall|i: int, j: int|
            0 <= i < fs2.len() && 0 <= j < fs2.len() && (#[trigger] fs2[i]).id == (
            #[trigger] fs2[j]).id implies i == j by {
            assert(fs[at[i]].id == fs[at[j]].id);
            if i < j {
                assert(at[i] < at[j]);
            }
            if j < i {
                assert(at[j] < at[i]);
            }
        }
    }
    assert(parents_owned(fs2)) by {
        assert forall|k: int| 0 <= k < fs2.len() && (#[trigger] fs2[k]).fk_parent is Some implies owned_folder(
            fs2,
            fs2[k].fk_parent->0,
            fs2[k].fk_owner,
        ) by {
            let i = at[k];
            assert(fs[i] == fs2[k]);
            let q = fs[i].fk_parent->0;
            assert(owned_folder(fs, q, fs[i].fk_owner));
            let m = choose|m: int|
                0 <= m < fs.len() && (#[trigger] fs[m]).id == q && fs[m].fk_owner
                    == fs[i].fk_owner;
            lemma_index_of(fs, m);
            assert(p(fs[i]));
            assert(p(fs[m]));
        }
    }
    assert(acyclic(fs2)) by {
        let rank = choose|rank: spec_fn(i32) -> nat| ranked(fs, rank);
        assert forall|k: int| 0 <= k < fs2.len() && (#[trigger] fs2[k]).fk_parent is Some implies rank(
            fs2[k].fk_parent->0,
        ) < rank(fs2[k].id) by {
            assert(fs[at[k]] == fs2[k]);
        }
        assert(ranked(fs2, rank));
    }
    assert(files_placed(fs2, t.files)) by {
        assert forall|j: int| 0 <= j < t.files.len() implies owned_folder(
            fs2,
            (#[trigger] t.files[j]).fk_parent,
            t.files[j].fk_owner,
        ) && t.files[j].size >= 0 by {
            let q = t.files[j].fk_parent;
            assert(owned_folder(fs, q, t.files[j].fk_owner));
            let m = choose|m: int|
                0 <= m < fs.len() && (#[trigger] fs[m]).id == q && fs[m].fk_owner
                    == t.files[j].fk_owner;
            lemma_index_of(fs, m);
            assert(p(fs[m]));
        }
    }
    assert forall|k: int| 0 <= k < fs2.len() implies (#[trigger] fs2[k]).id < t.next_folder_id by {
        assert(fs[at[k]] == fs2[k]);
    }
}

/// Deleting the folders of a tree keeps the invariant, once no file lies in
/// the tree.
pub proof fn lemma_without_folders_under_wf(t: TreeView, root: i32, owner: i32, keep_root: bool)
    requires
        t.wf(),
        forall|j: int| 0 <= j < t.files.len() ==> !t.file_under(root, owner, #[trigger] t.files[j]),
    ensures
        t.without_folders_under(root, owner, keep_root).wf(),
{
    let fs = t.folders;
    let p = |f: FolderView| !t.folder_doomed(root, owner, keep_root, f);
    assert forall|i: int, k: int|
        0 <= i < fs.len() && 0 <= k < fs.len() && p(#[trigger] fs[i]) && fs[i].fk_parent == Some(
            (#[trigger] fs[k]).id,
        ) implies p(fs[k]) by {
        if !p(fs[k]) {
            lemma_subtree_child(fs, root, i);
            lemma_parent_outside_subtree(fs, i);
        }
    }
    assert forall|j: int, k: int|
        0 <= j < t.files.len() && 0 <= k < fs.len() && (#[trigger] t.files[j]).fk_parent == (
        #[trigger] fs[k]).id implies p(fs[k]) by {
        assert(!t.file_under(root, owner, t.files[j]));
    }
    lemma_fewer_folders_wf(t, p);
}

/// Deleting the folders of an owner keeps the invariant, once the owner has
/// no file.
pub proof fn lemma_without_folders_of_wf(t: TreeView, owner: i32)
    requires
        t.wf(),
        forall|j: int| 0 <= j < t.files.len() ==> (#[trigger] t.files[j]).fk_owner != owner,
    ensures
        t.without_folders_of(owner).wf(),
{
    let fs = t.folders;
    let p = |f: FolderView| f.fk_owner != owner;
    assert forall|i: int, k: int|
        0 <= i < fs.len() && 0 <= k < fs.len() && p(#[trigger] fs[i]) && fs[i].fk_parent == Some(
            (#[trigger] fs[k]).id,
        ) implies p(fs[k]) by {
        assert(owned_folder(fs, fs[i].fk_parent->0, fs[i].fk_owner));
        let m = choose|m: int|
            0 <= m < fs.len() && (#[trigger] fs[m]).id == fs[k].id && fs[m].fk_owner
                == fs[i].fk_owner;
        assert(m == k);
    }
    assert forall|j: int, k: int|
        0 <= j < t.files.len() && 0 <= k < fs.len() && (#[trigger] t.files[j]).fk_parent == (
        #[trigger] fs[k]).id implies p(fs[k]) by {
        assert(owned_folder(fs, t.files[j].fk_parent, t.files[j].fk_owner));
        let m = choose|m: int|
            0 <= m < fs.len() && (#[trigger] fs[m]).id == fs[k].id && fs[m].fk_owner
                == t.files[j].fk_owner;
        assert(m == k);
    }
    lemma_fewer_folders_wf(t, p);
}

} // verus!
