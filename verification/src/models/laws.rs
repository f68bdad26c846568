//! What holds of subtrees, moves and deletes, whatever the forest.

use vstd::prelude::*;
use crate::models::file::FileView;
use crate::models::folder::FolderView;
use crate::models::preserve::lemma_filter_positions;
use crate::models::tree::{
    is_root_of, renaming, roots_of, ancestor, has_folder, in_subtree, in_tree, index_of, lemma_index_of, lemma_subtree_child,
    lemma_subtree_member_exists, lemma_subtree_parent, lemma_subtree_root, owned_folder,
    parent_of, unique_folder_ids, TreeView,
};

verus! {

/// The tree of a folder holds the folder itself, the parent of each of its
/// members but the folder, and the children of each of its members.
pub proof fn lemma_folder_tree_closed(t: TreeView, root: i32, owner: i32)
    requires
        t.wf(),
    ensures
        owned_folder(t.folders, root, owner) ==> in_tree(t.folders, root, owner, root),
        forall|id: i32|
            id != root && #[trigger] in_tree(t.folders, root, owner, id) ==> parent_of(
                t.folders,
                id,
            ) is Some && in_tree(t.folders, root, owner, parent_of(t.folders, id)->0),
        forall|i: int|
            0 <= i < t.folders.len() && (#[trigger] t.folders[i]).fk_parent is Some && in_tree(
                t.folders,
                root,
                owner,
                t.folders[i].fk_parent->0,
            ) ==> in_tree(t.folders, root, owner, t.folders[i].id),
{
    let fs = t.folders;
    if owned_folder(fs, root, owner) {
        lemma_subtree_root(fs, root);
    }
    assert forall|id: i32| id != root && #[trigger] in_tree(fs, root, owner, id) implies parent_of(
        fs,
        id,
    ) is Some && in_tree(fs, root, owner, parent_of(fs, id)->0) by {
        lemma_subtree_parent(fs, root, id);
    }
    assert forall|i: int|
        0 <= i < fs.len() && (#[trigger] fs[i]).fk_parent is Some && in_tree(
            fs,
            root,
            owner,
            fs[i].fk_parent->0,
        ) implies in_tree(fs, root, owner, fs[i].id) by {
        lemma_subtree_child(fs, root, i);
    }
}

/// A move of a folder into itself or into one of its descendants changes
/// nothing.
pub proof fn lemma_move_into_own_tree_changes_nothing(t: TreeView, id: i32, owner: i32, to: i32)
    requires
        t.wf(),
        to == id || in_subtree(t.folders, id, to),
    ensures
        t.moved_folder(id, owner, to) == t,
{
    if owned_folder(t.folders, id, owner) {
        lemma_subtree_root(t.folders, id);
    }
}

/// Among fewer folder rows, a chain of parent links is a chain among all of
/// them.
proof fn lemma_ancestor_among_fewer(
    fs: Seq<FolderView>,
    p: spec_fn(FolderView) -> bool,
    id: i32,
    steps: nat,
)
    requires
        unique_folder_ids(fs),
        ancestor(fs.filter(p), id, steps) is Some,
    ensures
        ancestor(fs, id, steps) == ancestor(fs.filter(p), id, steps),
    decreases steps,
{
    let fs2 = fs.filter(p);
    let at = lemma_filter_positions(fs, p);
    crate::models::tree::lemma_ancestor_exists(fs2, id, steps);
    let k = index_of(fs2, id);
    assert(fs2[k] == fs[at[k]]);
    lemma_index_of(fs, at[k]);
    if steps > 0 {
        lemma_ancestor_among_fewer(fs, p, parent_of(fs2, id)->0, (steps - 1) as nat);
    }
}

/// After the tree of a folder was deleted, nothing lies in the folder any
/// more, neither folders nor files. The folder itself is there where it was
/// to be kept or is a root of the forest; where it was to go with its tree
/// and is no root, it is gone, as are all its descendants in either case.
pub proof fn lemma_deleted_tree_is_gone(t: TreeView, root: i32, owner: i32, keep_root: bool)
    requires
        t.wf(),
        owned_folder(t.folders, root, owner),
    ensures
        ({
            let after = t.without_files_under(root, owner).without_folders_under(
                root,
                owner,
                keep_root,
            );
            let stays = t.top_stays(root, keep_root);
            &&& stays ==> has_folder(after.folders, root)
            &&& forall|id: i32|
                #[trigger] in_subtree(t.folders, root, id) && !(stays && id == root)
                    ==> !has_folder(after.folders, id)
            &&& forall|id: i32| #[trigger]
                in_subtree(after.folders, root, id) ==> stays && id == root
            &&& forall|j: int|
                0 <= j < after.files.len() ==> !in_subtree(
                    t.folders,
                    root,
                    (#[trigger] after.files[j]).fk_parent,
                ) && !in_subtree(after.folders, root, after.files[j].fk_parent)
        }),
{
    let fs = t.folders;
    let t1 = t.without_files_under(root, owner);
    let after = t1.without_folders_under(root, owner, keep_root);
    let stays = t.top_stays(root, keep_root);
    let p = |f: FolderView| !t1.folder_doomed(root, owner, keep_root, f);
    let kept = |f: FileView| !t.file_under(root, owner, f);
    let fs2 = after.folders;
    assert(fs2 == fs.filter(p));
    let at = lemma_filter_positions(fs, p);
    let file_at = lemma_filter_positions(t.files, kept);
    lemma_subtree_root(fs, root);
    let top = choose|i: int| 0 <= i < fs.len() && (#[trigger] fs[i]).id == root;
    lemma_index_of(fs, top);
    if stays {
        assert(p(fs[top]));
        let k = choose|k: int| 0 <= k < at.len() && at[k] == top;
        assert(fs2[k].id == root);
    }
    assert forall|id: i32|
        #[trigger] in_subtree(fs, root, id) && !(stays && id == root) implies !has_folder(
        fs2,
        id,
    ) by {
        if has_folder(fs2, id) {
            let k = choose|k: int| 0 <= k < fs2.len() && (#[trigger] fs2[k]).id == id;
            assert(fs2[k] == fs[at[k]]);
            assert(p(fs[at[k]]));
            lemma_index_of(fs, at[k]);
            if id != root {
                lemma_subtree_parent(fs, root, id);
            }
        }
    }
    assert forall|id: i32| #[trigger] in_subtree(fs2, root, id) implies in_subtree(
        fs,
        root,
        id,
    ) && has_folder(fs2, id) by {
        let steps = choose|steps: nat| ancestor(fs2, id, steps) == Some(root);
        lemma_ancestor_among_fewer(fs, p, id, steps);
        lemma_subtree_member_exists(fs2, root, id);
    }
    assert forall|j: int| 0 <= j < after.files.len() implies !in_subtree(
        fs,
        root,
        (#[trigger] after.files[j]).fk_parent,
    ) by {
        assert(after.files[j] == t.files[file_at[j]]);
        assert(kept(t.files[file_at[j]]));
    }
}

/// One more item at the end of a sequence, filtered: it is kept or left out.
pub proof fn lemma_filter_pushed<A>(s: Seq<A>, x: A, p: spec_fn(A) -> bool)
    ensures
        s.push(x).filter(p) == if p(x) {
            s.filter(p).push(x)
        } else {
            s.filter(p)
        },
{
    reveal(Seq::filter);
    assert(s.push(x).drop_last() == s);
}

/// Where no item meets `p`, nothing is left after filtering.
pub proof fn lemma_filter_nothing<A>(s: Seq<A>, p: spec_fn(A) -> bool)
    requires
        forall|i: int| 0 <= i < s.len() ==> !p(#[trigger] s[i]),
    ensures
        s.filter(p) == Seq::<A>::empty(),
    decreases s.len(),
{
    reveal(Seq::filter);
    if s.len() > 0 {
        assert forall|i: int| 0 <= i < s.drop_last().len() implies !p(
            #[trigger] s.drop_last()[i],
        ) by {
            assert(s.drop_last()[i] == s[i]);
        }
        lemma_filter_nothing(s.drop_last(), p);
        assert(s.last() == s[s.len() - 1]);
    }
}

/// Items that change only where `p` holds neither before nor after leave
/// what `p` picks as it was.
pub proof fn lemma_filter_untouched<A>(s: Seq<A>, s2: Seq<A>, p: spec_fn(A) -> bool)
    requires
        s.len() == s2.len(),
        forall|i: int|
            0 <= i < s.len() ==> (#[trigger] s2[i]) == s[i] || (!p(s[i]) && !p(s2[i])),
    ensures
        s2.filter(p) == s.filter(p),
    decreases s.len(),
{
    reveal(Seq::filter);
    if s.len() > 0 {
        assert forall|i: int| 0 <= i < s.drop_last().len() implies (
        #[trigger] s2.drop_last()[i]) == s.drop_last()[i] || (!p(s.drop_last()[i]) && !p(
            s2.drop_last()[i],
        )) by {
            assert(s2.drop_last()[i] == s2[i]);
            assert(s.drop_last()[i] == s[i]);
        }
        lemma_filter_untouched(s.drop_last(), s2.drop_last(), p);
        assert(s2.last() == s2[s.len() - 1]);
        assert(s.last() == s[s.len() - 1]);
    }
}

/// Taking away items that `p` does not pick leaves what `p` picks as it was.
pub proof fn lemma_filter_of_fewer<A>(s: Seq<A>, keep: spec_fn(A) -> bool, p: spec_fn(A) -> bool)
    requires
        forall|i: int| 0 <= i < s.len() && p(#[trigger] s[i]) ==> keep(s[i]),
    ensures
        s.filter(keep).filter(p) == s.filter(p),
    decreases s.len(),
{
    reveal(Seq::filter);
    if s.len() > 0 {
        assert forall|i: int| 0 <= i < s.drop_last().len() && p(
            #[trigger] s.drop_last()[i],
        ) implies keep(s.drop_last()[i]) by {
            assert(s.drop_last()[i] == s[i]);
        }
        lemma_filter_of_fewer(s.drop_last(), keep, p);
        assert(s.last() == s[s.len() - 1]);
        if keep(s.last()) {
            lemma_filter_pushed(s.drop_last().filter(keep), s.last(), p);
        }
    }
}

/// A move of a folder, made or not, leaves every user the roots that the
/// user had.
pub proof fn lemma_move_keeps_roots(t: TreeView, id: i32, owner: i32, to: i32, of: i32)
    requires
        t.wf(),
    ensures
        roots_of(t.moved_folder(id, owner, to).folders, of) == roots_of(t.folders, of),
{
    if t.folder_move_allowed(id, owner, to) {
        let fs = t.folders;
        let fs2 = t.reparented_folder(id, to).folders;
        assert forall|i: int| 0 <= i < fs.len() implies (#[trigger] fs2[i]) == fs[i] || (
        !is_root_of(fs[i], of) && !is_root_of(fs2[i], of)) by {
            if fs[i].id == id {
                lemma_index_of(fs, i);
            }
        }
        lemma_filter_untouched(fs, fs2, |f: FolderView| is_root_of(f, of));
    }
}

/// A delete of the tree of a folder leaves every user the roots that the
/// user had.
pub proof fn lemma_delete_keeps_roots(
    t: TreeView,
    top: i32,
    owner: i32,
    keep_top: bool,
    of: i32,
)
    requires
        t.wf(),
    ensures
        roots_of(
            t.without_files_under(top, owner).without_folders_under(top, owner, keep_top).folders,
            of,
        ) == roots_of(t.folders, of),
{
    let t1 = t.without_files_under(top, owner);
    lemma_filter_of_fewer(
        t.folders,
        |f: FolderView| !t1.folder_doomed(top, owner, keep_top, f),
        |f: FolderView| is_root_of(f, of),
    );
}

/// A new folder that lies in another leaves every user the roots that the
/// user had.
pub proof fn lemma_new_folder_keeps_roots(t: TreeView, row: FolderView, of: i32)
    requires
        row.fk_parent is Some,
    ensures
        roots_of(t.with_folder(row).folders, of) == roots_of(t.folders, of),
{
    lemma_filter_pushed(t.folders, row, |f: FolderView| is_root_of(f, of));
}

/// Where a change of the items does not touch what `p` looks at, picking
/// and changing can be done in either order.
pub proof fn lemma_filter_mapped<A>(s: Seq<A>, g: spec_fn(A) -> A, p: spec_fn(A) -> bool)
    requires
        forall|i: int| 0 <= i < s.len() ==> p(g(#[trigger] s[i])) == p(s[i]),
    ensures
        s.map_values(g).filter(p) == s.filter(p).map_values(g),
    decreases s.len(),
{
    reveal(Seq::filter);
    if s.len() == 0 {
        assert(s.map_values(g) == Seq::<A>::empty());
        assert(s.filter(p).map_values(g) == Seq::<A>::empty());
    } else {
        let rest = s.drop_last();
        assert forall|i: int| 0 <= i < rest.len() implies p(g(#[trigger] rest[i])) == p(
            rest[i],
        ) by {
            assert(rest[i] == s[i]);
        }
        lemma_filter_mapped(rest, g, p);
        assert(s.map_values(g).drop_last() == rest.map_values(g));
        assert(s.map_values(g).last() == g(s.last()));
        assert(s.last() == s[s.len() - 1]);
        if p(s.last()) {
            assert(rest.filter(p).push(s.last()).map_values(g) == rest.filter(p).map_values(
                g,
            ).push(g(s.last())));
        }
    }
}

/// A renaming leaves every user the roots that the user had, under the
/// names that the renaming gives them.
pub proof fn lemma_rename_keeps_roots(t: TreeView, id: i32, owner: i32, name: Seq<char>, of: i32)
    ensures
        roots_of(t.renamed_folder(id, owner, name).folders, of) == roots_of(
            t.folders,
            of,
        ).map_values(renaming(id, owner, name)),
        roots_of(t.renamed_folder(id, owner, name).folders, of).len() == roots_of(
            t.folders,
            of,
        ).len(),
{
    lemma_filter_mapped(t.folders, renaming(id, owner, name), |f: FolderView| is_root_of(f, of));
}

/// Deleting the folders of a user leaves the user without roots, and every
/// other user the roots that the user had.
pub proof fn lemma_delete_user_keeps_roots(t: TreeView, owner: i32, of: i32)
    ensures
        roots_of(t.without_folders_of(owner).folders, of) == if of == owner {
            Seq::<FolderView>::empty()
        } else {
            roots_of(t.folders, of)
        },
{
    let keep = |f: FolderView| f.fk_owner != owner;
    let p = |f: FolderView| is_root_of(f, of);
    if of == owner {
        let fs2 = t.folders.filter(keep);
        assert forall|i: int| 0 <= i < fs2.len() implies !p(#[trigger] fs2[i]) by {
            t.folders.lemma_filter_pred(keep, i);
        }
        lemma_filter_nothing(fs2, p);
    } else {
        lemma_filter_of_fewer(t.folders, keep, p);
    }
}

/// The creation of the roots of a user leaves every other user the roots
/// that the user had.
pub proof fn lemma_new_roots_keep_roots(t: TreeView, a: FolderView, b: FolderView, of: i32)
    requires
        a.fk_owner != of,
        b.fk_owner != of,
    ensures
        roots_of(t.with_folder(a).with_folder(b).folders, of) == roots_of(t.folders, of),
{
    let p = |f: FolderView| is_root_of(f, of);
    lemma_filter_pushed(t.folders, a, p);
    lemma_filter_pushed(t.folders.push(a), b, p);
}

} // verus!
