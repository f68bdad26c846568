//! Operations on folders.

use vstd::prelude::*;
use crate::errors::{FileError, InternalError};
use crate::models::blobs::BlobStore;
use crate::models::file::FileView;
use crate::models::files_model::{
    contents_deleted, delete_contents, valid_name, validate_name,
};
use crate::models::folder::{folder_rows, Folder, FolderView};
use crate::models::preserve::{
    lemma_fewer_files_wf, lemma_filter_positions, lemma_reparent_wf, lemma_same_links_wf,
    lemma_with_folder_wf, lemma_without_folders_of_wf, lemma_without_folders_under_wf,
};
use crate::models::quota::{
    counted, lemma_size_sum_bounds, lemma_size_sum_step,
    lemma_used_storage_is_sum_of_owned, roots_size, size_sum,
};
use crate::models::store::{
    contains_id, file_ids, lemma_filter_step, remove_marked_files,
    remove_marked_folders, TreeStore,
};
use crate::text::{trim_end, trim_start, white_space};
use crate::models::tree::{is_root_of, owned_folder, roots_of, TreeView};

verus! {

/// What a move did.
#[derive(Debug, Clone, Copy, PartialEq, Eq, Structural)]
pub enum MoveOutcome {
    /// The row has its new parent.
    Moved,
    /// The move was not allowed, and nothing has changed.
    Unchanged,
}

/// The row that a new folder gets.
pub open spec fn new_folder_row(
    t: TreeView,
    name: Seq<char>,
    parent: Option<i32>,
    owner: i32,
    now: i64,
) -> FolderView {
    FolderView {
        id: t.next_folder_id as i32,
        name,
        last_modified: now,
        starred: false,
        fk_owner: owner,
        fk_parent: parent,
    }
}

/// Whether a folder with this name, parent and owner can be written: the
/// name is valid, the parent, if any, is a folder of the owner, and an id is
/// left.
pub open spec fn folder_accepted(t: TreeView, name: Seq<char>, parent: Option<i32>, owner: i32) -> bool {
    &&& valid_name(name)
    &&& parent is Some ==> owned_folder(t.folders, parent->0, owner)
    &&& t.next_folder_id < i32::MAX
}

/// Writes a folder row, with or without a parent. An invalid name gives
/// `NameError`; a parent that is no folder of the owner, or a store that
/// has run out of ids, gives `InternalError`. On an error nothing changes.
pub(crate) fn new_raw_folder(
    store: &mut TreeStore,
    folder_name: &str,
    parent_folder_id: Option<i32>,
    owner_id: i32,
    now: i64,
) -> (r: Result<Folder, FileError>)
    requires
        old(store)@.wf(),
    ensures
        final(store)@.wf(),
        r is Ok <==> folder_accepted(old(store)@, folder_name@, parent_folder_id, owner_id),
        r is Ok ==> r->Ok_0@ == new_folder_row(
            old(store)@,
            folder_name@,
            parent_folder_id,
            owner_id,
            now,
        ) && final(store)@ == old(store)@.with_folder(r->Ok_0@),
        r is Err ==> final(store)@ == old(store)@ && r->Err_0 == (if valid_name(folder_name@) {
            FileError::InternalError
        } else {
            FileError::NameError
        }),
{
    if !validate_name(folder_name) {
        return Err(FileError::NameError);
    }
    let parent_ok = match parent_folder_id {
        Some(p) => store.owns_folder(p, owner_id),
        None => true,
    };
    if !parent_ok || store.next_folder_id >= i32::MAX {
        return Err(FileError::InternalError);
    }
    let id = store.next_folder_id;
    let folder = Folder {
        id,
        name: folder_name.to_owned(),
        last_modified: now,
        starred: false,
        fk_owner: owner_id,
        fk_parent: parent_folder_id,
    };
    let copy = folder.duplicate();
    proof {
        lemma_with_folder_wf(store@, folder@);
        assert(folder_rows(store.folders@.push(folder)) == folder_rows(store.folders@).push(
            folder@,
        ));
    }
    store.folders.push(folder);
    store.next_folder_id = id + 1;
    assert(store@ == old(store)@.with_folder(copy@));
    Ok(copy)
}

/// Creates a folder in the folder `parent_folder_id` of the owner. The new
/// folder is no root: every user keeps the roots that the user had.
pub fn new_folder(
    store: &mut TreeStore,
    folder_name: &str,
    parent_folder_id: i32,
    owner_id: i32,
    now: i64,
) -> (r: Result<Folder, FileError>)
    requires
        old(store)@.wf(),
    ensures
        final(store)@.wf(),
        r is Ok <==> folder_accepted(old(store)@, folder_name@, Some(parent_folder_id), owner_id),
        r is Ok ==> r->Ok_0@ == new_folder_row(
            old(store)@,
            folder_name@,
            Some(parent_folder_id),
            owner_id,
            now,
        ) && final(store)@ == old(store)@.with_folder(r->Ok_0@),
        r is Err ==> final(store)@ == old(store)@ && r->Err_0 == (if valid_name(folder_name@) {
            FileError::InternalError
        } else {
            FileError::NameError
        }),
        forall|of: i32| #[trigger]
            roots_of(final(store)@.folders, of) == roots_of(old(store)@.folders, of),
{
    let r = new_raw_folder(store, folder_name, Some(parent_folder_id), owner_id, now);
    proof {
        if r is Ok {
            assert forall|of: i32| #[trigger]
                roots_of(store@.folders, of) == roots_of(old(store)@.folders, of) by {
                crate::models::laws::lemma_new_folder_keeps_roots(old(store)@, r->Ok_0@, of);
            }
        }
    }
    r
}

/// The roots of a user, in the order in which they were created.
pub fn get_root_folders(store: &TreeStore, user_id: i32) -> (roots: Vec<Folder>)
    ensures
        folder_rows(roots@) == roots_of(store@.folders, user_id),
{
    let ghost p = |f: FolderView| is_root_of(f, user_id);
    let mut roots: Vec<Folder> = Vec::new();
    let mut i: usize = 0;
    assert(store@.folders.take(0).filter(p) == Seq::<FolderView>::empty());
    while i < store.folders.len()
        invariant
            0 <= i <= store.folders.len(),
            p == |f: FolderView| is_root_of(f, user_id),
            folder_rows(roots@) == store@.folders.take(i as int).filter(p),
        decreases store.folders.len() - i,
    {
        let f = &store.folders[i];
        proof {
            lemma_filter_step(store@.folders, i as int, p);
        }
        if f.fk_owner == user_id && f.fk_parent.is_none() {
            let copy = f.duplicate();
            assert(folder_rows(roots@.push(copy)) == folder_rows(roots@).push(copy@));
            roots.push(copy);
        }
        i = i + 1;
    }
    assert(store@.folders.take(store.folders.len() as int) == store@.folders);
    roots
}

/// Which of the two roots of a user is meant.
#[derive(Debug, Clone, Copy, PartialEq, Eq, Structural)]
pub enum RootKind {
    /// The root that holds what the user keeps: the first that was created.
    Personal,
    /// The root that holds what the user threw away: the second.
    Trash,
}

impl RootKind {
    /// The place of the root among the roots of its user.
    pub open spec fn position(self) -> int {
        match self {
            RootKind::Personal => 0,
            RootKind::Trash => 1,
        }
    }
}

/// The root of this kind of a user, if the user has it.
pub fn get_root_folder(store: &TreeStore, user_id: i32, kind: RootKind) -> (root: Option<Folder>)
    ensures
        ({
            let roots = roots_of(store@.folders, user_id);
            if kind.position() < roots.len() {
                root is Some && root->0@ == roots[kind.position()]
            } else {
                root is None
            }
        }),
{
    let roots = get_root_folders(store, user_id);
    let at: usize = match kind {
        RootKind::Personal => 0,
        RootKind::Trash => 1,
    };
    if at < roots.len() {
        assert(folder_rows(roots@)[at as int] == roots@[at as int]@);
        Some(roots[at].duplicate())
    } else {
        None
    }
}

/// The folders of `owner_id` that lie directly in `parent_folder_id`.
pub fn get_folders(store: &TreeStore, parent_folder_id: i32, owner_id: i32) -> (children: Vec<
    Folder,
>)
    ensures
        folder_rows(children@) == store@.folders.filter(
            |f: FolderView| f.fk_owner == owner_id && f.fk_parent == Some(parent_folder_id),
        ),
{
    let ghost p = |f: FolderView| f.fk_owner == owner_id && f.fk_parent == Some(parent_folder_id);
    let mut children: Vec<Folder> = Vec::new();
    let mut i: usize = 0;
    assert(store@.folders.take(0).filter(p) == Seq::<FolderView>::empty());
    while i < store.folders.len()
        invariant
            0 <= i <= store.folders.len(),
            p == |f: FolderView| f.fk_owner == owner_id && f.fk_parent == Some(parent_folder_id),
            folder_rows(children@) == store@.folders.take(i as int).filter(p),
        decreases store.folders.len() - i,
    {
        let f = &store.folders[i];
        proof {
            lemma_filter_step(store@.folders, i as int, p);
        }
        let in_parent = match f.fk_parent {
            Some(q) => q == parent_folder_id,
            None => false,
        };
        if f.fk_owner == owner_id && in_parent {
            let copy = f.duplicate();
            assert(folder_rows(children@.push(copy)) == folder_rows(children@).push(copy@));
            children.push(copy);
        }
        i = i + 1;
    }
    assert(store@.folders.take(store.folders.len() as int) == store@.folders);
    children
}

/// Gives the folder `folder_id` of `owner_id` a new name. An invalid name
/// gives `NameError` and changes nothing; where the owner has no such
/// folder, nothing changes either.
pub fn rename_folder(store: &mut TreeStore, folder_id: i32, owner_id: i32, new_name: &str) -> (r:
    Result<(), FileError>)
    requires
        old(store)@.wf(),
    ensures
        final(store)@.wf(),
        r is Ok <==> valid_name(new_name@),
        r is Ok ==> final(store)@ == old(store)@.renamed_folder(folder_id, owner_id, new_name@),
        r is Err ==> r->Err_0 == FileError::NameError && final(store)@ == old(store)@,
        forall|of: i32| #[trigger]
            roots_of(final(store)@.folders, of).len() == roots_of(old(store)@.folders, of).len(),
{
    if !validate_name(new_name) {
        return Err(FileError::NameError);
    }
    let ghost goal = old(store)@.renamed_folder(folder_id, owner_id, new_name@);
    let mut i: usize = 0;
    while i < store.folders.len()
        invariant
            0 <= i <= store.folders.len(),
            store.folders.len() == old(store).folders.len(),
            store.files == old(store).files,
            store.next_folder_id == old(store).next_folder_id,
            store.next_file_id == old(store).next_file_id,
            goal == old(store)@.renamed_folder(folder_id, owner_id, new_name@),
            forall|k: int| 0 <= k < i ==> (#[trigger] store@.folders[k]) == goal.folders[k],
            forall|k: int|
                i <= k < store.folders.len() ==> (#[trigger] store@.folders[k]) == old(
                    store,
                )@.folders[k],
        decreases store.folders.len() - i,
    {
        assert(store@.folders[i as int] == old(store)@.folders[i as int]);
        if store.folders[i].id == folder_id && store.folders[i].fk_owner == owner_id {
            let row = Folder {
                id: store.folders[i].id,
                name: new_name.to_owned(),
                last_modified: store.folders[i].last_modified,
                starred: store.folders[i].starred,
                fk_owner: store.folders[i].fk_owner,
                fk_parent: store.folders[i].fk_parent,
            };
            let ghost before = store@.folders;
            let ghost shown = row@;
            store.folders.set(i, row);
            assert forall|k: int| 0 <= k < store.folders.len() && k != i implies (
            #[trigger] store@.folders[k]) == before[k] by {}
            assert(store@.folders[i as int] == shown);
        }
        assert(store@.folders[i as int] == goal.folders[i as int]);
        i = i + 1;
    }
    proof {
        assert(store@.folders =~= goal.folders);
        lemma_same_links_wf(old(store)@, goal.folders);
        assert forall|of: i32| #[trigger]
            roots_of(store@.folders, of).len() == roots_of(old(store)@.folders, of).len() by {
            crate::models::laws::lemma_rename_keeps_roots(
                old(store)@,
                folder_id,
                owner_id,
                new_name@,
                of,
            );
        }
    }
    Ok(())
}

/// Moves the folder `folder_id` of `owner_id` into the folder
/// `to_folder_id`. The move is made where both are folders of the owner,
/// the folder is no root, and the destination is neither the folder itself
/// nor one of its descendants; otherwise nothing changes. Every user keeps
/// the roots that the user had.
pub fn move_folder(store: &mut TreeStore, folder_id: i32, to_folder_id: i32, owner_id: i32) -> (r:
    MoveOutcome)
    requires
        old(store)@.wf(),
    ensures
        final(store)@.wf(),
        final(store)@ == old(store)@.moved_folder(folder_id, owner_id, to_folder_id),
        r == MoveOutcome::Moved <==> old(store)@.folder_move_allowed(
            folder_id,
            owner_id,
            to_folder_id,
        ),
        forall|of: i32| #[trigger]
            roots_of(final(store)@.folders, of) == roots_of(old(store)@.folders, of),
{
    if !store.owns_folder(to_folder_id, owner_id) {
        return MoveOutcome::Unchanged;
    }
    let tree = store.folder_tree(folder_id, owner_id);
    if tree.len() == 0 || crate::models::store::contains_id(&tree, to_folder_id)
        || store.parent_of_folder(folder_id).is_none() {
        proof {
            if owned_folder(store@.folders, folder_id, owner_id) {
                crate::models::tree::lemma_subtree_root(store@.folders, folder_id);
                assert(tree@.contains(folder_id));
            }
        }
        return MoveOutcome::Unchanged;
    }
    proof {
        assert(tree@.contains(tree@[0]));
    }
    let ghost goal = old(store)@.reparented_folder(folder_id, to_folder_id);
    let mut i: usize = 0;
    while i < store.folders.len()
        invariant
            0 <= i <= store.folders.len(),
            store.folders.len() == old(store).folders.len(),
            store.files == old(store).files,
            store.next_folder_id == old(store).next_folder_id,
            store.next_file_id == old(store).next_file_id,
            goal == old(store)@.reparented_folder(folder_id, to_folder_id),
            forall|k: int| 0 <= k < i ==> (#[trigger] store@.folders[k]) == goal.folders[k],
            forall|k: int|
                i <= k < store.folders.len() ==> (#[trigger] store@.folders[k]) == old(
                    store,
                )@.folders[k],
        decreases store.folders.len() - i,
    {
        assert(store@.folders[i as int] == old(store)@.folders[i as int]);
        if store.folders[i].id == folder_id {
            let row = Folder {
                id: store.folders[i].id,
                name: store.folders[i].name.clone(),
                last_modified: store.folders[i].last_modified,
                starred: store.folders[i].starred,
                fk_owner: store.folders[i].fk_owner,
                fk_parent: Some(to_folder_id),
            };
            let ghost before = store@.folders;
            let ghost shown = row@;
            store.folders.set(i, row);
            assert forall|k: int| 0 <= k < store.folders.len() && k != i implies (
            #[trigger] store@.folders[k]) == before[k] by {}
            assert(store@.folders[i as int] == shown);
        }
        assert(store@.folders[i as int] == goal.folders[i as int]);
        i = i + 1;
    }
    proof {
        assert(store@.folders =~= goal.folders);
        lemma_reparent_wf(old(store)@, folder_id, owner_id, to_folder_id);
        assert forall|of: i32| #[trigger]
            roots_of(store@.folders, of) == roots_of(old(store)@.folders, of) by {
            crate::models::laws::lemma_move_keeps_roots(
                old(store)@,
                folder_id,
                owner_id,
                to_folder_id,
                of,
            );
        }
    }
    MoveOutcome::Moved
}

/// The names of the two roots are valid names.
pub proof fn lemma_root_names_valid()
    ensures
        valid_name("My Cloud"@),
        valid_name("Trash"@),
{
    reveal_strlit("My Cloud");
    reveal_strlit("Trash");
    let a = "My Cloud"@;
    assert(a.len() == 8 && a[0] == 'M' && a.last() == 'd');
    assert(!white_space('M') && !white_space('d'));
    assert(trim_start(a) == a);
    assert(trim_end(a) == a);
    let b = "Trash"@;
    assert(b.len() == 5 && b[0] == 'T' && b.last() == 'h');
    assert(!white_space('T') && !white_space('h'));
    assert(trim_start(b) == b);
    assert(trim_end(b) == b);
}

/// Whether the two roots of `owner` can be created: the owner has no folder
/// yet, and two ids are left.
pub open spec fn roots_creatable(t: TreeView, owner: i32) -> bool {
    &&& t.next_folder_id + 1 < i32::MAX
    &&& forall|i: int| 0 <= i < t.folders.len() ==> (#[trigger] t.folders[i]).fk_owner != owner
}

/// The first root of `owner`, as it is created.
pub open spec fn first_root(t: TreeView, owner: i32, now: i64) -> FolderView {
    new_folder_row(t, "My Cloud"@, None, owner, now)
}

/// The second root of `owner`, as it is created after the first.
pub open spec fn second_root(t: TreeView, owner: i32, now: i64) -> FolderView {
    new_folder_row(t.with_folder(first_root(t, owner, now)), "Trash"@, None, owner, now)
}

/// The tree store after the two roots of `owner` were created.
pub open spec fn with_roots(t: TreeView, owner: i32, now: i64) -> TreeView {
    t.with_folder(first_root(t, owner, now)).with_folder(second_root(t, owner, now))
}

/// Creates the two roots of a new user, "My Cloud" first and "Trash" second,
/// both or none. It fails where the user has a folder already, and where
/// the store has not two ids left; then nothing changes. After it the user
/// has these two roots and no others.
pub fn init_root_folders(store: &mut TreeStore, owner_id: i32, now: i64) -> (r: Result<
    (),
    InternalError,
>)
    requires
        old(store)@.wf(),
    ensures
        final(store)@.wf(),
        r is Ok <==> roots_creatable(old(store)@, owner_id),
        r is Ok ==> final(store)@ == with_roots(old(store)@, owner_id, now) && roots_of(
            final(store)@.folders,
            owner_id,
        ) == seq![
            first_root(old(store)@, owner_id, now),
            second_root(old(store)@, owner_id, now),
        ],
        r is Err ==> final(store)@ == old(store)@ && r->Err_0.0@ == "Something went wrong."@,
        forall|of: i32|
            of != owner_id ==> #[trigger] roots_of(final(store)@.folders, of) == roots_of(
                old(store)@.folders,
                of,
            ),
{
    if store.next_folder_id >= i32::MAX - 1 {
        return Err(InternalError::new("Something went wrong."));
    }
    let mut i: usize = 0;
    while i < store.folders.len()
        invariant
            0 <= i <= store.folders.len(),
            store@ == old(store)@,
            old(store)@.wf(),
            forall|k: int| 0 <= k < i ==> (#[trigger] store@.folders[k]).fk_owner != owner_id,
        decreases store.folders.len() - i,
    {
        if store.folders[i].fk_owner == owner_id {
            assert(store@.folders[i as int].fk_owner == owner_id);
            return Err(InternalError::new("Something went wrong."));
        }
        i = i + 1;
    }
    proof {
        lemma_root_names_valid();
    }
    let first = new_raw_folder(store, "My Cloud", None, owner_id, now);
    assert(first is Ok);
    let second = new_raw_folder(store, "Trash", None, owner_id, now);
    assert(second is Ok);
    proof {
        let fs = old(store)@.folders;
        let a = first_root(old(store)@, owner_id, now);
        let b = second_root(old(store)@, owner_id, now);
        let p = |f: FolderView| is_root_of(f, owner_id);
        crate::models::laws::lemma_filter_nothing(fs, p);
        crate::models::laws::lemma_filter_pushed(fs, a, p);
        crate::models::laws::lemma_filter_pushed(fs.push(a), b, p);
        assert(Seq::<FolderView>::empty().push(a).push(b) == seq![a, b]);
        assert forall|of: i32| of != owner_id implies #[trigger] roots_of(store@.folders, of)
            == roots_of(old(store)@.folders, of) by {
            crate::models::laws::lemma_new_roots_keep_roots(old(store)@, a, b, of);
        }
    }
    Ok(())
}

/// The text of an optional tag.
pub open spec fn filter_text(filter: Option<&str>) -> Option<Seq<char>> {
    match filter {
        Some(tag) => Some(tag@),
        None => None,
    }
}

/// The bytes under the folder `folder_id` of `owner_id`: the sizes of the
/// files in its tree, added up; with a filter, of the files with that tag
/// only. Zero where the owner has no such folder.
pub fn folder_size(store: &TreeStore, folder_id: i32, owner_id: i32, filter: Option<&str>) -> (size:
    i64)
    requires
        store@.wf(),
    ensures
        size == store@.folder_size(folder_id, owner_id, filter_text(filter)),
        0 <= size <= store@.files.len() * 0x7fff_ffff,
{
    let tree = store.folder_tree(folder_id, owner_id);
    let wanted: Option<String> = match filter {
        Some(tag) => Some(tag.to_owned()),
        None => None,
    };
    let ghost p = |f: FileView| counted(store@.folders, folder_id, owner_id, filter_text(filter), f);
    let mut size: i64 = 0;
    let mut j: usize = 0;
    assert(store@.files.take(0) == Seq::<FileView>::empty());
    while j < store.files.len()
        invariant
            0 <= j <= store.files.len(),
            store@.wf(),
            p == |f: FileView|
                counted(store@.folders, folder_id, owner_id, filter_text(filter), f),
            forall|id: i32|
                tree@.contains(id) <==> crate::models::tree::in_tree(
                    store@.folders,
                    folder_id,
                    owner_id,
                    id,
                ),
            crate::models::file::tag_text(wanted) == filter_text(filter),
            size == size_sum(store@.files.take(j as int), p),
            0 <= size <= j * 0x7fff_ffff,
        decreases store.files.len() - j,
    {
        let f = &store.files[j];
        proof {
            lemma_size_sum_step(store@.files, j as int, p);
            assert(store@.files[j as int] == f@);
            assert(f@.size >= 0);
        }
        let tagged = match &wanted {
            Some(tag) => match &f.file_type {
                Some(t) => *t == *tag,
                None => false,
            },
            None => true,
        };
        if tagged && contains_id(&tree, f.fk_parent) {
            size = size + f.size as i64;
        }
        j = j + 1;
    }
    assert(store@.files.take(store.files.len() as int) == store@.files);
    size
}

/// The bytes that `owner_id` has stored: the sizes of the trees of the
/// owner's roots, added up.
pub fn used_storage(store: &TreeStore, owner_id: i32) -> (used: i64)
    requires
        store@.wf(),
    ensures
        used == store@.used_storage(owner_id),
        0 <= used <= store@.files.len() * 0x7fff_ffff,
{
    let ghost fs = store@.folders;
    let mut total: i128 = 0;
    let mut i: usize = 0;
    assert(fs.take(0) == Seq::<FolderView>::empty());
    while i < store.folders.len()
        invariant
            0 <= i <= store.folders.len(),
            store@.wf(),
            fs == store@.folders,
            total == roots_size(fs, fs.take(i as int), store@.files, owner_id),
            0 <= total <= i * 0x4000_0000_0000_0000,
        decreases store.folders.len() - i,
    {
        let f = &store.folders[i];
        proof {
            assert(fs.take(i + 1).drop_last() == fs.take(i as int));
            assert(fs.take(i + 1).last() == f@);
        }
        if f.fk_owner == owner_id && f.fk_parent.is_none() {
            let size = folder_size(store, f.id, owner_id, None);
            total = total + size as i128;
        }
        i = i + 1;
    }
    proof {
        assert(fs.take(fs.len() as int) == fs);
        lemma_used_storage_is_sum_of_owned(store@, owner_id);
        lemma_size_sum_bounds(store@.files, |f: FileView| f.fk_owner == owner_id);
    }
    total as i64
}

/// Deletes the tree of the folder `folder_id` of `owner_id`: first the rows
/// of the files in it, then their contents, one after the other, then the
/// rows of the folders. With `preserve_parent` the folder itself stays and
/// only what lies in it goes. A root stays in any case: it is emptied, and
/// every user keeps the roots that the user had. Where a content is missing, the run stops
/// there with an error: the file rows are gone, the folder rows are not.
pub fn delete_folder(
    store: &mut TreeStore,
    blobs: &mut BlobStore,
    folder_id: i32,
    owner_id: i32,
    preserve_parent: bool,
) -> (r: Result<(), InternalError>)
    requires
        old(store)@.wf(),
    ensures
        final(store)@.wf(),
        contents_deleted(
            old(blobs)@,
            file_ids(old(store)@.files_under(folder_id, owner_id)),
            final(blobs)@,
            r,
        ),
        final(store)@ == if r is Ok {
            old(store)@.without_files_under(folder_id, owner_id).without_folders_under(
                folder_id,
                owner_id,
                preserve_parent,
            )
        } else {
            old(store)@.without_files_under(folder_id, owner_id)
        },
        forall|of: i32| #[trigger]
            roots_of(final(store)@.folders, of) == roots_of(old(store)@.folders, of),
{
    let tree = store.folder_tree(folder_id, owner_id);
    let ghost t0 = old(store)@;
    let ghost gone = |f: FileView| t0.file_under(folder_id, owner_id, f);
    let ghost kept = |f: FileView| !t0.file_under(folder_id, owner_id, f);
    let mut marks: Vec<bool> = Vec::new();
    let mut k: usize = 0;
    while k < store.files.len()
        invariant
            0 <= k <= store.files.len(),
            marks.len() == k,
            store@ == t0,
            gone == |f: FileView| t0.file_under(folder_id, owner_id, f),
            kept == |f: FileView| !t0.file_under(folder_id, owner_id, f),
            forall|id: i32|
                tree@.contains(id) <==> crate::models::tree::in_tree(
                    t0.folders,
                    folder_id,
                    owner_id,
                    id,
                ),
            forall|i: int|
                0 <= i < k ==> marks[i] == gone(#[trigger] store.files@[i]@) && marks[i] != kept(
                    store.files@[i]@,
                ),
        decreases store.files.len() - k,
    {
        marks.push(contains_id(&tree, store.files[k].fk_parent));
        k = k + 1;
    }
    proof {
        lemma_fewer_files_wf(t0, kept);
    }
    let ids = remove_marked_files(&mut store.files, &marks, Ghost(gone), Ghost(kept));
    let ghost t1 = store@;
    assert(t1 == t0.without_files_under(folder_id, owner_id));
    delete_contents(blobs, &ids)?;
    let ghost keep_folder = |f: FolderView| !t1.folder_doomed(folder_id, owner_id, preserve_parent, f);
    let mut doomed: Vec<bool> = Vec::new();
    let mut i: usize = 0;
    while i < store.folders.len()
        invariant
            0 <= i <= store.folders.len(),
            doomed.len() == i,
            store@ == t1,
            t1.folders == t0.folders,
            keep_folder == |f: FolderView|
                !t1.folder_doomed(folder_id, owner_id, preserve_parent, f),
            forall|id: i32|
                tree@.contains(id) <==> crate::models::tree::in_tree(
                    t0.folders,
                    folder_id,
                    owner_id,
                    id,
                ),
            forall|m: int|
                0 <= m < i ==> doomed[m] != keep_folder(#[trigger] store.folders@[m]@),
        decreases store.folders.len() - i,
    {
        let id = store.folders[i].id;
        doomed.push(
            contains_id(&tree, id) && store.folders[i].fk_parent.is_some() && !(preserve_parent
                && id == folder_id),
        );
        i = i + 1;
    }
    proof {
        let at = lemma_filter_positions(t0.files, kept);
        assert forall|j: int| 0 <= j < t1.files.len() implies !t1.file_under(
            folder_id,
            owner_id,
            #[trigger] t1.files[j],
        ) by {
            assert(t1.files[j] == t0.files[at[j]]);
            assert(kept(t0.files[at[j]]));
        }
        lemma_without_folders_under_wf(t1, folder_id, owner_id, preserve_parent);
        assert forall|of: i32| #[trigger]
            roots_of(
                t1.without_folders_under(folder_id, owner_id, preserve_parent).folders,
                of,
            ) == roots_of(t0.folders, of) by {
            crate::models::laws::lemma_delete_keeps_roots(
                t0,
                folder_id,
                owner_id,
                preserve_parent,
                of,
            );
        }
    }
    remove_marked_folders(&mut store.folders, &doomed, Ghost(keep_folder));
    Ok(())
}

/// Deletes the folders of `owner_id`. As long as a file of the owner is
/// left, they cannot go: an error is returned and nothing changes.
pub fn delete_user_folders(store: &mut TreeStore, owner_id: i32) -> (r: Result<(), InternalError>)
    requires
        old(store)@.wf(),
    ensures
        final(store)@.wf(),
        r is Ok <==> forall|j: int|
            0 <= j < old(store)@.files.len() ==> (#[trigger] old(store)@.files[j]).fk_owner
                != owner_id,
        r is Ok ==> final(store)@ == old(store)@.without_folders_of(owner_id) && roots_of(
            final(store)@.folders,
            owner_id,
        ) == Seq::<FolderView>::empty(),
        r is Err ==> final(store)@ == old(store)@ && r->Err_0.0@
            == "Failed to delete user folders"@,
        forall|of: i32|
            of != owner_id ==> #[trigger] roots_of(final(store)@.folders, of) == roots_of(
                old(store)@.folders,
                of,
            ),
{
    let mut j: usize = 0;
    while j < store.files.len()
        invariant
            0 <= j <= store.files.len(),
            store@ == old(store)@,
            old(store)@.wf(),
            forall|k: int| 0 <= k < j ==> (#[trigger] store@.files[k]).fk_owner != owner_id,
        decreases store.files.len() - j,
    {
        if store.files[j].fk_owner == owner_id {
            assert(store@.files[j as int].fk_owner == owner_id);
            return Err(InternalError::new("Failed to delete user folders"));
        }
        j = j + 1;
    }
    let ghost kept = |f: FolderView| f.fk_owner != owner_id;
    let mut marks: Vec<bool> = Vec::new();
    let mut i: usize = 0;
    while i < store.folders.len()
        invariant
            0 <= i <= store.folders.len(),
            marks.len() == i,
            store@ == old(store)@,
            kept == |f: FolderView| f.fk_owner != owner_id,
            forall|m: int| 0 <= m < i ==> marks[m] != kept(#[trigger] store.folders@[m]@),
        decreases store.folders.len() - i,
    {
        marks.push(store.folders[i].fk_owner == owner_id);
        i = i + 1;
    }
    proof {
        lemma_without_folders_of_wf(old(store)@, owner_id);
        assert forall|of: i32| #[trigger]
            roots_of(old(store)@.without_folders_of(owner_id).folders, of) == if of == owner_id {
                Seq::<FolderView>::empty()
            } else {
                roots_of(old(store)@.folders, of)
            } by {
            crate::models::laws::lemma_delete_user_keeps_roots(old(store)@, owner_id, of);
        }
    }
    remove_marked_folders(&mut store.folders, &marks, Ghost(kept));
    Ok(())
}

} // verus!
