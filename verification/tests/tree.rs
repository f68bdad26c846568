use cloud_drive::models::blobs::BlobStore;
use cloud_drive::models::file::File;
use cloud_drive::models::files_model::{get_files, new_file};
use cloud_drive::models::folder::Folder;
use cloud_drive::models::folders_model::{
    get_root_folder, RootKind, delete_folder, delete_user_folders, folder_size, get_folders, get_root_folders,
    init_root_folders, move_folder, new_folder, rename_folder, used_storage,
    MoveOutcome,
};
use cloud_drive::models::store::{contains_id, TreeStore};
use cloud_drive::errors::FileError;

/// Roots 1 ("My Cloud") and 2 ("Trash") of user 1, then
/// 1 -> 3 (a) -> 4 (b) -> 5 (c), 1 -> 6 (d); roots 7 and 8 of user 2.
fn forest() -> TreeStore {
    let mut t = TreeStore::new();
    init_root_folders(&mut t, 1, 10).unwrap();
    assert_eq!(new_folder(&mut t, "a", 1, 1, 11).unwrap().get_id(), 3);
    assert_eq!(new_folder(&mut t, "b", 3, 1, 12).unwrap().get_id(), 4);
    assert_eq!(new_folder(&mut t, "c", 4, 1, 13).unwrap().get_id(), 5);
    assert_eq!(new_folder(&mut t, "d", 1, 1, 14).unwrap().get_id(), 6);
    init_root_folders(&mut t, 2, 15).unwrap();
    t
}

fn parent_of(t: &TreeStore, owner: i32, id: i32) -> Option<i32> {
    for p in [1, 2, 3, 4, 5, 6, 7, 8] {
        if get_folders(t, p, owner).iter().any(|f| f.get_id() == id) {
            return Some(p);
        }
    }
    None
}

#[test]
fn a_new_store_is_empty() {
    let t = TreeStore::new();
    assert!(get_root_folders(&t, 1).is_empty());
    assert!(t.folder_tree(1, 1).is_empty());
    assert_eq!(used_storage(&t, 1), 0);
}

#[test]
fn roots_come_in_the_order_of_their_creation() {
    let t = forest();
    let roots = get_root_folders(&t, 1);
    assert_eq!(roots.len(), 2);
    assert_eq!((roots[0].get_id(), roots[0].get_name().as_str()), (1, "My Cloud"));
    assert_eq!((roots[1].get_id(), roots[1].get_name().as_str()), (2, "Trash"));
    assert_eq!(roots[0].get_fk_owner(), 1);
    assert_eq!(*roots[0].get_fk_parent(), None);
    assert!(!roots[0].get_starred());
    assert_eq!(roots[0].get_last_modified(), 10);
    let others = get_root_folders(&t, 2);
    assert_eq!(others.iter().map(|f| f.get_id()).collect::<Vec<_>>(), vec![7, 8]);
    assert!(get_root_folders(&t, 3).is_empty());
}

#[test]
fn the_tree_of_a_folder_holds_it_and_its_descendants() {
    let t = forest();
    assert_eq!(t.folder_tree(1, 1), vec![1, 3, 6, 4, 5]);
    assert_eq!(t.folder_tree(3, 1), vec![3, 4, 5]);
    assert_eq!(t.folder_tree(5, 1), vec![5]);
    assert_eq!(t.folder_tree(2, 1), vec![2]);
}

#[test]
fn the_tree_of_a_folder_is_closed_under_children_and_parents() {
    let t = forest();
    let tree = t.folder_tree(3, 1);
    assert!(contains_id(&tree, 3));
    for id in &tree {
        for child in get_folders(&t, *id, 1) {
            assert!(contains_id(&tree, child.get_id()));
        }
        if *id != 3 {
            assert!(contains_id(&tree, parent_of(&t, 1, *id).unwrap()));
        }
    }
    assert!(!contains_id(&tree, 1));
    assert!(!contains_id(&tree, 6));
}

#[test]
fn the_tree_of_a_folder_of_another_user_is_empty() {
    let t = forest();
    assert!(t.folder_tree(1, 2).is_empty());
    assert!(t.folder_tree(7, 1).is_empty());
    assert!(t.folder_tree(99, 1).is_empty());
    assert!(t.owns_folder(7, 2));
    assert!(!t.owns_folder(7, 1));
}

#[test]
fn a_folder_needs_a_valid_name() {
    let mut t = forest();
    assert_eq!(new_folder(&mut t, "", 1, 1, 20).unwrap_err(), FileError::NameError);
    assert_eq!(new_folder(&mut t, "   ", 1, 1, 20).unwrap_err(), FileError::NameError);
    let long = "x".repeat(256);
    assert_eq!(new_folder(&mut t, &long, 1, 1, 20).unwrap_err(), FileError::NameError);
    let fits = "x".repeat(255);
    let made = new_folder(&mut t, &fits, 1, 1, 20).unwrap();
    assert_eq!(made.get_id(), 9);
    assert_eq!(made.get_name().len(), 255);
    assert_eq!(t.folder_tree(1, 1), vec![1, 3, 6, 9, 4, 5]);
}

#[test]
fn a_folder_keeps_its_name_as_it_was_given() {
    let mut t = forest();
    let made = new_folder(&mut t, "  notes ", 1, 1, 20).unwrap();
    assert_eq!(made.get_name(), "  notes ");
    assert_eq!(*made.get_fk_parent(), Some(1));
    assert_eq!(made.get_last_modified(), 20);
}

#[test]
fn a_folder_needs_a_parent_of_its_owner() {
    let mut t = forest();
    assert_eq!(new_folder(&mut t, "x", 7, 1, 20).unwrap_err(), FileError::InternalError);
    assert_eq!(new_folder(&mut t, "x", 99, 1, 20).unwrap_err(), FileError::InternalError);
    assert_eq!(new_folder(&mut t, "", 99, 1, 20).unwrap_err(), FileError::NameError);
    assert_eq!(get_folders(&t, 7, 1).len(), 0);
    assert_eq!(get_root_folders(&t, 1).len(), 2);
}

#[test]
fn renaming_changes_the_name_only() {
    let mut t = forest();
    rename_folder(&mut t, 3, 1, "alpha").unwrap();
    let a = &get_folders(&t, 1, 1)[0];
    assert_eq!((a.get_id(), a.get_name().as_str(), a.get_last_modified()), (3, "alpha", 11));
    assert_eq!(rename_folder(&mut t, 3, 1, " ").unwrap_err(), FileError::NameError);
    assert_eq!(get_folders(&t, 1, 1)[0].get_name(), "alpha");
    rename_folder(&mut t, 3, 2, "stolen").unwrap();
    rename_folder(&mut t, 99, 1, "nothing").unwrap();
    assert_eq!(get_folders(&t, 1, 1)[0].get_name(), "alpha");
    rename_folder(&mut t, 3, 1, "alpha").unwrap();
    assert_eq!(get_folders(&t, 1, 1)[0].get_name(), "alpha");
}

#[test]
fn a_folder_moves_with_all_that_lies_in_it() {
    let mut t = forest();
    assert_eq!(move_folder(&mut t, 3, 6, 1), MoveOutcome::Moved);
    assert_eq!(t.folder_tree(6, 1), vec![6, 3, 4, 5]);
    assert_eq!(t.folder_tree(1, 1), vec![1, 6, 3, 4, 5]);
    assert_eq!(parent_of(&t, 1, 3), Some(6));
    assert_eq!(move_folder(&mut t, 4, 2, 1), MoveOutcome::Moved);
    assert_eq!(t.folder_tree(2, 1), vec![2, 4, 5]);
    assert_eq!(t.folder_tree(1, 1), vec![1, 6, 3]);
}

#[test]
fn a_move_into_the_own_tree_changes_nothing() {
    let mut t = forest();
    for to in [3, 4, 5] {
        assert_eq!(move_folder(&mut t, 3, to, 1), MoveOutcome::Unchanged);
    }
    assert_eq!(move_folder(&mut t, 1, 5, 1), MoveOutcome::Unchanged);
    assert_eq!(t.folder_tree(1, 1), vec![1, 3, 6, 4, 5]);
    assert_eq!(parent_of(&t, 1, 3), Some(1));
    assert_eq!(parent_of(&t, 1, 4), Some(3));
    assert_eq!(parent_of(&t, 1, 5), Some(4));
}

#[test]
fn a_move_across_users_changes_nothing() {
    let mut t = forest();
    assert_eq!(move_folder(&mut t, 3, 7, 1), MoveOutcome::Unchanged);
    assert_eq!(move_folder(&mut t, 3, 6, 2), MoveOutcome::Unchanged);
    assert_eq!(move_folder(&mut t, 3, 99, 1), MoveOutcome::Unchanged);
    assert_eq!(move_folder(&mut t, 99, 6, 1), MoveOutcome::Unchanged);
    assert_eq!(t.folder_tree(1, 1), vec![1, 3, 6, 4, 5]);
    assert_eq!(t.folder_tree(7, 2), vec![7]);
}

fn with_files(t: &mut TreeStore, blobs: &mut BlobStore) {
    // ids 1..=4: 100 bytes in 3, 20 in 5, 3 in 6, 1000 in root 7 of user 2
    new_file(t, blobs, "one.txt", &[0u8; 100], 3, 1, 30).unwrap();
    new_file(t, blobs, "two.png", &[0u8; 20], 5, 1, 31).unwrap();
    new_file(t, blobs, "three", &[0u8; 3], 6, 1, 32).unwrap();
    new_file(t, blobs, "four.txt", &[0u8; 1000], 7, 2, 33).unwrap();
}

#[test]
fn the_size_of_a_folder_is_the_sum_over_its_tree() {
    let mut t = forest();
    let mut blobs = BlobStore::new();
    with_files(&mut t, &mut blobs);
    assert_eq!(folder_size(&t, 1, 1, None), 123);
    assert_eq!(folder_size(&t, 3, 1, None), 120);
    assert_eq!(folder_size(&t, 4, 1, None), 20);
    assert_eq!(folder_size(&t, 6, 1, None), 3);
    assert_eq!(folder_size(&t, 2, 1, None), 0);
    assert_eq!(folder_size(&t, 1, 1, Some("Text")), 100);
    assert_eq!(folder_size(&t, 1, 1, Some("Image")), 20);
    assert_eq!(folder_size(&t, 1, 1, Some("Video")), 0);
    assert_eq!(folder_size(&t, 1, 2, None), 0);
    assert_eq!(folder_size(&t, 7, 2, None), 1000);
}

#[test]
fn what_a_user_has_stored_counts_all_roots() {
    let mut t = forest();
    let mut blobs = BlobStore::new();
    with_files(&mut t, &mut blobs);
    assert_eq!(used_storage(&t, 1), 123);
    new_file(&mut t, &mut blobs, "binned", &[0u8; 7], 2, 1, 40).unwrap();
    assert_eq!(used_storage(&t, 1), 130);
    assert_eq!(used_storage(&t, 2), 1000);
    assert_eq!(used_storage(&t, 3), 0);
    cloud_drive::models::files_model::delete_file(&mut t, &mut blobs, 1, 1).unwrap();
    assert_eq!(used_storage(&t, 1), 30);
    assert_eq!(move_folder(&mut t, 3, 2, 1), MoveOutcome::Moved);
    assert_eq!(used_storage(&t, 1), 30);
}

#[test]
fn deleting_a_folder_takes_its_tree_along() {
    let mut t = forest();
    let mut blobs = BlobStore::new();
    with_files(&mut t, &mut blobs);
    delete_folder(&mut t, &mut blobs, 3, 1, false).unwrap();
    assert_eq!(t.folder_tree(1, 1), vec![1, 6]);
    assert!(t.folder_tree(3, 1).is_empty());
    assert!(!t.owns_folder(4, 1) && !t.owns_folder(5, 1));
    assert!(!blobs.holds(1) && !blobs.holds(2));
    assert!(blobs.holds(3) && blobs.holds(4));
    assert_eq!(get_files(&t, 6, 1).len(), 1);
    assert_eq!(used_storage(&t, 1), 3);
    assert_eq!(used_storage(&t, 2), 1000);
}

#[test]
fn deleting_with_the_parent_kept_empties_the_folder() {
    let mut t = forest();
    let mut blobs = BlobStore::new();
    with_files(&mut t, &mut blobs);
    delete_folder(&mut t, &mut blobs, 3, 1, true).unwrap();
    assert_eq!(t.folder_tree(3, 1), vec![3]);
    assert_eq!(t.folder_tree(1, 1), vec![1, 3, 6]);
    assert!(get_files(&t, 3, 1).is_empty());
    assert!(get_folders(&t, 3, 1).is_empty());
    assert_eq!(folder_size(&t, 3, 1, None), 0);
    assert!(!blobs.holds(1) && !blobs.holds(2) && blobs.holds(3));
}

#[test]
fn deleting_a_folder_of_another_user_changes_nothing() {
    let mut t = forest();
    let mut blobs = BlobStore::new();
    with_files(&mut t, &mut blobs);
    delete_folder(&mut t, &mut blobs, 3, 2, false).unwrap();
    delete_folder(&mut t, &mut blobs, 99, 1, false).unwrap();
    assert_eq!(t.folder_tree(1, 1), vec![1, 3, 6, 4, 5]);
    assert_eq!(used_storage(&t, 1), 123);
    assert!(blobs.holds(1) && blobs.holds(2) && blobs.holds(3) && blobs.holds(4));
}

#[test]
fn a_missing_content_stops_the_delete_before_the_folders() {
    let mut t = forest();
    let mut blobs = BlobStore::new();
    with_files(&mut t, &mut blobs);
    cloud_drive::models::files_model::delete_file_content(&mut blobs, 1).unwrap();
    let e = delete_folder(&mut t, &mut blobs, 3, 1, false).unwrap_err();
    assert_eq!(e.0, "Failed to delete content for file '1'");
    assert_eq!(t.folder_tree(3, 1), vec![3, 4, 5]);
    assert!(get_files(&t, 3, 1).is_empty() && get_files(&t, 5, 1).is_empty());
    assert!(blobs.holds(2));
    assert_eq!(used_storage(&t, 1), 3);
}

#[test]
fn the_folders_of_a_user_go_once_the_files_are_gone() {
    let mut t = forest();
    let mut blobs = BlobStore::new();
    new_file(&mut t, &mut blobs, "f", b"1", 3, 1, 0).unwrap();
    let e = delete_user_folders(&mut t, 1).unwrap_err();
    assert_eq!(e.0, "Failed to delete user folders");
    assert_eq!(t.folder_tree(1, 1), vec![1, 3, 6, 4, 5]);
    cloud_drive::models::files_model::delete_user_files(&mut t, &mut blobs, 1).unwrap();
    delete_user_folders(&mut t, 1).unwrap();
    assert!(get_root_folders(&t, 1).is_empty());
    assert!(t.folder_tree(3, 1).is_empty());
    assert_eq!(get_root_folders(&t, 2).len(), 2);
}

#[test]
fn rows_from_elsewhere_are_taken_where_they_fit() {
    let folder = |id, owner, parent| Folder {
        id,
        name: format!("f{}", id),
        last_modified: 0,
        starred: false,
        fk_owner: owner,
        fk_parent: parent,
    };
    let file = |id, owner, parent, size| File {
        id,
        name: format!("g{}", id),
        file_type: None,
        size,
        last_modified: 0,
        starred: true,
        fk_owner: owner,
        fk_parent: parent,
    };
    let good = TreeStore::from_rows(
        vec![folder(5, 1, Some(2)), folder(2, 1, None), folder(9, 1, Some(5))],
        vec![file(4, 1, 9, 10), file(1, 1, 2, 5)],
    )
    .unwrap();
    assert_eq!(good.folder_tree(2, 1), vec![2, 5, 9]);
    assert_eq!(used_storage(&good, 1), 15);
    let mut good = good;
    assert_eq!(new_folder(&mut good, "next", 2, 1, 0).unwrap().get_id(), 10);

    // two folders with one id
    assert!(TreeStore::from_rows(vec![folder(1, 1, None), folder(1, 1, None)], vec![]).is_none());
    // a parent that is missing
    assert!(TreeStore::from_rows(vec![folder(1, 1, Some(2))], vec![]).is_none());
    // a parent of another user
    assert!(TreeStore::from_rows(vec![folder(1, 1, None), folder(2, 2, Some(1))], vec![]).is_none());
    // a cycle
    assert!(TreeStore::from_rows(vec![folder(1, 1, Some(2)), folder(2, 1, Some(1))], vec![])
        .is_none());
    assert!(TreeStore::from_rows(vec![folder(1, 1, Some(1))], vec![]).is_none());
    // a file without its folder, with a negative size, with a used id
    assert!(TreeStore::from_rows(vec![folder(1, 1, None)], vec![file(1, 1, 2, 0)]).is_none());
    assert!(TreeStore::from_rows(vec![folder(1, 1, None)], vec![file(1, 1, 1, -1)]).is_none());
    assert!(TreeStore::from_rows(
        vec![folder(1, 1, None)],
        vec![file(1, 1, 1, 0), file(1, 1, 1, 0)]
    )
    .is_none());
    // no id left
    assert!(TreeStore::from_rows(vec![folder(i32::MAX, 1, None)], vec![]).is_none());
    assert!(TreeStore::from_rows(vec![], vec![]).is_some());
}

#[test]
fn a_store_out_of_ids_takes_no_folder() {
    let root = Folder {
        id: i32::MAX - 2,
        name: "r".to_string(),
        last_modified: 0,
        starred: false,
        fk_owner: 1,
        fk_parent: None,
    };
    let mut t = TreeStore::from_rows(vec![root], vec![]).unwrap();
    // One id is left: not enough for two roots, and none is written.
    let e = init_root_folders(&mut t, 2, 0).unwrap_err();
    assert_eq!(e.0, "Something went wrong.");
    assert!(get_root_folders(&t, 2).is_empty());
    assert!(t.folder_tree(i32::MAX - 1, 2).is_empty());
    assert_eq!(new_folder(&mut t, "x", i32::MAX - 2, 1, 0).unwrap().get_id(), i32::MAX - 1);
    assert_eq!(new_folder(&mut t, "y", i32::MAX - 2, 1, 0).unwrap_err(), FileError::InternalError);
    assert!(init_root_folders(&mut t, 3, 0).is_err());
    assert!(get_root_folders(&t, 3).is_empty());
}

#[test]
fn the_roots_of_a_user_are_told_apart_by_their_kind() {
    let mut t = forest();
    assert_eq!(get_root_folder(&t, 1, RootKind::Personal).unwrap().get_id(), 1);
    assert_eq!(get_root_folder(&t, 1, RootKind::Trash).unwrap().get_id(), 2);
    assert_eq!(get_root_folder(&t, 2, RootKind::Trash).unwrap().get_name(), "Trash");
    assert!(get_root_folder(&t, 3, RootKind::Personal).is_none());
    let mut blobs = BlobStore::new();
    delete_folder(&mut t, &mut blobs, 2, 1, false).unwrap();
    assert_eq!(get_root_folder(&t, 1, RootKind::Personal).unwrap().get_id(), 1);
    assert_eq!(get_root_folder(&t, 1, RootKind::Trash).unwrap().get_id(), 2);
}

#[test]
fn the_two_roots_are_created_together_or_not_at_all() {
    let root = |id| Folder {
        id,
        name: "r".to_string(),
        last_modified: 0,
        starred: false,
        fk_owner: 1,
        fk_parent: None,
    };
    // Two ids are left: both roots are written.
    let mut t = TreeStore::from_rows(vec![root(i32::MAX - 3)], vec![]).unwrap();
    init_root_folders(&mut t, 2, 5).unwrap();
    let roots = get_root_folders(&t, 2);
    assert_eq!(roots.iter().map(|f| f.get_id()).collect::<Vec<_>>(), vec![i32::MAX - 2, i32::MAX - 1]);
    // One id is left: neither is written.
    let mut t = TreeStore::from_rows(vec![root(i32::MAX - 2)], vec![]).unwrap();
    assert!(init_root_folders(&mut t, 2, 5).is_err());
    assert!(get_root_folders(&t, 2).is_empty());
    assert_eq!(get_root_folders(&t, 1).len(), 1);
}

#[test]
fn a_user_gets_the_roots_once() {
    let mut t = forest();
    let e = init_root_folders(&mut t, 1, 50).unwrap_err();
    assert_eq!(e.0, "Something went wrong.");
    assert_eq!(init_root_folders(&mut t, 2, 50).unwrap_err().0, "Something went wrong.");
    assert_eq!(get_root_folders(&t, 1).iter().map(|f| f.get_id()).collect::<Vec<_>>(), vec![1, 2]);
    assert_eq!(get_root_folders(&t, 2).iter().map(|f| f.get_id()).collect::<Vec<_>>(), vec![7, 8]);
    assert_eq!(t.folder_tree(1, 1), vec![1, 3, 6, 4, 5]);
    init_root_folders(&mut t, 3, 50).unwrap();
    assert_eq!(get_root_folders(&t, 3).iter().map(|f| f.get_id()).collect::<Vec<_>>(), vec![9, 10]);
}

#[test]
fn a_root_is_never_moved() {
    let mut t = forest();
    for (root, to) in [(1, 2), (2, 1), (1, 6), (2, 3), (2, 5)] {
        assert_eq!(move_folder(&mut t, root, to, 1), MoveOutcome::Unchanged);
    }
    assert_eq!(get_root_folders(&t, 1).iter().map(|f| f.get_id()).collect::<Vec<_>>(), vec![1, 2]);
    assert_eq!(t.folder_tree(1, 1), vec![1, 3, 6, 4, 5]);
    assert_eq!(t.folder_tree(2, 1), vec![2]);
    assert_eq!(t.parent_of_folder(1), None);
    assert_eq!(t.parent_of_folder(3), Some(1));
    assert_eq!(t.parent_of_folder(99), None);
    assert_eq!(move_folder(&mut t, 3, 2, 1), MoveOutcome::Moved);
    assert_eq!(get_root_folders(&t, 1).len(), 2);
}

#[test]
fn a_root_is_emptied_but_never_deleted() {
    let mut t = forest();
    let mut blobs = BlobStore::new();
    with_files(&mut t, &mut blobs);
    delete_folder(&mut t, &mut blobs, 1, 1, false).unwrap();
    assert_eq!(t.folder_tree(1, 1), vec![1]);
    assert!(get_folders(&t, 1, 1).is_empty() && get_files(&t, 1, 1).is_empty());
    assert_eq!(get_root_folders(&t, 1).iter().map(|f| f.get_id()).collect::<Vec<_>>(), vec![1, 2]);
    assert_eq!(used_storage(&t, 1), 0);
    assert!(!blobs.holds(1) && !blobs.holds(2) && !blobs.holds(3) && blobs.holds(4));
    delete_folder(&mut t, &mut blobs, 2, 1, true).unwrap();
    delete_folder(&mut t, &mut blobs, 7, 1, false).unwrap();
    assert_eq!(get_root_folders(&t, 1).len(), 2);
    assert_eq!(get_root_folders(&t, 2).len(), 2);
    assert_eq!(used_storage(&t, 2), 1000);
}
