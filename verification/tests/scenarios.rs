use cloud_drive::models::blobs::BlobStore;
use cloud_drive::models::files_model::{get_file, new_file};
use cloud_drive::models::folders_model::{
    delete_folder, folder_size, get_folders, get_root_folders, init_root_folders, move_folder,
    new_folder, used_storage, MoveOutcome,
};
use cloud_drive::models::store::TreeStore;
use cloud_drive::routes::api::auth::{signup, SignupData};
use cloud_drive::routes::api::cloud::upload;
use cloud_drive::routes::api::{AppState, Limits, StatusCode};
use rand_chacha::ChaCha8Rng;
use rand_core::SeedableRng;

#[test]
fn one_user_fills_and_empties_the_cloud() {
    let mut tree = TreeStore::new();
    let mut blobs = BlobStore::new();
    let user = 1;
    init_root_folders(&mut tree, user, 100).unwrap();
    let roots = get_root_folders(&tree, user);
    assert_eq!(roots.len(), 2);
    assert_eq!(roots[0].get_name(), "My Cloud");
    assert_eq!(roots[1].get_name(), "Trash");
    let r1 = roots[0].get_id();

    let b = new_folder(&mut tree, "B", r1, user, 101).unwrap();
    let content = vec![7u8; 500_000];
    let f = new_file(&mut tree, &mut blobs, "F.bin", &content, b.get_id(), user, 102).unwrap();
    assert_eq!(f.get_size(), 500_000);
    assert_eq!(folder_size(&tree, r1, user, None), 500_000);

    assert_eq!(move_folder(&mut tree, b.get_id(), b.get_id(), user), MoveOutcome::Unchanged);
    assert_eq!(get_folders(&tree, r1, user).len(), 1);
    assert_eq!(*get_folders(&tree, r1, user)[0].get_fk_parent(), Some(r1));
    assert_eq!(folder_size(&tree, r1, user, None), 500_000);

    delete_folder(&mut tree, &mut blobs, r1, user, true).unwrap();
    assert_eq!(get_folders(&tree, r1, user).len(), 0);
    assert!(get_file(&tree, &blobs, f.get_id(), user).is_err());
    assert!(!blobs.holds(f.get_id()));
    assert_eq!(get_root_folders(&tree, user).len(), 2);
    assert_eq!(get_root_folders(&tree, user)[0].get_id(), r1);
    assert_eq!(used_storage(&tree, user), 0);
}

fn service(max_upload_mb: usize, max_storage_mb: i64) -> AppState {
    AppState::new(
        ChaCha8Rng::seed_from_u64(7),
        3600,
        Limits { max_upload_mb, max_storage_mb },
    )
}

fn signed_up(state: &mut AppState) -> (i32, i32) {
    let reply = signup(
        state,
        &SignupData {
            username: "alice".to_string(),
            email: "alice@example.org".to_string(),
            password: "correct horse".to_string(),
        },
        1_000,
    );
    assert_eq!(reply.status, StatusCode::Created);
    let roots = get_root_folders(&state.tree, 1);
    (1, roots[0].get_id())
}

#[test]
fn an_upload_over_the_quota_is_refused_and_changes_nothing() {
    let mut state = service(10, 1);
    let (user, root) = signed_up(&mut state);
    let first = Some(vec![1u8; 600_000]);
    let name = Some("a.txt".to_string());
    assert_eq!(
        upload(&mut state, user, &name, &first, Some(root), 1_001).unwrap(),
        StatusCode::Created
    );
    assert_eq!(used_storage(&state.tree, user), 600_000);

    let second = Some(vec![2u8; 400_001]);
    let name = Some("b.txt".to_string());
    let refused = upload(&mut state, user, &name, &second, Some(root), 1_002).unwrap_err();
    assert_eq!(refused.0, StatusCode::PayloadTooLarge);
    assert_eq!(refused.1.message, "Not enough space available. 0 MB left.");
    assert_eq!(used_storage(&state.tree, user), 600_000);
    assert_eq!(cloud_drive::models::files_model::get_files(&state.tree, root, user).len(), 1);

    let fitting = Some(vec![3u8; 400_000]);
    assert_eq!(
        upload(&mut state, user, &name, &fitting, Some(root), 1_003).unwrap(),
        StatusCode::Created
    );
    assert_eq!(used_storage(&state.tree, user), 1_000_000);
}
