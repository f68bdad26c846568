//! The entry points on folders and files.

use vstd::prelude::*;
use vstd::string::StringExecFns;
use crate::errors::FileError;
use crate::models::blobs::{blob_deleted, blob_read, blob_written};
use crate::models::file::{file_rows, File, FileView};
use crate::models::files_model::{
    contents_cleared, copy_row, file_accepted, lemma_contents_cleared, new_file_row, valid_name,
};
use crate::models::folder::{folder_rows, Folder, FolderView};
use crate::models::folders_model::{folder_accepted, new_folder_row};
use crate::models::store::{file_ids, TreeStore};
use crate::models::tree::{roots_of, TreeView};
use crate::models::{files_model, folders_model};
use crate::routes::api::{AppState, ErrorResponse, Limits, StatusCode};
use crate::text::{decimal, push_decimal, push_wide_decimal, signed_decimal};

verus! {

/// What the listing of a folder is asked with.
#[derive(Debug)]
pub struct ViewQuery {
    pub parent_folder_id: i32,
    pub folders_only: Option<bool>,
}

/// The listing of a folder.
#[derive(Debug)]
pub struct ViewResponse {
    pub files: Vec<File>,
    pub folders: Vec<Folder>,
}

/// An id, in a query.
#[derive(Debug)]
pub struct IdQuery {
    pub id: i32,
}

/// What a new folder is asked with.
#[derive(Debug)]
pub struct NewFolderData {
    pub parent_id: i32,
    pub name: String,
}

/// What a new name is asked with.
#[derive(Debug)]
pub struct RenameData {
    pub id: i32,
    pub new_name: String,
}

/// The size of a folder.
#[derive(Debug)]
pub struct FolderSizeResponse {
    pub size: i64,
}

/// What a move is asked with.
#[derive(Debug)]
pub struct MoveData {
    pub id: i32,
    pub folder_id: i32,
}

/// What the delete of a folder is asked with.
#[derive(Debug)]
pub struct DeleteQuery {
    pub id: i32,
    pub preserve_parent: Option<bool>,
}

/// What the size of a folder is asked with.
#[derive(Debug)]
pub struct IdFilterQuery {
    pub id: i32,
    pub filter: Option<String>,
}

/// An id, in a body.
#[derive(Debug)]
pub struct IdData {
    pub id: i32,
}

impl AppState {
    /// Whether nothing but the rows and the contents differs from `before`.
    pub open spec fn same_accounts(&self, before: &AppState) -> bool {
        &&& self.users == before.users
        &&& self.sessions == before.sessions
        &&& self.rng == before.rng
        &&& self.limits == before.limits
    }
}

/// The bytes that a user may still store.
pub open spec fn space_left(used: int, max_storage_mb: int) -> int {
    max_storage_mb * 1_000_000 - used
}

/// A number of bytes in whole millions, rounded towards zero.
pub open spec fn whole_mb(bytes: int) -> int {
    if bytes >= 0 {
        bytes / 1_000_000
    } else {
        -((-bytes) / 1_000_000)
    }
}

/// What a user is told who has not enough space left.
pub open spec fn no_space_message(left: int) -> Seq<char> {
    "Not enough space available. "@ + signed_decimal(whole_mb(left)) + " MB left."@
}

/// What a user is told whose upload is too large.
pub open spec fn too_large_message(max_upload_mb: int) -> Seq<char> {
    "The file can't be larger than "@ + decimal(max_upload_mb as nat) + " MB."@
}

/// Checks that `user_id` has room for `bytes` more bytes.
fn check_room(tree: &TreeStore, user_id: i32, bytes: i128, max_storage_mb: i64) -> (r: Result<
    (),
    (StatusCode, ErrorResponse),
>)
    requires
        tree@.wf(),
        -0x8000_0000_0000_0000 <= bytes <= 0xffff_ffff_ffff_ffff,
    ensures
        r is Ok <==> tree@.used_storage(user_id) + bytes <= max_storage_mb * 1_000_000,
        r is Err ==> r->Err_0.0 == StatusCode::PayloadTooLarge && r->Err_0.1.message@
            == no_space_message(space_left(tree@.used_storage(user_id), max_storage_mb as int)),
{
    let used = folders_model::used_storage(tree, user_id);
    let left: i128 = max_storage_mb as i128 * 1_000_000 - used as i128;
    if left < bytes {
        let mb: i128 = if left >= 0 {
            left / 1_000_000
        } else {
            -((-left) / 1_000_000)
        };
        let mut message = String::from_str("Not enough space available. ");
        push_wide_decimal(&mut message, mb);
        message.append(" MB left.");
        return Err((StatusCode::PayloadTooLarge, ErrorResponse { message }));
    }
    Ok(())
}

/// Checks that `user_id` has room for `file_size` more bytes: what the user
/// has stored and the new bytes together may not exceed the limit.
pub fn check_size(tree: &TreeStore, user_id: i32, file_size: i64, max_storage_mb: i64) -> (r:
    Result<(), (StatusCode, ErrorResponse)>)
    requires
        tree@.wf(),
    ensures
        r is Ok <==> tree@.used_storage(user_id) + file_size <= max_storage_mb * 1_000_000,
        r is Err ==> r->Err_0.0 == StatusCode::PayloadTooLarge && r->Err_0.1.message@
            == no_space_message(space_left(tree@.used_storage(user_id), max_storage_mb as int)),
{
    check_room(tree, user_id, file_size as i128, max_storage_mb)
}

/// The text of an optional name.
pub open spec fn name_text(name: Option<String>) -> Option<Seq<char>> {
    match name {
        Some(n) => Some(n@),
        None => None,
    }
}

/// The length of an optional content.
pub open spec fn content_len(content: Option<Vec<u8>>) -> Option<int> {
    match content {
        Some(c) => Some(c@.len() as int),
        None => None,
    }
}

/// Why an upload is refused, if it is: a part of the form is missing; the
/// content is larger than an upload may be; the user has not enough space
/// left; the name is invalid; or the row cannot be written.
pub open spec fn upload_refusal(
    t: TreeView,
    limits: Limits,
    user_id: i32,
    name: Option<Seq<char>>,
    len: Option<int>,
    parent: Option<i32>,
) -> Option<(StatusCode, Seq<char>)> {
    if name is None || len is None || parent is None {
        Some((StatusCode::BadRequest, "Invalid form data."@))
    } else if len->0 > limits.max_upload_mb * 1_000_000 {
        Some((StatusCode::PayloadTooLarge, too_large_message(limits.max_upload_mb as int)))
    } else if t.used_storage(user_id) + len->0 > limits.max_storage_mb * 1_000_000 {
        Some(
            (
                StatusCode::PayloadTooLarge,
                no_space_message(space_left(t.used_storage(user_id), limits.max_storage_mb as int)),
            ),
        )
    } else if !valid_name(name->0) {
        Some((StatusCode::BadRequest, "Invalid file name."@))
    } else if !file_accepted(t, name->0, len->0, parent->0, user_id) {
        Some((StatusCode::InternalServerError, "Something went wrong."@))
    } else {
        None
    }
}

/// Checks an upload before anything is written: that the form is
/// complete, that the content is no larger than an upload may be, that the
/// user has room for it, that the name is valid and that the row can be
/// written.
pub fn check_upload(
    tree: &TreeStore,
    limits: &Limits,
    user_id: i32,
    file_name: &Option<String>,
    content: &Option<Vec<u8>>,
    parent_folder: Option<i32>,
) -> (r: Result<(), (StatusCode, ErrorResponse)>)
    requires
        tree@.wf(),
    ensures
        match upload_refusal(
            tree@,
            *limits,
            user_id,
            name_text(*file_name),
            content_len(*content),
            parent_folder,
        ) {
            Some(refusal) => r is Err && r->Err_0.0 == refusal.0 && r->Err_0.1.message@
                == refusal.1,
            None => r is Ok,
        },
{
    let (file_name, content, parent_folder_id) = match (file_name, content, parent_folder) {
        (Some(file_name), Some(content), Some(parent_folder_id)) => (
            file_name,
            content,
            parent_folder_id,
        ),
        _ => {
            return Err(ErrorResponse::response(StatusCode::BadRequest, "Invalid form data."));
        },
    };
    if content.len() as u128 > limits.max_upload_mb as u128 * 1_000_000 {
        let mut message = String::from_str("The file can't be larger than ");
        push_decimal(&mut message, limits.max_upload_mb as u128);
        message.append(" MB.");
        return Err((StatusCode::PayloadTooLarge, ErrorResponse { message }));
    }
    check_room(tree, user_id, content.len() as i128, limits.max_storage_mb)?;
    if !files_model::validate_name(file_name.as_str()) {
        return Err(ErrorResponse::response(StatusCode::BadRequest, "Invalid file name."));
    }
    if !tree.owns_folder(parent_folder_id, user_id) || content.len() > 0x7fff_ffff
        || !tree.has_file_id_left() {
        return Err(ErrorResponse::internal_err());
    }
    Ok(())
}

/// Uploads a file for `user_id`, from the parts of the form that were
/// found. A refused upload changes nothing.
pub fn upload(
    state: &mut AppState,
    user_id: i32,
    file_name: &Option<String>,
    content: &Option<Vec<u8>>,
    parent_folder: Option<i32>,
    now: i64,
) -> (r: Result<StatusCode, (StatusCode, ErrorResponse)>)
    requires
        old(state).wf(),
    ensures
        final(state).wf(),
        final(state).same_accounts(old(state)),
        match upload_refusal(
            old(state).tree@,
            old(state).limits,
            user_id,
            name_text(*file_name),
            content_len(*content),
            parent_folder,
        ) {
            Some(refusal) => {
                &&& r is Err
                &&& r->Err_0.0 == refusal.0
                &&& r->Err_0.1.message@ == refusal.1
                &&& final(state).tree@ == old(state).tree@
                &&& final(state).blobs@ == old(state).blobs@
            },
            None => {
                let row = new_file_row(
                    old(state).tree@,
                    file_name->0@,
                    content->0@.len() as int,
                    parent_folder->0,
                    user_id,
                    now,
                );
                &&& r == Ok::<StatusCode, (StatusCode, ErrorResponse)>(StatusCode::Created)
                &&& final(state).tree@ == old(state).tree@.with_file(row)
                &&& final(state).blobs@ == blob_written(old(state).blobs@, row.id, content->0@)
            },
        },
{
    check_upload(&state.tree, &state.limits, user_id, file_name, content, parent_folder)?;
    let (file_name, content, parent_folder_id) = match (file_name, content, parent_folder) {
        (Some(file_name), Some(content), Some(parent_folder_id)) => (
            file_name,
            content,
            parent_folder_id,
        ),
        _ => {
            return Err(ErrorResponse::response(StatusCode::BadRequest, "Invalid form data."));
        },
    };
    let res = files_model::new_file(
        &mut state.tree,
        &mut state.blobs,
        file_name.as_str(),
        content.as_slice(),
        parent_folder_id,
        user_id,
        now,
    );
    match res {
        Ok(_) => Ok(StatusCode::Created),
        Err(e) => match e {
            FileError::NameError => Err(
                ErrorResponse::response(StatusCode::BadRequest, "Invalid file name."),
            ),
            FileError::InternalError => Err(ErrorResponse::internal_err()),
        },
    }
}

/// Lists what lies directly in a folder of `user_id`: the folders, and the
/// files unless only folders were asked for.
pub fn view(state: &AppState, user_id: i32, params: &ViewQuery) -> (r: (StatusCode, ViewResponse))
    ensures
        r.0 == StatusCode::Success,
        folder_rows(r.1.folders@) == state.tree@.folders.filter(
            |f: FolderView| f.fk_owner == user_id && f.fk_parent == Some(params.parent_folder_id),
        ),
        file_rows(r.1.files@) == if params.folders_only == Some(true) {
            Seq::<FileView>::empty()
        } else {
            state.tree@.files.filter(
                |f: FileView| f.fk_owner == user_id && f.fk_parent == params.parent_folder_id,
            )
        },
{
    let folders = folders_model::get_folders(&state.tree, params.parent_folder_id, user_id);
    if let Some(folders_only) = params.folders_only {
        if folders_only {
            let files: Vec<File> = Vec::new();
            assert(file_rows(files@) == Seq::<FileView>::empty());
            return (StatusCode::Success, ViewResponse { files, folders });
        }
    }
    let files = files_model::get_files(&state.tree, params.parent_folder_id, user_id);
    (StatusCode::Success, ViewResponse { files, folders })
}

/// Creates a folder for `user_id`.
pub fn folder_new(state: &mut AppState, user_id: i32, data: &NewFolderData, now: i64) -> (r: Result<
    StatusCode,
    (StatusCode, ErrorResponse),
>)
    requires
        old(state).wf(),
    ensures
        final(state).wf(),
        final(state).same_accounts(old(state)),
        final(state).blobs == old(state).blobs,
        if folder_accepted(old(state).tree@, data.name@, Some(data.parent_id), user_id) {
            &&& r == Ok::<StatusCode, (StatusCode, ErrorResponse)>(StatusCode::Created)
            &&& final(state).tree@ == old(state).tree@.with_folder(
                new_folder_row(old(state).tree@, data.name@, Some(data.parent_id), user_id, now),
            )
        } else {
            &&& r is Err
            &&& final(state).tree@ == old(state).tree@
            &&& if valid_name(data.name@) {
                r->Err_0.0 == StatusCode::InternalServerError && r->Err_0.1.message@
                    == "Something went wrong."@
            } else {
                r->Err_0.0 == StatusCode::BadRequest && r->Err_0.1.message@
                    == "Invalid folder name."@
            }
        },        forall|of: i32| #[trigger]
            roots_of(final(state).tree@.folders, of) == roots_of(old(state).tree@.folders, of),
{
    match folders_model::new_folder(
        &mut state.tree,
        data.name.as_str(),
        data.parent_id,
        user_id,
        now,
    ) {
        Ok(_) => Ok(StatusCode::Created),
        Err(e) => match e {
            FileError::NameError => Err(
                ErrorResponse::response(StatusCode::BadRequest, "Invalid folder name."),
            ),
            FileError::InternalError => Err(ErrorResponse::internal_err()),
        },
    }
}

/// Renames a folder of `user_id`.
pub fn folder_rename(state: &mut AppState, user_id: i32, data: &RenameData) -> (r: Result<
    StatusCode,
    (StatusCode, ErrorResponse),
>)
    requires
        old(state).wf(),
    ensures
        final(state).wf(),
        final(state).same_accounts(old(state)),
        final(state).blobs == old(state).blobs,
        if valid_name(data.new_name@) {
            &&& r == Ok::<StatusCode, (StatusCode, ErrorResponse)>(StatusCode::Success)
            &&& final(state).tree@ == old(state).tree@.renamed_folder(
                data.id,
                user_id,
                data.new_name@,
            )
        } else {
            &&& r is Err
            &&& r->Err_0.0 == StatusCode::BadRequest
            &&& r->Err_0.1.message@ == "Invalid folder name."@
            &&& final(state).tree@ == old(state).tree@
        },
        forall|of: i32| #[trigger]
            roots_of(final(state).tree@.folders, of).len() == roots_of(
                old(state).tree@.folders,
                of,
            ).len(),
{
    match folders_model::rename_folder(&mut state.tree, data.id, user_id, data.new_name.as_str()) {
        Ok(_) => Ok(StatusCode::Success),
        Err(_) => Err(ErrorResponse::response(StatusCode::BadRequest, "Invalid folder name.")),
    }
}

/// Renames a file of `user_id`.
pub fn file_rename(state: &mut AppState, user_id: i32, data: &RenameData) -> (r: Result<
    StatusCode,
    (StatusCode, ErrorResponse),
>)
    requires
        old(state).wf(),
    ensures
        final(state).wf(),
        final(state).same_accounts(old(state)),
        final(state).blobs == old(state).blobs,
        if valid_name(data.new_name@) {
            &&& r == Ok::<StatusCode, (StatusCode, ErrorResponse)>(StatusCode::Success)
            &&& final(state).tree@ == old(state).tree@.renamed_file(
                data.id,
                user_id,
                data.new_name@,
            )
        } else {
            &&& r is Err
            &&& r->Err_0.0 == StatusCode::BadRequest
            &&& r->Err_0.1.message@ == "Invalid file name."@
            &&& final(state).tree@ == old(state).tree@
        },
{
    match files_model::rename_file(&mut state.tree, data.id, user_id, data.new_name.as_str()) {
        Ok(_) => Ok(StatusCode::Success),
        Err(_) => Err(ErrorResponse::response(StatusCode::BadRequest, "Invalid file name.")),
    }
}

/// The value of the header that offers a download under the name `name`.
pub open spec fn attachment(name: Seq<char>) -> Seq<char> {
    "attachment; filename="@ + name
}

/// Hands out a file of `user_id`: the value of its `Content-Disposition`
/// header and its content.
pub fn file_download(state: &AppState, user_id: i32, query: &IdQuery) -> (r: Result<
    (StatusCode, String, Vec<u8>),
    (StatusCode, ErrorResponse),
>)
    requires
        state.wf(),
    ensures
        match (state.tree@.file_of(query.id, user_id), blob_read(state.blobs@, query.id)) {
            (Some(row), Some(bytes)) => {
                &&& r is Ok
                &&& r->Ok_0.0 == StatusCode::Success
                &&& r->Ok_0.1@ == attachment(row.name)
                &&& r->Ok_0.2@ == bytes
            },
            _ => {
                &&& r is Err
                &&& r->Err_0.0 == StatusCode::InternalServerError
                &&& r->Err_0.1.message@ == "Something went wrong."@
            },
        },
{
    match files_model::get_file(&state.tree, &state.blobs, query.id, user_id) {
        Ok((name, content)) => {
            let mut header = String::from_str("attachment; filename=");
            header.append(name.as_str());
            Ok((StatusCode::Success, header, content))
        },
        Err(_) => Err(ErrorResponse::internal_err()),
    }
}

/// The text of an optional tag.
pub open spec fn tag_of(filter: Option<String>) -> Option<Seq<char>> {
    match filter {
        Some(tag) => Some(tag@),
        None => None,
    }
}

/// The bytes under a folder of `user_id`.
pub fn folder_size(state: &AppState, user_id: i32, query: &IdFilterQuery) -> (r: (
    StatusCode,
    FolderSizeResponse,
))
    requires
        state.wf(),
    ensures
        r.0 == StatusCode::Success,
        r.1.size == state.tree@.folder_size(query.id, user_id, tag_of(query.filter)),
{
    let size = match &query.filter {
        Some(tag) => folders_model::folder_size(&state.tree, query.id, user_id, Some(tag.as_str())),
        None => folders_model::folder_size(&state.tree, query.id, user_id, None),
    };
    (StatusCode::Success, FolderSizeResponse { size })
}

/// Moves a folder of `user_id`. A move that is not allowed, as that of a
/// root is, changes nothing, and is answered like one that was made.
pub fn folder_move(state: &mut AppState, user_id: i32, data: &MoveData) -> (r: StatusCode)
    requires
        old(state).wf(),
    ensures
        final(state).wf(),
        final(state).same_accounts(old(state)),
        final(state).blobs == old(state).blobs,
        r == StatusCode::Success,
        final(state).tree@ == old(state).tree@.moved_folder(data.id, user_id, data.folder_id),        forall|of: i32| #[trigger]
            roots_of(final(state).tree@.folders, of) == roots_of(old(state).tree@.folders, of),
{
    let _ = folders_model::move_folder(&mut state.tree, data.id, data.folder_id, user_id);
    StatusCode::Success
}

/// Moves a file of `user_id`. A move that is not allowed changes nothing,
/// and is answered like one that was made.
pub fn file_move(state: &mut AppState, user_id: i32, data: &MoveData) -> (r: StatusCode)
    requires
        old(state).wf(),
    ensures
        final(state).wf(),
        final(state).same_accounts(old(state)),
        final(state).blobs == old(state).blobs,
        r == StatusCode::Success,
        final(state).tree@ == old(state).tree@.moved_file(data.id, user_id, data.folder_id),
{
    let _ = files_model::move_file(&mut state.tree, data.id, data.folder_id, user_id);
    StatusCode::Success
}

/// Deletes a file of `user_id`.
pub fn file_delete(state: &mut AppState, user_id: i32, query: &IdQuery) -> (r: Result<
    StatusCode,
    (StatusCode, ErrorResponse),
>)
    requires
        old(state).wf(),
    ensures
        final(state).wf(),
        final(state).same_accounts(old(state)),
        r is Ok ==> r->Ok_0 == StatusCode::Success,
        r is Err ==> r->Err_0.0 == StatusCode::InternalServerError && r->Err_0.1.message@
            == "Something went wrong."@,
        match old(state).tree@.file_of(query.id, user_id) {
            Some(_) => {
                &&& final(state).tree@ == old(state).tree@.without_file(query.id, user_id)
                &&& final(state).blobs@ == blob_deleted(old(state).blobs@, query.id)
                &&& r is Ok <==> old(state).blobs@.contains_key(query.id)
            },
            None => {
                &&& final(state).tree@ == old(state).tree@
                &&& final(state).blobs@ == old(state).blobs@
                &&& r is Err
            },
        },
{
    match files_model::delete_file(&mut state.tree, &mut state.blobs, query.id, user_id) {
        Ok(_) => Ok(StatusCode::Success),
        Err(_) => Err(ErrorResponse::internal_err()),
    }
}

/// Whether a folder is asked to be kept when what lies in it is deleted.
pub open spec fn keeps_folder(query: DeleteQuery) -> bool {
    query.preserve_parent == Some(true)
}

/// Deletes the tree of a folder of `user_id`, with the folder or without.
/// A root is emptied and stays: every user keeps the roots that the user
/// had.
pub fn folder_delete(state: &mut AppState, user_id: i32, query: &DeleteQuery) -> (r: Result<
    StatusCode,
    (StatusCode, ErrorResponse),
>)
    requires
        old(state).wf(),
    ensures
        final(state).wf(),
        final(state).same_accounts(old(state)),
        r is Ok ==> r->Ok_0 == StatusCode::Success,
        r is Err ==> r->Err_0.0 == StatusCode::InternalServerError && r->Err_0.1.message@
            == "Something went wrong."@,
        contents_cleared(
            old(state).blobs@,
            file_ids(old(state).tree@.files_under(query.id, user_id)),
            final(state).blobs@,
            r is Ok,
        ),
        final(state).tree@ == if r is Ok {
            old(state).tree@.without_files_under(query.id, user_id).without_folders_under(
                query.id,
                user_id,
                keeps_folder(*query),
            )
        } else {
            old(state).tree@.without_files_under(query.id, user_id)
        },
        forall|of: i32| #[trigger]
            roots_of(final(state).tree@.folders, of) == roots_of(old(state).tree@.folders, of),
{
    let keep = match query.preserve_parent {
        Some(keep) => keep,
        None => false,
    };
    let done = folders_model::delete_folder(
        &mut state.tree,
        &mut state.blobs,
        query.id,
        user_id,
        keep,
    );
    proof {
        lemma_contents_cleared(
            old(state).blobs@,
            file_ids(old(state).tree@.files_under(query.id, user_id)),
            state.blobs@,
            done,
        );
    }
    match done {
        Ok(_) => Ok(StatusCode::Success),
        Err(_) => Err(ErrorResponse::internal_err()),
    }
}

/// Why a copy is refused, if it is: the user has no such file; the user has
/// not enough space left for a second one; the content of the file is
/// missing; or the store has run out of ids.
pub open spec fn copy_refusal(
    t: TreeView,
    blobs: Map<i32, Seq<u8>>,
    limits: Limits,
    user_id: i32,
    id: i32,
) -> Option<(StatusCode, Seq<char>)> {
    match t.file_of(id, user_id) {
        None => Some((StatusCode::InternalServerError, "Something went wrong."@)),
        Some(row) => if t.used_storage(user_id) + row.size > limits.max_storage_mb * 1_000_000 {
            Some(
                (
                    StatusCode::PayloadTooLarge,
                    no_space_message(
                        space_left(t.used_storage(user_id), limits.max_storage_mb as int),
                    ),
                ),
            )
        } else if blob_read(blobs, id) is None || t.next_file_id >= i32::MAX {
            Some((StatusCode::InternalServerError, "Something went wrong."@))
        } else {
            None
        },
    }
}

/// Copies a file of `user_id`, where the user has room for it. A refused
/// copy changes nothing.
pub fn file_duplicate(state: &mut AppState, user_id: i32, data: &IdData, now: i64) -> (r: Result<
    StatusCode,
    (StatusCode, ErrorResponse),
>)
    requires
        old(state).wf(),
    ensures
        final(state).wf(),
        final(state).same_accounts(old(state)),
        match copy_refusal(
            old(state).tree@,
            old(state).blobs@,
            old(state).limits,
            user_id,
            data.id,
        ) {
            Some(refusal) => {
                &&& r is Err
                &&& r->Err_0.0 == refusal.0
                &&& r->Err_0.1.message@ == refusal.1
                &&& final(state).tree@ == old(state).tree@
                &&& final(state).blobs@ == old(state).blobs@
            },
            None => {
                let row = copy_row(
                    old(state).tree@,
                    old(state).tree@.file_of(data.id, user_id)->0,
                    now,
                );
                &&& r == Ok::<StatusCode, (StatusCode, ErrorResponse)>(StatusCode::Success)
                &&& final(state).tree@ == old(state).tree@.with_file(row)
                &&& final(state).blobs@ == blob_written(
                    old(state).blobs@,
                    row.id,
                    blob_read(old(state).blobs@, data.id)->0,
                )
            },
        },
{
    let file = match files_model::get_file_by_id(&state.tree, data.id, user_id) {
        Ok(file) => file,
        Err(_) => {
            return Err(ErrorResponse::internal_err());
        },
    };
    check_size(&state.tree, user_id, file.get_size() as i64, state.limits.max_storage_mb)?;
    match files_model::duplicate_file(&mut state.tree, &mut state.blobs, data.id, user_id, now) {
        Ok(_) => Ok(StatusCode::Success),
        Err(_) => Err(ErrorResponse::internal_err()),
    }
}

} // verus!
