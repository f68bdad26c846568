//! Operations on files and on their contents.

use vstd::prelude::*;
use vstd::string::{StrSliceExecFns, StringExecFns};
use crate::errors::{FileError, InternalError};
use crate::models::blobs::{blob_deleted, blob_read, blob_written, copy_bytes, BlobStore};
use crate::models::file::{file_rows, tag_text, File, FileView};
use crate::models::folders_model::MoveOutcome;
use crate::models::preserve::{lemma_fewer_files_wf, lemma_same_files_wf, lemma_with_file_wf};
use crate::models::store::{
    file_ids, lemma_filter_step, remove_marked_files, TreeStore,
};
use crate::models::tree::{owned_folder, TreeView};
use crate::text::{
    chars_of, lowercased, same_text, signed_decimal, to_lowercase, trimmed,
    trimmed_len,
};

verus! {

/// Whether `name` may name a file or a folder: trimmed of white space it has
/// 1 to 255 characters.
pub open spec fn valid_name(name: Seq<char>) -> bool {
    1 <= trimmed(name).len() <= 255
}

/// Whether `name` may name a file or a folder.
pub fn validate_name(name: &str) -> (valid: bool)
    ensures
        valid == valid_name(name@),
{
    let n = trimmed_len(name);
    n >= 1 && n <= 255
}

/// The directory in which the contents of the files lie.
pub const FILES_FOLDER: &'static str = "files_data";

/// Where the content of the file `file_id` lies: the directory of the
/// contents, a slash, and the id in decimal.
pub fn build_file_path(file_id: i32) -> (path: String)
    ensures
        path@ == FILES_FOLDER@ + "/"@ + signed_decimal(file_id as int),
{
    let mut path = String::from_str(FILES_FOLDER);
    path.append("/");
    crate::text::push_signed_decimal(&mut path, file_id);
    path
}

/// The position of the last dot of `name`, or -1 where it has none.
pub open spec fn last_dot(name: Seq<char>) -> int
    decreases name.len(),
{
    if name.len() == 0 {
        -1
    } else if name.last() == '.' {
        name.len() - 1
    } else {
        last_dot(name.drop_last())
    }
}

/// The position of the last slash of `name`, or -1 where it has none.
pub open spec fn last_slash(name: Seq<char>) -> int
    decreases name.len(),
{
    if name.len() == 0 {
        -1
    } else if name.last() == '/' {
        name.len() - 1
    } else {
        last_slash(name.drop_last())
    }
}

/// Whether a path ignores the last character of `name`: a slash, or a dot
/// that stands alone behind a slash.
pub open spec fn ends_idly(name: Seq<char>) -> bool {
    name.len() > 0 && (name.last() == '/' || (name.len() >= 2 && name.last() == '.' && name[name.len()
        - 2] == '/'))
}

/// The length of `name` without what a path ignores at its end.
pub open spec fn path_end(name: Seq<char>) -> int
    decreases name.len(),
{
    if ends_idly(name) {
        path_end(name.drop_last())
    } else {
        name.len() as int
    }
}

/// The last part of `name`, read as a path with slashes between its parts:
/// what follows the last slash, once the slashes and single dots at the end
/// are set aside. For `a/b.txt`, `b.txt/` and `b.txt/.` it is `b.txt`.
pub open spec fn last_component(name: Seq<char>) -> Seq<char> {
    let path = name.take(path_end(name));
    path.skip(last_slash(path) + 1)
}

/// The extension of a file name: what follows the last dot of its last
/// part, where that dot is not the first character of the part.
pub open spec fn extension(name: Seq<char>) -> Option<Seq<char>> {
    let part = last_component(name);
    let d = last_dot(part);
    if d <= 0 {
        None
    } else {
        Some(part.skip(d + 1))
    }
}

/// Whether files with this extension hold text.
pub open spec fn text_extension(e: Seq<char>) -> bool {
    ||| e == "txt"@
    ||| e == "c"@
    ||| e == "cpp"@
    ||| e == "h"@
    ||| e == "hpp"@
    ||| e == "py"@
    ||| e == "js"@
    ||| e == "html"@
    ||| e == "css"@
    ||| e == "md"@
    ||| e == "json"@
    ||| e == "xml"@
    ||| e == "yaml"@
    ||| e == "toml"@
    ||| e == "rs"@
    ||| e == "svelte"@
    ||| e == "jsx"@
    ||| e == "nim"@
    ||| e == "go"@
    ||| e == "java"@
    ||| e == "php"@
    ||| e == "rb"@
    ||| e == "lua"@
    ||| e == "swift"@
    ||| e == "kt"@
    ||| e == "scala"@
    ||| e == "pl"@
    ||| e == "sh"@
    ||| e == "bat"@
    ||| e == "ps1"@
    ||| e == "ts"@
    ||| e == "asm"@
    ||| e == "config"@
    ||| e == "yml"@
    ||| e == "env"@
    ||| e == "sql"@
    ||| e == "gitignore"@
    ||| e == "tsx"@
    ||| e == "cs"@
}

/// Whether files with this extension hold an image.
pub open spec fn image_extension(e: Seq<char>) -> bool {
    ||| e == "png"@
    ||| e == "jpg"@
    ||| e == "jpeg"@
    ||| e == "gif"@
    ||| e == "bmp"@
    ||| e == "svg"@
    ||| e == "ico"@
    ||| e == "webp"@
    ||| e == "tiff"@
    ||| e == "tif"@
    ||| e == "heif"@
    ||| e == "heic"@
}

/// The tag of a file whose extension, in lower case, is `e`.
pub open spec fn tag_of_extension(e: Seq<char>) -> Option<Seq<char>> {
    if text_extension(e) {
        Some("Text"@)
    } else if image_extension(e) {
        Some("Image"@)
    } else {
        None
    }
}

/// The tag of a file with this name.
pub open spec fn file_tag(name: Seq<char>) -> Option<Seq<char>> {
    match extension(name) {
        Some(e) => tag_of_extension(lowercased(e)),
        None => None,
    }
}

fn is_text_extension(e: &str) -> (b: bool)
    ensures
        b == text_extension(e@),
{
    same_text(e, "txt") || same_text(e, "c") || same_text(e, "cpp") || same_text(e, "h")
        || same_text(e, "hpp") || same_text(e, "py") || same_text(e, "js") || same_text(e, "html")
        || same_text(e, "css") || same_text(e, "md") || same_text(e, "json") || same_text(e, "xml")
        || same_text(e, "yaml") || same_text(e, "toml") || same_text(e, "rs") || same_text(
        e,
        "svelte",
    ) || same_text(e, "jsx") || same_text(e, "nim") || same_text(e, "go") || same_text(e, "java")
        || same_text(e, "php") || same_text(e, "rb") || same_text(e, "lua") || same_text(e, "swift")
        || same_text(e, "kt") || same_text(e, "scala") || same_text(e, "pl") || same_text(e, "sh")
        || same_text(e, "bat") || same_text(e, "ps1") || same_text(e, "ts") || same_text(e, "asm")
        || same_text(e, "config") || same_text(e, "yml") || same_text(e, "env") || same_text(
        e,
        "sql",
    ) || same_text(e, "gitignore") || same_text(e, "tsx") || same_text(e, "cs")
}

fn is_image_extension(e: &str) -> (b: bool)
    ensures
        b == image_extension(e@),
{
    same_text(e, "png") || same_text(e, "jpg") || same_text(e, "jpeg") || same_text(e, "gif")
        || same_text(e, "bmp") || same_text(e, "svg") || same_text(e, "ico") || same_text(e, "webp")
        || same_text(e, "tiff") || same_text(e, "tif") || same_text(e, "heif") || same_text(
        e,
        "heic",
    )
}

/// The tag of a file whose extension, in lower case, is `extension`: "Text",
/// "Image" or none.
pub fn file_type_of_extension(extension: &str) -> (tag: Option<String>)
    ensures
        tag_text(tag) == tag_of_extension(extension@),
{
    if is_text_extension(extension) {
        Some(String::from_str("Text"))
    } else if is_image_extension(extension) {
        Some(String::from_str("Image"))
    } else {
        None
    }
}

/// The tag of a file with this name, by its extension in lower case.
pub fn get_file_type(file_name: &str) -> (tag: Option<String>)
    ensures
        tag_text(tag) == file_tag(file_name@),
{
    let chars = chars_of(file_name);
    let mut end: usize = chars.len();
    assert(chars@.take(chars.len() as int) == chars@);
    while end > 0 && (chars[end - 1] == '/' || (end >= 2 && chars[end - 1] == '.' && chars[end - 2]
        == '/'))
        invariant
            0 <= end <= chars.len(),
            path_end(chars@) == path_end(chars@.take(end as int)),
        decreases end,
    {
        proof {
            assert(chars@.take(end as int).drop_last() == chars@.take(end - 1));
        }
        end = end - 1;
    }
    let ghost path = chars@.take(end as int);
    assert(path_end(chars@) == end);
    let mut start: usize = end;
    assert(path.take(end as int) == path);
    while start > 0 && chars[start - 1] != '/'
        invariant
            0 <= start <= end <= chars.len(),
            path == chars@.take(end as int),
            last_slash(path) == last_slash(path.take(start as int)),
        decreases start,
    {
        proof {
            assert(path.take(start as int).drop_last() == path.take(start - 1));
        }
        start = start - 1;
    }
    let ghost part = path.skip(start as int);
    assert(last_slash(path) + 1 == start);
    assert(part == last_component(chars@));
    let mut d: usize = end;
    assert(part.take(end - start) == part);
    while d > start && chars[d - 1] != '.'
        invariant
            start <= d <= end <= chars.len(),
            path == chars@.take(end as int),
            part == path.skip(start as int),
            last_dot(part) == last_dot(part.take(d - start)),
        decreases d,
    {
        proof {
            assert(part.take(d - start).drop_last() == part.take(d - start - 1));
            assert(part.take(d - start).last() == chars@[d - 1]);
        }
        d = d - 1;
    }
    // `d` is one past the last dot of the part, or `start` where it has none.
    proof {
        if d > start {
            assert(part.take(d - start).last() == chars@[d - 1]);
        }
    }
    if d - start <= 1 {
        return None;
    }
    let ext = file_name.substring_char(d, end);
    proof {
        assert(part.skip(d - start) == chars@.subrange(d as int, end as int));
    }
    let lower = to_lowercase(ext);
    file_type_of_extension(lower.as_str())
}

/// The description of a failure to read the content of a file.
pub open spec fn read_failure(file_id: i32) -> Seq<char> {
    "Failed to read content from '"@ + signed_decimal(file_id as int) + "'"@
}

/// The description of a failure to delete the content of a file.
pub open spec fn delete_failure(file_id: i32) -> Seq<char> {
    "Failed to delete content for file '"@ + signed_decimal(file_id as int) + "'"@
}

/// Writes the content of the file `file_id`, in place of what was there.
pub fn save_file_content(blobs: &mut BlobStore, file_id: i32, content: &[u8])
    ensures
        final(blobs)@ == blob_written(old(blobs)@, file_id, content@),
{
    let bytes = copy_bytes(content);
    blobs.blobs.insert(file_id, bytes);
    assert(blobs@ =~= blob_written(old(blobs)@, file_id, content@));
}

/// Reads the content of the file `file_id`; an error where none is stored.
pub fn read_file_content(blobs: &BlobStore, file_id: i32) -> (r: Result<Vec<u8>, InternalError>)
    ensures
        match blob_read(blobs@, file_id) {
            Some(bytes) => r is Ok && r->Ok_0@ == bytes,
            None => r is Err && r->Err_0.0@ == read_failure(file_id),
        },
{
    match blobs.blobs.get(&file_id) {
        Some(bytes) => Ok(copy_bytes(bytes.as_slice())),
        None => Err(InternalError::about("Failed to read content from '", file_id, "'")),
    }
}

/// Deletes the content of the file `file_id`; an error where none is stored.
pub fn delete_file_content(blobs: &mut BlobStore, file_id: i32) -> (r: Result<(), InternalError>)
    ensures
        final(blobs)@ == blob_deleted(old(blobs)@, file_id),
        r is Ok <==> old(blobs)@.contains_key(file_id),
        r is Err ==> r->Err_0.0@ == delete_failure(file_id),
{
    let found = blobs.blobs.remove(&file_id);
    assert(blobs@ =~= blob_deleted(old(blobs)@, file_id));
    match found {
        Some(_) => Ok(()),
        None => Err(InternalError::about("Failed to delete content for file '", file_id, "'")),
    }
}

/// The blobs without those of the first `count` of `ids`.
pub open spec fn blobs_cleared(blobs: Map<i32, Seq<u8>>, ids: Seq<i32>, count: int) -> Map<
    i32,
    Seq<u8>,
> {
    blobs.remove_keys(ids.take(count).to_set())
}

/// Whether no blob is left to delete at the position `at` of `ids`: none
/// was stored, or the same id stands at an earlier position.
pub open spec fn nothing_at(blobs: Map<i32, Seq<u8>>, ids: Seq<i32>, at: int) -> bool {
    !blobs.contains_key(ids[at]) || ids.take(at).contains(ids[at])
}

/// Whether `at` is the first position of `ids` at which no blob is left to
/// delete.
pub open spec fn first_missing(blobs: Map<i32, Seq<u8>>, ids: Seq<i32>, at: int) -> bool {
    &&& 0 <= at < ids.len()
    &&& nothing_at(blobs, ids, at)
    &&& forall|j: int| 0 <= j < at ==> !#[trigger] nothing_at(blobs, ids, j)
}

/// What deleting the contents of `ids`, one after the other, leaves and
/// returns: all are deleted and the result is `Ok`, or the first that is
/// missing stops the run with an error that names it.
pub open spec fn contents_deleted(
    before: Map<i32, Seq<u8>>,
    ids: Seq<i32>,
    after: Map<i32, Seq<u8>>,
    r: Result<(), InternalError>,
) -> bool {
    match r {
        Ok(_) => (forall|j: int| 0 <= j < ids.len() ==> !#[trigger] nothing_at(before, ids, j))
            && after == blobs_cleared(before, ids, ids.len() as int),
        Err(e) => exists|at: int| #[trigger]
            first_missing(before, ids, at) && after == blobs_cleared(before, ids, at) && e.0@
                == delete_failure(ids[at]),
    }
}

/// What deleting the contents of `ids`, one after the other, leaves: all
/// are deleted where the run went well, and those before the first that is
/// missing where it did not.
pub open spec fn contents_cleared(
    before: Map<i32, Seq<u8>>,
    ids: Seq<i32>,
    after: Map<i32, Seq<u8>>,
    went_well: bool,
) -> bool {
    if went_well {
        (forall|j: int| 0 <= j < ids.len() ==> !#[trigger] nothing_at(before, ids, j)) && after
            == blobs_cleared(before, ids, ids.len() as int)
    } else {
        exists|at: int| #[trigger]
            first_missing(before, ids, at) && after == blobs_cleared(before, ids, at)
    }
}

/// Whatever the error says, the contents are cleared as far as the run went.
pub proof fn lemma_contents_cleared(
    before: Map<i32, Seq<u8>>,
    ids: Seq<i32>,
    after: Map<i32, Seq<u8>>,
    r: Result<(), InternalError>,
)
    requires
        contents_deleted(before, ids, after, r),
    ensures
        contents_cleared(before, ids, after, r is Ok),
{
    if r is Err {
        let at = choose|at: int| #[trigger]
            first_missing(before, ids, at) && after == blobs_cleared(before, ids, at)
                && r->Err_0.0@ == delete_failure(ids[at]);
        assert(first_missing(before, ids, at) && after == blobs_cleared(before, ids, at));
    }
}

/// Deletes the contents of the files `ids` in order, and stops at the first
/// that is missing.
pub fn delete_contents(blobs: &mut BlobStore, ids: &Vec<i32>) -> (r: Result<(), InternalError>)
    ensures
        contents_deleted(old(blobs)@, ids@, final(blobs)@, r),
{
    let mut k: usize = 0;
    assert(blobs@ =~= blobs_cleared(old(blobs)@, ids@, 0));
    while k < ids.len()
        invariant
            0 <= k <= ids.len(),
            forall|j: int| 0 <= j < k ==> !#[trigger] nothing_at(old(blobs)@, ids@, j),
            blobs@ == blobs_cleared(old(blobs)@, ids@, k as int),
        decreases ids.len() - k,
    {
        let ghost before = blobs@;
        let r = delete_file_content(blobs, ids[k]);
        proof {
            assert(before.contains_key(ids@[k as int]) <==> !nothing_at(
                old(blobs)@,
                ids@,
                k as int,
            ));
        }
        match r {
            Ok(_) => {
                proof {
                    assert(ids@.take(k + 1) == ids@.take(k as int).push(ids@[k as int]));
                    ids@.take(k as int).lemma_push_to_set_commute(ids@[k as int]);
                    assert(blobs@ =~= blobs_cleared(old(blobs)@, ids@, k + 1));
                }
            },
            Err(e) => {
                proof {
                    assert(blobs@ =~= before);
                    assert(first_missing(old(blobs)@, ids@, k as int));
                }
                return Err(e);
            },
        }
        k = k + 1;
    }
    Ok(())
}

/// The position of the file `file_id` of `owner_id`, if there is one.
pub fn find_file(store: &TreeStore, file_id: i32, owner_id: i32) -> (at: Option<usize>)
    requires
        store@.wf(),
    ensures
        at is Some <==> store@.file_of(file_id, owner_id) is Some,
        at is Some ==> at->0 < store@.files.len() && store@.files[at->0 as int]
            == store@.file_of(file_id, owner_id)->0 && store@.files[at->0 as int].id == file_id
            && store@.files[at->0 as int].fk_owner == owner_id,
{
    let mut j: usize = 0;
    while j < store.files.len()
        invariant
            0 <= j <= store.files.len(),
            store@.wf(),
            forall|k: int|
                0 <= k < j ==> !((#[trigger] store@.files[k]).id == file_id
                    && store@.files[k].fk_owner == owner_id),
        decreases store.files.len() - j,
    {
        if store.files[j].id == file_id && store.files[j].fk_owner == owner_id {
            proof {
                assert(store@.files[j as int].id == file_id);
                let c = choose|c: int|
                    0 <= c < store@.files.len() && (#[trigger] store@.files[c]).id == file_id
                        && store@.files[c].fk_owner == owner_id;
                assert(store@.files[c].id == store@.files[j as int].id);
                assert(c == j);
            }
            return Some(j);
        }
        j = j + 1;
    }
    None
}

/// The row of the file `file_id` of `owner_id`; an error where the owner
/// has no such file.
pub fn get_file_by_id(store: &TreeStore, file_id: i32, owner_id: i32) -> (r: Result<
    File,
    InternalError,
>)
    requires
        store@.wf(),
    ensures
        match store@.file_of(file_id, owner_id) {
            Some(row) => r is Ok && r->Ok_0@ == row,
            None => r is Err && r->Err_0.0@ == "Failed to get the file"@,
        },
{
    match find_file(store, file_id, owner_id) {
        Some(j) => Ok(store.files[j].duplicate()),
        None => Err(InternalError::new("Failed to get the file")),
    }
}

/// The files of `owner_id` that lie directly in `parent_folder_id`.
pub fn get_files(store: &TreeStore, parent_folder_id: i32, owner_id: i32) -> (files: Vec<File>)
    ensures
        file_rows(files@) == store@.files.filter(
            |f: FileView| f.fk_owner == owner_id && f.fk_parent == parent_folder_id,
        ),
{
    let ghost p = |f: FileView| f.fk_owner == owner_id && f.fk_parent == parent_folder_id;
    let mut files: Vec<File> = Vec::new();
    let mut i: usize = 0;
    assert(store@.files.take(0).filter(p) == Seq::<FileView>::empty());
    while i < store.files.len()
        invariant
            0 <= i <= store.files.len(),
            p == |f: FileView| f.fk_owner == owner_id && f.fk_parent == parent_folder_id,
            file_rows(files@) == store@.files.take(i as int).filter(p),
        decreases store.files.len() - i,
    {
        let f = &store.files[i];
        proof {
            lemma_filter_step(store@.files, i as int, p);
        }
        if f.fk_owner == owner_id && f.fk_parent == parent_folder_id {
            let copy = f.duplicate();
            assert(file_rows(files@.push(copy)) == file_rows(files@).push(copy@));
            files.push(copy);
        }
        i = i + 1;
    }
    assert(store@.files.take(store.files.len() as int) == store@.files);
    files
}

/// The name and the content of the file `file_id` of `owner_id`; an error
/// where the owner has no such file or its content is missing.
pub fn get_file(store: &TreeStore, blobs: &BlobStore, file_id: i32, owner_id: i32) -> (r: Result<
    (String, Vec<u8>),
    InternalError,
>)
    requires
        store@.wf(),
    ensures
        match store@.file_of(file_id, owner_id) {
            Some(row) => match blob_read(blobs@, file_id) {
                Some(bytes) => r is Ok && r->Ok_0.0@ == row.name && r->Ok_0.1@ == bytes,
                None => r is Err && r->Err_0.0@ == read_failure(file_id),
            },
            None => r is Err && r->Err_0.0@ == "Failed to get the file"@,
        },
{
    let name = match find_file(store, file_id, owner_id) {
        Some(j) => store.files[j].name.clone(),
        None => {
            return Err(InternalError::new("Failed to get the file"));
        },
    };
    match read_file_content(blobs, file_id) {
        Ok(content) => Ok((name, content)),
        Err(e) => Err(e),
    }
}

/// The row that a new file gets.
pub open spec fn new_file_row(
    t: TreeView,
    name: Seq<char>,
    size: int,
    parent: i32,
    owner: i32,
    now: i64,
) -> FileView {
    FileView {
        id: t.next_file_id as i32,
        name,
        file_type: file_tag(name),
        size: size as i32,
        last_modified: now,
        starred: false,
        fk_owner: owner,
        fk_parent: parent,
    }
}

/// Whether a file with this name, size, parent and owner can be written:
/// the name is valid, the parent is a folder of the owner, the size fits a
/// row, and an id is left.
pub open spec fn file_accepted(t: TreeView, name: Seq<char>, size: int, parent: i32, owner: i32) -> bool {
    &&& valid_name(name)
    &&& owned_folder(t.folders, parent, owner)
    &&& size <= i32::MAX
    &&& t.next_file_id < i32::MAX
}

/// Creates a file in the folder `parent_folder_id` of the owner: first the
/// row, then the content under the row's id. An invalid name gives
/// `NameError`; a parent that is no folder of the owner, a content too long
/// for a row, or a store that has run out of ids, gives `InternalError`. On
/// an error nothing changes.
pub fn new_file(
    store: &mut TreeStore,
    blobs: &mut BlobStore,
    file_name: &str,
    content: &[u8],
    parent_folder_id: i32,
    owner_id: i32,
    now: i64,
) -> (r: Result<File, FileError>)
    requires
        old(store)@.wf(),
    ensures
        final(store)@.wf(),
        r is Ok <==> file_accepted(
            old(store)@,
            file_name@,
            content@.len() as int,
            parent_folder_id,
            owner_id,
        ),
        r is Ok ==> r->Ok_0@ == new_file_row(
            old(store)@,
            file_name@,
            content@.len() as int,
            parent_folder_id,
            owner_id,
            now,
        ) && final(store)@ == old(store)@.with_file(r->Ok_0@) && final(blobs)@ == blob_written(
            old(blobs)@,
            r->Ok_0@.id,
            content@,
        ),
        r is Err ==> final(store)@ == old(store)@ && final(blobs)@ == old(blobs)@ && r->Err_0 == (
        if valid_name(file_name@) {
            FileError::InternalError
        } else {
            FileError::NameError
        }),
{
    if !validate_name(file_name) {
        return Err(FileError::NameError);
    }
    if !store.owns_folder(parent_folder_id, owner_id) || content.len() > 0x7fff_ffff
        || store.next_file_id >= i32::MAX {
        return Err(FileError::InternalError);
    }
    let id = store.next_file_id;
    let file = File {
        id,
        name: file_name.to_owned(),
        file_type: get_file_type(file_name),
        size: content.len() as i32,
        last_modified: now,
        starred: false,
        fk_owner: owner_id,
        fk_parent: parent_folder_id,
    };
    let copy = file.duplicate();
    proof {
        lemma_with_file_wf(store@, file@);
        assert(file_rows(store.files@.push(file)) == file_rows(store.files@).push(file@));
    }
    store.files.push(file);
    store.next_file_id = id + 1;
    assert(store@ == old(store)@.with_file(copy@));
    save_file_content(blobs, id, content);
    Ok(copy)
}

/// Gives the file `file_id` of `owner_id` a new name. An invalid name gives
/// `NameError` and changes nothing; where the owner has no such file,
/// nothing changes either.
pub fn rename_file(store: &mut TreeStore, file_id: i32, owner_id: i32, new_name: &str) -> (r:
    Result<(), FileError>)
    requires
        old(store)@.wf(),
    ensures
        final(store)@.wf(),
        r is Ok <==> valid_name(new_name@),
        r is Ok ==> final(store)@ == old(store)@.renamed_file(file_id, owner_id, new_name@),
        r is Err ==> r->Err_0 == FileError::NameError && final(store)@ == old(store)@,
{
    if !validate_name(new_name) {
        return Err(FileError::NameError);
    }
    let ghost goal = old(store)@.renamed_file(file_id, owner_id, new_name@);
    match find_file(store, file_id, owner_id) {
        Some(j) => {
            let row = File {
                id: store.files[j].id,
                name: new_name.to_owned(),
                file_type: match &store.files[j].file_type {
                    Some(t) => Some(t.clone()),
                    None => None,
                },
                size: store.files[j].size,
                last_modified: store.files[j].last_modified,
                starred: store.files[j].starred,
                fk_owner: store.files[j].fk_owner,
                fk_parent: store.files[j].fk_parent,
            };
            let ghost shown = row@;
            store.files.set(j, row);
            proof {
                assert(store@.files[j as int] == shown);
                assert forall|k: int| 0 <= k < goal.files.len() implies store@.files[k]
                    == goal.files[k] by {
                    if k != j {
                        assert(store@.files[k] == old(store)@.files[k]);
                        assert(old(store)@.files[k].id != old(store)@.files[j as int].id);
                    }
                }
                assert(store@.files =~= goal.files);
            }
        },
        None => {
            proof {
                assert forall|k: int| 0 <= k < goal.files.len() implies store@.files[k]
                    == goal.files[k] by {
                    assert(!(old(store)@.files[k].id == file_id && old(store)@.files[k].fk_owner
                        == owner_id));
                }
                assert(store@.files =~= goal.files);
            }
        },
    }
    proof {
        assert forall|k: int| 0 <= k < goal.files.len() implies (#[trigger] goal.files[k]).id
            == old(store)@.files[k].id && goal.files[k].size == old(store)@.files[k].size
            && owned_folder(old(store)@.folders, goal.files[k].fk_parent, goal.files[k].fk_owner) by {
            assert(owned_folder(
                old(store)@.folders,
                old(store)@.files[k].fk_parent,
                old(store)@.files[k].fk_owner,
            ));
        }
        lemma_same_files_wf(old(store)@, goal.files);
    }
    Ok(())
}

/// Moves the file `file_id` of `owner_id` into the folder `to_folder_id`.
/// The move is made where the file and the folder are the owner's;
/// otherwise nothing changes.
pub fn move_file(store: &mut TreeStore, file_id: i32, to_folder_id: i32, owner_id: i32) -> (r:
    MoveOutcome)
    requires
        old(store)@.wf(),
    ensures
        final(store)@.wf(),
        final(store)@ == old(store)@.moved_file(file_id, owner_id, to_folder_id),
        r == MoveOutcome::Moved <==> old(store)@.file_move_allowed(
            file_id,
            owner_id,
            to_folder_id,
        ),
{
    if !store.owns_folder(to_folder_id, owner_id) {
        return MoveOutcome::Unchanged;
    }
    let ghost goal = old(store)@.moved_file(file_id, owner_id, to_folder_id);
    match find_file(store, file_id, owner_id) {
        Some(j) => {
            let row = File {
                id: store.files[j].id,
                name: store.files[j].name.clone(),
                file_type: match &store.files[j].file_type {
                    Some(t) => Some(t.clone()),
                    None => None,
                },
                size: store.files[j].size,
                last_modified: store.files[j].last_modified,
                starred: store.files[j].starred,
                fk_owner: store.files[j].fk_owner,
                fk_parent: to_folder_id,
            };
            let ghost shown = row@;
            store.files.set(j, row);
            proof {
                assert(old(store)@.file_move_allowed(file_id, owner_id, to_folder_id));
                assert(store@.files[j as int] == shown);
                assert forall|k: int| 0 <= k < goal.files.len() implies store@.files[k]
                    == goal.files[k] by {
                    if k != j {
                        assert(store@.files[k] == old(store)@.files[k]);
                        assert(old(store)@.files[k].id != old(store)@.files[j as int].id);
                    }
                }
                assert(store@.files =~= goal.files);
                assert forall|k: int| 0 <= k < goal.files.len() implies (
                #[trigger] goal.files[k]).id == old(store)@.files[k].id && goal.files[k].size
                    == old(store)@.files[k].size && owned_folder(
                    old(store)@.folders,
                    goal.files[k].fk_parent,
                    goal.files[k].fk_owner,
                ) by {
                    assert(owned_folder(
                        old(store)@.folders,
                        old(store)@.files[k].fk_parent,
                        old(store)@.files[k].fk_owner,
                    ));
                }
                lemma_same_files_wf(old(store)@, goal.files);
            }
            MoveOutcome::Moved
        },
        None => MoveOutcome::Unchanged,
    }
}

/// Deletes the file `file_id` of `owner_id`: first the row, then the
/// content. Where the owner has no such file, an error is returned and
/// nothing changes. Where the content is missing, the row is gone all the
/// same and an error is returned.
pub fn delete_file(store: &mut TreeStore, blobs: &mut BlobStore, file_id: i32, owner_id: i32) -> (r:
    Result<(), InternalError>)
    requires
        old(store)@.wf(),
    ensures
        final(store)@.wf(),
        match old(store)@.file_of(file_id, owner_id) {
            Some(_) => {
                &&& final(store)@ == old(store)@.without_file(file_id, owner_id)
                &&& final(blobs)@ == blob_deleted(old(blobs)@, file_id)
                &&& r is Ok <==> old(blobs)@.contains_key(file_id)
                &&& r is Err ==> r->Err_0.0@ == delete_failure(file_id)
            },
            None => {
                &&& final(store)@ == old(store)@
                &&& final(blobs)@ == old(blobs)@
                &&& r is Err
                &&& r->Err_0.0@ == "Failed to delete the file"@
            },
        },
{
    let j = match find_file(store, file_id, owner_id) {
        Some(j) => j,
        None => {
            return Err(InternalError::new("Failed to delete the file"));
        },
    };
    let ghost gone = |f: FileView| f.id == file_id && f.fk_owner == owner_id;
    let ghost kept = |f: FileView| !(f.id == file_id && f.fk_owner == owner_id);
    let mut marks: Vec<bool> = Vec::new();
    let mut k: usize = 0;
    while k < store.files.len()
        invariant
            0 <= k <= store.files.len(),
            marks.len() == k,
            gone == |f: FileView| f.id == file_id && f.fk_owner == owner_id,
            kept == |f: FileView| !(f.id == file_id && f.fk_owner == owner_id),
            forall|i: int|
                0 <= i < k ==> marks[i] == gone(#[trigger] store.files@[i]@) && marks[i] != kept(
                    store.files@[i]@,
                ),
        decreases store.files.len() - k,
    {
        marks.push(store.files[k].id == file_id && store.files[k].fk_owner == owner_id);
        k = k + 1;
    }
    proof {
        lemma_fewer_files_wf(old(store)@, kept);
    }
    let _ = remove_marked_files(&mut store.files, &marks, Ghost(gone), Ghost(kept));
    delete_file_content(blobs, file_id)
}

/// The row that a copy of `source` gets.
pub open spec fn copy_row(t: TreeView, source: FileView, now: i64) -> FileView {
    FileView { id: t.next_file_id as i32, last_modified: now, ..source }
}

/// Copies the file `file_id` of `owner_id`. The row and the content of the
/// source are read first; then a new row is written beside the old one,
/// with the same name, tag, size, star, owner and folder, and the same
/// content under the new id. Where the owner has no such file, where the
/// content of the source is missing, or where the store has run out of ids,
/// an error is returned and nothing changes.
pub fn duplicate_file(
    store: &mut TreeStore,
    blobs: &mut BlobStore,
    file_id: i32,
    owner_id: i32,
    now: i64,
) -> (r: Result<File, InternalError>)
    requires
        old(store)@.wf(),
    ensures
        final(store)@.wf(),
        match (old(store)@.file_of(file_id, owner_id), blob_read(old(blobs)@, file_id)) {
            (Some(source), Some(bytes)) if old(store)@.next_file_id < i32::MAX => {
                let row = copy_row(old(store)@, source, now);
                &&& r is Ok
                &&& r->Ok_0@ == row
                &&& final(store)@ == old(store)@.with_file(row)
                &&& final(blobs)@ == blob_written(old(blobs)@, row.id, bytes)
            },
            (Some(_), None) => {
                &&& final(store)@ == old(store)@
                &&& final(blobs)@ == old(blobs)@
                &&& r is Err
                &&& r->Err_0.0@ == read_failure(file_id)
            },
            _ => {
                &&& final(store)@ == old(store)@
                &&& final(blobs)@ == old(blobs)@
                &&& r is Err
                &&& r->Err_0.0@ == "Failed to duplicate the file"@
            },
        },
{
    let j = match find_file(store, file_id, owner_id) {
        Some(j) => j,
        None => {
            return Err(InternalError::new("Failed to duplicate the file"));
        },
    };
    let content = read_file_content(blobs, file_id)?;
    if store.next_file_id >= i32::MAX {
        return Err(InternalError::new("Failed to duplicate the file"));
    }
    let id = store.next_file_id;
    let mut file = store.files[j].duplicate();
    file.id = id;
    file.last_modified = now;
    let copy = file.duplicate();
    proof {
        assert(owned_folder(
            store@.folders,
            store@.files[j as int].fk_parent,
            store@.files[j as int].fk_owner,
        ));
        assert(store@.files[j as int].size >= 0);
        lemma_with_file_wf(store@, file@);
        assert(file_rows(store.files@.push(file)) == file_rows(store.files@).push(file@));
    }
    store.files.push(file);
    store.next_file_id = id + 1;
    assert(store@ == old(store)@.with_file(copy@));
    save_file_content(blobs, id, content.as_slice());
    Ok(copy)
}

/// Deletes all files of `owner_id`: first the rows, then the contents, one
/// after the other, until one is missing.
pub fn delete_user_files(store: &mut TreeStore, blobs: &mut BlobStore, owner_id: i32) -> (r: Result<
    (),
    InternalError,
>)
    requires
        old(store)@.wf(),
    ensures
        final(store)@.wf(),
        final(store)@ == old(store)@.without_files_of(owner_id),
        contents_deleted(
            old(blobs)@,
            file_ids(old(store)@.files.filter(|f: FileView| f.fk_owner == owner_id)),
            final(blobs)@,
            r,
        ),
{
    let ghost gone = |f: FileView| f.fk_owner == owner_id;
    let ghost kept = |f: FileView| f.fk_owner != owner_id;
    let mut marks: Vec<bool> = Vec::new();
    let mut k: usize = 0;
    while k < store.files.len()
        invariant
            0 <= k <= store.files.len(),
            marks.len() == k,
            gone == |f: FileView| f.fk_owner == owner_id,
            kept == |f: FileView| f.fk_owner != owner_id,
            forall|i: int|
                0 <= i < k ==> marks[i] == gone(#[trigger] store.files@[i]@) && marks[i] != kept(
                    store.files@[i]@,
                ),
        decreases store.files.len() - k,
    {
        marks.push(store.files[k].fk_owner == owner_id);
        k = k + 1;
    }
    proof {
        lemma_fewer_files_wf(old(store)@, kept);
    }
    let ids = remove_marked_files(&mut store.files, &marks, Ghost(gone), Ghost(kept));
    delete_contents(blobs, &ids)
}

} // verus!
