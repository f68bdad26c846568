//! A file row.

use vstd::prelude::*;

verus! {

/// A file of the tree store. Files are leaves: each lies in one folder.
#[derive(Debug)]
pub struct File {
    pub id: i32,
    pub name: String,
    pub file_type: Option<String>,
    /// Length of the content in bytes.
    pub size: i32,
    /// Seconds since the epoch at which the row was written.
    pub last_modified: i64,
    pub starred: bool,
    pub fk_owner: i32,
    pub fk_parent: i32,
}

/// What a file row holds, as plain values.
pub ghost struct FileView {
    pub id: i32,
    pub name: Seq<char>,
    pub file_type: Option<Seq<char>>,
    pub size: i32,
    pub last_modified: i64,
    pub starred: bool,
    pub fk_owner: i32,
    pub fk_parent: i32,
}

/// The text of an optional tag.
pub open spec fn tag_text(tag: Option<String>) -> Option<Seq<char>> {
    match tag {
        Some(t) => Some(t@),
        None => None,
    }
}

impl View for File {
    type V = FileView;

    open spec fn view(&self) -> FileView {
        FileView {
            id: self.id,
            name: self.name@,
            file_type: tag_text(self.file_type),
            size: self.size,
            last_modified: self.last_modified,
            starred: self.starred,
            fk_owner: self.fk_owner,
            fk_parent: self.fk_parent,
        }
    }
}

impl File {
    /// The id of the row.
    pub fn get_id(&self) -> (id: i32)
        ensures
            id == self@.id,
    {
        self.id
    }

    /// The name.
    pub fn get_name(&self) -> (name: &String)
        ensures
            name@ == self@.name,
    {
        &self.name
    }

    /// The tag of the file, if it has one.
    pub fn get_file_type(&self) -> (tag: &Option<String>)
        ensures
            tag_text(*tag) == self@.file_type,
    {
        &self.file_type
    }

    /// The length of the content in bytes.
    pub fn get_size(&self) -> (size: i32)
        ensures
            size == self@.size,
    {
        self.size
    }

    /// The second at which the row was last written.
    pub fn get_last_modified(&self) -> (at: i64)
        ensures
            at == self@.last_modified,
    {
        self.last_modified
    }

    /// Whether the row is starred.
    pub fn get_starred(&self) -> (starred: bool)
        ensures
            starred == self@.starred,
    {
        self.starred
    }

    /// The id of the owner.
    pub fn get_fk_owner(&self) -> (owner: i32)
        ensures
            owner == self@.fk_owner,
    {
        self.fk_owner
    }

    /// The id of the folder in which the row lies.
    pub fn get_fk_parent(&self) -> (parent: i32)
        ensures
            parent == self@.fk_parent,
    {
        self.fk_parent
    }

    /// A copy of this row.
    pub fn duplicate(&self) -> (copy: File)
        ensures
            copy@ == self@,
    {
        let file_type = match &self.file_type {
            Some(t) => Some(t.clone()),
            None => None,
        };
        File {
            id: self.id,
            name: self.name.clone(),
            file_type,
            size: self.size,
            last_modified: self.last_modified,
            starred: self.starred,
            fk_owner: self.fk_owner,
            fk_parent: self.fk_parent,
        }
    }
}

/// The rows of a vector of files, as plain values.
pub open spec fn file_rows(v: Seq<File>) -> Seq<FileView> {
    Seq::new(v.len(), |i: int| v[i]@)
}

} // verus!
