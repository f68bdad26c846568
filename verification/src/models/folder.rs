//! A folder row.

use vstd::prelude::*;

verus! {

/// A folder of the tree store. A folder without a parent is a root.
#[derive(Debug)]
pub struct Folder {
    pub id: i32,
    pub name: String,
    /// Seconds since the epoch at which the row was written.
    pub last_modified: i64,
    pub starred: bool,
    pub fk_owner: i32,
    pub fk_parent: Option<i32>,
}

/// What a folder row holds, as plain values.
pub ghost struct FolderView {
    pub id: i32,
    pub name: Seq<char>,
    pub last_modified: i64,
    pub starred: bool,
    pub fk_owner: i32,
    pub fk_parent: Option<i32>,
}

impl View for Folder {
    type V = FolderView;

    open spec fn view(&self) -> FolderView {
        FolderView {
            id: self.id,
            name: self.name@,
            last_modified: self.last_modified,
            starred: self.starred,
            fk_owner: self.fk_owner,
            fk_parent: self.fk_parent,
        }
    }
}

impl Folder {
    /// The id of the row.
    pub fn get_id(&self) -> (id: i32)
        ensures
            id == self@.id,
    {
        self.id
    }

    /// The name.
    pub fn get_name(&self) -> (name: &String)
        ensures
            name@ == self@.name,
    {
        &self.name
    }

    /// The second at which the row was last written.
    pub fn get_last_modified(&self) -> (at: i64)
        ensures
            at == self@.last_modified,
    {
        self.last_modified
    }

    /// Whether the row is starred.
    pub fn get_starred(&self) -> (starred: bool)
        ensures
            starred == self@.starred,
    {
        self.starred
    }

    /// The id of the owner.
    pub fn get_fk_owner(&self) -> (owner: i32)
        ensures
            owner == self@.fk_owner,
    {
        self.fk_owner
    }

    /// The id of the folder in which the folder lies; none for a root.
    pub fn get_fk_parent(&self) -> (parent: &Option<i32>)
        ensures
            *parent == self@.fk_parent,
    {
        &self.fk_parent
    }

    /// A copy of this row.
    pub fn duplicate(&self) -> (copy: Folder)
        ensures
            copy@ == self@,
    {
        Folder {
            id: self.id,
            name: self.name.clone(),
            last_modified: self.last_modified,
            starred: self.starred,
            fk_owner: self.fk_owner,
            fk_parent: self.fk_parent,
        }
    }
}

/// The rows of a vector of folders, as plain values.
pub open spec fn folder_rows(v: Seq<Folder>) -> Seq<FolderView> {
    Seq::new(v.len(), |i: int| v[i]@)
}

} // verus!
