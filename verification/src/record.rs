//! The record kept for every scanned file.

use vstd::prelude::*;

verus! {

/// What a [`File`] stands for in specifications: the characters of its path
/// and of its digest.
pub struct FileView {
    pub path: Seq<char>,
    pub hash: Seq<char>,
}

/// One scanned file: where it was found and the digest of its content.
///
/// Two records with the same `hash` are taken to have the same content,
/// whatever their paths are.
#[derive(Debug)]
pub struct File<'a> {
    pub path: &'a str,
    pub hash: String,
}

/// The records that carry `hash`, in the order in which `records` lists them:
/// the group of that digest.
pub open spec fn with_hash(records: Seq<FileView>, hash: Seq<char>) -> Seq<FileView> {
    records.filter(|r: FileView| r.hash == hash)
}

impl<'a> View for File<'a> {
    type V = FileView;

    open spec fn view(&self) -> FileView {
        FileView { path: self.path@, hash: self.hash@ }
    }
}

impl<'a> DeepView for File<'a> {
    type V = FileView;

    open spec fn deep_view(&self) -> FileView {
        self@
    }
}

impl<'a> Clone for File<'a> {
    fn clone(&self) -> (copy: Self)
        ensures
            copy == *self,
    {
        File { path: self.path, hash: self.hash.clone() }
    }
}

impl<'a> File<'a> {
    /// A record for the file at `path` whose content has the digest `hash`.
    pub fn new(path: &'a str, hash: String) -> (file: Self)
        ensures
            file.path == path,
            file.hash == hash,
    {
        File { path, hash }
    }
}

} // verus!
