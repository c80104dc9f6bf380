//! What a walk over a directory tree came upon, which of it is scanned, and
//! when a scan is given up.

use crate::record::{File, FileView};
use vstd::prelude::*;

verus! {

/// One step of a walk over a directory tree.
#[derive(Debug)]
pub enum Visit {
    /// Something that could not be read, `depth` levels below the root of the
    /// walk. The root itself is at depth 0.
    Failed { depth: usize },
    /// An entry of the tree: its path, and whether it is a regular file
    /// (no directory, no symbolic link, no device or socket).
    Found { path: String, regular: bool },
}

/// Why a scan is given up.
#[derive(Clone, Copy, Debug, PartialEq, Eq, Structural)]
pub enum ScanError {
    /// The root of the walk could not be read.
    RootUnreadable,
    /// The content of a file could not be read: the file at this place among
    /// the files to scan.
    FileUnreadable { index: usize },
}

/// Whether the walk failed at its root.
pub open spec fn root_failed(visits: Seq<Visit>) -> bool {
    exists|i: int| 0 <= i < visits.len() && #[trigger] visits[i] == (Visit::Failed { depth: 0 })
}

/// The paths of the regular files among `visits`, in the order of the walk.
/// What could not be read, and what is no regular file, is left out.
pub open spec fn regular_paths(visits: Seq<Visit>) -> Seq<Seq<char>>
    decreases visits.len(),
{
    if visits.len() == 0 {
        Seq::empty()
    } else {
        match visits.last() {
            Visit::Found { path, regular: true } => regular_paths(visits.drop_last()).push(path@),
            _ => regular_paths(visits.drop_last()),
        }
    }
}

/// The files to scan after a walk: the path of every regular file that the
/// walk found. Entries that could not be read are passed over, but for the
/// root: a walk that failed there found nothing to scan, and is an error.
pub fn regular_files(visits: &Vec<Visit>) -> (files: Result<Vec<String>, ScanError>)
    ensures
        root_failed(visits@) ==> files == Err::<Vec<String>, ScanError>(ScanError::RootUnreadable),
        !root_failed(visits@) ==> (files matches Ok(paths) && paths.deep_view() == regular_paths(
            visits@,
        )),
{
    let mut paths: Vec<String> = Vec::new();
    let mut i: usize = 0;
    while i < visits.len()
        invariant
            i <= visits@.len(),
            !root_failed(visits@.take(i as int)),
            paths.deep_view() == regular_paths(visits@.take(i as int)),
        decreases visits@.len() - i,
    {
        proof {
            assert(visits@.take(i + 1).drop_last() =~= visits@.take(i as int));
        }
        match &visits[i] {
            Visit::Failed { depth } => {
                if *depth == 0 {
                    return Err(ScanError::RootUnreadable);
                }
            },
            Visit::Found { path, regular } => {
                if *regular {
                    paths.push(path.clone());
                }
            },
        }
        proof {
            let next = visits@.take(i + 1);
            assert forall|k: int| 0 <= k < next.len() implies #[trigger] next[k] != (Visit::Failed {
                depth: 0,
            }) by {
                if k < i {
                    assert(visits@.take(i as int)[k] == next[k]);
                }
            }
        }
        i += 1;
    }
    proof {
        assert(visits@.take(visits@.len() as int) =~= visits@);
    }
    Ok(paths)
}

/// Whether the content of every file was read.
pub open spec fn all_read(reads: Seq<Option<FileView>>) -> bool {
    forall|i: int| 0 <= i < reads.len() ==> (#[trigger] reads[i]) is Some
}

/// Whether `index` is the place of the first file whose content was not read.
pub open spec fn first_unread(reads: Seq<Option<FileView>>, index: int) -> bool {
    &&& 0 <= index < reads.len()
    &&& reads[index] is None
    &&& forall|i: int| 0 <= i < index ==> (#[trigger] reads[i]) is Some
}

/// The records of a scan, from what reading each file gave: a record where
/// the content was read, nothing where it was not. A file that cannot be read
/// ends the scan: the records are handed out only if every file was read,
/// and else the error names the first file that was not.
pub fn hashed_files<'a>(reads: &Vec<Option<File<'a>>>) -> (files: Result<Vec<File<'a>>, ScanError>)
    ensures
        all_read(reads.deep_view()) ==> (files matches Ok(records) && records.deep_view()
            == reads.deep_view().map_values(|read: Option<FileView>| read->0)),
        !all_read(reads.deep_view()) ==> (files matches Err(ScanError::FileUnreadable { index })
            && first_unread(reads.deep_view(), index as int)),
{
    let ghost given = reads.deep_view();
    let mut records: Vec<File<'a>> = Vec::new();
    let mut i: usize = 0;
    while i < reads.len()
        invariant
            i <= reads@.len(),
            given == reads.deep_view(),
            forall|k: int| 0 <= k < i ==> (#[trigger] given[k]) is Some,
            records.deep_view() == given.take(i as int).map_values(
                |read: Option<FileView>| read->0,
            ),
        decreases reads@.len() - i,
    {
        let ghost listed = records.deep_view();
        match &reads[i] {
            Some(file) => {
                records.push(file.clone());
                proof {
                    assert(records.deep_view() =~= listed.push(file@));
                    assert(records.deep_view() =~= given.take(i + 1).map_values(
                        |read: Option<FileView>| read->0,
                    ));
                }
            },
            None => {
                proof {
                    assert(given[i as int] is None);
                }
                return Err(ScanError::FileUnreadable { index: i });
            },
        }
        i += 1;
    }
    Ok(records)
}

} // verus!
