//! Finding the files whose content occurs more than once.

use crate::record::{with_hash, File, FileView};
use rayon::iter::{IntoParallelRefIterator, ParallelIterator};
use vstd::prelude::*;

verus! {

/// How many of the records carry `hash`.
pub open spec fn occurrences(records: Seq<FileView>, hash: Seq<char>) -> nat {
    with_hash(records, hash).len()
}

/// Whether more than one of the records carries `hash`.
pub open spec fn is_repeated(records: Seq<FileView>, hash: Seq<char>) -> bool {
    occurrences(records, hash) > 1
}

/// The duplicates among the records: those whose digest more than one record
/// carries, in the order in which `records` lists them.
pub open spec fn duplicates(records: Seq<FileView>) -> Seq<FileView> {
    records.filter(|r: FileView| is_repeated(records, r.hash))
}

/// Whether more than one record of `files` carries the digest of `file`. For
/// a `file` that is itself among `files`, this is whether another record
/// shares its digest.
pub fn has_duplicate<'a>(files: &[File<'a>], file: &File<'a>) -> (found: bool)
    ensures
        found == is_repeated(files.deep_view(), file@.hash),
{
    let ghost records = files.deep_view();
    let ghost same = |r: FileView| r.hash == file@.hash;
    let mut seen: usize = 0;
    let mut i: usize = 0;
    proof {
        reveal(Seq::filter);
    }
    while i < files.len()
        invariant
            i <= files@.len(),
            records == files.deep_view(),
            same == (|r: FileView| r.hash == file@.hash),
            seen == records.take(i as int).filter(same).len(),
            seen <= 1,
        decreases files@.len() - i,
    {
        proof {
            assert(records.take(i + 1) =~= records.take(i as int).push(records[i as int]));
            records.take(i as int).lemma_filter_len_push(same, records[i as int]);
        }
        if files[i].hash == file.hash {
            if seen == 1 {
                proof {
                    records.lemma_filter_take_len(same, i + 1);
                }
                return true;
            }
            seen = 1;
        }
        i += 1;
    }
    proof {
        assert(records.take(files@.len() as int) =~= records);
    }
    false
}

/// Asks for every record at once, on the thread pool of `rayon`, whether its
/// digest is repeated: `par_iter` over the records, `map` with
/// [`has_duplicate`], and `collect` into a vector. The contract claims of
/// these three that they hand out one answer for each record, in the order of
/// the records, each answer being what [`has_duplicate`] returns for that
/// record.
#[verifier::external_body]
fn duplicate_flags<'a>(files: &[File<'a>]) -> (flags: Vec<bool>)
    ensures
        flags@.len() == files@.len(),
        forall|i: int|
            0 <= i < files@.len() ==> #[trigger] flags@[i] == is_repeated(
                files.deep_view(),
                files@[i]@.hash,
            ),
{
    files.par_iter().map(|file| has_duplicate(files, file)).collect()
}

/// The files whose content occurs more than once among `hashed_files`: every
/// record whose digest another record shares, and no other, in the order of
/// `hashed_files`.
pub fn get_duplicates<'a>(hashed_files: &'a [File<'a>]) -> (found: Vec<File<'a>>)
    ensures
        found.deep_view() == duplicates(hashed_files.deep_view()),
{
    let ghost records = hashed_files.deep_view();
    let ghost repeated = |r: FileView| is_repeated(records, r.hash);
    let flags = duplicate_flags(hashed_files);
    let mut found: Vec<File<'a>> = Vec::new();
    let mut i: usize = 0;
    proof {
        reveal(Seq::filter);
    }
    while i < hashed_files.len()
        invariant
            i <= hashed_files@.len(),
            records == hashed_files.deep_view(),
            repeated == (|r: FileView| is_repeated(records, r.hash)),
            flags@.len() == hashed_files@.len(),
            forall|k: int|
                0 <= k < hashed_files@.len() ==> #[trigger] flags@[k] == is_repeated(
                    records,
                    hashed_files@[k]@.hash,
                ),
            found.deep_view() == records.take(i as int).filter(repeated),
        decreases hashed_files@.len() - i,
    {
        proof {
            assert(records.take(i + 1) =~= records.take(i as int).push(records[i as int]));
            records.take(i as int).lemma_filter_push(records[i as int], repeated);
        }
        if flags[i] {
            found.push(hashed_files[i].clone());
        }
        i += 1;
    }
    proof {
        assert(records.take(hashed_files@.len() as int) =~= records);
    }
    found
}

} // verus!
