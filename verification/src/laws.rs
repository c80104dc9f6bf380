//! What holds of every scan: of the files that a walk gives, and of the
//! duplicates of every set of files.

use crate::digest::{content_hash, lemma_hex_string_injective, md5_digest};
use crate::filters::{
    lemma_count_by_filter, lemma_filter_all, lemma_filter_len_split, lemma_filter_multiset,
    lemma_filter_none, lemma_filter_only, lemma_filter_same, lemma_filter_two,
    lemma_filter_twice,
};
use crate::group::{duplicates, is_repeated, occurrences};
use crate::record::{with_hash, FileView};
use crate::report::{report_for, report_text, ReportView};
use crate::scan::{regular_paths, Visit};
use vstd::prelude::*;

verus! {

/// Whether a step of a walk found a regular file.
pub open spec fn found_file(visit: Visit) -> bool {
    visit matches Visit::Found { regular: true, .. }
}

/// Whether a step of a walk found a regular file at `path`.
pub open spec fn found_file_at(visit: Visit, path: Seq<char>) -> bool {
    visit matches Visit::Found { path: found, regular: true } && found@ == path
}

/// The test of a step for having found a regular file at `path`.
pub open spec fn finds(path: Seq<char>) -> spec_fn(Visit) -> bool {
    |v: Visit| found_file_at(v, path)
}

/// The test of a path for being `path`.
pub open spec fn is_path(path: Seq<char>) -> spec_fn(Seq<char>) -> bool {
    |p: Seq<char>| p == path
}

/// How often a walk found a regular file at `path`.
pub open spec fn times_found(visits: Seq<Visit>, path: Seq<char>) -> nat {
    visits.filter(finds(path)).len()
}

/// How often `path` is among `paths`.
pub open spec fn times_listed(paths: Seq<Seq<char>>, path: Seq<char>) -> nat {
    paths.filter(is_path(path)).len()
}

/// The files to scan are as many as the regular files that the walk found.
pub proof fn lemma_regular_paths_len(visits: Seq<Visit>)
    ensures
        regular_paths(visits).len() == visits.filter(|v: Visit| found_file(v)).len(),
    decreases visits.len(),
{
    reveal(Seq::filter);
    if visits.len() > 0 {
        lemma_regular_paths_len(visits.drop_last());
    }
}

/// A path is among the files to scan as often as the walk found a regular
/// file there: once, where the walk came there once, and not at all, where
/// it found no regular file there.
pub proof fn lemma_regular_paths_count(visits: Seq<Visit>, path: Seq<char>)
    ensures
        times_listed(regular_paths(visits), path) == times_found(visits, path),
    decreases visits.len(),
{
    reveal(Seq::filter);
    if visits.len() > 0 {
        let front = visits.drop_last();
        lemma_regular_paths_count(front, path);
        if found_file(visits.last()) {
            regular_paths(front).lemma_filter_len_push(is_path(path), visits.last()->path@);
        }
    }
}

/// Which files are to be scanned, and how often each, does not depend on the
/// order in which the walk came upon them.
pub proof fn lemma_regular_paths_ignore_order(a: Seq<Visit>, b: Seq<Visit>)
    requires
        a.to_multiset() == b.to_multiset(),
    ensures
        regular_paths(a).to_multiset() == regular_paths(b).to_multiset(),
        regular_paths(a).len() == regular_paths(b).len(),
{
    broadcast use vstd::seq_lib::group_to_multiset_ensures;

    assert forall|path: Seq<char>|
        regular_paths(a).to_multiset().count(path) == regular_paths(b).to_multiset().count(
            path,
        ) by {
        let there = finds(path);
        let same = is_path(path);
        lemma_count_by_filter(regular_paths(a), path, same);
        lemma_count_by_filter(regular_paths(b), path, same);
        lemma_regular_paths_count(a, path);
        lemma_regular_paths_count(b, path);
        lemma_filter_multiset(a, there);
        lemma_filter_multiset(b, there);
        assert(a.filter(there).len() == a.filter(there).to_multiset().len());
        assert(b.filter(there).len() == b.filter(there).to_multiset().len());
    }
    assert(regular_paths(a).to_multiset() =~= regular_paths(b).to_multiset());
    assert(regular_paths(a).len() == regular_paths(a).to_multiset().len());
    assert(regular_paths(b).len() == regular_paths(b).to_multiset().len());
}

/// Where the walk found no regular file twice at one path, no path is twice
/// among the files to scan.
pub proof fn lemma_regular_paths_are_distinct(visits: Seq<Visit>)
    requires
        forall|i: int, j: int|
            0 <= i < j < visits.len() && found_file(#[trigger] visits[i]) && found_file(
                #[trigger] visits[j],
            ) ==> visits[i]->path@ != visits[j]->path@,
    ensures
        regular_paths(visits).no_duplicates(),
{
    let paths = regular_paths(visits);
    assert forall|m: int, n: int| 0 <= m < n < paths.len() implies paths[m] != paths[n] by {
        if paths[m] == paths[n] {
            let path = paths[m];
            let there = finds(path);
            lemma_filter_two(paths, m, n, is_path(path));
            lemma_regular_paths_count(visits, path);
            // Then the walk found a regular file there twice.
            lemma_filter_keeps_order(visits, there);
        }
    }
}

/// Two places in a filtered sequence come from two places in the sequence.
proof fn lemma_filter_keeps_order(s: Seq<Visit>, pred: spec_fn(Visit) -> bool)
    requires
        s.filter(pred).len() >= 2,
    ensures
        exists|i: int, j: int| 0 <= i < j < s.len() && pred(#[trigger] s[i]) && pred(#[trigger] s[j]),
    decreases s.len(),
{
    reveal(Seq::filter);
    if s.len() > 0 {
        let front = s.drop_last();
        if front.filter(pred).len() >= 2 {
            lemma_filter_keeps_order(front, pred);
            let (i, j) = choose|i: int, j: int|
                0 <= i < j < front.len() && pred(#[trigger] front[i]) && pred(#[trigger] front[j]);
            assert(pred(s[i]) && pred(s[j]));
        } else {
            // The last passes, and so does one before it.
            let kept = front.filter(pred);
            front.lemma_filter_contains_rev(pred, kept[0]);
            front.lemma_filter_pred(pred, 0);
            let i = choose|i: int| 0 <= i < front.len() && front[i] == kept[0];
            assert(pred(s[i]) && pred(s[s.len() - 1]));
        }
    }
}

/// The digests that more than one of the records carries.
pub open spec fn repeated_hashes(records: Seq<FileView>) -> Set<Seq<char>> {
    Set::new(|hash: Seq<char>| is_repeated(records, hash))
}

/// The sum, over the digests in `hashes`, of the number of records that carry
/// the digest.
pub open spec fn total_occurrences(records: Seq<FileView>, hashes: Set<Seq<char>>) -> nat
    decreases hashes.len(),
    when hashes.finite()
{
    if hashes.len() == 0 {
        0
    } else {
        let hash = hashes.choose();
        occurrences(records, hash) + total_occurrences(records, hashes.remove(hash))
    }
}

/// Whether record `i` shares its digest with another of the records.
pub open spec fn has_partner(records: Seq<FileView>, i: int) -> bool {
    exists|j: int|
        0 <= j < records.len() && j != i && (#[trigger] records[j]).hash == records[i].hash
}

/// Among the duplicates a digest has all the records that carry it, where
/// more than one does, and none else.
pub proof fn lemma_groups_are_whole(records: Seq<FileView>, hash: Seq<char>)
    ensures
        with_hash(duplicates(records), hash) == if is_repeated(records, hash) {
            with_hash(records, hash)
        } else {
            Seq::<FileView>::empty()
        },
{
    let repeated = |r: FileView| is_repeated(records, r.hash);
    let carries = |r: FileView| r.hash == hash;
    if is_repeated(records, hash) {
        lemma_filter_twice(records, repeated, carries, carries);
    } else {
        let neither = |r: FileView| false;
        lemma_filter_twice(records, repeated, carries, neither);
        lemma_filter_none(records, neither);
    }
}

/// A record whose digest several records carry has another record with that
/// digest beside it.
proof fn lemma_repeated_has_partner(records: Seq<FileView>, i: int)
    requires
        0 <= i < records.len(),
        is_repeated(records, records[i].hash),
    ensures
        has_partner(records, i),
{
    let carries = |r: FileView| r.hash == records[i].hash;
    if forall|j: int| 0 <= j < records.len() && j != i ==> !carries(#[trigger] records[j]) {
        // Then record `i` alone would carry its digest.
        lemma_filter_only(records, i, carries);
        assert(false);
    }
}

/// Every record among the duplicates shares its digest with another record
/// among them, and no record is among them whose digest occurs only once in
/// the input.
pub proof fn lemma_duplicates_come_in_groups(records: Seq<FileView>)
    ensures
        forall|i: int|
            0 <= i < duplicates(records).len() ==> is_repeated(
                records,
                (#[trigger] duplicates(records)[i]).hash,
            ),
        forall|i: int|
            0 <= i < duplicates(records).len() ==> #[trigger] has_partner(duplicates(records), i),
{
    let found = duplicates(records);
    let repeated = |r: FileView| is_repeated(records, r.hash);
    assert forall|i: int| 0 <= i < found.len() implies is_repeated(
        records,
        (#[trigger] found[i]).hash,
    ) by {
        records.lemma_filter_pred(repeated, i);
    }
    assert forall|i: int| 0 <= i < found.len() implies #[trigger] has_partner(found, i) by {
        records.lemma_filter_pred(repeated, i);
        lemma_groups_are_whole(records, found[i].hash);
        lemma_repeated_has_partner(found, i);
    }
}

/// Looking for duplicates among the duplicates finds them all again.
pub proof fn lemma_duplicates_of_duplicates(records: Seq<FileView>)
    ensures
        duplicates(duplicates(records)) == duplicates(records),
{
    let found = duplicates(records);
    let again = |r: FileView| is_repeated(found, r.hash);
    assert forall|k: int| 0 <= k < found.len() implies again(found[k]) by {
        records.lemma_filter_pred(|r: FileView| is_repeated(records, r.hash), k);
        lemma_groups_are_whole(records, found[k].hash);
    }
    lemma_filter_all(found, again);
}

/// Summing up the records of each digest in a finite set of digests counts
/// the records whose digest is in the set.
proof fn lemma_total_occurrences(records: Seq<FileView>, hashes: Set<Seq<char>>)
    requires
        hashes.finite(),
    ensures
        total_occurrences(records, hashes) == records.filter(
            |r: FileView| hashes.contains(r.hash),
        ).len(),
    decreases hashes.len(),
{
    broadcast use vstd::set::group_set_axioms;

    let within = |r: FileView| hashes.contains(r.hash);
    if hashes.len() == 0 {
        lemma_filter_none(records, within);
    } else {
        let hash = hashes.choose();
        let rest = hashes.remove(hash);
        lemma_total_occurrences(records, rest);
        lemma_filter_len_split(
            records,
            within,
            |r: FileView| r.hash == hash,
            |r: FileView| rest.contains(r.hash),
        );
    }
}

/// The number of duplicates is the sum, over the digests that more than one
/// record carries, of the number of records that carry the digest: a group
/// is among the duplicates as a whole or not at all.
pub proof fn lemma_duplicates_count(records: Seq<FileView>)
    ensures
        repeated_hashes(records).finite(),
        duplicates(records).len() == total_occurrences(records, repeated_hashes(records)),
{
    let repeated = repeated_hashes(records);
    let carried = records.map_values(|r: FileView| r.hash).to_set();
    vstd::seq_lib::seq_to_set_is_finite(records.map_values(|r: FileView| r.hash));
    assert forall|hash: Seq<char>| repeated.contains(hash) implies carried.contains(hash) by {
        let group = with_hash(records, hash);
        let carries = |r: FileView| r.hash == hash;
        records.lemma_filter_pred(carries, 0);
        records.lemma_filter_contains_rev(carries, group[0]);
        let k = choose|k: int| 0 <= k < records.len() && records[k] == group[0];
        assert(records.map_values(|r: FileView| r.hash)[k] == hash);
    }
    vstd::set_lib::lemma_len_subset(repeated, carried);
    lemma_total_occurrences(records, repeated);
    lemma_filter_same(
        records,
        |r: FileView| is_repeated(records, r.hash),
        |r: FileView| repeated.contains(r.hash),
    );
}

/// How often a digest occurs does not depend on the order of the records.
proof fn lemma_occurrences_ignore_order(a: Seq<FileView>, b: Seq<FileView>, hash: Seq<char>)
    requires
        a.to_multiset() == b.to_multiset(),
    ensures
        occurrences(a, hash) == occurrences(b, hash),
        with_hash(a, hash).to_multiset() == with_hash(b, hash).to_multiset(),
{
    broadcast use vstd::seq_lib::group_to_multiset_ensures;

    let carries = |r: FileView| r.hash == hash;
    lemma_filter_multiset(a, carries);
    lemma_filter_multiset(b, carries);
    assert(with_hash(a, hash).len() == with_hash(a, hash).to_multiset().len());
    assert(with_hash(b, hash).len() == with_hash(b, hash).to_multiset().len());
}

/// Scanning the same files in another order finds the same duplicates, and
/// the same group for every digest; only the order in which they are listed
/// may differ.
pub proof fn lemma_duplicates_ignore_order(a: Seq<FileView>, b: Seq<FileView>)
    requires
        a.to_multiset() == b.to_multiset(),
    ensures
        duplicates(a).to_multiset() == duplicates(b).to_multiset(),
        forall|hash: Seq<char>| #[trigger]
            with_hash(duplicates(a), hash).to_multiset() == with_hash(
                duplicates(b),
                hash,
            ).to_multiset(),
{
    broadcast use vstd::multiset::group_multiset_axioms;

    let in_a = |r: FileView| is_repeated(a, r.hash);
    let in_b = |r: FileView| is_repeated(b, r.hash);
    lemma_filter_multiset(a, in_a);
    lemma_filter_multiset(b, in_b);
    assert forall|r: FileView| #[trigger] is_repeated(a, r.hash) == is_repeated(b, r.hash) by {
        lemma_occurrences_ignore_order(a, b, r.hash);
    }
    assert(a.to_multiset().filter(in_a) =~= b.to_multiset().filter(in_b));
    assert forall|hash: Seq<char>| #[trigger]
        with_hash(duplicates(a), hash).to_multiset() == with_hash(
            duplicates(b),
            hash,
        ).to_multiset() by {
        lemma_occurrences_ignore_order(duplicates(a), duplicates(b), hash);
    }
}

/// Two files with the same content are duplicates of each other, whatever
/// their paths are and wherever they stand among the records: both are found,
/// in the group of one digest.
pub proof fn lemma_same_content_same_group(
    records: Seq<FileView>,
    i: int,
    j: int,
    content: Seq<u8>,
)
    requires
        0 <= i < records.len(),
        0 <= j < records.len(),
        i != j,
        records[i].hash == content_hash(content),
        records[j].hash == content_hash(content),
    ensures
        with_hash(duplicates(records), content_hash(content)).contains(records[i]),
        with_hash(duplicates(records), content_hash(content)).contains(records[j]),
{
    let hash = content_hash(content);
    let carries = |r: FileView| r.hash == hash;
    lemma_twice_is_repeated(records, i, j, hash);
    lemma_groups_are_whole(records, hash);
    records.lemma_filter_contains(carries, i);
    records.lemma_filter_contains(carries, j);
}

/// A digest that two records carry is carried more than once.
proof fn lemma_twice_is_repeated(records: Seq<FileView>, i: int, j: int, hash: Seq<char>)
    requires
        0 <= i < records.len(),
        0 <= j < records.len(),
        i != j,
        records[i].hash == hash,
        records[j].hash == hash,
    ensures
        is_repeated(records, hash),
{
    let carries = |r: FileView| r.hash == hash;
    if i < j {
        lemma_filter_two(records, i, j, carries);
    } else {
        lemma_filter_two(records, j, i, carries);
    }
}

/// Two files whose contents have different MD5 digests are recorded under
/// different digests, so that they are never in one group.
pub proof fn lemma_different_content_apart(first: Seq<u8>, second: Seq<u8>)
    requires
        md5_digest(first) != md5_digest(second),
    ensures
        content_hash(first) != content_hash(second),
{
    if content_hash(first) == content_hash(second) {
        lemma_hex_string_injective(md5_digest(first), md5_digest(second));
    }
}

/// Where no two records have the same digest, and so where there are no
/// records at all, there are no duplicates, and the report is that none were
/// found.
pub proof fn lemma_nothing_repeated_nothing_found(records: Seq<FileView>)
    requires
        forall|i: int, j: int|
            0 <= i < j < records.len() ==> (#[trigger] records[i]).hash != (
            #[trigger] records[j]).hash,
    ensures
        duplicates(records) == Seq::<FileView>::empty(),
        report_for(duplicates(records)) == ReportView::NoDuplicates,
{
    let repeated = |r: FileView| is_repeated(records, r.hash);
    assert forall|k: int| 0 <= k < records.len() implies !repeated(records[k]) by {
        let carries = |r: FileView| r.hash == records[k].hash;
        lemma_filter_only(records, k, carries);
    }
    lemma_filter_none(records, repeated);
}

/// The notice that nothing was found cannot be taken for a report of
/// duplicates, whatever its table and its number are: the two begin with
/// different characters.
pub proof fn lemma_notice_is_distinct(table: Seq<char>, count: nat)
    ensures
        report_text(ReportView::NoDuplicates) != report_text(
            ReportView::Duplicates { table, count },
        ),
{
    reveal_strlit("No duplicates found\n\n");
    reveal_strlit("\n");
    let notice = report_text(ReportView::NoDuplicates);
    let listing = report_text(ReportView::Duplicates { table, count });
    assert(notice[0] == 'N');
    assert(listing[0] == '\n');
}

} // verus!
