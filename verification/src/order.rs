//! The order in which digests are listed, and a stable sort by it.

use crate::filters::{lemma_filter_none, lemma_filter_one};
use crate::record::{with_hash, File, FileView};
use vstd::prelude::*;
use vstd::utf8::*;

verus! {

/// Lexicographic "at most" on byte strings: the first differing byte decides,
/// and a proper prefix comes first.
pub open spec fn bytes_le(a: Seq<u8>, b: Seq<u8>) -> bool
    decreases a.len(),
{
    if a.len() == 0 {
        true
    } else if b.len() == 0 {
        false
    } else if a[0] != b[0] {
        a[0] < b[0]
    } else {
        bytes_le(a.drop_first(), b.drop_first())
    }
}

/// The order of digests: that of their UTF-8 encodings, byte by byte.
pub open spec fn hash_le(a: Seq<char>, b: Seq<char>) -> bool {
    bytes_le(encode_utf8(a), encode_utf8(b))
}

/// No record is listed before one with a smaller digest.
pub open spec fn sorted_by_hash(records: Seq<FileView>) -> bool {
    forall|i: int, j: int|
        0 <= i <= j < records.len() ==> hash_le(
            (#[trigger] records[i]).hash,
            (#[trigger] records[j]).hash,
        )
}

/// Both sequences hold, for every digest, the same records in the same order.
pub open spec fn same_groups(a: Seq<FileView>, b: Seq<FileView>) -> bool {
    forall|hash: Seq<char>| #[trigger] with_hash(a, hash) == with_hash(b, hash)
}

pub proof fn lemma_bytes_le_reflexive(a: Seq<u8>)
    ensures
        bytes_le(a, a),
    decreases a.len(),
{
    if a.len() > 0 {
        lemma_bytes_le_reflexive(a.drop_first());
    }
}

pub proof fn lemma_bytes_le_total(a: Seq<u8>, b: Seq<u8>)
    ensures
        bytes_le(a, b) || bytes_le(b, a),
    decreases a.len(),
{
    if a.len() > 0 && b.len() > 0 && a[0] == b[0] {
        lemma_bytes_le_total(a.drop_first(), b.drop_first());
    }
}

pub proof fn lemma_bytes_le_transitive(a: Seq<u8>, b: Seq<u8>, c: Seq<u8>)
    requires
        bytes_le(a, b),
        bytes_le(b, c),
    ensures
        bytes_le(a, c),
    decreases a.len(),
{
    if a.len() > 0 && b.len() > 0 && c.len() > 0 && a[0] == b[0] && b[0] == c[0] {
        lemma_bytes_le_transitive(a.drop_first(), b.drop_first(), c.drop_first());
    }
}

pub proof fn lemma_bytes_le_antisymmetric(a: Seq<u8>, b: Seq<u8>)
    requires
        bytes_le(a, b),
        bytes_le(b, a),
    ensures
        a == b,
    decreases a.len(),
{
    if a.len() > 0 && b.len() > 0 {
        lemma_bytes_le_antisymmetric(a.drop_first(), b.drop_first());
        assert(a =~= seq![a[0]] + a.drop_first());
        assert(b =~= seq![b[0]] + b.drop_first());
    }
}

/// The order of digests is a total order: any two digests compare, each is
/// at most itself, the order is transitive, and two digests that are at most
/// each other are the same digest.
pub proof fn lemma_hash_le_total_order(a: Seq<char>, b: Seq<char>, c: Seq<char>)
    ensures
        hash_le(a, a),
        hash_le(a, b) || hash_le(b, a),
        hash_le(a, b) && hash_le(b, c) ==> hash_le(a, c),
        hash_le(a, b) && hash_le(b, a) ==> a == b,
{
    lemma_bytes_le_reflexive(encode_utf8(a));
    lemma_bytes_le_total(encode_utf8(a), encode_utf8(b));
    if hash_le(a, b) && hash_le(b, c) {
        lemma_bytes_le_transitive(encode_utf8(a), encode_utf8(b), encode_utf8(c));
    }
    if hash_le(a, b) && hash_le(b, a) {
        lemma_bytes_le_antisymmetric(encode_utf8(a), encode_utf8(b));
        encode_utf8_decode_utf8(a);
        encode_utf8_decode_utf8(b);
    }
}

/// In records that are sorted by digest, the records of one digest stand
/// together: between two of them there is none of another digest.
pub proof fn lemma_sorted_groups_stand_together(records: Seq<FileView>, i: int, j: int, k: int)
    requires
        sorted_by_hash(records),
        0 <= i <= j <= k < records.len(),
        records[i].hash == records[k].hash,
    ensures
        records[j].hash == records[i].hash,
{
    lemma_hash_le_total_order(records[i].hash, records[j].hash, records[i].hash);
}

/// Having the same groups goes both ways.
proof fn lemma_same_groups_symmetric(a: Seq<FileView>, b: Seq<FileView>)
    requires
        same_groups(a, b),
    ensures
        same_groups(b, a),
{
    assert forall|hash: Seq<char>| #[trigger] with_hash(b, hash) == with_hash(a, hash) by {
        assert(with_hash(a, hash) == with_hash(b, hash));
    }
}

/// Sorted records stay sorted when the last is taken away.
proof fn lemma_sorted_front(records: Seq<FileView>)
    requires
        sorted_by_hash(records),
        records.len() > 0,
    ensures
        sorted_by_hash(records.drop_last()),
{
    let front = records.drop_last();
    assert forall|i: int, j: int| 0 <= i <= j < front.len() implies hash_le(
        (#[trigger] front[i]).hash,
        (#[trigger] front[j]).hash,
    ) by {
        assert(front[i] == records[i] && front[j] == records[j]);
    }
}

/// A digest that one of two sequences with the same groups carries is
/// carried in the other too.
proof fn lemma_same_groups_same_hashes(a: Seq<FileView>, b: Seq<FileView>, i: int) -> (k: int)
    requires
        same_groups(a, b),
        0 <= i < a.len(),
    ensures
        0 <= k < b.len(),
        b[k].hash == a[i].hash,
{
    let carries = |r: FileView| r.hash == a[i].hash;
    a.lemma_filter_contains(carries, i);
    assert(with_hash(a, a[i].hash) == with_hash(b, a[i].hash));
    let group = with_hash(b, a[i].hash);
    let m = choose|m: int| 0 <= m < group.len() && group[m] == a[i];
    b.lemma_filter_contains_rev(carries, group[m]);
    choose|k: int| 0 <= k < b.len() && b[k] == a[i]
}

/// There is one way only to sort records by digest and keep the order within
/// every group: two sorted sequences with the same groups are the same.
pub proof fn lemma_sorted_order_is_unique(a: Seq<FileView>, b: Seq<FileView>)
    requires
        sorted_by_hash(a),
        sorted_by_hash(b),
        same_groups(a, b),
        a.len() == b.len(),
    ensures
        a == b,
    decreases a.len(),
{
    if a.len() > 0 {
        let x = a.last();
        let y = b.last();
        // Each of the two is the greatest of its sequence, and its digest
        // occurs in the other sequence: they carry the same digest.
        lemma_same_groups_symmetric(a, b);
        let k = lemma_same_groups_same_hashes(a, b, a.len() - 1);
        let m = lemma_same_groups_same_hashes(b, a, b.len() - 1);
        lemma_hash_le_total_order(x.hash, y.hash, x.hash);
        assert(x.hash == y.hash);
        // Each is the last of the group of that digest: they are the same.
        reveal(Seq::filter);
        assert(with_hash(a, x.hash).last() == x);
        assert(with_hash(b, x.hash).last() == y);
        // What stands before them is sorted and has the same groups.
        let front_a = a.drop_last();
        let front_b = b.drop_last();
        assert forall|hash: Seq<char>| #[trigger]
            with_hash(front_a, hash) == with_hash(front_b, hash) by {
            assert(with_hash(a, hash) == with_hash(b, hash));
            if hash == x.hash {
                assert(with_hash(front_a, hash) =~= with_hash(a, hash).drop_last());
                assert(with_hash(front_b, hash) =~= with_hash(b, hash).drop_last());
            }
        }
        lemma_sorted_front(a);
        lemma_sorted_front(b);
        lemma_sorted_order_is_unique(front_a, front_b);
        assert(a =~= front_a.push(x));
        assert(b =~= front_b.push(y));
    }
}

/// Whether the digest `a` is listed no later than the digest `b`.
pub fn hash_at_most(a: &str, b: &str) -> (r: bool)
    ensures
        r == hash_le(a@, b@),
{
    let x = a.as_bytes();
    let y = b.as_bytes();
    let mut i: usize = 0;
    proof {
        assert(x@.skip(0) =~= x@);
        assert(y@.skip(0) =~= y@);
    }
    while i < x.len() && i < y.len()
        invariant
            i <= x@.len(),
            i <= y@.len(),
            x@ == encode_utf8(a@),
            y@ == encode_utf8(b@),
            bytes_le(x@, y@) == bytes_le(x@.skip(i as int), y@.skip(i as int)),
        decreases x@.len() - i,
    {
        if x[i] != y[i] {
            return x[i] < y[i];
        }
        proof {
            assert(x@.skip(i as int).drop_first() =~= x@.skip(i + 1));
            assert(y@.skip(i as int).drop_first() =~= y@.skip(i + 1));
        }
        i += 1;
    }
    i == x.len()
}

/// Moving a record towards the front, past records that all carry other
/// digests, leaves every group as it was.
proof fn lemma_move_keeps_groups(s: Seq<FileView>, p: int, i: int)
    requires
        0 <= p <= i < s.len(),
        forall|k: int| p <= k < i ==> s[k].hash != s[i].hash,
    ensures
        same_groups(s.remove(i).insert(p, s[i]), s),
{
    let x = s[i];
    let a = s.subrange(0, p);
    let b = s.subrange(p, i);
    let c = s.subrange(i + 1, s.len() as int);
    let moved = s.remove(i).insert(p, x);
    assert(s =~= a + b + seq![x] + c);
    assert(moved =~= a + seq![x] + b + c);
    assert forall|hash: Seq<char>| #[trigger] with_hash(moved, hash) == with_hash(s, hash) by {
        let pred = |r: FileView| r.hash == hash;
        Seq::filter_distributes_over_add(a + b + seq![x], c, pred);
        Seq::filter_distributes_over_add(a + b, seq![x], pred);
        Seq::filter_distributes_over_add(a, b, pred);
        Seq::filter_distributes_over_add(a + seq![x] + b, c, pred);
        Seq::filter_distributes_over_add(a + seq![x], b, pred);
        Seq::filter_distributes_over_add(a, seq![x], pred);
        lemma_filter_one(x, pred);
        if pred(x) {
            lemma_filter_none(b, pred);
        }
        assert(a.filter(pred) + b.filter(pred) + seq![x].filter(pred) =~= a.filter(pred) + (
        b.filter(pred) + seq![x].filter(pred)));
        assert(a.filter(pred) + seq![x].filter(pred) + b.filter(pred) =~= a.filter(pred) + (
        seq![x].filter(pred) + b.filter(pred)));
    }
}

/// Where the first `i` records are sorted, moving record `i` to the place
/// `p` just behind the last record that is at most it sorts the first
/// `i + 1`.
proof fn lemma_move_sorts_prefix(s: Seq<FileView>, p: int, i: int)
    requires
        0 <= p <= i < s.len(),
        sorted_by_hash(s.take(i)),
        p > 0 ==> hash_le(s[p - 1].hash, s[i].hash),
        forall|k: int| p <= k < i ==> !hash_le(s[k].hash, s[i].hash),
    ensures
        sorted_by_hash(s.remove(i).insert(p, s[i]).take(i + 1)),
{
    let t = s.remove(i).insert(p, s[i]).take(i + 1);
    let pre = s.take(i);
    assert forall|j: int, k: int| 0 <= j <= k < t.len() implies hash_le(
        (#[trigger] t[j]).hash,
        (#[trigger] t[k]).hash,
    ) by {
        if j == k {
            lemma_hash_le_total_order(t[j].hash, t[j].hash, t[j].hash);
        } else if k == p {
            // A record before the place is at most the one just before the
            // place, which is at most the record that was moved.
            assert(hash_le(pre[j].hash, pre[p - 1].hash));
            lemma_hash_le_total_order(s[j].hash, s[p - 1].hash, s[i].hash);
        } else if j == p {
            // The record that was moved is at most every record it passed.
            lemma_hash_le_total_order(s[i].hash, s[k - 1].hash, s[i].hash);
        }
    }
}

/// Sorts the records by digest. Records with the same digest keep the order
/// they had among themselves.
pub fn sort_by_hash<'a>(files: &mut Vec<File<'a>>)
    ensures
        sorted_by_hash(final(files).deep_view()),
        same_groups(final(files).deep_view(), old(files).deep_view()),
        final(files).deep_view().to_multiset() == old(files).deep_view().to_multiset(),
        final(files)@.len() == old(files)@.len(),
{
    let ghost start = files.deep_view();
    let n: usize = files.len();
    let mut i: usize = 0;
    while i < n
        invariant
            n == files@.len(),
            n == start.len(),
            i <= n,
            sorted_by_hash(files.deep_view().take(i as int)),
            same_groups(files.deep_view(), start),
            files.deep_view().to_multiset() == start.to_multiset(),
        decreases n - i,
    {
        let ghost before = files.deep_view();
        let mut p: usize = i;
        while p > 0 && !hash_at_most(files[p - 1].hash.as_str(), files[i].hash.as_str())
            invariant
                p <= i < files@.len(),
                files.deep_view() == before,
                forall|k: int| p <= k < i ==> !hash_le(before[k].hash, before[i as int].hash),
            decreases p,
        {
            p -= 1;
        }
        if p < i {
            let moved = files.remove(i);
            files.insert(p, moved);
        }
        proof {
            broadcast use vstd::seq_lib::group_to_multiset_ensures;

            let after = files.deep_view();
            let x = before[i as int];
            assert(after =~= before.remove(i as int).insert(p as int, x));
            assert forall|k: int| p <= k < i implies before[k].hash != x.hash by {
                lemma_hash_le_total_order(x.hash, x.hash, x.hash);
            }
            lemma_move_keeps_groups(before, p as int, i as int);
            lemma_move_sorts_prefix(before, p as int, i as int);
            assert forall|hash: Seq<char>| #[trigger]
                with_hash(after, hash) == with_hash(start, hash) by {
                assert(with_hash(before, hash) == with_hash(start, hash));
            }
        }
        i += 1;
    }
    proof {
        assert(files.deep_view().take(n as int) =~= files.deep_view());
    }
}

} // verus!
