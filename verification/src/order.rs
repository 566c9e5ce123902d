//! Orders used to sort file names, folder paths and entry names, and a
//! stable sort of positions by those orders.

use vstd::prelude::*;
use vstd::seq_lib::{group_to_multiset_ensures, to_multiset_build, to_multiset_insert};

verus! {

/// Byte strings ordered lexicographically, a proper prefix first.
pub open spec fn bytes_le(a: Seq<u8>, b: Seq<u8>) -> bool
    decreases a.len(),
{
    if a.len() == 0 {
        true
    } else if b.len() == 0 {
        false
    } else if a[0] != b[0] {
        a[0] < b[0]
    } else {
        bytes_le(a.drop_first(), b.drop_first())
    }
}

pub proof fn lemma_bytes_le_total(a: Seq<u8>, b: Seq<u8>)
    ensures
        bytes_le(a, b) || bytes_le(b, a),
    decreases a.len(),
{
    if a.len() > 0 && b.len() > 0 && a[0] == b[0] {
        lemma_bytes_le_total(a.drop_first(), b.drop_first());
    }
}

pub proof fn lemma_bytes_le_trans(a: Seq<u8>, b: Seq<u8>, c: Seq<u8>)
    requires
        bytes_le(a, b),
        bytes_le(b, c),
    ensures
        bytes_le(a, c),
    decreases a.len(),
{
    if a.len() > 0 && b.len() > 0 && c.len() > 0 && a[0] == b[0] && b[0] == c[0] {
        lemma_bytes_le_trans(a.drop_first(), b.drop_first(), c.drop_first());
    }
}

pub proof fn lemma_bytes_le_antisym(a: Seq<u8>, b: Seq<u8>)
    requires
        bytes_le(a, b),
        bytes_le(b, a),
    ensures
        a == b,
    decreases a.len(),
{
    if a.len() > 0 {
        lemma_bytes_le_antisym(a.drop_first(), b.drop_first());
        assert(a =~= seq![a[0]] + a.drop_first());
        assert(b =~= seq![b[0]] + b.drop_first());
    } else {
        assert(b.len() == 0);
        assert(a =~= b);
    }
}

/// Compares two byte strings lexicographically.
pub fn le_bytes(a: &[u8], b: &[u8]) -> (r: bool)
    ensures
        r == bytes_le(a@, b@),
{
    let mut i: usize = 0;
    assert(a@.subrange(0, a@.len() as int) =~= a@);
    assert(b@.subrange(0, b@.len() as int) =~= b@);
    while i < a.len() && i < b.len() && a[i] == b[i]
        invariant
            i <= a@.len(),
            i <= b@.len(),
            bytes_le(a@, b@) == bytes_le(
                a@.subrange(i as int, a@.len() as int),
                b@.subrange(i as int, b@.len() as int),
            ),
        decreases a@.len() - i,
    {
        assert(a@.subrange(i as int, a@.len() as int).drop_first() =~= a@.subrange(
            i + 1,
            a@.len() as int,
        ));
        assert(b@.subrange(i as int, b@.len() as int).drop_first() =~= b@.subrange(
            i + 1,
            b@.len() as int,
        ));
        i = i + 1;
    }
    if i == a.len() {
        true
    } else if i == b.len() {
        false
    } else {
        a[i] < b[i]
    }
}

/// A total preorder with an executable comparison, for sorting.
pub trait Ranked: Sized {
    spec fn ranks_le(&self, other: &Self) -> bool;

    proof fn lemma_total(a: &Self, b: &Self)
        ensures
            a.ranks_le(b) || b.ranks_le(a),
    ;

    proof fn lemma_trans(a: &Self, b: &Self, c: &Self)
        requires
            a.ranks_le(b),
            b.ranks_le(c),
        ensures
            a.ranks_le(c),
    ;

    fn le(&self, other: &Self) -> (r: bool)
        ensures
            r == self.ranks_le(other),
    ;
}

/// `order` lists positions of `items` so that their ranks never decrease.
pub open spec fn ranked_in_order<T: Ranked>(items: Seq<T>, order: Seq<usize>) -> bool {
    forall|i: int, j: int|
        #![trigger order[i], order[j]]
        0 <= i < j < order.len() ==> items[order[i] as int].ranks_le(&items[order[j] as int])
}

pub open spec fn all_positions_valid<T>(items: Seq<T>, order: Seq<usize>) -> bool {
    forall|i: int| 0 <= i < order.len() ==> #[trigger] order[i] < items.len()
}

/// Sorts the positions `picks` of `items` by rank, keeping equal ranks in
/// their given order.
pub fn sort_positions<T: Ranked>(items: &Vec<T>, picks: &Vec<usize>) -> (r: Vec<usize>)
    requires
        all_positions_valid(items@, picks@),
    ensures
        r@.to_multiset() == picks@.to_multiset(),
        all_positions_valid(items@, r@),
        ranked_in_order(items@, r@),
{
    broadcast use group_to_multiset_ensures;

    let mut out: Vec<usize> = Vec::new();
    let mut n: usize = 0;
    while n < picks.len()
        invariant
            n <= picks@.len(),
            all_positions_valid(items@, picks@),
            out@.to_multiset() == picks@.take(n as int).to_multiset(),
            all_positions_valid(items@, out@),
            ranked_in_order(items@, out@),
        decreases picks@.len() - n,
    {
        let x = picks[n];
        let mut lo: usize = 0;
        let mut hi: usize = out.len();
        while lo < hi
            invariant
                lo <= hi <= out@.len(),
                x < items@.len(),
                all_positions_valid(items@, out@),
                ranked_in_order(items@, out@),
                forall|k: int|
                    #![trigger out@[k]]
                    0 <= k < lo ==> items@[out@[k] as int].ranks_le(&items@[x as int]),
                forall|k: int|
                    #![trigger out@[k]]
                    hi <= k < out@.len() ==> !items@[out@[k] as int].ranks_le(&items@[x as int]),
            decreases hi - lo,
        {
            let mid = lo + (hi - lo) / 2;
            if items[out[mid]].le(&items[x]) {
                proof {
                    assert forall|k: int|
                        #![trigger out@[k]]
                        0 <= k <= mid implies items@[out@[k] as int].ranks_le(&items@[x as int]) by {
                        if k < mid {
                            T::lemma_trans(&items@[out@[k] as int], &items@[out@[mid as int] as int], &items@[x as int]);
                        }
                    }
                }
                lo = mid + 1;
            } else {
                proof {
                    assert forall|k: int|
                        #![trigger out@[k]]
                        mid <= k < out@.len() implies !items@[out@[k] as int].ranks_le(&items@[x as int]) by {
                        if k > mid && items@[out@[k] as int].ranks_le(&items@[x as int]) {
                            T::lemma_trans(&items@[out@[mid as int] as int], &items@[out@[k] as int], &items@[x as int]);
                        }
                    }
                }
                hi = mid;
            }
        }
        let ghost before = out@;
        out.insert(lo, x);
        proof {
            before.insert_ensures(lo as int, x);
            assert(out@ == before.insert(lo as int, x));
            assert(picks@.take(n + 1) =~= picks@.take(n as int).push(x));
            to_multiset_insert(before, lo as int, x);
            to_multiset_build(picks@.take(n as int), x);
            assert forall|i: int, j: int|
                #![trigger out@[i], out@[j]]
                0 <= i < j < out@.len() implies items@[out@[i] as int].ranks_le(&items@[out@[j] as int]) by {
                if j < lo {
                    assert(out@[i] == before[i] && out@[j] == before[j]);
                } else if j == lo {
                    assert(out@[i] == before[i]);
                } else if i == lo {
                    assert(out@[j] == before[j - 1]);
                    T::lemma_total(&items@[x as int], &items@[before[j - 1] as int]);
                } else if i < lo {
                    assert(out@[i] == before[i] && out@[j] == before[j - 1]);
                } else {
                    assert(out@[i] == before[i - 1] && out@[j] == before[j - 1]);
                }
            }
        }
        n = n + 1;
    }
    assert(picks@.take(picks@.len() as int) =~= picks@);
    out
}

} // verus!
