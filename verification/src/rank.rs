//! Ordering results by relevance and keeping the best.

use vstd::prelude::*;

verus! {

/// Something that carries a relevance by which it is ranked.
pub trait Ranked: Sized {
    /// The relevance, in billionths.
    spec fn rank(self) -> u64;

    /// Reads the relevance.
    fn relevance_of(&self) -> (r: u64)
        ensures
            r == self.rank(),
    ;
}

/// `x` put into the descending sequence `s`: behind everything that ranks
/// higher, in front of everything that ranks the same or lower.
pub open spec fn insert_desc<T: Ranked>(s: Seq<T>, x: T) -> Seq<T>
    decreases s.len(),
{
    if s.len() == 0 || s[0].rank() <= x.rank() {
        seq![x] + s
    } else {
        seq![s[0]] + insert_desc(s.drop_first(), x)
    }
}

/// `s` in descending order of relevance; items of the same relevance keep
/// the order they have in `s`.
pub open spec fn sort_desc<T: Ranked>(s: Seq<T>) -> Seq<T>
    decreases s.len(),
{
    if s.len() == 0 {
        Seq::empty()
    } else {
        insert_desc(sort_desc(s.drop_first()), s[0])
    }
}

/// No item ranks higher than one in front of it.
pub open spec fn is_descending<T: Ranked>(s: Seq<T>) -> bool {
    forall|i: int, j: int| 0 <= i <= j < s.len() ==> s[i].rank() >= s[j].rank()
}

/// The first `limit` items of `s`, or all of `s` where it has fewer.
pub open spec fn top<T>(s: Seq<T>, limit: int) -> Seq<T> {
    if limit < s.len() {
        s.take(limit)
    } else {
        s
    }
}

/// Inserting keeps every item and adds the new one.
pub proof fn lemma_insert_desc_permutes<T: Ranked>(s: Seq<T>, x: T)
    ensures
        insert_desc(s, x).to_multiset() == s.to_multiset().insert(x),
        insert_desc(s, x).len() == s.len() + 1,
    decreases s.len(),
{
    broadcast use vstd::seq_lib::group_to_multiset_ensures;

    if s.len() == 0 || s[0].rank() <= x.rank() {
        assert(seq![x] + s =~= s.insert(0, x));
        s.to_multiset_ensures();
    } else {
        let rest = s.drop_first();
        lemma_insert_desc_permutes(rest, x);
        let tail = insert_desc(rest, x);
        assert(seq![s[0]] + tail =~= tail.insert(0, s[0]));
        assert(s =~= rest.insert(0, s[0]));
        tail.to_multiset_ensures();
        rest.to_multiset_ensures();
        assert(insert_desc(s, x).to_multiset() =~= s.to_multiset().insert(x));
    }
}

/// Inserting into a descending sequence gives a descending sequence.
pub proof fn lemma_insert_desc_ordered<T: Ranked>(s: Seq<T>, x: T)
    requires
        is_descending(s),
    ensures
        is_descending(insert_desc(s, x)),
        insert_desc(s, x).len() == s.len() + 1,
        forall|i: int|
            0 <= i < insert_desc(s, x).len() ==> (#[trigger] insert_desc(s, x)[i] == x || exists|
                j: int,
            | 0 <= j < s.len() && insert_desc(s, x)[i] == s[j]),
    decreases s.len(),
{
    let out = insert_desc(s, x);
    if s.len() == 0 || s[0].rank() <= x.rank() {
        assert forall|i: int, j: int| 0 <= i <= j < out.len() implies out[i].rank()
            >= out[j].rank() by {
            if i > 0 {
                assert(out[i] == s[i - 1] && out[j] == s[j - 1]);
            } else if j > 0 {
                assert(out[j] == s[j - 1]);
                assert(s[0].rank() >= s[j - 1].rank());
            }
        }
        assert forall|i: int| 0 <= i < out.len() implies (#[trigger] out[i] == x || exists|j: int|
            0 <= j < s.len() && out[i] == s[j]) by {
            if i > 0 {
                assert(out[i] == s[i - 1]);
            }
        }
    } else {
        let rest = s.drop_first();
        assert forall|i: int, j: int| 0 <= i <= j < rest.len() implies rest[i].rank()
            >= rest[j].rank() by {
            assert(rest[i] == s[i + 1] && rest[j] == s[j + 1]);
        }
        lemma_insert_desc_ordered(rest, x);
        let tail = insert_desc(rest, x);
        assert forall|i: int| 0 <= i < out.len() implies (#[trigger] out[i] == x || exists|j: int|
            0 <= j < s.len() && out[i] == s[j]) by {
            if i > 0 {
                assert(out[i] == tail[i - 1]);
                if tail[i - 1] != x {
                    let j = choose|j: int| 0 <= j < rest.len() && tail[i - 1] == rest[j];
                    assert(out[i] == s[j + 1]);
                }
            } else {
                assert(out[0] == s[0]);
            }
        }
        assert forall|i: int, j: int| 0 <= i <= j < out.len() implies out[i].rank()
            >= out[j].rank() by {
            if i > 0 {
                assert(out[i] == tail[i - 1] && out[j] == tail[j - 1]);
            } else if j > 0 {
                assert(out[j] == tail[j - 1]);
                if tail[j - 1] != x {
                    let k = choose|k: int| 0 <= k < rest.len() && tail[j - 1] == rest[k];
                    assert(rest[k] == s[k + 1]);
                    assert(s[0].rank() >= s[k + 1].rank());
                }
            }
        }
    }
}

/// Sorting gives a descending sequence of the same items.
pub proof fn lemma_sort_desc<T: Ranked>(s: Seq<T>)
    ensures
        is_descending(sort_desc(s)),
        sort_desc(s).to_multiset() == s.to_multiset(),
        sort_desc(s).len() == s.len(),
    decreases s.len(),
{
    broadcast use vstd::seq_lib::group_to_multiset_ensures;

    if s.len() > 0 {
        let rest = s.drop_first();
        lemma_sort_desc(rest);
        lemma_insert_desc_ordered(sort_desc(rest), s[0]);
        lemma_insert_desc_permutes(sort_desc(rest), s[0]);
        assert(s =~= rest.insert(0, s[0]));
        rest.to_multiset_ensures();
    }
}

/// Every item of the sorted sequence is an item of the given one.
pub proof fn lemma_sort_desc_members<T: Ranked>(s: Seq<T>)
    ensures
        forall|i: int| 0 <= i < sort_desc(s).len() ==> s.contains(#[trigger] sort_desc(s)[i]),
{
    broadcast use vstd::seq_lib::group_to_multiset_ensures;

    lemma_sort_desc(s);
    let sorted = sort_desc(s);
    sorted.to_multiset_ensures();
    s.to_multiset_ensures();
    assert forall|i: int| 0 <= i < sorted.len() implies s.contains(#[trigger] sorted[i]) by {
        assert(sorted.contains(sorted[i]));
        assert(sorted.to_multiset().count(sorted[i]) > 0);
    }
}

/// Puts `x` into the descending vector `sorted`.
fn insert_ranked<T: Ranked>(sorted: &mut Vec<T>, x: T)
    ensures
        final(sorted)@ == insert_desc(old(sorted)@, x),
{
    let ghost start = sorted@;
    let mut p: usize = 0;
    proof {
        assert(start.skip(0) =~= start);
        assert(start.take(0) + insert_desc(start, x) =~= insert_desc(start, x));
    }
    while p < sorted.len() && sorted[p].relevance_of() > x.relevance_of()
        invariant
            p <= sorted.len(),
            sorted@ == start,
            insert_desc(start, x) == start.take(p as int) + insert_desc(start.skip(p as int), x),
        decreases sorted.len() - p,
    {
        proof {
            let here = start.skip(p as int);
            assert(here.drop_first() =~= start.skip(p + 1));
            assert(start.take(p as int) + (seq![here[0]] + insert_desc(here.drop_first(), x))
                =~= start.take(p + 1) + insert_desc(start.skip(p + 1), x));
        }
        p += 1;
    }
    proof {
        let here = start.skip(p as int);
        assert(insert_desc(here, x) == seq![x] + here);
        assert(start.take(p as int) + (seq![x] + here) =~= start.insert(p as int, x));
    }
    sorted.insert(p, x);
}

/// Sorts `items` by descending relevance; equal relevances keep their
/// order.
pub fn sort_by_relevance<T: Ranked>(items: Vec<T>) -> (sorted: Vec<T>)
    ensures
        sorted@ == sort_desc(items@),
        is_descending(sorted@),
        sorted@.to_multiset() == items@.to_multiset(),
{
    let ghost all = items@;
    let mut rest = items;
    let mut sorted: Vec<T> = Vec::new();
    proof {
        assert(all.skip(all.len() as int) =~= Seq::<T>::empty());
    }
    while rest.len() > 0
        invariant
            rest@ == all.take(rest.len() as int),
            rest.len() <= all.len(),
            sorted@ == sort_desc(all.skip(rest.len() as int)),
        decreases rest.len(),
    {
        let ghost k = rest.len() as int;
        let x = rest.pop().unwrap();
        proof {
            assert(all.skip(k - 1).drop_first() =~= all.skip(k));
            assert(all.skip(k - 1)[0] == x);
            assert(rest@ =~= all.take(k - 1));
        }
        insert_ranked(&mut sorted, x);
    }
    proof {
        assert(all.skip(0) =~= all);
        lemma_sort_desc(all);
    }
    sorted
}

/// Sorts `items` by descending relevance and keeps the first `limit`.
pub fn rank_top<T: Ranked>(items: Vec<T>, limit: usize) -> (best: Vec<T>)
    ensures
        best@ == top(sort_desc(items@), limit as int),
        is_descending(best@),
        best.len() <= limit,
        best.len() <= items.len(),
        forall|i: int| 0 <= i < best.len() ==> items@.contains(#[trigger] best@[i]),
{
    let mut best = sort_by_relevance(items);
    proof {
        lemma_sort_desc(items@);
        lemma_sort_desc_members(items@);
    }
    if limit < best.len() {
        best.truncate(limit);
    }
    best
}

} // verus!
