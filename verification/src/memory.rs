//! The order of memories by their similarity to a question.
//!
//! A similarity is given as an integer that is the larger, the more similar
//! the memory is.

use vstd::prelude::*;

verus! {

/// Memory `a` comes before memory `b`: it is more similar, or as similar and
/// older in the list.
pub open spec fn comes_before(scores: Seq<i64>, a: int, b: int) -> bool {
    scores[a] > scores[b] || (scores[a] == scores[b] && a < b)
}

/// The places of all memories, the most similar ones first; memories that are
/// equally similar keep their order.
pub open spec fn is_ranking(scores: Seq<i64>, order: Seq<usize>) -> bool {
    &&& order.len() == scores.len()
    &&& forall|i: int| 0 <= i < order.len() ==> (#[trigger] order[i]) < scores.len()
    &&& forall|i: int, j: int|
        0 <= i < j < order.len() ==> comes_before(
            scores,
            (#[trigger] order[i]) as int,
            (#[trigger] order[j]) as int,
        )
}

/// There is only one ranking.
pub proof fn law_ranking_is_unique(scores: Seq<i64>, a: Seq<usize>, b: Seq<usize>)
    requires
        is_ranking(scores, a),
        is_ranking(scores, b),
    ensures
        a == b,
{
    lemma_ranks_all(scores, a);
    lemma_ranks_all(scores, b);
    assert forall|k: int| 0 <= k < a.len() implies a[k] == b[k] by {
        lemma_same_rank(scores, a, b, k);
    }
    assert(a =~= b);
}

/// A ranking holds every place.
proof fn lemma_ranks_all(scores: Seq<i64>, order: Seq<usize>)
    requires
        is_ranking(scores, order),
    ensures
        order.no_duplicates(),
        forall|x: usize| x < scores.len() ==> order.contains(x),
{
    assert forall|i: int, j: int|
        0 <= i < order.len() && 0 <= j < order.len() && i != j implies order[i] != order[j] by {
        if i < j {
            assert(comes_before(scores, order[i] as int, order[j] as int));
        } else {
            assert(comes_before(scores, order[j] as int, order[i] as int));
        }
    }
    let n = scores.len();
    let places = Seq::new(n, |i: int| i as usize);
    let all = places.to_set();
    let got = order.to_set();
    order.unique_seq_to_set();
    vstd::seq_lib::seq_to_set_is_finite(places);
    places.lemma_cardinality_of_set();
    assert(got.subset_of(all)) by {
        assert forall|x: usize| got.contains(x) implies all.contains(x) by {
            let i = order.index_of(x);
            assert(order[i] < n);
            assert(places[x as int] == x);
        }
    }
    vstd::set_lib::lemma_len_subset(got, all);
    vstd::set_lib::lemma_subset_equality(got, all);
    assert forall|x: usize| x < n implies order.contains(x) by {
        assert(places[x as int] == x);
        assert(all.contains(x));
        assert(got.contains(x));
    }
}

proof fn lemma_same_rank(scores: Seq<i64>, a: Seq<usize>, b: Seq<usize>, k: int)
    requires
        is_ranking(scores, a),
        is_ranking(scores, b),
        0 <= k < a.len(),
        forall|x: usize| x < scores.len() ==> a.contains(x),
        forall|x: usize| x < scores.len() ==> b.contains(x),
        a.no_duplicates(),
        b.no_duplicates(),
    ensures
        a[k] == b[k],
    decreases k,
{
    assert forall|j: int| 0 <= j < k implies a[j] == b[j] by {
        lemma_same_rank(scores, a, b, j);
    }
    if a[k] != b[k] {
        assert(b.contains(a[k]));
        let p = b.index_of(a[k]);
        assert(b[p] == a[k]);
        if p < k {
            assert(a[p] == b[p]);
            assert(a[p] == a[k]);
        }
        assert(a.contains(b[k]));
        let q = a.index_of(b[k]);
        assert(a[q] == b[k]);
        if q < k {
            assert(b[q] == a[q]);
            assert(b[q] == b[k]);
        }
        assert(comes_before(scores, b[k] as int, b[p] as int));
        assert(comes_before(scores, a[k] as int, a[q] as int));
    }
}

fn insert_place(scores: &[i64], order: &mut Vec<usize>, place: usize)
    requires
        place < scores@.len(),
        old(order)@.len() == place,
        is_ranking(scores@.take(place as int), old(order)@),
    ensures
        is_ranking(scores@.take(place + 1), final(order)@),
{
    let ghost before = order@;
    let ghost part = scores@.take(place as int);
    let ghost more = scores@.take(place + 1);
    let mut p: usize = 0;
    while p < order.len() && scores[order[p]] >= scores[place]
        invariant
            p <= order@.len(),
            order@ == before,
            place < scores@.len(),
            before.len() == place,
            part == scores@.take(place as int),
            is_ranking(part, before),
            forall|i: int| 0 <= i < p ==> scores@[(#[trigger] before[i]) as int] >= scores@[place as int],
            forall|i: int| 0 <= i < before.len() ==> (#[trigger] before[i]) < scores@.len(),
        decreases order@.len() - p,
    {
        p += 1;
    }
    order.insert(p, place);
    proof {
        let after = order@;
        assert forall|i: int| 0 <= i < after.len() implies (#[trigger] after[i]) < more.len() by {
            if i < p {
                assert(after[i] == before[i]);
            } else if i > p {
                assert(after[i] == before[i - 1]);
            }
        }
        assert forall|i: int, j: int| 0 <= i < j < after.len() implies comes_before(
            more,
            (#[trigger] after[i]) as int,
            (#[trigger] after[j]) as int,
        ) by {
            let x = if i < p { i } else { i - 1 };
            let y = if j < p { j } else { j - 1 };
            if i != p && j != p {
                assert(after[i] == before[x] && after[j] == before[y]);
                assert(comes_before(part, before[x] as int, before[y] as int));
            } else if j == p {
                assert(after[i] == before[i]);
                assert(before[i] < part.len());
            } else {
                assert(after[j] == before[j - 1]);
                assert(before[p as int] < part.len());
                assert(before[j - 1] < part.len());
                if j - 1 > p {
                    assert(comes_before(part, before[p as int] as int, before[j - 1] as int));
                }
            }
        }
    }
}

/// The places of the `top_k` most similar memories, the most similar first.
pub fn rank(scores: &[i64], top_k: usize) -> (r: Vec<usize>)
    ensures
        exists|order: Seq<usize>| #[trigger]
            is_ranking(scores@, order) && r@ == if top_k < order.len() {
                order.take(top_k as int)
            } else {
                order
            },
{
    let mut order: Vec<usize> = Vec::new();
    let mut i: usize = 0;
    while i < scores.len()
        invariant
            i <= scores@.len(),
            order@.len() == i,
            is_ranking(scores@.take(i as int), order@),
        decreases scores@.len() - i,
    {
        insert_place(scores, &mut order, i);
        i += 1;
    }
    assert(scores@.take(i as int) =~= scores@);
    let ghost full = order@;
    assert(is_ranking(scores@, full));
    if top_k < order.len() {
        order.truncate(top_k);
        assert(order@ =~= full.take(top_k as int));
    }
    order
}

/// In a ranking no memory stands behind a less similar one, and of two that
/// are equally similar the older one stands first; every memory is in it.
pub proof fn law_ranking(scores: Seq<i64>, order: Seq<usize>, i: int, j: int, place: usize)
    requires
        is_ranking(scores, order),
        0 <= i < j < order.len(),
        place < scores.len(),
    ensures
        order.len() == scores.len(),
        order[i] < scores.len(),
        order[j] < scores.len(),
        scores[order[i] as int] >= scores[order[j] as int],
        scores[order[i] as int] == scores[order[j] as int] ==> order[i] < order[j],
        order.contains(place),
{
    lemma_ranks_all(scores, order);
    assert(comes_before(scores, order[i] as int, order[j] as int));
}

} // verus!
