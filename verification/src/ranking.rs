//! Ranking `(key, count)` entries by insertion, under an order that compares counts
//! first and keys second and is a strict total order on entries with distinct keys.

use vstd::prelude::*;

verus! {

/// How entries are ordered: by count, ascending or descending, then by key,
/// ascending or descending.
#[derive(Clone, Copy)]
pub struct RankOrder {
    pub count_descending: bool,
    pub key_descending: bool,
}

/// Whether entry `a` comes strictly before entry `b`.
pub open spec fn ranks_before(a: (u32, u32), b: (u32, u32), order: RankOrder) -> bool {
    if a.1 != b.1 {
        if order.count_descending { a.1 > b.1 } else { a.1 < b.1 }
    } else if order.key_descending {
        a.0 > b.0
    } else {
        a.0 < b.0
    }
}

/// Every earlier entry comes strictly before every later one.
pub open spec fn strictly_ranked(s: Seq<(u32, u32)>, order: RankOrder) -> bool {
    forall|i: int, j: int| 0 <= i < j < s.len() ==> ranks_before(#[trigger] s[i], #[trigger] s[j], order)
}

/// No two entries share a key.
pub open spec fn distinct_keys<K, V>(s: Seq<(K, V)>) -> bool {
    forall|i: int, j: int| 0 <= i < j < s.len() ==> (#[trigger] s[i]).0 != (#[trigger] s[j]).0
}

/// The order is transitive.
pub proof fn lemma_ranks_before_transitive(a: (u32, u32), b: (u32, u32), c: (u32, u32), order: RankOrder)
    requires
        ranks_before(a, b, order),
        ranks_before(b, c, order),
    ensures
        ranks_before(a, c, order),
{
}

/// The order is total on entries with distinct keys.
pub proof fn lemma_ranks_before_total(a: (u32, u32), b: (u32, u32), order: RankOrder)
    requires
        a.0 != b.0,
    ensures
        ranks_before(a, b, order) || ranks_before(b, a, order),
{
}

/// The order is irreflexive and asymmetric.
pub proof fn lemma_ranks_before_asymmetric(a: (u32, u32), b: (u32, u32), order: RankOrder)
    ensures
        !(ranks_before(a, b, order) && ranks_before(b, a, order)),
        !ranks_before(a, a, order),
{
}

/// Sorts entries with distinct keys under `order`. The result holds the same
/// entries, each once, each strictly before the next.
pub fn rank_entries(entries: &Vec<(u32, u32)>, order: RankOrder) -> (ranked: Vec<(u32, u32)>)
    requires
        distinct_keys(entries@),
    ensures
        ranked@.len() == entries@.len(),
        strictly_ranked(ranked@, order),
        forall|e: (u32, u32)| ranked@.contains(e) <==> entries@.contains(e),
{
    let mut ranked: Vec<(u32, u32)> = Vec::new();
    let mut i: usize = 0;
    while i < entries.len()
        invariant
            i <= entries@.len(),
            distinct_keys(entries@),
            ranked@.len() == i,
            strictly_ranked(ranked@, order),
            forall|e: (u32, u32)| ranked@.contains(e) <==> entries@.take(i as int).contains(e),
        decreases entries@.len() - i,
    {
        let entry = entries[i];
        let mut pos: usize = 0;
        while pos < ranked.len() && !before(entry, ranked[pos], order)
            invariant
                pos <= ranked@.len(),
                forall|j: int| 0 <= j < pos ==> !ranks_before(entry, #[trigger] ranked@[j], order),
            decreases ranked@.len() - pos,
        {
            pos = pos + 1;
        }
        proof {
            assert forall|j: int| 0 <= j < ranked@.len() implies (#[trigger] ranked@[j]).0 != entry.0 by {
                assert(ranked@.contains(ranked@[j]));
                assert(entries@.take(i as int).contains(ranked@[j]));
                let k = choose|k: int| 0 <= k < i && entries@.take(i as int)[k] == ranked@[j];
                assert(entries@[k] == ranked@[j]);
            }
            assert forall|j: int| 0 <= j < pos implies ranks_before(#[trigger] ranked@[j], entry, order) by {
                lemma_ranks_before_total(ranked@[j], entry, order);
            }
            assert forall|j: int| pos <= j < ranked@.len() implies ranks_before(entry, #[trigger] ranked@[j], order) by {
                if j > pos {
                    lemma_ranks_before_transitive(entry, ranked@[pos as int], ranked@[j], order);
                }
            }
        }
        let ghost prev = ranked@;
        ranked.insert(pos, entry);
        proof {
            prev.insert_ensures(pos as int, entry);
            assert forall|a: int, b: int| 0 <= a < b < ranked@.len() implies ranks_before(
                #[trigger] ranked@[a],
                #[trigger] ranked@[b],
                order,
            ) by {
                if a < pos && b < pos {
                } else if a < pos && b == pos {
                } else if a < pos {
                    assert(ranked@[b] == prev[b - 1]);
                } else if a == pos {
                    assert(ranked@[b] == prev[b - 1]);
                } else {
                    assert(ranked@[a] == prev[a - 1]);
                    assert(ranked@[b] == prev[b - 1]);
                }
            }
            assert(entries@.take(i + 1) =~= entries@.take(i as int).push(entry));
            assert forall|e: (u32, u32)| ranked@.contains(e) <==> entries@.take(i + 1).contains(e) by {
                if ranked@.contains(e) {
                    let k = choose|k: int| 0 <= k < ranked@.len() && ranked@[k] == e;
                    if k < pos {
                        assert(prev.contains(e));
                    } else if k > pos {
                        assert(prev[k - 1] == e);
                        assert(prev.contains(e));
                    }
                    assert(entries@.take(i + 1).contains(e)) by {
                        if e != entry {
                            assert(entries@.take(i as int).contains(e));
                            let m = choose|m: int| 0 <= m < i && entries@.take(i as int)[m] == e;
                            assert(entries@.take(i + 1)[m] == e);
                        } else {
                            assert(entries@.take(i + 1)[i as int] == e);
                        }
                    }
                }
                if entries@.take(i + 1).contains(e) {
                    let m = choose|m: int| 0 <= m <= i && #[trigger] entries@.take(i + 1)[m] == e;
                    if m == i {
                        assert(ranked@[pos as int] == e);
                    } else {
                        assert(entries@.take(i as int)[m] == e);
                        assert(prev.contains(e));
                        let k = choose|k: int| 0 <= k < prev.len() && prev[k] == e;
                        if k < pos {
                            assert(ranked@[k] == e);
                        } else {
                            assert(ranked@[k + 1] == e);
                        }
                    }
                }
            }
        }
        i = i + 1;
    }
    proof {
        assert(entries@.take(entries@.len() as int) =~= entries@);
    }
    ranked
}

/// `top` holds the first `limit` entries, in order, of the entries satisfying
/// `valid`, or all of them when there are fewer.
pub open spec fn is_top_ranking(
    top: Seq<(u32, u32)>,
    valid: spec_fn((u32, u32)) -> bool,
    limit: int,
    order: RankOrder,
) -> bool {
    &&& top.len() <= limit
    &&& strictly_ranked(top, order)
    &&& forall|i: int| 0 <= i < top.len() ==> #[trigger] valid(top[i])
    &&& forall|e: (u32, u32)|
        #[trigger] valid(e) && !top.contains(e) ==> top.len() == limit && forall|i: int|
            0 <= i < top.len() ==> ranks_before(#[trigger] top[i], e, order)
}

/// The first `limit` entries of `entries` under `order`.
pub fn top_ranked(entries: &Vec<(u32, u32)>, order: RankOrder, limit: usize) -> (top: Vec<(u32, u32)>)
    requires
        distinct_keys(entries@),
    ensures
        top@.len() <= limit,
        strictly_ranked(top@, order),
        forall|i: int| 0 <= i < top@.len() ==> entries@.contains(#[trigger] top@[i]),
        forall|e: (u32, u32)|
            #[trigger] entries@.contains(e) && !top@.contains(e) ==> top@.len() == limit && forall|i: int|
                0 <= i < top@.len() ==> ranks_before(#[trigger] top@[i], e, order),
        is_top_ranking(top@, |e: (u32, u32)| entries@.contains(e), limit as int, order),
{
    let ranked = rank_entries(entries, order);
    let mut top: Vec<(u32, u32)> = Vec::new();
    let mut i: usize = 0;
    while i < ranked.len() && i < limit
        invariant
            i <= ranked@.len(),
            i <= limit,
            top@ == ranked@.take(i as int),
        decreases ranked@.len() - i,
    {
        top.push(ranked[i]);
        i = i + 1;
        proof {
            assert(top@ =~= ranked@.take(i as int));
        }
    }
    proof {
        assert forall|a: int, b: int| 0 <= a < b < top@.len() implies ranks_before(
            #[trigger] top@[a],
            #[trigger] top@[b],
            order,
        ) by {
            assert(top@[a] == ranked@[a] && top@[b] == ranked@[b]);
        }
        assert forall|a: int| 0 <= a < top@.len() implies entries@.contains(#[trigger] top@[a]) by {
            assert(top@[a] == ranked@[a]);
            assert(ranked@.contains(ranked@[a]));
        }
        assert forall|e: (u32, u32)| #[trigger] entries@.contains(e) && !top@.contains(e) implies top@.len()
            == limit && forall|a: int| 0 <= a < top@.len() ==> ranks_before(#[trigger] top@[a], e, order) by {
            assert(ranked@.contains(e));
            let j = choose|j: int| 0 <= j < ranked@.len() && ranked@[j] == e;
            if j < i {
                assert(top@[j] == e);
            }
            assert forall|a: int| 0 <= a < top@.len() implies ranks_before(#[trigger] top@[a], e, order) by {
                assert(top@[a] == ranked@[a]);
            }
        }
    }
    top
}

/// Whether `a` comes strictly before `b` under `order`.
fn before(a: (u32, u32), b: (u32, u32), order: RankOrder) -> (r: bool)
    ensures
        r == ranks_before(a, b, order),
{
    if a.1 != b.1 {
        if order.count_descending { a.1 > b.1 } else { a.1 < b.1 }
    } else if order.key_descending {
        a.0 > b.0
    } else {
        a.0 < b.0
    }
}

} // verus!
