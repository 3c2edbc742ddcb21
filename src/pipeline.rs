//! Joining ranked index matches with catalog records.
//!
//! A match is a (key, distance) pair. Records are looked up by key; a key
//! without a record drops its distance too, and a key that occurred before
//! is dropped, so that each record stands once, at its first rank, beside the
//! distance of that match.
use crate::model::{Drink, SimilarityExtendedResponse, SimilarityResponse};
use crate::mongo_utils::{
    in_store, lemma_last_index, key_seq, record_for, resolves_first, restore_with_flags, restored, seen_before,
};
use vstd::prelude::*;

verus! {

/// The keys of a list of matches.
pub open spec fn keys_of(pairs: Seq<(Seq<char>, u32)>) -> Seq<Seq<char>> {
    pairs.map_values(|p: (Seq<char>, u32)| p.0)
}

/// The matches whose key has not occurred before, in order.
pub open spec fn first_occurrences(pairs: Seq<(Seq<char>, u32)>) -> Seq<(Seq<char>, u32)>
    decreases pairs.len(),
{
    if pairs.len() == 0 {
        seq![]
    } else {
        let prev = first_occurrences(pairs.drop_last());
        if keys_of(pairs.drop_last()).contains(pairs.last().0) {
            prev
        } else {
            prev.push(pairs.last())
        }
    }
}

/// The ranked result for `pairs` against the records `fetched`: each match
/// whose key resolves and has not occurred before, as its record beside its
/// distance, in match order.
pub open spec fn ranked(pairs: Seq<(Seq<char>, u32)>, fetched: Seq<Drink>) -> Seq<(Drink, u32)>
    decreases pairs.len(),
{
    if pairs.len() == 0 {
        seq![]
    } else {
        let prev = ranked(pairs.drop_last(), fetched);
        let (k, d) = pairs.last();
        if in_store(fetched, k) && !keys_of(pairs.drop_last()).contains(k) {
            prev.push((record_for(fetched, k), d))
        } else {
            prev
        }
    }
}

/// The records of a ranked result are those that order restoration gives
/// for its keys.
proof fn lemma_ranked_records(pairs: Seq<(Seq<char>, u32)>, fetched: Seq<Drink>)
    ensures
        ranked(pairs, fetched).map_values(|e: (Drink, u32)| e.0) == restored(
            keys_of(pairs),
            fetched,
        ),
    decreases pairs.len(),
{
    if pairs.len() > 0 {
        lemma_ranked_records(pairs.drop_last(), fetched);
        assert(keys_of(pairs).drop_last() =~= keys_of(pairs.drop_last()));
        assert(ranked(pairs, fetched).map_values(|e: (Drink, u32)| e.0) =~= restored(
            keys_of(pairs),
            fetched,
        ));
    }
}

/// The positions of the matches that a ranked result keeps, in order.
pub open spec fn kept_positions(pairs: Seq<(Seq<char>, u32)>, fetched: Seq<Drink>) -> Seq<int>
    decreases pairs.len(),
{
    if pairs.len() == 0 {
        seq![]
    } else {
        let prev = kept_positions(pairs.drop_last(), fetched);
        let k = pairs.last().0;
        if in_store(fetched, k) && !keys_of(pairs.drop_last()).contains(k) {
            prev.push(pairs.len() - 1)
        } else {
            prev
        }
    }
}

/// Each entry of a ranked result is the record and the distance of one kept
/// match; kept matches are exactly those whose key resolves and occurs there
/// for the first time, and they keep their order.
pub proof fn lemma_ranked_positions(pairs: Seq<(Seq<char>, u32)>, fetched: Seq<Drink>)
    ensures
        kept_positions(pairs, fetched).len() == ranked(pairs, fetched).len(),
        forall|q: int|
            0 <= q < ranked(pairs, fetched).len() ==> {
                let i = #[trigger] kept_positions(pairs, fetched)[q];
                &&& 0 <= i < pairs.len()
                &&& ranked(pairs, fetched)[q] == (record_for(fetched, pairs[i].0), pairs[i].1)
                &&& in_store(fetched, pairs[i].0)
                &&& !keys_of(pairs.take(i)).contains(pairs[i].0)
            },
        forall|q1: int, q2: int|
            0 <= q1 < q2 < ranked(pairs, fetched).len() ==> #[trigger] kept_positions(
                pairs,
                fetched,
            )[q1] < #[trigger] kept_positions(pairs, fetched)[q2],
        forall|i: int|
            0 <= i < pairs.len() && in_store(fetched, pairs[i].0) && !keys_of(
                pairs.take(i),
            ).contains(pairs[i].0) ==> kept_positions(pairs, fetched).contains(i),
    decreases pairs.len(),
{
    if pairs.len() > 0 {
        let init = pairs.drop_last();
        lemma_ranked_positions(init, fetched);
        assert forall|i: int| 0 <= i < init.len() implies pairs.take(i) =~= init.take(i)
            && #[trigger] init[i] == pairs[i] by {}
        assert(pairs.take(init.len() as int) =~= init);
        let kp = kept_positions(pairs, fetched);
        let kp0 = kept_positions(init, fetched);
        assert forall|i: int|
            0 <= i < pairs.len() && in_store(fetched, pairs[i].0) && !keys_of(
                pairs.take(i),
            ).contains(pairs[i].0) implies kp.contains(i) by {
            if i < init.len() {
                assert(pairs.take(i) =~= init.take(i));
                assert(init[i] == pairs[i]);
                assert(in_store(fetched, init[i].0));
                assert(!keys_of(init.take(i)).contains(init[i].0));
                assert(kp0.contains(i));
                let j = choose|j: int| 0 <= j < kp0.len() && kp0[j] == i;
                assert(kp[j] == i);
            } else {
                assert(kp[kp.len() - 1] == i);
            }
        }
    }
}

/// Order preservation: when the keys of the matches are distinct and all
/// resolve, the result holds one entry per match, in match order, each the
/// record of that match's key beside that match's distance.
pub proof fn lemma_order_preserved(pairs: Seq<(Seq<char>, u32)>, fetched: Seq<Drink>)
    requires
        forall|i: int, j: int| 0 <= i < j < pairs.len() ==> pairs[i].0 != pairs[j].0,
        forall|i: int| 0 <= i < pairs.len() ==> in_store(fetched, #[trigger] pairs[i].0),
    ensures
        ranked(pairs, fetched).len() == pairs.len(),
        forall|i: int|
            0 <= i < pairs.len() ==> {
                &&& (#[trigger] ranked(pairs, fetched)[i]).0 == record_for(fetched, pairs[i].0)
                &&& ranked(pairs, fetched)[i].0.drink_url@ == pairs[i].0
                &&& ranked(pairs, fetched)[i].1 == pairs[i].1
            },
    decreases pairs.len(),
{
    if pairs.len() > 0 {
        let init = pairs.drop_last();
        let k = pairs.last().0;
        assert(in_store(fetched, pairs[pairs.len() - 1].0));
        lemma_order_preserved(init, fetched);
        lemma_last_index(fetched, k);
        if keys_of(init).contains(k) {
            let j = choose|j: int| 0 <= j < init.len() && keys_of(init)[j] == k;
            assert(pairs[j].0 == pairs[pairs.len() - 1].0);
        }
    }
}

/// Dropped-key consistency: a match whose key does not resolve is not kept,
/// so its distance is not in the result; where no resolving match has an
/// equal distance value, that value is absent from the result altogether.
pub proof fn lemma_dropped_key(pairs: Seq<(Seq<char>, u32)>, fetched: Seq<Drink>, p: int)
    requires
        0 <= p < pairs.len(),
        !in_store(fetched, pairs[p].0),
    ensures
        !kept_positions(pairs, fetched).contains(p),
        (forall|i: int|
            0 <= i < pairs.len() && i != p && in_store(fetched, #[trigger] pairs[i].0)
                ==> pairs[i].1 != pairs[p].1) ==> forall|q: int|
            0 <= q < ranked(pairs, fetched).len() ==> (#[trigger] ranked(pairs, fetched)[q]).1
                != pairs[p].1,
{
    lemma_ranked_positions(pairs, fetched);
    let kp = kept_positions(pairs, fetched);
    if kp.contains(p) {
        let q = choose|q: int| 0 <= q < kp.len() && kp[q] == p;
        assert(in_store(fetched, pairs[kp[q]].0));
    }
    if forall|i: int|
        0 <= i < pairs.len() && i != p && in_store(fetched, #[trigger] pairs[i].0) ==> pairs[i].1
            != pairs[p].1 {
        assert forall|q: int| 0 <= q < ranked(pairs, fetched).len() implies (#[trigger] ranked(
            pairs,
            fetched,
        )[q]).1 != pairs[p].1 by {
            let i = kp[q];
            assert(in_store(fetched, pairs[i].0));
            if i == p {
                assert(kp.contains(p));
            }
        }
    }
}

/// Deduplication: no two entries of a result share a key, and each entry
/// comes from the first match of its key, so it stands at that key's first
/// rank with that match's distance.
pub proof fn lemma_no_duplicates(pairs: Seq<(Seq<char>, u32)>, fetched: Seq<Drink>)
    ensures
        forall|q1: int, q2: int|
            0 <= q1 < q2 < ranked(pairs, fetched).len() ==> (#[trigger] ranked(
                pairs,
                fetched,
            )[q1]).0.drink_url@ != (#[trigger] ranked(pairs, fetched)[q2]).0.drink_url@,
        forall|q: int|
            0 <= q < ranked(pairs, fetched).len() ==> {
                let i = #[trigger] kept_positions(pairs, fetched)[q];
                &&& 0 <= i < pairs.len()
                &&& forall|j: int| 0 <= j < i ==> pairs[j].0 != pairs[i].0
                &&& ranked(pairs, fetched)[q].0.drink_url@ == pairs[i].0
                &&& ranked(pairs, fetched)[q].1 == pairs[i].1
            },
{
    lemma_ranked_positions(pairs, fetched);
    let kp = kept_positions(pairs, fetched);
    let r = ranked(pairs, fetched);
    assert forall|q: int| 0 <= q < r.len() implies {
        let i = #[trigger] kp[q];
        &&& 0 <= i < pairs.len()
        &&& forall|j: int| 0 <= j < i ==> pairs[j].0 != pairs[i].0
        &&& r[q].0.drink_url@ == pairs[i].0
        &&& r[q].1 == pairs[i].1
    } by {
        let i = kp[q];
        lemma_last_index(fetched, pairs[i].0);
        assert forall|j: int| 0 <= j < i implies pairs[j].0 != pairs[i].0 by {
            if pairs[j].0 == pairs[i].0 {
                assert(keys_of(pairs.take(i))[j] == pairs[i].0);
            }
        }
    }
    assert forall|q1: int, q2: int| 0 <= q1 < q2 < r.len() implies (#[trigger] r[q1]).0.drink_url@
        != (#[trigger] r[q2]).0.drink_url@ by {
        assert(kp[q1] < kp[q2]);
        let i1 = kp[q1];
        let i2 = kp[q2];
        lemma_last_index(fetched, pairs[i1].0);
        lemma_last_index(fetched, pairs[i2].0);
        if pairs[i1].0 == pairs[i2].0 {
            assert(keys_of(pairs.take(i2))[i1] == pairs[i2].0);
        }
    }
}

/// Count bounding: a result is never longer than the matches, as long
/// exactly when the keys are distinct and all resolve, and shorter when
/// some key does not resolve.
pub proof fn lemma_count_bound(pairs: Seq<(Seq<char>, u32)>, fetched: Seq<Drink>)
    ensures
        ranked(pairs, fetched).len() <= pairs.len(),
        (forall|i: int, j: int| 0 <= i < j < pairs.len() ==> pairs[i].0 != pairs[j].0) && (forall|
            i: int,
        |
            0 <= i < pairs.len() ==> in_store(fetched, #[trigger] pairs[i].0)) ==> ranked(
            pairs,
            fetched,
        ).len() == pairs.len(),
        (exists|i: int| 0 <= i < pairs.len() && !in_store(fetched, #[trigger] pairs[i].0)) ==> ranked(
            pairs,
            fetched,
        ).len() < pairs.len(),
    decreases pairs.len(),
{
    if pairs.len() > 0 {
        let init = pairs.drop_last();
        lemma_count_bound(init, fetched);
        if (forall|i: int, j: int| 0 <= i < j < pairs.len() ==> pairs[i].0 != pairs[j].0) && (forall|
            i: int,
        |
            0 <= i < pairs.len() ==> in_store(fetched, #[trigger] pairs[i].0)) {
            lemma_order_preserved(pairs, fetched);
        }
        if exists|i: int| 0 <= i < pairs.len() && !in_store(fetched, #[trigger] pairs[i].0) {
            let i = choose|i: int| 0 <= i < pairs.len() && !in_store(fetched, #[trigger] pairs[i].0);
            if i < init.len() {
                assert(!in_store(fetched, init[i].0));
            }
        }
    }
}

/// Membership in a sequence grown by one element.
proof fn lemma_push_contains(s: Seq<Seq<char>>, x: Seq<char>, y: Seq<char>)
    ensures
        s.push(x).contains(y) <==> (s.contains(y) || x == y),
{
    if s.contains(y) {
        let j = choose|j: int| 0 <= j < s.len() && s[j] == y;
        assert(s.push(x)[j] == y);
    }
    if x == y {
        assert(s.push(x)[s.len() as int] == y);
    }
    if s.push(x).contains(y) && x != y {
        let j = choose|j: int| 0 <= j < s.push(x).len() && s.push(x)[j] == y;
        assert(s[j] == y);
    }
}

/// The keys kept by deduplication are the keys of the input.
proof fn lemma_first_occurrence_keys(pairs: Seq<(Seq<char>, u32)>, k: Seq<char>)
    ensures
        keys_of(first_occurrences(pairs)).contains(k) <==> keys_of(pairs).contains(k),
    decreases pairs.len(),
{
    if pairs.len() > 0 {
        let init = pairs.drop_last();
        let last = pairs.last();
        lemma_first_occurrence_keys(init, k);
        let prev = first_occurrences(init);
        let fo = first_occurrences(pairs);
        assert(keys_of(pairs) =~= keys_of(init).push(last.0));
        lemma_push_contains(keys_of(init), last.0, k);
        if keys_of(init).contains(last.0) {
            assert(fo == prev);
            lemma_first_occurrence_keys(init, last.0);
        } else {
            assert(fo == prev.push(last));
            assert(keys_of(fo) =~= keys_of(prev).push(last.0));
            lemma_push_contains(keys_of(prev), last.0, k);
        }
    }
}

/// Deduplicating the matches before the lookup leaves the ranked result as
/// it is.
pub proof fn lemma_dedup_then_rank(pairs: Seq<(Seq<char>, u32)>, fetched: Seq<Drink>)
    ensures
        ranked(first_occurrences(pairs), fetched) == ranked(pairs, fetched),
    decreases pairs.len(),
{
    if pairs.len() > 0 {
        let init = pairs.drop_last();
        let (k, d) = pairs.last();
        lemma_dedup_then_rank(init, fetched);
        let prev = first_occurrences(init);
        if keys_of(init).contains(k) {
            assert(first_occurrences(pairs) == prev);
        } else {
            lemma_first_occurrence_keys(init, k);
            let fo = prev.push(pairs.last());
            assert(fo.drop_last() =~= prev);
            assert(first_occurrences(pairs) == fo);
        }
    }
}

/// The keys of a response's pairs are its uris.
proof fn lemma_keys_of_pairs(m: SimilarityResponse)
    requires
        m.wf(),
    ensures
        keys_of(m.pairs()) == key_seq(m.uris@),
{
    assert(keys_of(m.pairs()) =~= key_seq(m.uris@));
}

/// Keeps, for each key, its first match only.
pub fn dedup_matches(m: &SimilarityResponse) -> (r: SimilarityResponse)
    requires
        m.wf(),
    ensures
        r.wf(),
        r.pairs() == first_occurrences(m.pairs()),
{
    let ghost pairs = m.pairs();
    proof {
        lemma_keys_of_pairs(*m);
    }
    let mut uris: Vec<String> = Vec::new();
    let mut distances: Vec<u32> = Vec::new();
    let mut i: usize = 0;
    while i < m.uris.len()
        invariant
            m.wf(),
            pairs == m.pairs(),
            keys_of(pairs) == key_seq(m.uris@),
            i <= m.uris@.len(),
            uris@.len() == distances@.len(),
            (SimilarityResponse { uris, distances }).pairs() == first_occurrences(
                pairs.take(i as int),
            ),
        decreases m.uris@.len() - i,
    {
        let ghost old_pairs = (SimilarityResponse { uris, distances }).pairs();
        let ghost prefix = pairs.take(i + 1);
        assert(prefix.drop_last() =~= pairs.take(i as int));
        assert(keys_of(pairs.take(i as int)) =~= key_seq(m.uris@).take(i as int));
        if !seen_before(&m.uris, i, &m.uris[i]) {
            uris.push(m.uris[i].clone());
            distances.push(m.distances[i]);
            assert((SimilarityResponse { uris, distances }).pairs() =~= old_pairs.push(
                pairs[i as int],
            ));
        }
        i = i + 1;
    }
    assert(pairs.take(i as int) =~= pairs);
    SimilarityResponse { uris, distances }
}

/// Joins matches with the store's answer to a lookup of their keys.
///
/// Records come in match order; a match whose key has no record, or whose
/// key occurred before, is dropped together with its distance.
pub fn rank_results(m: &SimilarityResponse, fetched: Vec<Drink>) -> (r: SimilarityExtendedResponse)
    requires
        m.wf(),
    ensures
        r.wf(),
        r.pairs() == ranked(m.pairs(), fetched@),
{
    let ghost pairs = m.pairs();
    let ghost orig = fetched@;
    let ghost keys = key_seq(m.uris@);
    proof {
        lemma_keys_of_pairs(*m);
        lemma_ranked_records(pairs, orig);
    }
    let (drinks, resolved) = restore_with_flags(&m.uris, fetched);
    let mut distances: Vec<u32> = Vec::new();
    let mut i: usize = 0;
    while i < m.uris.len()
        invariant
            m.wf(),
            pairs == m.pairs(),
            keys_of(pairs) == keys,
            keys == key_seq(m.uris@),
            i <= m.uris@.len(),
            resolved@.len() == m.uris@.len(),
            forall|i2: int|
                0 <= i2 < m.uris@.len() ==> #[trigger] resolved@[i2] == resolves_first(
                    keys,
                    orig,
                    i2,
                ),
            distances@ == ranked(pairs.take(i as int), orig).map_values(|e: (Drink, u32)| e.1),
        decreases m.uris@.len() - i,
    {
        let ghost prefix = pairs.take(i + 1);
        assert(prefix.drop_last() =~= pairs.take(i as int));
        assert(keys_of(pairs.take(i as int)) =~= keys.take(i as int));
        if resolved[i] {
            distances.push(m.distances[i]);
        }
        i = i + 1;
        assert(distances@ =~= ranked(pairs.take(i as int), orig).map_values(
            |e: (Drink, u32)| e.1,
        ));
    }
    assert(pairs.take(i as int) =~= pairs);
    let r = SimilarityExtendedResponse { drinks, distances };
    assert(r.pairs() =~= ranked(pairs, orig));
    r
}

} // verus!
