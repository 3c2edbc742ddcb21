//! Reading the answer of the vector index: keys from match metadata, with
//! the distance of each match, in rank order.
use crate::model::SimilarityResponse;
use vstd::prelude::*;

verus! {

/// A metadata value as the extraction reads it.
pub enum MetaValue {
    Text(String),
    /// Any non-text value.
    Other,
}

/// One field of a match's metadata.
pub struct MetaEntry {
    pub key: String,
    pub value: MetaValue,
}

/// The parts of a vector-index answer that the search reads, grouped per
/// query vector as the index returns them; distances as `f32` bit patterns.
pub struct QueryMatches {
    pub metadatas: Option<Vec<Vec<Option<Vec<MetaEntry>>>>>,
    pub distances: Option<Vec<Vec<u32>>>,
}

/// The groups concatenated.
pub open spec fn flat<T>(groups: Seq<Vec<T>>) -> Seq<T> {
    groups.map_values(|g: Vec<T>| g@).flatten()
}

/// The value of the first `uri` field among `entries`, when it is text.
pub open spec fn uri_in(entries: Seq<MetaEntry>) -> Option<Seq<char>>
    decreases entries.len(),
{
    if entries.len() == 0 {
        None
    } else if entries[0].key@ == "uri"@ {
        match entries[0].value {
            MetaValue::Text(s) => Some(s@),
            MetaValue::Other => None,
        }
    } else {
        uri_in(entries.drop_first())
    }
}

/// The key of a match: the text of its `uri` metadata field, if any.
pub open spec fn key_of(meta: Option<Vec<MetaEntry>>) -> Option<Seq<char>> {
    match meta {
        Some(entries) => uri_in(entries@),
        None => None,
    }
}

/// Matches paired with distances by position; a match without a key, or
/// without a distance, is left out.
pub open spec fn keyed(metas: Seq<Option<Vec<MetaEntry>>>, dists: Seq<u32>) -> Seq<
    (Seq<char>, u32),
>
    decreases metas.len(),
{
    if metas.len() == 0 {
        seq![]
    } else {
        let prev = keyed(metas.drop_last(), dists);
        let n = metas.len() - 1;
        if n < dists.len() && key_of(metas[n]) is Some {
            prev.push((key_of(metas[n])->0, dists[n]))
        } else {
            prev
        }
    }
}

/// All metadata of an answer, in rank order.
pub open spec fn all_metas(q: QueryMatches) -> Seq<Option<Vec<MetaEntry>>> {
    match q.metadatas {
        Some(g) => flat(g@),
        None => seq![],
    }
}

/// All distances of an answer, in rank order.
pub open spec fn all_distances(q: QueryMatches) -> Seq<u32> {
    match q.distances {
        Some(g) => flat(g@),
        None => seq![],
    }
}

/// The (key, distance) pairs that an answer yields.
pub open spec fn extracted(q: QueryMatches) -> Seq<(Seq<char>, u32)> {
    keyed(all_metas(q), all_distances(q))
}

/// `n`, or `cap` where `n` exceeds it.
spec fn capped(n: int, cap: int) -> int {
    if n < cap {
        n
    } else {
        cap
    }
}

proof fn lemma_flat_step<T>(groups: Seq<Vec<T>>, g: int)
    requires
        0 <= g < groups.len(),
    ensures
        flat(groups.take(g + 1)) == flat(groups.take(g)) + groups[g]@,
{
    let f = |v: Vec<T>| v@;
    assert(groups.take(g + 1) =~= groups.take(g).push(groups[g]));
    assert(groups.take(g + 1).map_values(f) =~= groups.take(g).map_values(f).push(groups[g]@));
    groups.take(g).map_values(f).lemma_flatten_push(groups[g]@);
}

/// The text of the first `uri` field of a match's metadata.
fn uri_of(meta: &Option<Vec<MetaEntry>>) -> (r: Option<String>)
    ensures
        r matches Some(s) ==> key_of(*meta) == Some(s@),
        r is None ==> key_of(*meta) is None,
{
    match meta {
        None => None,
        Some(entries) => {
            let uri_key: String = "uri".to_owned();
            let mut i: usize = 0;
            assert(entries@.skip(0) =~= entries@);
            while i < entries.len()
                invariant
                    i <= entries@.len(),
                    uri_key@ == "uri"@,
                    key_of(*meta) == uri_in(entries@),
                    uri_in(entries@) == uri_in(entries@.skip(i as int)),
                decreases entries@.len() - i,
            {
                assert(entries@.skip(i as int).drop_first() =~= entries@.skip(i + 1));
                assert(entries@.skip(i as int)[0] == entries@[i as int]);
                if entries[i].key == uri_key {
                    return match &entries[i].value {
                        MetaValue::Text(s) => Some(s.clone()),
                        MetaValue::Other => None,
                    };
                }
                i = i + 1;
            }
            assert(entries@.skip(i as int) =~= Seq::<MetaEntry>::empty());
            None
        },
    }
}

/// The distances of an answer, concatenated in rank order.
fn flat_distances(q: &QueryMatches) -> (r: Vec<u32>)
    ensures
        r@ == all_distances(*q),
{
    let mut out: Vec<u32> = Vec::new();
    match &q.distances {
        None => {},
        Some(groups) => {
            let mut g: usize = 0;
            while g < groups.len()
                invariant
                    g <= groups@.len(),
                    out@ == flat(groups@.take(g as int)),
                decreases groups@.len() - g,
            {
                let group = &groups[g];
                let mut j: usize = 0;
                while j < group.len()
                    invariant
                        g < groups@.len(),
                        *group == groups@[g as int],
                        j <= group@.len(),
                        out@ == flat(groups@.take(g as int)) + group@.take(j as int),
                    decreases group@.len() - j,
                {
                    out.push(group[j]);
                    j = j + 1;
                    assert(out@ =~= flat(groups@.take(g as int)) + group@.take(j as int));
                }
                proof {
                    lemma_flat_step(groups@, g as int);
                    assert(group@.take(j as int) =~= group@);
                }
                g = g + 1;
            }
            assert(groups@.take(g as int) =~= groups@);
        },
    }
    out
}

/// Extracts, in rank order, the key and the distance of each match.
///
/// The key of a match is the text of its `uri` metadata field. A match
/// without one is dropped together with its distance, so the two lists stay
/// aligned.
pub fn extract_uris_and_distances(q: &QueryMatches) -> (r: SimilarityResponse)
    ensures
        r.wf(),
        r.pairs() == extracted(*q),
{
    let dists = flat_distances(q);
    let mut uris: Vec<String> = Vec::new();
    let mut distances: Vec<u32> = Vec::new();
    let ghost metas = all_metas(*q);
    match &q.metadatas {
        None => {},
        Some(groups) => {
            let mut pos: usize = 0;
            let mut g: usize = 0;
            while g < groups.len()
                invariant
                    metas == flat(groups@),
                    dists@ == all_distances(*q),
                    g <= groups@.len(),
                    pos == capped(flat(groups@.take(g as int)).len() as int, dists@.len() as int),
                    uris@.len() == distances@.len(),
                    (SimilarityResponse { uris, distances }).pairs() == keyed(
                        flat(groups@.take(g as int)),
                        dists@,
                    ),
                decreases groups@.len() - g,
            {
                let group = &groups[g];
                let ghost before = flat(groups@.take(g as int));
                let mut j: usize = 0;
                while j < group.len()
                    invariant
                        g < groups@.len(),
                        *group == groups@[g as int],
                        before == flat(groups@.take(g as int)),
                        j <= group@.len(),
                        pos == capped(before.len() + j, dists@.len() as int),
                        dists@ == all_distances(*q),
                        uris@.len() == distances@.len(),
                        (SimilarityResponse { uris, distances }).pairs() == keyed(
                            before + group@.take(j as int),
                            dists@,
                        ),
                    decreases group@.len() - j,
                {
                    let ghost prefix = before + group@.take(j + 1);
                    assert(prefix.drop_last() =~= before + group@.take(j as int));
                    assert(prefix[prefix.len() - 1] == group@[j as int]);
                    let ghost old_pairs = (SimilarityResponse { uris, distances }).pairs();
                    if pos < dists.len() {
                        match uri_of(&group[j]) {
                            Some(k) => {
                                uris.push(k);
                                distances.push(dists[pos]);
                                assert((SimilarityResponse { uris, distances }).pairs()
                                    =~= old_pairs.push((key_of(group@[j as int])->0, dists@[pos as int])));
                            },
                            None => {},
                        }
                    }
                    j = j + 1;
                    if pos < dists.len() {
                        pos = pos + 1;
                    }
                }
                proof {
                    lemma_flat_step(groups@, g as int);
                    assert(group@.take(j as int) =~= group@);
                }
                g = g + 1;
            }
            assert(groups@.take(g as int) =~= groups@);
        },
    }
    SimilarityResponse { uris, distances }
}

} // verus!
