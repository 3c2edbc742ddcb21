use drink_search::chroma_utils::{extract_uris_and_distances, MetaEntry, MetaValue, QueryMatches};
use drink_search::model::{Drink, SimilarityResponse};
use drink_search::mongo_utils::order_by_urls;
use drink_search::pipeline::{dedup_matches, rank_results};
use std::collections::HashMap;

fn drink(name: &str, url: &str) -> Drink {
    let mut cluster = HashMap::new();
    cluster.insert("kmeans".to_string(), 3);
    let mut position = HashMap::new();
    position.insert("tsne".to_string(), vec![1.5f32.to_bits(), (-2.0f32).to_bits()]);
    Drink {
        name: name.to_string(),
        recipie: vec!["ice".to_string(), "rum".to_string()],
        category: "cocktail".to_string(),
        image_url: format!("https://img.example/{}.png", url),
        drink_url: url.to_string(),
        taste: vec!["FRUITY".to_string()],
        cluster,
        position,
    }
}

fn meta_uri(url: &str) -> Option<Vec<MetaEntry>> {
    Some(vec![
        MetaEntry { key: "title".to_string(), value: MetaValue::Text("x".to_string()) },
        MetaEntry { key: "uri".to_string(), value: MetaValue::Text(url.to_string()) },
    ])
}

fn bits(v: &[f32]) -> Vec<u32> {
    v.iter().map(|d| d.to_bits()).collect()
}

fn floats(v: &[u32]) -> Vec<f32> {
    v.iter().map(|d| f32::from_bits(*d)).collect()
}

fn response(keys: &[&str], dists: &[f32]) -> SimilarityResponse {
    SimilarityResponse {
        uris: keys.iter().map(|k| k.to_string()).collect(),
        distances: bits(dists),
    }
}

fn urls_of(drinks: &[Drink]) -> Vec<String> {
    drinks.iter().map(|d| d.drink_url.clone()).collect()
}

#[test]
fn end_to_end_tropical_and_fruity() {
    let answer = QueryMatches {
        metadatas: Some(vec![vec![meta_uri("mai-tai"), meta_uri("daiquiri"), meta_uri("ghost-key")]]),
        distances: Some(vec![bits(&[0.12, 0.15, 0.9])]),
    };
    let matches = dedup_matches(&extract_uris_and_distances(&answer));
    assert_eq!(matches.uris, vec!["mai-tai", "daiquiri", "ghost-key"]);
    // The store answers in an order of its own.
    let fetched = vec![drink("Daiquiri", "daiquiri"), drink("Mai Tai", "mai-tai")];
    let result = rank_results(&matches, fetched);
    assert_eq!(urls_of(&result.drinks), vec!["mai-tai", "daiquiri"]);
    assert_eq!(result.drinks[0].name, "Mai Tai");
    assert_eq!(result.drinks[1].name, "Daiquiri");
    assert_eq!(floats(&result.distances), vec![0.12f32, 0.15f32]);
}

#[test]
fn order_preserved_when_all_keys_resolve() {
    let matches = response(&["a", "b", "c", "d"], &[0.1, 0.2, 0.3, 0.4]);
    let fetched = vec![drink("D", "d"), drink("B", "b"), drink("A", "a"), drink("C", "c")];
    let result = rank_results(&matches, fetched);
    assert_eq!(urls_of(&result.drinks), vec!["a", "b", "c", "d"]);
    assert_eq!(floats(&result.distances), vec![0.1f32, 0.2, 0.3, 0.4]);
}

#[test]
fn dropped_key_drops_its_distance() {
    let matches = response(&["a", "missing", "c"], &[0.1, 0.5, 0.3]);
    let fetched = vec![drink("C", "c"), drink("A", "a")];
    let result = rank_results(&matches, fetched);
    assert_eq!(result.drinks.len(), result.distances.len());
    assert_eq!(urls_of(&result.drinks), vec!["a", "c"]);
    assert_eq!(floats(&result.distances), vec![0.1f32, 0.3]);
    assert!(!floats(&result.distances).contains(&0.5f32));
}

#[test]
fn repeated_key_kept_once_at_first_rank() {
    let matches = response(&["a", "b", "a", "c"], &[0.1, 0.2, 0.25, 0.3]);
    let fetched = vec![drink("A", "a"), drink("B", "b"), drink("C", "c")];
    let result = rank_results(&matches, fetched);
    assert_eq!(urls_of(&result.drinks), vec!["a", "b", "c"]);
    assert_eq!(floats(&result.distances), vec![0.1f32, 0.2, 0.3]);
}

#[test]
fn dedup_keeps_first_occurrence() {
    let matches = response(&["x", "y", "x", "y", "z"], &[1.0, 2.0, 3.0, 4.0, 5.0]);
    let deduped = dedup_matches(&matches);
    assert_eq!(deduped.uris, vec!["x", "y", "z"]);
    assert_eq!(floats(&deduped.distances), vec![1.0f32, 2.0, 5.0]);
}

#[test]
fn count_bounded_by_index_answer() {
    // Ten candidates exist; asked for three, the index answers with the best three.
    let all: Vec<String> = (0..10).map(|i| format!("drink-{}", i)).collect();
    let fetched: Vec<Drink> = all.iter().map(|u| drink(u, u)).collect();
    let matches = response(&["drink-4", "drink-0", "drink-7"], &[0.1, 0.2, 0.3]);
    let result = rank_results(&matches, fetched);
    assert_eq!(result.drinks.len(), 3);
    assert_eq!(result.distances.len(), 3);
    assert_eq!(urls_of(&result.drinks), vec!["drink-4", "drink-0", "drink-7"]);
}

#[test]
fn fewer_matches_than_asked_returns_all() {
    let matches = response(&["a", "b"], &[0.1, 0.2]);
    let fetched = vec![drink("A", "a"), drink("B", "b")];
    let result = rank_results(&matches, fetched);
    assert_eq!(urls_of(&result.drinks), vec!["a", "b"]);
}

#[test]
fn empty_matches_give_empty_result() {
    let result = rank_results(&response(&[], &[]), vec![drink("A", "a")]);
    assert!(result.drinks.is_empty());
    assert!(result.distances.is_empty());
}

#[test]
fn extraction_drops_match_without_uri() {
    let answer = QueryMatches {
        metadatas: Some(vec![vec![
            meta_uri("a"),
            Some(vec![MetaEntry { key: "title".to_string(), value: MetaValue::Text("t".to_string()) }]),
            None,
            Some(vec![MetaEntry { key: "uri".to_string(), value: MetaValue::Other }]),
            meta_uri("e"),
        ]]),
        distances: Some(vec![bits(&[0.1, 0.2, 0.3, 0.4, 0.5])]),
    };
    let r = extract_uris_and_distances(&answer);
    assert_eq!(r.uris, vec!["a", "e"]);
    assert_eq!(floats(&r.distances), vec![0.1f32, 0.5]);
}

#[test]
fn extraction_flattens_groups() {
    let answer = QueryMatches {
        metadatas: Some(vec![vec![meta_uri("a")], vec![], vec![meta_uri("b"), meta_uri("c")]]),
        distances: Some(vec![bits(&[0.1]), vec![], bits(&[0.2, 0.3])]),
    };
    let r = extract_uris_and_distances(&answer);
    assert_eq!(r.uris, vec!["a", "b", "c"]);
    assert_eq!(floats(&r.distances), vec![0.1f32, 0.2, 0.3]);
}

#[test]
fn extraction_without_metadata_or_distances() {
    let no_meta = QueryMatches { metadatas: None, distances: Some(vec![bits(&[0.1])]) };
    assert!(extract_uris_and_distances(&no_meta).uris.is_empty());
    let no_dist = QueryMatches { metadatas: Some(vec![vec![meta_uri("a")]]), distances: None };
    let r = extract_uris_and_distances(&no_dist);
    assert!(r.uris.is_empty());
    assert!(r.distances.is_empty());
}

#[test]
fn extraction_uses_first_uri_field() {
    let answer = QueryMatches {
        metadatas: Some(vec![vec![Some(vec![
            MetaEntry { key: "uri".to_string(), value: MetaValue::Text("first".to_string()) },
            MetaEntry { key: "uri".to_string(), value: MetaValue::Text("second".to_string()) },
        ])]]),
        distances: Some(vec![bits(&[0.7])]),
    };
    assert_eq!(extract_uris_and_distances(&answer).uris, vec!["first"]);
}

#[test]
fn order_by_urls_restores_input_order() {
    let urls = vec!["c".to_string(), "a".to_string(), "b".to_string()];
    let fetched = vec![drink("A", "a"), drink("B", "b"), drink("C", "c")];
    assert_eq!(urls_of(&order_by_urls(&urls, fetched)), vec!["c", "a", "b"]);
}

#[test]
fn order_by_urls_skips_missing_and_repeated() {
    let urls = vec!["a".to_string(), "zz".to_string(), "a".to_string(), "b".to_string()];
    let fetched = vec![drink("B", "b"), drink("A", "a")];
    assert_eq!(urls_of(&order_by_urls(&urls, fetched)), vec!["a", "b"]);
}

#[test]
fn order_by_urls_keeps_last_fetched_of_shared_key() {
    let urls = vec!["a".to_string()];
    let fetched = vec![drink("Old", "a"), drink("New", "a")];
    let out = order_by_urls(&urls, fetched);
    assert_eq!(out.len(), 1);
    assert_eq!(out[0].name, "New");
}

#[test]
fn dedup_before_lookup_changes_nothing() {
    let matches = response(&["b", "a", "b", "gone", "a"], &[0.1, 0.2, 0.3, 0.4, 0.5]);
    let direct = rank_results(&matches, vec![drink("A", "a"), drink("B", "b")]);
    let deduped = rank_results(&dedup_matches(&matches), vec![drink("A", "a"), drink("B", "b")]);
    assert_eq!(urls_of(&direct.drinks), vec!["b", "a"]);
    assert_eq!(urls_of(&deduped.drinks), urls_of(&direct.drinks));
    assert_eq!(floats(&direct.distances), vec![0.1f32, 0.2]);
    assert_eq!(floats(&deduped.distances), floats(&direct.distances));
}
