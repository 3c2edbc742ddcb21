use drink_search::categories::{taste_names, TasteCategories};
use drink_search::model::{
    DrinkQuery, FieldValue, LookupError, LookupMode, SimilarityExtendedResponse,
    SimilarityRequest, DEFAULT_RESULT_COUNT,
};

#[test]
fn missing_prompt_gives_no_request() {
    assert!(SimilarityRequest::from_fields(FieldValue::Absent, FieldValue::Unsigned(3)).is_none());
    let empty = SimilarityExtendedResponse::empty();
    assert!(empty.drinks.is_empty());
    assert!(empty.distances.is_empty());
}

#[test]
fn non_text_prompt_gives_no_request() {
    assert!(SimilarityRequest::from_fields(FieldValue::Unsigned(7), FieldValue::Absent).is_none());
    assert!(SimilarityRequest::from_fields(FieldValue::Other, FieldValue::Absent).is_none());
}

#[test]
fn count_defaults_to_ten() {
    let r = SimilarityRequest::from_fields(FieldValue::Text("sweet".to_string()), FieldValue::Absent)
        .unwrap();
    assert_eq!(r.prompt, "sweet");
    assert_eq!(r.n_results, 10);
    assert_eq!(DEFAULT_RESULT_COUNT, 10);
    let r = SimilarityRequest::from_fields(FieldValue::Text("x".to_string()), FieldValue::Other).unwrap();
    assert_eq!(r.n_results, 10);
    let r = SimilarityRequest::from_fields(
        FieldValue::Text("x".to_string()),
        FieldValue::Text("3".to_string()),
    )
    .unwrap();
    assert_eq!(r.n_results, 10);
}

#[test]
fn count_taken_from_request() {
    let r = SimilarityRequest::from_fields(FieldValue::Text("x".to_string()), FieldValue::Unsigned(3))
        .unwrap();
    assert_eq!(r.n_results, 3);
}

#[test]
fn zero_count_raised_to_one() {
    let r = SimilarityRequest::from_fields(FieldValue::Text("".to_string()), FieldValue::Unsigned(0))
        .unwrap();
    assert_eq!(r.prompt, "");
    assert_eq!(r.n_results, 1);
}

fn query(name: Option<&str>, url: Option<&str>, taste: Option<Vec<&str>>) -> DrinkQuery {
    DrinkQuery {
        name: name.map(|s| s.to_string()),
        drink_url: url.map(|s| s.to_string()),
        taste: taste.map(|v| v.into_iter().map(|s| s.to_string()).collect()),
    }
}

#[test]
fn lookup_mode_single_parameter() {
    match query(Some("Mojito"), None, None).lookup_mode() {
        Ok(LookupMode::ByName(n)) => assert_eq!(n, "Mojito"),
        _ => panic!("expected a lookup by name"),
    }
    match query(None, Some("u"), None).lookup_mode() {
        Ok(LookupMode::ByUrl(u)) => assert_eq!(u, "u"),
        _ => panic!("expected a lookup by url"),
    }
    match query(None, None, Some(vec!["SWEET", "SOUR"])).lookup_mode() {
        Ok(LookupMode::ByTastes(t)) => assert_eq!(t, vec!["SWEET", "SOUR"]),
        _ => panic!("expected a lookup by tastes"),
    }
    assert!(matches!(query(None, None, None).lookup_mode(), Ok(LookupMode::All)));
}

#[test]
fn lookup_mode_rejects_two_parameters() {
    assert!(matches!(
        query(Some("n"), Some("u"), None).lookup_mode(),
        Err(LookupError::TooManyParameters)
    ));
    assert!(matches!(
        query(Some("n"), None, Some(vec![])).lookup_mode(),
        Err(LookupError::TooManyParameters)
    ));
    assert!(matches!(
        query(Some("n"), Some("u"), Some(vec!["SWEET"])).lookup_mode(),
        Err(LookupError::TooManyParameters)
    ));
}

#[test]
fn taste_names_in_declaration_order() {
    let names = taste_names();
    assert_eq!(names.len(), 17);
    assert_eq!(names[0], "SWEET");
    assert_eq!(names[5], "FRUITY");
    assert_eq!(names[16], "MILKY");
    assert_eq!(TasteCategories::CITRUSY.as_str(), "CITRUSY");
    assert_eq!(TasteCategories::all().len(), 17);
}
