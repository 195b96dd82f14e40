use rdfless::prefix_map::PrefixMap;
use rdfless::{ObjectType, OwnedTriple, SubjectType, TripleFilter};

fn create_test_triple(subject: &str, predicate: &str, object: &str) -> OwnedTriple {
    OwnedTriple {
        subject_type: SubjectType::NamedNode,
        subject_value: subject.to_string(),
        predicate: predicate.to_string(),
        object_type: ObjectType::Literal,
        object_value: object.to_string(),
        object_datatype: None,
        object_language: None,
        graph: None,
        subject_triple: None,
        object_triple: None,
    }
}

#[test]
fn test_empty_filter() {
    let filter = TripleFilter::new(None, None, None);
    assert!(filter.is_empty());

    let triples = vec![create_test_triple(
        "https://example.org/subject",
        "https://example.org/predicate",
        "object",
    )];
    let prefixes = PrefixMap::new();

    let filtered = filter.filter_triples(&triples, &prefixes);
    assert_eq!(filtered.len(), 1);
}

#[test]
fn test_subject_filter() {
    let filter = TripleFilter::new(Some("https://example.org/subject"), None, None);
    let triples = vec![
        create_test_triple(
            "https://example.org/subject",
            "https://example.org/predicate",
            "object1",
        ),
        create_test_triple(
            "https://example.org/other",
            "https://example.org/predicate",
            "object2",
        ),
    ];
    let prefixes = PrefixMap::new();

    let filtered = filter.filter_triples(&triples, &prefixes);
    assert_eq!(filtered.len(), 1);
    assert_eq!(filtered[0].object_value, "object1");
}

#[test]
fn test_prefixed_filter() {
    let mut prefixes = PrefixMap::new();
    prefixes.insert("ex".to_string(), "https://example.org/".to_string());

    let filter = TripleFilter::new(Some("ex:subject"), None, None);
    let triples = vec![
        create_test_triple(
            "https://example.org/subject",
            "https://example.org/predicate",
            "object1",
        ),
        create_test_triple(
            "https://example.org/other",
            "https://example.org/predicate",
            "object2",
        ),
    ];

    let filtered = filter.filter_triples(&triples, &prefixes);
    assert_eq!(filtered.len(), 1);
    assert_eq!(filtered[0].object_value, "object1");
}

#[test]
fn test_multiple_filters() {
    let mut prefixes = PrefixMap::new();
    prefixes.insert("ex".to_string(), "https://example.org/".to_string());

    let filter = TripleFilter::new(Some("ex:subject"), Some("ex:predicate"), Some("target"));
    let triples = vec![
        create_test_triple(
            "https://example.org/subject",
            "https://example.org/predicate",
            "target",
        ),
        create_test_triple(
            "https://example.org/subject",
            "https://example.org/predicate",
            "other",
        ),
        create_test_triple(
            "https://example.org/other",
            "https://example.org/predicate",
            "target",
        ),
    ];

    let filtered = filter.filter_triples(&triples, &prefixes);
    assert_eq!(filtered.len(), 1);
    assert_eq!(filtered[0].object_value, "target");
}

#[test]
fn test_unknown_prefix_degrades_to_no_match() {
    let prefixes = PrefixMap::new();
    let filter = TripleFilter::new(Some("ex:subject"), None, None);
    let triples = vec![create_test_triple(
        "https://example.org/subject",
        "https://example.org/predicate",
        "object1",
    )];
    let filtered = filter.filter_triples(&triples, &prefixes);
    assert_eq!(filtered.len(), 0);
}

#[test]
fn test_angle_bracket_filter() {
    let prefixes = PrefixMap::new();
    let filter = TripleFilter::new(Some("<https://example.org/subject>"), None, None);
    let triples = vec![
        create_test_triple(
            "https://example.org/subject",
            "https://example.org/predicate",
            "object1",
        ),
        create_test_triple(
            "https://example.org/other",
            "https://example.org/predicate",
            "object2",
        ),
    ];
    let filtered = filter.filter_triples(&triples, &prefixes);
    assert_eq!(filtered.len(), 1);
    assert_eq!(filtered[0].object_value, "object1");
}

#[test]
fn test_object_filter_matches_literal_text() {
    let prefixes = PrefixMap::new();
    let filter = TripleFilter::new(None, None, Some("object2"));
    let triples = vec![
        create_test_triple(
            "https://example.org/subject",
            "https://example.org/predicate",
            "object1",
        ),
        create_test_triple(
            "https://example.org/other",
            "https://example.org/predicate",
            "object2",
        ),
    ];
    let filtered = filter.filter_triples(&triples, &prefixes);
    assert_eq!(filtered.len(), 1);
    assert_eq!(filtered[0].subject_value, "https://example.org/other");
}
