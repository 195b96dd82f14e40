use rdfless::{parse_for_estimation, InputFormat, ObjectType, SubjectType};

#[test]
fn test_rdf_star_turtle_parsing() {
    let input = "\n@prefix ex: <https://example.org/> .\n@prefix foaf: <http://xmlns.com/foaf/0.1/> .\n\nex:alice foaf:name \"Alice\" .\n<< ex:alice foaf:name \"Alice\" >> ex:source ex:wikipedia .\n";

    let result = parse_for_estimation(input, InputFormat::Turtle);

    assert!(result.is_ok(), "Parse error: {:?}", result.as_ref().err());
    let (triples, prefixes) = result.unwrap();

    // With RDF 1.2, quoted triple usage is represented via a reifier blank node + rdf:reifies
    // Hence we expect 3 triples: the base triple, the reifier mapping, and the linking triple
    assert_eq!(triples.len(), 3);

    // Check that we extracted the expected prefixes
    assert_eq!(prefixes.len(), 2);
    assert_eq!(prefixes.get("ex"), Some("https://example.org/".to_string()));
    assert_eq!(
        prefixes.get("foaf"),
        Some("http://xmlns.com/foaf/0.1/".to_string())
    );

    // Find the rdf:reifies mapping triple _:r rdf:reifies << ex:alice foaf:name "Alice" >>
    let reifies_iri = "http://www.w3.org/1999/02/22-rdf-syntax-ns#reifies";
    let reifies = triples.iter().find(|t| t.predicate == reifies_iri);
    assert!(reifies.is_some());
    let reifies = reifies.unwrap();
    assert_eq!(reifies.subject_type, SubjectType::BlankNode);
    assert_eq!(reifies.object_type, ObjectType::Triple);
    let embedded = reifies.object_triple.as_ref().unwrap();
    assert_eq!(embedded.subject_value, "https://example.org/alice");
    assert_eq!(embedded.predicate, "http://xmlns.com/foaf/0.1/name");
    assert_eq!(embedded.object_value, "Alice");

    // And the linking triple uses the same reifier as subject: _:r ex:source ex:wikipedia
    let link = triples.iter().find(|t| {
        t.subject_type == SubjectType::BlankNode
            && t.subject_value == reifies.subject_value
            && t.predicate == "https://example.org/source"
            && t.object_value == "https://example.org/wikipedia"
    });
    assert!(link.is_some());
}

#[test]
fn test_rdf_star_trig_parsing() {
    let input = "\n@prefix ex: <https://example.org/> .\n@prefix foaf: <http://xmlns.com/foaf/0.1/> .\n\n{\n    ex:alice foaf:name \"Alice\" .\n    << ex:alice foaf:name \"Alice\" >> ex:source ex:wikipedia .\n}\n";

    let result = parse_for_estimation(input, InputFormat::TriG);

    assert!(result.is_ok());
    let (triples, prefixes) = result.unwrap();

    // Expect 3 triples with RDF 1.2 reification mapping
    assert_eq!(triples.len(), 3);

    // Check that we extracted the expected prefixes
    assert_eq!(prefixes.len(), 2);

    // Find reifier mapping
    let reifies_iri = "http://www.w3.org/1999/02/22-rdf-syntax-ns#reifies";
    let reifies = triples.iter().find(|t| t.predicate == reifies_iri);
    assert!(reifies.is_some());
}

#[test]
fn test_rdf_star_object_position() {
    let input = "\n@prefix ex: <https://example.org/> .\n@prefix foaf: <http://xmlns.com/foaf/0.1/> .\n\nex:alice foaf:name \"Alice\" .\nex:statement ex:about << ex:alice foaf:name \"Alice\" >> .\n";

    let result = parse_for_estimation(input, InputFormat::Turtle);

    assert!(result.is_ok());
    let (triples, _) = result.unwrap();

    // Expect 3 triples with RDF 1.2 reification mapping
    assert_eq!(triples.len(), 3);

    // Find the rdf:reifies mapping triple _:r rdf:reifies << ex:alice foaf:name "Alice" >>
    let reifies_iri = "http://www.w3.org/1999/02/22-rdf-syntax-ns#reifies";
    let reifies = triples.iter().find(|t| t.predicate == reifies_iri).unwrap();
    assert_eq!(reifies.object_type, ObjectType::Triple);
    let embedded = reifies.object_triple.as_ref().unwrap();
    assert_eq!(embedded.subject_value, "https://example.org/alice");
    assert_eq!(embedded.predicate, "http://xmlns.com/foaf/0.1/name");
    assert_eq!(embedded.object_value, "Alice");

    // And the main triple points to the reifier as object: ex:statement ex:about _:r
    let link = triples.iter().find(|t| {
        t.subject_value == "https://example.org/statement"
            && t.predicate == "https://example.org/about"
            && t.object_type == ObjectType::BlankNode
            && t.object_value == reifies.subject_value
    });
    assert!(link.is_some());
}
