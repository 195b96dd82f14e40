use rdfless::{parse_for_estimation, InputFormat, ObjectType};

#[test]
fn test_parenthesized_triple_term_object() {
    let input = "\n@prefix ex: <https://example.org/> .\n@prefix foaf: <http://xmlns.com/foaf/0.1/> .\n\nex:alice foaf:name \"Alice\" .\nex:statement ex:about <<( ex:alice foaf:name \"Alice\" )>> .\n";

    let (triples, _prefixes) = parse_for_estimation(input, InputFormat::Turtle).unwrap();

    // Expect 2 triples: base triple and the triple-term usage (no implicit reifier mapping)
    assert_eq!(triples.len(), 2);

    let tt = triples
        .iter()
        .find(|t| t.predicate == "https://example.org/about")
        .unwrap();
    assert_eq!(tt.subject_value, "https://example.org/statement");
    assert_eq!(tt.object_type, ObjectType::Triple);
    let embedded = tt.object_triple.as_ref().unwrap();
    assert_eq!(embedded.subject_value, "https://example.org/alice");
    assert_eq!(embedded.predicate, "http://xmlns.com/foaf/0.1/name");
    assert_eq!(embedded.object_value, "Alice");
}

#[test]
fn test_rdf12_annotation_with_named_reifier() {
    let input = "\n@prefix : <http://example/> .\n@prefix xsd: <http://www.w3.org/2001/XMLSchema#> .\n\n:a :name \"Alice\" ~ :t {| :statedBy :bob ; :recorded \"2021-07-07\"^^xsd:date |} .\n";

    let (triples, _prefixes) = parse_for_estimation(input, InputFormat::Turtle).unwrap();

    // Expect 4 triples:
    // 1) base data triple (:a :name "Alice")
    // 2) :t rdf:reifies << :a :name "Alice" >>
    // 3) :t :statedBy :bob
    // 4) :t :recorded "2021-07-07"^^xsd:date
    assert_eq!(triples.len(), 4);

    // Base triple
    assert!(triples.iter().any(|t| {
        t.subject_value == "http://example/a"
            && t.predicate == "http://example/name"
            && t.object_type == ObjectType::Literal
            && t.object_value == "Alice"
    }));

    // Reifier mapping
    let reif = triples
        .iter()
        .find(|t| {
            t.subject_value == "http://example/t"
                && t.predicate == "http://www.w3.org/1999/02/22-rdf-syntax-ns#reifies"
        })
        .expect("reifier triple not found");
    assert_eq!(reif.object_type, ObjectType::Triple);
    let emb = reif.object_triple.as_ref().expect("embedded triple missing");
    assert_eq!(emb.subject_value, "http://example/a");
    assert_eq!(emb.predicate, "http://example/name");
    assert_eq!(emb.object_value, "Alice");

    // Annotation facts
    assert!(triples.iter().any(|t| {
        t.subject_value == "http://example/t"
            && t.predicate == "http://example/statedBy"
            && t.object_type == ObjectType::NamedNode
            && t.object_value == "http://example/bob"
    }));

    let rec = triples
        .iter()
        .find(|t| t.subject_value == "http://example/t" && t.predicate == "http://example/recorded")
        .expect(":recorded triple not found");
    assert_eq!(rec.object_value, "2021-07-07");
    assert_eq!(
        rec.object_datatype.as_deref(),
        Some("http://www.w3.org/2001/XMLSchema#date")
    );
}

#[test]
fn test_trig_annotation_with_named_reifier_in_graph() {
    let input = "\n@prefix : <http://example/> .\n@prefix xsd: <http://www.w3.org/2001/XMLSchema#> .\n\n:g {\n  :a :name \"Alice\" ~ :t {| :statedBy :bob ; :recorded \"2021-07-07\"^^xsd:date |} .\n}\n";

    let (triples, _prefixes) = parse_for_estimation(input, InputFormat::TriG).unwrap();

    // Expect 4 triples in graph :g
    assert_eq!(triples.len(), 4);

    // All triples should be tagged with the same graph
    for t in &triples {
        assert_eq!(t.graph.as_deref(), Some("http://example/g"));
    }

    // Base triple
    assert!(triples.iter().any(|t| {
        t.subject_value == "http://example/a"
            && t.predicate == "http://example/name"
            && t.object_type == ObjectType::Literal
            && t.object_value == "Alice"
            && t.graph.as_deref() == Some("http://example/g")
    }));

    // Reifier mapping
    let reif = triples
        .iter()
        .find(|t| {
            t.subject_value == "http://example/t"
                && t.predicate == "http://www.w3.org/1999/02/22-rdf-syntax-ns#reifies"
        })
        .expect("reifier triple not found");
    assert_eq!(reif.graph.as_deref(), Some("http://example/g"));
    assert_eq!(reif.object_type, ObjectType::Triple);
    let emb = reif.object_triple.as_ref().expect("embedded triple missing");
    assert_eq!(emb.subject_value, "http://example/a");
    assert_eq!(emb.predicate, "http://example/name");
    assert_eq!(emb.object_value, "Alice");

    // Annotation facts
    assert!(triples.iter().any(|t| {
        t.subject_value == "http://example/t"
            && t.predicate == "http://example/statedBy"
            && t.object_type == ObjectType::NamedNode
            && t.object_value == "http://example/bob"
            && t.graph.as_deref() == Some("http://example/g")
    }));

    let rec = triples
        .iter()
        .find(|t| t.subject_value == "http://example/t" && t.predicate == "http://example/recorded")
        .expect(":recorded triple not found");
    assert_eq!(rec.graph.as_deref(), Some("http://example/g"));
    assert_eq!(rec.object_value, "2021-07-07");
    assert_eq!(
        rec.object_datatype.as_deref(),
        Some("http://www.w3.org/2001/XMLSchema#date")
    );
}
