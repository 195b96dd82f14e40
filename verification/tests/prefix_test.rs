use rdfless::extract_prefixes;
use rdfless::parse_for_estimation;
use rdfless::prefix_map::PrefixMap;
use rdfless::InputFormat;

fn assert_map_is(prefixes: &PrefixMap, expected: &[(&str, &str)]) {
    assert_eq!(prefixes.len(), expected.len());
    for (name, iri) in expected {
        assert_eq!(prefixes.get(name), Some(iri.to_string()));
    }
}

#[test]
fn test_extract_turtle_prefixes() {
    let input = "\n@prefix ex: <https://example.org/> .\n@prefix foaf: <http://xmlns.com/foaf/0.1/> .\n@prefix rdf: <http://www.w3.org/1999/02/22-rdf-syntax-ns#> .\n\nex:Person a foaf:Person .\nex:Person foaf:name \"John Doe\" .\n";

    let prefixes = extract_prefixes(input);

    assert_map_is(
        &prefixes,
        &[
            ("ex", "https://example.org/"),
            ("foaf", "http://xmlns.com/foaf/0.1/"),
            ("rdf", "http://www.w3.org/1999/02/22-rdf-syntax-ns#"),
        ],
    );
}

#[test]
fn test_extract_sparql_prefixes() {
    let input = "\nPREFIX ex: <https://example.org/>\nPREFIX foaf: <http://xmlns.com/foaf/0.1/>\nPREFIX rdf: <http://www.w3.org/1999/02/22-rdf-syntax-ns#>\n\nex:Person a foaf:Person .\nex:Person foaf:name \"John Doe\" .\n";

    let prefixes = extract_prefixes(input);

    assert_map_is(
        &prefixes,
        &[
            ("ex", "https://example.org/"),
            ("foaf", "http://xmlns.com/foaf/0.1/"),
            ("rdf", "http://www.w3.org/1999/02/22-rdf-syntax-ns#"),
        ],
    );
}

#[test]
fn test_extract_mixed_prefixes() {
    let input = "\n@prefix ex: <https://example.org/> .\nPREFIX foaf: <http://xmlns.com/foaf/0.1/>\n@prefix rdf: <http://www.w3.org/1999/02/22-rdf-syntax-ns#> .\n\nex:Person a foaf:Person .\nex:Person foaf:name \"John Doe\" .\n";

    let prefixes = extract_prefixes(input);

    assert_map_is(
        &prefixes,
        &[
            ("ex", "https://example.org/"),
            ("foaf", "http://xmlns.com/foaf/0.1/"),
            ("rdf", "http://www.w3.org/1999/02/22-rdf-syntax-ns#"),
        ],
    );
}

#[test]
fn test_extract_base_declaration() {
    let input = "\n@base <https://example.org/> .\n@prefix ex: <person/> .\n\nex:Person a <type/Person> .\n";

    let prefixes = extract_prefixes(input);

    // Base IRI stored with empty prefix
    assert_map_is(&prefixes, &[("", "https://example.org/"), ("ex", "person/")]);
}

#[test]
fn test_extract_prefixes_with_comments() {
    let input = "\n# This is a comment\n@prefix ex: <https://example.org/> .\n# Another comment\n@prefix foaf: <http://xmlns.com/foaf/0.1/> .\n\nex:Person a foaf:Person .\n";

    let prefixes = extract_prefixes(input);

    assert_map_is(
        &prefixes,
        &[
            ("ex", "https://example.org/"),
            ("foaf", "http://xmlns.com/foaf/0.1/"),
        ],
    );
}

#[test]
fn test_extract_prefixes_empty_input() {
    let input = "";
    let prefixes = extract_prefixes(input);
    assert!(prefixes.is_empty());
}

#[test]
fn test_extract_prefixes_no_prefixes() {
    let input = "\n<https://example.org/person> <http://www.w3.org/1999/02/22-rdf-syntax-ns#type> <http://xmlns.com/foaf/0.1/Person> .\n";

    let prefixes = extract_prefixes(input);
    assert!(prefixes.is_empty());
}

#[test]
fn test_extract_relative_prefix_sparql_syntax() {
    let input = "\nPREFIX : <#>\nPREFIX ex: <https://example.org/>\n\nex:Person a :Person .\n";

    let prefixes = extract_prefixes(input);

    assert_map_is(&prefixes, &[("", "#"), ("ex", "https://example.org/")]);
}

#[test]
fn test_extract_relative_prefix_turtle_syntax() {
    let input = "\n@prefix : <#> .\n@prefix ex: <https://example.org/> .\n\nex:Person a :Person .\n";

    let prefixes = extract_prefixes(input);

    assert_map_is(&prefixes, &[("", "#"), ("ex", "https://example.org/")]);
}

#[test]
fn test_parse_turtle_with_relative_prefix_sparql_syntax() {
    let input = "\nPREFIX : <#>\nPREFIX ex: <https://example.org/>\n\nex:Person a :Person .\n";

    let result = parse_for_estimation(input, InputFormat::Turtle);

    assert!(
        result.is_ok(),
        "Failed to parse Turtle with relative prefix IRI: {:?}",
        result.err()
    );

    let (triples, _prefixes) = result.unwrap();
    assert_eq!(triples.len(), 1);
}

#[test]
fn test_parse_turtle_with_relative_prefix_turtle_syntax() {
    let input = "\n@prefix : <#> .\n@prefix ex: <https://example.org/> .\n\nex:Person a :Person .\n";

    let result = parse_for_estimation(input, InputFormat::Turtle);

    assert!(
        result.is_ok(),
        "Failed to parse Turtle with relative prefix IRI: {:?}",
        result.err()
    );

    let (triples, _prefixes) = result.unwrap();
    assert_eq!(triples.len(), 1);
}
