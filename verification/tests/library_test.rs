use rdfless::formatter::compact::strip_ansi_codes;
use rdfless::prefix_map::PrefixMap;
use rdfless::{
    detect_format_from_path,
    estimate_output_lines,
    format_object,
    group_by_graph,
    parse_for_estimation,
    parse_robust,
    render_output,
    resolve_uri_with_prefixes,
    should_use_pager,
    ColorConfig,
    InputFormat,
    ObjectType,
    OwnedTriple,
    SubjectType,
};

fn literal_triple(subject: &str, predicate: &str, object: &str) -> OwnedTriple {
    OwnedTriple {
        subject_type: SubjectType::NamedNode,
        subject_value: subject.to_string(),
        predicate: predicate.to_string(),
        object_type: ObjectType::Literal,
        object_value: object.to_string(),
        object_datatype: None,
        object_language: None,
        graph: None,
        subject_triple: None,
        object_triple: None,
    }
}

#[test]
fn strict_and_lenient_agree_on_valid_ntriples() {
    let input = "<https://example.org/a> <https://example.org/p> \"one\" .\n<https://example.org/b> <https://example.org/p> \"two\" .\n<https://example.org/c> <https://example.org/p> \"three\" .\n";
    let strict = parse_robust(input, InputFormat::NTriples, false).unwrap();
    let lenient = parse_robust(input, InputFormat::NTriples, true).unwrap();
    assert_eq!(strict.errors.len(), 0);
    assert_eq!(lenient.errors.len(), 0);
    assert_eq!(strict.triples.len(), lenient.triples.len());
    for (a, b) in strict.triples.iter().zip(lenient.triples.iter()) {
        assert_eq!(a.subject_value, b.subject_value);
        assert_eq!(a.predicate, b.predicate);
        assert_eq!(a.object_value, b.object_value);
    }
}

#[test]
fn strict_and_lenient_agree_on_valid_turtle() {
    let input = "@prefix ex: <https://example.org/> .\nex:a ex:p \"one\" .\nex:b ex:p \"two\" .\n";
    let strict = parse_robust(input, InputFormat::Turtle, false).unwrap();
    let lenient = parse_robust(input, InputFormat::Turtle, true).unwrap();
    assert_eq!(strict.errors.len(), 0);
    assert_eq!(lenient.errors.len(), 0);
    assert_eq!(strict.triples.len(), lenient.triples.len());
    for (a, b) in strict.triples.iter().zip(lenient.triples.iter()) {
        assert_eq!(a.subject_value, b.subject_value);
        assert_eq!(a.predicate, b.predicate);
        assert_eq!(a.object_value, b.object_value);
    }
}

#[test]
fn lenient_ntriples_recovers_around_malformed_lines() {
    let input = "<https://example.org/a> <https://example.org/p> \"one\" .\nthis is not a triple\n<https://example.org/b> <https://example.org/p> \"two\" .\nneither is this\n<https://example.org/c> <https://example.org/p> \"three\" .\n";
    let result = parse_robust(input, InputFormat::NTriples, true).unwrap();
    assert_eq!(result.triple_count(), 3);
    assert_eq!(result.error_count(), 2);
    assert_eq!(result.errors[0].line, 2);
    assert_eq!(result.errors[1].line, 4);
    assert!(result.has_errors());
}

#[test]
fn strict_ntriples_fails_on_malformed_line() {
    let input = "<https://example.org/a> <https://example.org/p> \"one\" .\nbroken line\n";
    let result = parse_robust(input, InputFormat::NTriples, false);
    assert!(result.is_err());
}

#[test]
fn pager_explicit_disable_always_wins() {
    assert!(!should_use_pager(true, true, true, 1, 50, 1000));
    assert!(!should_use_pager(true, false, true, 0, 50, 1000));
    assert!(!should_use_pager(true, true, false, 0, 2, 0));
}

#[test]
fn pager_explicit_enable_wins_when_not_disabled() {
    assert!(should_use_pager(false, true, false, 0, 50, 0));
    assert!(should_use_pager(false, true, true, 1000, 50, 0));
}

#[test]
fn pager_auto_threshold() {
    // auto-paging off: never page
    assert!(!should_use_pager(false, false, false, 0, 50, 1000));
    // explicit threshold of 10: page only above it
    assert!(!should_use_pager(false, false, true, 10, 50, 10));
    assert!(should_use_pager(false, false, true, 10, 50, 11));
    // zero threshold: terminal height minus the prompt margin
    assert!(!should_use_pager(false, false, true, 0, 24, 22));
    assert!(should_use_pager(false, false, true, 0, 24, 23));
}

#[test]
fn typed_integer_literal_renders_bare_in_compact_mode() {
    let mut triple = literal_triple("https://example.org/alice", "https://example.org/age", "30");
    triple.object_datatype = Some("http://www.w3.org/2001/XMLSchema#integer".to_string());
    let prefixes = PrefixMap::new();
    let colors = ColorConfig::no_color();

    let compact = format_object(&triple, Some(&prefixes), &colors);
    assert_eq!(compact, "30");

    let expanded = format_object(&triple, None, &colors);
    assert_eq!(
        expanded,
        "\"30\"^^<http://www.w3.org/2001/XMLSchema#integer>"
    );
}

#[test]
fn language_literal_renders_with_tag() {
    let mut triple = literal_triple("https://example.org/a", "https://example.org/p", "chat");
    triple.object_language = Some("fr".to_string());
    let colors = ColorConfig::no_color();
    let out = format_object(&triple, None, &colors);
    assert_eq!(out, "\"chat\"@fr");
}

#[test]
fn date_literal_keeps_full_suffix_in_compact_mode() {
    let mut triple = literal_triple("https://example.org/a", "https://example.org/p", "2021-07-07");
    triple.object_datatype = Some("http://www.w3.org/2001/XMLSchema#date".to_string());
    let prefixes = PrefixMap::new();
    let colors = ColorConfig::no_color();
    let out = format_object(&triple, Some(&prefixes), &colors);
    assert_eq!(
        out,
        "\"2021-07-07\"^^<http://www.w3.org/2001/XMLSchema#date>"
    );
}

#[test]
fn date_literal_suffix_stays_expanded_with_declared_prefix() {
    let mut triple = literal_triple("https://example.org/a", "https://example.org/p", "2021-07-07");
    triple.object_datatype = Some("http://www.w3.org/2001/XMLSchema#date".to_string());
    let mut prefixes = PrefixMap::new();
    prefixes.insert(
        "xsd".to_string(),
        "http://www.w3.org/2001/XMLSchema#".to_string(),
    );
    let colors = ColorConfig::no_color();
    let out = format_object(&triple, Some(&prefixes), &colors);
    assert_eq!(
        out,
        "\"2021-07-07\"^^<http://www.w3.org/2001/XMLSchema#date>"
    );
}

#[test]
fn end_to_end_compact_rendering() {
    let input = "@prefix ex: <https://example.org/> .\nex:alice ex:name \"Alice\" .\nex:alice ex:age \"30\" .";
    let (triples, prefixes) = parse_for_estimation(input, InputFormat::Turtle).unwrap();
    let colors = ColorConfig::no_color();
    let mut out = String::new();
    render_output(&triples, &prefixes, false, &colors, 80, &mut out);
    assert_eq!(
        out,
        "PREFIX ex: <https://example.org/> .\n\nex:alice ex:name \"Alice\" ;\n    ex:age \"30\" .\n"
    );
}

#[test]
fn compact_rendering_folds_by_width() {
    let triples = vec![literal_triple(
        "https://example.org/subject",
        "https://example.org/predicate",
        "value",
    )];
    let prefixes = PrefixMap::new();
    let colors = ColorConfig::no_color();
    let mut narrow = String::new();
    render_output(&triples, &prefixes, false, &colors, 10, &mut narrow);
    assert_eq!(
        narrow,
        "<https://example.org/subject> <https://example.org/predicate> ;\n    \"value\" .\n"
    );
    let mut wide = String::new();
    render_output(&triples, &prefixes, false, &colors, 200, &mut wide);
    assert_eq!(
        wide,
        "<https://example.org/subject> <https://example.org/predicate> \"value\" .\n"
    );
}

#[test]
fn default_graph_renders_before_named_graphs_in_order() {
    let mut in_default = literal_triple("https://example.org/s", "https://example.org/p", "d");
    in_default.graph = None;
    let mut in_zzz = literal_triple("https://example.org/s", "https://example.org/p", "z");
    in_zzz.graph = Some("https://example.org/zzz".to_string());
    let mut in_aaa = literal_triple("https://example.org/s", "https://example.org/p", "a");
    in_aaa.graph = Some("https://example.org/aaa".to_string());

    let groups = group_by_graph(&[in_zzz, in_default, in_aaa]);
    assert_eq!(groups.len(), 3);
    assert_eq!(groups[0].0, None);
    assert_eq!(groups[1].0, Some("https://example.org/aaa".to_string()));
    assert_eq!(groups[2].0, Some("https://example.org/zzz".to_string()));
    assert_eq!(groups[0].1[0].object_value, "d");
    assert_eq!(groups[1].1[0].object_value, "a");
    assert_eq!(groups[2].1[0].object_value, "z");
}

#[test]
fn expanded_rendering_shows_full_iris() {
    let input = "@prefix ex: <https://example.org/> .\nex:alice ex:name \"Alice\" .";
    let (triples, prefixes) = parse_for_estimation(input, InputFormat::Turtle).unwrap();
    let colors = ColorConfig::no_color();
    let mut out = String::new();
    render_output(&triples, &prefixes, true, &colors, 80, &mut out);
    assert_eq!(
        out,
        "<https://example.org/alice>\n    <https://example.org/name>\n        \"Alice\" .\n"
    );
}

#[test]
fn estimate_counts_subject_blocks() {
    let triples = vec![
        literal_triple("https://example.org/a", "https://example.org/p", "one"),
        literal_triple("https://example.org/a", "https://example.org/q", "two"),
        literal_triple("https://example.org/b", "https://example.org/p", "three"),
    ];
    let prefixes = PrefixMap::new();
    // two subjects: 3 + 2 extra for the second pair, 3 for the other,
    // one blank line between them
    assert_eq!(estimate_output_lines(&triples, &prefixes, false), 9);
    let mut with_prefix = PrefixMap::new();
    with_prefix.insert("ex".to_string(), "https://example.org/".to_string());
    // one PREFIX line and the separating blank line on top
    assert_eq!(estimate_output_lines(&triples, &with_prefix, false), 11);
    // expanded mode drops the prefix block
    assert_eq!(estimate_output_lines(&triples, &with_prefix, true), 9);
}

#[test]
fn estimate_counts_named_graph_framing() {
    let mut t = literal_triple("https://example.org/a", "https://example.org/p", "one");
    t.graph = Some("https://example.org/g".to_string());
    let prefixes = PrefixMap::new();
    // one subject block of three lines plus the graph's three framing lines
    assert_eq!(estimate_output_lines(&[t], &prefixes, false), 6);
}

#[test]
fn resolve_uses_first_covering_namespace() {
    let mut pm = PrefixMap::new();
    pm.insert("ex".to_string(), "https://example.org/".to_string());
    assert_eq!(
        resolve_uri_with_prefixes("https://example.org/alice", Some(&pm)),
        "ex:alice"
    );
    assert_eq!(
        resolve_uri_with_prefixes("https://other.org/alice", Some(&pm)),
        "<https://other.org/alice>"
    );
    assert_eq!(
        resolve_uri_with_prefixes("https://example.org/alice", None),
        "<https://example.org/alice>"
    );
}

#[test]
fn prefix_map_last_write_wins() {
    let mut pm = PrefixMap::new();
    pm.insert("ex".to_string(), "https://one.example/".to_string());
    pm.insert("ex".to_string(), "https://two.example/".to_string());
    assert_eq!(pm.len(), 1);
    assert_eq!(pm.get("ex"), Some("https://two.example/".to_string()));
}

#[test]
fn detect_format_cases() {
    assert_eq!(detect_format_from_path("data/file.ttl"), Some(InputFormat::Turtle));
    assert_eq!(detect_format_from_path("file.TRIG"), Some(InputFormat::TriG));
    assert_eq!(detect_format_from_path("a/b/c.nt"), Some(InputFormat::NTriples));
    assert_eq!(detect_format_from_path("x.nq"), Some(InputFormat::NQuads));
    assert_eq!(detect_format_from_path("x.provn"), Some(InputFormat::ProvN));
    assert_eq!(detect_format_from_path("x.xyz"), Some(InputFormat::Turtle));
    assert_eq!(detect_format_from_path("noextension"), None);
}

#[test]
fn strip_ansi_removes_escape_sequences() {
    assert_eq!(strip_ansi_codes("\u{1b}[34mabc\u{1b}[0m"), "abc");
    assert_eq!(strip_ansi_codes("plain"), "plain");
    assert_eq!(strip_ansi_codes("a\u{1b}[1;32mb\u{1b}[0mc"), "abc");
}

#[test]
fn provn_statements_become_triples() {
    let input = "document\nprefix ex <http://example.org/>\nentity(ex:e1, [ex:label=\"first\"])\nactivity(ex:a1, 2020-01-01T00:00:00, -)\nwasGeneratedBy(ex:e1, ex:a1)\nendDocument\n";
    let (triples, prefixes) = parse_for_estimation(input, InputFormat::ProvN).unwrap();
    assert_eq!(prefixes.get("ex"), Some("http://example.org/".to_string()));
    assert_eq!(triples.len(), 5);
    assert_eq!(triples[0].subject_value, "http://example.org/e1");
    assert_eq!(
        triples[0].predicate,
        "http://www.w3.org/1999/02/22-rdf-syntax-ns#type"
    );
    assert_eq!(triples[0].object_value, "http://www.w3.org/ns/prov#Entity");
    assert_eq!(triples[1].predicate, "http://example.org/label");
    assert_eq!(triples[1].object_value, "first");
    assert_eq!(triples[1].object_type, ObjectType::Literal);
    assert_eq!(triples[2].subject_value, "http://example.org/a1");
    assert_eq!(triples[2].object_value, "http://www.w3.org/ns/prov#Activity");
    assert_eq!(
        triples[3].predicate,
        "http://www.w3.org/ns/prov#startedAtTime"
    );
    assert_eq!(triples[3].object_value, "2020-01-01T00:00:00");
    assert_eq!(
        triples[4].predicate,
        "http://www.w3.org/ns/prov#wasGeneratedBy"
    );
    assert_eq!(triples[4].object_value, "http://example.org/a1");
}

#[test]
fn provn_malformed_statement_is_an_error() {
    let input = "entity without parenthesis\n";
    let result = parse_for_estimation(input, InputFormat::ProvN);
    assert!(result.is_err());
}

#[test]
fn provn_lenient_records_errors_per_line() {
    let input = "prefix ex <http://example.org/>\nentity(ex:e1)\nentity without parenthesis\nagent(ex:ag)\n";
    let result = parse_robust(input, InputFormat::ProvN, true).unwrap();
    assert_eq!(result.triple_count(), 2);
    assert_eq!(result.error_count(), 1);
    assert_eq!(result.errors[0].line, 3);
}

#[test]
fn lenient_turtle_recovers_around_bad_statement() {
    let input = "@prefix ex: <http://example.org/> .\nex:a ex:p \"one\" .\nex:b ex:broken-here !!! .\nex:c ex:p \"two\" .\n";
    let result = parse_robust(input, InputFormat::Turtle, true).unwrap();
    assert_eq!(result.triple_count(), 2);
    assert_eq!(result.error_count(), 1);
    assert_eq!(result.errors[0].line, 3);
    assert_eq!(result.prefixes.get("ex"), Some("http://example.org/".to_string()));
}

#[test]
fn lenient_turtle_keeps_sparql_prefixes_for_fragments() {
    let input = "PREFIX ex: <http://example.org/>\nex:a ex:p \"one\" .\nbroken !!! .\nex:b ex:p \"two\" .\n";
    let result = parse_robust(input, InputFormat::Turtle, true).unwrap();
    assert_eq!(result.triple_count(), 2);
    assert_eq!(result.error_count(), 1);
    assert_eq!(result.errors[0].line, 3);
    assert_eq!(result.prefixes.get("ex"), Some("http://example.org/".to_string()));
}

#[test]
fn lenient_turtle_merges_parsing_trailing_fragment() {
    let input = "@prefix ex: <http://example.org/> .\nex:a ex:p \"one\" . # done";
    let result = parse_robust(input, InputFormat::Turtle, true).unwrap();
    assert_eq!(result.triple_count(), 1);
    assert_eq!(result.error_count(), 0);
}

#[test]
fn lenient_trig_keeps_graph_blocks_whole() {
    let input = "@prefix ex: <http://example.org/> .\nex:g {\nex:a ex:p \"one\" .\nex:b ex:p \"two\" .\n}\n";
    let result = parse_robust(input, InputFormat::TriG, true).unwrap();
    assert_eq!(result.triple_count(), 2);
    assert_eq!(result.error_count(), 0);
    for t in &result.triples {
        assert_eq!(t.graph.as_deref(), Some("http://example.org/g"));
    }
}
