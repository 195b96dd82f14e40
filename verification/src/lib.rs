//! A library for parsing, filtering, and pretty-printing RDF data.
//!
//! The crate parses several RDF serialization dialects into one owned triple
//! model, recovers from malformed statements when asked to, filters triples by
//! subject/predicate/object patterns, and renders the result as prefixed or
//! fully expanded text grouped by graph and subject.

pub mod config;
pub mod filter;
pub mod formatter;
pub mod parser;
pub mod pager;
pub mod prefix_map;
pub mod text;
pub mod types;
pub mod utils;

pub use config::{
    default_auto_pager,
    get_effective_colors,
    is_light_background,
    string_to_color,
    ColorConfig,
    Config,
    OutputConfig,
    Role,
    ThemeConfig,
};
pub use filter::TripleFilter;
pub use formatter::writer::{format_object, format_predicate, format_subject};
pub use formatter::{estimate_output_lines, group_by_graph, render_output};
pub use pager::should_use_pager;
pub use parser::common::extract_prefixes;
pub use parser::robust::{ParseError, ParseResult};
pub use parser::syntax::{format_embedded_triple, quad_to_owned, triple_to_owned};
pub use parser::{parse_for_estimation, parse_robust};
pub use types::{
    detect_format_from_path,
    ArgsConfig,
    InputFormat,
    ObjectType,
    OwnedTriple,
    SubjectType,
};
pub use utils::{get_terminal_height, get_terminal_width, resolve_uri_with_prefixes};

use vstd::prelude::*;

verus! {

/// Parses the input strictly in the given dialect (Turtle when none is
/// given) and renders it, compact or expanded: the rendered text when
/// the dialect's grammar parse succeeds, else that parse's error.
pub fn process_input(
    input: &str,
    format: Option<types::InputFormat>,
    should_expand: bool,
    colors: &config::ColorConfig,
    width: usize,
) -> (r: Result<String, String>)
    ensures
        ({
            let fmt = match format {
                Some(f) => f,
                None => types::InputFormat::Turtle,
            };
            &&& fmt is Turtle ==> (r is Ok <==> parser::syntax::turtle_parse_of(
                input@,
                Some("http://example.org/"@),
            ) is Ok)
            &&& fmt is TriG ==> (r is Ok <==> parser::syntax::trig_parse_of(
                input@,
                Some("http://example.org/"@),
            ) is Ok)
            &&& fmt is NTriples ==> (r is Ok <==> parser::syntax::ntriples_parse_of(
                input@,
            ) is Ok)
            &&& fmt is NQuads ==> (r is Ok <==> parser::syntax::nquads_parse_of(input@) is Ok)
            &&& fmt is ProvN ==> (r is Ok <==> parser::provn::spec_provn_body(
                text::spec_lines(input@),
                parser::provn::spec_provn_prefixes(text::spec_lines(input@), Seq::empty()),
            ) is Ok)
            &&& (match r {
                Ok(_) => true,
                Err(e) => {
                    &&& fmt is Turtle ==> parser::syntax::turtle_parse_of(
                        input@,
                        Some("http://example.org/"@),
                    ) == Result::<(int, Map<Seq<char>, Seq<char>>), Seq<char>>::Err(e@)
                    &&& fmt is NTriples ==> parser::syntax::ntriples_parse_of(input@) == Result::<
                        Seq<oxrdf::Triple>,
                        Seq<char>,
                    >::Err(e@)
                },
            })
        }),
{
    let fmt = match format {
        Some(f) => f,
        None => types::InputFormat::Turtle,
    };
    match parser::parse_for_estimation(input, fmt) {
        Ok(p) => {
            let mut out = String::new();
            formatter::render_output(
                p.0.as_slice(),
                &p.1,
                should_expand,
                colors,
                width,
                &mut out,
            );
            Ok(out)
        },
        Err(e) => Err(e),
    }
}

} // verus!
