//! Formatting single terms of a triple as text.

use vstd::prelude::*;
use crate::config::{ColorConfig, Role};
use crate::prefix_map::PrefixMap;
use crate::text::{no_esc, str_eq, strip_ansi};
use crate::types::{ObjectType, OwnedTriple, SubjectType};
use crate::utils::{resolve_uri_with_prefixes, spec_resolve};

verus! {

/// The view of the optional prefix map argument.
pub open spec fn opt_pm_view(pm: Option<&PrefixMap>) -> Option<Seq<(Seq<char>, Seq<char>)>> {
    match pm {
        Some(m) => Some(m@),
        None => None,
    }
}

/// `v` wrapped in double quotes.
pub open spec fn quoted(v: Seq<char>) -> Seq<char> {
    "\""@ + v + "\""@
}

/// The datatypes whose values render bare, without quotes: the numeric
/// ones and booleans.
pub open spec fn is_bare_datatype(dt: Seq<char>) -> bool {
    ||| dt == "http://www.w3.org/2001/XMLSchema#integer"@
    ||| dt == "http://www.w3.org/2001/XMLSchema#decimal"@
    ||| dt == "http://www.w3.org/2001/XMLSchema#float"@
    ||| dt == "http://www.w3.org/2001/XMLSchema#double"@
    ||| dt == "http://www.w3.org/2001/XMLSchema#boolean"@
}

/// How a subject prints: a named node resolved against the prefixes, a
/// blank node as `_:id`, an embedded triple by its pre-formatted text.
pub open spec fn spec_format_subject(
    t: OwnedTriple,
    pm: Option<Seq<(Seq<char>, Seq<char>)>>,
) -> Seq<char> {
    match t.subject_type {
        SubjectType::NamedNode => spec_resolve(t.subject_value@, pm),
        SubjectType::BlankNode => "_:"@ + t.subject_value@,
        SubjectType::Triple => t.subject_value@,
    }
}

/// How a predicate prints, before coloring.
pub open spec fn spec_format_predicate(
    t: OwnedTriple,
    pm: Option<Seq<(Seq<char>, Seq<char>)>>,
) -> Seq<char> {
    spec_resolve(t.predicate@, pm)
}

/// How a literal object prints, before coloring: a language-tagged value
/// as `"value"@lang`; a typed value bare for numeric and boolean
/// datatypes in compact mode, and quoted with the full expanded
/// `^^<type>` suffix for every other datatype, date and time included;
/// a plain value quoted.
pub open spec fn spec_format_literal(
    t: OwnedTriple,
    pm: Option<Seq<(Seq<char>, Seq<char>)>>,
) -> Seq<char> {
    match t.object_language {
        Some(lang) => quoted(t.object_value@) + "@"@ + lang@,
        None => match t.object_datatype {
            Some(dt) => {
                if pm is Some && is_bare_datatype(dt@) {
                    t.object_value@
                } else {
                    quoted(t.object_value@) + "^^"@ + "<"@ + dt@ + ">"@
                }
            },
            None => quoted(t.object_value@),
        },
    }
}

/// How an object prints, before coloring.
pub open spec fn spec_format_object(
    t: OwnedTriple,
    pm: Option<Seq<(Seq<char>, Seq<char>)>>,
) -> Seq<char> {
    match t.object_type {
        ObjectType::NamedNode => spec_resolve(t.object_value@, pm),
        ObjectType::BlankNode => "_:"@ + t.object_value@,
        ObjectType::Literal => spec_format_literal(t, pm),
        ObjectType::Triple => t.object_value@,
    }
}

/// The color role an object is shown in.
pub open spec fn spec_object_role(t: OwnedTriple) -> Role {
    match t.object_type {
        ObjectType::Literal => Role::Literal,
        _ => Role::Object,
    }
}

/// Formats a subject. The caller colors it, so the text is exact.
pub fn format_subject(triple: &OwnedTriple, prefixes: Option<&PrefixMap>, colors: &ColorConfig) -> (r: String)
    ensures
        r@ == spec_format_subject(*triple, opt_pm_view(prefixes)),
{
    match triple.subject_type {
        SubjectType::NamedNode => resolve_uri_with_prefixes(triple.subject_value.as_str(), prefixes),
        SubjectType::BlankNode => {
            let mut out = String::new();
            out.append("_:");
            out.append(triple.subject_value.as_str());
            proof {
                assert(out@ =~= "_:"@ + triple.subject_value@);
            }
            out
        },
        SubjectType::Triple => triple.subject_value.clone(),
    }
}

/// Formats and colors a predicate: with an empty predicate color the text
/// is exact, and coloring never changes the printable characters.
pub fn format_predicate(triple: &OwnedTriple, prefixes: Option<&PrefixMap>, colors: &ColorConfig) -> (r: String)
    ensures
        colors.spec_role_name(Role::Predicate).len() == 0 ==> r@ == spec_format_predicate(
            *triple,
            opt_pm_view(prefixes),
        ),
        no_esc(spec_format_predicate(*triple, opt_pm_view(prefixes))) ==> strip_ansi(r@)
            == spec_format_predicate(*triple, opt_pm_view(prefixes)),
{
    let text = resolve_uri_with_prefixes(triple.predicate.as_str(), prefixes);
    colors.colorize(text.as_str(), Role::Predicate)
}

/// Formats and colors an object: with an empty color for its role the
/// text is exact, and coloring never changes the printable characters.
pub fn format_object(triple: &OwnedTriple, prefixes: Option<&PrefixMap>, colors: &ColorConfig) -> (r: String)
    ensures
        colors.spec_role_name(spec_object_role(*triple)).len() == 0 ==> r@ == spec_format_object(
            *triple,
            opt_pm_view(prefixes),
        ),
        no_esc(spec_format_object(*triple, opt_pm_view(prefixes))) ==> strip_ansi(r@)
            == spec_format_object(*triple, opt_pm_view(prefixes)),
{
    match triple.object_type {
        ObjectType::NamedNode => {
            let text = resolve_uri_with_prefixes(triple.object_value.as_str(), prefixes);
            colors.colorize(text.as_str(), Role::Object)
        },
        ObjectType::BlankNode => {
            let mut text = String::new();
            text.append("_:");
            text.append(triple.object_value.as_str());
            proof {
                assert(text@ =~= "_:"@ + triple.object_value@);
            }
            colors.colorize(text.as_str(), Role::Object)
        },
        ObjectType::Literal => {
            let text = format_literal_text(triple, prefixes);
            colors.colorize(text.as_str(), Role::Literal)
        },
        ObjectType::Triple => colors.colorize(triple.object_value.as_str(), Role::Object),
    }
}

/// The uncolored text of a literal object.
fn format_literal_text(triple: &OwnedTriple, prefixes: Option<&PrefixMap>) -> (r: String)
    requires
        triple.object_type is Literal,
    ensures
        r@ == spec_format_literal(*triple, opt_pm_view(prefixes)),
{
    match &triple.object_language {
        Some(lang) => {
            let mut out = String::new();
            out.append("\"");
            out.append(triple.object_value.as_str());
            out.append("\"");
            out.append("@");
            out.append(lang.as_str());
            proof {
                assert(out@ =~= quoted(triple.object_value@) + "@"@
                    + triple.object_language->Some_0@);
            }
            out
        },
        None => {
            match &triple.object_datatype {
                Some(dt) => {
                    let compact = prefixes.is_some();
                    if compact && is_bare(dt.as_str()) {
                        triple.object_value.clone()
                    } else {
                        let mut out = String::new();
                        out.append("\"");
                        out.append(triple.object_value.as_str());
                        out.append("\"");
                        out.append("^^");
                        out.append("<");
                        out.append(dt.as_str());
                        out.append(">");
                        proof {
                            assert(out@ =~= quoted(triple.object_value@) + "^^"@ + "<"@
                                + triple.object_datatype->Some_0@ + ">"@);
                        }
                        out
                    }
                },
                None => {
                    let mut out = String::new();
                    out.append("\"");
                    out.append(triple.object_value.as_str());
                    out.append("\"");
                    proof {
                        assert(out@ =~= quoted(triple.object_value@));
                    }
                    out
                },
            }
        },
    }
}

/// Whether `dt` renders its values bare.
fn is_bare(dt: &str) -> (r: bool)
    ensures
        r == is_bare_datatype(dt@),
{
    str_eq(dt, "http://www.w3.org/2001/XMLSchema#integer") || str_eq(
        dt,
        "http://www.w3.org/2001/XMLSchema#decimal",
    ) || str_eq(dt, "http://www.w3.org/2001/XMLSchema#float") || str_eq(
        dt,
        "http://www.w3.org/2001/XMLSchema#double",
    ) || str_eq(dt, "http://www.w3.org/2001/XMLSchema#boolean")
}

} // verus!
