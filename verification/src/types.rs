//! The owned triple model and the input dialect tags.

use vstd::prelude::*;

verus! {

/// The serialization dialects the parsers understand.
#[derive(Debug, Clone, Copy, PartialEq, Eq, Structural)]
pub enum InputFormat {
    Turtle,
    TriG,
    NTriples,
    NQuads,
    ProvN,
}

/// What kind of term stands in subject position.
#[derive(Debug, Clone, Copy, PartialEq, Eq, Structural)]
pub enum SubjectType {
    NamedNode,
    BlankNode,
    /// An embedded triple used as subject.
    Triple,
}

/// What kind of term stands in object position.
#[derive(Debug, Clone, Copy, PartialEq, Eq, Structural)]
pub enum ObjectType {
    NamedNode,
    BlankNode,
    Literal,
    /// An embedded triple used as object.
    Triple,
}

/// One parsed statement: a subject-predicate-object assertion, optionally
/// scoped to a named graph, with optional embedded triples for either end.
#[derive(Debug)]
pub struct OwnedTriple {
    pub subject_type: SubjectType,
    pub subject_value: String,
    pub predicate: String,
    pub object_type: ObjectType,
    pub object_value: String,
    pub object_datatype: Option<String>,
    pub object_language: Option<String>,
    pub graph: Option<String>,
    pub subject_triple: Option<Box<OwnedTriple>>,
    pub object_triple: Option<Box<OwnedTriple>>,
}

/// The value of a triple's scalar fields, for contracts: each text field
/// as its character sequence, embedded triples left aside.
pub struct TripleModel {
    pub subject_type: SubjectType,
    pub subject_value: Seq<char>,
    pub predicate: Seq<char>,
    pub object_type: ObjectType,
    pub object_value: Seq<char>,
    pub object_datatype: Option<Seq<char>>,
    pub object_language: Option<Seq<char>>,
    pub graph: Option<Seq<char>>,
}

/// The views of a list of triples.
pub open spec fn models_view(s: Seq<OwnedTriple>) -> Seq<TripleModel> {
    s.map_values(|t: OwnedTriple| t.model())
}

/// The view of an optional string.
pub open spec fn opt_view(o: Option<String>) -> Option<Seq<char>> {
    match o {
        Some(s) => Some(s@),
        None => None,
    }
}

impl OwnedTriple {
    /// The scalar fields of this triple, as values.
    pub open spec fn model(self) -> TripleModel {
        TripleModel {
            subject_type: self.subject_type,
            subject_value: self.subject_value@,
            predicate: self.predicate@,
            object_type: self.object_type,
            object_value: self.object_value@,
            object_datatype: opt_view(self.object_datatype),
            object_language: opt_view(self.object_language),
            graph: opt_view(self.graph),
        }
    }

    /// A triple with no embedded parts, no datatype or language, and no
    /// graph.
    pub open spec fn is_plain(self) -> bool {
        &&& self.object_datatype is None
        &&& self.object_language is None
        &&& self.graph is None
        &&& self.subject_triple is None
        &&& self.object_triple is None
        &&& self.subject_type is NamedNode
    }
}

/// The model of a subject-predicate-object assertion between named nodes
/// or onto a literal, as the PROV-N interpreter builds them.
pub open spec fn plain_model(
    subject: Seq<char>,
    predicate: Seq<char>,
    object_type: ObjectType,
    object: Seq<char>,
) -> TripleModel {
    TripleModel {
        subject_type: SubjectType::NamedNode,
        subject_value: subject,
        predicate: predicate,
        object_type: object_type,
        object_value: object,
        object_datatype: None,
        object_language: None,
        graph: None,
    }
}

impl OwnedTriple {
    /// The structural invariant of a triple: a literal never carries both a
    /// language tag and a datatype, and an end is tagged as an embedded
    /// triple exactly when the matching embedded pointer is present.
    pub open spec fn wf(self) -> bool
        decreases self,
    {
        &&& !(self.object_datatype is Some && self.object_language is Some)
        &&& (self.subject_type is Triple <==> self.subject_triple is Some)
        &&& (self.object_type is Triple <==> self.object_triple is Some)
        &&& (match self.subject_triple {
            Some(t) => t.wf(),
            None => true,
        })
        &&& (match self.object_triple {
            Some(t) => t.wf(),
            None => true,
        })
    }
}

impl Clone for OwnedTriple {
    /// Cloning preserves the triple exactly, embedded triples included.
    fn clone(&self) -> (r: Self)
        ensures
            r == *self,
        decreases *self,
    {
        OwnedTriple {
            subject_type: self.subject_type,
            subject_value: self.subject_value.clone(),
            predicate: self.predicate.clone(),
            object_type: self.object_type,
            object_value: self.object_value.clone(),
            object_datatype: clone_opt_string(&self.object_datatype),
            object_language: clone_opt_string(&self.object_language),
            graph: clone_opt_string(&self.graph),
            subject_triple: match &self.subject_triple {
                Some(b) => Some(Box::new((**b).clone())),
                None => None,
            },
            object_triple: match &self.object_triple {
                Some(b) => Some(Box::new((**b).clone())),
                None => None,
            },
        }
    }
}

/// The extension of a file path: the part of the file name after its
/// last dot, absent when the file name has no dot or starts with its
/// only dot.
pub open spec fn spec_extension(path: Seq<char>) -> Option<Seq<char>> {
    let file = path.skip(crate::text::spec_rfind(path, '/') + 1);
    let dot = crate::text::spec_rfind(file, '.');
    if dot <= 0 {
        None
    } else {
        Some(file.skip(dot + 1))
    }
}

/// The dialect a file extension names: `ttl`, `trig`, `nt`, `nq` and
/// `provn` in any ASCII case, anything else read as Turtle; a path
/// without an extension names none.
pub open spec fn spec_detect_format(path: Seq<char>) -> Option<InputFormat> {
    match spec_extension(path) {
        None => None,
        Some(e) => {
            let l = crate::text::lower_seq(e);
            if l == "ttl"@ {
                Some(InputFormat::Turtle)
            } else if l == "trig"@ {
                Some(InputFormat::TriG)
            } else if l == "nt"@ {
                Some(InputFormat::NTriples)
            } else if l == "nq"@ {
                Some(InputFormat::NQuads)
            } else if l == "provn"@ {
                Some(InputFormat::ProvN)
            } else {
                Some(InputFormat::Turtle)
            }
        },
    }
}

/// Detects the input dialect from a file path's extension.
pub fn detect_format_from_path(path: &str) -> (r: Option<InputFormat>)
    ensures
        r == spec_detect_format(path@),
{
    let v = crate::text::chars_of(path);
    let start: usize = match crate::text::find_last_char(v.as_slice(), '/') {
        Some(i) => i + 1,
        None => 0,
    };
    let file = crate::text::subvec(v.as_slice(), start, v.len());
    proof {
        assert(file@ =~= path@.skip(crate::text::spec_rfind(path@, '/') + 1));
    }
    let dot = match crate::text::find_last_char(file.as_slice(), '.') {
        Some(i) => i,
        None => {
            return None;
        },
    };
    if dot == 0 {
        return None;
    }
    let ext = crate::text::subvec(file.as_slice(), dot + 1, file.len());
    let l = crate::text::lower_vec(ext.as_slice());
    proof {
        assert(ext@ =~= file@.skip(dot + 1));
    }
    let r = if crate::text::slice_eq(l.as_slice(), crate::text::chars_of("ttl").as_slice()) {
        Some(InputFormat::Turtle)
    } else if crate::text::slice_eq(l.as_slice(), crate::text::chars_of("trig").as_slice()) {
        Some(InputFormat::TriG)
    } else if crate::text::slice_eq(l.as_slice(), crate::text::chars_of("nt").as_slice()) {
        Some(InputFormat::NTriples)
    } else if crate::text::slice_eq(l.as_slice(), crate::text::chars_of("nq").as_slice()) {
        Some(InputFormat::NQuads)
    } else if crate::text::slice_eq(l.as_slice(), crate::text::chars_of("provn").as_slice()) {
        Some(InputFormat::ProvN)
    } else {
        Some(InputFormat::Turtle)
    };
    r
}

/// What a command-line front end must answer about the run: set by the
/// program around the library, read here.
pub trait ArgsConfig {
    /// Whether prefixes are expanded instead of shown as PREFIX lines.
    fn expand(&self, config: &crate::config::Config) -> bool;

    /// The input dialect, chosen by the user or detected from a path.
    fn format(&self) -> Option<InputFormat>;

    /// Whether the user explicitly asked for paging.
    fn use_pager(&self, config: &crate::config::Config) -> bool;

    /// Whether the user explicitly disabled paging.
    fn no_pager_explicit(&self) -> bool;

    /// The effective color configuration.
    fn get_colors(&self, config: &crate::config::Config) -> crate::config::ColorConfig;

    /// Whether output goes to a file.
    fn is_output_to_file(&self) -> bool;

    /// Whether parsing continues past errors.
    fn continue_on_error(&self) -> bool;

    /// The subject filter pattern, if set.
    fn filter_subject(&self) -> Option<&str>;

    /// The predicate filter pattern, if set.
    fn filter_predicate(&self) -> Option<&str>;

    /// The object filter pattern, if set.
    fn filter_object(&self) -> Option<&str>;
}

/// An exact copy of an optional string.
pub fn clone_opt_string(o: &Option<String>) -> (r: Option<String>)
    ensures
        r == *o,
{
    match o {
        Some(s) => Some(s.clone()),
        None => None,
    }
}

} // verus!
