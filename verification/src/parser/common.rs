//! Scanning raw lines for prefix and base declarations.
//!
//! Prefix declarations are extracted independently of the grammar parsers,
//! by looking at each physical line for the Turtle `@prefix`, SPARQL
//! `PREFIX` and Turtle `@base` forms. Later declarations for a name
//! override earlier ones; the base IRI is stored under the empty name.

use vstd::prelude::*;
use crate::prefix_map::{spec_insert, PrefixMap};
use crate::text::{
    chars_of,
    find_char,
    slice_starts_with,
    slice_starts_with_ci,
    spec_find,
    spec_lines,
    spec_trim,
    split_lines,
    starts_with,
    starts_with_ci_at,
    string_of,
    subvec,
    trim_bounds,
};

verus! {

/// The characters of `v` with surrounding whitespace removed.
pub fn trim_to_vec(v: &[char]) -> (r: Vec<char>)
    ensures
        r@ == spec_trim(v@),
{
    let (a, b) = trim_bounds(v);
    subvec(v, a, b)
}

/// The name and IRI declared by a Turtle line `@prefix name: <iri> .`,
/// if the line has that shape.
pub open spec fn spec_parse_turtle_prefix(line: Seq<char>) -> Option<(Seq<char>, Seq<char>)> {
    let t = spec_trim(line);
    if !starts_with(t, "@prefix"@) {
        None
    } else {
        let rest = spec_trim(t.skip(7));
        let c = spec_find(rest, ':');
        if c >= rest.len() {
            None
        } else {
            let name = spec_trim(rest.subrange(0, c));
            let iri_part = spec_trim(rest.subrange(c + 1, rest.len() as int));
            let sb = spec_find(iri_part, '<');
            let eb = spec_find(iri_part, '>');
            if sb >= iri_part.len() || eb >= iri_part.len() || eb <= sb {
                None
            } else {
                Some((name, iri_part.subrange(sb + 1, eb)))
            }
        }
    }
}

/// Parses a Turtle `@prefix` declaration.
pub fn parse_turtle_prefix(line: &[char]) -> (r: Option<(String, String)>)
    ensures
        match r {
            Some(p) => spec_parse_turtle_prefix(line@) == Some((p.0@, p.1@)),
            None => spec_parse_turtle_prefix(line@) is None,
        },
{
    let t = trim_to_vec(line);
    let pat = chars_of("@prefix");
    if !slice_starts_with(t.as_slice(), 0, pat.as_slice()) {
        return None;
    }
    proof {
        reveal_strlit("@prefix");
    }
    let after = subvec(t.as_slice(), 7, t.len());
    proof {
        assert(after@ =~= spec_trim(line@).skip(7));
    }
    let rest = trim_to_vec(after.as_slice());
    let c = match find_char(rest.as_slice(), 0, ':') {
        Some(i) => i,
        None => {
            proof {
                assert(rest@.skip(0) =~= rest@);
            }
            return None;
        },
    };
    proof {
        assert(rest@.skip(0) =~= rest@);
    }
    let name_part = subvec(rest.as_slice(), 0, c);
    let name = trim_to_vec(name_part.as_slice());
    let rl = rest.len();
    let iri_src = subvec(rest.as_slice(), c + 1, rl);
    let iri_part = trim_to_vec(iri_src.as_slice());
    proof {
        assert(iri_part@.skip(0) =~= iri_part@);
    }
    let sb = match find_char(iri_part.as_slice(), 0, '<') {
        Some(i) => i,
        None => { return None },
    };
    let eb = match find_char(iri_part.as_slice(), 0, '>') {
        Some(i) => i,
        None => { return None },
    };
    if eb <= sb {
        return None;
    }
    let iri = subvec(iri_part.as_slice(), sb + 1, eb);
    Some((string_of(name.as_slice()), string_of(iri.as_slice())))
}

/// The name and IRI declared by a SPARQL line `PREFIX name: <iri>`, the
/// keyword compared without regard to ASCII case.
pub open spec fn spec_parse_sparql_prefix(line: Seq<char>) -> Option<(Seq<char>, Seq<char>)> {
    let t = spec_trim(line);
    if !starts_with_ci_at(t, "prefix"@, 0) {
        None
    } else {
        let rest = spec_trim(t.skip(6));
        let c = spec_find(rest, ':');
        if c >= rest.len() {
            None
        } else {
            let name = spec_trim(rest.subrange(0, c));
            let iri_part = spec_trim(rest.subrange(c + 1, rest.len() as int));
            let sb = spec_find(iri_part, '<');
            let eb = spec_find(iri_part, '>');
            if sb >= iri_part.len() || eb >= iri_part.len() || eb <= sb {
                None
            } else {
                Some((name, iri_part.subrange(sb + 1, eb)))
            }
        }
    }
}

/// Parses a SPARQL `PREFIX` declaration.
pub fn parse_sparql_prefix(line: &[char]) -> (r: Option<(String, String)>)
    ensures
        match r {
            Some(p) => spec_parse_sparql_prefix(line@) == Some((p.0@, p.1@)),
            None => spec_parse_sparql_prefix(line@) is None,
        },
{
    let t = trim_to_vec(line);
    let pat = chars_of("prefix");
    if !slice_starts_with_ci(t.as_slice(), 0, pat.as_slice()) {
        return None;
    }
    proof {
        reveal_strlit("prefix");
    }
    let after = subvec(t.as_slice(), 6, t.len());
    proof {
        assert(after@ =~= spec_trim(line@).skip(6));
    }
    let rest = trim_to_vec(after.as_slice());
    let c = match find_char(rest.as_slice(), 0, ':') {
        Some(i) => i,
        None => {
            proof {
                assert(rest@.skip(0) =~= rest@);
            }
            return None;
        },
    };
    proof {
        assert(rest@.skip(0) =~= rest@);
    }
    let name_part = subvec(rest.as_slice(), 0, c);
    let name = trim_to_vec(name_part.as_slice());
    let rl = rest.len();
    let iri_src = subvec(rest.as_slice(), c + 1, rl);
    let iri_part = trim_to_vec(iri_src.as_slice());
    proof {
        assert(iri_part@.skip(0) =~= iri_part@);
    }
    let sb = match find_char(iri_part.as_slice(), 0, '<') {
        Some(i) => i,
        None => { return None },
    };
    let eb = match find_char(iri_part.as_slice(), 0, '>') {
        Some(i) => i,
        None => { return None },
    };
    if eb <= sb {
        return None;
    }
    let iri = subvec(iri_part.as_slice(), sb + 1, eb);
    Some((string_of(name.as_slice()), string_of(iri.as_slice())))
}

/// The IRI declared by a Turtle line `@base <iri> .`, if the line has that
/// shape.
pub open spec fn spec_parse_base_declaration(line: Seq<char>) -> Option<Seq<char>> {
    let t = spec_trim(line);
    if !starts_with(t, "@base"@) {
        None
    } else {
        let rest = spec_trim(t.skip(5));
        let sb = spec_find(rest, '<');
        let eb = spec_find(rest, '>');
        if sb >= rest.len() || eb >= rest.len() || eb <= sb {
            None
        } else {
            Some(rest.subrange(sb + 1, eb))
        }
    }
}

/// Parses a Turtle `@base` declaration.
pub fn parse_base_declaration(line: &[char]) -> (r: Option<String>)
    ensures
        match r {
            Some(iri) => spec_parse_base_declaration(line@) == Some(iri@),
            None => spec_parse_base_declaration(line@) is None,
        },
{
    let t = trim_to_vec(line);
    let pat = chars_of("@base");
    if !slice_starts_with(t.as_slice(), 0, pat.as_slice()) {
        return None;
    }
    proof {
        reveal_strlit("@base");
    }
    let after = subvec(t.as_slice(), 5, t.len());
    proof {
        assert(after@ =~= spec_trim(line@).skip(5));
    }
    let rest = trim_to_vec(after.as_slice());
    proof {
        assert(rest@.skip(0) =~= rest@);
    }
    let sb = match find_char(rest.as_slice(), 0, '<') {
        Some(i) => i,
        None => { return None },
    };
    let eb = match find_char(rest.as_slice(), 0, '>') {
        Some(i) => i,
        None => { return None },
    };
    if eb <= sb {
        return None;
    }
    let iri = subvec(rest.as_slice(), sb + 1, eb);
    Some(string_of(iri.as_slice()))
}

/// What one line contributes to the prefix map: a Turtle declaration first,
/// then a SPARQL one, then a base declaration under the empty name; blank
/// lines and comments contribute nothing.
pub open spec fn spec_line_binding(line: Seq<char>) -> Option<(Seq<char>, Seq<char>)> {
    let t = spec_trim(line);
    if t.len() == 0 || t[0] == '#' {
        None
    } else if spec_parse_turtle_prefix(line) is Some {
        spec_parse_turtle_prefix(line)
    } else if spec_parse_sparql_prefix(line) is Some {
        spec_parse_sparql_prefix(line)
    } else {
        match spec_parse_base_declaration(line) {
            Some(iri) => Some((Seq::empty(), iri)),
            None => None,
        }
    }
}

/// The prefix map accumulated by scanning `lines` in order, starting from
/// `acc`.
pub open spec fn spec_extract(
    lines: Seq<Seq<char>>,
    acc: Seq<(Seq<char>, Seq<char>)>,
) -> Seq<(Seq<char>, Seq<char>)>
    decreases lines.len(),
{
    if lines.len() == 0 {
        acc
    } else {
        let acc2 = match spec_line_binding(lines[0]) {
            Some(p) => spec_insert(acc, p.0, p.1),
            None => acc,
        };
        spec_extract(lines.drop_first(), acc2)
    }
}

/// Extracts every prefix and base declaration from `input`, later
/// declarations for a name overriding earlier ones.
pub fn extract_prefixes(input: &str) -> (r: PrefixMap)
    ensures
        r.wf(),
        r@ == spec_extract(spec_lines(input@), Seq::empty()),
{
    let chars = chars_of(input);
    let lines = split_lines(chars.as_slice());
    let mut pm = PrefixMap::new();
    let ghost all = lines.deep_view();
    let n = lines.len();
    let mut i: usize = 0;
    proof {
        assert(all.skip(0) =~= all);
    }
    while i < n
        invariant
            n == all.len(),
            all == lines.deep_view(),
            i <= n,
            pm.wf(),
            spec_extract(all, Seq::empty()) == spec_extract(all.skip(i as int), pm@),
        decreases n - i,
    {
        let line = &lines[i];
        let ghost pm0 = pm@;
        proof {
            assert(line.deep_view() =~= line@);
            assert(all[i as int] == line.deep_view());
            assert(all.skip(i as int)[0] == all[i as int]);
            assert(all.skip(i as int).drop_first() =~= all.skip(i + 1));
        }
        let ghost rem = all.skip(i as int);
        let t = trim_to_vec(line.as_slice());
        if t.len() == 0 || t[0] == '#' {
            proof {
                assert(spec_line_binding(line@) is None);
            }
        } else {
            match parse_turtle_prefix(line.as_slice()) {
                Some(p) => {
                    pm.insert(p.0, p.1);
                },
                None => {
                    match parse_sparql_prefix(line.as_slice()) {
                        Some(p) => {
                            pm.insert(p.0, p.1);
                        },
                        None => {
                            match parse_base_declaration(line.as_slice()) {
                                Some(iri) => {
                                    let empty_name = String::new();
                                    proof {
                                        assert(empty_name@ =~= Seq::<char>::empty());
                                    }
                                    pm.insert(empty_name, iri);
                                },
                                None => {
                                    proof {
                                        assert(spec_line_binding(line@) is None);
                                    }
                                },
                            }
                        },
                    }
                },
            }
        }
        i = i + 1;
        proof {
            assert(spec_extract(rem, pm0) == spec_extract(all.skip(i as int), pm@));
        }
    }
    proof {
        assert(all.skip(n as int) =~= Seq::<Seq<char>>::empty());
        assert(spec_lines(input@) == all);
    }
    pm
}

} // verus!
