//! Prefixed (compact) rendering: PREFIX lines, graph and subject
//! grouping, and width-aware line folding.

use vstd::prelude::*;
use crate::config::{ColorConfig, Role};
use crate::formatter::{group_by_graph, groups_view, opt_str_view, spec_groups, GroupsView};
use crate::formatter::writer::{
    format_object,
    format_predicate,
    format_subject,
    opt_pm_view,
    spec_format_object,
    spec_format_predicate,
    spec_format_subject,
};
use crate::prefix_map::PrefixMap;
use crate::text::{chars_of, find_char, lemma_spec_find, spec_find, strip_ansi, string_of, subvec};
use crate::types::OwnedTriple;
use crate::utils::{resolve_uri_with_prefixes, spec_resolve};
use vstd::string::StrSliceExecFns;

verus! {

/// Whether every color role is unstyled, so the rendered text is exactly
/// the plain text.
pub open spec fn plain_colors(c: ColorConfig) -> bool {
    &&& c.subject@.len() == 0
    &&& c.predicate@.len() == 0
    &&& c.object@.len() == 0
    &&& c.literal@.len() == 0
    &&& c.prefix@.len() == 0
    &&& c.base@.len() == 0
    &&& c.graph@.len() == 0
}

/// The text already in `out` stays untouched: printing only appends.
pub open spec fn appends(old_out: Seq<char>, new_out: Seq<char>) -> bool {
    new_out.len() >= old_out.len() && new_out.subrange(0, old_out.len() as int) == old_out
}

/// Append-only growth composes.
pub proof fn lemma_appends_trans(a: Seq<char>, b: Seq<char>, c: Seq<char>)
    requires
        appends(a, b),
        appends(b, c),
    ensures
        appends(a, c),
{
    assert forall|i: int| 0 <= i < a.len() implies c.subrange(0, a.len() as int)[i] == a[i] by {
        assert(c.subrange(0, b.len() as int)[i] == b[i]);
        assert(b.subrange(0, a.len() as int)[i] == b[i]);
    }
    assert(c.subrange(0, a.len() as int) =~= a);
}

/// Concatenation is append-only growth.
pub proof fn lemma_appends_concat(a: Seq<char>, x: Seq<char>)
    ensures
        appends(a, a + x),
{
    assert((a + x).subrange(0, a.len() as int) =~= a);
}

/// One `PREFIX name: <iri> .` line.
pub open spec fn spec_prefix_line(name: Seq<char>, iri: Seq<char>) -> Seq<char> {
    "PREFIX"@ + " "@ + name + ": <"@ + iri + "> ."@ + "\n"@
}

/// The PREFIX lines of the map, in map order.
pub open spec fn spec_prefix_lines(pm: Seq<(Seq<char>, Seq<char>)>) -> Seq<char>
    decreases pm.len(),
{
    if pm.len() == 0 {
        Seq::empty()
    } else {
        spec_prefix_line(pm[0].0, pm[0].1) + spec_prefix_lines(pm.drop_first())
    }
}

/// The whole prefix block: the PREFIX lines and, when any exist, one
/// separating blank line.
pub open spec fn spec_prefix_block(pm: Seq<(Seq<char>, Seq<char>)>) -> Seq<char> {
    if pm.len() == 0 {
        spec_prefix_lines(pm)
    } else {
        spec_prefix_lines(pm) + "\n"@
    }
}

/// Prints one `PREFIX` line per map entry, then a blank separator line if
/// any were printed. With unstyled colors the text is exact; any output
/// is append-only.
pub fn print_prefixes_to_writer(prefixes: &PrefixMap, colors: &ColorConfig, out: &mut String)
    ensures
        appends(old(out)@, final(out)@),
        plain_colors(*colors) ==> final(out)@ == old(out)@ + spec_prefix_block(prefixes@),
{
    let ghost base = out@;
    let n = prefixes.len();
    let mut i: usize = 0;
    proof {
        assert(prefixes@.skip(0) =~= prefixes@);
        assert(appends(base, out@)) by {
            assert(out@.subrange(0, base.len() as int) =~= base);
        }
    }
    while i < n
        invariant
            n == prefixes@.len(),
            i <= n,
            appends(base, out@),
            plain_colors(*colors) ==> out@ + spec_prefix_lines(prefixes@.skip(i as int)) =~= base
                + spec_prefix_lines(prefixes@),
        decreases n - i,
    {
        let ghost rem = prefixes@.skip(i as int);
        let ghost before = out@;
        let p = prefixes.pair_at(i);
        let kw = colors.colorize("PREFIX", Role::Prefix);
        let name = colors.colorize(p.0.as_str(), Role::Prefix);
        out.append(kw.as_str());
        out.append(" ");
        out.append(name.as_str());
        out.append(": <");
        out.append(p.1.as_str());
        out.append("> .");
        out.append("\n");
        i = i + 1;
        proof {
            assert(rem[0] == prefixes@[i - 1]);
            assert(rem.drop_first() =~= prefixes@.skip(i as int));
            assert(appends(base, out@)) by {
                assert(out@.subrange(0, base.len() as int) =~= base);
            }
            if plain_colors(*colors) {
                assert(kw@ == "PREFIX"@);
                assert(name@ == rem[0].0);
                assert(out@ =~= before + spec_prefix_line(rem[0].0, rem[0].1));
                assert(spec_prefix_lines(rem) == spec_prefix_line(rem[0].0, rem[0].1)
                    + spec_prefix_lines(prefixes@.skip(i as int)));
                assert(out@ + spec_prefix_lines(prefixes@.skip(i as int)) =~= before
                    + spec_prefix_lines(rem));
            }
        }
    }
    if n > 0 {
        out.append("\n");
    }
    proof {
        assert(prefixes@.skip(n as int) =~= Seq::<(Seq<char>, Seq<char>)>::empty());
        assert(appends(base, out@)) by {
            assert(out@.subrange(0, base.len() as int) =~= base);
        }
        if plain_colors(*colors) {
            assert(out@ =~= base + spec_prefix_block(prefixes@));
        }
    }
}

/// Removes every ANSI escape sequence, leaving the printable characters.
pub fn strip_ansi_codes(text: &str) -> (r: String)
    ensures
        r@ == strip_ansi(text@),
{
    let v = chars_of(text);
    let n = v.len();
    let mut res: Vec<char> = Vec::new();
    let mut pos: usize = 0;
    proof {
        assert(v@.skip(0) =~= v@);
        assert(res@ + strip_ansi(v@) =~= strip_ansi(v@));
    }
    while pos < n
        invariant
            n == v@.len(),
            v@ == text@,
            pos <= n,
            res@ + strip_ansi(v@.skip(pos as int)) == strip_ansi(v@),
        decreases n - pos,
    {
        let ghost rem = v@.skip(pos as int);
        let c = v[pos];
        proof {
            assert(rem[0] == v@[pos as int]);
        }
        if c == '\u{1b}' {
            match find_char(v.as_slice(), pos, 'm') {
                Some(m) => {
                    proof {
                        lemma_spec_find(rem, 'm');
                        assert(spec_find(rem, 'm') == m - pos);
                        assert(rem.skip(m - pos + 1) =~= v@.skip(m + 1));
                        assert(strip_ansi(rem) == strip_ansi(v@.skip(m + 1)));
                    }
                    pos = m + 1;
                },
                None => {
                    proof {
                        lemma_spec_find(rem, 'm');
                        assert(spec_find(rem, 'm') == rem.len());
                        assert(strip_ansi(rem) =~= Seq::<char>::empty());
                        assert(v@.skip(n as int) =~= Seq::<char>::empty());
                        assert(res@ + strip_ansi(v@.skip(n as int)) =~= res@ + strip_ansi(rem));
                    }
                    pos = n;
                },
            }
        } else {
            res.push(c);
            pos = pos + 1;
            proof {
                assert(rem.drop_first() =~= v@.skip(pos as int));
                assert(strip_ansi(rem) == seq![rem[0]] + strip_ansi(rem.drop_first()));
                assert(res@ + strip_ansi(v@.skip(pos as int)) =~= (res@.drop_last() + strip_ansi(
                    rem,
                )));
            }
        }
    }
    proof {
        assert(v@.skip(n as int) =~= Seq::<char>::empty());
        assert(res@ =~= res@ + strip_ansi(v@.skip(n as int)));
    }
    string_of(res.as_slice())
}

/// The indentation inside a named-graph block.
pub open spec fn indent_of(named: bool) -> Seq<char> {
    if named {
        "  "@
    } else {
        ""@
    }
}

/// One predicate-object pair, ended by `term`: a semicolon for a pair
/// that its subject block continues past, a period for the final pair.
/// The pair folds onto one line when its printable width fits; otherwise
/// the head line ends `;` and the object stands on its own continuation
/// line with the terminator.
pub open spec fn spec_statement(
    head: Seq<char>,
    obj: Seq<char>,
    cont_indent: Seq<char>,
    term: Seq<char>,
    width: int,
) -> Seq<char> {
    let full = head + " "@ + obj + " "@ + term;
    if strip_ansi(full).len() <= width {
        full + "\n"@
    } else {
        head + " ;"@ + "\n"@ + cont_indent + obj + " "@ + term + "\n"@
    }
}

/// The terminator of the pair at the head of `ts`: a semicolon when the
/// next triple continues the same subject block, else a period.
pub open spec fn spec_pair_term(
    ts: Seq<OwnedTriple>,
    pm: Option<Seq<(Seq<char>, Seq<char>)>>,
) -> Seq<char> {
    if ts.len() > 1 && spec_format_subject(ts[1], pm) == spec_format_subject(ts[0], pm) {
        ";"@
    } else {
        "."@
    }
}

/// The compact lines of a run of triples inside one graph bucket, with
/// `cur` the subject text of the block being continued: a repeated
/// subject continues its block with predicate-object pairs, a new subject
/// opens a block, preceded by a blank line in the default graph unless it
/// is the very first. Pairs end `;` except a block's final pair, which
/// ends `.`.
pub open spec fn spec_compact_lines(
    ts: Seq<OwnedTriple>,
    pm: Option<Seq<(Seq<char>, Seq<char>)>>,
    named: bool,
    width: int,
    cur: Option<Seq<char>>,
) -> Seq<char>
    decreases ts.len(),
{
    if ts.len() == 0 {
        Seq::empty()
    } else {
        let t = ts[0];
        let subj = spec_format_subject(t, pm);
        let pred = spec_format_predicate(t, pm);
        let obj = spec_format_object(t, pm);
        let ind = indent_of(named);
        let term = spec_pair_term(ts, pm);
        let piece = if cur == Some(subj) {
            spec_statement(ind + "    "@ + pred, obj, ind + "        "@, term, width)
        } else {
            let blank: Seq<char> = if cur is Some && !named {
                "\n"@
            } else {
                Seq::empty()
            };
            blank + spec_statement(ind + subj + " "@ + pred, obj, ind + "    "@, term, width)
        };
        piece + spec_compact_lines(ts.drop_first(), pm, named, width, Some(subj))
    }
}

/// One graph bucket: the default graph's triples bare, a named graph's
/// wrapped in `<graph> {` and `}` with a trailing blank line.
pub open spec fn spec_bucket(
    key: Option<Seq<char>>,
    ts: Seq<OwnedTriple>,
    pm: Option<Seq<(Seq<char>, Seq<char>)>>,
    width: int,
) -> Seq<char> {
    match key {
        Some(g) => spec_resolve(g, pm) + " {"@ + "\n"@ + spec_compact_lines(
            ts,
            pm,
            true,
            width,
            None,
        ) + "}"@ + "\n"@ + "\n"@,
        None => spec_compact_lines(ts, pm, false, width, None),
    }
}

/// All buckets in order.
pub open spec fn spec_render_groups(
    gs: GroupsView,
    pm: Option<Seq<(Seq<char>, Seq<char>)>>,
    width: int,
) -> Seq<char>
    decreases gs.len(),
{
    if gs.len() == 0 {
        Seq::empty()
    } else {
        spec_bucket(gs[0].0, gs[0].1, pm, width) + spec_render_groups(gs.drop_first(), pm, width)
    }
}

/// The whole compact rendering of a triple set.
pub open spec fn spec_compact_output(
    ts: Seq<OwnedTriple>,
    pm: Option<Seq<(Seq<char>, Seq<char>)>>,
    width: int,
) -> Seq<char> {
    spec_render_groups(spec_groups(ts), pm, width)
}

/// Emits one predicate-object pair with its terminator, folded onto one
/// line when its printable width fits the terminal.
fn emit_statement(
    head: &str,
    obj: &str,
    cont_indent: &str,
    term: &str,
    width: usize,
    out: &mut String,
)
    ensures
        final(out)@ == old(out)@ + spec_statement(head@, obj@, cont_indent@, term@, width as int),
        appends(old(out)@, final(out)@),
{
    let ghost base = out@;
    let mut full = String::new();
    full.append(head);
    full.append(" ");
    full.append(obj);
    full.append(" ");
    full.append(term);
    proof {
        assert(full@ =~= head@ + " "@ + obj@ + " "@ + term@);
    }
    let stripped = strip_ansi_codes(full.as_str());
    let printable = stripped.as_str().unicode_len();
    if printable <= width {
        out.append(full.as_str());
        out.append("\n");
        proof {
            assert(out@ =~= base + (full@ + "\n"@));
        }
    } else {
        out.append(head);
        out.append(" ;");
        out.append("\n");
        out.append(cont_indent);
        out.append(obj);
        out.append(" ");
        out.append(term);
        out.append("\n");
        proof {
            assert(out@ =~= base + (head@ + " ;"@ + "\n"@ + cont_indent@ + obj@ + " "@ + term@
                + "\n"@));
        }
    }
    proof {
        assert(appends(base, out@)) by {
            assert(out@.subrange(0, base.len() as int) =~= base);
        }
    }
}

/// Prints the triples of one graph bucket, grouping consecutive equal
/// subjects into blocks.
#[verifier::rlimit(100)]
fn print_graph_triples(
    ts: &[OwnedTriple],
    prefixes: Option<&PrefixMap>,
    colors: &ColorConfig,
    named: bool,
    width: usize,
    out: &mut String,
)
    ensures
        appends(old(out)@, final(out)@),
        plain_colors(*colors) ==> final(out)@ == old(out)@ + spec_compact_lines(
            ts@,
            opt_pm_view(prefixes),
            named,
            width as int,
            None,
        ),
{
    let ghost base = out@;
    let ghost pmv = opt_pm_view(prefixes);
    let n = ts.len();
    let mut cur: Option<String> = None;
    let mut k: usize = 0;
    proof {
        assert(ts@.skip(0) =~= ts@);
        assert(appends(base, out@)) by {
            assert(out@.subrange(0, base.len() as int) =~= base);
        }
    }
    while k < n
        invariant
            n == ts@.len(),
            k <= n,
            pmv == opt_pm_view(prefixes),
            appends(base, out@),
            plain_colors(*colors) ==> out@ + spec_compact_lines(
                ts@.skip(k as int),
                pmv,
                named,
                width as int,
                opt_str_view(cur),
            ) =~= base + spec_compact_lines(ts@, pmv, named, width as int, None),
        decreases n - k,
    {
        let ghost rem = ts@.skip(k as int);
        let ghost before = out@;
        let ghost cur0 = opt_str_view(cur);
        let t = &ts[k];
        proof {
            assert(rem[0] == ts@[k as int]);
            assert(rem.drop_first() =~= ts@.skip(k + 1));
        }
        let subj = format_subject(t, prefixes, colors);
        let pred = format_predicate(t, prefixes, colors);
        let obj = format_object(t, prefixes, colors);
        let indent: &str = if named {
            "  "
        } else {
            ""
        };
        proof {
            assert(indent@ == indent_of(named));
        }
        let same = match &cur {
            Some(c) => crate::text::str_eq(c.as_str(), subj.as_str()),
            None => false,
        };
        let term: &str = if k + 1 < n {
            let subj_next = format_subject(&ts[k + 1], prefixes, colors);
            if crate::text::str_eq(subj_next.as_str(), subj.as_str()) {
                ";"
            } else {
                "."
            }
        } else {
            "."
        };
        proof {
            if k + 1 < n {
                assert(rem[1] == ts@[k + 1]);
            }
            assert(term@ == spec_pair_term(rem, pmv));
        }
        if same {
            let mut head = String::new();
            head.append(indent);
            head.append("    ");
            head.append(pred.as_str());
            let mut cont = String::new();
            cont.append(indent);
            cont.append("        ");
            emit_statement(head.as_str(), obj.as_str(), cont.as_str(), term, width, out);
            proof {
                if plain_colors(*colors) {
                    assert(head@ =~= indent_of(named) + "    "@ + spec_format_predicate(
                        ts@[k as int],
                        pmv,
                    ));
                    assert(cont@ =~= indent_of(named) + "        "@);
                    assert(cur0 == Some(spec_format_subject(ts@[k as int], pmv)));
                }
            }
        } else {
            if cur.is_some() && !named {
                out.append("\n");
            }
            let subj_col = colors.colorize(subj.as_str(), Role::Subject);
            let mut head = String::new();
            head.append(indent);
            head.append(subj_col.as_str());
            head.append(" ");
            head.append(pred.as_str());
            let mut cont = String::new();
            cont.append(indent);
            cont.append("    ");
            emit_statement(head.as_str(), obj.as_str(), cont.as_str(), term, width, out);
            proof {
                if plain_colors(*colors) {
                    assert(subj_col@ == subj@);
                    assert(head@ =~= indent_of(named) + spec_format_subject(ts@[k as int], pmv)
                        + " "@ + spec_format_predicate(ts@[k as int], pmv));
                    assert(cont@ =~= indent_of(named) + "    "@);
                    assert(cur0 != Some(spec_format_subject(ts@[k as int], pmv)));
                }
            }
            cur = Some(subj);
        }
        k = k + 1;
        proof {
            assert(appends(base, out@)) by {
                assert(out@.subrange(0, base.len() as int) =~= base);
            }
            if plain_colors(*colors) {
                assert(opt_str_view(cur) == Some(spec_format_subject(ts@[k - 1], pmv)));
                assert(out@ + spec_compact_lines(ts@.skip(k as int), pmv, named, width as int,
                    opt_str_view(cur)) =~= base + spec_compact_lines(
                    ts@,
                    pmv,
                    named,
                    width as int,
                    None,
                ));
            }
        }
    }
    proof {
        if plain_colors(*colors) {
            assert(spec_compact_lines(ts@.skip(n as int), pmv, named, width as int,
                opt_str_view(cur)) =~= Seq::<char>::empty());
            assert(out@ =~= out@ + spec_compact_lines(ts@.skip(n as int), pmv, named,
                width as int, opt_str_view(cur)));
        }
    }
}

/// Prints triples grouped by graph and subject in compact form: the
/// default graph first, named graphs in ascending IRI order wrapped in
/// braces, subjects folded onto one line when they fit the width. With
/// unstyled colors the text is exactly the compact rendering; any output
/// is append-only.
pub fn print_triples_to_writer(
    triples: &[OwnedTriple],
    prefixes: Option<&PrefixMap>,
    colors: &ColorConfig,
    width: usize,
    out: &mut String,
)
    ensures
        appends(old(out)@, final(out)@),
        plain_colors(*colors) ==> final(out)@ == old(out)@ + spec_compact_output(
            triples@,
            opt_pm_view(prefixes),
            width as int,
        ),
{
    let ghost base = out@;
    let ghost pmv = opt_pm_view(prefixes);
    let groups = group_by_graph(triples);
    let ghost gv = groups_view(groups@);
    let m = groups.len();
    let mut g: usize = 0;
    proof {
        assert(gv.skip(0) =~= gv);
        assert(appends(base, out@)) by {
            assert(out@.subrange(0, base.len() as int) =~= base);
        }
    }
    while g < m
        invariant
            m == groups@.len(),
            g <= m,
            gv == groups_view(groups@),
            pmv == opt_pm_view(prefixes),
            appends(base, out@),
            plain_colors(*colors) ==> out@ + spec_render_groups(gv.skip(g as int), pmv,
                width as int) =~= base + spec_render_groups(gv, pmv, width as int),
        decreases m - g,
    {
        let ghost rem = gv.skip(g as int);
        let ghost before = out@;
        proof {
            assert(rem[0] == gv[g as int]);
            assert(rem.drop_first() =~= gv.skip(g + 1));
            assert(gv[g as int] == (opt_str_view(groups@[g as int].0), groups@[g as int].1@));
        }
        let bucket = &groups[g];
        match &bucket.0 {
            Some(graph_name) => {
                let formatted = resolve_uri_with_prefixes(graph_name.as_str(), prefixes);
                let colored = colors.colorize(formatted.as_str(), Role::Graph);
                out.append(colored.as_str());
                out.append(" {");
                out.append("\n");
                let ghost mid1 = out@;
                print_graph_triples(bucket.1.as_slice(), prefixes, colors, true, width, out);
                let ghost mid2 = out@;
                out.append("}");
                out.append("\n");
                out.append("\n");
                proof {
                    assert(mid1 =~= before + (colored@ + " {"@ + "\n"@));
                    lemma_appends_concat(before, colored@ + " {"@ + "\n"@);
                    assert(out@ =~= mid2 + ("}"@ + "\n"@ + "\n"@));
                    lemma_appends_concat(mid2, "}"@ + "\n"@ + "\n"@);
                    lemma_appends_trans(before, mid1, mid2);
                    lemma_appends_trans(before, mid2, out@);
                    if plain_colors(*colors) {
                        assert(colored@ == spec_resolve(graph_name@, pmv));
                        assert(mid2 == mid1 + spec_compact_lines(groups@[g as int].1@, pmv, true,
                            width as int, None));
                        assert(out@ =~= before + spec_bucket(rem[0].0, rem[0].1, pmv,
                            width as int));
                    }
                }
            },
            None => {
                print_graph_triples(bucket.1.as_slice(), prefixes, colors, false, width, out);
                proof {
                    if plain_colors(*colors) {
                        assert(out@ =~= before + spec_bucket(rem[0].0, rem[0].1, pmv,
                            width as int));
                    }
                }
            },
        }
        g = g + 1;
        proof {
            lemma_appends_trans(base, before, out@);
            if plain_colors(*colors) {
                assert(spec_render_groups(rem, pmv, width as int) == spec_bucket(
                    rem[0].0,
                    rem[0].1,
                    pmv,
                    width as int,
                ) + spec_render_groups(gv.skip(g as int), pmv, width as int));
                assert(out@ + spec_render_groups(gv.skip(g as int), pmv, width as int) =~= base
                    + spec_render_groups(gv, pmv, width as int));
            }
        }
    }
    proof {
        assert(gv.skip(m as int) =~= Seq::<GroupsView>::empty().flatten());
        assert(gv.skip(m as int).len() == 0);
        if plain_colors(*colors) {
            assert(spec_render_groups(gv.skip(m as int), pmv, width as int) =~= Seq::<
                char,
            >::empty());
            assert(out@ =~= out@ + spec_render_groups(gv.skip(m as int), pmv, width as int));
            assert(out@ =~= base + spec_compact_output(triples@, pmv, width as int));
        }
    }
}

} // verus!
