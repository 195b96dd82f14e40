//! Fully expanded rendering: no prefix abbreviation, every statement on
//! multiple lines.

use vstd::prelude::*;
use crate::config::{ColorConfig, Role};
use crate::formatter::{group_by_graph, groups_view, opt_str_view, spec_groups, GroupsView};
use crate::formatter::compact::{appends, lemma_appends_concat, lemma_appends_trans, plain_colors};
use crate::formatter::writer::{
    format_object,
    format_predicate,
    format_subject,
    opt_pm_view,
    spec_format_object,
    spec_format_predicate,
    spec_format_subject,
};
use crate::prefix_map::PrefixMap;
use crate::types::OwnedTriple;
use crate::utils::{resolve_uri_with_prefixes, spec_resolve};

verus! {

/// The indentation inside a named-graph block.
pub open spec fn x_indent_of(named: bool) -> Seq<char> {
    if named {
        "  "@
    } else {
        ""@
    }
}

/// The terminator of the pair at the head of `ts`: a semicolon when the
/// next triple continues the same subject block, else a period.
pub open spec fn x_pair_term(
    ts: Seq<OwnedTriple>,
    pm: Option<Seq<(Seq<char>, Seq<char>)>>,
) -> Seq<char> {
    if ts.len() > 1 && spec_format_subject(ts[1], pm) == spec_format_subject(ts[0], pm) {
        ";"@
    } else {
        "."@
    }
}

/// The expanded lines of a run of triples inside one graph bucket: every
/// statement takes a predicate line and an object line; pairs end `;`
/// except a block's final pair, which ends `.`; a new subject opens a
/// block headed by the subject on its own line, preceded by a blank line
/// unless it is the very first.
pub open spec fn spec_expanded_lines(
    ts: Seq<OwnedTriple>,
    pm: Option<Seq<(Seq<char>, Seq<char>)>>,
    named: bool,
    cur: Option<Seq<char>>,
) -> Seq<char>
    decreases ts.len(),
{
    if ts.len() == 0 {
        Seq::empty()
    } else {
        let t = ts[0];
        let subj = spec_format_subject(t, pm);
        let pred = spec_format_predicate(t, pm);
        let obj = spec_format_object(t, pm);
        let ind = x_indent_of(named);
        let term = x_pair_term(ts, pm);
        let body = ind + "    "@ + pred + "\n"@ + ind + "        "@ + obj + " "@ + term + "\n"@;
        let piece = if cur == Some(subj) {
            body
        } else {
            let blank: Seq<char> = if cur is Some {
                "\n"@
            } else {
                Seq::empty()
            };
            blank + ind + subj + "\n"@ + body
        };
        piece + spec_expanded_lines(ts.drop_first(), pm, named, Some(subj))
    }
}

/// One graph bucket in expanded form.
pub open spec fn spec_expanded_bucket(
    key: Option<Seq<char>>,
    ts: Seq<OwnedTriple>,
    pm: Option<Seq<(Seq<char>, Seq<char>)>>,
) -> Seq<char> {
    match key {
        Some(g) => spec_resolve(g, pm) + " {"@ + "\n"@ + spec_expanded_lines(ts, pm, true, None)
            + "}"@ + "\n"@ + "\n"@,
        None => spec_expanded_lines(ts, pm, false, None),
    }
}

/// All buckets in order.
pub open spec fn spec_expanded_groups(
    gs: GroupsView,
    pm: Option<Seq<(Seq<char>, Seq<char>)>>,
) -> Seq<char>
    decreases gs.len(),
{
    if gs.len() == 0 {
        Seq::empty()
    } else {
        spec_expanded_bucket(gs[0].0, gs[0].1, pm) + spec_expanded_groups(gs.drop_first(), pm)
    }
}

/// The whole expanded rendering of a triple set.
pub open spec fn spec_expanded_output(
    ts: Seq<OwnedTriple>,
    pm: Option<Seq<(Seq<char>, Seq<char>)>>,
) -> Seq<char> {
    spec_expanded_groups(spec_groups(ts), pm)
}

/// Emits one `subject` line.
fn emit_subject_line(indent: &str, subj: &str, out: &mut String)
    ensures
        final(out)@ == old(out)@ + (indent@ + subj@ + "\n"@),
        appends(old(out)@, final(out)@),
{
    let ghost base = out@;
    out.append(indent);
    out.append(subj);
    out.append("\n");
    proof {
        assert(out@ =~= base + (indent@ + subj@ + "\n"@));
        lemma_appends_concat(base, indent@ + subj@ + "\n"@);
    }
}

/// Emits one predicate line and one object line ended by the pair's
/// terminator.
fn emit_pair(indent: &str, pred: &str, obj: &str, term: &str, out: &mut String)
    ensures
        final(out)@ == old(out)@ + (indent@ + "    "@ + pred@ + "\n"@ + indent@ + "        "@
            + obj@ + " "@ + term@ + "\n"@),
        appends(old(out)@, final(out)@),
{
    let ghost base = out@;
    out.append(indent);
    out.append("    ");
    out.append(pred);
    out.append("\n");
    out.append(indent);
    out.append("        ");
    out.append(obj);
    out.append(" ");
    out.append(term);
    out.append("\n");
    proof {
        assert(out@ =~= base + (indent@ + "    "@ + pred@ + "\n"@ + indent@ + "        "@ + obj@
            + " "@ + term@ + "\n"@));
        lemma_appends_concat(base, indent@ + "    "@ + pred@ + "\n"@ + indent@ + "        "@
            + obj@ + " "@ + term@ + "\n"@);
    }
}

/// Prints the triples of one graph bucket in expanded form.
#[verifier::rlimit(60)]
fn print_graph_triples_expanded(
    ts: &[OwnedTriple],
    prefixes: Option<&PrefixMap>,
    colors: &ColorConfig,
    named: bool,
    out: &mut String,
)
    ensures
        appends(old(out)@, final(out)@),
        plain_colors(*colors) ==> final(out)@ == old(out)@ + spec_expanded_lines(
            ts@,
            opt_pm_view(prefixes),
            named,
            None,
        ),
{
    let ghost base = out@;
    let ghost pmv = opt_pm_view(prefixes);
    let n = ts.len();
    let mut cur: Option<String> = None;
    let mut k: usize = 0;
    proof {
        assert(ts@.skip(0) =~= ts@);
        assert(appends(base, out@)) by {
            assert(out@.subrange(0, base.len() as int) =~= base);
        }
    }
    while k < n
        invariant
            n == ts@.len(),
            k <= n,
            pmv == opt_pm_view(prefixes),
            appends(base, out@),
            plain_colors(*colors) ==> out@ + spec_expanded_lines(
                ts@.skip(k as int),
                pmv,
                named,
                opt_str_view(cur),
            ) =~= base + spec_expanded_lines(ts@, pmv, named, None),
        decreases n - k,
    {
        let ghost rem = ts@.skip(k as int);
        let ghost before = out@;
        let ghost cur0 = opt_str_view(cur);
        let t = &ts[k];
        proof {
            assert(rem[0] == ts@[k as int]);
            assert(rem.drop_first() =~= ts@.skip(k + 1));
        }
        let subj = format_subject(t, prefixes, colors);
        let pred = format_predicate(t, prefixes, colors);
        let obj = format_object(t, prefixes, colors);
        let indent: &str = if named {
            "  "
        } else {
            ""
        };
        proof {
            assert(indent@ == x_indent_of(named));
        }
        let same = match &cur {
            Some(c) => crate::text::str_eq(c.as_str(), subj.as_str()),
            None => false,
        };
        let ghost mut blank: Seq<char> = Seq::empty();
        let ghost mut header: Seq<char> = Seq::empty();
        if !same {
            if cur.is_some() {
                out.append("\n");
                proof {
                    blank = "\n"@;
                }
            }
            let subj_bold = colors.colorize_bold(subj.as_str(), Role::Subject);
            emit_subject_line(indent, subj_bold.as_str(), out);
            proof {
                if plain_colors(*colors) {
                    assert(subj_bold@ == subj@);
                    header = indent@ + subj@ + "\n"@;
                    assert(out@ =~= before + blank + header);
                }
            }
        }
        let term: &str = if k + 1 < n {
            let subj_next = format_subject(&ts[k + 1], prefixes, colors);
            if crate::text::str_eq(subj_next.as_str(), subj.as_str()) {
                ";"
            } else {
                "."
            }
        } else {
            "."
        };
        proof {
            if k + 1 < n {
                assert(rem[1] == ts@[k + 1]);
            }
            assert(term@ == x_pair_term(rem, pmv));
        }
        let ghost mid2 = out@;
        emit_pair(indent, pred.as_str(), obj.as_str(), term, out);
        if !same {
            cur = Some(subj);
        }
        k = k + 1;
        proof {
            assert(appends(base, out@)) by {
                assert(out@.subrange(0, base.len() as int) =~= base);
            }
            if plain_colors(*colors) {
                let sp = spec_format_subject(ts@[k - 1], pmv);
                let body = x_indent_of(named) + "    "@ + spec_format_predicate(ts@[k - 1], pmv)
                    + "\n"@ + x_indent_of(named) + "        "@ + spec_format_object(
                    ts@[k - 1],
                    pmv,
                ) + " "@ + x_pair_term(rem, pmv) + "\n"@;
                assert(out@ =~= mid2 + body);
                assert(opt_str_view(cur) == Some(sp));
                if cur0 == Some(sp) {
                    assert(mid2 == before);
                    assert(out@ =~= before + body);
                } else {
                    let blank0: Seq<char> = if cur0 is Some {
                        "\n"@
                    } else {
                        Seq::empty()
                    };
                    assert(blank == blank0);
                    assert(mid2 =~= before + blank0 + (x_indent_of(named) + sp + "\n"@));
                    assert(out@ =~= before + (blank0 + x_indent_of(named) + sp + "\n"@ + body));
                }
                assert(out@ + spec_expanded_lines(ts@.skip(k as int), pmv, named,
                    opt_str_view(cur)) =~= base + spec_expanded_lines(ts@, pmv, named, None));
            }
        }
    }
    proof {
        if plain_colors(*colors) {
            assert(spec_expanded_lines(ts@.skip(n as int), pmv, named, opt_str_view(cur)) =~= Seq::<
                char,
            >::empty());
            assert(out@ =~= out@ + spec_expanded_lines(ts@.skip(n as int), pmv, named,
                opt_str_view(cur)));
        }
    }
}

/// Prints triples grouped by graph and subject in expanded form: the
/// default graph first, named graphs in ascending IRI order wrapped in
/// braces. With unstyled colors the text is exactly the expanded
/// rendering; any output is append-only.
pub fn print_triples_to_writer(
    triples: &[OwnedTriple],
    prefixes: Option<&PrefixMap>,
    colors: &ColorConfig,
    out: &mut String,
)
    ensures
        appends(old(out)@, final(out)@),
        plain_colors(*colors) ==> final(out)@ == old(out)@ + spec_expanded_output(
            triples@,
            opt_pm_view(prefixes),
        ),
{
    let ghost base = out@;
    let ghost pmv = opt_pm_view(prefixes);
    let groups = group_by_graph(triples);
    let ghost gv = groups_view(groups@);
    let m = groups.len();
    let mut g: usize = 0;
    proof {
        assert(gv.skip(0) =~= gv);
        assert(appends(base, out@)) by {
            assert(out@.subrange(0, base.len() as int) =~= base);
        }
    }
    while g < m
        invariant
            m == groups@.len(),
            g <= m,
            gv == groups_view(groups@),
            pmv == opt_pm_view(prefixes),
            appends(base, out@),
            plain_colors(*colors) ==> out@ + spec_expanded_groups(gv.skip(g as int), pmv) =~= base
                + spec_expanded_groups(gv, pmv),
        decreases m - g,
    {
        let ghost rem = gv.skip(g as int);
        let ghost before = out@;
        proof {
            assert(rem[0] == gv[g as int]);
            assert(rem.drop_first() =~= gv.skip(g + 1));
            assert(gv[g as int] == (opt_str_view(groups@[g as int].0), groups@[g as int].1@));
        }
        let bucket = &groups[g];
        match &bucket.0 {
            Some(graph_name) => {
                let formatted = resolve_uri_with_prefixes(graph_name.as_str(), prefixes);
                let colored = colors.colorize_bold(formatted.as_str(), Role::Graph);
                out.append(colored.as_str());
                out.append(" {");
                out.append("\n");
                let ghost mid1 = out@;
                print_graph_triples_expanded(bucket.1.as_slice(), prefixes, colors, true, out);
                let ghost mid2 = out@;
                out.append("}");
                out.append("\n");
                out.append("\n");
                proof {
                    assert(mid1 =~= before + (colored@ + " {"@ + "\n"@));
                    lemma_appends_concat(before, colored@ + " {"@ + "\n"@);
                    assert(out@ =~= mid2 + ("}"@ + "\n"@ + "\n"@));
                    lemma_appends_concat(mid2, "}"@ + "\n"@ + "\n"@);
                    lemma_appends_trans(before, mid1, mid2);
                    lemma_appends_trans(before, mid2, out@);
                    if plain_colors(*colors) {
                        assert(colored@ == spec_resolve(graph_name@, pmv));
                        assert(mid2 == mid1 + spec_expanded_lines(groups@[g as int].1@, pmv, true,
                            None));
                        assert(out@ =~= before + spec_expanded_bucket(rem[0].0, rem[0].1, pmv));
                    }
                }
            },
            None => {
                print_graph_triples_expanded(bucket.1.as_slice(), prefixes, colors, false, out);
                proof {
                    if plain_colors(*colors) {
                        assert(out@ =~= before + spec_expanded_bucket(rem[0].0, rem[0].1, pmv));
                    }
                }
            },
        }
        g = g + 1;
        proof {
            lemma_appends_trans(base, before, out@);
            if plain_colors(*colors) {
                assert(spec_expanded_groups(rem, pmv) == spec_expanded_bucket(
                    rem[0].0,
                    rem[0].1,
                    pmv,
                ) + spec_expanded_groups(gv.skip(g as int), pmv));
                assert(out@ + spec_expanded_groups(gv.skip(g as int), pmv) =~= base
                    + spec_expanded_groups(gv, pmv));
            }
        }
    }
    proof {
        assert(gv.skip(m as int).len() == 0);
        if plain_colors(*colors) {
            assert(spec_expanded_groups(gv.skip(m as int), pmv) =~= Seq::<char>::empty());
            assert(out@ =~= out@ + spec_expanded_groups(gv.skip(m as int), pmv));
            assert(out@ =~= base + spec_expanded_output(triples@, pmv));
        }
    }
}

} // verus!
