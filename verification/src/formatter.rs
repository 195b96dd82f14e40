//! Rendering triples as text: grouping by graph and subject, prefixed and
//! expanded term display, adaptive line folding, and the output size
//! estimate.

pub mod compact;
pub mod expanded;
pub mod writer;

use vstd::prelude::*;
use crate::text::{lemma_lex_connected, lemma_lex_irrefl, lemma_lex_trans, lex_less, lex_lt, str_eq};
use crate::prefix_map::PrefixMap;
use crate::types::OwnedTriple;

verus! {

/// The graph a triple belongs to, as a value: the default graph is `None`.
pub open spec fn spec_key(t: OwnedTriple) -> Option<Seq<char>> {
    match t.graph {
        Some(g) => Some(g@),
        None => None,
    }
}

/// Graph-key order: the default graph first, named graphs by their IRI.
pub open spec fn opt_key_lt(a: Option<Seq<char>>, b: Option<Seq<char>>) -> bool {
    match (a, b) {
        (Option::None, Option::None) => false,
        (Option::None, Option::Some(_)) => true,
        (Option::Some(_), Option::None) => false,
        (Option::Some(x), Option::Some(y)) => lex_lt(x, y),
    }
}

/// Key order is connected, irreflexive and transitive.
pub proof fn lemma_opt_key_order(a: Option<Seq<char>>, b: Option<Seq<char>>, c: Option<Seq<char>>)
    ensures
        a != b ==> opt_key_lt(a, b) || opt_key_lt(b, a),
        !opt_key_lt(a, a),
        opt_key_lt(a, b) && opt_key_lt(b, c) ==> opt_key_lt(a, c),
{
    match (a, b) {
        (Option::Some(x), Option::Some(y)) => {
            lemma_lex_connected(x, y);
        },
        _ => {},
    }
    match a {
        Option::Some(x) => {
            lemma_lex_irrefl(x);
        },
        Option::None => {},
    }
    if opt_key_lt(a, b) && opt_key_lt(b, c) {
        match (a, b, c) {
            (Option::Some(x), Option::Some(y), Option::Some(z)) => {
                lemma_lex_trans(x, y, z);
            },
            _ => {},
        }
    }
}

/// Buckets of triples keyed by graph.
pub type GroupsView = Seq<(Option<Seq<char>>, Seq<OwnedTriple>)>;

/// The view of an optional graph name.
pub open spec fn opt_str_view(o: Option<String>) -> Option<Seq<char>> {
    match o {
        Some(s) => Some(s@),
        None => None,
    }
}

/// The value-level view of the bucket vector.
pub open spec fn groups_view(gs: Seq<(Option<String>, Vec<OwnedTriple>)>) -> GroupsView {
    gs.map_values(|p: (Option<String>, Vec<OwnedTriple>)| (opt_str_view(p.0), p.1@))
}

/// Bucket keys strictly ascend: the default graph stands first and named
/// graphs follow in lexicographic IRI order, each key once.
pub open spec fn groups_sorted(gs: GroupsView) -> bool {
    forall|i: int, j: int|
        #![trigger gs[i], gs[j]]
        0 <= i < j < gs.len() ==> opt_key_lt(gs[i].0, gs[j].0)
}

/// `gs` with `t` added to its graph's bucket, a new bucket opening at its
/// ordered position.
pub open spec fn spec_add_to_groups(gs: GroupsView, t: OwnedTriple) -> GroupsView
    decreases gs.len(),
{
    if gs.len() == 0 {
        seq![(spec_key(t), seq![t])]
    } else if gs[0].0 == spec_key(t) {
        seq![(gs[0].0, gs[0].1.push(t))] + gs.drop_first()
    } else if opt_key_lt(spec_key(t), gs[0].0) {
        seq![(spec_key(t), seq![t])] + gs
    } else {
        seq![gs[0]] + spec_add_to_groups(gs.drop_first(), t)
    }
}

/// The buckets of `ts`, built by adding each triple in order.
pub open spec fn spec_groups(ts: Seq<OwnedTriple>) -> GroupsView
    decreases ts.len(),
{
    if ts.len() == 0 {
        Seq::empty()
    } else {
        spec_add_to_groups(spec_groups(ts.drop_last()), ts.last())
    }
}

/// Adding where the key already sits at `idx` appends to that bucket;
/// adding a fresh key opens a bucket at `idx`. Order and key uniqueness
/// are preserved either way.
pub proof fn lemma_add_to_groups_at(gs: GroupsView, t: OwnedTriple, idx: int)
    requires
        groups_sorted(gs),
        0 <= idx <= gs.len(),
        forall|j: int| 0 <= j < idx ==> (#[trigger] gs[j]).0 != spec_key(t) && !opt_key_lt(
            spec_key(t),
            gs[j].0,
        ),
        idx < gs.len() ==> gs[idx].0 == spec_key(t) || opt_key_lt(spec_key(t), gs[idx].0),
    ensures
        idx < gs.len() && gs[idx].0 == spec_key(t) ==> spec_add_to_groups(gs, t) =~= gs.update(
            idx,
            (gs[idx].0, gs[idx].1.push(t)),
        ),
        (idx == gs.len() || gs[idx].0 != spec_key(t)) ==> spec_add_to_groups(gs, t) =~= gs.insert(
            idx,
            (spec_key(t), seq![t]),
        ),
    decreases gs.len(),
{
    if gs.len() == 0 {
        assert(spec_add_to_groups(gs, t) =~= gs.insert(0, (spec_key(t), seq![t])));
    } else if idx == 0 {
        if gs[0].0 == spec_key(t) {
            assert(spec_add_to_groups(gs, t) =~= gs.update(0, (gs[0].0, gs[0].1.push(t))));
        } else {
            lemma_opt_key_order(spec_key(t), gs[0].0, gs[0].0);
            assert(opt_key_lt(spec_key(t), gs[0].0));
            assert(spec_add_to_groups(gs, t) =~= gs.insert(0, (spec_key(t), seq![t])));
        }
    } else {
        assert(gs[0].0 != spec_key(t) && !opt_key_lt(spec_key(t), gs[0].0));
        let tail = gs.drop_first();
        assert forall|i: int, j: int|
            #![trigger tail[i], tail[j]]
            0 <= i < j < tail.len() implies opt_key_lt(tail[i].0, tail[j].0) by {
            assert(gs[i + 1] == tail[i] && gs[j + 1] == tail[j]);
        }
        assert forall|j: int| 0 <= j < idx - 1 implies (#[trigger] tail[j]).0 != spec_key(t)
            && !opt_key_lt(spec_key(t), tail[j].0) by {
            assert(gs[j + 1] == tail[j]);
        }
        if idx - 1 < tail.len() {
            assert(tail[idx - 1] == gs[idx]);
        }
        lemma_add_to_groups_at(tail, t, idx - 1);
        if idx < gs.len() && gs[idx].0 == spec_key(t) {
            assert(spec_add_to_groups(tail, t) =~= tail.update(
                idx - 1,
                (tail[idx - 1].0, tail[idx - 1].1.push(t)),
            ));
            assert(spec_add_to_groups(gs, t) =~= gs.update(idx, (gs[idx].0, gs[idx].1.push(t))));
        } else {
            assert(spec_add_to_groups(tail, t) =~= tail.insert(idx - 1, (spec_key(t), seq![t])));
            assert(spec_add_to_groups(gs, t) =~= gs.insert(idx, (spec_key(t), seq![t])));
        }
    }
}

/// Adding a triple keeps the buckets sorted with unique keys.
pub proof fn lemma_add_to_groups_sorted(gs: GroupsView, t: OwnedTriple, idx: int)
    requires
        groups_sorted(gs),
        0 <= idx <= gs.len(),
        forall|j: int| 0 <= j < idx ==> (#[trigger] gs[j]).0 != spec_key(t) && !opt_key_lt(
            spec_key(t),
            gs[j].0,
        ),
        idx < gs.len() ==> gs[idx].0 == spec_key(t) || opt_key_lt(spec_key(t), gs[idx].0),
    ensures
        groups_sorted(spec_add_to_groups(gs, t)),
{
    lemma_add_to_groups_at(gs, t, idx);
    let out = spec_add_to_groups(gs, t);
    if idx < gs.len() && gs[idx].0 == spec_key(t) {
        assert forall|i: int, j: int|
            #![trigger out[i], out[j]]
            0 <= i < j < out.len() implies opt_key_lt(out[i].0, out[j].0) by {
            assert(out[i].0 == gs[i].0 && out[j].0 == gs[j].0);
        }
    } else {
        assert forall|i: int, j: int|
            #![trigger out[i], out[j]]
            0 <= i < j < out.len() implies opt_key_lt(out[i].0, out[j].0) by {
            if i < idx && j < idx {
                assert(out[i] == gs[i] && out[j] == gs[j]);
            } else if i < idx && j == idx {
                assert(out[i] == gs[i]);
                assert(gs[i].0 != spec_key(t) && !opt_key_lt(spec_key(t), gs[i].0));
                lemma_opt_key_order(gs[i].0, spec_key(t), spec_key(t));
            } else if i < idx && j > idx {
                assert(out[i] == gs[i] && out[j] == gs[j - 1]);
            } else if i == idx && j > idx {
                assert(out[j] == gs[j - 1]);
                if idx < gs.len() {
                    assert(opt_key_lt(spec_key(t), gs[idx].0));
                    if j - 1 == idx {
                    } else {
                        assert(opt_key_lt(gs[idx].0, gs[j - 1].0));
                        lemma_opt_key_order(spec_key(t), gs[idx].0, gs[j - 1].0);
                    }
                } else {
                    assert(false);
                }
            } else {
                assert(out[i] == gs[i - 1] && out[j] == gs[j - 1]);
            }
        }
    }
}

/// Buckets `triples` by graph: the default graph's bucket first, named
/// graphs in ascending lexicographic IRI order, each triple appended to
/// its graph's bucket in input order.
pub fn group_by_graph(triples: &[OwnedTriple]) -> (r: Vec<(Option<String>, Vec<OwnedTriple>)>)
    ensures
        groups_view(r@) == spec_groups(triples@),
        groups_sorted(groups_view(r@)),
{
    let n = triples.len();
    let mut r: Vec<(Option<String>, Vec<OwnedTriple>)> = Vec::new();
    let mut i: usize = 0;
    proof {
        assert(triples@.subrange(0, 0) =~= Seq::<OwnedTriple>::empty());
        assert(groups_view(r@) =~= spec_groups(triples@.subrange(0, 0)));
    }
    while i < n
        invariant
            n == triples@.len(),
            i <= n,
            groups_view(r@) == spec_groups(triples@.subrange(0, i as int)),
            groups_sorted(groups_view(r@)),
        decreases n - i,
    {
        let t = &triples[i];
        let ghost gv = groups_view(r@);
        let ghost key = spec_key(triples@[i as int]);
        let m = r.len();
        let mut idx: usize = 0;
        let mut found_eq = false;
        let mut stop = false;
        while idx < m && !stop
            invariant
                m == r@.len(),
                gv == groups_view(r@),
                idx <= m,
                *t == triples@[i as int],
                i < n,
                n == triples@.len(),
                key == spec_key(triples@[i as int]),
                forall|j: int|
                    0 <= j < idx ==> (#[trigger] gv[j]).0 != key && !opt_key_lt(key, gv[j].0),
                found_eq ==> stop,
                stop ==> idx < m,
                stop && found_eq ==> gv[idx as int].0 == key,
                stop && !found_eq ==> opt_key_lt(key, gv[idx as int].0),
            decreases m - idx, (if stop { 0int } else { 1int }),
        {
            proof {
                assert(gv[idx as int].0 == opt_str_view(r@[idx as int].0));
            }
            let same = keys_equal(&r[idx].0, &t.graph);
            if same {
                found_eq = true;
                stop = true;
            } else {
                let before = key_less(&t.graph, &r[idx].0);
                if before {
                    stop = true;
                } else {
                    proof {
                        lemma_opt_key_order(key, gv[idx as int].0, gv[idx as int].0);
                    }
                    idx = idx + 1;
                }
            }
        }
        proof {
            assert(idx <= gv.len());
            if idx < m && !found_eq {
                assert(opt_key_lt(key, gv[idx as int].0));
                if gv[idx as int].0 == key {
                    lemma_opt_key_order(key, gv[idx as int].0, gv[idx as int].0);
                    assert(false);
                }
            }
            lemma_add_to_groups_at(gv, triples@[i as int], idx as int);
            lemma_add_to_groups_sorted(gv, triples@[i as int], idx as int);
        }
        if found_eq {
            let (bk, mut bvec) = r.remove(idx);
            bvec.push(t.clone());
            r.insert(idx, (bk, bvec));
            proof {
                assert(groups_view(r@) =~= gv.update(
                    idx as int,
                    (gv[idx as int].0, gv[idx as int].1.push(triples@[i as int])),
                ));
            }
        } else {
            let mut fresh: Vec<OwnedTriple> = Vec::new();
            fresh.push(t.clone());
            let key_copy = clone_key(&t.graph);
            r.insert(idx, (key_copy, fresh));
            proof {
                assert(groups_view(r@) =~= gv.insert(
                    idx as int,
                    (key, seq![triples@[i as int]]),
                ));
            }
        }
        i = i + 1;
        proof {
            assert(triples@.subrange(0, i as int).drop_last() =~= triples@.subrange(0, i - 1));
            assert(triples@.subrange(0, i as int).last() == triples@[i - 1]);
            assert(groups_view(r@) =~= spec_add_to_groups(
                spec_groups(triples@.subrange(0, i - 1)),
                triples@[i - 1],
            ));
        }
    }
    proof {
        assert(triples@.subrange(0, n as int) =~= triples@);
    }
    r
}

/// Renders the triples: compact mode prints the prefix block and the
/// prefixed triples, expanded mode prints the triples with full IRIs and
/// no prefix block. With unstyled colors the text is exact; any output is
/// append-only.
pub fn render_output(
    triples: &[OwnedTriple],
    prefixes: &PrefixMap,
    should_expand: bool,
    colors: &crate::config::ColorConfig,
    width: usize,
    out: &mut String,
)
    ensures
        compact::appends(old(out)@, final(out)@),
        compact::plain_colors(*colors) && !should_expand ==> final(out)@ == old(out)@
            + compact::spec_prefix_block(prefixes@) + compact::spec_compact_output(
            triples@,
            Some(prefixes@),
            width as int,
        ),
        compact::plain_colors(*colors) && should_expand ==> final(out)@ == old(out)@
            + expanded::spec_expanded_output(triples@, None),
{
    let ghost base = out@;
    if !should_expand {
        compact::print_prefixes_to_writer(prefixes, colors, out);
        let ghost mid = out@;
        compact::print_triples_to_writer(triples, Some(prefixes), colors, width, out);
        proof {
            compact::lemma_appends_trans(base, mid, out@);
            if compact::plain_colors(*colors) {
                assert(writer::opt_pm_view(Some(prefixes)) == Some(prefixes@));
                assert(out@ =~= base + compact::spec_prefix_block(prefixes@)
                    + compact::spec_compact_output(triples@, Some(prefixes@), width as int));
            }
        }
    } else {
        expanded::print_triples_to_writer(triples, None, colors, out);
        proof {
            if compact::plain_colors(*colors) {
                assert(writer::opt_pm_view(None) == Option::<Seq<(Seq<char>, Seq<char>)>>::None);
            }
        }
    }
}

/// The subject identity used when estimating: its kind and its text.
pub open spec fn subj_key(t: OwnedTriple) -> (crate::types::SubjectType, Seq<char>) {
    (t.subject_type, t.subject_value@)
}

/// Subjects of one bucket with how many statements each has.
pub type TallyView = Seq<((crate::types::SubjectType, Seq<char>), int)>;

/// `tl` with one more statement for subject `k`: a known subject's count
/// grows, a new subject is appended with count one.
pub open spec fn spec_add_tally(tl: TallyView, k: (crate::types::SubjectType, Seq<char>)) -> TallyView
    decreases tl.len(),
{
    if tl.len() == 0 {
        seq![(k, 1int)]
    } else if tl[0].0 == k {
        seq![(tl[0].0, tl[0].1 + 1)] + tl.drop_first()
    } else {
        seq![tl[0]] + spec_add_tally(tl.drop_first(), k)
    }
}

/// The subject tallies of a bucket, in first-seen order.
pub open spec fn spec_tallies(ts: Seq<OwnedTriple>) -> TallyView
    decreases ts.len(),
{
    if ts.len() == 0 {
        Seq::empty()
    } else {
        spec_add_tally(spec_tallies(ts.drop_last()), subj_key(ts.last()))
    }
}

/// Every count is at least one and at most `bound`.
pub open spec fn tally_wf(tl: TallyView, bound: int) -> bool {
    forall|i: int| 0 <= i < tl.len() ==> 1 <= (#[trigger] tl[i]).1 <= bound
}

/// Subjects never repeat in a tally.
pub open spec fn tally_keys_distinct(tl: TallyView) -> bool {
    forall|i: int, j: int|
        #![trigger tl[i], tl[j]]
        0 <= i < j < tl.len() ==> tl[i].0 != tl[j].0
}

/// Adding a statement keeps counts positive, bounded one higher, and
/// keys distinct; where the key sits at `idx` the count there grows, a
/// fresh key lands at the end.
pub proof fn lemma_add_tally_at(tl: TallyView, k: (crate::types::SubjectType, Seq<char>), idx: int, bound: int)
    requires
        tally_keys_distinct(tl),
        tally_wf(tl, bound),
        bound >= 0,
        0 <= idx <= tl.len(),
        forall|j: int| 0 <= j < idx ==> (#[trigger] tl[j]).0 != k,
        idx < tl.len() ==> tl[idx].0 == k,
    ensures
        idx < tl.len() ==> spec_add_tally(tl, k) =~= tl.update(idx, (k, tl[idx].1 + 1)),
        idx == tl.len() ==> spec_add_tally(tl, k) =~= tl.push((k, 1int)),
        tally_keys_distinct(spec_add_tally(tl, k)),
        tally_wf(spec_add_tally(tl, k), bound + 1),
    decreases tl.len(),
{
    let out = spec_add_tally(tl, k);
    if tl.len() == 0 {
        assert(out =~= tl.push((k, 1int)));
    } else if idx == 0 {
        assert(tl[0].0 == k);
        assert(out =~= tl.update(0, (k, tl[0].1 + 1)));
        assert forall|i: int, j: int|
            #![trigger out[i], out[j]]
            0 <= i < j < out.len() implies out[i].0 != out[j].0 by {
            assert(tl[i].0 != tl[j].0);
            assert(out[i].0 == tl[i].0 && out[j].0 == tl[j].0);
        }
        assert forall|i: int| 0 <= i < out.len() implies 1 <= (#[trigger] out[i]).1 <= bound
            + 1 by {
            assert(1 <= tl[i].1 <= bound);
        }
    } else {
        let tail = tl.drop_first();
        assert forall|i: int, j: int|
            #![trigger tail[i], tail[j]]
            0 <= i < j < tail.len() implies tail[i].0 != tail[j].0 by {
            assert(tl[i + 1] == tail[i] && tl[j + 1] == tail[j]);
        }
        assert forall|i: int| 0 <= i < tail.len() implies 1 <= (#[trigger] tail[i]).1 <= bound by {
            assert(tl[i + 1] == tail[i]);
            assert(1 <= tl[i + 1].1 <= bound);
        }
        assert forall|j: int| 0 <= j < idx - 1 implies (#[trigger] tail[j]).0 != k by {
            assert(tl[j + 1] == tail[j]);
        }
        if idx - 1 < tail.len() {
            assert(tail[idx - 1] == tl[idx]);
        }
        lemma_add_tally_at(tail, k, idx - 1, bound);
        if idx < tl.len() {
            assert(spec_add_tally(tail, k) =~= tail.update(idx - 1, (k, tail[idx - 1].1 + 1)));
            assert(out =~= tl.update(idx, (k, tl[idx].1 + 1)));
        } else {
            assert(spec_add_tally(tail, k) =~= tail.push((k, 1int)));
            assert(out =~= tl.push((k, 1int)));
        }
        assert forall|i: int, j: int|
            #![trigger out[i], out[j]]
            0 <= i < j < out.len() implies out[i].0 != out[j].0 by {
            let ot = spec_add_tally(tail, k);
            if i == 0 {
                assert(out[j] == ot[j - 1]);
                if idx < tl.len() {
                    if j == idx {
                        assert(out[j].0 == k);
                        assert(out[0].0 == tl[0].0);
                        assert(tl[0].0 != k);
                    } else {
                        assert(ot[j - 1] == tail[j - 1]);
                        assert(tl[0].0 != tl[j].0);
                    }
                } else {
                    if j == out.len() - 1 {
                        assert(out[j].0 == k);
                    } else {
                        assert(tl[0].0 != tl[j].0);
                    }
                }
            } else {
                assert(out[i] == ot[i - 1] && out[j] == ot[j - 1]);
                assert(ot[i - 1].0 != ot[j - 1].0);
            }
        }
        assert forall|i: int| 0 <= i < out.len() implies 1 <= (#[trigger] out[i]).1 <= bound
            + 1 by {
            let ot = spec_add_tally(tail, k);
            if i == 0 {
                assert(1 <= tl[0].1 <= bound);
            } else {
                assert(out[i] == ot[i - 1]);
                assert(1 <= ot[i - 1].1 <= bound + 1);
            }
        }
    }
}

/// The tallies of any bucket have positive counts bounded by the bucket
/// size, and distinct subjects.
pub proof fn lemma_tallies_wf(ts: Seq<OwnedTriple>)
    ensures
        tally_wf(spec_tallies(ts), ts.len() as int),
        tally_keys_distinct(spec_tallies(ts)),
        spec_tallies(ts).len() <= ts.len(),
    decreases ts.len(),
{
    if ts.len() > 0 {
        lemma_tallies_wf(ts.drop_last());
        let tl = spec_tallies(ts.drop_last());
        let k = subj_key(ts.last());
        let idx = lemma_first_tally_index(tl, k);
        lemma_add_tally_at(tl, k, idx, ts.len() - 1);
    }
}

/// The position where a key first occurs in a tally, or the length.
pub proof fn lemma_first_tally_index(tl: TallyView, k: (crate::types::SubjectType, Seq<char>)) -> (idx: int)
    ensures
        0 <= idx <= tl.len(),
        forall|j: int| 0 <= j < idx ==> (#[trigger] tl[j]).0 != k,
        idx < tl.len() ==> tl[idx].0 == k,
    decreases tl.len(),
{
    if tl.len() == 0 {
        0
    } else if tl[0].0 == k {
        0
    } else {
        let w = lemma_first_tally_index(tl.drop_first(), k);
        assert forall|j: int| 0 <= j < w + 1 implies (#[trigger] tl[j]).0 != k by {
            if j > 0 {
                assert(tl.drop_first()[j - 1].0 != k);
            }
        }
        if w + 1 < tl.len() {
            assert(tl[w + 1] == tl.drop_first()[w]);
        }
        w + 1
    }
}

/// The line count of a tally: three lines per subject plus two for each
/// statement beyond the first.
pub open spec fn sum_tally(tl: TallyView) -> int
    decreases tl.len(),
{
    if tl.len() == 0 {
        0
    } else {
        3 + (tl[0].1 - 1) * 2 + sum_tally(tl.drop_first())
    }
}

/// A well-formed tally's line count is nonnegative.
pub proof fn lemma_sum_tally_nonneg(tl: TallyView, bound: int)
    requires
        tally_wf(tl, bound),
    ensures
        sum_tally(tl) >= 0,
    decreases tl.len(),
{
    if tl.len() > 0 {
        let tail = tl.drop_first();
        assert forall|i: int| 0 <= i < tail.len() implies 1 <= (#[trigger] tail[i]).1 <= bound by {
            assert(tl[i + 1] == tail[i]);
            assert(1 <= tl[i + 1].1 <= bound);
        }
        lemma_sum_tally_nonneg(tail, bound);
        assert(tl[0].1 >= 1);
    }
}

/// The estimated line count of one bucket: three lines of framing for a
/// named graph, plus the subject lines.
pub open spec fn spec_bucket_lines(named: bool, ts: Seq<OwnedTriple>) -> int {
    let tl = spec_tallies(ts);
    (if named {
        3int
    } else {
        0int
    }) + sum_tally(tl) + (if tl.len() > 0 {
        tl.len() - 1
    } else {
        0int
    })
}

/// A bucket's estimate is nonnegative.
pub proof fn lemma_bucket_lines_nonneg(named: bool, ts: Seq<OwnedTriple>)
    ensures
        spec_bucket_lines(named, ts) >= 0,
{
    lemma_tallies_wf(ts);
    lemma_sum_tally_nonneg(spec_tallies(ts), ts.len() as int);
}

/// The estimated line count of a bucket list.
pub open spec fn spec_groups_lines(gs: GroupsView) -> int
    decreases gs.len(),
{
    if gs.len() == 0 {
        0
    } else {
        spec_bucket_lines(gs[0].0 is Some, gs[0].1) + spec_groups_lines(gs.drop_first())
    }
}

/// A bucket list's estimate is nonnegative.
pub proof fn lemma_groups_lines_nonneg(gs: GroupsView)
    ensures
        spec_groups_lines(gs) >= 0,
    decreases gs.len(),
{
    if gs.len() > 0 {
        lemma_bucket_lines_nonneg(gs[0].0 is Some, gs[0].1);
        lemma_groups_lines_nonneg(gs.drop_first());
    }
}

/// The estimated number of output lines: the prefix block when
/// compacting, then per graph three lines of bucket framing for named
/// graphs, three lines per distinct subject, two more per extra
/// statement, and a blank line between subjects.
pub open spec fn spec_estimate(
    ts: Seq<OwnedTriple>,
    pm: Seq<(Seq<char>, Seq<char>)>,
    expand: bool,
) -> int {
    (if !expand && pm.len() > 0 {
        pm.len() + 1
    } else {
        0
    }) + spec_groups_lines(spec_groups(ts))
}

/// The value-level view of a tally vector.
pub open spec fn tally_view(s: Seq<((crate::types::SubjectType, String), usize)>) -> TallyView {
    s.map_values(|p: ((crate::types::SubjectType, String), usize)| ((p.0.0, p.0.1@), p.1 as int))
}

/// The estimated line count of one bucket.
fn bucket_line_count(named: bool, ts: &[OwnedTriple]) -> (r: usize)
    requires
        spec_bucket_lines(named, ts@) <= usize::MAX,
    ensures
        r == spec_bucket_lines(named, ts@),
{
    let n = ts.len();
    let mut tally: Vec<((crate::types::SubjectType, String), usize)> = Vec::new();
    let mut k: usize = 0;
    proof {
        assert(ts@.subrange(0, 0) =~= Seq::<OwnedTriple>::empty());
        assert(tally_view(tally@) =~= spec_tallies(ts@.subrange(0, 0)));
    }
    while k < n
        invariant
            n == ts@.len(),
            k <= n,
            tally_view(tally@) == spec_tallies(ts@.subrange(0, k as int)),
            tally_keys_distinct(tally_view(tally@)),
            tally_wf(tally_view(tally@), k as int),
        decreases n - k,
    {
        let ghost tv = tally_view(tally@);
        let ghost key = subj_key(ts@[k as int]);
        let t = &ts[k];
        let m = tally.len();
        let mut idx: usize = 0;
        let mut found = false;
        while idx < m && !found
            invariant
                m == tally@.len(),
                tv == tally_view(tally@),
                idx <= m,
                *t == ts@[k as int],
                k < n,
                n == ts@.len(),
                key == subj_key(ts@[k as int]),
                forall|j: int| 0 <= j < idx ==> (#[trigger] tv[j]).0 != key,
                found ==> idx < m && tv[idx as int].0 == key,
            decreases m - idx, (if found { 0int } else { 1int }),
        {
            proof {
                assert(tv[idx as int] == ((tally@[idx as int].0.0, tally@[idx as int].0.1@),
                    tally@[idx as int].1 as int));
            }
            let same = tally[idx].0.0 == t.subject_type && str_eq(
                tally[idx].0.1.as_str(),
                t.subject_value.as_str(),
            );
            if same {
                found = true;
            } else {
                idx = idx + 1;
            }
        }
        proof {
            lemma_add_tally_at(tv, key, idx as int, k as int);
        }
        if found {
            let (tk, c) = tally.remove(idx);
            proof {
                assert(tv[idx as int].1 == c as int);
                assert(1 <= c as int <= k as int);
            }
            tally.insert(idx, (tk, c + 1));
            proof {
                assert(tally_view(tally@) =~= tv.update(idx as int, (key, tv[idx as int].1 + 1)));
            }
        } else {
            tally.push(((t.subject_type, t.subject_value.clone()), 1));
            proof {
                assert(tally_view(tally@) =~= tv.push((key, 1int)));
            }
        }
        k = k + 1;
        proof {
            assert(ts@.subrange(0, k as int).drop_last() =~= ts@.subrange(0, k - 1));
            assert(ts@.subrange(0, k as int).last() == ts@[k - 1]);
            assert(tally_view(tally@) =~= spec_add_tally(
                spec_tallies(ts@.subrange(0, k - 1)),
                subj_key(ts@[k - 1]),
            ));
            assert forall|i: int| 0 <= i < tally_view(tally@).len() implies 1 <= (#[trigger] tally_view(
                tally@,
            )[i]).1 <= k as int by {
                assert(tally_wf(spec_add_tally(tv, key), (k - 1) + 1));
            }
        }
    }
    proof {
        assert(ts@.subrange(0, n as int) =~= ts@);
    }
    let ghost tl = spec_tallies(ts@);
    let s = tally.len();
    let mut total: usize = if named {
        3
    } else {
        0
    };
    proof {
        lemma_tallies_wf(ts@);
        lemma_sum_tally_nonneg(tl, ts@.len() as int);
    }
    if s > 0 {
        total = total + (s - 1);
    }
    let ghost fixed = total as int;
    let mut j: usize = 0;
    proof {
        assert(tl.skip(0) =~= tl);
        lemma_sum_suffix_nonneg(tl, 0, ts@.len() as int);
    }
    while j < s
        invariant
            s == tally@.len(),
            j <= s,
            tally_view(tally@) == tl,
            tally_wf(tl, ts@.len() as int),
            total as int == fixed + (sum_tally(tl) - sum_tally(tl.skip(j as int))),
            fixed + sum_tally(tl) == spec_bucket_lines(named, ts@),
            spec_bucket_lines(named, ts@) <= usize::MAX,
            fixed >= 0,
            sum_tally(tl.skip(j as int)) >= 0,
        decreases s - j,
    {
        let ghost rem = tl.skip(j as int);
        let c = tally[j].1;
        proof {
            assert(rem[0] == tl[j as int]);
            assert(tl[j as int] == ((tally@[j as int].0.0, tally@[j as int].0.1@),
                tally@[j as int].1 as int));
            assert(rem.drop_first() =~= tl.skip(j + 1));
            assert(sum_tally(rem) == 3 + (rem[0].1 - 1) * 2 + sum_tally(tl.skip(j + 1)));
            lemma_sum_suffix_nonneg(tl, j + 1, ts@.len() as int);
            assert(1 <= c as int);
            assert((c as int - 1) * 2 == sum_tally(rem) - 3 - sum_tally(tl.skip(j + 1)));
            assert(sum_tally(rem) == fixed + sum_tally(tl) - total as int);
            assert(total as int + 3 + (c as int - 1) * 2 <= spec_bucket_lines(named, ts@));
        }
        total = total + 3 + (c - 1) * 2;
        j = j + 1;
    }
    proof {
        assert(tl.skip(s as int) =~= Seq::<((crate::types::SubjectType, Seq<char>), int)>::empty());
        assert(sum_tally(tl.skip(s as int)) == 0);
    }
    total
}

/// The line count of any tally suffix is nonnegative.
proof fn lemma_sum_suffix_nonneg(tl: TallyView, j: int, bound: int)
    requires
        tally_wf(tl, bound),
        0 <= j <= tl.len(),
    ensures
        sum_tally(tl.skip(j)) >= 0,
{
    let suf = tl.skip(j);
    assert forall|i: int| 0 <= i < suf.len() implies 1 <= (#[trigger] suf[i]).1 <= bound by {
        assert(tl[j + i] == suf[i]);
        assert(1 <= tl[j + i].1 <= bound);
    }
    lemma_sum_tally_nonneg(suf, bound);
}

/// Estimates how many lines the rendered output will take: the prefix
/// block when compacting, three framing lines per named graph, three
/// lines per distinct subject plus two per extra statement, and a blank
/// line between subjects.
pub fn estimate_output_lines(triples: &[OwnedTriple], prefixes: &PrefixMap, should_expand: bool) -> (r: usize)
    requires
        spec_estimate(triples@, prefixes@, should_expand) <= usize::MAX,
    ensures
        r == spec_estimate(triples@, prefixes@, should_expand),
{
    let groups = group_by_graph(triples);
    let ghost gv = groups_view(groups@);
    let ghost total = spec_estimate(triples@, prefixes@, should_expand);
    let mut lines: usize = 0;
    if !should_expand && !prefixes.is_empty() {
        proof {
            lemma_groups_lines_nonneg(gv);
        }
        lines = prefixes.len() + 1;
    }
    let m = groups.len();
    let mut g: usize = 0;
    proof {
        assert(gv.skip(0) =~= gv);
    }
    while g < m
        invariant
            m == groups@.len(),
            g <= m,
            gv == groups_view(groups@),
            lines as int + spec_groups_lines(gv.skip(g as int)) == total,
            total <= usize::MAX,
        decreases m - g,
    {
        let ghost rem = gv.skip(g as int);
        proof {
            assert(rem[0] == gv[g as int]);
            assert(rem.drop_first() =~= gv.skip(g + 1));
            assert(gv[g as int] == (opt_str_view(groups@[g as int].0), groups@[g as int].1@));
            assert(spec_groups_lines(rem) == spec_bucket_lines(rem[0].0 is Some, rem[0].1)
                + spec_groups_lines(gv.skip(g + 1)));
            lemma_groups_lines_nonneg(gv.skip(g + 1));
            lemma_bucket_lines_nonneg(rem[0].0 is Some, rem[0].1);
        }
        let bucket = &groups[g];
        let named = bucket.0.is_some();
        let b = bucket_line_count(named, bucket.1.as_slice());
        lines = lines + b;
        g = g + 1;
    }
    proof {
        assert(gv.skip(m as int).len() == 0);
        assert(spec_groups_lines(gv.skip(m as int)) == 0);
    }
    lines
}

/// Whether two optional graph names hold the same value.
fn keys_equal(a: &Option<String>, b: &Option<String>) -> (r: bool)
    ensures
        r == (opt_str_view(*a) == opt_str_view(*b)),
{
    match (a, b) {
        (Option::None, Option::None) => true,
        (Option::Some(x), Option::Some(y)) => str_eq(x.as_str(), y.as_str()),
        _ => false,
    }
}

/// Whether key `a` comes before key `b`.
fn key_less(a: &Option<String>, b: &Option<String>) -> (r: bool)
    ensures
        r == opt_key_lt(opt_str_view(*a), opt_str_view(*b)),
{
    match (a, b) {
        (Option::None, Option::None) => false,
        (Option::None, Option::Some(_)) => true,
        (Option::Some(_), Option::None) => false,
        (Option::Some(x), Option::Some(y)) => {
            let xv = crate::text::chars_of(x.as_str());
            let yv = crate::text::chars_of(y.as_str());
            lex_less(xv.as_slice(), yv.as_slice())
        },
    }
}

/// An exact copy of an optional graph name.
fn clone_key(o: &Option<String>) -> (r: Option<String>)
    ensures
        r == *o,
{
    match o {
        Some(s) => Some(s.clone()),
        None => None,
    }
}

/// The position where `k` belongs among sorted buckets: past every key
/// below it, at its own key or the first greater one.
pub proof fn lemma_first_group_index(gs: GroupsView, k: Option<Seq<char>>) -> (idx: int)
    requires
        groups_sorted(gs),
    ensures
        0 <= idx <= gs.len(),
        forall|j: int| 0 <= j < idx ==> (#[trigger] gs[j]).0 != k && !opt_key_lt(k, gs[j].0),
        idx < gs.len() ==> gs[idx].0 == k || opt_key_lt(k, gs[idx].0),
    decreases gs.len(),
{
    if gs.len() == 0 {
        0
    } else if gs[0].0 == k || opt_key_lt(k, gs[0].0) {
        0
    } else {
        let tail = gs.drop_first();
        assert forall|i: int, j: int|
            #![trigger tail[i], tail[j]]
            0 <= i < j < tail.len() implies opt_key_lt(tail[i].0, tail[j].0) by {
            assert(gs[i + 1] == tail[i] && gs[j + 1] == tail[j]);
        }
        let w = lemma_first_group_index(tail, k);
        assert forall|j: int| 0 <= j < w + 1 implies (#[trigger] gs[j]).0 != k && !opt_key_lt(
            k,
            gs[j].0,
        ) by {
            if j > 0 {
                assert(tail[j - 1].0 != k && !opt_key_lt(k, tail[j - 1].0));
                assert(gs[j] == tail[j - 1]);
            }
        }
        if w + 1 < gs.len() {
            assert(gs[w + 1] == tail[w]);
        }
        w + 1
    }
}

/// Rendering order of graphs: however the triples arrive, their buckets
/// stand with the default graph first and the named graphs in ascending
/// lexicographic IRI order, each graph exactly once. Both renderers and
/// the estimator walk the buckets in this order.
pub proof fn lemma_groups_ordered(ts: Seq<OwnedTriple>)
    ensures
        groups_sorted(spec_groups(ts)),
        forall|i: int|
            0 < i < spec_groups(ts).len() ==> (#[trigger] spec_groups(ts)[i]).0 is Some,
        spec_groups(ts).len() > 0 && spec_groups(ts)[0].0 is None ==> (forall|i: int|
            0 < i < spec_groups(ts).len() ==> (#[trigger] spec_groups(ts)[i]).0 is Some),
    decreases ts.len(),
{
    if ts.len() == 0 {
    } else {
        lemma_groups_ordered(ts.drop_last());
        let gs = spec_groups(ts.drop_last());
        let idx = lemma_first_group_index(gs, spec_key(ts.last()));
        lemma_add_to_groups_sorted(gs, ts.last(), idx);
        let out = spec_groups(ts);
        assert forall|i: int| 0 < i < out.len() implies (#[trigger] out[i]).0 is Some by {
            if out[0].0 is None {
                assert(opt_key_lt(out[0].0, out[i].0));
                if out[i].0 is None {
                    lemma_opt_key_order(out[0].0, out[i].0, out[i].0);
                }
            } else {
                assert(opt_key_lt(out[0].0, out[i].0));
                if out[i].0 is None {
                    assert(!opt_key_lt(out[0].0, out[i].0));
                }
            }
        }
    }
}

} // verus!
