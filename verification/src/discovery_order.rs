//! The report does not depend on the order in which a store's metadata
//! documents were discovered.
//!
//! Discovery (a directory walk, an object listing, consolidated metadata)
//! may produce the documents in any order. Each rule's findings, and the
//! sorted report built from them, depend only on which documents were found.

use vstd::prelude::*;

use crate::diagnostic::{key_le, lemma_key_le_total_preorder, lemma_key_tie, DiagView};
use crate::json_codec::json_parse;
use crate::model::{load_failures, load_parsed, parsed_of, FailureView, ParsedView};
use crate::permutation::{
    flat_map, lemma_flat_map_map, lemma_flat_map_no_duplicates, lemma_flat_map_permutation, lemma_permutation_contains,
    lemma_same_values_no_duplicates,
};
use crate::rule::{
    invalid_json_finding, invalid_json_findings, missing_fields, missing_findings, missing_findings_of, missing_message,
    rank_findings, rank_findings_of, unsupported_findings, unsupported_findings_of, distinct_locations, files_at,
    text_le, v3_kind_for, conflict_finding, conflict_findings, conflict_findings_over, conflicting, declares_array,
    declares_group, is_v2_file, spec_evaluate, STRUCTURE_CONFLICTING_NODE_TYPE,
};
use crate::json::json_has_field;
use crate::model::{has_chunk_grid_of, NodeKind};
use crate::scanner::{MetadataRole, RawFileView};
use crate::sorting::{
    lemma_sort_determined_by_ties, lemma_sort_multiset, lemma_sort_unique_keys, lemma_ties_concat, lemma_ties_unique_keys, sort_by, ties_of, tied,
    total_preorder,
};
use crate::{report_le, spec_lint};
use crate::text::{lemma_seq_le_antisym, lemma_seq_le_total, lemma_seq_le_trans};

verus! {

/// No two documents share a display path, as in any discovered store.
pub open spec fn distinct_paths(files: Seq<RawFileView>) -> bool {
    files.map_values(|f: RawFileView| f.rel_display).no_duplicates()
}

/// What loading makes of one document when it parses.
pub open spec fn parsed_part(f: RawFileView) -> Seq<ParsedView> {
    match json_parse(f.bytes) {
        Ok(v) => seq![parsed_of(f, v)],
        Err(_) => seq![],
    }
}

/// What loading makes of one document when it does not parse.
pub open spec fn failure_part(f: RawFileView) -> Seq<FailureView> {
    match json_parse(f.bytes) {
        Ok(_) => seq![],
        Err(e) => seq![FailureView { rel_display: f.rel_display, message: e }],
    }
}

proof fn lemma_load_parsed_flat(files: Seq<RawFileView>)
    ensures
        load_parsed(files) == flat_map(files, |f: RawFileView| parsed_part(f)),
    decreases files.len(),
{
    if files.len() > 0 {
        lemma_load_parsed_flat(files.drop_last());
        let rest = load_parsed(files.drop_last());
        match json_parse(files.last().bytes) {
            Ok(v) => assert(rest.push(parsed_of(files.last(), v)) =~= rest + seq![parsed_of(files.last(), v)]),
            Err(_) => assert(rest =~= rest + Seq::<ParsedView>::empty()),
        }
    }
}

proof fn lemma_load_failures_flat(files: Seq<RawFileView>)
    ensures
        load_failures(files) == flat_map(files, |f: RawFileView| failure_part(f)),
    decreases files.len(),
{
    if files.len() > 0 {
        lemma_load_failures_flat(files.drop_last());
        let rest = load_failures(files.drop_last());
        match json_parse(files.last().bytes) {
            Ok(_) => assert(rest =~= rest + Seq::<FailureView>::empty()),
            Err(e) => {
                let x = FailureView { rel_display: files.last().rel_display, message: e };
                assert(rest.push(x) =~= rest + seq![x]);
            },
        }
    }
}

proof fn lemma_missing_flat(ps: Seq<ParsedView>)
    ensures
        missing_findings(ps) == flat_map(ps, |p: ParsedView| missing_findings_of(p)),
    decreases ps.len(),
{
    if ps.len() > 0 {
        lemma_missing_flat(ps.drop_last());
    }
}

proof fn lemma_unsupported_flat(ps: Seq<ParsedView>)
    ensures
        unsupported_findings(ps) == flat_map(ps, |p: ParsedView| unsupported_findings_of(p)),
    decreases ps.len(),
{
    if ps.len() > 0 {
        lemma_unsupported_flat(ps.drop_last());
    }
}

proof fn lemma_rank_flat(ps: Seq<ParsedView>)
    ensures
        rank_findings(ps) == flat_map(ps, |p: ParsedView| rank_findings_of(p)),
    decreases ps.len(),
{
    if ps.len() > 0 {
        lemma_rank_flat(ps.drop_last());
    }
}

/// A sequence as the concatenation of one-element parts.
proof fn lemma_map_flat<T, U>(s: Seq<T>, h: spec_fn(T) -> U)
    ensures
        s.map_values(h) == flat_map(s, |x: T| seq![h(x)]),
    decreases s.len(),
{
    if s.len() > 0 {
        lemma_map_flat(s.drop_last(), h);
        assert(s.map_values(h) =~= s.drop_last().map_values(h) + seq![h(s.last())]);
    }
}

/// Mapped rearrangements have the same elements.
pub proof fn lemma_map_permutation<T, U>(s: Seq<T>, t: Seq<T>, h: spec_fn(T) -> U)
    requires
        s.to_multiset() == t.to_multiset(),
    ensures
        s.map_values(h).to_multiset() == t.map_values(h).to_multiset(),
{
    lemma_map_flat(s, h);
    lemma_map_flat(t, h);
    lemma_flat_map_permutation(s, t, |x: T| seq![h(x)]);
}

/// A rearrangement of a sequence without repeats has none.
pub proof fn lemma_no_duplicates_permutation<T>(s: Seq<T>, t: Seq<T>)
    requires
        s.to_multiset() == t.to_multiset(),
        s.no_duplicates(),
    ensures
        t.no_duplicates(),
{
    broadcast use vstd::multiset::group_multiset_axioms;
    s.lemma_multiset_has_no_duplicates();
    t.lemma_multiset_has_no_duplicates_conv();
}

/// Rearranging the documents keeps their display paths distinct.
pub proof fn lemma_distinct_paths_permutation(f1: Seq<RawFileView>, f2: Seq<RawFileView>)
    requires
        f1.to_multiset() == f2.to_multiset(),
        distinct_paths(f1),
    ensures
        distinct_paths(f2),
{
    lemma_map_permutation(f1, f2, |f: RawFileView| f.rel_display);
    lemma_no_duplicates_permutation(
        f1.map_values(|f: RawFileView| f.rel_display),
        f2.map_values(|f: RawFileView| f.rel_display),
    );
}

/// Parts whose keys are distinct within each part, and carry the name of
/// the element they came from, have distinct keys overall when the elements
/// have distinct names.
proof fn lemma_keyed_parts<S, T, U>(
    s: Seq<S>,
    g: spec_fn(S) -> Seq<T>,
    key: spec_fn(T) -> U,
    owner: spec_fn(S) -> Seq<char>,
    k: spec_fn(U) -> Seq<char>,
)
    requires
        s.map_values(owner).no_duplicates(),
        forall|i: int| 0 <= i < s.len() ==> (#[trigger] g(s[i])).map_values(key).no_duplicates(),
        forall|i: int, m: int| 0 <= i < s.len() && 0 <= m < g(s[i]).len() ==> k(key(#[trigger] g(s[i])[m])) == owner(s[i]),
    ensures
        flat_map(s, g).map_values(key).no_duplicates(),
{
    lemma_flat_map_map(s, g, key);
    let h = |x: S| g(x).map_values(key);
    let names = s.map_values(owner);
    assert forall|i: int| 0 <= i < s.len() implies (#[trigger] h(s[i])).no_duplicates() by {
        assert(h(s[i]) == g(s[i]).map_values(key));
    }
    assert forall|i: int, j: int| 0 <= i < j < s.len() implies (#[trigger] h(s[i])).disjoint(#[trigger] h(s[j])) by {
        assert(names[i] != names[j]);
        assert forall|p: int, q: int| 0 <= p < h(s[i]).len() && 0 <= q < h(s[j]).len()
            implies #[trigger] h(s[i])[p] != #[trigger] h(s[j])[q] by {
            assert(h(s[i])[p] == key(g(s[i])[p]));
            assert(h(s[j])[q] == key(g(s[j])[q]));
            assert(k(key(g(s[i])[p])) == owner(s[i]));
            assert(k(key(g(s[j])[q])) == owner(s[j]));
        }
    }
    lemma_flat_map_no_duplicates(s, h);
}

/// The parsed documents of a store with distinct paths have distinct paths.
pub proof fn lemma_parsed_paths_distinct(files: Seq<RawFileView>)
    requires
        distinct_paths(files),
    ensures
        load_parsed(files).map_values(|p: ParsedView| p.rel_display).no_duplicates(),
{
    lemma_load_parsed_flat(files);
    let key = |p: ParsedView| p.rel_display;
    assert forall|i: int| 0 <= i < files.len() implies (#[trigger] parsed_part(files[i])).map_values(key).no_duplicates() by {
        assert(parsed_part(files[i]).len() <= 1);
    }
    lemma_keyed_parts(files, |f: RawFileView| parsed_part(f), key, |f: RawFileView| f.rel_display, |s: Seq<char>| s);
}

/// Where a finding stands in the report's order within its rule: its path
/// and its message.
pub open spec fn diag_key(d: DiagView) -> (Seq<char>, Seq<char>) {
    (d.path, d.message)
}

/// Two sequences without repeats and without common elements concatenate to
/// a sequence without repeats.
proof fn lemma_concat_no_duplicates<T>(x: Seq<T>, y: Seq<T>)
    requires
        x.no_duplicates(),
        y.no_duplicates(),
        forall|i: int, j: int| 0 <= i < x.len() && 0 <= j < y.len() ==> x[i] != y[j],
    ensures
        (x + y).no_duplicates(),
{
    let c = x + y;
    assert forall|p: int, q: int| 0 <= p < c.len() && 0 <= q < c.len() && p != q implies c[p] != c[q] by {
        if p >= x.len() && q >= x.len() {
            assert(c[p] == y[p - x.len()] && c[q] == y[q - x.len()]);
        } else if p < x.len() && q >= x.len() {
            assert(c[q] == y[q - x.len()]);
        } else if p >= x.len() && q < x.len() {
            assert(c[p] == y[p - x.len()]);
        }
    }
}

/// The fields a document lacks are named once each.
proof fn lemma_missing_fields_distinct(p: ParsedView)
    ensures
        missing_fields(p).no_duplicates(),
{
    reveal_strlit("zarr_format");
    reveal_strlit("node_type");
    reveal_strlit("shape");
    reveal_strlit("chunk_grid");
    reveal_strlit("chunks");
    let is_v3 = p.role == MetadataRole::V3Node;
    let is_array = p.kind() == Some(NodeKind::Array);
    let a: Seq<Seq<char>> = if p.declared_format().is_none() { seq!["zarr_format"@] } else { seq![] };
    let b: Seq<Seq<char>> = if is_v3 && p.kind().is_none() { seq!["node_type"@] } else { seq![] };
    let c: Seq<Seq<char>> = if is_array && !json_has_field(p.value, "shape"@) { seq!["shape"@] } else { seq![] };
    let d: Seq<Seq<char>> = if is_array && !has_chunk_grid_of(p.version, p.value) {
        seq![if is_v3 { "chunk_grid"@ } else { "chunks"@ }]
    } else {
        seq![]
    };
    assert(missing_fields(p) == a + b + c + d);
    assert(forall|i: int| 0 <= i < a.len() ==> a[i].len() == 11);
    assert(forall|i: int| 0 <= i < b.len() ==> b[i].len() == 9);
    assert(forall|i: int| 0 <= i < c.len() ==> c[i].len() == 5);
    assert(forall|i: int| 0 <= i < d.len() ==> d[i].len() == 10 || d[i].len() == 6);
    lemma_concat_no_duplicates(a, b);
    lemma_concat_no_duplicates(c, d);
    let ab = a + b;
    let cd = c + d;
    assert forall|i: int| 0 <= i < ab.len() implies ab[i].len() == 11 || ab[i].len() == 9 by {
        if i >= a.len() {
            assert(ab[i] == b[i - a.len()]);
        }
    }
    assert forall|i: int| 0 <= i < cd.len() implies cd[i].len() == 5 || cd[i].len() == 10 || cd[i].len() == 6 by {
        if i >= c.len() {
            assert(cd[i] == d[i - c.len()]);
        }
    }
    assert forall|i: int, j: int| 0 <= i < ab.len() && 0 <= j < cd.len() implies ab[i] != cd[j] by {
        assert(ab[i].len() != cd[j].len());
    }
    lemma_concat_no_duplicates(ab, cd);
    assert(a + b + c + d =~= ab + cd);
}

/// Different fields give different messages.
proof fn lemma_missing_message_injective(a: Seq<char>, b: Seq<char>)
    requires
        missing_message(a) == missing_message(b),
    ensures
        a == b,
{
    let pre = "Required field `"@;
    let post = "` is missing."@;
    assert(missing_message(a).len() == pre.len() + a.len() + post.len());
    assert(missing_message(b).len() == pre.len() + b.len() + post.len());
    assert(a =~= missing_message(a).subrange(pre.len() as int, (pre.len() + a.len()) as int));
    assert(b =~= missing_message(b).subrange(pre.len() as int, (pre.len() + b.len()) as int));
}

proof fn lemma_missing_keys(p: ParsedView)
    ensures
        missing_findings_of(p).map_values(|d: DiagView| diag_key(d)).no_duplicates(),
        forall|m: int| 0 <= m < missing_findings_of(p).len() ==> (#[trigger] missing_findings_of(p)[m]).path == p.rel_display,
{
    lemma_missing_fields_distinct(p);
    let fields = missing_fields(p);
    let keys = missing_findings_of(p).map_values(|d: DiagView| diag_key(d));
    assert forall|i: int, j: int| 0 <= i < keys.len() && 0 <= j < keys.len() && i != j implies keys[i] != keys[j] by {
        if keys[i] == keys[j] {
            assert(keys[i].1 == missing_message(fields[i]));
            assert(keys[j].1 == missing_message(fields[j]));
            lemma_missing_message_injective(fields[i], fields[j]);
        }
    }
}

/// The invalid-JSON findings as one part per document.
pub open spec fn invalid_part(f: RawFileView) -> Seq<DiagView> {
    failure_part(f).map_values(|x: FailureView| invalid_json_finding(x))
}

proof fn lemma_invalid_flat(files: Seq<RawFileView>)
    ensures
        invalid_json_findings(load_failures(files)) == flat_map(files, |f: RawFileView| invalid_part(f)),
{
    let h = |x: FailureView| invalid_json_finding(x);
    let g = |f: RawFileView| failure_part(f);
    lemma_load_failures_flat(files);
    lemma_flat_map_map(files, g, h);
    assert(invalid_json_findings(load_failures(files)) == flat_map(files, g).map_values(h)) by {
        assert(load_failures(files).map_values(|f: FailureView| invalid_json_finding(f)) =~= flat_map(files, g).map_values(h));
    }
    let c1 = |x: RawFileView| g(x).map_values(h);
    let c2 = |f: RawFileView| invalid_part(f);
    assert(c1 =~= c2) by {
        assert forall|x: RawFileView| #[trigger] c1(x) == c2(x) by {
            assert(c1(x) =~= c2(x));
        }
    }
}

/// The findings of the invalid-JSON rule: the same findings, whatever the
/// order of discovery, and no two at the same path with the same message.
proof fn lemma_invalid_part(f1: Seq<RawFileView>, f2: Seq<RawFileView>)
    requires
        f1.to_multiset() == f2.to_multiset(),
        distinct_paths(f1),
    ensures
        invalid_json_findings(load_failures(f1)).to_multiset() == invalid_json_findings(load_failures(f2)).to_multiset(),
        invalid_json_findings(load_failures(f1)).map_values(|d: DiagView| diag_key(d)).no_duplicates(),
{
    lemma_invalid_flat(f1);
    lemma_invalid_flat(f2);
    lemma_flat_map_permutation(f1, f2, |f: RawFileView| invalid_part(f));
    let key = |d: DiagView| diag_key(d);
    assert forall|i: int| 0 <= i < f1.len() implies (#[trigger] invalid_part(f1[i])).map_values(key).no_duplicates() by {
        assert(invalid_part(f1[i]).len() <= 1);
    }
    lemma_keyed_parts(f1, |f: RawFileView| invalid_part(f), key, |f: RawFileView| f.rel_display, |k: (Seq<char>, Seq<char>)| k.0);
}

/// The parsed documents: the same, whatever the order of discovery, and
/// with distinct paths.
proof fn lemma_parsed_permutation(f1: Seq<RawFileView>, f2: Seq<RawFileView>)
    requires
        f1.to_multiset() == f2.to_multiset(),
    ensures
        load_parsed(f1).to_multiset() == load_parsed(f2).to_multiset(),
{
    lemma_load_parsed_flat(f1);
    lemma_load_parsed_flat(f2);
    lemma_flat_map_permutation(f1, f2, |f: RawFileView| parsed_part(f));
}

/// Findings made per parsed document, each at the document's path with
/// distinct messages: the same, whatever the order of discovery, and no two
/// at the same path with the same message.
proof fn lemma_node_part(f1: Seq<RawFileView>, f2: Seq<RawFileView>, g: spec_fn(ParsedView) -> Seq<DiagView>)
    requires
        f1.to_multiset() == f2.to_multiset(),
        distinct_paths(f1),
        forall|p: ParsedView| (#[trigger] g(p)).map_values(|d: DiagView| diag_key(d)).no_duplicates(),
        forall|p: ParsedView, m: int| 0 <= m < g(p).len() ==> (#[trigger] g(p)[m]).path == p.rel_display,
    ensures
        flat_map(load_parsed(f1), g).to_multiset() == flat_map(load_parsed(f2), g).to_multiset(),
        flat_map(load_parsed(f1), g).map_values(|d: DiagView| diag_key(d)).no_duplicates(),
{
    lemma_parsed_permutation(f1, f2);
    lemma_flat_map_permutation(load_parsed(f1), load_parsed(f2), g);
    lemma_parsed_paths_distinct(f1);
    let ps = load_parsed(f1);
    lemma_keyed_parts(ps, g, |d: DiagView| diag_key(d), |p: ParsedView| p.rel_display, |k: (Seq<char>, Seq<char>)| k.0);
}

/// The text order is a total preorder in which only equal texts are tied.
pub proof fn lemma_text_le_total_preorder()
    ensures
        total_preorder(text_le()),
        forall|a: Seq<char>, b: Seq<char>| #[trigger] tied(text_le(), a, b) ==> a == b,
{
    assert forall|a: Seq<char>, b: Seq<char>| #[trigger] text_le()(a, b) || text_le()(b, a) by {
        lemma_seq_le_total(a, b);
    }
    assert forall|a: Seq<char>, b: Seq<char>, c: Seq<char>|
        #[trigger] text_le()(a, b) && #[trigger] text_le()(b, c) implies text_le()(a, c) by {
        lemma_seq_le_trans(a, b, c);
    }
    assert forall|a: Seq<char>, b: Seq<char>| #[trigger] tied(text_le(), a, b) implies a == b by {
        lemma_seq_le_antisym(a, b);
    }
}

/// Texts with the same elements sort to the same sequence.
proof fn lemma_sort_texts(a: Seq<Seq<char>>, b: Seq<Seq<char>>)
    requires
        a.to_multiset() == b.to_multiset(),
    ensures
        sort_by(a, text_le()) == sort_by(b, text_le()),
{
    lemma_text_le_total_preorder();
    lemma_sort_unique_keys(a, b, text_le());
}

/// The distinct locations are those of the documents, each once.
proof fn lemma_distinct_locations(files: Seq<RawFileView>)
    ensures
        distinct_locations(files).no_duplicates(),
        forall|l: Seq<char>| #[trigger] distinct_locations(files).contains(l)
            <==> exists|i: int| 0 <= i < files.len() && (#[trigger] files[i]).location == l,
    decreases files.len(),
{
    if files.len() > 0 {
        let u = files.drop_last();
        lemma_distinct_locations(u);
        let d = distinct_locations(u);
        let x = files.last();
        assert forall|l: Seq<char>| #[trigger] distinct_locations(files).contains(l)
            <==> exists|i: int| 0 <= i < files.len() && (#[trigger] files[i]).location == l by {
            if exists|i: int| 0 <= i < files.len() && (#[trigger] files[i]).location == l {
                let i = choose|i: int| 0 <= i < files.len() && (#[trigger] files[i]).location == l;
                if i < u.len() {
                    assert(u[i] == files[i]);
                    assert(d.contains(l));
                    if !d.contains(x.location) {
                        let k = choose|k: int| 0 <= k < d.len() && d[k] == l;
                        assert(d.push(x.location)[k] == l);
                    }
                } else {
                    assert(files[i] == x);
                    if !d.contains(x.location) {
                        assert(d.push(x.location)[d.len() as int] == l);
                    }
                }
            }
            if distinct_locations(files).contains(l) {
                if d.contains(l) {
                    let i = choose|i: int| 0 <= i < u.len() && (#[trigger] u[i]).location == l;
                    assert(files[i] == u[i]);
                } else {
                    let k = choose|k: int| 0 <= k < distinct_locations(files).len() && distinct_locations(files)[k] == l;
                    assert(k == d.len());
                    assert(files[files.len() - 1].location == l);
                }
            }
        }
    }
}

/// Documents with the same elements have the same sorted locations.
proof fn lemma_sorted_locations(f1: Seq<RawFileView>, f2: Seq<RawFileView>)
    requires
        f1.to_multiset() == f2.to_multiset(),
    ensures
        sort_by(distinct_locations(f1), text_le()) == sort_by(distinct_locations(f2), text_le()),
{
    lemma_distinct_locations(f1);
    lemma_distinct_locations(f2);
    let d1 = distinct_locations(f1);
    let d2 = distinct_locations(f2);
    assert forall|l: Seq<char>| d1.contains(l) == d2.contains(l) by {
        if d1.contains(l) {
            let i = choose|i: int| 0 <= i < f1.len() && (#[trigger] f1[i]).location == l;
            lemma_permutation_contains(f1, f2, f1[i]);
            assert(f1.contains(f1[i]));
            let j = choose|j: int| 0 <= j < f2.len() && f2[j] == f1[i];
            assert(f2[j].location == l);
        }
        if d2.contains(l) {
            let j = choose|j: int| 0 <= j < f2.len() && (#[trigger] f2[j]).location == l;
            lemma_permutation_contains(f1, f2, f2[j]);
            assert(f2.contains(f2[j]));
            let i = choose|i: int| 0 <= i < f1.len() && f1[i] == f2[j];
            assert(f1[i].location == l);
        }
    }
    lemma_same_values_no_duplicates(d1, d2);
    lemma_sort_texts(d1, d2);
}

/// The documents at `loc`, as one part per document.
pub open spec fn at_part(f: RawFileView, loc: Seq<char>) -> Seq<RawFileView> {
    if f.location == loc {
        seq![f]
    } else {
        seq![]
    }
}

proof fn lemma_files_at_flat(files: Seq<RawFileView>, loc: Seq<char>)
    ensures
        files_at(files, loc) == flat_map(files, |f: RawFileView| at_part(f, loc)),
    decreases files.len(),
{
    if files.len() > 0 {
        lemma_files_at_flat(files.drop_last(), loc);
        let rest = files_at(files.drop_last(), loc);
        if files.last().location == loc {
            assert(rest.push(files.last()) =~= rest + seq![files.last()]);
        } else {
            assert(rest =~= rest + Seq::<RawFileView>::empty());
        }
    }
}

/// The documents at `loc` are the documents whose location is `loc`.
proof fn lemma_files_at_contains(files: Seq<RawFileView>, loc: Seq<char>, x: RawFileView)
    ensures
        files_at(files, loc).contains(x) <==> files.contains(x) && x.location == loc,
    decreases files.len(),
{
    if files.len() > 0 {
        let u = files.drop_last();
        lemma_files_at_contains(u, loc, x);
        let r = files_at(u, loc);
        if files_at(files, loc).contains(x) {
            let k = choose|k: int| 0 <= k < files_at(files, loc).len() && files_at(files, loc)[k] == x;
            if files.last().location == loc && k == r.len() {
                assert(files[files.len() - 1] == x);
            } else {
                assert(r[k] == x);
                let i = choose|i: int| 0 <= i < u.len() && u[i] == x;
                assert(files[i] == x);
            }
        }
        if files.contains(x) && x.location == loc {
            let i = choose|i: int| 0 <= i < files.len() && files[i] == x;
            if i < u.len() {
                assert(u[i] == x);
                assert(r.contains(x));
                let k = choose|k: int| 0 <= k < r.len() && r[k] == x;
                if files.last().location == loc {
                    assert(r.push(files.last())[k] == x);
                }
            } else {
                assert(files.last() == x);
                assert(r.push(files.last())[r.len() as int] == x);
            }
        }
    }
}

/// The kind recorded for the Zarr v3 document at path `rel`, among parsed
/// documents with distinct paths: that document's kind, if there is one.
proof fn lemma_v3_kind_for(ps: Seq<ParsedView>, rel: Seq<char>, p: ParsedView)
    requires
        ps.map_values(|q: ParsedView| q.rel_display).no_duplicates(),
        ps.contains(p),
        p.rel_display == rel,
    ensures
        v3_kind_for(ps, rel) == if p.role == MetadataRole::V3Node { p.kind() } else { None },
    decreases ps.len(),
{
    let names = ps.map_values(|q: ParsedView| q.rel_display);
    let i = choose|i: int| 0 <= i < ps.len() && ps[i] == p;
    let u = ps.drop_last();
    if i == ps.len() - 1 {
        if p.role != MetadataRole::V3Node {
            assert forall|k: int| 0 <= k < u.len() && (#[trigger] u[k]).rel_display == rel implies u[k].role != MetadataRole::V3Node by {
                assert(names[k] == u[k].rel_display);
                assert(names[i] == rel);
            }
            lemma_v3_kind_absent(u, rel);
        }
    } else {
        assert(ps.last().rel_display != rel) by {
            assert(names[i] != names[ps.len() - 1]);
        }
        assert(u[i] == p);
        assert(u.map_values(|q: ParsedView| q.rel_display).no_duplicates()) by {
            let un = u.map_values(|q: ParsedView| q.rel_display);
            assert forall|a: int, b: int| 0 <= a < un.len() && 0 <= b < un.len() && a != b implies un[a] != un[b] by {
                assert(un[a] == names[a] && un[b] == names[b]);
            }
        }
        lemma_v3_kind_for(u, rel, p);
    }
}

/// No document at path `rel` other than non-Zarr-v3 ones: no recorded kind.
proof fn lemma_v3_kind_absent(ps: Seq<ParsedView>, rel: Seq<char>)
    requires
        forall|i: int| 0 <= i < ps.len() && (#[trigger] ps[i]).rel_display == rel ==> ps[i].role != MetadataRole::V3Node,
    ensures
        v3_kind_for(ps, rel) == None::<NodeKind>,
    decreases ps.len(),
{
    if ps.len() > 0 {
        let u = ps.drop_last();
        assert forall|i: int| 0 <= i < u.len() && (#[trigger] u[i]).rel_display == rel implies u[i].role != MetadataRole::V3Node by {
            assert(u[i] == ps[i]);
        }
        assert(ps.last() == ps[ps.len() - 1]);
        lemma_v3_kind_absent(u, rel);
    }
}

/// The kind recorded for a path is the same for rearranged parsed documents
/// with distinct paths.
proof fn lemma_v3_kind_permutation(ps1: Seq<ParsedView>, ps2: Seq<ParsedView>, rel: Seq<char>)
    requires
        ps1.to_multiset() == ps2.to_multiset(),
        ps1.map_values(|q: ParsedView| q.rel_display).no_duplicates(),
        ps2.map_values(|q: ParsedView| q.rel_display).no_duplicates(),
    ensures
        v3_kind_for(ps1, rel) == v3_kind_for(ps2, rel),
{
    if exists|i: int| 0 <= i < ps1.len() && (#[trigger] ps1[i]).rel_display == rel {
        let i = choose|i: int| 0 <= i < ps1.len() && (#[trigger] ps1[i]).rel_display == rel;
        let p = ps1[i];
        assert(ps1.contains(p));
        lemma_permutation_contains(ps1, ps2, p);
        lemma_v3_kind_for(ps1, rel, p);
        lemma_v3_kind_for(ps2, rel, p);
    } else {
        lemma_v3_kind_absent(ps1, rel);
        assert forall|j: int| 0 <= j < ps2.len() && (#[trigger] ps2[j]).rel_display == rel implies ps2[j].role != MetadataRole::V3Node by {
            assert(ps2.contains(ps2[j]));
            lemma_permutation_contains(ps1, ps2, ps2[j]);
            let i = choose|i: int| 0 <= i < ps1.len() && ps1[i] == ps2[j];
            assert(ps1[i].rel_display == rel);
        }
        lemma_v3_kind_absent(ps2, rel);
    }
}

/// A document at `loc` found in one order of discovery is found in any
/// other.
proof fn lemma_at_transfer(f1: Seq<RawFileView>, f2: Seq<RawFileView>, loc: Seq<char>, i: int) -> (j: int)
    requires
        f1.to_multiset() == f2.to_multiset(),
        0 <= i < files_at(f1, loc).len(),
    ensures
        0 <= j < files_at(f2, loc).len(),
        files_at(f2, loc)[j] == files_at(f1, loc)[i],
{
    let x = files_at(f1, loc)[i];
    assert(files_at(f1, loc).contains(x));
    lemma_files_at_contains(f1, loc, x);
    lemma_permutation_contains(f1, f2, x);
    lemma_files_at_contains(f2, loc, x);
    choose|j: int| 0 <= j < files_at(f2, loc).len() && files_at(f2, loc)[j] == x
}

/// Whether a location conflicts does not depend on the order of discovery:
/// if it conflicts in one order, it does in the other.
proof fn lemma_conflicting_transfer(
    f1: Seq<RawFileView>,
    f2: Seq<RawFileView>,
    ps1: Seq<ParsedView>,
    ps2: Seq<ParsedView>,
    loc: Seq<char>,
)
    requires
        f1.to_multiset() == f2.to_multiset(),
        ps1.to_multiset() == ps2.to_multiset(),
        ps1.map_values(|q: ParsedView| q.rel_display).no_duplicates(),
        ps2.map_values(|q: ParsedView| q.rel_display).no_duplicates(),
        conflicting(f1, ps1, loc),
    ensures
        conflicting(f2, ps2, loc),
{
    let g1 = files_at(f1, loc);
    let g2 = files_at(f2, loc);
    if (exists|i: int| 0 <= i < g1.len() && declares_group(#[trigger] g1[i], ps1))
        && (exists|i: int| 0 <= i < g1.len() && declares_array(#[trigger] g1[i], ps1)) {
        let a = choose|i: int| 0 <= i < g1.len() && declares_group(#[trigger] g1[i], ps1);
        let b = choose|i: int| 0 <= i < g1.len() && declares_array(#[trigger] g1[i], ps1);
        let ja = lemma_at_transfer(f1, f2, loc, a);
        let jb = lemma_at_transfer(f1, f2, loc, b);
        lemma_v3_kind_permutation(ps1, ps2, g1[a].rel_display);
        lemma_v3_kind_permutation(ps1, ps2, g1[b].rel_display);
        assert(declares_group(g2[ja], ps2));
        assert(declares_array(g2[jb], ps2));
    } else {
        let a = choose|i: int| 0 <= i < g1.len() && is_v2_file(#[trigger] g1[i]);
        let b = choose|i: int| 0 <= i < g1.len() && (#[trigger] g1[i]).role == MetadataRole::V3Node;
        let ja = lemma_at_transfer(f1, f2, loc, a);
        let jb = lemma_at_transfer(f1, f2, loc, b);
        assert(is_v2_file(g2[ja]));
        assert(g2[jb].role == MetadataRole::V3Node);
    }
}

/// Whether a location conflicts does not depend on the order of discovery.
proof fn lemma_conflicting_permutation(
    f1: Seq<RawFileView>,
    f2: Seq<RawFileView>,
    ps1: Seq<ParsedView>,
    ps2: Seq<ParsedView>,
    loc: Seq<char>,
)
    requires
        f1.to_multiset() == f2.to_multiset(),
        ps1.to_multiset() == ps2.to_multiset(),
        ps1.map_values(|q: ParsedView| q.rel_display).no_duplicates(),
        ps2.map_values(|q: ParsedView| q.rel_display).no_duplicates(),
    ensures
        conflicting(f1, ps1, loc) == conflicting(f2, ps2, loc),
{
    if conflicting(f1, ps1, loc) {
        lemma_conflicting_transfer(f1, f2, ps1, ps2, loc);
    }
    if conflicting(f2, ps2, loc) {
        lemma_conflicting_transfer(f2, f1, ps2, ps1, loc);
    }
}

/// The conflict finding for a location does not depend on the order of
/// discovery: its markers are listed sorted.
proof fn lemma_conflict_finding_permutation(f1: Seq<RawFileView>, f2: Seq<RawFileView>, loc: Seq<char>, store: Seq<char>)
    requires
        f1.to_multiset() == f2.to_multiset(),
    ensures
        conflict_finding(f1, loc, store) == conflict_finding(f2, loc, store),
{
    lemma_files_at_flat(f1, loc);
    lemma_files_at_flat(f2, loc);
    lemma_flat_map_permutation(f1, f2, |f: RawFileView| at_part(f, loc));
    lemma_map_permutation(files_at(f1, loc), files_at(f2, loc), |f: RawFileView| f.rel_display);
    lemma_sort_texts(
        files_at(f1, loc).map_values(|f: RawFileView| f.rel_display),
        files_at(f2, loc).map_values(|f: RawFileView| f.rel_display),
    );
}

/// The conflict findings over the same locations do not depend on the order
/// of discovery.
proof fn lemma_conflicts_over_permutation(
    locs: Seq<Seq<char>>,
    f1: Seq<RawFileView>,
    f2: Seq<RawFileView>,
    ps1: Seq<ParsedView>,
    ps2: Seq<ParsedView>,
    store: Seq<char>,
)
    requires
        f1.to_multiset() == f2.to_multiset(),
        ps1.to_multiset() == ps2.to_multiset(),
        ps1.map_values(|q: ParsedView| q.rel_display).no_duplicates(),
        ps2.map_values(|q: ParsedView| q.rel_display).no_duplicates(),
    ensures
        conflict_findings_over(locs, f1, ps1, store) == conflict_findings_over(locs, f2, ps2, store),
    decreases locs.len(),
{
    if locs.len() > 0 {
        lemma_conflicts_over_permutation(locs.drop_last(), f1, f2, ps1, ps2, store);
        lemma_conflicting_permutation(f1, f2, ps1, ps2, locs.last());
        lemma_conflict_finding_permutation(f1, f2, locs.last(), store);
    }
}

/// The conflict findings of a store do not depend on the order of discovery.
proof fn lemma_conflicts_permutation(f1: Seq<RawFileView>, f2: Seq<RawFileView>, store: Seq<char>)
    requires
        f1.to_multiset() == f2.to_multiset(),
        distinct_paths(f1),
    ensures
        conflict_findings(f1, load_parsed(f1), store) == conflict_findings(f2, load_parsed(f2), store),
{
    lemma_distinct_paths_permutation(f1, f2);
    lemma_parsed_permutation(f1, f2);
    lemma_parsed_paths_distinct(f1);
    lemma_parsed_paths_distinct(f2);
    lemma_sorted_locations(f1, f2);
    lemma_conflicts_over_permutation(
        sort_by(distinct_locations(f1), text_le()),
        f1,
        f2,
        load_parsed(f1),
        load_parsed(f2),
        store,
    );
}

/// Findings no two of which share a path and a message are tied in the
/// report's order only with themselves.
proof fn lemma_keys_tie_unique(x: Seq<DiagView>)
    requires
        x.map_values(|d: DiagView| diag_key(d)).no_duplicates(),
    ensures
        forall|i: int, j: int|
            0 <= i < x.len() && 0 <= j < x.len() && tied(report_le(), #[trigger] x[i], #[trigger] x[j]) ==> x[i] == x[j],
{
    let keys = x.map_values(|d: DiagView| diag_key(d));
    assert forall|i: int, j: int|
        0 <= i < x.len() && 0 <= j < x.len() && tied(report_le(), #[trigger] x[i], #[trigger] x[j]) implies x[i] == x[j] by {
        lemma_key_tie(x[i], x[j]);
        if i != j {
            assert(keys[i] == keys[j]);
        }
    }
}

/// A rule's findings that are the same in two orders of discovery, and no two
/// of which share a path and a message, are tied alike in both.
proof fn lemma_part_ties(x1: Seq<DiagView>, x2: Seq<DiagView>)
    requires
        x1.to_multiset() == x2.to_multiset(),
        x1.map_values(|d: DiagView| diag_key(d)).no_duplicates(),
    ensures
        forall|c: DiagView| #[trigger] ties_of(x1, c, report_le()) == ties_of(x2, c, report_le()),
{
    lemma_key_le_total_preorder();
    assert(report_le() == |a: DiagView, b: DiagView| key_le(a, b));
    lemma_keys_tie_unique(x1);
    lemma_ties_unique_keys(x1, x2, report_le());
}

/// Per-document findings that are all at the document's path and hold at
/// most one finding.
proof fn lemma_single_part_keys(g: spec_fn(ParsedView) -> Seq<DiagView>)
    requires
        forall|p: ParsedView| (#[trigger] g(p)).len() <= 1,
    ensures
        forall|p: ParsedView| (#[trigger] g(p)).map_values(|d: DiagView| diag_key(d)).no_duplicates(),
{
}

/// The report does not depend on the order in which a store's documents
/// were discovered: the same documents, discovered in any order, give the
/// same report, as long as no two of them share a display path (as no two
/// files of a directory, objects of a bucket or members of consolidated
/// metadata do).
pub proof fn lemma_report_independent_of_discovery_order(f1: Seq<RawFileView>, f2: Seq<RawFileView>, store: Seq<char>)
    requires
        f1.to_multiset() == f2.to_multiset(),
        distinct_paths(f1),
    ensures
        spec_lint(f1, store) == spec_lint(f2, store),
{
    broadcast use vstd::seq_lib::lemma_multiset_commutative;
    f1.to_multiset_ensures();
    f2.to_multiset_ensures();
    if f1.len() == 0 {
        assert(f2.len() == 0);
        assert(f1 =~= f2);
    } else {
        let ps1 = load_parsed(f1);
        let ps2 = load_parsed(f2);
        let i1 = invalid_json_findings(load_failures(f1));
        let i2 = invalid_json_findings(load_failures(f2));
        let m1 = missing_findings(ps1);
        let m2 = missing_findings(ps2);
        let u1 = unsupported_findings(ps1);
        let u2 = unsupported_findings(ps2);
        let c1 = conflict_findings(f1, ps1, store);
        let c2 = conflict_findings(f2, ps2, store);
        let r1 = rank_findings(ps1);
        let r2 = rank_findings(ps2);

        lemma_invalid_part(f1, f2);

        lemma_missing_flat(ps1);
        lemma_missing_flat(ps2);
        assert forall|p: ParsedView| (#[trigger] missing_findings_of(p)).map_values(|d: DiagView| diag_key(d)).no_duplicates()
            && forall|m: int| 0 <= m < missing_findings_of(p).len() ==> (#[trigger] missing_findings_of(p)[m]).path == p.rel_display by {
            lemma_missing_keys(p);
        }
        lemma_node_part(f1, f2, |p: ParsedView| missing_findings_of(p));

        lemma_unsupported_flat(ps1);
        lemma_unsupported_flat(ps2);
        lemma_single_part_keys(|p: ParsedView| unsupported_findings_of(p));
        lemma_node_part(f1, f2, |p: ParsedView| unsupported_findings_of(p));

        lemma_rank_flat(ps1);
        lemma_rank_flat(ps2);
        lemma_single_part_keys(|p: ParsedView| rank_findings_of(p));
        lemma_node_part(f1, f2, |p: ParsedView| rank_findings_of(p));

        lemma_conflicts_permutation(f1, f2, store);

        lemma_part_ties(i1, i2);
        lemma_part_ties(m1, m2);
        lemma_part_ties(u1, u2);
        lemma_part_ties(r1, r2);

        let e1 = spec_evaluate(f1, ps1, load_failures(f1), store);
        let e2 = spec_evaluate(f2, ps2, load_failures(f2), store);
        assert(e1 == i1 + m1 + u1 + c1 + r1);
        assert(e2 == i2 + m2 + u2 + c2 + r2);
        assert(e1.to_multiset() == e2.to_multiset());
        assert forall|c: DiagView| #[trigger] ties_of(e1, c, report_le()) == ties_of(e2, c, report_le()) by {
            lemma_ties_concat(i1 + m1 + u1 + c1, r1, c, report_le());
            lemma_ties_concat(i1 + m1 + u1, c1, c, report_le());
            lemma_ties_concat(i1 + m1, u1, c, report_le());
            lemma_ties_concat(i1, m1, c, report_le());
            lemma_ties_concat(i2 + m2 + u2 + c2, r2, c, report_le());
            lemma_ties_concat(i2 + m2 + u2, c2, c, report_le());
            lemma_ties_concat(i2 + m2, u2, c, report_le());
            lemma_ties_concat(i2, m2, c, report_le());
        }
        lemma_key_le_total_preorder();
        assert(report_le() == |a: DiagView, b: DiagView| key_le(a, b));
        lemma_sort_determined_by_ties(e1, e2, report_le());
    }
}

proof fn lemma_conflict_over_contains(
    locs: Seq<Seq<char>>,
    files: Seq<RawFileView>,
    ps: Seq<ParsedView>,
    store: Seq<char>,
    loc: Seq<char>,
)
    requires
        locs.contains(loc),
        conflicting(files, ps, loc),
    ensures
        conflict_findings_over(locs, files, ps, store).contains(conflict_finding(files, loc, store)),
    decreases locs.len(),
{
    let init = locs.drop_last();
    let rest = conflict_findings_over(init, files, ps, store);
    let cur = conflict_findings_over(locs, files, ps, store);
    let cf = conflict_finding(files, loc, store);
    if locs.last() == loc {
        assert(cur[rest.len() as int] == cf);
    } else {
        let k = choose|k: int| 0 <= k < locs.len() && locs[k] == loc;
        assert(k < locs.len() - 1);
        assert(init[k] == loc);
        lemma_conflict_over_contains(init, files, ps, store, loc);
        let m = choose|m: int| 0 <= m < rest.len() && rest[m] == cf;
        assert(cur[m] == rest[m]);
    }
}

/// A location that holds both a `.zgroup` and a `.zarray`, or both a Zarr v2
/// marker and a `zarr.json`, is reported as holding conflicting node
/// metadata, at its path (the store itself for the root).
pub proof fn lemma_conflicting_markers_reported(
    files: Seq<RawFileView>,
    ps: Seq<ParsedView>,
    store: Seq<char>,
    i: int,
    j: int,
)
    requires
        0 <= i < files.len(),
        0 <= j < files.len(),
        files[i].location == files[j].location,
        (files[i].role == MetadataRole::V2Group && files[j].role == MetadataRole::V2Array)
            || ((files[i].role == MetadataRole::V2Group || files[i].role == MetadataRole::V2Array)
                && files[j].role == MetadataRole::V3Node),
    ensures
        exists|k: int| 0 <= k < conflict_findings(files, ps, store).len()
            && (#[trigger] conflict_findings(files, ps, store)[k]).rule == STRUCTURE_CONFLICTING_NODE_TYPE@
            && conflict_findings(files, ps, store)[k].severity == crate::diagnostic::Severity::Error
            && conflict_findings(files, ps, store)[k].path == (if files[i].location.len() == 0 { store } else { files[i].location })
            && conflict_findings(files, ps, store)[k].message == "Path contains conflicting node metadata."@,
{
    let loc = files[i].location;
    let d = distinct_locations(files);
    lemma_distinct_locations(files);
    assert(d.contains(loc));
    let sorted = sort_by(d, text_le());
    lemma_sort_multiset(d, text_le());
    lemma_permutation_contains(sorted, d, loc);
    let g = files_at(files, loc);
    assert(files.contains(files[i]));
    assert(files.contains(files[j]));
    lemma_files_at_contains(files, loc, files[i]);
    lemma_files_at_contains(files, loc, files[j]);
    let ki = choose|k: int| 0 <= k < g.len() && g[k] == files[i];
    let kj = choose|k: int| 0 <= k < g.len() && g[k] == files[j];
    if files[i].role == MetadataRole::V2Group && files[j].role == MetadataRole::V2Array {
        assert(declares_group(g[ki], ps));
        assert(declares_array(g[kj], ps));
    } else {
        assert(is_v2_file(g[ki]));
        assert(g[kj].role == MetadataRole::V3Node);
    }
    assert(conflicting(files, ps, loc));
    lemma_conflict_over_contains(sorted, files, ps, store, loc);
    let all = conflict_findings(files, ps, store);
    let cf = conflict_finding(files, loc, store);
    let k = choose|k: int| 0 <= k < all.len() && all[k] == cf;
    assert(all[k] == cf);
}

} // verus!
