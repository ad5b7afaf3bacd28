//! What the command-line tool decides and prints: exit codes, the failure
//! threshold, and the lines shown by `check`, `fmt`, `inspect` and `version`.
//!
//! Parsing arguments and writing the lines out is done by the caller.

use vstd::prelude::*;
use vstd::string::StringExecFns;

use crate::diagnostic::{diags_view, DiagView, Diagnostic, Severity};
use crate::exit;
use crate::json::{entries_view, items_view, Json, JsonValue};
use crate::model::{dims_text, format_dims, FailureView, LoadedStore, NodeKind, ParsedMetadata, ParsedView};
use crate::scanner::StoreScan;
use crate::format::{FormatChange, FormatError, FormatPlan};
use crate::rule::{rule_entries, rule_entry, rules, strings_view, RuleInfo};
use crate::text::{concat2, concat3, decimal, u64_to_string};
use crate::{severity_count, LintError, Report, VERSION};

verus! {

broadcast use vstd::std_specs::vec::group_vec_axioms;

/// Severity at or above which findings make `check` fail.
#[derive(Debug, Clone, Copy, PartialEq, Eq, Structural)]
pub enum FailOn {
    /// Fail on warnings and errors.
    Warning,
    /// Fail on errors only (the default).
    Error,
    /// Never fail because of findings.
    Never,
}

/// Some finding is at least as severe as `threshold`.
pub open spec fn any_at_or_above(ds: Seq<Diagnostic>, threshold: Severity) -> bool {
    exists|i: int| 0 <= i < ds.len() && (#[trigger] ds[i]).severity.level() >= threshold.level()
}

/// Whether findings `ds` make `check` fail under `fail_on`.
pub open spec fn check_fails(ds: Seq<Diagnostic>, fail_on: FailOn) -> bool {
    match fail_on {
        FailOn::Never => false,
        FailOn::Warning => any_at_or_above(ds, Severity::Warning),
        FailOn::Error => any_at_or_above(ds, Severity::Error),
    }
}

/// The thresholds nest: findings that fail `check` at `error` fail it at
/// `warning` too, and `never` fails on no findings.
pub proof fn lemma_fail_on_thresholds_nest(ds: Seq<Diagnostic>)
    ensures
        check_fails(ds, FailOn::Error) ==> check_fails(ds, FailOn::Warning),
        !check_fails(ds, FailOn::Never),
{
    if check_fails(ds, FailOn::Error) {
        let i = choose|i: int| 0 <= i < ds.len() && (#[trigger] ds[i]).severity.level() >= Severity::Error.level();
        assert(ds[i].severity.level() >= Severity::Warning.level());
    }
}

/// What each threshold means: `error` fails on an error finding and on
/// nothing else; `warning` fails on a warning or an error finding, never on
/// informational findings alone.
pub proof fn lemma_fail_on_meaning(ds: Seq<Diagnostic>)
    ensures
        check_fails(ds, FailOn::Error) <==> exists|i: int| 0 <= i < ds.len() && (#[trigger] ds[i]).severity == Severity::Error,
        check_fails(ds, FailOn::Warning) <==> exists|i: int| 0 <= i < ds.len()
            && ((#[trigger] ds[i]).severity == Severity::Warning || ds[i].severity == Severity::Error),
{
    if check_fails(ds, FailOn::Error) {
        let i = choose|i: int| 0 <= i < ds.len() && (#[trigger] ds[i]).severity.level() >= Severity::Error.level();
        assert(ds[i].severity == Severity::Error);
    }
    if exists|i: int| 0 <= i < ds.len() && (#[trigger] ds[i]).severity == Severity::Error {
        let i = choose|i: int| 0 <= i < ds.len() && (#[trigger] ds[i]).severity == Severity::Error;
        assert(ds[i].severity.level() >= Severity::Error.level());
    }
    if check_fails(ds, FailOn::Warning) {
        let i = choose|i: int| 0 <= i < ds.len() && (#[trigger] ds[i]).severity.level() >= Severity::Warning.level();
        assert(ds[i].severity == Severity::Warning || ds[i].severity == Severity::Error);
    }
    if exists|i: int| 0 <= i < ds.len() && ((#[trigger] ds[i]).severity == Severity::Warning || ds[i].severity == Severity::Error) {
        let i = choose|i: int| 0 <= i < ds.len() && ((#[trigger] ds[i]).severity == Severity::Warning || ds[i].severity == Severity::Error);
        assert(ds[i].severity.level() >= Severity::Warning.level());
    }
}

/// The exit code of `check`: a failure to read the store is [`exit::FAILURE`];
/// findings at the threshold are [`exit::FINDINGS`]; anything else is
/// [`exit::OK`].
pub fn check_exit_code(outcome: &Result<Report, LintError>, fail_on: FailOn) -> (r: i32)
    ensures
        match outcome {
            Err(_) => r == exit::FAILURE,
            Ok(report) => r == if check_fails(report.diagnostics@, fail_on) {
                exit::FINDINGS
            } else {
                exit::OK
            },
        },
{
    match outcome {
        Err(_) => exit::FAILURE,
        Ok(report) => {
            let failed = match fail_on {
                FailOn::Never => false,
                FailOn::Warning => report.has_at_or_above(Severity::Warning),
                FailOn::Error => report.has_at_or_above(Severity::Error),
            };
            if failed {
                exit::FINDINGS
            } else {
                exit::OK
            }
        },
    }
}

/// How `fmt` runs.
#[derive(Debug, Clone, Copy, PartialEq, Eq, Structural)]
pub enum FmtMode {
    /// Show what would change (the default).
    DryRun,
    /// Fail if formatting is needed; write nothing.
    Check,
    /// Write the changes.
    Write,
}

impl FmtMode {
    pub open spec fn name(self) -> Seq<char> {
        match self {
            FmtMode::DryRun => "dry-run"@,
            FmtMode::Check => "check"@,
            FmtMode::Write => "write"@,
        }
    }

    /// The mode's name in JSON output.
    pub fn as_str(self) -> (r: &'static str)
        ensures
            r@ == self.name(),
    {
        match self {
            FmtMode::DryRun => "dry-run",
            FmtMode::Check => "check",
            FmtMode::Write => "write",
        }
    }
}

/// The mode `fmt` runs in: files are written only with `--write`;
/// `--check` checks without writing; a dry run is the default.
pub fn fmt_mode(check: bool, write: bool) -> (r: FmtMode)
    ensures
        r == if write {
            FmtMode::Write
        } else if check {
            FmtMode::Check
        } else {
            FmtMode::DryRun
        },
{
    if write {
        FmtMode::Write
    } else if check {
        FmtMode::Check
    } else {
        FmtMode::DryRun
    }
}

/// The exit code of `fmt`: a refused or failed run is [`exit::FAILURE`]; in
/// check mode a store that needs formatting is [`exit::FINDINGS`]; anything
/// else is [`exit::OK`].
pub fn fmt_exit_code(mode: FmtMode, outcome: &Result<FormatPlan, FormatError>) -> (r: i32)
    ensures
        match outcome {
            Err(_) => r == exit::FAILURE,
            Ok(plan) => r == if mode == FmtMode::Check && plan.changes@.len() > 0 {
                exit::FINDINGS
            } else {
                exit::OK
            },
        },
{
    match outcome {
        Err(_) => exit::FAILURE,
        Ok(plan) => match mode {
            FmtMode::Check => if plan.is_empty() {
                exit::OK
            } else {
                exit::FINDINGS
            },
            _ => exit::OK,
        },
    }
}

/// The display paths of the planned changes.
pub open spec fn change_paths(changes: Seq<FormatChange>) -> Seq<Seq<char>> {
    changes.map_values(|c: FormatChange| c.rel_display@)
}

/// The text `fmt` prints for a plan whose changes are at `paths`.
pub open spec fn fmt_text(mode: FmtMode, paths: Seq<Seq<char>>) -> Seq<Seq<char>> {
    if paths.len() == 0 {
        seq!["All metadata files are formatted."@]
    } else {
        match mode {
            FmtMode::Write => seq![
                "Formatted "@ + decimal(paths.len()) + " metadata file(s)."@,
                "Validated store after write."@,
            ],
            FmtMode::Check => seq![decimal(paths.len()) + " metadata file(s) need formatting."@],
            FmtMode::DryRun => seq!["Would format "@ + decimal(paths.len()) + " metadata file(s):"@]
                + paths.map_values(|p: Seq<char>| "  "@ + p)
                + seq![Seq::<char>::empty(), "No files were changed. Run with --write to apply."@],
        }
    }
}

/// The lines `fmt` prints (text output) for `plan`.
pub fn fmt_lines(mode: FmtMode, plan: &FormatPlan) -> (r: Vec<String>)
    ensures
        strings_view(r@) == fmt_text(mode, change_paths(plan.changes@)),
{
    let ghost paths = change_paths(plan.changes@);
    let mut out: Vec<String> = Vec::new();
    if plan.is_empty() {
        out.push(String::from_str("All metadata files are formatted."));
        assert(strings_view(out@) =~= fmt_text(mode, paths));
        return out;
    }
    let n = u64_to_string(plan.changes.len() as u64);
    match mode {
        FmtMode::Write => {
            out.push(concat3("Formatted ", n.as_str(), " metadata file(s)."));
            out.push(String::from_str("Validated store after write."));
            assert(strings_view(out@) =~= fmt_text(mode, paths));
        },
        FmtMode::Check => {
            out.push(concat2(n.as_str(), " metadata file(s) need formatting."));
            assert(strings_view(out@) =~= fmt_text(mode, paths));
        },
        FmtMode::DryRun => {
            out.push(concat3("Would format ", n.as_str(), " metadata file(s):"));
            let mut i: usize = 0;
            while i < plan.changes.len()
                invariant
                    i <= plan.changes@.len(),
                    paths == change_paths(plan.changes@),
                    paths.len() > 0,
                    n@ == decimal(paths.len()),
                    strings_view(out@) == seq!["Would format "@ + decimal(paths.len()) + " metadata file(s):"@]
                        + paths.take(i as int).map_values(|p: Seq<char>| "  "@ + p),
                decreases plan.changes.len() - i,
            {
                let ghost before = out@;
                out.push(concat2("  ", plan.changes[i].rel_display.as_str()));
                assert(paths.take(i + 1).map_values(|p: Seq<char>| "  "@ + p) =~= paths.take(i as int).map_values(
                    |p: Seq<char>| "  "@ + p,
                ).push("  "@ + paths[i as int]));
                assert(strings_view(out@) =~= strings_view(before).push("  "@ + paths[i as int]));
                i = i + 1;
            }
            assert(paths.take(i as int) =~= paths);
            let ghost before = out@;
            out.push(String::new());
            out.push(String::from_str("No files were changed. Run with --write to apply."));
            assert(strings_view(out@) =~= strings_view(before) + seq![Seq::<char>::empty(), "No files were changed. Run with --write to apply."@]);
            assert(strings_view(out@) =~= fmt_text(mode, paths));
        },
    }
    out
}

/// The first line of `version`: `zarr-lint` and the project version.
pub fn version_line() -> (r: String)
    ensures
        r@ == "zarr-lint "@ + VERSION@,
{
    concat2("zarr-lint ", VERSION)
}

/// The lines of `version`; `--verbose` adds the build's commit and profile.
pub fn version_lines(verbose: bool, commit: &str, debug_build: bool) -> (r: Vec<String>)
    ensures
        strings_view(r@) == if verbose {
            seq![
                "zarr-lint "@ + VERSION@,
                "commit: "@ + commit@,
                "build profile: "@ + if debug_build { "debug"@ } else { "release"@ },
            ]
        } else {
            seq!["zarr-lint "@ + VERSION@]
        },
{
    let mut out: Vec<String> = Vec::new();
    out.push(version_line());
    if verbose {
        out.push(concat2("commit: ", commit));
        let profile = if debug_build { "debug" } else { "release" };
        out.push(concat2("build profile: ", profile));
    }
    proof {
        if verbose {
            assert(strings_view(out@) =~= seq![
                "zarr-lint "@ + VERSION@,
                "commit: "@ + commit@,
                "build profile: "@ + if debug_build { "debug"@ } else { "release"@ },
            ]);
        } else {
            assert(strings_view(out@) =~= seq!["zarr-lint "@ + VERSION@]);
        }
    }
    out
}

/// A line without the `\r` of a `\r\n` ending.
pub open spec fn strip_cr(l: Seq<char>) -> Seq<char> {
    if l.len() > 0 && l.last() == '\r' {
        l.drop_last()
    } else {
        l
    }
}

/// The lines of `s` from position `i` on, the current line having started at
/// `start`: lines end at `\n` (dropping a `\r` before it), and a final line
/// ending is optional, as with `str::lines`.
pub open spec fn lines_from(s: Seq<char>, start: int, i: int) -> Seq<Seq<char>>
    decreases s.len() - i,
{
    if i >= s.len() || i < 0 {
        if 0 <= start < s.len() {
            seq![s.subrange(start, s.len() as int)]
        } else {
            Seq::empty()
        }
    } else if s[i] == '\n' {
        seq![strip_cr(s.subrange(start, i))] + lines_from(s, i + 1, i + 1)
    } else {
        lines_from(s, start, i + 1)
    }
}

/// The lines of `s`.
pub open spec fn text_lines(s: Seq<char>) -> Seq<Seq<char>> {
    lines_from(s, 0, 0)
}

/// Split `text` into lines (see [`text_lines`]).
pub fn split_lines(text: &str) -> (r: Vec<String>)
    ensures
        strings_view(r@) == text_lines(text@),
{
    let cs = crate::text::to_chars(text);
    let mut out: Vec<String> = Vec::new();
    let mut start: usize = 0;
    let mut i: usize = 0;
    while i < cs.len()
        invariant
            cs@ == text@,
            start <= i <= cs@.len(),
            text_lines(cs@) == strings_view(out@) + lines_from(cs@, start as int, i as int),
        decreases cs.len() - i,
    {
        if cs[i] == '\n' {
            let line = if i > start && cs[i - 1] == '\r' {
                crate::text::string_from_chars(&cs, start, i - 1)
            } else {
                crate::text::string_from_chars(&cs, start, i)
            };
            assert(line@ == strip_cr(cs@.subrange(start as int, i as int))) by {
                if i > start && cs@[i - 1] == '\r' {
                    assert(cs@.subrange(start as int, i as int).drop_last() =~= cs@.subrange(start as int, i - 1));
                }
            }
            let ghost before = out@;
            out.push(line);
            assert(strings_view(out@) =~= strings_view(before).push(line@));
            assert(strings_view(before) + lines_from(cs@, start as int, i as int) =~= strings_view(out@)
                + lines_from(cs@, i + 1, i + 1));
            i = i + 1;
            start = i;
        } else {
            i = i + 1;
        }
    }
    if start < cs.len() {
        let ghost before = out@;
        out.push(crate::text::string_from_chars(&cs, start, cs.len()));
        assert(strings_view(out@) =~= strings_view(before).push(cs@.subrange(start as int, cs@.len() as int)));
    }
    assert(strings_view(out@) =~= text_lines(cs@));
    out
}

/// The lines `check` prints for one finding.
pub open spec fn diag_lines(d: DiagView) -> Seq<Seq<char>> {
    let head = seq![d.severity.name() + "["@ + d.rule + "] "@ + d.path, "  "@ + d.message];
    let cause = match d.detail {
        Some(t) => seq![Seq::<char>::empty(), "  Caused by:"@] + text_lines(t).map_values(|l: Seq<char>| "    "@ + l),
        None => Seq::<Seq<char>>::empty(),
    };
    head + cause + seq![Seq::<char>::empty()]
}

/// The lines `check` prints for the findings, in order.
pub open spec fn diags_lines(ds: Seq<DiagView>) -> Seq<Seq<char>>
    decreases ds.len(),
{
    if ds.len() == 0 {
        Seq::empty()
    } else {
        diags_lines(ds.drop_last()) + diag_lines(ds.last())
    }
}

/// The summary line of `check`.
pub open spec fn summary_line(ds: Seq<DiagView>, store: Seq<char>) -> Seq<char> {
    if ds.len() == 0 {
        "No problems found in "@ + store + "."@
    } else {
        decimal(ds.len()) + " finding(s): "@ + decimal(severity_count(ds, Severity::Error)) + " error(s), "@
            + decimal(severity_count(ds, Severity::Warning)) + " warning(s), "@
            + decimal(severity_count(ds, Severity::Info)) + " info."@
    }
}

/// The summary of `check` says that no problems were found exactly when
/// there are no findings; otherwise it counts each finding once, under its
/// severity.
pub proof fn lemma_summary_line(ds: Seq<DiagView>, store: Seq<char>)
    ensures
        summary_line(ds, store) == "No problems found in "@ + store + "."@ <==> ds.len() == 0,
        severity_count(ds, Severity::Error) + severity_count(ds, Severity::Warning) + severity_count(ds, Severity::Info)
            == ds.len(),
{
    crate::lemma_severity_counts_partition(ds);
    if ds.len() > 0 {
        reveal_strlit("No problems found in ");
        crate::text::lemma_decimal_reads_back(ds.len());
        let line = summary_line(ds, store);
        assert(line[0] == decimal(ds.len())[0]);
        assert(("No problems found in "@ + store + "."@)[0] == 'N');
    }
}

/// The text output of `check`: each finding, then (unless `quiet`) the
/// summary line.
pub open spec fn report_text(ds: Seq<DiagView>, store: Seq<char>, quiet: bool) -> Seq<Seq<char>> {
    diags_lines(ds) + if quiet {
        Seq::<Seq<char>>::empty()
    } else {
        seq![summary_line(ds, store)]
    }
}

fn push_diag_lines(out: &mut Vec<String>, d: &Diagnostic)
    ensures
        strings_view(final(out)@) == strings_view(old(out)@) + diag_lines(d@),
{
    let ghost start = strings_view(out@);
    let mut head = String::from_str(d.severity.as_str());
    head.append("[");
    head.append(d.rule);
    head.append("] ");
    head.append(d.path.as_str());
    out.push(head);
    out.push(concat2("  ", d.message.as_str()));
    let ghost mid = strings_view(out@);
    assert(mid =~= start + seq![d@.severity.name() + "["@ + d@.rule + "] "@ + d@.path, "  "@ + d@.message]);
    match &d.detail {
        Some(t) => {
            out.push(String::new());
            out.push(String::from_str("  Caused by:"));
            let lines = split_lines(t.as_str());
            let ghost tl = text_lines(t@);
            let ghost base = strings_view(out@);
            assert(base =~= mid + seq![Seq::<char>::empty(), "  Caused by:"@]);
            let mut k: usize = 0;
            while k < lines.len()
                invariant
                    k <= lines@.len(),
                    strings_view(lines@) == tl,
                    strings_view(out@) == base + tl.take(k as int).map_values(|l: Seq<char>| "    "@ + l),
                decreases lines.len() - k,
            {
                let ghost before = out@;
                out.push(concat2("    ", lines[k].as_str()));
                assert(tl.take(k + 1).map_values(|l: Seq<char>| "    "@ + l) =~= tl.take(k as int).map_values(
                    |l: Seq<char>| "    "@ + l,
                ).push("    "@ + tl[k as int]));
                assert(strings_view(out@) =~= strings_view(before).push("    "@ + tl[k as int]));
                k = k + 1;
            }
            assert(tl.take(k as int) =~= tl);
        },
        None => {},
    }
    let ghost before_blank = out@;
    out.push(String::new());
    assert(strings_view(out@) =~= strings_view(before_blank).push(Seq::<char>::empty()));
    assert(strings_view(out@) =~= start + diag_lines(d@));
}

/// The lines `check` prints (text output) for `report`.
pub fn report_lines(report: &Report, quiet: bool) -> (r: Vec<String>)
    ensures
        strings_view(r@) == report_text(diags_view(report.diagnostics@), report.store@, quiet),
{
    let ghost dv = diags_view(report.diagnostics@);
    let mut out: Vec<String> = Vec::new();
    let mut i: usize = 0;
    while i < report.diagnostics.len()
        invariant
            i <= report.diagnostics@.len(),
            dv == diags_view(report.diagnostics@),
            strings_view(out@) == diags_lines(dv.take(i as int)),
        decreases report.diagnostics.len() - i,
    {
        assert(dv.take(i + 1).drop_last() =~= dv.take(i as int));
        assert(dv.take(i + 1).last() == report.diagnostics@[i as int]@);
        push_diag_lines(&mut out, &report.diagnostics[i]);
        i = i + 1;
    }
    assert(dv.take(i as int) =~= dv);
    if !quiet {
        let ghost before = out@;
        let line = if report.diagnostics.len() == 0 {
            concat3("No problems found in ", report.store.as_str(), ".")
        } else {
            let (errors, warnings, infos) = report.counts();
            let mut s = u64_to_string(report.diagnostics.len() as u64);
            s.append(" finding(s): ");
            s.append(u64_to_string(errors as u64).as_str());
            s.append(" error(s), ");
            s.append(u64_to_string(warnings as u64).as_str());
            s.append(" warning(s), ");
            s.append(u64_to_string(infos as u64).as_str());
            s.append(" info.");
            s
        };
        out.push(line);
        assert(strings_view(out@) =~= strings_view(before).push(summary_line(dv, report.store@)));
    }
    assert(strings_view(out@) =~= report_text(dv, report.store@, quiet));
    out
}

/// `s` padded with spaces on the right to at least seven characters.
pub open spec fn pad7(s: Seq<char>) -> Seq<char> {
    if s.len() >= 7 {
        s
    } else {
        s + Seq::new((7 - s.len()) as nat, |i: int| ' ')
    }
}

/// Padding keeps the text and adds only spaces, up to seven characters: a
/// text of seven or more characters is left as it is.
pub proof fn lemma_pad7(s: Seq<char>)
    ensures
        pad7(s).len() == if s.len() >= 7 { s.len() } else { 7 },
        pad7(s).take(s.len() as int) == s,
        forall|i: int| s.len() <= i < pad7(s).len() ==> #[trigger] pad7(s)[i] == ' ',
{
    assert(pad7(s).take(s.len() as int) =~= s);
}

/// The node kind as `inspect` shows it, padded to seven characters.
pub open spec fn kind_label(k: Option<NodeKind>) -> Seq<char> {
    pad7(
        match k {
            Some(kind) => kind.name(),
            None => "unknown"@,
        },
    )
}

/// The line `inspect` prints for a parsed metadata document.
pub open spec fn node_line(p: ParsedView) -> Seq<char> {
    let location = if p.location.len() == 0 {
        "/"@
    } else {
        p.location
    };
    let base = "  "@ + p.version.name() + " "@ + kind_label(p.kind()) + " "@ + location;
    let with_shape = match p.shape_dims() {
        Some(dims) => base + "  shape="@ + dims_text(dims),
        None => base,
    };
    match p.chunk_dims() {
        Some(dims) => with_shape + " chunks="@ + dims_text(dims),
        None => with_shape,
    }
}

/// The line `inspect` prints for a document that is not valid JSON.
pub open spec fn failure_line(f: FailureView) -> Seq<char> {
    "  ! "@ + f.rel_display + " (invalid JSON)"@
}

/// The output of `inspect` for the store at `target` with `n_files`
/// discovered documents, of which `parsed` parsed and `failures` did not.
pub open spec fn inspect_text(
    target: Seq<char>,
    n_files: nat,
    parsed: Seq<ParsedView>,
    failures: Seq<FailureView>,
) -> Seq<Seq<char>> {
    if n_files == 0 {
        seq!["No Zarr metadata found in "@ + target + "."@]
    } else {
        seq!["Store: "@ + target, "Discovered "@ + decimal(n_files) + " metadata document(s):"@]
            + parsed.map_values(|p: ParsedView| node_line(p))
            + failures.map_values(|f: FailureView| failure_line(f))
    }
}

fn kind_text(k: Option<NodeKind>) -> (r: &'static str)
    ensures
        r@ == kind_label(k),
{
    proof {
        reveal_strlit("group");
        reveal_strlit("array");
        reveal_strlit("unknown");
        reveal_strlit("group  ");
        reveal_strlit("array  ");
    }
    match k {
        Some(NodeKind::Group) => {
            assert("group  "@ =~= kind_label(k));
            "group  "
        },
        Some(NodeKind::Array) => {
            assert("array  "@ =~= kind_label(k));
            "array  "
        },
        None => "unknown",
    }
}

fn inspect_node_line(p: &ParsedMetadata) -> (r: String)
    ensures
        r@ == node_line(p@),
{
    let mut line = String::from_str("  ");
    line.append(p.version.as_str());
    line.append(" ");
    line.append(kind_text(p.kind()));
    line.append(" ");
    if p.location.as_str().is_empty() {
        line.append("/");
    } else {
        line.append(p.location.as_str());
    }
    match p.shape_dims() {
        Some(dims) => {
            line.append("  shape=");
            line.append(format_dims(dims).as_str());
        },
        None => {},
    }
    match p.chunk_dims() {
        Some(dims) => {
            line.append(" chunks=");
            line.append(format_dims(dims).as_str());
        },
        None => {},
    }
    line
}

/// The lines `inspect` prints for the store at `target`, scanned as `scan`
/// and parsed as `loaded`.
pub fn inspect_lines(target: &str, scan: &StoreScan, loaded: &LoadedStore) -> (r: Vec<String>)
    ensures
        strings_view(r@) == inspect_text(target@, scan.files@.len(), loaded.parsed_view(), loaded.failures_view()),
{
    let mut out: Vec<String> = Vec::new();
    if !scan.is_recognized() {
        out.push(concat3("No Zarr metadata found in ", target, "."));
        assert(strings_view(out@) =~= inspect_text(target@, scan.files@.len(), loaded.parsed_view(), loaded.failures_view()));
        return out;
    }
    out.push(concat2("Store: ", target));
    let n = u64_to_string(scan.files.len() as u64);
    out.push(concat3("Discovered ", n.as_str(), " metadata document(s):"));
    let ghost head = strings_view(out@);
    let ghost pv = loaded.parsed_view();
    let ghost fv = loaded.failures_view();
    let mut i: usize = 0;
    while i < loaded.parsed.len()
        invariant
            i <= loaded.parsed@.len(),
            pv == loaded.parsed_view(),
            strings_view(out@) == head + pv.take(i as int).map_values(|p: ParsedView| node_line(p)),
        decreases loaded.parsed.len() - i,
    {
        let ghost before = out@;
        let line = inspect_node_line(&loaded.parsed[i]);
        out.push(line);
        assert(pv[i as int] == loaded.parsed@[i as int]@);
        assert(pv.take(i + 1).map_values(|p: ParsedView| node_line(p)) =~= pv.take(i as int).map_values(
            |p: ParsedView| node_line(p),
        ).push(node_line(pv[i as int])));
        assert(strings_view(out@) =~= strings_view(before).push(line@));
        i = i + 1;
    }
    assert(pv.take(i as int) =~= pv);
    let ghost mid = strings_view(out@);
    let mut j: usize = 0;
    while j < loaded.parse_failures.len()
        invariant
            j <= loaded.parse_failures@.len(),
            fv == loaded.failures_view(),
            strings_view(out@) == mid + fv.take(j as int).map_values(|f: FailureView| failure_line(f)),
        decreases loaded.parse_failures.len() - j,
    {
        let ghost before = out@;
        let line = concat3("  ! ", loaded.parse_failures[j].rel_display.as_str(), " (invalid JSON)");
        out.push(line);
        assert(fv[j as int] == loaded.parse_failures@[j as int]@);
        assert(fv.take(j + 1).map_values(|f: FailureView| failure_line(f)) =~= fv.take(j as int).map_values(
            |f: FailureView| failure_line(f),
        ).push(failure_line(fv[j as int])));
        assert(strings_view(out@) =~= strings_view(before).push(line@));
        j = j + 1;
    }
    assert(fv.take(j as int) =~= fv);
    assert(strings_view(out@) =~= inspect_text(target@, scan.files@.len(), pv, fv));
    out
}

/// The JSON report of `fmt` for the store `store` run in `mode`, whose plan
/// changes the documents at `paths`; members are in name order.
pub open spec fn fmt_report_json(store: Seq<char>, mode: FmtMode, paths: Seq<Seq<char>>) -> Json {
    Json::Object(
        seq![
            ("changed_count"@, Json::PosInt(paths.len() as u64)),
            ("changes"@, Json::Array(paths.map_values(|p: Seq<char>| Json::Str(p)))),
            ("mode"@, Json::Str(mode.name())),
            ("store"@, Json::Str(store)),
            ("version"@, Json::Str(VERSION@)),
            ("would_change"@, Json::Bool(paths.len() > 0)),
        ],
    )
}

/// Build the JSON report of `fmt` (see [`fmt_report_json`]).
pub fn fmt_report(store: &str, mode: FmtMode, plan: &FormatPlan) -> (r: JsonValue)
    ensures
        r@ == fmt_report_json(store@, mode, change_paths(plan.changes@)),
{
    broadcast use crate::json::group_json_view;
    let ghost paths = change_paths(plan.changes@);
    let mut changes: Vec<JsonValue> = Vec::new();
    let mut i: usize = 0;
    while i < plan.changes.len()
        invariant
            i <= plan.changes@.len(),
            paths == change_paths(plan.changes@),
            changes@.len() == i,
            forall|k: int| 0 <= k < i ==> (#[trigger] changes@[k])@ == Json::Str(paths[k]),
        decreases plan.changes.len() - i,
    {
        changes.push(JsonValue::Str(plan.changes[i].rel_display.clone()));
        i = i + 1;
    }
    assert(items_view(changes@) =~= paths.map_values(|p: Seq<char>| Json::Str(p)));
    let mut entries: Vec<(String, JsonValue)> = Vec::new();
    entries.push((String::from_str("changed_count"), JsonValue::PosInt(plan.changes.len() as u64)));
    entries.push((String::from_str("changes"), JsonValue::Array(changes)));
    entries.push((String::from_str("mode"), JsonValue::Str(String::from_str(mode.as_str()))));
    entries.push((String::from_str("store"), JsonValue::Str(String::from_str(store))));
    entries.push((String::from_str("version"), JsonValue::Str(String::from_str(VERSION))));
    entries.push((String::from_str("would_change"), JsonValue::Bool(!plan.is_empty())));
    let r = JsonValue::Object(entries);
    assert(entries_view(entries@) =~= seq![
        ("changed_count"@, Json::PosInt(paths.len() as u64)),
        ("changes"@, Json::Array(paths.map_values(|p: Seq<char>| Json::Str(p)))),
        ("mode"@, Json::Str(mode.name())),
        ("store"@, Json::Str(store@)),
        ("version"@, Json::Str(VERSION@)),
        ("would_change"@, Json::Bool(paths.len() > 0)),
    ]);
    r
}

/// The JSON form of one registry entry; members are in name order.
pub open spec fn rule_json(r: (Seq<char>, Severity, Seq<char>)) -> Json {
    Json::Object(
        seq![
            ("default_severity"@, Json::Str(r.1.name())),
            ("id"@, Json::Str(r.0)),
            ("summary"@, Json::Str(r.2)),
        ],
    )
}

/// The rule registry as a JSON array, one object per rule, in registry order.
pub fn rules_json() -> (r: JsonValue)
    ensures
        r@ == Json::Array(rule_entries().map_values(|x: (Seq<char>, Severity, Seq<char>)| rule_json(x))),
{
    broadcast use crate::json::group_json_view;
    let registry = rules();
    let mut items: Vec<JsonValue> = Vec::new();
    let mut i: usize = 0;
    while i < registry.len()
        invariant
            i <= registry@.len(),
            registry@.map_values(|x: RuleInfo| rule_entry(x)) == rule_entries(),
            items@.len() == i,
            forall|k: int| 0 <= k < i ==> (#[trigger] items@[k])@ == rule_json(rule_entry(registry@[k])),
        decreases registry.len() - i,
    {
        let info = registry[i];
        let mut entries: Vec<(String, JsonValue)> = Vec::new();
        let sev = String::from_str(info.default_severity.as_str());
        let id = String::from_str(info.id);
        let summary = String::from_str(info.summary);
        entries.push((String::from_str("default_severity"), JsonValue::Str(sev)));
        entries.push((String::from_str("id"), JsonValue::Str(id)));
        entries.push((String::from_str("summary"), JsonValue::Str(summary)));
        proof {
            crate::json::lemma_entries_view(entries@);
        }
        assert(entries_view(entries@) =~= seq![
            ("default_severity"@, Json::Str(info.default_severity.name())),
            ("id"@, Json::Str(info.id@)),
            ("summary"@, Json::Str(info.summary@)),
        ]);
        items.push(JsonValue::Object(entries));
        i = i + 1;
    }
    assert(items_view(items@) =~= rule_entries().map_values(|x: (Seq<char>, Severity, Seq<char>)| rule_json(x))) by {
        assert forall|k: int| 0 <= k < items@.len() implies items_view(items@)[k] == rule_json(rule_entries()[k]) by {
            assert(rule_entries()[k] == registry@.map_values(|x: RuleInfo| rule_entry(x))[k]);
        }
    }
    JsonValue::Array(items)
}

} // verus!
