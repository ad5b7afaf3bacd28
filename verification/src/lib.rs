//! Core store discovery, metadata model, and rule engine for `zarr-lint`.
//!
//! The pipeline is:
//!
//! ```text
//! store path -> discovery -> metadata loading -> normalized model
//!            -> rule set -> sorted diagnostics -> Report
//! ```
//!
//! Reading a store (directories, files, HTTP, object stores) is done by the
//! caller, which hands the discovered documents to [`lint_store`]; every
//! decision about what was read is made, and verified, here.

pub mod text;
pub mod sorting;
pub mod permutation;
pub mod json;
pub mod json_codec;
pub mod diagnostic;
pub mod model;
pub mod scanner;
pub mod rule;
pub mod remote;
pub mod cloud;
pub mod format;
pub mod discovery_order;
pub mod exit;
pub mod cli;

use vstd::prelude::*;

use crate::diagnostic::{diag_le, diags_view, key_le, sort_diagnostics, DiagView};
use crate::model::{load, load_failures, load_parsed};
use crate::rule::{evaluate, finding, spec_evaluate, STRUCTURE_UNRECOGNIZED_STORE};
use crate::scanner::{files_view, scan_error_text, RawFileView};
use crate::sorting::{insert_by, sort_by, sorted_by, tied};

pub use diagnostic::{Diagnostic, Severity};
pub use model::{LoadedStore, NodeKind, ParsedMetadata, ZarrNode, ZarrVersion};
pub use rule::{rules, RuleInfo};
pub use scanner::{ScanError, StoreOptions, StoreScan};

verus! {

/// The project version.
pub const VERSION: &'static str = "0.0.1";

/// A complete lint report for a single store.
#[derive(Debug, Clone)]
pub struct Report {
    /// The project version that produced the report.
    pub version: &'static str,
    /// The store path as supplied to [`lint_store`].
    pub store: String,
    /// All findings, in a deterministic order.
    pub diagnostics: Vec<Diagnostic>,
}

/// The order findings are reported in, on their views.
pub open spec fn report_le() -> spec_fn(DiagView, DiagView) -> bool {
    |a: DiagView, b: DiagView| key_le(a, b)
}

/// The findings reported for a store whose discovered documents are `files`,
/// with `store` shown for store-level findings: every finding of the rule set,
/// stably sorted by path, rule and message.
pub open spec fn spec_lint(files: Seq<RawFileView>, store: Seq<char>) -> Seq<DiagView> {
    sort_by(spec_evaluate(files, load_parsed(files), load_failures(files), store), report_le())
}

/// The number of findings with severity `s`.
pub open spec fn severity_count(ds: Seq<DiagView>, s: Severity) -> nat
    decreases ds.len(),
{
    if ds.len() == 0 {
        0
    } else {
        severity_count(ds.drop_last(), s) + if ds.last().severity == s { 1nat } else { 0nat }
    }
}

/// Every finding is counted once, under its own severity.
pub proof fn lemma_severity_counts_partition(ds: Seq<DiagView>)
    ensures
        severity_count(ds, Severity::Error) + severity_count(ds, Severity::Warning) + severity_count(ds, Severity::Info)
            == ds.len(),
    decreases ds.len(),
{
    if ds.len() > 0 {
        lemma_severity_counts_partition(ds.drop_last());
    }
}

impl Report {
    /// Count findings by severity, returned as `(errors, warnings, infos)`.
    pub fn counts(&self) -> (r: (usize, usize, usize))
        ensures
            r.0 == severity_count(diags_view(self.diagnostics@), Severity::Error),
            r.1 == severity_count(diags_view(self.diagnostics@), Severity::Warning),
            r.2 == severity_count(diags_view(self.diagnostics@), Severity::Info),
            r.0 + r.1 + r.2 == self.diagnostics@.len(),
    {
        let ghost dv = diags_view(self.diagnostics@);
        let mut errors: usize = 0;
        let mut warnings: usize = 0;
        let mut infos: usize = 0;
        let mut i: usize = 0;
        while i < self.diagnostics.len()
            invariant
                i <= self.diagnostics@.len(),
                dv == diags_view(self.diagnostics@),
                errors == severity_count(dv.take(i as int), Severity::Error),
                warnings == severity_count(dv.take(i as int), Severity::Warning),
                infos == severity_count(dv.take(i as int), Severity::Info),
                errors + warnings + infos == i,
            decreases self.diagnostics.len() - i,
        {
            assert(dv.take(i + 1).drop_last() =~= dv.take(i as int));
            assert(dv.take(i + 1).last() == self.diagnostics@[i as int]@);
            match self.diagnostics[i].severity {
                Severity::Error => errors = errors + 1,
                Severity::Warning => warnings = warnings + 1,
                Severity::Info => infos = infos + 1,
            }
            i = i + 1;
        }
        assert(dv.take(i as int) =~= dv);
        (errors, warnings, infos)
    }

    /// Whether any finding is at least as severe as `threshold`.
    pub fn has_at_or_above(&self, threshold: Severity) -> (r: bool)
        ensures
            r == exists|i: int| 0 <= i < self.diagnostics@.len()
                && (#[trigger] self.diagnostics@[i]).severity.level() >= threshold.level(),
    {
        let mut i: usize = 0;
        while i < self.diagnostics.len()
            invariant
                i <= self.diagnostics@.len(),
                forall|j: int| 0 <= j < i ==> (#[trigger] self.diagnostics@[j]).severity.level() < threshold.level(),
            decreases self.diagnostics.len() - i,
        {
            if self.diagnostics[i].severity.at_or_above(threshold) {
                return true;
            }
            i = i + 1;
        }
        false
    }
}

/// Errors that prevent producing a report at all: store-access failures.
#[derive(Debug, Clone)]
pub enum LintError {
    /// The store could not be scanned.
    Scan(ScanError),
}

impl LintError {
    /// The error's text, as it is shown to users: that of the scan error.
    pub fn message(&self) -> (r: String)
        ensures
            r@ == match *self {
                LintError::Scan(e) => scan_error_text(e),
            },
    {
        match self {
            LintError::Scan(e) => e.message(),
        }
    }
}

/// Lint the documents discovered in a store.
///
/// `target` is the store path or URL as supplied; it names the store in the
/// report and is the location of store-level findings. The findings are every
/// finding of the rule set, sorted by path, rule and message.
pub fn lint_store_with(target: &str, scan: &StoreScan) -> (r: Report)
    ensures
        r.version@ == VERSION@,
        r.store@ == target@,
        diags_view(r.diagnostics@) == spec_lint(files_view(scan.files@), target@),
{
    let loaded = load(scan);
    let diagnostics = evaluate(scan, &loaded, target);
    let ghost unsorted = diagnostics@;
    let diagnostics = sort_diagnostics(diagnostics);
    proof {
        crate::sorting::lemma_sort_map(unsorted, |d: Diagnostic| d@, diag_le(), report_le());
    }
    Report { version: VERSION, store: String::from_str(target), diagnostics }
}

/// Lint the store at `target` from the outcome of scanning it: a failed scan
/// is a [`LintError`]; a store that is simply not a Zarr store yields a report
/// with a `structure/unrecognized-store` finding.
pub fn lint_store(target: &str, scanned: Result<StoreScan, ScanError>) -> (r: Result<Report, LintError>)
    ensures
        match scanned {
            Ok(scan) => r matches Ok(report) && report.store@ == target@ && report.version@ == VERSION@
                && diags_view(report.diagnostics@) == spec_lint(files_view(scan.files@), target@),
            Err(e) => r == Err::<Report, LintError>(LintError::Scan(e)),
        },
        r is Ok <==> scanned is Ok,
{
    match scanned {
        Ok(scan) => Ok(lint_store_with(target, &scan)),
        Err(e) => Err(LintError::Scan(e)),
    }
}

/// Parse the documents of a scanned store without running rules.
pub fn load_store(scanned: Result<StoreScan, ScanError>) -> (r: Result<(StoreScan, LoadedStore), LintError>)
    ensures
        match scanned {
            Ok(scan) => r matches Ok((s, loaded)) && s == scan
                && loaded.parsed_view() == load_parsed(files_view(scan.files@))
                && loaded.failures_view() == load_failures(files_view(scan.files@)),
            Err(e) => r == Err::<(StoreScan, LoadedStore), LintError>(LintError::Scan(e)),
        },
{
    match scanned {
        Ok(scan) => {
            let loaded = load(&scan);
            Ok((scan, loaded))
        },
        Err(e) => Err(LintError::Scan(e)),
    }
}

/// The reported findings are sorted by path, then rule, then message.
pub proof fn lemma_report_sorted(files: Seq<RawFileView>, store: Seq<char>)
    ensures
        sorted_by(spec_lint(files, store), report_le()),
{
    crate::diagnostic::lemma_key_le_total_preorder();
    crate::sorting::lemma_sort_sorted(
        spec_evaluate(files, load_parsed(files), load_failures(files), store),
        report_le(),
    );
}

/// The reported findings are exactly the rule set's findings: none is added,
/// dropped or repeated by sorting.
pub proof fn lemma_report_complete(files: Seq<RawFileView>, store: Seq<char>)
    ensures
        spec_lint(files, store).to_multiset()
            == spec_evaluate(files, load_parsed(files), load_failures(files), store).to_multiset(),
{
    crate::sorting::lemma_sort_multiset(
        spec_evaluate(files, load_parsed(files), load_failures(files), store),
        report_le(),
    );
}

/// The report's order does not depend on the order in which the findings
/// were produced: findings with the same elements, no two distinct ones of
/// which share a path, a rule and a message, are reported in the same order.
pub proof fn lemma_report_order_independent(a: Seq<DiagView>, b: Seq<DiagView>)
    requires
        a.to_multiset() == b.to_multiset(),
        forall|i: int, j: int|
            0 <= i < a.len() && 0 <= j < a.len() && #[trigger] a[i].path == #[trigger] a[j].path
                && a[i].rule == a[j].rule && a[i].message == a[j].message ==> a[i] == a[j],
    ensures
        sort_by(a, report_le()) == sort_by(b, report_le()),
{
    crate::diagnostic::lemma_key_le_total_preorder();
    assert(report_le() == |x: DiagView, y: DiagView| key_le(x, y));
    assert forall|i: int, j: int|
        0 <= i < a.len() && 0 <= j < a.len() && tied(report_le(), #[trigger] a[i], #[trigger] a[j]) implies a[i] == a[j] by {
        crate::diagnostic::lemma_key_tie(a[i], a[j]);
    }
    crate::sorting::lemma_sort_unique_keys(a, b, report_le());
}

/// A store in which no metadata was discovered is reported with exactly one
/// finding, `structure/unrecognized-store`, located at the store.
pub proof fn lemma_unrecognized_store_fires_alone(store: Seq<char>)
    ensures
        spec_lint(Seq::<RawFileView>::empty(), store) == seq![
            finding(
                STRUCTURE_UNRECOGNIZED_STORE@,
                store,
                "The supplied path does not contain recognizable Zarr metadata."@,
                None,
            ),
        ],
{
    let x = finding(
        STRUCTURE_UNRECOGNIZED_STORE@,
        store,
        "The supplied path does not contain recognizable Zarr metadata."@,
        None,
    );
    let e = Seq::<RawFileView>::empty();
    assert(spec_evaluate(e, load_parsed(e), load_failures(e), store) == seq![x]);
    assert(seq![x].drop_last() =~= Seq::<DiagView>::empty());
    assert(seq![x].last() == x);
    assert(sort_by(Seq::<DiagView>::empty(), report_le()) == Seq::<DiagView>::empty());
    assert(insert_by(Seq::<DiagView>::empty(), x, report_le()) == seq![x]);
    assert(sort_by(seq![x], report_le()) == insert_by(Seq::<DiagView>::empty(), x, report_le()));
}

} // verus!
