//! Diagnostic types shared by the rule engine and the reporters.

use vstd::prelude::*;

use crate::text::{compare_chars, seq_le, seq_lt, to_chars, Order};

verus! {

/// How serious a finding is, ordered from least to most severe.
#[derive(Debug, Clone, Copy, PartialEq, Eq, Structural, PartialOrd, Ord, Hash)]
pub enum Severity {
    /// Informational; never fails a run on its own.
    Info,
    /// A likely problem that does not necessarily break the store.
    Warning,
    /// A definite problem with the store's structure or metadata.
    Error,
}

impl Severity {
    /// The position of the severity in the order `Info < Warning < Error`.
    pub open spec fn level(self) -> int {
        match self {
            Severity::Info => 0,
            Severity::Warning => 1,
            Severity::Error => 2,
        }
    }

    /// The lowercase string form used in text output and rule documentation.
    pub fn as_str(self) -> (r: &'static str)
        ensures
            r@ == self.name(),
    {
        match self {
            Severity::Info => "info",
            Severity::Warning => "warning",
            Severity::Error => "error",
        }
    }

    pub open spec fn name(self) -> Seq<char> {
        match self {
            Severity::Info => "info"@,
            Severity::Warning => "warning"@,
            Severity::Error => "error"@,
        }
    }

    /// Whether `self` is at least as severe as `threshold`.
    pub fn at_or_above(self, threshold: Severity) -> (r: bool)
        ensures
            r == (self.level() >= threshold.level()),
    {
        let a: u8 = match self {
            Severity::Info => 0,
            Severity::Warning => 1,
            Severity::Error => 2,
        };
        let b: u8 = match threshold {
            Severity::Info => 0,
            Severity::Warning => 1,
            Severity::Error => 2,
        };
        a >= b
    }
}

/// A single linter finding.
#[derive(Debug, Clone)]
pub struct Diagnostic {
    /// Stable rule identifier, for example `metadata/invalid-json`.
    pub rule: &'static str,
    /// Default severity for the rule that produced this finding.
    pub severity: Severity,
    /// Store-relative display path the finding applies to.
    pub path: String,
    /// One-line, human-readable description of the problem.
    pub message: String,
    /// Optional secondary detail (rendered as `Caused by:` in text output).
    pub detail: Option<String>,
}

impl Diagnostic {
    /// Create a diagnostic without secondary detail.
    pub fn new(rule: &'static str, severity: Severity, path: String, message: String) -> (d: Self)
        ensures
            d.rule == rule,
            d.severity == severity,
            d.path == path,
            d.message == message,
            d.detail.is_none(),
    {
        Diagnostic { rule, severity, path, message, detail: None }
    }

    /// Attach secondary detail, consuming and returning the diagnostic.
    pub fn with_detail(self, detail: String) -> (d: Self)
        ensures
            d.rule == self.rule,
            d.severity == self.severity,
            d.path == self.path,
            d.message == self.message,
            d.detail == Some(detail),
    {
        Diagnostic { detail: Some(detail), ..self }
    }
}

/// The mathematical value of a [`Diagnostic`].
pub struct DiagView {
    pub rule: Seq<char>,
    pub severity: Severity,
    pub path: Seq<char>,
    pub message: Seq<char>,
    pub detail: Option<Seq<char>>,
}

impl View for Diagnostic {
    type V = DiagView;

    open spec fn view(&self) -> DiagView {
        DiagView {
            rule: self.rule@,
            severity: self.severity,
            path: self.path@,
            message: self.message@,
            detail: match self.detail {
                Some(d) => Some(d@),
                None => None,
            },
        }
    }
}

/// The views of a sequence of diagnostics.
pub open spec fn diags_view(ds: Seq<Diagnostic>) -> Seq<DiagView> {
    ds.map_values(|d: Diagnostic| d@)
}

/// The order findings are reported in: by path, then rule, then message.
pub open spec fn key_le(a: DiagView, b: DiagView) -> bool {
    ||| seq_lt(a.path, b.path)
    ||| a.path == b.path && seq_lt(a.rule, b.rule)
    ||| a.path == b.path && a.rule == b.rule && seq_le(a.message, b.message)
}

/// [`key_le`] on diagnostics.
pub open spec fn diag_le() -> spec_fn(Diagnostic, Diagnostic) -> bool {
    |a: Diagnostic, b: Diagnostic| key_le(a@, b@)
}

pub proof fn lemma_key_le_total_preorder()
    ensures
        crate::sorting::total_preorder(|a: DiagView, b: DiagView| key_le(a, b)),
{
    let le = |a: DiagView, b: DiagView| key_le(a, b);
    assert forall|a: DiagView, b: DiagView| #[trigger] le(a, b) || le(b, a) by {
        crate::text::lemma_seq_le_total(a.path, b.path);
        crate::text::lemma_seq_le_total(a.rule, b.rule);
        crate::text::lemma_seq_le_total(a.message, b.message);
    }
    assert forall|a: DiagView, b: DiagView, c: DiagView| #[trigger] le(a, b) && #[trigger] le(b, c) implies le(a, c) by {
        lemma_key_trans(a, b, c);
    }
}

proof fn lemma_key_trans(a: DiagView, b: DiagView, c: DiagView)
    requires
        key_le(a, b),
        key_le(b, c),
    ensures
        key_le(a, c),
{
    crate::text::lemma_seq_trichotomy(a.path, b.path);
    crate::text::lemma_seq_trichotomy(b.path, c.path);
    crate::text::lemma_seq_trichotomy(a.rule, b.rule);
    crate::text::lemma_seq_trichotomy(b.rule, c.rule);
    crate::text::lemma_seq_le_refl(a.path);
    crate::text::lemma_seq_le_refl(b.path);
    crate::text::lemma_seq_le_refl(a.rule);
    crate::text::lemma_seq_le_refl(b.rule);
    if seq_lt(a.path, b.path) && seq_le(b.path, c.path) {
        crate::text::lemma_seq_lt_le_trans(a.path, b.path, c.path);
    }
    if seq_le(a.path, b.path) && seq_lt(b.path, c.path) {
        crate::text::lemma_seq_le_lt_trans(a.path, b.path, c.path);
    }
    if seq_lt(a.rule, b.rule) && seq_le(b.rule, c.rule) {
        crate::text::lemma_seq_lt_le_trans(a.rule, b.rule, c.rule);
    }
    if seq_le(a.rule, b.rule) && seq_lt(b.rule, c.rule) {
        crate::text::lemma_seq_le_lt_trans(a.rule, b.rule, c.rule);
    }
    if seq_le(a.message, b.message) && seq_le(b.message, c.message) {
        crate::text::lemma_seq_le_trans(a.message, b.message, c.message);
    }
}

/// The report order compares paths first; only findings at one path are
/// compared by rule, and only those that also share their rule by message.
pub proof fn lemma_key_le_by_path_rule_message(a: DiagView, b: DiagView)
    ensures
        a.path != b.path ==> (key_le(a, b) <==> seq_le(a.path, b.path)),
        a.path == b.path && a.rule != b.rule ==> (key_le(a, b) <==> seq_le(a.rule, b.rule)),
        a.path == b.path && a.rule == b.rule ==> (key_le(a, b) <==> seq_le(a.message, b.message)),
{
    crate::text::lemma_seq_le_refl(a.path);
    crate::text::lemma_seq_le_refl(a.rule);
}

/// Findings tied in the report order share their path, rule and message.
pub proof fn lemma_key_tie(a: DiagView, b: DiagView)
    requires
        key_le(a, b),
        key_le(b, a),
    ensures
        a.path == b.path,
        a.rule == b.rule,
        a.message == b.message,
{
    crate::text::lemma_seq_trichotomy(a.path, b.path);
    crate::text::lemma_seq_trichotomy(a.rule, b.rule);
    if a.path == b.path && a.rule == b.rule {
        crate::text::lemma_seq_le_antisym(a.message, b.message);
    }
}

/// Compares two diagnostics by their sort key.
pub fn diag_key_le(a: &Diagnostic, b: &Diagnostic) -> (r: bool)
    ensures
        r == key_le(a@, b@),
{
    proof {
        crate::text::lemma_seq_trichotomy(a.path@, b.path@);
        crate::text::lemma_seq_trichotomy(a.rule@, b.rule@);
        crate::text::lemma_seq_trichotomy(a.message@, b.message@);
    }
    let ap = to_chars(a.path.as_str());
    let bp = to_chars(b.path.as_str());
    match compare_chars(&ap, &bp) {
        Order::Less => true,
        Order::Greater => false,
        Order::Equal => {
            let ar = to_chars(a.rule);
            let br = to_chars(b.rule);
            match compare_chars(&ar, &br) {
                Order::Less => true,
                Order::Greater => false,
                Order::Equal => {
                    let am = to_chars(a.message.as_str());
                    let bm = to_chars(b.message.as_str());
                    match compare_chars(&am, &bm) {
                        Order::Greater => false,
                        _ => true,
                    }
                },
            }
        },
    }
}

/// Sorts findings by path, then rule, then message, keeping the relative
/// order of findings with equal keys.
pub fn sort_diagnostics(ds: Vec<Diagnostic>) -> (r: Vec<Diagnostic>)
    ensures
        r@ == crate::sorting::sort_by(ds@, diag_le()),
{
    let le = |a: &Diagnostic, b: &Diagnostic| -> (r: bool)
        ensures
            r == diag_le()(*a, *b),
        { diag_key_le(a, b) };
    crate::sorting::sort_vec_by(ds, le, Ghost(diag_le()))
}

} // verus!
