//! Diagnostics reported by the analyzer, and the constructors of the error
//! diagnostics that the contract queries emit.

use vstd::prelude::*;
use crate::span::Span;

verus! {

/// How serious a diagnostic is.
#[derive(Debug, PartialEq, Eq, Structural, Copy, Clone, Hash)]
pub enum Severity {
    Bug,
    Error,
    Warning,
    Note,
    Help,
}

/// Whether a label marks the main location of a diagnostic or a related one.
#[derive(Debug, PartialEq, Eq, Structural, Copy, Clone, Hash)]
pub enum LabelStyle {
    Primary,
    Secondary,
}

/// A message attached to a source range.
#[derive(Debug)]
pub struct Label {
    pub style: LabelStyle,
    pub span: Span,
    pub message: String,
}

/// A diagnostic: a severity, a headline message, labelled source ranges and
/// trailing notes.
#[derive(Debug)]
pub struct Diagnostic {
    pub severity: Severity,
    pub message: String,
    pub labels: Vec<Label>,
    pub notes: Vec<String>,
}

/// What a [`Label`] says, with its text as characters.
pub struct LabelView {
    pub style: LabelStyle,
    pub span: Span,
    pub message: Seq<char>,
}

/// What a [`Diagnostic`] says, with its texts as characters.
pub struct DiagnosticView {
    pub severity: Severity,
    pub message: Seq<char>,
    pub labels: Seq<LabelView>,
    pub notes: Seq<Seq<char>>,
}

impl View for Label {
    type V = LabelView;

    open spec fn view(&self) -> LabelView {
        LabelView { style: self.style, span: self.span, message: self.message@ }
    }
}

/// The texts of a sequence of strings.
pub open spec fn strings_view(s: Seq<String>) -> Seq<Seq<char>> {
    s.map_values(|x: String| x@)
}

/// The views of a sequence of labels.
pub open spec fn labels_view(s: Seq<Label>) -> Seq<LabelView> {
    s.map_values(|l: Label| l@)
}

impl View for Diagnostic {
    type V = DiagnosticView;

    open spec fn view(&self) -> DiagnosticView {
        DiagnosticView {
            severity: self.severity,
            message: self.message@,
            labels: labels_view(self.labels@),
            notes: strings_view(self.notes@),
        }
    }
}

/// The views of a sequence of diagnostics.
pub open spec fn diags_view(s: Seq<Diagnostic>) -> Seq<DiagnosticView> {
    s.map_values(|d: Diagnostic| d@)
}

/// A primary label.
pub open spec fn primary(span: Span, message: Seq<char>) -> LabelView {
    LabelView { style: LabelStyle::Primary, span, message }
}

/// A secondary label.
pub open spec fn secondary(span: Span, message: Seq<char>) -> LabelView {
    LabelView { style: LabelStyle::Secondary, span, message }
}

/// An error with the given message, labels and notes.
pub open spec fn error_view(message: Seq<char>, labels: Seq<LabelView>, notes: Seq<Seq<char>>) -> DiagnosticView {
    DiagnosticView { severity: Severity::Error, message, labels, notes }
}

/// `` `name` ``, followed by `rest`.
pub open spec fn quoted(name: Seq<char>, rest: Seq<char>) -> Seq<char> {
    "`"@ + name + rest
}

/// The error that a name defined twice in one namespace gets: `message`,
/// with the first definition as primary label and the second as secondary.
pub open spec fn spec_duplicate_name_error(message: Seq<char>, name: Seq<char>, original: Span, duplicate: Span) -> DiagnosticView {
    error_view(
        message,
        seq![
            primary(original, quoted(name, "` first defined here"@)),
            secondary(duplicate, quoted(name, "` redefined here"@)),
        ],
        seq![],
    )
}

/// The error that a `name_kind` named `name` gets when `name` already names
/// a thing of kind `original_kind`; `original_span` is where that thing is
/// defined, `None` for a built-in.
pub open spec fn spec_name_conflict_error(
    name_kind: Seq<char>,
    name: Seq<char>,
    original_kind: Seq<char>,
    original_span: Option<Span>,
    duplicate: Span,
) -> DiagnosticView {
    match original_span {
        Some(original) => error_view(
            name_kind + " name `"@ + name + "` conflicts with previously defined "@ + original_kind,
            seq![
                primary(original, quoted(name, "` first defined here"@)),
                secondary(duplicate, quoted(name, "` redefined here"@)),
            ],
            seq![],
        ),
        None => error_view(
            name_kind + " name `"@ + name + "` conflicts with built-in "@ + original_kind,
            seq![primary(duplicate, quoted(name, "` is a built-in "@) + original_kind)],
            seq![],
        ),
    }
}

/// The error that an unsupported language feature gets.
pub open spec fn spec_not_yet_implemented(feature: Seq<char>, span: Span) -> DiagnosticView {
    error_view(
        "feature not yet implemented: "@ + feature,
        seq![primary(span, "not yet implemented"@)],
        seq![],
    )
}

/// `a` followed by `b`.
pub fn concat2(a: &str, b: &str) -> (r: String)
    ensures
        r@ == a@ + b@,
{
    let mut r = String::from_str(a);
    r.append(b);
    r
}

/// `a` followed by `b` and `c`.
pub fn concat3(a: &str, b: &str, c: &str) -> (r: String)
    ensures
        r@ == a@ + b@ + c@,
{
    let mut r = String::from_str(a);
    r.append(b);
    r.append(c);
    r
}

/// `a` followed by `b`, `c` and `d`.
pub fn concat4(a: &str, b: &str, c: &str, d: &str) -> (r: String)
    ensures
        r@ == a@ + b@ + c@ + d@,
{
    let mut r = String::from_str(a);
    r.append(b);
    r.append(c);
    r.append(d);
    r
}

impl Label {
    /// A primary label.
    pub fn primary(span: Span, message: String) -> (l: Label)
        ensures
            l@ == primary(span, message@),
    {
        Label { style: LabelStyle::Primary, span, message }
    }

    /// A secondary label.
    pub fn secondary(span: Span, message: String) -> (l: Label)
        ensures
            l@ == secondary(span, message@),
    {
        Label { style: LabelStyle::Secondary, span, message }
    }
}

/// An error diagnostic with the given message, labels and notes.
pub fn fancy_error(message: &str, labels: Vec<Label>, notes: Vec<String>) -> (d: Diagnostic)
    ensures
        d@ == error_view(message@, labels_view(labels@), strings_view(notes@)),
{
    Diagnostic { severity: Severity::Error, message: String::from_str(message), labels, notes }
}

/// An error diagnostic with one primary label.
pub fn error(message: &str, label_span: Span, label: &str) -> (d: Diagnostic)
    ensures
        d@ == error_view(message@, seq![primary(label_span, label@)], seq![]),
{
    let mut labels: Vec<Label> = Vec::new();
    labels.push(Label::primary(label_span, String::from_str(label)));
    assert(labels_view(labels@) =~= seq![primary(label_span, label@)]);
    let notes: Vec<String> = Vec::new();
    assert(strings_view(notes@) =~= seq![]);
    fancy_error(message, labels, notes)
}

/// The error that a name defined twice in one namespace gets.
pub fn duplicate_name_error(message: &str, name: &str, original: Span, duplicate: Span) -> (d: Diagnostic)
    ensures
        d@ == spec_duplicate_name_error(message@, name@, original, duplicate),
{
    let mut labels: Vec<Label> = Vec::new();
    labels.push(Label::primary(original, concat3("`", name, "` first defined here")));
    labels.push(Label::secondary(duplicate, concat3("`", name, "` redefined here")));
    let notes: Vec<String> = Vec::new();
    assert(labels_view(labels@) =~= seq![
        primary(original, quoted(name@, "` first defined here"@)),
        secondary(duplicate, quoted(name@, "` redefined here"@)),
    ]);
    assert(strings_view(notes@) =~= seq![]);
    fancy_error(message, labels, notes)
}

/// The error that a `name_kind` named `name` gets when `name` already names
/// a thing of kind `original_kind`, defined at `original_span` (`None` for a
/// built-in).
pub fn name_conflict_error(
    name_kind: &str,
    name: &str,
    original_kind: &str,
    original_span: Option<Span>,
    duplicate: Span,
) -> (d: Diagnostic)
    ensures
        d@ == spec_name_conflict_error(name_kind@, name@, original_kind@, original_span, duplicate),
{
    let notes: Vec<String> = Vec::new();
    assert(strings_view(notes@) =~= seq![]);
    let mut labels: Vec<Label> = Vec::new();
    match original_span {
        Some(original) => {
            let mut message = concat4(name_kind, " name `", name, "` conflicts with previously defined ");
            message.append(original_kind);
            labels.push(Label::primary(original, concat3("`", name, "` first defined here")));
            labels.push(Label::secondary(duplicate, concat3("`", name, "` redefined here")));
            assert(labels_view(labels@) =~= seq![
                primary(original, quoted(name@, "` first defined here"@)),
                secondary(duplicate, quoted(name@, "` redefined here"@)),
            ]);
            fancy_error(message.as_str(), labels, notes)
        },
        None => {
            let mut message = concat4(name_kind, " name `", name, "` conflicts with built-in ");
            message.append(original_kind);
            labels.push(Label::primary(duplicate, concat4("`", name, "` is a built-in ", original_kind)));
            assert(labels_view(labels@) =~= seq![
                primary(duplicate, quoted(name@, "` is a built-in "@) + original_kind@),
            ]);
            fancy_error(message.as_str(), labels, notes)
        },
    }
}

/// The error that an unsupported language feature gets.
pub fn not_yet_implemented(feature: &str, span: Span) -> (d: Diagnostic)
    ensures
        d@ == spec_not_yet_implemented(feature@, span),
{
    let message = concat2("feature not yet implemented: ", feature);
    error(message.as_str(), span, "not yet implemented")
}

} // verus!
