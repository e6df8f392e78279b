//! The diagnostic that reports useless path segments.
use crate::span::Span;
use oxc_diagnostics::OxcDiagnostic;
use vstd::prelude::*;

verus! {

/// A diagnostic of `oxc_diagnostics`.
#[verifier::external_type_specification]
#[verifier::external_body]
pub struct ExOxcDiagnostic(oxc_diagnostics::OxcDiagnostic);

/// The diagnostic that `OxcDiagnostic::warn` makes of a message.
pub uninterp spec fn warning(message: Seq<char>) -> OxcDiagnostic;

/// The diagnostic that `OxcDiagnostic::with_label` makes of another one, with the range from
/// `start` up to `end` as its only label.
pub uninterp spec fn labelled(diagnostic: OxcDiagnostic, start: u32, end: u32) -> OxcDiagnostic;

/// Calls `OxcDiagnostic::warn`, whose result depends on the message alone: a diagnostic at the
/// level of a warning, with that message and nothing else.
#[verifier::external_body]
fn warn(message: String) -> (diagnostic: OxcDiagnostic)
    ensures
        diagnostic == warning(message@),
{
    OxcDiagnostic::warn(message)
}

/// Calls `OxcDiagnostic::with_label`, whose result depends on the diagnostic and the range alone:
/// the same diagnostic with that range as its only label, which has no text. A range that ends
/// before it starts has no size, and the call may panic on it.
#[verifier::external_body]
fn with_label(diagnostic: OxcDiagnostic, span: Span) -> (result: OxcDiagnostic)
    requires
        span.wf(),
    ensures
        result == labelled(diagnostic, span.start, span.end),
{
    diagnostic.with_label(oxc_span::Span::new(span.start, span.end))
}

/// The message of a report.
pub open spec fn message(import_path: Seq<char>, proposed: Seq<char>) -> Seq<char> {
    "Useless path segments for \""@ + import_path + "\", should be \""@ + proposed + "\""@
}

/// The report that `proposed` should stand in place of the `import_path` at `span`.
pub open spec fn report(
    span: Span,
    import_path: Seq<char>,
    proposed: Seq<char>,
) -> OxcDiagnostic {
    labelled(warning(message(import_path, proposed)), span.start, span.end)
}

/// The message that `proposed` should stand in place of `import_path`.
pub fn useless_path_segments_message(import_path: &str, proposed: &str) -> (text: String)
    ensures
        text@ == message(import_path@, proposed@),
{
    let mut text = "Useless path segments for \"".to_string();
    text.append(import_path);
    text.append("\", should be \"");
    text.append(proposed);
    text.append("\"");
    text
}

/// A warning that `proposed` should stand in place of the `import_path` at `span`.
pub fn no_useless_path_segments_diagnostic(
    span: Span,
    import_path: &str,
    proposed: &str,
) -> (diagnostic: OxcDiagnostic)
    requires
        span.wf(),
    ensures
        diagnostic == report(span, import_path@, proposed@),
{
    with_label(warn(useless_path_segments_message(import_path, proposed)), span)
}

} // verus!
