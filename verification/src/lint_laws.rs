//! Laws of the reports: which imports are reported, where, and in what words.
use crate::diagnostic;
use crate::lint::{self, AstNode, Expression, LintContext};
use crate::proposal;
use crate::rule::NoUselessPathSegments;
use crate::span::Span;
use oxc_diagnostics::OxcDiagnostic;
use vstd::prelude::*;

verus! {

/// A string literal names the module of its value.
pub proof fn law_string_names_its_value(value: String)
    ensures
        lint::module_name(Expression::StringLiteral(value)) == Some(value@),
{
}

/// A template literal names the module of its text, and no module as soon as there is a
/// substitution in it.
pub proof fn law_template_names_its_only_text(quasis: Vec<String>)
    ensures
        lint::module_name(Expression::TemplateLiteral(quasis)) is Some <==> quasis@.len() == 1,
        quasis@.len() == 1 ==> lint::module_name(Expression::TemplateLiteral(quasis)) == Some(
            quasis@[0]@,
        ),
        lint::module_name(Expression::Other) is None,
{
}

/// Expressions that name the same module are reported alike.
pub proof fn law_only_the_named_module_counts(
    rule: NoUselessPathSegments,
    left: Expression,
    right: Expression,
    span: Span,
    context: LintContext,
)
    requires
        lint::module_name(left) == lint::module_name(right),
    ensures
        lint::node_report(rule, AstNode::ImportExpression(left, span), context)
            == lint::node_report(rule, AstNode::ImportExpression(right, span), context),
{
}

/// An import expression is reported exactly as a request of the same module at the same place.
pub proof fn law_import_expression_is_reported_as_a_request(
    rule: NoUselessPathSegments,
    source: Expression,
    import_path: Seq<char>,
    span: Span,
    context: LintContext,
)
    requires
        lint::module_name(source) == Some(import_path),
    ensures
        ({
            let node = AstNode::ImportExpression(source, span);
            let reports = lint::request_reports(rule, (import_path, seq![span]), context);
            &&& forall|found: OxcDiagnostic|
                lint::node_report(rule, node, context) == Some(found) <==> reports == seq![found]
            &&& lint::node_report(rule, node, context) is None <==> reports.len() == 0
        }),
{
    let node = AstNode::ImportExpression(source, span);
    let reports = lint::request_reports(rule, (import_path, seq![span]), context);
    match lint::relative_proposal(rule, import_path, context) {
        Some(proposed) => {
            let told = diagnostic::report(span, import_path, proposed);
            assert(reports =~= seq![told]);
            assert forall|found: OxcDiagnostic|
                lint::node_report(rule, node, context) == Some(found) <==> reports == seq![
                    found,
                ] by {
                assert(seq![told][0] == told && seq![found][0] == found);
            }
        },
        None => {
            assert forall|found: OxcDiagnostic| reports != #[trigger] seq![found] by {
                assert(reports.len() == 0 && seq![found].len() == 1);
            }
        },
    }
}

/// An import path that begins with a dot is reported exactly if something is proposed in its
/// place, at its own place and in words that name the import path and what is proposed.
pub proof fn law_relative_import_is_reported_if_something_is_proposed(
    rule: NoUselessPathSegments,
    source: Expression,
    import_path: Seq<char>,
    span: Span,
    context: LintContext,
)
    requires
        lint::module_name(source) == Some(import_path),
        import_path.len() > 0,
        import_path[0] == '.',
    ensures
        ({
            let proposed = proposal::proposal(
                rule.no_useless_index,
                import_path,
                context.file_path@,
                context.module_record@,
            );
            let found = lint::node_report(rule, AstNode::ImportExpression(source, span), context);
            &&& found is Some <==> proposed is Some
            &&& proposed is Some ==> found == Some(
                diagnostic::labelled(
                    diagnostic::warning(
                        "Useless path segments for \""@ + import_path + "\", should be \""@
                            + proposed->0 + "\""@,
                    ),
                    span.start,
                    span.end,
                ),
            )
        }),
{
    lemma_begins_with_dot(import_path);
}

/// A text begins with a dot exactly if its first character is one.
proof fn lemma_begins_with_dot(text: Seq<char>)
    ensures
        "."@.is_prefix_of(text) <==> text.len() > 0 && text[0] == '.',
{
    reveal_strlit(".");
    if text.len() > 0 {
        assert(text.subrange(0, 1)[0] == text[0]);
        if text[0] == '.' {
            assert(text.subrange(0, 1) =~= "."@);
        }
    }
}

/// A request of a path that begins with a dot is reported at all of its places, in their order, or
/// at none of them.
pub proof fn law_relative_request_is_reported_at_each_place(
    rule: NoUselessPathSegments,
    import_path: Seq<char>,
    spans: Seq<Span>,
    context: LintContext,
)
    requires
        import_path.len() > 0,
        import_path[0] == '.',
    ensures
        ({
            let proposed = proposal::proposal(
                rule.no_useless_index,
                import_path,
                context.file_path@,
                context.module_record@,
            );
            let reports = lint::request_reports(rule, (import_path, spans), context);
            &&& proposed is None ==> reports.len() == 0
            &&& proposed is Some ==> {
                &&& reports.len() == spans.len()
                &&& forall|i: int|
                    0 <= i < spans.len() ==> #[trigger] reports[i] == diagnostic::labelled(
                        diagnostic::warning(
                            "Useless path segments for \""@ + import_path + "\", should be \""@
                                + proposed->0 + "\""@,
                        ),
                        spans[i].start,
                        spans[i].end,
                    )
            }
        }),
{
    lemma_begins_with_dot(import_path);
}

/// An import that names no module, or one whose path does not begin with a dot, is not reported.
/// Nor is any node that is no import expression.
pub proof fn law_nothing_else_is_reported(
    rule: NoUselessPathSegments,
    source: Expression,
    span: Span,
    spans: Seq<Span>,
    context: LintContext,
)
    ensures
        lint::node_report(rule, AstNode::Other, context) is None,
        lint::module_name(source) is None ==> lint::node_report(
            rule,
            AstNode::ImportExpression(source, span),
            context,
        ) is None,
        lint::module_name(source) matches Some(path) ==> (path.len() == 0 || path[0] != '.') ==> {
            &&& lint::node_report(rule, AstNode::ImportExpression(source, span), context) is None
            &&& lint::request_reports(rule, (path, spans), context).len() == 0
        },
{
    if let Some(path) = lint::module_name(source) {
        lemma_begins_with_dot(path);
    }
}

/// The reports on one specifier at the places of two lists are those at the one and then those at
/// the other.
pub proof fn law_places_are_reported_in_order(
    rule: NoUselessPathSegments,
    import_path: Seq<char>,
    left: Seq<Span>,
    right: Seq<Span>,
    context: LintContext,
)
    ensures
        lint::request_reports(rule, (import_path, left + right), context)
            == lint::request_reports(rule, (import_path, left), context)
            + lint::request_reports(rule, (import_path, right), context),
{
    assert(lint::request_reports(rule, (import_path, left + right), context)
        =~= lint::request_reports(rule, (import_path, left), context) + lint::request_reports(
        rule,
        (import_path, right),
        context,
    ));
}

/// The reports on a module that requests a single specifier are those on that specifier, and a
/// module that requests nothing has none.
pub proof fn law_single_request_is_reported(
    rule: NoUselessPathSegments,
    request: (Seq<char>, Seq<Span>),
    context: LintContext,
)
    ensures
        lint::module_reports(rule, seq![request], context) == lint::request_reports(
            rule,
            request,
            context,
        ),
        lint::module_reports(rule, Seq::empty(), context).len() == 0,
{
    let reports = lint::request_reports(rule, request, context);
    assert(seq![request].drop_last() =~= Seq::empty());
    assert(seq![request].last() == request);
    assert(lint::module_reports(rule, Seq::empty(), context) + reports =~= reports);
}

/// The reports on the requests of two lists are those on the one and then those on the other.
pub proof fn law_requests_are_reported_in_order(
    rule: NoUselessPathSegments,
    left: Seq<(Seq<char>, Seq<Span>)>,
    right: Seq<(Seq<char>, Seq<Span>)>,
    context: LintContext,
)
    ensures
        lint::module_reports(rule, left + right, context) == lint::module_reports(
            rule,
            left,
            context,
        ) + lint::module_reports(rule, right, context),
    decreases right.len(),
{
    let first = lint::module_reports(rule, left, context);
    if right.len() == 0 {
        assert(left + right =~= left);
        assert(first + lint::module_reports(rule, right, context) =~= first);
    } else {
        let before = right.drop_last();
        law_requests_are_reported_in_order(rule, left, before, context);
        assert((left + right).drop_last() =~= left + before);
        assert((left + right).last() == right.last());
        assert(first + lint::module_reports(rule, before, context) + lint::request_reports(
            rule,
            right.last(),
            context,
        ) =~= first + (lint::module_reports(rule, before, context) + lint::request_reports(
            rule,
            right.last(),
            context,
        )));
    }
}

/// The import path stands in the message between quotes, behind the words that begin it, and what
/// is proposed stands between quotes at its end.
pub proof fn law_message_quotes_both_paths(import_path: Seq<char>, proposed: Seq<char>)
    ensures
        ({
            let text = diagnostic::message(import_path, proposed);
            &&& text.len() == 42 + import_path.len() + proposed.len()
            &&& ("Useless path segments for \""@ + import_path + "\""@).is_prefix_of(text)
            &&& (", should be \""@ + proposed + "\""@).is_suffix_of(text)
        }),
{
    reveal_strlit("Useless path segments for \"");
    reveal_strlit("\", should be \"");
    reveal_strlit(", should be \"");
    reveal_strlit("\"");
    let text = diagnostic::message(import_path, proposed);
    let head = "Useless path segments for \""@ + import_path + "\""@;
    let tail = ", should be \""@ + proposed + "\""@;
    assert(text.len() == 42 + import_path.len() + proposed.len());
    assert(text =~= head + tail);
    assert(text.subrange(0, head.len() as int) =~= head);
    assert(text.subrange(head.len() as int, text.len() as int) =~= tail);
}

} // verus!
