//! Running the rule on the import expressions and the requests of a module.
use crate::diagnostic::{self, no_useless_path_segments_diagnostic};
use crate::file_path::FilePath;
use crate::module_record::{self, ModuleRecord};
use crate::proposal;
use crate::rule::NoUselessPathSegments;
use crate::span::Span;
use crate::text::starts_with;
use oxc_diagnostics::OxcDiagnostic;
use vstd::prelude::*;

verus! {

/// An expression that says which module to import.
#[derive(Debug)]
pub enum Expression {
    /// A string literal, with its value.
    StringLiteral(String),
    /// A template literal, with the raw texts between its substitutions.
    TemplateLiteral(Vec<String>),
    /// Any other expression.
    Other,
}

/// A node of a syntax tree.
#[derive(Debug)]
pub enum AstNode {
    /// An import expression, with its source and its place.
    ImportExpression(Expression, Span),
    /// Any other node.
    Other,
}

/// The file that is looked at.
#[derive(Debug)]
pub struct LintContext {
    pub file_path: FilePath,
    pub module_record: ModuleRecord,
}

/// The module that an expression names, whatever the program does: the value of a string literal,
/// or the raw text of a template literal without substitutions.
pub open spec fn module_name(source: Expression) -> Option<Seq<char>> {
    match source {
        Expression::StringLiteral(value) => Some(value@),
        Expression::TemplateLiteral(quasis) => if quasis@.len() == 1 {
            Some(quasis@[0]@)
        } else {
            None
        },
        Expression::Other => None,
    }
}

/// What the rule proposes in place of an import path that begins with a dot. It leaves all other
/// import paths alone.
pub open spec fn relative_proposal(
    rule: NoUselessPathSegments,
    import_path: Seq<char>,
    context: LintContext,
) -> Option<Seq<char>> {
    if "."@.is_prefix_of(import_path) {
        proposal::proposal(
            rule.no_useless_index,
            import_path,
            context.file_path@,
            context.module_record@,
        )
    } else {
        None
    }
}

/// The report on an import expression.
pub open spec fn node_report(
    rule: NoUselessPathSegments,
    node: AstNode,
    context: LintContext,
) -> Option<OxcDiagnostic> {
    match node {
        AstNode::ImportExpression(source, span) => match module_name(source) {
            Some(import_path) => match relative_proposal(rule, import_path, context) {
                Some(proposed) => Some(diagnostic::report(span, import_path, proposed)),
                None => None,
            },
            None => None,
        },
        AstNode::Other => None,
    }
}

/// The reports on one requested specifier: one for each place where it is requested.
pub open spec fn request_reports(
    rule: NoUselessPathSegments,
    request: (Seq<char>, Seq<Span>),
    context: LintContext,
) -> Seq<OxcDiagnostic> {
    match relative_proposal(rule, request.0, context) {
        Some(proposed) => request.1.map_values(
            |span: Span| diagnostic::report(span, request.0, proposed),
        ),
        None => Seq::empty(),
    }
}

/// The reports on the requested specifiers, one specifier behind the other.
pub open spec fn module_reports(
    rule: NoUselessPathSegments,
    requests: Seq<(Seq<char>, Seq<Span>)>,
    context: LintContext,
) -> Seq<OxcDiagnostic>
    decreases requests.len(),
{
    if requests.len() == 0 {
        Seq::empty()
    } else {
        module_reports(rule, requests.drop_last(), context) + request_reports(
            rule,
            requests.last(),
            context,
        )
    }
}

/// An import path that does not begin with a dot is left alone, in an import expression and in a
/// request.
pub proof fn law_other_import_paths_are_left_alone(
    rule: NoUselessPathSegments,
    source: Expression,
    span: Span,
    spans: Seq<Span>,
    import_path: Seq<char>,
    context: LintContext,
)
    requires
        !"."@.is_prefix_of(import_path),
        module_name(source) == Some(import_path),
    ensures
        node_report(rule, AstNode::ImportExpression(source, span), context) is None,
        request_reports(rule, (import_path, spans), context) == Seq::<OxcDiagnostic>::empty(),
{
}

/// The reports on a module are those on the places of its requests, in whatever order its
/// specifiers are listed.
pub proof fn law_each_useless_request_is_reported(
    rule: NoUselessPathSegments,
    requests: Seq<(Seq<char>, Seq<Span>)>,
    context: LintContext,
    found: OxcDiagnostic,
)
    ensures
        module_reports(rule, requests, context).contains(found) <==> exists|i: int|
            0 <= i < requests.len() && request_reports(
                rule,
                #[trigger] requests[i],
                context,
            ).contains(found),
    decreases requests.len(),
{
    if requests.len() > 0 {
        let before = requests.drop_last();
        law_each_useless_request_is_reported(rule, before, context, found);
        lemma_concat_contains(
            module_reports(rule, before, context),
            request_reports(rule, requests.last(), context),
            found,
        );
        lemma_one_more(
            |request: (Seq<char>, Seq<Span>)|
                request_reports(rule, request, context).contains(found),
            requests,
        );
    }
}

/// What two lists hold together.
proof fn lemma_concat_contains(
    left: Seq<OxcDiagnostic>,
    right: Seq<OxcDiagnostic>,
    found: OxcDiagnostic,
)
    ensures
        (left + right).contains(found) <==> left.contains(found) || right.contains(found),
{
    if left.contains(found) {
        let k = choose|k: int| 0 <= k < left.len() && left[k] == found;
        assert((left + right)[k] == found);
    }
    if right.contains(found) {
        let k = choose|k: int| 0 <= k < right.len() && right[k] == found;
        assert((left + right)[left.len() + k] == found);
    }
}

/// What holds of some request holds of the last one or of one before it.
proof fn lemma_one_more(
    holds: spec_fn((Seq<char>, Seq<Span>)) -> bool,
    requests: Seq<(Seq<char>, Seq<Span>)>,
)
    requires
        requests.len() > 0,
    ensures
        (exists|i: int| 0 <= i < requests.len() && holds(#[trigger] requests[i])) <==> holds(
            requests.last(),
        ) || (exists|i: int|
            0 <= i < requests.drop_last().len() && holds(#[trigger] requests.drop_last()[i])),
{
    let before = requests.drop_last();
    if holds(requests.last()) {
        assert(holds(requests[requests.len() - 1]));
    }
    if exists|i: int| 0 <= i < before.len() && holds(#[trigger] before[i]) {
        let i = choose|i: int| 0 <= i < before.len() && holds(#[trigger] before[i]);
        assert(holds(requests[i]));
    }
    if exists|i: int| 0 <= i < requests.len() && holds(#[trigger] requests[i]) {
        let i = choose|i: int| 0 <= i < requests.len() && holds(#[trigger] requests[i]);
        if i < before.len() {
            assert(holds(before[i]));
        }
    }
}

/// The module that an expression names, whatever the program does.
pub fn static_module_name(source: &Expression) -> (name: Option<&str>)
    ensures
        match name {
            Some(text) => module_name(*source) == Some(text@),
            None => module_name(*source) is None,
        },
{
    match source {
        Expression::StringLiteral(value) => Some(value.as_str()),
        Expression::TemplateLiteral(quasis) => {
            if quasis.len() == 1 {
                Some(quasis[0].as_str())
            } else {
                None
            }
        },
        Expression::Other => None,
    }
}

impl NoUselessPathSegments {
    /// The report on a node, if it is an import expression with useless segments.
    pub fn run(&self, node: &AstNode, ctx: &LintContext) -> (found: Option<OxcDiagnostic>)
        requires
            node matches AstNode::ImportExpression(_, span) ==> span.wf(),
        ensures
            found == node_report(*self, *node, *ctx),
    {
        let (source, span) = match node {
            AstNode::ImportExpression(source, span) => (source, *span),
            AstNode::Other => return None,
        };
        let import_path = match static_module_name(source) {
            Some(import_path) => import_path,
            None => return None,
        };
        if !starts_with(import_path, ".") {
            return None;
        }
        match self.check_path(import_path, &ctx.file_path, &ctx.module_record) {
            Some(proposed) => Some(
                no_useless_path_segments_diagnostic(span, import_path, proposed.as_str()),
            ),
            None => None,
        }
    }

    /// The reports on all that the module requests.
    pub fn run_once(&self, ctx: &LintContext) -> (found: Vec<OxcDiagnostic>)
        requires
            ctx.module_record@.wf(),
        ensures
            found@ == module_reports(*self, ctx.module_record@.requested_modules, *ctx),
    {
        let requested = ctx.module_record.requested_modules();
        let ghost all = module_record::requests(requested@);
        let mut found: Vec<OxcDiagnostic> = Vec::new();
        let mut i: usize = 0;
        assert(all.take(0) =~= Seq::empty());
        while i < requested.len()
            invariant
                all == module_record::requests(requested@),
                all == ctx.module_record@.requested_modules,
                ctx.module_record@.wf(),
                i <= requested@.len(),
                found@ == module_reports(*self, all.take(i as int), *ctx),
            decreases requested@.len() - i,
        {
            let ghost before = found@;
            proof {
                assert(all[i as int] == requested@[i as int]@);
                assert(all.take(i + 1).drop_last() =~= all.take(i as int));
            }
            let import_path = requested[i].specifier.as_str();
            if starts_with(import_path, ".") {
                match self.check_path(import_path, &ctx.file_path, &ctx.module_record) {
                    Some(proposed) => {
                        let spans = &requested[i].spans;
                        let ghost reports = request_reports(*self, all[i as int], *ctx);
                        let mut j: usize = 0;
                        assert(before + reports.take(0) =~= before);
                        while j < spans.len()
                            invariant
                                ctx.module_record@.wf(),
                                all == ctx.module_record@.requested_modules,
                                0 <= i < all.len(),
                                all[i as int] == (import_path@, spans@),
                                relative_proposal(*self, import_path@, *ctx) == Some(proposed@),
                                reports == request_reports(*self, all[i as int], *ctx),
                                j <= spans@.len(),
                                found@ == before + reports.take(j as int),
                            decreases spans@.len() - j,
                        {
                            assert(ctx.module_record@.requested_modules[i as int].1[j as int].wf());
                            let ghost earlier = found@;
                            found.push(
                                no_useless_path_segments_diagnostic(
                                    spans[j],
                                    import_path,
                                    proposed.as_str(),
                                ),
                            );
                            assert(earlier.push(reports[j as int]) =~= before + reports.take(
                                j + 1,
                            ));
                            j += 1;
                        }
                        assert(reports.take(j as int) =~= reports);
                    },
                    None => {
                        assert(before + Seq::<OxcDiagnostic>::empty() =~= before);
                    },
                }
            } else {
                assert(before + Seq::<OxcDiagnostic>::empty() =~= before);
            }
            i += 1;
        }
        assert(all.take(i as int) =~= all);
        found
    }
}

} // verus!
