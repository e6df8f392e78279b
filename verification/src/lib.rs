//! A lint rule against useless segments in the paths of imports, such as `./../bar` in place of
//! `../bar`.
//!
//! `normalize` brings a path into its normal form, `rule` decides what to propose in place of an
//! import path, and `lint` runs the rule on a module. `proposal` says what is proposed. What holds
//! of it all as a whole stands in `normalize_laws`, `path_laws`, `proposal_laws`, `rule_laws` and
//! `lint_laws`.
pub mod diagnostic;
pub mod extensions;
pub mod file_path;
pub mod lint;
pub mod lint_laws;
pub mod module_record;
pub mod normalize;
pub mod normalize_laws;
pub mod path_laws;
pub mod proposal;
pub mod proposal_laws;
pub mod rule;
pub mod rule_laws;
pub mod segments;
pub mod span;
pub mod text;

pub use crate::diagnostic::{no_useless_path_segments_diagnostic, useless_path_segments_message};
pub use crate::file_path::{Component, FilePath};
pub use crate::lint::{static_module_name, AstNode, Expression, LintContext};
pub use crate::module_record::{ModuleRecord, RequestedModule};
pub use crate::normalize::{may_need_normalization, normalize_path};
pub use crate::rule::NoUselessPathSegments;
pub use crate::span::Span;
