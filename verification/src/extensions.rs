//! The file extensions of JavaScript and TypeScript sources.
use crate::segments;
use crate::text::same_text;
use vstd::prelude::*;

verus! {

/// The extensions that a source file may have.
pub open spec fn source_extensions() -> Seq<Seq<char>> {
    seq!["js"@, "mjs"@, "cjs"@, "jsx"@, "ts"@, "mts"@, "cts"@, "tsx"@]
}

/// Reads the constant `oxc_span::VALID_EXTENSIONS`, which lists eight extensions without their
/// dots.
#[verifier::external_body]
fn valid_extensions() -> (extensions: &'static [&'static str])
    ensures
        segments::texts(extensions@) == source_extensions(),
{
    oxc_span::VALID_EXTENSIONS
}

/// Whether a source file may have this extension.
pub(crate) fn is_source_extension(extension: &str) -> (valid: bool)
    ensures
        valid == source_extensions().contains(extension@),
{
    let extensions = valid_extensions();
    let ghost listed = segments::texts(extensions@);
    let mut i: usize = 0;
    while i < extensions.len()
        invariant
            i <= extensions@.len(),
            listed == segments::texts(extensions@),
            listed == source_extensions(),
            forall|j: int| 0 <= j < i ==> #[trigger] listed[j] != extension@,
        decreases extensions@.len() - i,
    {
        assert(listed[i as int] == extensions@[i as int]@);
        if same_text(extension, extensions[i]) {
            assert(source_extensions()[i as int] == extension@);
            return true;
        }
        i += 1;
    }
    false
}

} // verus!
