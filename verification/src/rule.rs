//! The rule: no useless path segments in import paths.
use crate::extensions::is_source_extension;
use crate::file_path::FilePath;
use crate::module_record::ModuleRecord;
use crate::normalize::{may_need_normalization, normalize_path};
use crate::proposal;
use crate::segments::{self, join_segments, split_segments};
use crate::text::{self, concat, ends_with, same_text, starts_with, trim_trailing_slashes};
use vstd::prelude::*;

verus! {

/// Prevents unnecessary path segments in import statements.
#[derive(Debug, Clone, Copy)]
pub struct NoUselessPathSegments {
    /// Whether index files in import paths count as unnecessary.
    pub no_useless_index: bool,
}

impl Default for NoUselessPathSegments {
    fn default() -> (rule: Self)
        ensures
            !rule.no_useless_index,
    {
        NoUselessPathSegments { no_useless_index: false }
    }
}

impl NoUselessPathSegments {
    /// Whether `name` is that of an index file: `index`, or `index.` and the extension of a
    /// source file.
    pub fn is_index_filename(name: &str) -> (index: bool)
        ensures
            index == proposal::is_index_name(name@),
    {
        same_text(name, "index") || Self::is_index_with_extension(name)
    }

    /// Whether `name` is `index.` and the extension of a source file.
    pub fn is_index_with_extension(name: &str) -> (index: bool)
        ensures
            index == proposal::is_index_with_extension(name@),
    {
        if !starts_with(name, "index.") {
            return false;
        }
        proof {
            reveal_strlit("index.");
            assert(name@.subrange(6, name@.len() as int) =~= name@.skip(6));
        }
        is_source_extension(name.substring_char(6, name.unicode_len()))
    }

    /// Whether a resolved path ends in an index file: `/path/to/bar/index.js` does,
    /// `/path/to/foo.js` does not.
    pub fn resolved_to_index_file(resolved_path: &FilePath) -> (index: bool)
        ensures
            index == proposal::leads_to_index(resolved_path@),
    {
        match resolved_path.file_name() {
            Some(name) => Self::is_index_filename(name),
            None => false,
        }
    }

    /// `path` without a useless index file, if this rule looks for those.
    pub fn maybe_remove_index(&self, path: String, module_record: &ModuleRecord) -> (shorter:
        String)
        ensures
            shorter@ == proposal::index_removed(self.no_useless_index, path@, module_record@),
    {
        if self.no_useless_index {
            match Self::remove_useless_index(path.as_str(), module_record) {
                Some(shorter) => shorter,
                None => path,
            }
        } else {
            path
        }
    }

    /// The path without the `/index` or `/index.{ext}` that it ends in: `./bar/index.js` gives
    /// `./bar`, `./index` gives `.` and `../index.ts` gives `..`.
    pub fn remove_useless_index(import_path: &str, module_record: &ModuleRecord) -> (shorter:
        Option<String>)
        ensures
            text::held(shorter) == proposal::without_index(import_path@, module_record@),
    {
        let mut parts = split_segments(import_path);
        let ghost all = segments::texts(parts@);
        proof {
            segments::lemma_segments_exist(import_path@);
        }
        let last: usize = parts.len() - 1;
        assert(all.last() == parts@[last as int]@);
        if last == 0 || !Self::is_index_filename(parts[last]) {
            return Self::try_remove_bare_index(import_path, module_record);
        }
        parts.pop();
        assert(segments::texts(parts@) =~= all.drop_last());
        let joined = join_segments(&parts);
        let parent = if joined.as_str().is_empty() {
            ".".to_string()
        } else {
            joined
        };
        if module_record.get_loaded_module(import_path).is_none() {
            return None;
        }
        if module_record.get_loaded_module(parent.as_str()).is_some() {
            return Some(parent);
        }
        let parent_with_slash = concat(parent.as_str(), "/");
        if module_record.get_loaded_module(parent_with_slash.as_str()).is_some() {
            Some(parent_with_slash)
        } else {
            Some(parent)
        }
    }

    /// The directory of an index file that is named directly behind `./` or `../`.
    pub fn bare_index_parent(import_path: &str) -> (parent: Option<&'static str>)
        ensures
            match parent {
                Some(directory) => proposal::bare_index_parent(import_path@) == Some(directory@),
                None => proposal::bare_index_parent(import_path@) is None,
            },
    {
        let length: usize = import_path.unicode_len();
        proof {
            reveal_strlit("./");
            reveal_strlit("../");
            if import_path@.len() >= 2 {
                assert(import_path@.subrange(2, length as int) =~= import_path@.skip(2));
            }
            if import_path@.len() >= 3 {
                assert(import_path@.subrange(3, length as int) =~= import_path@.skip(3));
            }
        }
        if starts_with(import_path, "./") && Self::is_index_filename(
            import_path.substring_char(2, length),
        ) {
            Some(".")
        } else if starts_with(import_path, "../") && Self::is_index_filename(
            import_path.substring_char(3, length),
        ) {
            Some("..")
        } else {
            None
        }
    }

    /// The directory in place of such an index file, where both resolve to the same module:
    /// `./index` gives `.`.
    pub fn try_remove_bare_index(import_path: &str, module_record: &ModuleRecord) -> (parent:
        Option<String>)
        ensures
            text::held(parent) == proposal::without_bare_index(import_path@, module_record@),
    {
        let parent = match Self::bare_index_parent(import_path) {
            Some(parent) => parent,
            None => return None,
        };
        match (
            module_record.get_loaded_module(import_path),
            module_record.get_loaded_module(parent),
        ) {
            (Some(index), Some(directory)) => {
                if index.same_path(directory) {
                    Some(parent.to_string())
                } else {
                    None
                }
            },
            _ => None,
        }
    }

    /// Whether the slashes at the end of `import_path` change what it resolves to, so that they
    /// should be kept: `./bar/` may resolve to `bar/index.js`, and `./bar` to `bar.js`.
    pub fn is_trailing_slash_meaningful(
        import_path: &str,
        without_slash: &str,
        module_record: &ModuleRecord,
    ) -> (meaningful: bool)
        ensures
            meaningful == proposal::slash_is_meaningful(
                import_path@,
                without_slash@,
                module_record@,
            ),
    {
        let with_slash = module_record.get_loaded_module(import_path);
        let without = module_record.get_loaded_module(without_slash);
        match (with_slash, without) {
            (Some(slashed), Some(unslashed)) => !slashed.same_path(unslashed),
            (Some(module), None) => Self::resolved_to_index_file(module),
            (None, Some(_)) => true,
            (None, None) => false,
        }
    }

    /// Whether both paths resolve, and to different modules.
    pub fn resolves_to_different_module(
        import_path: &str,
        candidate: &str,
        module_record: &ModuleRecord,
    ) -> (different: bool)
        ensures
            different == proposal::resolve_apart(import_path@, candidate@, module_record@),
    {
        match (
            module_record.get_loaded_module(import_path),
            module_record.get_loaded_module(candidate),
        ) {
            (Some(original), Some(other)) => !original.same_path(other),
            _ => false,
        }
    }

    /// The normal form of the path, such as `./bar` for `./foo/../bar`, unless it is the path
    /// itself or taking it would change what is imported.
    pub fn try_normalize(&self, import_path: &str, module_record: &ModuleRecord) -> (proposed:
        Option<String>)
        ensures
            text::held(proposed) == proposal::normal_proposal(
                self.no_useless_index,
                import_path@,
                module_record@,
            ),
    {
        if !may_need_normalization(import_path) {
            return None;
        }
        let normalized = normalize_path(import_path);
        if same_text(normalized.as_str(), import_path) {
            return None;
        }
        let without_slash = trim_trailing_slashes(import_path);
        proof {
            lemma_trimmed(import_path@);
        }
        if ends_with(import_path, "/") && !ends_with(normalized.as_str(), "/") && same_text(
            normalized.as_str(),
            without_slash,
        ) {
            if Self::is_trailing_slash_meaningful(import_path, without_slash, module_record) {
                return None;
            }
            return Some(self.maybe_remove_index(normalized, module_record));
        }
        if Self::resolves_to_different_module(import_path, normalized.as_str(), module_record) {
            return None;
        }
        Some(self.maybe_remove_index(normalized, module_record))
    }

    /// A simpler path that resolves to the same module: from `files/foo.js`, `../files/bar`
    /// gives `./bar`, and `../files/foo`, which is the file itself, gives `./foo`.
    pub fn try_simplify_by_resolution(
        &self,
        import_path: &str,
        current_file: &FilePath,
        module_record: &ModuleRecord,
    ) -> (proposed: Option<String>)
        ensures
            text::held(proposed) == proposal::resolution_proposal(
                self.no_useless_index,
                import_path@,
                current_file@,
                module_record@,
            ),
    {
        let target = match module_record.get_loaded_module(import_path) {
            Some(target) => target,
            None => return None,
        };
        if target.same_path(module_record.resolved_absolute_path()) {
            return self.suggest_self_import_path(import_path, current_file, module_record);
        }
        self.try_remove_parent_directories(import_path, target, module_record)
    }

    /// The shortest path of a file to itself: `./` and its name, with the extension if the
    /// import path has it.
    pub fn suggest_self_import_path(
        &self,
        import_path: &str,
        current_file: &FilePath,
        module_record: &ModuleRecord,
    ) -> (proposed: Option<String>)
        ensures
            text::held(proposed) == (match proposal::own_name(import_path@, current_file@) {
                Some(path) => Some(
                    proposal::index_removed(self.no_useless_index, path, module_record@),
                ),
                None => None,
            }),
    {
        let file_name = match current_file.file_stem() {
            Some(stem) => stem,
            None => return None,
        };
        let mut suggested = concat("./", file_name);
        match current_file.extension() {
            Some(extension) => {
                if ends_with(import_path, concat(".", extension).as_str()) {
                    suggested.append(".");
                    suggested.append(extension);
                }
            },
            None => {},
        }
        Some(self.maybe_remove_index(suggested, module_record))
    }

    /// A path with fewer leading `..` that resolves to `resolved_path`. The path that takes the
    /// fewest of them away is preferred.
    pub fn try_remove_parent_directories(
        &self,
        import_path: &str,
        resolved_path: &FilePath,
        module_record: &ModuleRecord,
    ) -> (proposed: Option<String>)
        ensures
            text::held(proposed) == (match proposal::shorter_climb(
                segments::segments(import_path@),
                1,
                resolved_path@,
                module_record@,
            ) {
                Some(path) => Some(
                    proposal::index_removed(self.no_useless_index, path, module_record@),
                ),
                None => None,
            }),
    {
        let import_segments = split_segments(import_path);
        let ghost all = segments::texts(import_segments@);
        let leading = count_leading_parents(&import_segments);
        let mut levels: usize = 1;
        while levels <= leading
            invariant
                all == segments::texts(import_segments@),
                all == segments::segments(import_path@),
                leading == proposal::leading_parents(all),
                leading <= all.len(),
                1 <= levels <= leading + 1,
                proposal::shorter_climb(all, 1, resolved_path@, module_record@)
                    == proposal::shorter_climb(
                    all,
                    levels as nat,
                    resolved_path@,
                    module_record@,
                ),
            decreases leading + 1 - levels,
        {
            let suggested = with_fewer_parents(&import_segments, leading, levels);
            let found = match module_record.get_loaded_module(suggested.as_str()) {
                Some(module) => module.same_path(resolved_path),
                None => false,
            };
            if found {
                return Some(self.maybe_remove_index(suggested, module_record));
            }
            if levels == leading {
                assert(proposal::shorter_climb(
                    all,
                    (levels + 1) as nat,
                    resolved_path@,
                    module_record@,
                ) is None);
                return None;
            }
            levels += 1;
        }
        None
    }

    /// What to write in place of `import_path`, if it has useless segments. There is nothing
    /// shorter than `.`, so it is always accepted.
    pub fn check_path(
        &self,
        import_path: &str,
        current_file: &FilePath,
        module_record: &ModuleRecord,
    ) -> (proposed: Option<String>)
        ensures
            text::held(proposed) == proposal::proposal(
                self.no_useless_index,
                import_path@,
                current_file@,
                module_record@,
            ),
    {
        if same_text(import_path, ".") {
            return None;
        }
        let normalized = self.try_normalize(import_path, module_record);
        if normalized.is_some() {
            return normalized;
        }
        if self.no_useless_index {
            let without_index = Self::remove_useless_index(import_path, module_record);
            if without_index.is_some() {
                return without_index;
            }
        }
        if starts_with(import_path, "./") {
            return None;
        }
        self.try_simplify_by_resolution(import_path, current_file, module_record)
    }
}

/// How many `..` the segments begin with.
fn count_leading_parents(parts: &Vec<&str>) -> (count: usize)
    ensures
        count == proposal::leading_parents(segments::texts(parts@)),
        count <= parts@.len(),
{
    let ghost all = segments::texts(parts@);
    let mut count: usize = 0;
    assert(all.skip(0) =~= all);
    while count < parts.len() && same_text(parts[count], "..")
        invariant
            all == segments::texts(parts@),
            count <= parts@.len(),
            proposal::leading_parents(all) == count + proposal::leading_parents(
                all.skip(count as int),
            ),
        decreases parts@.len() - count,
    {
        assert(all.skip(count as int)[0] == parts@[count as int]@);
        assert(all.skip(count as int).drop_first() =~= all.skip(count + 1));
        count += 1;
    }
    if count < parts.len() {
        assert(all.skip(count as int)[0] == parts@[count as int]@);
    }
    count
}

/// The path with `levels` of its `leading` leading `..` taken away, and as many of the segments
/// behind them.
fn with_fewer_parents(parts: &Vec<&str>, leading: usize, levels: usize) -> (path: String)
    requires
        leading == proposal::leading_parents(segments::texts(parts@)),
        levels <= leading <= parts@.len(),
    ensures
        path@ == proposal::as_relative_path(
            proposal::fewer_parents(segments::texts(parts@), levels as nat),
        ),
{
    let ghost all = segments::texts(parts@);
    let ghost climb = Seq::new((leading - levels) as nat, |i: int| ".."@);
    let mut kept: Vec<&str> = Vec::new();
    let mut i: usize = levels;
    while i < leading
        invariant
            levels <= i <= leading,
            segments::texts(kept@) == Seq::new((i - levels) as nat, |j: int| ".."@),
        decreases leading - i,
    {
        let ghost before = segments::texts(kept@);
        kept.push("..");
        assert(segments::texts(kept@) =~= before.push(".."@));
        assert(before.push(".."@) =~= Seq::new((i + 1 - levels) as nat, |j: int| ".."@));
        i += 1;
    }
    assert(segments::texts(kept@) =~= climb);
    if levels <= parts.len() - leading {
        let mut j: usize = leading + levels;
        let ghost rest = all.skip(leading + levels);
        assert(climb + rest.take(0) =~= climb);
        while j < parts.len()
            invariant
                all == segments::texts(parts@),
                leading + levels <= j <= parts@.len(),
                rest == all.skip(leading + levels),
                segments::texts(kept@) == climb + rest.take(j - leading - levels),
            decreases parts@.len() - j,
        {
            let ghost before = segments::texts(kept@);
            kept.push(parts[j]);
            proof {
                let k = j - leading - levels;
                assert(rest[k] == parts@[j as int]@);
                assert(segments::texts(kept@) =~= before.push(rest[k]));
                assert(before.push(rest[k]) =~= climb + rest.take(k + 1));
            }
            j += 1;
        }
        assert(rest.take(j - leading - levels) =~= rest);
    } else {
        assert(climb + Seq::<Seq<char>>::empty() =~= climb);
    }
    assert(segments::texts(kept@) =~= proposal::fewer_parents(all, levels as nat));
    if kept.len() == 0 {
        return ".".to_string();
    }
    let joined = join_segments(&kept);
    if starts_with(joined.as_str(), "..") {
        joined
    } else {
        concat("./", joined.as_str())
    }
}

/// Trimming changes exactly the paths that end in a slash, and leaves no slash at the end.
proof fn lemma_trimmed(path: Seq<char>)
    ensures
        !"/"@.is_suffix_of(text::without_trailing_slashes(path)),
        !"/"@.is_suffix_of(path) ==> text::without_trailing_slashes(path) == path,
    decreases path.len(),
{
    reveal_strlit("/");
    if path.len() > 0 {
        lemma_trimmed(path.drop_last());
        let end = path.subrange(path.len() - 1, path.len() as int);
        assert(end[0] == path.last());
        if path.last() == '/' {
            assert(end =~= "/"@);
        }
    }
}

} // verus!
