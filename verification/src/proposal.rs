//! What the rule proposes in place of an import path, as a function of the path, of the file
//! that imports it and of what is known of that file's module.
use crate::extensions;
use crate::file_path;
use crate::file_path::PathView;
use crate::module_record::RecordView;
use crate::normalize;
use crate::segments;
use crate::text;
use vstd::prelude::*;

verus! {

/// The name is `index.` and the extension of a source file.
pub open spec fn is_index_with_extension(name: Seq<char>) -> bool {
    &&& "index."@.is_prefix_of(name)
    &&& extensions::source_extensions().contains(name.skip(6))
}

/// The name is that of an index file: `index`, with or without the extension of a source file.
pub open spec fn is_index_name(name: Seq<char>) -> bool {
    name == "index"@ || is_index_with_extension(name)
}

/// The path ends in an index file, so that a directory was meant.
pub open spec fn leads_to_index(path: PathView) -> bool {
    match file_path::text_of(file_path::file_name(path)) {
        Some(name) => is_index_name(name),
        None => false,
    }
}

/// The directory of an index file that the path names next to the importing file, or one level
/// up.
pub open spec fn bare_index_parent(path: Seq<char>) -> Option<Seq<char>> {
    if "./"@.is_prefix_of(path) && is_index_name(path.skip(2)) {
        Some("."@)
    } else if "../"@.is_prefix_of(path) && is_index_name(path.skip(3)) {
        Some(".."@)
    } else {
        None
    }
}

/// The directory that stands for such an index file, where both resolve to the same module.
pub open spec fn without_bare_index(path: Seq<char>, record: RecordView) -> Option<Seq<char>> {
    match bare_index_parent(path) {
        Some(parent) => if record.loaded(path) is Some && record.loaded(path) == record.loaded(
            parent,
        ) {
            Some(parent)
        } else {
            None
        },
        None => None,
    }
}

/// The directory of the index file that the path ends in. At the root of the path it is `.`.
pub open spec fn index_directory(path: Seq<char>) -> Option<Seq<char>> {
    match segments::parent_and_name(path) {
        Some((parent, name)) => if !is_index_name(name) {
            None
        } else if parent.len() == 0 {
            Some("."@)
        } else {
            Some(parent)
        },
        None => None,
    }
}

/// The path without the index file that it ends in, where the path resolves. A slash is added
/// where only the directory with a slash resolves.
pub open spec fn without_index(path: Seq<char>, record: RecordView) -> Option<Seq<char>> {
    match index_directory(path) {
        None => without_bare_index(path, record),
        Some(parent) => if record.loaded(path) is None {
            None
        } else if record.loaded(parent) is None && record.loaded(parent + "/"@) is Some {
            Some(parent + "/"@)
        } else {
            Some(parent)
        },
    }
}

/// The path without a useless index file, if the rule looks for those.
pub open spec fn index_removed(
    no_useless_index: bool,
    path: Seq<char>,
    record: RecordView,
) -> Seq<char> {
    match without_index(path, record) {
        Some(shorter) if no_useless_index => shorter,
        _ => path,
    }
}

/// The slashes at the end of `path` change what it resolves to.
pub open spec fn slash_is_meaningful(
    path: Seq<char>,
    without_slash: Seq<char>,
    record: RecordView,
) -> bool {
    match (record.loaded(path), record.loaded(without_slash)) {
        (Some(slashed), Some(unslashed)) => slashed != unslashed,
        (Some(slashed), None) => leads_to_index(slashed),
        (None, Some(_)) => true,
        (None, None) => false,
    }
}

/// Both paths resolve, and to different modules.
pub open spec fn resolve_apart(
    left: Seq<char>,
    right: Seq<char>,
    record: RecordView,
) -> bool {
    &&& record.loaded(left) is Some
    &&& record.loaded(right) is Some
    &&& record.loaded(left) != record.loaded(right)
}

/// The normal form of an import path that has one of its own, unless taking it would change
/// what is imported.
pub open spec fn normal_proposal(
    no_useless_index: bool,
    import_path: Seq<char>,
    record: RecordView,
) -> Option<Seq<char>> {
    let normal = normalize::normalized(import_path);
    let breaks = if normal == text::without_trailing_slashes(import_path) {
        slash_is_meaningful(import_path, normal, record)
    } else {
        resolve_apart(import_path, normal, record)
    };
    if !normalize::shows_redundant_segment(import_path) || normal == import_path || breaks {
        None
    } else {
        Some(index_removed(no_useless_index, normal, record))
    }
}

/// How a file names itself: `./` and its name, with the extension only if the import path ends
/// in it.
pub open spec fn own_name(import_path: Seq<char>, current_file: PathView) -> Option<Seq<char>> {
    match file_path::text_of(file_path::file_stem(current_file)) {
        None => None,
        Some(stem) => match file_path::text_of(file_path::extension(current_file)) {
            Some(extension) if ("."@ + extension).is_suffix_of(import_path) => Some(
                "./"@ + stem + "."@ + extension,
            ),
            _ => Some("./"@ + stem),
        },
    }
}

/// How many `..` the segments begin with.
pub open spec fn leading_parents(parts: Seq<Seq<char>>) -> nat
    decreases parts.len(),
{
    if parts.len() > 0 && parts[0] == ".."@ {
        1 + leading_parents(parts.drop_first())
    } else {
        0
    }
}

/// The segments with `levels` of the leading `..` taken away, and as many of the segments behind
/// the leading `..`.
pub open spec fn fewer_parents(parts: Seq<Seq<char>>, levels: nat) -> Seq<Seq<char>> {
    let leading = leading_parents(parts);
    let rest = if leading + levels <= parts.len() {
        parts.skip((leading + levels) as int)
    } else {
        Seq::empty()
    };
    Seq::new((leading - levels) as nat, |i: int| ".."@) + rest
}

/// Segments as an import path, which begins with a dot.
pub open spec fn as_relative_path(parts: Seq<Seq<char>>) -> Seq<char> {
    let joined = segments::join(parts);
    if parts.len() == 0 {
        "."@
    } else if ".."@.is_prefix_of(joined) {
        joined
    } else {
        "./"@ + joined
    }
}

/// The first path that resolves to `target`, among those that take `levels` or more levels away.
pub open spec fn shorter_climb(
    parts: Seq<Seq<char>>,
    levels: nat,
    target: PathView,
    record: RecordView,
) -> Option<Seq<char>>
    decreases leading_parents(parts) + 1 - levels,
{
    if levels > leading_parents(parts) {
        None
    } else {
        let candidate = as_relative_path(fewer_parents(parts, levels));
        if record.loaded(candidate) == Some(target) {
            Some(candidate)
        } else {
            shorter_climb(parts, levels + 1, target, record)
        }
    }
}

/// A simpler path to the module that the import path resolves to.
pub open spec fn resolution_proposal(
    no_useless_index: bool,
    import_path: Seq<char>,
    current_file: PathView,
    record: RecordView,
) -> Option<Seq<char>> {
    match record.loaded(import_path) {
        None => None,
        Some(target) => {
            let simpler = if target == record.resolved_absolute_path {
                own_name(import_path, current_file)
            } else {
                shorter_climb(segments::segments(import_path), 1, target, record)
            };
            match simpler {
                Some(path) => Some(index_removed(no_useless_index, path, record)),
                None => None,
            }
        },
    }
}

/// What the rule proposes in place of an import path, if it finds useless segments in it. There is
/// nothing shorter than `.`, so it is always accepted.
pub open spec fn proposal(
    no_useless_index: bool,
    import_path: Seq<char>,
    current_file: PathView,
    record: RecordView,
) -> Option<Seq<char>> {
    let normal = normal_proposal(no_useless_index, import_path, record);
    let indexless = without_index(import_path, record);
    if import_path == "."@ {
        None
    } else if normal is Some {
        normal
    } else if no_useless_index && indexless is Some {
        indexless
    } else if "./"@.is_prefix_of(import_path) {
        None
    } else {
        resolution_proposal(no_useless_index, import_path, current_file, record)
    }
}

} // verus!
