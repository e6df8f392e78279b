//! What each step of the rule is for, in terms of the paths that it is given and of what they
//! resolve to.
use crate::extensions;
use crate::file_path::{self, Component, PathView};
use crate::module_record::RecordView;
use crate::normalize;
use crate::path_laws;
use crate::proposal;
use crate::proposal_laws;
use crate::segments;
use crate::text;
use vstd::prelude::*;
use vstd::utf8;

verus! {

proof fn lemma_name_with_extension(name: Seq<char>, extension: Seq<char>)
    ensures
        ("index."@.is_prefix_of(name) && name.skip(6) == extension) <==> name == "index."@
            + extension,
{
    reveal_strlit("index.");
    let whole = "index."@ + extension;
    assert(whole.skip(6) =~= extension);
    assert(whole.subrange(0, 6) =~= "index."@);
    if "index."@.is_prefix_of(name) && name.skip(6) == extension {
        assert(name =~= name.subrange(0, 6) + name.skip(6));
    }
}

proof fn lemma_index_literals()
    ensures
        "index."@ + "js"@ == "index.js"@,
        "index."@ + "mjs"@ == "index.mjs"@,
        "index."@ + "cjs"@ == "index.cjs"@,
        "index."@ + "jsx"@ == "index.jsx"@,
        "index."@ + "ts"@ == "index.ts"@,
        "index."@ + "mts"@ == "index.mts"@,
        "index."@ + "cts"@ == "index.cts"@,
        "index."@ + "tsx"@ == "index.tsx"@,
{
    reveal_strlit("index.");
    reveal_strlit("js");
    reveal_strlit("mjs");
    reveal_strlit("cjs");
    reveal_strlit("jsx");
    reveal_strlit("ts");
    reveal_strlit("mts");
    reveal_strlit("cts");
    reveal_strlit("tsx");
    reveal_strlit("index.js");
    reveal_strlit("index.mjs");
    reveal_strlit("index.cjs");
    reveal_strlit("index.jsx");
    reveal_strlit("index.ts");
    reveal_strlit("index.mts");
    reveal_strlit("index.cts");
    reveal_strlit("index.tsx");
    assert("index."@ + "js"@ =~= "index.js"@);
    assert("index."@ + "mjs"@ =~= "index.mjs"@);
    assert("index."@ + "cjs"@ =~= "index.cjs"@);
    assert("index."@ + "jsx"@ =~= "index.jsx"@);
    assert("index."@ + "ts"@ =~= "index.ts"@);
    assert("index."@ + "mts"@ =~= "index.mts"@);
    assert("index."@ + "cts"@ =~= "index.cts"@);
    assert("index."@ + "tsx"@ =~= "index.tsx"@);
}

/// Nine names are those of index files.
pub proof fn law_nine_names_are_those_of_index_files(name: Seq<char>)
    ensures
        proposal::is_index_with_extension(name) <==> {
            ||| name == "index.js"@
            ||| name == "index.mjs"@
            ||| name == "index.cjs"@
            ||| name == "index.jsx"@
            ||| name == "index.ts"@
            ||| name == "index.mts"@
            ||| name == "index.cts"@
            ||| name == "index.tsx"@
        },
        proposal::is_index_name(name) <==> name == "index"@ || proposal::is_index_with_extension(
            name,
        ),
{
    lemma_index_literals();
    lemma_name_with_extension(name, "js"@);
    lemma_name_with_extension(name, "mjs"@);
    lemma_name_with_extension(name, "cjs"@);
    lemma_name_with_extension(name, "jsx"@);
    lemma_name_with_extension(name, "ts"@);
    lemma_name_with_extension(name, "mts"@);
    lemma_name_with_extension(name, "cts"@);
    lemma_name_with_extension(name, "tsx"@);
    let listed = extensions::source_extensions();
    let extension = name.skip(6);
    assert(listed.contains(extension) <==> {
        ||| extension == "js"@
        ||| extension == "mjs"@
        ||| extension == "cjs"@
        ||| extension == "jsx"@
        ||| extension == "ts"@
        ||| extension == "mts"@
        ||| extension == "cts"@
        ||| extension == "tsx"@
    }) by {
        assert(listed[0] == "js"@ && listed[1] == "mjs"@ && listed[2] == "cjs"@ && listed[3]
            == "jsx"@);
        assert(listed[4] == "ts"@ && listed[5] == "mts"@ && listed[6] == "cts"@ && listed[7]
            == "tsx"@);
    }
}

/// A path leads to an index file exactly if it ends in the encoded name of one, in whatever
/// directory.
pub proof fn law_index_file_shows_in_the_last_name(
    directory: PathView,
    name: Seq<char>,
    path: PathView,
)
    ensures
        proposal::leads_to_index(directory.push(Component::Normal(utf8::encode_utf8(name))))
            <==> proposal::is_index_name(name),
        proposal::leads_to_index(path) ==> exists|found: Seq<char>|
            {
                &&& proposal::is_index_name(found)
                &&& path.len() > 0
                &&& path.last() == Component::Normal(#[trigger] utf8::encode_utf8(found))
            },
{
    let bytes = utf8::encode_utf8(name);
    path_laws::law_text_is_read_back(name, bytes);
    path_laws::law_file_name_is_the_last_name(directory, bytes, path);
    if proposal::leads_to_index(path) {
        let last = file_path::file_name(path)->0;
        let found = file_path::decoded(last)->0;
        path_laws::law_text_is_read_back(found, last);
        assert(path.last() == Component::Normal(utf8::encode_utf8(found)));
    }
}

/// Directly behind `./` or `../`, and nowhere else, an index file is a bare one.
pub proof fn law_bare_index_stands_behind_one_directory(
    directory: Seq<char>,
    name: Seq<char>,
    path: Seq<char>,
)
    requires
        directory == "."@ || directory == ".."@,
        proposal::is_index_name(name),
    ensures
        proposal::bare_index_parent(directory + seq!['/'] + name) == Some(directory),
        proposal::bare_index_parent(path) matches Some(parent) ==> {
            &&& parent == "."@ || parent == ".."@
            &&& exists|found: Seq<char>|
                #[trigger] proposal::is_index_name(found) && path == parent + seq!['/'] + found
        },
{
    normalize::lemma_literals();
    reveal_strlit("../");
    let bare = directory + seq!['/'] + name;
    if directory == "."@ {
        assert(bare.skip(2) =~= name);
        assert(bare.subrange(0, 2) =~= "./"@);
    } else {
        assert(bare.skip(3) =~= name);
        assert(bare.subrange(0, 3) =~= "../"@);
        assert(!"./"@.is_prefix_of(bare)) by {
            assert(bare.subrange(0, 2)[1] == '.');
        }
    }
    if "./"@.is_prefix_of(path) && proposal::is_index_name(path.skip(2)) {
        assert(path.subrange(0, 2)[0] == path[0] && path.subrange(0, 2)[1] == path[1]);
        assert(path =~= "."@ + seq!['/'] + path.skip(2));
    } else if "../"@.is_prefix_of(path) && proposal::is_index_name(path.skip(3)) {
        assert(path.subrange(0, 3)[0] == path[0] && path.subrange(0, 3)[1] == path[1]
            && path.subrange(0, 3)[2] == path[2]);
        assert(path =~= ".."@ + seq!['/'] + path.skip(3));
    }
}

/// A bare index file gives way to its directory exactly if both resolve, and to the same module.
pub proof fn law_bare_index_gives_way_to_the_same_module(
    directory: Seq<char>,
    name: Seq<char>,
    target: PathView,
    record: RecordView,
)
    requires
        directory == "."@ || directory == ".."@,
        proposal::is_index_name(name),
        record.loaded(directory + seq!['/'] + name) == Some(target),
    ensures
        proposal::without_bare_index(directory + seq!['/'] + name, record) == (if record.loaded(
            directory,
        ) == Some(target) {
            Some(directory)
        } else {
            None
        }),
{
    law_bare_index_stands_behind_one_directory(directory, name, directory);
}

/// Nothing else gives way like a bare index file: neither a path that does not resolve nor one that
/// names no bare index file.
pub proof fn law_nothing_else_is_a_bare_index(path: Seq<char>, record: RecordView)
    ensures
        record.loaded(path) is None || proposal::bare_index_parent(path) is None
            ==> proposal::without_bare_index(path, record) is None,
{
}

/// The directory in place of an index file is the path up to the slash before the file's name, or
/// `.` where nothing stands before that slash.
pub proof fn law_index_directory_is_what_stands_before(directory: Seq<char>, name: Seq<char>)
    requires
        proposal::is_index_name(name),
    ensures
        proposal::index_directory(directory + seq!['/'] + name) == Some(
            if directory.len() == 0 {
                "."@
            } else {
                directory
            },
        ),
{
    proposal_laws::lemma_index_name_is_slash_free(name);
    segments::law_parent_and_name_are_around_the_last_slash(directory, name);
}

/// An index file that resolves gives way to its directory. The directory is written with a slash
/// behind it exactly if it resolves only so.
pub proof fn law_index_gives_way_to_its_directory(
    directory: Seq<char>,
    name: Seq<char>,
    record: RecordView,
)
    requires
        proposal::is_index_name(name),
        directory.len() > 0,
    ensures
        ({
            let path = directory + seq!['/'] + name;
            let shorter = proposal::without_index(path, record);
            &&& shorter is Some <==> record.loaded(path) is Some
            &&& shorter matches Some(found) ==> found == directory || found == directory + "/"@
            &&& shorter == Some(directory + "/"@) <==> {
                &&& record.loaded(path) is Some
                &&& record.loaded(directory) is None
                &&& record.loaded(directory + "/"@) is Some
            }
        }),
{
    law_index_directory_is_what_stands_before(directory, name);
    normalize::lemma_literals();
    assert((directory + "/"@).len() == directory.len() + 1);
}

/// An index file behind nothing but a slash gives way to `.`, by the same rule.
pub proof fn law_index_behind_a_slash_gives_way_to_dot(name: Seq<char>, record: RecordView)
    requires
        proposal::is_index_name(name),
    ensures
        ({
            let path = seq!['/'] + name;
            let shorter = proposal::without_index(path, record);
            &&& shorter is Some <==> record.loaded(path) is Some
            &&& shorter matches Some(found) ==> found == "."@ || found == "./"@
            &&& shorter == Some("./"@) <==> {
                &&& record.loaded(path) is Some
                &&& record.loaded("."@) is None
                &&& record.loaded("./"@) is Some
            }
        }),
{
    normalize::lemma_literals();
    let nothing: Seq<char> = Seq::empty();
    law_index_directory_is_what_stands_before(nothing, name);
    assert(nothing + seq!['/'] + name =~= seq!['/'] + name);
    assert("."@ + "/"@ =~= "./"@);
    assert("."@.len() == 1 && "./"@.len() == 2);
}

/// Only a path that resolves and ends in an index file gives way to a directory.
pub proof fn law_only_index_files_give_way(path: Seq<char>, record: RecordView)
    ensures
        proposal::without_index(path, record) is Some ==> {
            &&& record.loaded(path) is Some
            &&& exists|directory: Seq<char>, name: Seq<char>|
                #[trigger] proposal::is_index_name(name) && path == #[trigger] (directory + seq![
                    '/',
                ]) + name
        },
{
    if proposal::without_index(path, record) is Some {
        if proposal::index_directory(path) is None {
            proposal_laws::law_bare_index_is_an_index(path);
        }
        proposal_laws::lemma_index_directory(path);
        let (parent, name) = segments::parent_and_name(path)->0;
        assert(proposal::is_index_name(name) && path == (parent + seq!['/']) + name);
    }
}

/// With the option, a path gives way exactly where it may. Without it, it never does.
pub proof fn law_option_decides_on_index_files(path: Seq<char>, record: RecordView)
    ensures
        proposal::index_removed(false, path, record) == path,
        proposal::without_index(path, record) is None ==> proposal::index_removed(
            true,
            path,
            record,
        ) == path,
        proposal::without_index(path, record) is Some ==> Some(
            proposal::index_removed(true, path, record),
        ) == proposal::without_index(path, record),
{
}

/// Two paths resolve apart exactly if they resolve to two modules.
pub proof fn law_apart_means_two_modules(left: Seq<char>, right: Seq<char>, record: RecordView)
    ensures
        proposal::resolve_apart(left, right, record) <==> exists|one: PathView, two: PathView|
            one != two && #[trigger] record.loaded_modules.contains_pair(left, one)
                && #[trigger] record.loaded_modules.contains_pair(right, two),
{
    if proposal::resolve_apart(left, right, record) {
        let one = record.loaded(left)->0;
        let two = record.loaded(right)->0;
        assert(record.loaded_modules.contains_pair(left, one));
        assert(record.loaded_modules.contains_pair(right, two));
    }
}

/// Slashes at the end may go exactly in three cases: the path resolves to the same module with and
/// without them, it resolves in neither way, or it resolves only with them and not to an index file.
pub proof fn law_slashes_may_go_in_three_cases(
    path: Seq<char>,
    without_slash: Seq<char>,
    record: RecordView,
)
    ensures
        !proposal::slash_is_meaningful(path, without_slash, record) <==> {
            ||| record.loaded(path) is Some && record.loaded(path) == record.loaded(without_slash)
            ||| record.loaded(path) is None && record.loaded(without_slash) is None
            ||| record.loaded(without_slash) is None && (record.loaded(path) matches Some(target)
                && !proposal::leads_to_index(target))
        },
{
}

/// A path with slashes at its end, and no other useless text, gives way to the path without them
/// exactly if they may go.
pub proof fn law_trailing_slashes_go_where_they_may(
    no_useless_index: bool,
    path: Seq<char>,
    slashes: nat,
    record: RecordView,
)
    requires
        slashes > 0,
        path.len() > 0,
        path.last() != '/',
        normalize::normalized(path + Seq::new(slashes, |i: int| '/')) == path,
    ensures
        ({
            let import_path = path + Seq::new(slashes, |i: int| '/');
            let proposed = proposal::normal_proposal(no_useless_index, import_path, record);
            &&& proposed is Some <==> !proposal::slash_is_meaningful(import_path, path, record)
            &&& proposed is Some ==> proposed == Some(
                proposal::index_removed(no_useless_index, path, record),
            )
        }),
{
    normalize::lemma_literals();
    let import_path = path + Seq::new(slashes, |i: int| '/');
    text::law_trimming_takes_the_trailing_slashes(path, slashes);
    assert(import_path.subrange(import_path.len() - 1, import_path.len() as int) =~= "/"@);
    assert(import_path.len() > path.len());
}

/// Any other path that shows a redundant segment and has a normal form of its own gives way to it,
/// exactly if the two do not resolve apart.
pub proof fn law_normal_form_is_proposed_unless_it_leads_elsewhere(
    no_useless_index: bool,
    path: Seq<char>,
    slashes: nat,
    record: RecordView,
)
    requires
        path.len() > 0 ==> path.last() != '/',
        normalize::normalized(path + Seq::new(slashes, |i: int| '/')) != path,
    ensures
        ({
            let import_path = path + Seq::new(slashes, |i: int| '/');
            let normal = normalize::normalized(import_path);
            let proposed = proposal::normal_proposal(no_useless_index, import_path, record);
            &&& proposed is Some <==> {
                &&& normal != import_path
                &&& normalize::shows_redundant_segment(import_path)
                &&& !proposal::resolve_apart(import_path, normal, record)
            }
            &&& proposed is Some ==> proposed == Some(
                proposal::index_removed(no_useless_index, normal, record),
            )
        }),
{
    text::law_trimming_takes_the_trailing_slashes(path, slashes);
}

proof fn lemma_last_dot_is_a_dot(name: Seq<u8>)
    ensures
        file_path::last_dot(name) < name.len(),
        file_path::last_dot(name) >= 0 ==> name[file_path::last_dot(name)] == 0x2e,
    decreases name.len(),
{
    if name.len() > 0 && name.last() != 0x2e {
        lemma_last_dot_is_a_dot(name.drop_last());
    }
}

/// Where an import path ends in a dot and the file's extension, the file names itself with its
/// whole name.
pub proof fn law_own_name_is_the_whole_file_name(
    import_path: Seq<char>,
    current_file: PathView,
    extension: Seq<char>,
)
    requires
        file_path::text_of(file_path::file_stem(current_file)) is Some,
        file_path::text_of(file_path::extension(current_file)) == Some(extension),
        ("."@ + extension).is_suffix_of(import_path),
    ensures
        file_path::text_of(file_path::file_name(current_file)) is Some,
        proposal::own_name(import_path, current_file) == Some(
            "./"@ + file_path::text_of(file_path::file_name(current_file))->0,
        ),
{
    normalize::lemma_literals();
    let name = file_path::file_name(current_file)->0;
    let dot = file_path::last_dot(name);
    let stem_bytes = file_path::file_stem(current_file)->0;
    let extension_bytes = file_path::extension(current_file)->0;
    let stem = file_path::decoded(stem_bytes)->0;
    lemma_last_dot_is_a_dot(name);
    assert(name =~= stem_bytes + seq![0x2eu8] + extension_bytes);
    path_laws::law_text_is_read_back(stem, stem_bytes);
    path_laws::law_text_is_read_back(extension, extension_bytes);
    path_laws::lemma_encode_dot();
    path_laws::lemma_encode_concat(stem, "."@);
    path_laws::lemma_encode_concat(stem + "."@, extension);
    path_laws::law_text_is_read_back(stem + "."@ + extension, name);
    assert("./"@ + (stem + "."@ + extension) =~= "./"@ + stem + "."@ + extension);
}

/// A file with an extension names itself by its stem, and by its whole name where the import path
/// ends in a dot and the extension.
pub proof fn law_file_with_extension_names_itself(
    import_path: Seq<char>,
    directory: PathView,
    stem: Seq<char>,
    extension: Seq<char>,
)
    requires
        stem.len() > 0,
        !extension.contains('.'),
    ensures
        ({
            let name = stem + "."@ + extension;
            let file = directory.push(Component::Normal(utf8::encode_utf8(name)));
            proposal::own_name(import_path, file) == Some(
                if ("."@ + extension).is_suffix_of(import_path) {
                    "./"@ + name
                } else {
                    "./"@ + stem
                },
            )
        }),
{
    normalize::lemma_literals();
    let name = stem + "."@ + extension;
    let file = directory.push(Component::Normal(utf8::encode_utf8(name)));
    path_laws::lemma_encode_dot();
    path_laws::lemma_encode_concat(stem, "."@);
    path_laws::lemma_encode_concat(stem + "."@, extension);
    path_laws::lemma_encode_some(stem);
    path_laws::lemma_encode_without_dot(extension);
    path_laws::law_last_dot_parts_stem_and_extension(
        directory,
        utf8::encode_utf8(stem),
        utf8::encode_utf8(extension),
    );
    path_laws::law_text_is_read_back(stem, utf8::encode_utf8(stem));
    path_laws::law_text_is_read_back(extension, utf8::encode_utf8(extension));
    assert("./"@ + name =~= "./"@ + stem + "."@ + extension);
}

/// A file without an extension names itself by its whole name, whatever the import path ends in.
pub proof fn law_file_without_extension_names_itself(
    import_path: Seq<char>,
    directory: PathView,
    name: Seq<char>,
)
    requires
        !name.contains('.'),
    ensures
        proposal::own_name(
            import_path,
            directory.push(Component::Normal(utf8::encode_utf8(name))),
        ) == Some("./"@ + name),
{
    let bytes = utf8::encode_utf8(name);
    path_laws::lemma_encode_without_dot(name);
    assert forall|i: int| 1 <= i < bytes.len() implies #[trigger] bytes[i] != 0x2e by {
        assert(bytes.contains(bytes[i]));
    }
    path_laws::law_name_without_a_later_dot_is_all_stem(directory, bytes);
    path_laws::law_text_is_read_back(name, bytes);
}

/// A file whose stem is no text does not name itself. Of any other file the stem is enough, unless
/// the import path ends in a dot and an extension that is text.
pub proof fn law_stem_is_enough_without_the_extension(
    import_path: Seq<char>,
    current_file: PathView,
)
    ensures
        proposal::own_name(import_path, current_file) is Some <==> file_path::text_of(
            file_path::file_stem(current_file),
        ) is Some,
        file_path::text_of(file_path::file_stem(current_file)) is Some && !(file_path::text_of(
            file_path::extension(current_file),
        ) matches Some(extension) && ("."@ + extension).is_suffix_of(import_path))
            ==> proposal::own_name(import_path, current_file) == Some(
            "./"@ + file_path::text_of(file_path::file_stem(current_file))->0,
        ),
{
}

/// The leading `..` are counted up to the first segment that is none.
pub proof fn law_leading_parents_are_counted(parents: nat, rest: Seq<Seq<char>>)
    requires
        rest.len() > 0 ==> rest[0] != ".."@,
    ensures
        proposal::leading_parents(Seq::new(parents, |i: int| ".."@) + rest) == parents,
    decreases parents,
{
    let climb = Seq::new(parents, |i: int| ".."@);
    if parents == 0 {
        assert(climb + rest =~= rest);
    } else {
        let less = (parents - 1) as nat;
        law_leading_parents_are_counted(less, rest);
        assert((climb + rest).drop_first() =~= Seq::new(less, |i: int| ".."@) + rest);
        assert((climb + rest)[0] == ".."@);
    }
}

/// Each leading `..` that is taken away takes one of the segments behind the leading `..` with it,
/// the first of them first, as long as there are any. The others stay, in order.
pub proof fn law_each_parent_takes_one_segment_with_it(
    parents: nat,
    levels: nat,
    taken: Seq<Seq<char>>,
    rest: Seq<Seq<char>>,
)
    requires
        levels <= parents,
        taken.len() == levels || taken.len() < levels && rest.len() == 0,
        (taken + rest).len() > 0 ==> (taken + rest)[0] != ".."@,
    ensures
        proposal::fewer_parents(Seq::new(parents, |i: int| ".."@) + (taken + rest), levels)
            == Seq::new((parents - levels) as nat, |i: int| ".."@) + rest,
{
    let parts = Seq::new(parents, |i: int| ".."@) + (taken + rest);
    law_leading_parents_are_counted(parents, taken + rest);
    if parents + levels <= parts.len() {
        assert(parts.skip((parents + levels) as int) =~= rest);
    } else {
        assert(rest =~= Seq::empty());
    }
}

/// Segments become a path that begins with a dot by at most a `./` before them, which stands there
/// exactly if they do not begin with two dots. No segments become `.`.
pub proof fn law_segments_become_a_relative_path(parts: Seq<Seq<char>>)
    requires
        parts.len() > 0,
    ensures
        ({
            let joined = segments::join(parts);
            let path = proposal::as_relative_path(parts);
            &&& path == joined || path == "./"@ + joined
            &&& path == joined <==> ".."@.is_prefix_of(joined)
        }),
        proposal::as_relative_path(Seq::empty()) == "."@,
{
    normalize::lemma_literals();
    let joined = segments::join(parts);
    assert(("./"@ + joined).len() == joined.len() + 2);
}

/// One level up and one directory down again cancel out.
pub proof fn law_one_level_up_and_down_cancel_out(directory: Seq<char>, rest: Seq<char>)
    requires
        !directory.contains('/'),
        directory != ".."@,
        !".."@.is_prefix_of(rest),
    ensures
        ({
            let import_path = ".."@ + seq!['/'] + (directory + seq!['/'] + rest);
            let parts = segments::segments(import_path);
            &&& proposal::leading_parents(parts) == 1
            &&& proposal::as_relative_path(proposal::fewer_parents(parts, 1)) == "./"@ + rest
        }),
{
    normalize::lemma_literals();
    let import_path = ".."@ + seq!['/'] + (directory + seq!['/'] + rest);
    let behind = segments::segments(rest);
    assert(!".."@.contains('/'));
    segments::law_text_without_a_slash_is_one_segment(".."@);
    segments::law_text_without_a_slash_is_one_segment(directory);
    segments::lemma_segments_around_slash(".."@, directory + seq!['/'] + rest);
    segments::lemma_segments_around_slash(directory, rest);
    segments::lemma_segments_exist(rest);
    segments::law_join_undoes_segments(rest);
    let climb = Seq::new(1, |i: int| ".."@);
    assert(climb =~= seq![".."@]);
    law_leading_parents_are_counted(1, seq![directory] + behind);
    law_each_parent_takes_one_segment_with_it(1, 1, seq![directory], behind);
    assert(Seq::new(0, |i: int| ".."@) + behind =~= behind);
}

/// The steps come in order: the normal form, the index file of the import path itself, and, but for
/// a path that begins with `./`, what the path resolves to.
pub proof fn law_steps_come_in_order(
    no_useless_index: bool,
    import_path: Seq<char>,
    current_file: PathView,
    record: RecordView,
)
    requires
        import_path != "."@,
    ensures
        ({
            let proposed = proposal::proposal(no_useless_index, import_path, current_file, record);
            let normal = proposal::normal_proposal(no_useless_index, import_path, record);
            let indexless = proposal::without_index(import_path, record);
            &&& normal is Some ==> proposed == normal
            &&& normal is None && no_useless_index && indexless is Some ==> proposed == indexless
            &&& normal is None && (!no_useless_index || indexless is None) ==> proposed == (
            if "./"@.is_prefix_of(import_path) {
                None
            } else {
                proposal::resolution_proposal(no_useless_index, import_path, current_file, record)
            })
        }),
{
}

/// The third step looks at the module that the import path resolves to. For the importing module
/// itself it takes the file's own name, for any other module the first path with fewer leading `..`
/// that leads there, and in both cases the option decides on an index file at the end.
pub proof fn law_resolution_looks_at_the_module(
    no_useless_index: bool,
    import_path: Seq<char>,
    current_file: PathView,
    target: PathView,
    record: RecordView,
)
    requires
        record.loaded(import_path) == Some(target),
    ensures
        ({
            let proposed = proposal::resolution_proposal(
                no_useless_index,
                import_path,
                current_file,
                record,
            );
            let own = proposal::own_name(import_path, current_file);
            let shorter = proposal::shorter_climb(
                segments::segments(import_path),
                1,
                target,
                record,
            );
            &&& target == record.resolved_absolute_path ==> {
                &&& proposed is Some <==> own is Some
                &&& own matches Some(name) ==> proposed == Some(
                    proposal::index_removed(no_useless_index, name, record),
                )
            }
            &&& target != record.resolved_absolute_path ==> {
                &&& proposed is Some <==> shorter is Some
                &&& shorter matches Some(path) ==> proposed == Some(
                    proposal::index_removed(no_useless_index, path, record),
                )
            }
        }),
{
}

/// A path that does not resolve is not simplified by what it resolves to.
pub proof fn law_unresolved_import_is_not_simplified(
    no_useless_index: bool,
    import_path: Seq<char>,
    current_file: PathView,
    record: RecordView,
)
    requires
        record.loaded(import_path) is None,
    ensures
        proposal::resolution_proposal(no_useless_index, import_path, current_file, record) is None,
{
}

/// Where a path with fewer leading `..` leads to the same module, something is proposed.
pub proof fn law_shorter_way_is_found(
    no_useless_index: bool,
    import_path: Seq<char>,
    current_file: PathView,
    target: PathView,
    record: RecordView,
    levels: nat,
)
    requires
        !"./"@.is_prefix_of(import_path),
        record.loaded(import_path) == Some(target),
        target != record.resolved_absolute_path,
        1 <= levels <= proposal::leading_parents(segments::segments(import_path)),
        record.loaded(
            proposal::as_relative_path(
                proposal::fewer_parents(segments::segments(import_path), levels),
            ),
        ) == Some(target),
    ensures
        proposal::proposal(no_useless_index, import_path, current_file, record) is Some,
{
    let parts = segments::segments(import_path);
    lemma_found_from(parts, 1, levels, target, record);
    if import_path == "."@ {
        normalize::lemma_literals();
        assert(!"."@.contains('/'));
        segments::law_text_without_a_slash_is_one_segment("."@);
        assert("."@.len() == 1 && ".."@.len() == 2);
    }
}

proof fn lemma_found_from(
    parts: Seq<Seq<char>>,
    from: nat,
    levels: nat,
    target: PathView,
    record: RecordView,
)
    requires
        from <= levels <= proposal::leading_parents(parts),
        record.loaded(proposal::as_relative_path(proposal::fewer_parents(parts, levels))) == Some(
            target,
        ),
    ensures
        proposal::shorter_climb(parts, from, target, record) is Some,
    decreases levels - from,
{
    if from < levels {
        lemma_found_from(parts, from + 1, levels, target, record);
    }
}

/// Where the way up and down again to a module may be left out, it is left out.
pub proof fn law_way_up_and_down_is_left_out(
    directory: Seq<char>,
    rest: Seq<char>,
    current_file: PathView,
    target: PathView,
    record: RecordView,
)
    requires
        !directory.contains('/'),
        directory != ".."@,
        !".."@.is_prefix_of(rest),
        record.loaded(".."@ + seq!['/'] + (directory + seq!['/'] + rest)) == Some(target),
        record.loaded("./"@ + rest) == Some(target),
        target != record.resolved_absolute_path,
        proposal::normal_proposal(
            false,
            ".."@ + seq!['/'] + (directory + seq!['/'] + rest),
            record,
        ) is None,
    ensures
        proposal::proposal(
            false,
            ".."@ + seq!['/'] + (directory + seq!['/'] + rest),
            current_file,
            record,
        ) == Some("./"@ + rest),
{
    normalize::lemma_literals();
    let import_path = ".."@ + seq!['/'] + (directory + seq!['/'] + rest);
    law_one_level_up_and_down_cancel_out(directory, rest);
    assert(!"./"@.is_prefix_of(import_path)) by {
        assert(import_path.subrange(0, 2)[1] == '.');
    }
    assert(import_path.len() > 1 && "."@.len() == 1);
    law_steps_come_in_order(false, import_path, current_file, record);
    law_resolution_looks_at_the_module(false, import_path, current_file, target, record);
}

/// A module that imports itself is told its own name, unless an earlier step has something to say
/// or its path begins with `./`.
pub proof fn law_self_import_is_told_its_own_name(
    import_path: Seq<char>,
    current_file: PathView,
    name: Seq<char>,
    record: RecordView,
)
    requires
        import_path != "."@,
        !"./"@.is_prefix_of(import_path),
        record.loaded(import_path) == Some(record.resolved_absolute_path),
        proposal::own_name(import_path, current_file) == Some(name),
        proposal::normal_proposal(false, import_path, record) is None,
    ensures
        proposal::proposal(false, import_path, current_file, record) == Some(name),
{
}

} // verus!
