//! What holds of the proposals as a whole.
use crate::file_path::PathView;
use crate::module_record::RecordView;
use crate::normalize;
use crate::normalize_laws;
use crate::proposal;
use crate::segments;
use vstd::prelude::*;

verus! {

/// Taking a normal form never leads to another module: where the import path and its normal form
/// both resolve, they resolve to the same module.
pub proof fn law_normal_proposal_keeps_the_module(
    no_useless_index: bool,
    import_path: Seq<char>,
    record: RecordView,
)
    ensures
        proposal::normal_proposal(no_useless_index, import_path, record) is Some
            ==> !proposal::resolve_apart(import_path, normalize::normalized(import_path), record),
{
}

/// A normal form is not reported again as one that has a normal form of its own.
pub proof fn law_normal_form_is_not_normalized_again(
    no_useless_index: bool,
    path: Seq<char>,
    record: RecordView,
)
    ensures
        proposal::normal_proposal(no_useless_index, normalize::normalized(path), record) is None,
{
    normalize_laws::law_normalization_is_idempotent(path);
}

/// The path with fewer leading `..` resolves to the module that was asked for, and every path
/// that takes fewer of them away does not. There is none only if no such path does.
pub proof fn law_shorter_climb_is_the_first_that_resolves(
    parts: Seq<Seq<char>>,
    levels: nat,
    target: PathView,
    record: RecordView,
)
    ensures
        ({
            let leads = |k: nat|
                record.loaded(proposal::as_relative_path(proposal::fewer_parents(parts, k)))
                    == Some(target);
            match proposal::shorter_climb(parts, levels, target, record) {
                Some(path) => exists|k: nat|
                    {
                        &&& levels <= k <= proposal::leading_parents(parts)
                        &&& path == proposal::as_relative_path(
                            #[trigger] proposal::fewer_parents(parts, k),
                        )
                        &&& leads(k)
                        &&& forall|j: nat| levels <= j < k ==> !#[trigger] leads(j)
                    },
                None => forall|k: nat|
                    levels <= k <= proposal::leading_parents(parts) ==> !#[trigger] leads(k),
            }
        }),
    decreases proposal::leading_parents(parts) + 1 - levels,
{
    let leads = |k: nat|
        record.loaded(proposal::as_relative_path(proposal::fewer_parents(parts, k))) == Some(
            target,
        );
    if levels <= proposal::leading_parents(parts) {
        if leads(levels) {
            let found = proposal::fewer_parents(parts, levels);
            assert(proposal::shorter_climb(parts, levels, target, record) == Some(
                proposal::as_relative_path(found),
            ));
        } else {
            law_shorter_climb_is_the_first_that_resolves(parts, levels + 1, target, record);
            match proposal::shorter_climb(parts, levels + 1, target, record) {
                Some(path) => {
                    let k = choose|k: nat|
                        {
                            &&& levels + 1 <= k <= proposal::leading_parents(parts)
                            &&& path == proposal::as_relative_path(
                                #[trigger] proposal::fewer_parents(parts, k),
                            )
                            &&& leads(k)
                            &&& forall|j: nat| levels + 1 <= j < k ==> !#[trigger] leads(j)
                        };
                    assert forall|j: nat| levels <= j < k implies !#[trigger] leads(j) by {
                        if j > levels {
                            assert(levels + 1 <= j);
                        }
                    }
                    let found = proposal::fewer_parents(parts, k);
                    assert(path == proposal::as_relative_path(found));
                },
                None => {
                    assert forall|k: nat|
                        levels <= k <= proposal::leading_parents(parts) implies !#[trigger] leads(
                        k,
                    ) by {
                        if k > levels {
                            assert(levels + 1 <= k);
                        }
                    }
                },
            }
        }
    }
}

/// An index file named directly behind `./` or `../` is an index file that a path ends in, in
/// that directory.
pub proof fn law_bare_index_is_an_index(path: Seq<char>)
    requires
        proposal::bare_index_parent(path) is Some,
    ensures
        proposal::index_directory(path) == proposal::bare_index_parent(path),
{
    normalize::lemma_literals();
    reveal_strlit("../");
    if "./"@.is_prefix_of(path) && proposal::is_index_name(path.skip(2)) {
        assert(path.subrange(0, 2)[0] == path[0] && path.subrange(0, 2)[1] == path[1]);
        assert(path =~= "."@ + seq!['/'] + path.skip(2));
        lemma_index_directory_of("."@, path.skip(2));
    } else {
        assert(path.subrange(0, 3)[0] == path[0] && path.subrange(0, 3)[1] == path[1]
            && path.subrange(0, 3)[2] == path[2]);
        assert(path =~= ".."@ + seq!['/'] + path.skip(3));
        lemma_index_directory_of(".."@, path.skip(3));
    }
}

/// The name of an index file holds no slash.
pub(crate) proof fn lemma_index_name_is_slash_free(name: Seq<char>)
    requires
        proposal::is_index_name(name),
    ensures
        !name.contains('/'),
        name.len() >= 5,
{
    reveal_strlit("index");
    reveal_strlit("index.");
    if proposal::is_index_with_extension(name) {
        reveal_strlit("js");
        reveal_strlit("mjs");
        reveal_strlit("cjs");
        reveal_strlit("jsx");
        reveal_strlit("ts");
        reveal_strlit("mts");
        reveal_strlit("cts");
        reveal_strlit("tsx");
        let extension = name.skip(6);
        assert(!extension.contains('/'));
        assert forall|i: int| 0 <= i < name.len() implies name[i] != '/' by {
            if i < 6 {
                assert(name[i] == name.subrange(0, 6)[i]);
            } else {
                assert(name[i] == extension[i - 6]);
                assert(extension.contains(extension[i - 6]));
            }
        }
    }
}

proof fn lemma_index_directory_of(directory: Seq<char>, name: Seq<char>)
    requires
        directory.len() > 0,
        proposal::is_index_name(name),
    ensures
        proposal::index_directory(directory + seq!['/'] + name) == Some(directory),
{
    let path = directory + seq!['/'] + name;
    lemma_index_name_is_slash_free(name);
    segments::lemma_segments_around_slash(directory, name);
    segments::lemma_segments_exist(directory);
    segments::law_join_undoes_segments(directory);
    assert(segments::segments(name) == seq![name]) by {
        assert(segments::join(seq![name]) == name);
        assert(segments::slash_free(seq![name]));
        segments::law_segments_undo_join(seq![name]);
    }
    assert(segments::segments(path).drop_last() =~= segments::segments(directory));
}

/// The directory of an index file is the path up to the name.
pub(crate) proof fn lemma_index_directory(path: Seq<char>)
    requires
        proposal::index_directory(path) is Some,
    ensures
        ({
            let (parent, name) = segments::parent_and_name(path)->0;
            let directory = proposal::index_directory(path)->0;
            &&& path == parent + seq!['/'] + name
            &&& directory == (if parent.len() == 0 {
                "."@
            } else {
                parent
            })
            &&& directory.len() + 5 <= path.len()
        }),
{
    normalize::lemma_literals();
    segments::law_join_undoes_segments(path);
    let (parent, name) = segments::parent_and_name(path)->0;
    lemma_index_name_is_slash_free(name);
}

/// Taking an index file away makes the path shorter.
pub proof fn law_removing_an_index_shortens(path: Seq<char>, record: RecordView)
    ensures
        proposal::without_index(path, record) matches Some(shorter) ==> shorter.len() < path.len(),
{
    normalize::lemma_literals();
    if proposal::index_directory(path) is Some {
        lemma_index_directory(path);
    } else if proposal::bare_index_parent(path) is Some {
        law_bare_index_is_an_index(path);
    }
}

/// The leading `..` are segments of the path.
proof fn lemma_leading_parents(parts: Seq<Seq<char>>)
    ensures
        proposal::leading_parents(parts) <= parts.len(),
        forall|i: int|
            0 <= i < proposal::leading_parents(parts) ==> #[trigger] parts[i] == ".."@,
    decreases parts.len(),
{
    if parts.len() > 0 && parts[0] == ".."@ {
        lemma_leading_parents(parts.drop_first());
        assert forall|i: int|
            0 <= i < proposal::leading_parents(parts) implies #[trigger] parts[i] == ".."@ by {
            if i > 0 {
                assert(parts[i] == parts.drop_first()[i - 1]);
            }
        }
    }
}

/// A path with fewer leading `..` is shorter.
pub proof fn law_fewer_parents_shorten(path: Seq<char>, levels: nat)
    requires
        1 <= levels <= proposal::leading_parents(segments::segments(path)),
    ensures
        proposal::as_relative_path(
            proposal::fewer_parents(segments::segments(path), levels),
        ).len() < path.len(),
{
    normalize::lemma_literals();
    let parts = segments::segments(path);
    let leading = proposal::leading_parents(parts);
    lemma_leading_parents(parts);
    segments::law_join_undoes_segments(path);
    let climb = parts.take(leading as int);
    let rest = parts.skip(leading as int);
    let fewer = proposal::fewer_parents(parts, levels);
    let shorter_climb = Seq::new((leading - levels) as nat, |i: int| ".."@);
    normalize_laws::lemma_weight_of_join(parts);
    assert(parts =~= climb + rest);
    normalize_laws::lemma_weight_of_concat(climb, rest);
    assert forall|i: int| 0 <= i < climb.len() implies (#[trigger] climb[i]).len() == 2 by {
        assert(climb[i] == parts[i]);
    }
    normalize_laws::lemma_weight_of_repeated(climb, 2);
    normalize_laws::lemma_weight_of_repeated(shorter_climb, 2);
    let shorter_rest = if leading + levels <= parts.len() {
        parts.skip((leading + levels) as int)
    } else {
        Seq::empty()
    };
    normalize_laws::lemma_weight_of_concat(shorter_climb, shorter_rest);
    if leading + levels <= parts.len() {
        assert(rest =~= rest.take(levels as int) + shorter_rest);
        normalize_laws::lemma_weight_of_concat(rest.take(levels as int), shorter_rest);
    } else {
        normalize_laws::lemma_weight_of_repeated(shorter_rest, 2);
    }
    assert(fewer =~= shorter_climb + shorter_rest);
    assert(leading * (2nat + 1) == 3 * leading) by (nonlinear_arith);
    assert((leading - levels) * (2nat + 1) == 3 * (leading - levels)) by (nonlinear_arith);
    if fewer.len() > 0 {
        normalize_laws::lemma_weight_of_join(fewer);
    }
}

proof fn lemma_shorter_climb_shortens(
    path: Seq<char>,
    levels: nat,
    target: PathView,
    record: RecordView,
)
    requires
        levels >= 1,
    ensures
        proposal::shorter_climb(segments::segments(path), levels, target, record) matches Some(
            shorter,
        ) ==> shorter.len() < path.len() && record.loaded(shorter) == Some(target)
            && "."@.is_prefix_of(shorter),
    decreases proposal::leading_parents(segments::segments(path)) + 1 - levels,
{
    let parts = segments::segments(path);
    if levels <= proposal::leading_parents(parts) {
        law_fewer_parents_shorten(path, levels);
        lemma_relative_path_begins_with_dot(proposal::fewer_parents(parts, levels));
        lemma_shorter_climb_shortens(path, levels + 1, target, record);
    }
}

proof fn lemma_relative_path_begins_with_dot(parts: Seq<Seq<char>>)
    ensures
        "."@.is_prefix_of(proposal::as_relative_path(parts)),
{
    normalize::lemma_literals();
    let path = proposal::as_relative_path(parts);
    if ".."@.is_prefix_of(path) {
        assert(path[0] == path.subrange(0, 2)[0]);
    }
    assert(path.subrange(0, 1) =~= "."@);
}

/// A name behind `./` is in a directory that is `.` or begins with `./`.
proof fn lemma_index_directory_behind_dot_slash(path: Seq<char>)
    requires
        "./"@.is_prefix_of(path),
        proposal::index_directory(path) is Some,
    ensures
        ({
            let directory = proposal::index_directory(path)->0;
            directory == "."@ || "./"@.is_prefix_of(directory)
        }),
{
    normalize::lemma_literals();
    lemma_index_directory(path);
    let (parent, name) = segments::parent_and_name(path)->0;
    assert(path[0] == path.subrange(0, 2)[0] && path[1] == path.subrange(0, 2)[1]);
    if parent.len() > 1 {
        assert(parent.subrange(0, 2) =~= "./"@);
    } else if parent.len() == 1 {
        assert(parent =~= "."@);
    }
}

/// A single dot is accepted, whatever is known.
pub proof fn law_single_dot_is_accepted(
    no_useless_index: bool,
    current_file: PathView,
    record: RecordView,
)
    ensures
        proposal::proposal(no_useless_index, "."@, current_file, record) is None,
{
}

/// What the rule proposes differs from the import path.
pub proof fn law_proposal_differs_from_the_import_path(
    no_useless_index: bool,
    import_path: Seq<char>,
    current_file: PathView,
    record: RecordView,
)
    ensures
        proposal::proposal(no_useless_index, import_path, current_file, record) != Some(
            import_path,
        ),
{
    let proposed = proposal::proposal(no_useless_index, import_path, current_file, record);
    let normal = normalize::normalized(import_path);
    if import_path == "."@ {
        law_single_dot_is_accepted(no_useless_index, current_file, record);
    } else if proposal::normal_proposal(no_useless_index, import_path, record) is Some {
        law_removing_an_index_shortens(normal, record);
        assert(import_path.len() > 0) by {
            normalize::lemma_literals();
        }
        normalize_laws::law_normal_form_is_no_longer(import_path);
        assert(proposed != Some(import_path));
    } else if no_useless_index && proposal::without_index(import_path, record) is Some {
        law_removing_an_index_shortens(import_path, record);
        assert(proposed != Some(import_path));
    } else if !"./"@.is_prefix_of(import_path) && record.loaded(import_path) is Some {
        let target = record.loaded(import_path)->0;
        if target == record.resolved_absolute_path {
            if proposal::own_name(import_path, current_file) is Some {
                let name = proposal::own_name(import_path, current_file)->0;
                lemma_own_name_begins_with_dot_slash(import_path, current_file);
                if no_useless_index && proposal::without_index(name, record) is Some {
                    if proposal::index_directory(name) is None {
                        law_bare_index_is_an_index(name);
                    }
                    lemma_index_directory_behind_dot_slash(name);
                    let directory = proposal::index_directory(name)->0;
                    assert("./"@.is_prefix_of(directory + "/"@)) by {
                        normalize::lemma_literals();
                        if directory.len() >= 2 {
                            assert((directory + "/"@).subrange(0, 2) =~= directory.subrange(0, 2));
                        } else {
                            assert((directory + "/"@).subrange(0, 2) =~= "./"@);
                        }
                    }
                }
            }
        } else {
            lemma_shorter_climb_shortens(import_path, 1, target, record);
            match proposal::shorter_climb(segments::segments(import_path), 1, target, record) {
                Some(path) => {
                    law_removing_an_index_shortens(path, record);
                },
                None => {},
            }
            assert(proposed != Some(import_path));
        }
    }
}

proof fn lemma_own_name_begins_with_dot_slash(import_path: Seq<char>, current_file: PathView)
    ensures
        proposal::own_name(import_path, current_file) matches Some(name) ==> "./"@.is_prefix_of(
            name,
        ),
{
    normalize::lemma_literals();
    match proposal::own_name(import_path, current_file) {
        Some(name) => {
            assert(name.subrange(0, 2) =~= "./"@);
        },
        None => {},
    }
}

/// A file names itself in a way that resolves to another module, and the rule proposes that name.
pub open spec fn own_name_leads_astray(
    import_path: Seq<char>,
    current_file: PathView,
    record: RecordView,
) -> bool {
    &&& import_path != "."@
    &&& proposal::normal_proposal(false, import_path, record) is None
    &&& !"./"@.is_prefix_of(import_path)
    &&& record.loaded(import_path) == Some(record.resolved_absolute_path)
    &&& proposal::own_name(import_path, current_file) matches Some(name)
        && proposal::resolve_apart(import_path, name, record)
}

/// As long as index files are left alone, the proposal and the import path resolve to the same
/// module, where both resolve. The one exception is a module that imports itself and whose name
/// with `./` before it resolves to another module.
pub proof fn law_proposal_keeps_the_module(
    import_path: Seq<char>,
    current_file: PathView,
    record: RecordView,
)
    requires
        !own_name_leads_astray(import_path, current_file, record),
    ensures
        proposal::proposal(false, import_path, current_file, record) matches Some(proposed)
            ==> !proposal::resolve_apart(import_path, proposed, record),
{
    law_normal_proposal_keeps_the_module(false, import_path, record);
    if record.loaded(import_path) is Some {
        lemma_shorter_climb_shortens(import_path, 1, record.loaded(import_path)->0, record);
    }
}

/// Of an import path that does not resolve, nothing but its normal form is proposed.
pub proof fn law_unresolved_import_is_only_normalized(
    no_useless_index: bool,
    import_path: Seq<char>,
    current_file: PathView,
    record: RecordView,
)
    requires
        record.loaded(import_path) is None,
    ensures
        proposal::proposal(no_useless_index, import_path, current_file, record)
            == proposal::normal_proposal(no_useless_index, import_path, record),
{
    normalize_laws::lemma_normalized_of_dots();
}

/// A path that begins with `./` and shows no redundant segment is accepted, unless the rule looks
/// for index files and the path ends in one.
pub proof fn law_plain_dot_slash_path_is_accepted(
    no_useless_index: bool,
    import_path: Seq<char>,
    current_file: PathView,
    record: RecordView,
)
    requires
        "./"@.is_prefix_of(import_path),
        !normalize::shows_redundant_segment(import_path),
    ensures
        proposal::proposal(no_useless_index, import_path, current_file, record) == (
        if no_useless_index {
            proposal::without_index(import_path, record)
        } else {
            None
        }),
{
    normalize::lemma_literals();
}

/// The path begins with `./` or `../`, or is `.` or `..`.
pub open spec fn is_relative(path: Seq<char>) -> bool {
    let first = segments::segments(path)[0];
    first == "."@ || first == ".."@
}

/// A first `..` is never resolved away.
proof fn lemma_resolve_keeps_first_parent(parts: Seq<Seq<char>>)
    requires
        parts.len() > 0,
        parts[0] == ".."@,
    ensures
        normalize::resolve(parts).len() > 0,
        normalize::resolve(parts)[0] == ".."@,
    decreases parts.len(),
{
    normalize::lemma_literals();
    let before = parts.drop_last();
    if before.len() > 0 {
        assert(before[0] == parts[0]);
        lemma_resolve_keeps_first_parent(before);
        let kept = normalize::resolve(before);
        if kept.len() == 1 {
            assert(kept.last() == kept[0]);
        }
    } else {
        assert(parts.last() == ".."@);
        assert(".."@.len() == 2 && "."@.len() == 1 && ""@.len() == 0);
        assert(normalize::resolve(before).len() == 0);
    }
}

/// The normal form of a relative path is a relative path.
pub proof fn law_normal_form_stays_relative(path: Seq<char>)
    requires
        is_relative(path),
    ensures
        is_relative(normalize::normalized(path)),
{
    let parts = segments::segments(path);
    let kept = normalize::resolve(parts);
    segments::lemma_segments_exist(path);
    normalize_laws::lemma_normalized_of_dots();
    normalize_laws::lemma_segments_of_normalized(path);
    if parts[0] == ".."@ {
        lemma_resolve_keeps_first_parent(parts);
    } else if parts.len() == 1 {
        assert(parts =~= seq!["."@]);
        assert(kept.len() == 0);
    } else {
        assert("./"@.is_prefix_of(path)) by {
            normalize::lemma_literals();
            segments::law_join_undoes_segments(path);
            assert(parts =~= seq!["."@] + parts.skip(1));
            segments::lemma_join_concat(seq!["."@], parts.skip(1));
            assert(path.subrange(0, 2) =~= "./"@);
        }
        if kept.len() > 0 && kept[0] != ".."@ {
            assert(normalize::normalized(path) == "./"@ + segments::join(kept));
            assert(normalize::normalized(path).len() != segments::join(kept).len()) by {
                normalize::lemma_literals();
            }
        }
    }
}

proof fn lemma_index_removed_begins_with_dot(
    no_useless_index: bool,
    path: Seq<char>,
    record: RecordView,
)
    requires
        "."@.is_prefix_of(path),
    ensures
        "."@.is_prefix_of(proposal::index_removed(no_useless_index, path, record)),
{
    normalize::lemma_literals();
    let shorter = proposal::index_removed(no_useless_index, path, record);
    assert(path[0] == path.subrange(0, 1)[0]);
    if shorter != path {
        if proposal::index_directory(path) is None {
            law_bare_index_is_an_index(path);
        }
        lemma_index_directory(path);
        assert(shorter.subrange(0, 1) =~= "."@);
    }
}

/// What the rule proposes in place of an import path that begins with a dot begins with a dot,
/// too. The one exception is a path such as `.a/../b`, whose normal form does not.
pub proof fn law_proposal_begins_with_dot(
    no_useless_index: bool,
    import_path: Seq<char>,
    current_file: PathView,
    record: RecordView,
)
    requires
        "."@.is_prefix_of(import_path),
        proposal::normal_proposal(no_useless_index, import_path, record) is Some
            ==> "."@.is_prefix_of(normalize::normalized(import_path)),
    ensures
        proposal::proposal(no_useless_index, import_path, current_file, record) matches Some(
            proposed,
        ) ==> "."@.is_prefix_of(proposed),
{
    normalize::lemma_literals();
    let normal = normalize::normalized(import_path);
    if "."@.is_prefix_of(normal) {
        lemma_index_removed_begins_with_dot(no_useless_index, normal, record);
    }
    lemma_index_removed_begins_with_dot(true, import_path, record);
    match proposal::own_name(import_path, current_file) {
        Some(name) => {
            lemma_own_name_begins_with_dot_slash(import_path, current_file);
            assert(name[0] == name.subrange(0, 2)[0]);
            assert(name.subrange(0, 1) =~= "."@);
            lemma_index_removed_begins_with_dot(no_useless_index, name, record);
        },
        None => {},
    }
    if record.loaded(import_path) is Some {
        let target = record.loaded(import_path)->0;
        lemma_shorter_climb_shortens(import_path, 1, target, record);
        match proposal::shorter_climb(segments::segments(import_path), 1, target, record) {
            Some(path) => {
                lemma_index_removed_begins_with_dot(no_useless_index, path, record);
            },
            None => {},
        }
    }
}

} // verus!
