//! What holds of normalization as a whole.
use crate::normalize;
use crate::segments;
use crate::text;
use vstd::prelude::*;

verus! {

/// Resolved segments are some leading `..`, then names only.
pub proof fn law_resolve_is_canonical(parts: Seq<Seq<char>>)
    ensures
        normalize::canonical(normalize::resolve(parts)),
    decreases parts.len(),
{
    if parts.len() > 0 {
        law_resolve_is_canonical(parts.drop_last());
        let kept = normalize::resolve(parts.drop_last());
        let after = normalize::resolve(parts);
        assert forall|i: int, j: int|
            0 <= i <= j < after.len() && #[trigger] after[j] == ".."@ implies #[trigger] after[i]
            == ".."@ by {
            if j < kept.len() {
                assert(after[j] == kept[j] && after[i] == kept[i]);
            } else if i < kept.len() {
                assert(after[i] == kept[i]);
                assert(kept[kept.len() - 1] == ".."@);
            }
        }
        assert forall|i: int| 0 <= i < after.len() implies #[trigger] after[i] != ""@ && after[i]
            != "."@ by {
            if i < kept.len() {
                assert(after[i] == kept[i]);
            }
        }
    }
}

/// Resolving leaves canonical segments as they are.
pub proof fn law_resolve_keeps_canonical(parts: Seq<Seq<char>>)
    requires
        normalize::canonical(parts),
    ensures
        normalize::resolve(parts) == parts,
    decreases parts.len(),
{
    if parts.len() > 0 {
        let before = parts.drop_last();
        assert forall|i: int| 0 <= i < before.len() implies #[trigger] before[i] != ""@
            && before[i] != "."@ by {
            assert(before[i] == parts[i]);
        }
        assert forall|i: int, j: int|
            0 <= i <= j < before.len() && #[trigger] before[j] == ".."@ implies #[trigger] before[i]
            == ".."@ by {
            assert(before[j] == parts[j] && before[i] == parts[i]);
        }
        law_resolve_keeps_canonical(before);
        assert(parts[parts.len() - 1] == parts.last());
        if before.len() > 0 {
            assert(before.last() == parts[before.len() - 1]);
        }
        assert(before.push(parts.last()) =~= parts);
    }
}

/// Resolving makes no new segments, so segments without a slash stay without one.
proof fn lemma_resolve_is_slash_free(parts: Seq<Seq<char>>)
    requires
        segments::slash_free(parts),
    ensures
        segments::slash_free(normalize::resolve(parts)),
    decreases parts.len(),
{
    if parts.len() > 0 {
        let before = parts.drop_last();
        assert forall|i: int| 0 <= i < before.len() implies !(#[trigger] before[i]).contains(
            '/',
        ) by {
            assert(before[i] == parts[i]);
        }
        lemma_resolve_is_slash_free(before);
        let kept = normalize::resolve(before);
        let after = normalize::resolve(parts);
        assert(parts[parts.len() - 1] == parts.last());
        assert forall|i: int| 0 <= i < after.len() implies !(#[trigger] after[i]).contains('/') by {
            if i < kept.len() {
                assert(after[i] == kept[i]);
            }
        }
    }
}

/// A leading `.` makes no difference to what is resolved.
proof fn lemma_resolve_leading_dot(parts: Seq<Seq<char>>)
    ensures
        normalize::resolve(seq!["."@] + parts) == normalize::resolve(parts),
    decreases parts.len(),
{
    let dotted = seq!["."@] + parts;
    if parts.len() == 0 {
        assert(dotted.drop_last() =~= parts);
        assert(dotted.last() == "."@);
    } else {
        lemma_resolve_leading_dot(parts.drop_last());
        assert(dotted.drop_last() =~= seq!["."@] + parts.drop_last());
        assert(dotted.last() == parts.last());
    }
}

/// A path that begins with `./` has `.` as its first segment.
pub(crate) proof fn lemma_segments_behind_dot_slash(path: Seq<char>)
    requires
        "./"@.is_prefix_of(path),
    ensures
        path == "./"@ + path.skip(2),
        segments::segments(path) == seq!["."@] + segments::segments(path.skip(2)),
{
    normalize::lemma_literals();
    let rest = path.skip(2);
    assert(path =~= "./"@ + rest) by {
        assert(path.subrange(0, 2) =~= "./"@);
        assert(path[0] == path.subrange(0, 2)[0]);
        assert(path[1] == path.subrange(0, 2)[1]);
    }
    assert("./"@ + rest =~= "."@ + seq!['/'] + rest);
    segments::lemma_segments_around_slash("."@, rest);
    assert(segments::segments("."@) =~= seq!["."@]) by {
        assert("."@.drop_last() =~= Seq::<char>::empty());
        assert(segments::segments(Seq::<char>::empty()) =~= seq![Seq::<char>::empty()]);
        assert(Seq::<char>::empty().push('.') =~= "."@);
    }
}

/// A path of canonical segments does not begin with `./`.
proof fn lemma_canonical_path_has_no_leading_dot(kept: Seq<Seq<char>>)
    requires
        kept.len() > 0,
        normalize::canonical(kept),
        segments::slash_free(kept),
    ensures
        !"./"@.is_prefix_of(segments::join(kept)),
        segments::segments(segments::join(kept)) == kept,
        normalize::resolve(segments::segments(segments::join(kept))) == kept,
{
    segments::law_segments_undo_join(kept);
    law_resolve_keeps_canonical(kept);
    if "./"@.is_prefix_of(segments::join(kept)) {
        lemma_segments_behind_dot_slash(segments::join(kept));
        assert(kept[0] == "."@);
    }
}

/// What the segments of a normal form are.
pub(crate) proof fn lemma_segments_of_normalized(path: Seq<char>)
    ensures
        ({
            let kept = normalize::resolve(segments::segments(path));
            let normal = normalize::normalized(path);
            &&& normalize::canonical(kept)
            &&& segments::slash_free(kept)
            &&& kept.len() == 0 ==> normal == "."@
            &&& kept.len() > 0 && normal == segments::join(kept) ==> segments::segments(normal)
                == kept
            &&& kept.len() > 0 && normal != segments::join(kept) ==> {
                &&& normal == "./"@ + segments::join(kept)
                &&& normal.skip(2) == segments::join(kept)
                &&& "./"@.is_prefix_of(normal)
                &&& kept[0] != ".."@
                &&& segments::segments(normal) == seq!["."@] + kept
            }
        }),
{
    normalize::lemma_literals();
    let parts = segments::segments(path);
    let kept = normalize::resolve(parts);
    let normal = normalize::normalized(path);
    segments::law_segments_are_slash_free(path);
    lemma_resolve_is_slash_free(parts);
    law_resolve_is_canonical(parts);
    if kept.len() > 0 {
        lemma_canonical_path_has_no_leading_dot(kept);
        if normal != segments::join(kept) {
            assert(normal.skip(2) =~= segments::join(kept));
            assert(normal.subrange(0, 2) =~= "./"@);
            lemma_segments_behind_dot_slash(normal);
        }
    }
}

pub(crate) proof fn lemma_normalized_of_dots()
    ensures
        segments::segments("."@) == seq!["."@],
        segments::segments(".."@) == seq![".."@],
        normalize::resolve(segments::segments("."@)) == Seq::<Seq<char>>::empty(),
        normalize::resolve(segments::segments(".."@)) == seq![".."@],
        normalize::normalized("."@) == "."@,
        normalize::normalized(".."@) == ".."@,
{
    normalize::lemma_literals();
    let none: Seq<Seq<char>> = Seq::empty();
    assert forall|part: Seq<char>| !part.contains('/') implies #[trigger] segments::segments(part)
        == seq![part] by {
        assert(segments::join(seq![part]) == part);
        assert(segments::slash_free(seq![part]));
        segments::law_segments_undo_join(seq![part]);
    }
    assert(!"."@.contains('/') && !".."@.contains('/'));
    assert(seq!["."@].drop_last() =~= none);
    assert(seq![".."@].drop_last() =~= none);
    assert(none.push(".."@) =~= seq![".."@]);
    assert(normalize::resolve(none) =~= none);
    assert(segments::join(seq![".."@]) == ".."@);
    assert(!".."@.is_prefix_of("."@));
    assert(!"./"@.is_prefix_of(".."@)) by {
        assert(".."@.subrange(0, 2) =~= ".."@);
        assert(".."@[1] != "./"@[1]);
    }
}

/// Normalizing a normal form changes nothing.
pub proof fn law_normalization_is_idempotent(path: Seq<char>)
    ensures
        normalize::normalized(normalize::normalized(path)) == normalize::normalized(path),
{
    let kept = normalize::resolve(segments::segments(path));
    let normal = normalize::normalized(path);
    lemma_normalized_of_dots();
    lemma_segments_of_normalized(path);
    if kept.len() > 0 {
        law_resolve_keeps_canonical(kept);
        if normal == segments::join(kept) {
            lemma_canonical_path_has_no_leading_dot(kept);
        } else {
            lemma_resolve_leading_dot(kept);
        }
    }
}

/// A normal form holds no redundant segment: behind its first segment there is no empty one and
/// no `.`, and each `..` in it has only `..` before it.
pub proof fn law_normal_form_has_no_redundant_segment(path: Seq<char>)
    ensures
        ({
            let parts = segments::segments(normalize::normalized(path));
            &&& parts[0] != ""@
            &&& forall|i: int|
                1 <= i < parts.len() ==> #[trigger] parts[i] != ""@ && parts[i] != "."@
            &&& forall|i: int, j: int|
                0 <= i <= j < parts.len() && #[trigger] parts[j] == ".."@ ==> #[trigger] parts[i]
                    == ".."@
        }),
{
    normalize::lemma_literals();
    lemma_normalized_of_dots();
    lemma_segments_of_normalized(path);
    let kept = normalize::resolve(segments::segments(path));
    let normal = normalize::normalized(path);
    let parts = segments::segments(normal);
    if kept.len() > 0 && normal != segments::join(kept) {
        assert forall|i: int, j: int|
            0 <= i <= j < parts.len() && #[trigger] parts[j] == ".."@ implies #[trigger] parts[i]
            == ".."@ by {
            // A leading `..` would have kept the `./` away.
            assert(parts[j] == kept[j - 1]);
            assert(kept[0] == ".."@);
        }
        assert forall|i: int| 1 <= i < parts.len() implies #[trigger] parts[i] != ""@ && parts[i]
            != "."@ by {
            assert(parts[i] == kept[i - 1]);
        }
    }
}

/// The normal form of a path leads to the same place as the path.
pub proof fn law_normalization_keeps_the_place(path: Seq<char>)
    ensures
        normalize::resolve(segments::segments(normalize::normalized(path))) == normalize::resolve(
            segments::segments(path),
        ),
{
    let kept = normalize::resolve(segments::segments(path));
    lemma_normalized_of_dots();
    lemma_segments_of_normalized(path);
    law_resolve_keeps_canonical(kept);
    lemma_resolve_leading_dot(kept);
    if kept.len() == 0 {
        assert(kept =~= Seq::empty());
    }
}

/// The segment between a slash and the next one, or the end, is one of the path's segments.
proof fn lemma_segment_behind_slash(head: Seq<char>, part: Seq<char>, tail: Option<Seq<char>>)
    requires
        !part.contains('/'),
    ensures
        ({
            let path = match tail {
                Some(rest) => head + seq!['/'] + (part + seq!['/'] + rest),
                None => head + seq!['/'] + part,
            };
            let i = segments::segments(head).len() as int;
            &&& 1 <= i < segments::segments(path).len()
            &&& segments::segments(path)[i] == part
        }),
{
    segments::lemma_segments_exist(head);
    assert(segments::join(seq![part]) == part);
    assert(segments::slash_free(seq![part]));
    segments::law_segments_undo_join(seq![part]);
    match tail {
        Some(rest) => {
            segments::lemma_segments_around_slash(head, part + seq!['/'] + rest);
            segments::lemma_segments_around_slash(part, rest);
        },
        None => {
            segments::lemma_segments_around_slash(head, part);
        },
    }
}

/// A slash, a segment and the end of the path.
proof fn lemma_segment_at_end(path: Seq<char>, part: Seq<char>)
    requires
        !part.contains('/'),
        (seq!['/'] + part).is_suffix_of(path),
    ensures
        exists|i: int|
            1 <= i < segments::segments(path).len() && #[trigger] segments::segments(path)[i]
                == part,
{
    let pattern = seq!['/'] + part;
    let head = path.take(path.len() - pattern.len());
    assert(path =~= head + pattern);
    assert(head + pattern =~= head + seq!['/'] + part);
    lemma_segment_behind_slash(head, part, None);
    assert(segments::segments(path)[segments::segments(head).len() as int] == part);
}

/// A segment between two slashes.
proof fn lemma_segment_inside(path: Seq<char>, part: Seq<char>)
    requires
        !part.contains('/'),
        text::occurs_in(seq!['/'] + part + seq!['/'], path),
    ensures
        exists|i: int|
            1 <= i < segments::segments(path).len() && #[trigger] segments::segments(path)[i]
                == part,
{
    let pattern = seq!['/'] + part + seq!['/'];
    let at = choose|i: int| text::occurs_at(pattern, path, i);
    let head = path.take(at);
    let rest = path.skip(at + pattern.len());
    assert(path =~= head + path.subrange(at, at + pattern.len()) + rest);
    assert(path =~= head + seq!['/'] + (part + seq!['/'] + rest));
    lemma_segment_behind_slash(head, part, Some(rest));
    assert(segments::segments(path)[segments::segments(head).len() as int] == part);
}

/// A segment behind the first stands between a slash and the next one, or the end.
#[verifier::rlimit(40)]
#[verifier::spinoff_prover]
proof fn lemma_segment_shows(path: Seq<char>, i: int)
    requires
        1 <= i < segments::segments(path).len(),
    ensures
        ({
            let part = segments::segments(path)[i];
            if i == segments::segments(path).len() - 1 {
                (seq!['/'] + part).is_suffix_of(path)
            } else {
                text::occurs_in(seq!['/'] + part + seq!['/'], path)
            }
        }),
{
    let parts = segments::segments(path);
    let part = parts[i];
    let head = segments::join(parts.take(i));
    segments::law_join_undoes_segments(path);
    if i == parts.len() - 1 {
        assert(parts.drop_last() =~= parts.take(i));
        let pattern = seq!['/'] + part;
        assert(path =~= head + pattern);
        assert(path.subrange(path.len() - pattern.len(), path.len() as int) =~= pattern);
    } else {
        let rest = segments::join(parts.skip(i + 1));
        let pattern = seq!['/'] + part + seq!['/'];
        assert(parts =~= parts.take(i + 1) + parts.skip(i + 1));
        segments::lemma_join_concat(parts.take(i + 1), parts.skip(i + 1));
        assert(parts.take(i + 1).drop_last() =~= parts.take(i));
        assert(path =~= head + pattern + rest);
        assert(path.subrange(head.len() as int, (head.len() + pattern.len()) as int) =~= pattern);
        assert(text::occurs_at(pattern, path, head.len() as int));
    }
}

proof fn lemma_patterns()
    ensures
        forall|part: Seq<char>| #[trigger] normalize::is_dot_or_empty(part) ==> !part.contains('/'),
        seq!['/'] + ""@ == "/"@,
        seq!['/'] + "."@ == "/."@,
        seq!['/'] + ".."@ == "/.."@,
        seq!['/'] + ""@ + seq!['/'] == "//"@,
        seq!['/'] + "."@ + seq!['/'] == "/./"@,
        seq!['/'] + ".."@ + seq!['/'] == "/../"@,
{
    normalize::lemma_literals();
    assert(seq!['/'] + ""@ =~= "/"@);
    assert(seq!['/'] + "."@ =~= "/."@);
    assert(seq!['/'] + ".."@ =~= "/.."@);
    assert(seq!['/'] + ""@ + seq!['/'] =~= "//"@);
    assert(seq!['/'] + "."@ + seq!['/'] =~= "/./"@);
    assert(seq!['/'] + ".."@ + seq!['/'] =~= "/../"@);
}

/// A path may need normalization exactly if a segment behind its first is empty, `.` or `..`.
pub proof fn law_need_is_a_redundant_segment(path: Seq<char>)
    ensures
        normalize::shows_redundant_segment(path) <==> exists|i: int|
            1 <= i < segments::segments(path).len() && normalize::is_dot_or_empty(
                #[trigger] segments::segments(path)[i],
            ),
{
    lemma_patterns();
    let parts = segments::segments(path);
    if normalize::shows_redundant_segment(path) {
        assert(normalize::is_dot_or_empty(""@));
        assert(normalize::is_dot_or_empty("."@));
        assert(normalize::is_dot_or_empty(".."@));
        if "/"@.is_suffix_of(path) {
            lemma_segment_at_end(path, ""@);
        } else if "/."@.is_suffix_of(path) {
            lemma_segment_at_end(path, "."@);
        } else if "/.."@.is_suffix_of(path) {
            lemma_segment_at_end(path, ".."@);
        } else if text::occurs_in("//"@, path) {
            lemma_segment_inside(path, ""@);
        } else if text::occurs_in("/./"@, path) {
            lemma_segment_inside(path, "."@);
        } else {
            lemma_segment_inside(path, ".."@);
        }
    }
    if exists|i: int| 1 <= i < parts.len() && normalize::is_dot_or_empty(#[trigger] parts[i]) {
        let i = choose|i: int|
            1 <= i < parts.len() && normalize::is_dot_or_empty(#[trigger] parts[i]);
        lemma_segment_shows(path, i);
    }
}

/// No segment behind the first is empty, `.` or `..`.
spec fn only_names_behind_first(parts: Seq<Seq<char>>) -> bool {
    forall|i: int| 1 <= i < parts.len() ==> !normalize::is_dot_or_empty(#[trigger] parts[i])
}

proof fn lemma_names_are_canonical(parts: Seq<Seq<char>>)
    requires
        parts.len() > 0,
        parts[0] != ""@,
        parts[0] != "."@,
        only_names_behind_first(parts),
    ensures
        normalize::canonical(parts),
{
}

/// `./` and names.
proof fn lemma_dot_slash_names_are_normal(path: Seq<char>)
    requires
        segments::segments(path).len() > 1,
        segments::segments(path)[0] == "."@,
        only_names_behind_first(segments::segments(path)),
    ensures
        normalize::normalized(path) == path,
{
    let parts = segments::segments(path);
    let rest = parts.skip(1);
    let joined = segments::join(rest);
    assert(parts =~= seq!["."@] + rest);
    assert(normalize::resolve(parts) == rest) by {
        assert forall|i: int| 0 <= i < rest.len() implies !normalize::is_dot_or_empty(
            #[trigger] rest[i],
        ) by {
            assert(rest[i] == parts[i + 1]);
        }
        assert(normalize::is_dot_or_empty(""@) && normalize::is_dot_or_empty("."@));
        lemma_names_are_canonical(rest);
        law_resolve_keeps_canonical(rest);
        lemma_resolve_leading_dot(rest);
    }
    assert(path == "./"@ + joined) by {
        normalize::lemma_literals();
        segments::law_join_undoes_segments(path);
        segments::lemma_join_concat(seq!["."@], rest);
        assert(segments::join(seq!["."@]) == "."@);
        assert("."@ + seq!['/'] + joined =~= "./"@ + joined);
    }
    assert("./"@.is_prefix_of(path)) by {
        normalize::lemma_literals();
        assert(path.subrange(0, 2) =~= "./"@);
    }
    assert(rest[0] != ".."@) by {
        assert(rest[0] == parts[1]);
        assert(normalize::is_dot_or_empty(".."@));
    }
}

/// A first segment that is neither empty nor `.`, and names behind it.
proof fn lemma_bare_names_are_normal(path: Seq<char>)
    requires
        segments::segments(path)[0] != ""@,
        segments::segments(path)[0] != "."@,
        only_names_behind_first(segments::segments(path)),
    ensures
        normalize::normalized(path) == path,
{
    let parts = segments::segments(path);
    segments::lemma_segments_exist(path);
    segments::law_join_undoes_segments(path);
    segments::law_segments_are_slash_free(path);
    lemma_names_are_canonical(parts);
    law_resolve_keeps_canonical(parts);
    lemma_canonical_path_has_no_leading_dot(parts);
}

/// A first segment is empty only in the empty path and behind a leading slash.
proof fn lemma_first_segment_is_not_empty(path: Seq<char>)
    requires
        path.len() > 0,
        path[0] != '/',
    ensures
        segments::segments(path)[0] != ""@,
{
    normalize::lemma_literals();
    let parts = segments::segments(path);
    segments::lemma_segments_exist(path);
    segments::law_join_undoes_segments(path);
    if parts[0] == ""@ && parts.len() > 1 {
        assert(parts =~= seq![""@] + parts.skip(1));
        segments::lemma_join_concat(seq![""@], parts.skip(1));
        assert(path =~= seq!['/'] + segments::join(parts.skip(1)));
    }
}

/// A path that shows no redundant segment is its own normal form. Two kinds of path are excepted:
/// the empty path, and paths that begin with a slash.
pub proof fn law_no_need_means_no_change(path: Seq<char>)
    requires
        path.len() > 0,
        path[0] != '/',
        !normalize::shows_redundant_segment(path),
    ensures
        normalize::normalized(path) == path,
{
    let parts = segments::segments(path);
    assert(only_names_behind_first(parts)) by {
        law_need_is_a_redundant_segment(path);
    }
    segments::lemma_segments_exist(path);
    lemma_first_segment_is_not_empty(path);
    if parts[0] != "."@ {
        lemma_bare_names_are_normal(path);
    } else if parts.len() > 1 {
        lemma_dot_slash_names_are_normal(path);
    } else {
        segments::law_join_undoes_segments(path);
        lemma_normalized_of_dots();
    }
}

/// The characters of the segments and a slash for each.
pub(crate) closed spec fn weight(parts: Seq<Seq<char>>) -> nat
    decreases parts.len(),
{
    if parts.len() == 0 {
        0
    } else {
        weight(parts.drop_last()) + parts.last().len() + 1
    }
}

pub(crate) proof fn lemma_weight_of_join(parts: Seq<Seq<char>>)
    requires
        parts.len() > 0,
    ensures
        segments::join(parts).len() + 1 == weight(parts),
    decreases parts.len(),
{
    if parts.len() > 1 {
        lemma_weight_of_join(parts.drop_last());
    } else {
        assert(parts.drop_last() =~= Seq::empty());
        assert(weight(parts.drop_last()) == 0);
    }
}

/// The weights of two lists add up.
pub(crate) proof fn lemma_weight_of_concat(left: Seq<Seq<char>>, right: Seq<Seq<char>>)
    ensures
        weight(left + right) == weight(left) + weight(right),
    decreases right.len(),
{
    if right.len() == 0 {
        assert(left + right =~= left);
    } else {
        lemma_weight_of_concat(left, right.drop_last());
        assert((left + right).drop_last() =~= left + right.drop_last());
    }
}

/// Segments of one length.
pub(crate) proof fn lemma_weight_of_repeated(parts: Seq<Seq<char>>, length: nat)
    requires
        forall|i: int| 0 <= i < parts.len() ==> (#[trigger] parts[i]).len() == length,
    ensures
        weight(parts) == parts.len() * (length + 1),
    decreases parts.len(),
{
    if parts.len() > 0 {
        assert(parts[parts.len() - 1].len() == length);
        lemma_weight_of_repeated(parts.drop_last(), length);
        assert((parts.len() - 1) * (length + 1) + (length + 1) == parts.len() * (length + 1))
            by (nonlinear_arith)
            requires
                parts.len() > 0,
        ;
    } else {
        assert(0 * (length + 1) == 0) by (nonlinear_arith);
    }
}

proof fn lemma_resolve_is_no_heavier(parts: Seq<Seq<char>>)
    ensures
        weight(normalize::resolve(parts)) <= weight(parts),
    decreases parts.len(),
{
    if parts.len() > 0 {
        lemma_resolve_is_no_heavier(parts.drop_last());
        let kept = normalize::resolve(parts.drop_last());
        assert(kept.push(parts.last()).drop_last() =~= kept);
    }
}

/// A normal form is no longer than the path. The one exception is the empty path, whose normal
/// form is `.`.
pub proof fn law_normal_form_is_no_longer(path: Seq<char>)
    requires
        path.len() > 0,
    ensures
        normalize::normalized(path).len() <= path.len(),
{
    normalize::lemma_literals();
    let parts = segments::segments(path);
    let kept = normalize::resolve(parts);
    segments::lemma_segments_exist(path);
    segments::law_join_undoes_segments(path);
    lemma_weight_of_join(parts);
    lemma_resolve_is_no_heavier(parts);
    if kept.len() > 0 {
        lemma_weight_of_join(kept);
        if "./"@.is_prefix_of(path) {
            lemma_segments_behind_dot_slash(path);
            let rest = segments::segments(path.skip(2));
            segments::lemma_segments_exist(path.skip(2));
            segments::law_join_undoes_segments(path.skip(2));
            lemma_resolve_leading_dot(rest);
            lemma_weight_of_join(rest);
            lemma_resolve_is_no_heavier(rest);
        }
    }
}

/// A segment that is a name: not empty, not `.` and not `..`.
pub open spec fn is_name(part: Seq<char>) -> bool {
    part != ""@ && part != "."@ && part != ".."@
}

/// What a name is, in characters.
pub proof fn law_names_are_what_the_dots_are_not(part: Seq<char>)
    ensures
        is_name(part) <==> part.len() > 0 && part != seq!['.'] && part != seq!['.', '.'],
        normalize::is_dot_or_empty(part) <==> !is_name(part),
{
    normalize::lemma_literals();
    if part.len() == 0 {
        assert(part =~= ""@);
    }
}

/// `..` takes the name directly before it away, and leaves what stands before that name. A name
/// that nothing takes away stays, behind all that stays before it.
pub proof fn law_parent_takes_the_name_before_it(parts: Seq<Seq<char>>, name: Seq<char>)
    requires
        is_name(name),
    ensures
        normalize::resolve(parts + seq![name]) == normalize::resolve(parts) + seq![name],
        normalize::resolve(parts + seq![name, ".."@]) == normalize::resolve(parts),
{
    normalize::lemma_literals();
    let named = parts + seq![name];
    let climbed = parts + seq![name, ".."@];
    let kept = normalize::resolve(parts);
    assert(named.drop_last() =~= parts);
    assert(climbed.drop_last() =~= named);
    assert(kept.push(name) =~= kept + seq![name]);
    assert((kept + seq![name]).drop_last() =~= kept);
    assert(".."@.len() == 2 && "."@.len() == 1 && ""@.len() == 0);
    assert(named.last() == name && climbed.last() == ".."@);
    assert(normalize::resolve(named) == kept + seq![name]);
    assert((kept + seq![name]).last() == name);
}

/// Segments may be resolved bit by bit.
pub proof fn law_resolving_goes_bit_by_bit(left: Seq<Seq<char>>, right: Seq<Seq<char>>)
    ensures
        normalize::resolve(left + right) == normalize::resolve(normalize::resolve(left) + right),
    decreases right.len(),
{
    let kept = normalize::resolve(left);
    if right.len() == 0 {
        assert(left + right =~= left);
        assert(kept + right =~= kept);
        law_resolve_is_canonical(left);
        law_resolve_keeps_canonical(kept);
    } else {
        law_resolving_goes_bit_by_bit(left, right.drop_last());
        assert((left + right).drop_last() =~= left + right.drop_last());
        assert((kept + right).drop_last() =~= kept + right.drop_last());
    }
}

/// An empty segment, a `.`, and a name with a `..` behind it make no difference, wherever they
/// stand.
pub proof fn law_redundant_segments_make_no_difference(
    left: Seq<Seq<char>>,
    name: Seq<char>,
    right: Seq<Seq<char>>,
)
    requires
        is_name(name),
    ensures
        normalize::resolve(left + seq![""@] + right) == normalize::resolve(left + right),
        normalize::resolve(left + seq!["."@] + right) == normalize::resolve(left + right),
        normalize::resolve(left + seq![name, ".."@] + right) == normalize::resolve(left + right),
{
    assert((left + seq![""@]).drop_last() =~= left);
    assert((left + seq!["."@]).drop_last() =~= left);
    law_parent_takes_the_name_before_it(left, name);
    law_resolving_goes_bit_by_bit(left, right);
    law_resolving_goes_bit_by_bit(left + seq![""@], right);
    law_resolving_goes_bit_by_bit(left + seq!["."@], right);
    law_resolving_goes_bit_by_bit(left + seq![name, ".."@], right);
}

/// Leading `..` and names behind them stay as they are.
pub proof fn law_leading_parents_and_names_stay(parents: nat, names: Seq<Seq<char>>)
    requires
        forall|i: int| 0 <= i < names.len() ==> is_name(#[trigger] names[i]),
    ensures
        normalize::resolve(Seq::new(parents, |i: int| ".."@) + names) == Seq::new(
            parents,
            |i: int| ".."@,
        ) + names,
{
    normalize::lemma_literals();
    assert(".."@.len() == 2 && "."@.len() == 1 && ""@.len() == 0);
    let climb = Seq::new(parents, |i: int| ".."@);
    let parts = climb + names;
    assert forall|i: int| 0 <= i < parts.len() implies #[trigger] parts[i] != ""@ && parts[i]
        != "."@ by {
        if i >= parents {
            assert(parts[i] == names[i - parents]);
        }
    }
    assert forall|i: int, j: int|
        0 <= i <= j < parts.len() && #[trigger] parts[j] == ".."@ implies #[trigger] parts[i]
        == ".."@ by {
        if j >= parents {
            assert(parts[j] == names[j - parents]);
        }
    }
    law_resolve_keeps_canonical(parts);
}

/// The normal form begins with `./` exactly if the path does and something other than a `..` is
/// left to follow it.
pub proof fn law_leading_dot_slash_goes_only_before_a_parent(path: Seq<char>)
    ensures
        ({
            let kept = normalize::resolve(segments::segments(path));
            "./"@.is_prefix_of(normalize::normalized(path)) <==> "./"@.is_prefix_of(path)
                && kept.len() > 0 && kept[0] != ".."@
        }),
{
    let kept = normalize::resolve(segments::segments(path));
    lemma_segments_of_normalized(path);
    if kept.len() == 0 {
        normalize::lemma_literals();
    } else {
        lemma_canonical_path_has_no_leading_dot(kept);
    }
}

/// Paths that begin alike and resolve alike have the same normal form.
proof fn lemma_normalized_alike(left: Seq<char>, right: Seq<char>)
    requires
        normalize::resolve(segments::segments(left)) == normalize::resolve(
            segments::segments(right),
        ),
        normalize::resolve(segments::segments(left)).len() > 0 ==> ("./"@.is_prefix_of(left)
            <==> "./"@.is_prefix_of(right)),
    ensures
        normalize::normalized(left) == normalize::normalized(right),
{
}

/// Whether a path begins with `./` shows up to its first slash.
proof fn lemma_leading_dot_slash_shows_early(head: Seq<char>, left: Seq<char>, right: Seq<char>)
    ensures
        "./"@.is_prefix_of(head + seq!['/'] + left) <==> "./"@.is_prefix_of(
            head + seq!['/'] + right,
        ),
        "./"@.is_prefix_of(head + seq!['/'] + left) <==> head == "."@ || "./"@.is_prefix_of(head),
{
    normalize::lemma_literals();
    let one = head + seq!['/'] + left;
    let two = head + seq!['/'] + right;
    if "./"@.is_prefix_of(one) {
        assert(one[0] == one.subrange(0, 2)[0] && one[1] == one.subrange(0, 2)[1]);
        assert(two.subrange(0, 2) =~= "./"@);
        if head.len() >= 2 {
            assert(head.subrange(0, 2) =~= "./"@);
        } else {
            assert(head =~= "."@);
        }
    }
    if "./"@.is_prefix_of(two) {
        assert(two[0] == two.subrange(0, 2)[0] && two[1] == two.subrange(0, 2)[1]);
        assert(one.subrange(0, 2) =~= "./"@);
    }
    if "./"@.is_prefix_of(head) {
        assert(head[0] == head.subrange(0, 2)[0] && head[1] == head.subrange(0, 2)[1]);
        assert(one.subrange(0, 2) =~= "./"@);
    }
    if head == "."@ {
        assert(one.subrange(0, 2) =~= "./"@);
    }
}

/// The segments of a path with a segment between two slashes.
proof fn lemma_segments_with_inner(head: Seq<char>, inner: Seq<char>, tail: Seq<char>)
    ensures
        segments::segments(head + seq!['/'] + (inner + seq!['/'] + tail)) == segments::segments(
            head,
        ) + segments::segments(inner) + segments::segments(tail),
{
    segments::lemma_segments_around_slash(head, inner + seq!['/'] + tail);
    segments::lemma_segments_around_slash(inner, tail);
    assert(segments::segments(head) + (segments::segments(inner) + segments::segments(tail))
        =~= segments::segments(head) + segments::segments(inner) + segments::segments(tail));
}

/// Inside a path, doubled slashes, `/./`, and a name with `/..` behind it are as good as one slash.
pub proof fn law_redundant_text_makes_no_difference(
    head: Seq<char>,
    name: Seq<char>,
    tail: Seq<char>,
)
    requires
        is_name(name),
        !name.contains('/'),
    ensures
        ({
            let plain = normalize::normalized(head + seq!['/'] + tail);
            &&& normalize::normalized(head + seq!['/'] + (""@ + seq!['/'] + tail)) == plain
            &&& normalize::normalized(head + seq!['/'] + ("."@ + seq!['/'] + tail)) == plain
            &&& normalize::normalized(
                head + seq!['/'] + (name + seq!['/'] + (".."@ + seq!['/'] + tail)),
            ) == plain
        }),
{
    let before = segments::segments(head);
    let behind = segments::segments(tail);
    let climb = ".."@ + seq!['/'] + tail;
    lemma_patterns();
    lemma_normalized_of_dots();
    assert(normalize::is_dot_or_empty(""@));
    segments::law_text_without_a_slash_is_one_segment(""@);
    segments::law_text_without_a_slash_is_one_segment(name);
    segments::lemma_segments_around_slash(head, tail);
    lemma_segments_with_inner(head, ""@, tail);
    lemma_segments_with_inner(head, "."@, tail);
    lemma_segments_with_inner(head, name, climb);
    segments::lemma_segments_around_slash(".."@, tail);
    assert(before + seq![name] + (seq![".."@] + behind) =~= before + seq![name, ".."@] + behind);
    law_redundant_segments_make_no_difference(before, name, behind);
    lemma_leading_dot_slash_shows_early(head, ""@ + seq!['/'] + tail, tail);
    lemma_leading_dot_slash_shows_early(head, "."@ + seq!['/'] + tail, tail);
    lemma_leading_dot_slash_shows_early(head, name + seq!['/'] + climb, tail);
    lemma_normalized_alike(head + seq!['/'] + (""@ + seq!['/'] + tail), head + seq!['/'] + tail);
    lemma_normalized_alike(head + seq!['/'] + ("."@ + seq!['/'] + tail), head + seq!['/'] + tail);
    lemma_normalized_alike(head + seq!['/'] + (name + seq!['/'] + climb), head + seq!['/'] + tail);
}

/// At the end of a path, a slash, `/.`, and a name with `/..` behind it are as good as nothing.
pub proof fn law_redundant_end_makes_no_difference(path: Seq<char>, name: Seq<char>)
    requires
        is_name(name),
        !name.contains('/'),
    ensures
        normalize::normalized(path + seq!['/'] + ""@) == normalize::normalized(path),
        normalize::normalized(path + seq!['/'] + "."@) == normalize::normalized(path),
        normalize::normalized(path + seq!['/'] + (name + seq!['/'] + ".."@))
            == normalize::normalized(path),
{
    let before = segments::segments(path);
    let none: Seq<Seq<char>> = Seq::empty();
    lemma_patterns();
    lemma_normalized_of_dots();
    assert(normalize::is_dot_or_empty(""@));
    segments::law_text_without_a_slash_is_one_segment(""@);
    segments::law_text_without_a_slash_is_one_segment(name);
    segments::lemma_segments_around_slash(path, ""@);
    segments::lemma_segments_around_slash(path, "."@);
    segments::lemma_segments_around_slash(name, ".."@);
    segments::lemma_segments_around_slash(path, name + seq!['/'] + ".."@);
    assert(seq![name] + seq![".."@] =~= seq![name, ".."@]);
    law_redundant_segments_make_no_difference(before, name, none);
    assert(before + none =~= before);
    assert(before + seq![""@] + none =~= before + seq![""@]);
    assert(before + seq!["."@] + none =~= before + seq!["."@]);
    assert(before + seq![name, ".."@] + none =~= before + seq![name, ".."@]);
    lemma_leading_dot_slash_shows_early(path, ""@, ""@);
    lemma_leading_dot_slash_shows_early(path, "."@, ""@);
    lemma_leading_dot_slash_shows_early(path, name + seq!['/'] + ".."@, ""@);
    lemma_normalized_alike(path + seq!['/'] + ""@, path);
    lemma_normalized_alike(path + seq!['/'] + "."@, path);
    lemma_normalized_alike(path + seq!['/'] + (name + seq!['/'] + ".."@), path);
}

/// A name at the end of a path stays at the end of its normal form, behind the normal form of the
/// rest. Behind a path that leads nowhere else than `.` it is all that is left.
pub proof fn law_name_at_the_end_stays(path: Seq<char>, name: Seq<char>)
    requires
        is_name(name),
        !name.contains('/'),
    ensures
        normalize::normalized(path + seq!['/'] + name) == (
        if normalize::resolve(segments::segments(path)).len() > 0 {
            normalize::normalized(path) + seq!['/'] + name
        } else if path == "."@ || "./"@.is_prefix_of(path) {
            "./"@ + name
        } else {
            name
        }),
{
    let before = segments::segments(path);
    let kept = normalize::resolve(before);
    let whole = path + seq!['/'] + name;
    segments::law_text_without_a_slash_is_one_segment(name);
    segments::lemma_segments_around_slash(path, name);
    law_parent_takes_the_name_before_it(before, name);
    lemma_leading_dot_slash_shows_early(path, name, name);
    if kept.len() > 0 {
        segments::lemma_join_concat(kept, seq![name]);
        lemma_normalized_of_dots();
        let joined = segments::join(kept);
        assert("./"@ + (joined + seq!['/'] + name) =~= "./"@ + joined + seq!['/'] + name);
    } else {
        assert(kept + seq![name] =~= seq![name]);
    }
}

} // verus!
