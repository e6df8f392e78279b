//! Paths as sequences of segments: what stands between slashes.
use crate::text::chars_of;
use vstd::prelude::*;

verus! {

/// The segments of `path`: the pieces between its slashes, in order, empty ones among them.
pub open spec fn segments(path: Seq<char>) -> Seq<Seq<char>>
    decreases path.len(),
{
    if path.len() == 0 {
        seq![Seq::empty()]
    } else {
        let before = segments(path.drop_last());
        if path.last() == '/' {
            before.push(Seq::empty())
        } else {
            before.drop_last().push(before.last().push(path.last()))
        }
    }
}

/// The segments with a slash between each two of them.
pub open spec fn join(parts: Seq<Seq<char>>) -> Seq<char>
    decreases parts.len(),
{
    if parts.len() == 0 {
        Seq::empty()
    } else if parts.len() == 1 {
        parts[0]
    } else {
        join(parts.drop_last()) + seq!['/'] + parts.last()
    }
}

/// No segment holds a slash.
pub open spec fn slash_free(parts: Seq<Seq<char>>) -> bool {
    forall|i: int| 0 <= i < parts.len() ==> !(#[trigger] parts[i]).contains('/')
}

/// What the strings hold, one by one.
pub open spec fn texts(strings: Seq<&str>) -> Seq<Seq<char>> {
    strings.map_values(|string: &str| string@)
}

/// The path up to its last slash, and what follows that slash. A path without a slash has neither.
pub open spec fn parent_and_name(path: Seq<char>) -> Option<(Seq<char>, Seq<char>)> {
    let parts = segments(path);
    if parts.len() < 2 {
        None
    } else {
        Some((join(parts.drop_last()), parts.last()))
    }
}

/// A path has at least one segment.
pub(crate) proof fn lemma_segments_exist(path: Seq<char>)
    ensures
        segments(path).len() >= 1,
    decreases path.len(),
{
    if path.len() > 0 {
        lemma_segments_exist(path.drop_last());
    }
}

/// The segments of a path hold no slash.
pub proof fn law_segments_are_slash_free(path: Seq<char>)
    ensures
        slash_free(segments(path)),
    decreases path.len(),
{
    lemma_segments_exist(path);
    if path.len() > 0 {
        let before = segments(path.drop_last());
        lemma_segments_exist(path.drop_last());
        law_segments_are_slash_free(path.drop_last());
        assert forall|i: int| 0 <= i < segments(path).len() implies !(
        #[trigger] segments(path)[i]).contains('/') by {
            if i < before.len() - 1 {
                assert(segments(path)[i] == before[i]);
            } else if path.last() != '/' {
                let piece = before.last().push(path.last());
                assert(!before[before.len() - 1].contains('/'));
                assert forall|j: int| 0 <= j < piece.len() implies piece[j] != '/' by {
                    if j < before.last().len() {
                        assert(piece[j] == before.last()[j]);
                    }
                }
            } else if i < before.len() {
                assert(segments(path)[i] == before[i]);
            }
        }
    }
}

/// Joining the segments of a path gives back the path.
pub proof fn law_join_undoes_segments(path: Seq<char>)
    ensures
        join(segments(path)) == path,
    decreases path.len(),
{
    if path.len() > 0 {
        let rest = path.drop_last();
        let before = segments(rest);
        lemma_segments_exist(rest);
        law_join_undoes_segments(rest);
        let parts = segments(path);
        assert(path =~= rest.push(path.last()));
        assert(parts.drop_last() =~= if path.last() == '/' {
            before
        } else {
            before.drop_last()
        });
        assert(join(parts) =~= path);
    }
}

/// Taking segments that hold no slash apart again gives back those segments.
pub proof fn law_segments_undo_join(parts: Seq<Seq<char>>)
    requires
        parts.len() >= 1,
        slash_free(parts),
    ensures
        segments(join(parts)) == parts,
    decreases parts.len(),
{
    let last = parts.last();
    assert(!parts[parts.len() - 1].contains('/'));
    if parts.len() == 1 {
        lemma_segments_extend(Seq::empty(), last);
        assert(Seq::<char>::empty() + last =~= last);
        assert(segments(Seq::empty()).drop_last().push(segments(Seq::<char>::empty()).last() + last)
            =~= parts);
    } else {
        let before = parts.drop_last();
        assert(slash_free(before)) by {
            assert forall|i: int| 0 <= i < before.len() implies !(
            #[trigger] before[i]).contains('/') by {
                assert(before[i] == parts[i]);
            }
        }
        law_segments_undo_join(before);
        let head = join(before) + seq!['/'];
        assert(head.drop_last() =~= join(before));
        assert(segments(head) =~= before.push(Seq::empty()));
        lemma_segments_extend(head, last);
        assert(Seq::<char>::empty() + last =~= last);
        assert(segments(head).drop_last().push(segments(head).last() + last) =~= parts);
    }
}

/// Text without a slash lengthens the last segment.
pub(crate) proof fn lemma_segments_extend(path: Seq<char>, tail: Seq<char>)
    requires
        !tail.contains('/'),
    ensures
        segments(path + tail) == segments(path).drop_last().push(segments(path).last() + tail),
    decreases tail.len(),
{
    lemma_segments_exist(path);
    if tail.len() == 0 {
        assert(path + tail =~= path);
        assert(segments(path).last() + tail =~= segments(path).last());
        assert(segments(path) =~= segments(path).drop_last().push(segments(path).last()));
    } else {
        let shorter = tail.drop_last();
        assert forall|j: int| 0 <= j < shorter.len() implies shorter[j] != '/' by {
            assert(tail[j] == shorter[j]);
            assert(tail.contains(tail[j]));
        }
        lemma_segments_extend(path, shorter);
        assert((path + tail).drop_last() =~= path + shorter);
        assert(tail.contains(tail.last()));
        assert((path + tail).last() == tail.last());
        assert((segments(path).last() + shorter).push(tail.last()) =~= segments(path).last() + tail);
        assert(segments(path + tail) =~= segments(path).drop_last().push(
            segments(path).last() + tail,
        ));
    }
}

/// A slash ends one segment and begins the next.
pub(crate) proof fn lemma_segments_around_slash(head: Seq<char>, tail: Seq<char>)
    ensures
        segments(head + seq!['/'] + tail) == segments(head) + segments(tail),
    decreases tail.len(),
{
    let path = head + seq!['/'] + tail;
    if tail.len() == 0 {
        assert(path.drop_last() =~= head);
        assert(segments(path) =~= segments(head) + segments(tail));
    } else {
        let shorter = tail.drop_last();
        lemma_segments_around_slash(head, shorter);
        lemma_segments_exist(shorter);
        assert(path.drop_last() =~= head + seq!['/'] + shorter);
        assert(path.last() == tail.last());
        assert(segments(path) =~= segments(head) + segments(tail));
    }
}

/// Joining two lists of segments is joining the two joined paths.
pub(crate) proof fn lemma_join_concat(left: Seq<Seq<char>>, right: Seq<Seq<char>>)
    requires
        left.len() >= 1,
        right.len() >= 1,
    ensures
        join(left + right) == join(left) + seq!['/'] + join(right),
    decreases right.len(),
{
    assert((left + right).drop_last() =~= left + right.drop_last());
    if right.len() == 1 {
        assert(left + right.drop_last() =~= left);
    } else {
        lemma_join_concat(left, right.drop_last());
        assert(join(left + right) =~= join(left) + seq!['/'] + join(right));
    }
}

/// The segments of `path`.
pub(crate) fn split_segments<'a>(path: &'a str) -> (parts: Vec<&'a str>)
    ensures
        texts(parts@) == segments(path@),
{
    let chars = chars_of(path);
    let mut parts: Vec<&'a str> = Vec::new();
    let mut start: usize = 0;
    let mut i: usize = 0;
    proof {
        assert(path@.take(0) =~= Seq::empty());
        assert(texts(parts@).push(path@.subrange(0, 0)) =~= segments(path@.take(0)));
    }
    while i < chars.len()
        invariant
            chars@ == path@,
            start <= i <= path@.len(),
            texts(parts@).push(path@.subrange(start as int, i as int)) == segments(
                path@.take(i as int),
            ),
        decreases path@.len() - i,
    {
        let ghost before = segments(path@.take(i as int));
        proof {
            assert(path@.take(i + 1).drop_last() =~= path@.take(i as int));
            assert(before.drop_last() =~= texts(parts@));
            assert(before.last() == path@.subrange(start as int, i as int));
        }
        if chars[i] == '/' {
            parts.push(path.substring_char(start, i));
            start = i + 1;
            proof {
                assert(texts(parts@) =~= before);
                assert(path@.subrange(i + 1, i + 1) =~= Seq::empty());
            }
        } else {
            proof {
                assert(path@.subrange(start as int, i + 1) =~= path@.subrange(
                    start as int,
                    i as int,
                ).push(path@[i as int]));
            }
        }
        i += 1;
    }
    let ghost before = texts(parts@);
    parts.push(path.substring_char(start, i));
    proof {
        assert(path@.take(i as int) =~= path@);
        assert(texts(parts@) =~= before.push(path@.subrange(start as int, i as int)));
    }
    parts
}

/// The segments with a slash between each two of them.
pub(crate) fn join_segments(parts: &Vec<&str>) -> (path: String)
    ensures
        path@ == join(texts(parts@)),
{
    let ghost all = texts(parts@);
    let mut path = String::new();
    let mut i: usize = 0;
    while i < parts.len()
        invariant
            all == texts(parts@),
            i <= parts@.len(),
            path@ == join(all.take(i as int)),
        decreases parts@.len() - i,
    {
        proof {
            assert(all.take(i + 1).drop_last() =~= all.take(i as int));
            assert(all[i as int] == parts@[i as int]@);
        }
        if i > 0 {
            path.append("/");
            proof {
                reveal_strlit("/");
                assert("/"@ =~= seq!['/']);
            }
        }
        path.append(parts[i]);
        proof {
            assert(path@ =~= join(all.take(i + 1)));
        }
        i += 1;
    }
    proof {
        assert(all.take(i as int) =~= all);
    }
    path
}

/// Text without a slash is one segment, and one segment joined is itself.
pub proof fn law_text_without_a_slash_is_one_segment(part: Seq<char>)
    requires
        !part.contains('/'),
    ensures
        segments(part) == seq![part],
        join(seq![part]) == part,
{
    assert(slash_free(seq![part]));
    law_segments_undo_join(seq![part]);
}

/// A slash parts the segments before it from those behind it.
pub proof fn law_slash_parts_segments(head: Seq<char>, tail: Seq<char>)
    ensures
        segments(head + seq!['/'] + tail) == segments(head) + segments(tail),
{
    lemma_segments_around_slash(head, tail);
}

/// Joining puts one slash between two lists of segments. A single segment is joined as it is, and
/// no segments to nothing.
pub proof fn law_join_puts_a_slash_between(left: Seq<Seq<char>>, right: Seq<Seq<char>>)
    requires
        left.len() >= 1,
        right.len() >= 1,
    ensures
        join(left + right) == join(left) + seq!['/'] + join(right),
        left.len() == 1 ==> join(left) == left[0],
        join(Seq::empty()) == Seq::<char>::empty(),
{
    lemma_join_concat(left, right);
}

/// The parent is what stands before the last slash, and the name what stands behind it.
pub proof fn law_parent_and_name_are_around_the_last_slash(parent: Seq<char>, name: Seq<char>)
    requires
        !name.contains('/'),
    ensures
        parent_and_name(parent + seq!['/'] + name) == Some((parent, name)),
        parent_and_name(name) is None,
{
    lemma_segments_exist(parent);
    lemma_segments_around_slash(parent, name);
    law_text_without_a_slash_is_one_segment(name);
    law_join_undoes_segments(parent);
    assert((segments(parent) + seq![name]).drop_last() =~= segments(parent));
}

/// Texts are listed one for one.
pub proof fn law_texts_are_those_of_the_strings(strings: Seq<&str>)
    ensures
        texts(strings).len() == strings.len(),
        forall|i: int| 0 <= i < strings.len() ==> #[trigger] texts(strings)[i] == strings[i]@,
{
}

} // verus!
