//! Textual normalization of relative paths.
use crate::segments::{self, join_segments, split_segments};
use crate::text::{self, concat, contains, ends_with, same_text, starts_with};
use vstd::prelude::*;

verus! {

/// The segment stands for no directory of its own: it is empty, `.` or `..`.
pub open spec fn is_dot_or_empty(part: Seq<char>) -> bool {
    part == ""@ || part == "."@ || part == ".."@
}

/// The path shows, at its end or between two slashes, a segment that normalization may drop.
pub open spec fn shows_redundant_segment(path: Seq<char>) -> bool {
    ||| "/"@.is_suffix_of(path)
    ||| "/."@.is_suffix_of(path)
    ||| "/.."@.is_suffix_of(path)
    ||| text::occurs_in("//"@, path)
    ||| text::occurs_in("/./"@, path)
    ||| text::occurs_in("/../"@, path)
}

/// The segments that are left once empty segments and `.` are dropped and each `..` has taken
/// the name before it away. A `..` with no name before it stays.
pub open spec fn resolve(parts: Seq<Seq<char>>) -> Seq<Seq<char>>
    decreases parts.len(),
{
    if parts.len() == 0 {
        Seq::empty()
    } else {
        let kept = resolve(parts.drop_last());
        let part = parts.last();
        if part == ""@ || part == "."@ {
            kept
        } else if part == ".."@ && kept.len() > 0 && kept.last() != ".."@ {
            kept.drop_last()
        } else {
            kept.push(part)
        }
    }
}

/// The normal form of `path`: the segments that are left, behind `./` where the path begins so and
/// they do not begin with `..`. With nothing left it is `.`.
pub open spec fn normalized(path: Seq<char>) -> Seq<char> {
    let kept = resolve(segments::segments(path));
    if kept.len() == 0 {
        "."@
    } else if "./"@.is_prefix_of(path) && kept[0] != ".."@ {
        "./"@ + segments::join(kept)
    } else {
        segments::join(kept)
    }
}

/// Some leading `..`, then names only.
pub open spec fn canonical(parts: Seq<Seq<char>>) -> bool {
    &&& forall|i: int|
        0 <= i < parts.len() ==> #[trigger] parts[i] != ""@ && parts[i] != "."@
    &&& forall|i: int, j: int|
        0 <= i <= j < parts.len() && #[trigger] parts[j] == ".."@ ==> #[trigger] parts[i] == ".."@
}

pub(crate) proof fn lemma_literals()
    ensures
        ""@ == Seq::<char>::empty(),
        "."@ == seq!['.'],
        ".."@ == seq!['.', '.'],
        "/"@ == seq!['/'],
        "./"@ == seq!['.', '/'],
        "//"@ == seq!['/', '/'],
        "/."@ == seq!['/', '.'],
        "/.."@ == seq!['/', '.', '.'],
        "/./"@ == seq!['/', '.', '/'],
        "/../"@ == seq!['/', '.', '.', '/'],
{
    reveal_strlit("");
    reveal_strlit(".");
    reveal_strlit("..");
    reveal_strlit("/");
    reveal_strlit("./");
    reveal_strlit("//");
    reveal_strlit("/.");
    reveal_strlit("/..");
    reveal_strlit("/./");
    reveal_strlit("/../");
    assert(""@ =~= Seq::<char>::empty());
    assert("."@ =~= seq!['.']);
    assert(".."@ =~= seq!['.', '.']);
    assert("/"@ =~= seq!['/']);
    assert("./"@ =~= seq!['.', '/']);
    assert("//"@ =~= seq!['/', '/']);
    assert("/."@ =~= seq!['/', '.']);
    assert("/.."@ =~= seq!['/', '.', '.']);
    assert("/./"@ =~= seq!['/', '.', '/']);
    assert("/../"@ =~= seq!['/', '.', '.', '/']);
}

/// Whether normalization may change `path`.
pub fn may_need_normalization(path: &str) -> (needed: bool)
    ensures
        needed == shows_redundant_segment(path@),
{
    ends_with(path, "/") || ends_with(path, "/.") || ends_with(path, "/..") || contains(path, "//")
        || contains(path, "/./") || contains(path, "/../")
}

/// Normalizes a relative path by resolving `.` and `..` segments, without looking at files:
/// - drops `./` segments, except a leading one; that one goes only where a `..` follows
/// - resolves `../` against the segments before it
/// - drops doubled and trailing slashes
///
/// `./foo/../bar` gives `./bar`, `./deep//a` gives `./deep/a`, `./../foo` gives `../foo`,
/// `./` gives `.`, `./bar/` gives `./bar` and `./..bar/` gives `./..bar`.
pub fn normalize_path(path: &str) -> (normal: String)
    ensures
        normal@ == normalized(path@),
{
    let parts = split_segments(path);
    let ghost all = segments::texts(parts@);
    let mut kept: Vec<&str> = Vec::new();
    let mut i: usize = 0;
    proof {
        assert(segments::texts(kept@) =~= resolve(all.take(0)));
    }
    while i < parts.len()
        invariant
            all == segments::texts(parts@),
            i <= parts@.len(),
            segments::texts(kept@) == resolve(all.take(i as int)),
        decreases parts@.len() - i,
    {
        let part: &str = parts[i];
        let ghost before = segments::texts(kept@);
        proof {
            assert(all.take(i + 1).drop_last() =~= all.take(i as int));
            assert(all.take(i + 1).last() == part@);
        }
        if !same_text(part, "") && !same_text(part, ".") {
            let climbs = same_text(part, "..") && kept.len() > 0 && !same_text(
                kept[kept.len() - 1],
                "..",
            );
            if climbs {
                kept.pop();
                proof {
                    assert(segments::texts(kept@) =~= before.drop_last());
                }
            } else {
                kept.push(part);
                proof {
                    assert(segments::texts(kept@) =~= before.push(part@));
                }
            }
        }
        i += 1;
    }
    proof {
        assert(all.take(i as int) =~= all);
    }
    if kept.len() == 0 {
        return ".".to_string();
    }
    let joined = join_segments(&kept);
    if starts_with(path, "./") && !same_text(kept[0], "..") {
        concat("./", joined.as_str())
    } else {
        joined
    }
}

} // verus!
