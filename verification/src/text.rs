//! Tests on text, stated over the sequence of characters that a string holds.
use vstd::prelude::*;

verus! {

/// `pattern` stands somewhere in `text`.
pub open spec fn occurs_in(pattern: Seq<char>, text: Seq<char>) -> bool {
    exists|i: int| #[trigger] occurs_at(pattern, text, i)
}

/// `pattern` stands in `text` from position `i` on.
pub open spec fn occurs_at(pattern: Seq<char>, text: Seq<char>, i: int) -> bool {
    &&& 0 <= i <= text.len() - pattern.len()
    &&& text.subrange(i, i + pattern.len()) == pattern
}

/// What a string holds, where there is one.
pub open spec fn held(string: Option<String>) -> Option<Seq<char>> {
    match string {
        Some(text) => Some(text@),
        None => None,
    }
}

/// The characters of `text`, in order.
pub(crate) fn chars_of(text: &str) -> (chars: Vec<char>)
    ensures
        chars@ == text@,
{
    let mut chars: Vec<char> = Vec::new();
    for c in it: text.chars()
        invariant
            it.seq() == text@,
            chars@ == text@.take(it.index()),
    {
        chars.push(c);
    }
    chars
}

/// Whether `pattern` stands in `text` from position `at` on.
fn matches_at(text: &Vec<char>, pattern: &Vec<char>, at: usize) -> (found: bool)
    requires
        at + pattern@.len() <= text@.len(),
    ensures
        found == occurs_at(pattern@, text@, at as int),
{
    let length: usize = text.len();
    let mut i: usize = 0;
    while i < pattern.len()
        invariant
            i <= pattern@.len(),
            at + pattern@.len() <= length,
            length == text@.len(),
            forall|j: int| 0 <= j < i ==> text@[at + j] == #[trigger] pattern@[j],
        decreases pattern@.len() - i,
    {
        if text[at + i] != pattern[i] {
            assert(text@.subrange(at as int, at + pattern@.len())[i as int] != pattern@[i as int]);
            return false;
        }
        i += 1;
    }
    assert(text@.subrange(at as int, at + pattern@.len()) =~= pattern@);
    true
}

/// Whether two strings hold the same text.
pub(crate) fn same_text(left: &str, right: &str) -> (same: bool)
    ensures
        same == (left@ == right@),
{
    let a = chars_of(left);
    let b = chars_of(right);
    if a.len() != b.len() {
        return false;
    }
    let same = matches_at(&a, &b, 0);
    assert(a@.subrange(0, b@.len() as int) =~= a@);
    same
}

/// Whether `text` begins with `prefix`.
pub(crate) fn starts_with(text: &str, prefix: &str) -> (found: bool)
    ensures
        found == prefix@.is_prefix_of(text@),
{
    let a = chars_of(text);
    let b = chars_of(prefix);
    b.len() <= a.len() && matches_at(&a, &b, 0)
}

/// Whether `text` ends with `suffix`.
pub(crate) fn ends_with(text: &str, suffix: &str) -> (found: bool)
    ensures
        found == suffix@.is_suffix_of(text@),
{
    let a = chars_of(text);
    let b = chars_of(suffix);
    b.len() <= a.len() && matches_at(&a, &b, a.len() - b.len())
}

/// Whether `pattern` stands somewhere in `text`.
pub(crate) fn contains(text: &str, pattern: &str) -> (found: bool)
    ensures
        found == occurs_in(pattern@, text@),
{
    let a = chars_of(text);
    let b = chars_of(pattern);
    if b.len() > a.len() {
        return false;
    }
    let last: usize = a.len() - b.len();
    let mut i: usize = 0;
    loop
        invariant
            a@ == text@,
            b@ == pattern@,
            i <= last,
            last == a@.len() - b@.len(),
            forall|j: int| 0 <= j < i ==> !occurs_at(b@, a@, j),
        decreases last + 1 - i,
    {
        if matches_at(&a, &b, i) {
            return true;
        }
        if i == last {
            return false;
        }
        i += 1;
    }
}

/// `text` without the slashes that it ends in.
pub open spec fn without_trailing_slashes(text: Seq<char>) -> Seq<char>
    decreases text.len(),
{
    if text.len() > 0 && text.last() == '/' {
        without_trailing_slashes(text.drop_last())
    } else {
        text
    }
}

/// `text` without the slashes that it ends in.
pub(crate) fn trim_trailing_slashes(text: &str) -> (trimmed: &str)
    ensures
        trimmed@ == without_trailing_slashes(text@),
{
    let chars = chars_of(text);
    let mut end: usize = chars.len();
    proof {
        assert(text@.take(end as int) =~= text@);
    }
    while end > 0 && chars[end - 1] == '/'
        invariant
            chars@ == text@,
            end <= text@.len(),
            without_trailing_slashes(text@) == without_trailing_slashes(text@.take(end as int)),
        decreases end,
    {
        proof {
            assert(text@.take(end as int).drop_last() =~= text@.take(end - 1));
        }
        end -= 1;
    }
    proof {
        assert(text@.take(end as int) =~= text@.subrange(0, end as int));
    }
    text.substring_char(0, end)
}

/// The two texts, one behind the other.
pub(crate) fn concat(left: &str, right: &str) -> (text: String)
    ensures
        text@ == left@ + right@,
{
    let mut text = left.to_string();
    text.append(right);
    text
}

/// A pattern occurs in a text exactly if the text is made of something, the pattern and something
/// more.
pub proof fn law_pattern_occurs_between_the_rest(
    before: Seq<char>,
    pattern: Seq<char>,
    after: Seq<char>,
    text: Seq<char>,
)
    ensures
        occurs_in(pattern, before + pattern + after),
        occurs_in(pattern, text) <==> exists|head: Seq<char>, tail: Seq<char>|
            text == #[trigger] (head + pattern + tail),
{
    let whole = before + pattern + after;
    assert(whole.subrange(before.len() as int, (before + pattern).len() as int) =~= pattern);
    assert(occurs_at(pattern, whole, before.len() as int));
    if occurs_in(pattern, text) {
        let i = choose|i: int| #[trigger] occurs_at(pattern, text, i);
        assert(text =~= text.take(i) + pattern + text.skip(i + pattern.len())) by {
            assert(text.subrange(i, i + pattern.len()) == pattern);
        }
    }
    if exists|head: Seq<char>, tail: Seq<char>| text == #[trigger] (head + pattern + tail) {
        let (head, tail) = choose|head: Seq<char>, tail: Seq<char>|
            text == #[trigger] (head + pattern + tail);
        assert(text.subrange(head.len() as int, (head + pattern).len() as int) =~= pattern);
        assert(occurs_at(pattern, text, head.len() as int));
    }
}

/// Trimming takes the slashes at the end away, all of them and nothing else.
pub proof fn law_trimming_takes_the_trailing_slashes(text: Seq<char>, slashes: nat)
    requires
        text.len() > 0 ==> text.last() != '/',
    ensures
        without_trailing_slashes(text + Seq::new(slashes, |i: int| '/')) == text,
    decreases slashes,
{
    let tail = Seq::new(slashes, |i: int| '/');
    if slashes == 0 {
        assert(text + tail =~= text);
    } else {
        let less = (slashes - 1) as nat;
        law_trimming_takes_the_trailing_slashes(text, less);
        assert((text + tail).drop_last() =~= text + Seq::new(less, |i: int| '/'));
        assert((text + tail).last() == '/');
    }
}

/// A string holds its characters, and no string holds nothing.
pub proof fn law_held_text_is_that_of_the_string(string: String)
    ensures
        held(Some(string)) == Some(string@),
        held(None) is None,
{
}

} // verus!
