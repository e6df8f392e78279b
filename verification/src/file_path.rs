//! File paths as the components that they are made of.
use vstd::prelude::*;
use vstd::slice::slice_subrange;
use vstd::utf8;

verus! {

/// One component of a file path, with names of type `N`.
#[derive(Debug)]
pub enum Component<N> {
    /// A drive or a network share, written in one way each. Of its letters only that of a drive
    /// is brought into upper case.
    Prefix(N),
    /// The root directory.
    RootDir,
    /// A leading reference to the current directory.
    CurDir,
    /// A reference to the parent directory.
    ParentDir,
    /// The name of a file or a directory. It is not empty, not `.` and not `..`.
    Normal(N),
}

/// A file path. Names are bytes, UTF-8 where they are text.
#[derive(Debug)]
pub struct FilePath {
    pub components: Vec<Component<Vec<u8>>>,
}

/// What a file path holds.
pub type PathView = Seq<Component<Seq<u8>>>;

impl View for Component<Vec<u8>> {
    type V = Component<Seq<u8>>;

    open spec fn view(&self) -> Component<Seq<u8>> {
        match self {
            Component::Prefix(name) => Component::Prefix(name@),
            Component::RootDir => Component::RootDir,
            Component::CurDir => Component::CurDir,
            Component::ParentDir => Component::ParentDir,
            Component::Normal(name) => Component::Normal(name@),
        }
    }
}

impl View for FilePath {
    type V = PathView;

    open spec fn view(&self) -> PathView {
        self.components@.map_values(|component: Component<Vec<u8>>| component@)
    }
}

/// The dot before a file extension.
pub const DOT: u8 = 0x2e;

/// The position of the last dot in `name`, or -1 where it has none.
pub open spec fn last_dot(name: Seq<u8>) -> int
    decreases name.len(),
{
    if name.len() == 0 {
        -1
    } else if name.last() == DOT {
        name.len() - 1
    } else {
        last_dot(name.drop_last())
    }
}

/// The name that a path ends in.
pub open spec fn file_name(path: PathView) -> Option<Seq<u8>> {
    if path.len() == 0 {
        None
    } else {
        match path.last() {
            Component::Normal(name) => Some(name),
            _ => None,
        }
    }
}

/// The part of the file name before its last dot. A name that has no dot, or only a leading one,
/// is all stem.
pub open spec fn file_stem(path: PathView) -> Option<Seq<u8>> {
    match file_name(path) {
        None => None,
        Some(name) => if last_dot(name) <= 0 {
            Some(name)
        } else {
            Some(name.take(last_dot(name)))
        },
    }
}

/// The part of the file name behind its last dot. A name that has no dot, or only a leading one,
/// has no extension.
pub open spec fn extension(path: PathView) -> Option<Seq<u8>> {
    match file_name(path) {
        None => None,
        Some(name) => if last_dot(name) <= 0 {
            None
        } else {
            Some(name.skip(last_dot(name) + 1))
        },
    }
}

/// The text that the bytes encode in UTF-8.
pub open spec fn decoded(bytes: Seq<u8>) -> Option<Seq<char>> {
    if utf8::valid_utf8(bytes) {
        Some(utf8::decode_utf8(bytes))
    } else {
        None
    }
}

/// The text of a name, where there is a name and it is text.
pub open spec fn text_of(name: Option<Seq<u8>>) -> Option<Seq<char>> {
    match name {
        Some(bytes) => decoded(bytes),
        None => None,
    }
}

/// Calls `std::str::from_utf8`, which gives the text that the bytes encode where they are valid
/// UTF-8, and an error where they are not.
#[verifier::external_body]
fn decode(bytes: &[u8]) -> (text: Option<&str>)
    ensures
        match text {
            Some(found) => decoded(bytes@) == Some(found@),
            None => decoded(bytes@) is None,
        },
{
    std::str::from_utf8(bytes).ok()
}

/// Whether two names hold the same bytes.
fn same_bytes(left: &Vec<u8>, right: &Vec<u8>) -> (same: bool)
    ensures
        same == (left@ == right@),
{
    if left.len() != right.len() {
        return false;
    }
    let mut i: usize = 0;
    while i < left.len()
        invariant
            i <= left@.len(),
            left@.len() == right@.len(),
            forall|j: int| 0 <= j < i ==> left@[j] == right@[j],
        decreases left@.len() - i,
    {
        if left[i] != right[i] {
            return false;
        }
        i += 1;
    }
    assert(left@ =~= right@);
    true
}

impl Component<Vec<u8>> {
    /// Whether two components are the same.
    pub fn same_component(&self, other: &Component<Vec<u8>>) -> (same: bool)
        ensures
            same == (self@ == other@),
    {
        match (self, other) {
            (Component::Prefix(left), Component::Prefix(right)) => same_bytes(left, right),
            (Component::RootDir, Component::RootDir) => true,
            (Component::CurDir, Component::CurDir) => true,
            (Component::ParentDir, Component::ParentDir) => true,
            (Component::Normal(left), Component::Normal(right)) => same_bytes(left, right),
            _ => false,
        }
    }
}

impl FilePath {
    /// Whether two paths are the same, component by component.
    pub fn same_path(&self, other: &FilePath) -> (same: bool)
        ensures
            same == (self@ == other@),
    {
        if self.components.len() != other.components.len() {
            assert(self@.len() != other@.len());
            return false;
        }
        let mut i: usize = 0;
        while i < self.components.len()
            invariant
                i <= self.components@.len(),
                self.components@.len() == other.components@.len(),
                forall|j: int| 0 <= j < i ==> #[trigger] self@[j] == other@[j],
            decreases self.components@.len() - i,
        {
            let same = self.components[i].same_component(&other.components[i]);
            assert(self@[i as int] == self.components@[i as int]@);
            assert(other@[i as int] == other.components@[i as int]@);
            if !same {
                return false;
            }
            i += 1;
        }
        assert(self@ =~= other@);
        true
    }

    /// The bytes of the name that the path ends in.
    fn file_name_bytes(&self) -> (name: Option<&Vec<u8>>)
        ensures
            match name {
                Some(bytes) => file_name(self@) == Some(bytes@),
                None => file_name(self@) is None,
            },
    {
        let length: usize = self.components.len();
        if length == 0 {
            return None;
        }
        assert(self@.last() == self.components@.last()@);
        match &self.components[length - 1] {
            Component::Normal(name) => Some(name),
            _ => None,
        }
    }

    /// The name that the path ends in, where it is text.
    pub fn file_name(&self) -> (name: Option<&str>)
        ensures
            match name {
                Some(text) => text_of(file_name(self@)) == Some(text@),
                None => text_of(file_name(self@)) is None,
            },
    {
        match self.file_name_bytes() {
            Some(bytes) => decode(bytes.as_slice()),
            None => None,
        }
    }

    /// The file name without its extension, where that is text.
    pub fn file_stem(&self) -> (stem: Option<&str>)
        ensures
            match stem {
                Some(text) => text_of(file_stem(self@)) == Some(text@),
                None => text_of(file_stem(self@)) is None,
            },
    {
        match self.file_name_bytes() {
            Some(name) => match extension_dot(name) {
                Some(dot) => {
                    assert(name@.take(dot as int) =~= name@.subrange(0, dot as int));
                    decode(slice_subrange(name.as_slice(), 0, dot))
                },
                None => decode(name.as_slice()),
            },
            None => None,
        }
    }

    /// The extension of the file name, where it has one that is text.
    pub fn extension(&self) -> (extension: Option<&str>)
        ensures
            match extension {
                Some(text) => text_of(self::extension(self@)) == Some(text@),
                None => text_of(self::extension(self@)) is None,
            },
    {
        match self.file_name_bytes() {
            Some(name) => match extension_dot(name) {
                Some(dot) => {
                    let length: usize = name.len();
                    assert(name@.skip(dot + 1) =~= name@.subrange(dot + 1, name@.len() as int));
                    decode(slice_subrange(name.as_slice(), dot + 1, length))
                },
                None => None,
            },
            None => None,
        }
    }
}

/// The position of the dot before the extension.
fn extension_dot(name: &Vec<u8>) -> (dot: Option<usize>)
    ensures
        match dot {
            Some(i) => 0 < i < name@.len() && last_dot(name@) == i,
            None => last_dot(name@) <= 0,
        },
{
    let mut end: usize = name.len();
    assert(name@.take(end as int) =~= name@);
    while end > 1
        invariant
            end <= name@.len(),
            last_dot(name@) == last_dot(name@.take(end as int)),
        decreases end,
    {
        if name[end - 1] == DOT {
            return Some(end - 1);
        }
        assert(name@.take(end as int).drop_last() =~= name@.take(end - 1));
        end -= 1;
    }
    proof {
        if end == 1 {
            assert(name@.take(1).drop_last() =~= Seq::empty());
            assert(last_dot(Seq::<u8>::empty()) == -1);
        }
    }
    None
}

} // verus!
