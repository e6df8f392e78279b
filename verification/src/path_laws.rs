//! What holds of file paths and module records as a whole.
use crate::file_path::{self, Component, FilePath, PathView};
use crate::module_record::{self, LoadedModule, RecordView, RequestedModule};
use crate::span::Span;
use vstd::prelude::*;
use vstd::utf8;

verus! {

/// A path holds its components, one for one, and the bytes of their names.
pub proof fn law_path_holds_its_components(path: FilePath, name: Vec<u8>)
    ensures
        path@.len() == path.components@.len(),
        forall|i: int| 0 <= i < path@.len() ==> #[trigger] path@[i] == path.components@[i]@,
        Component::Prefix(name)@ == Component::Prefix(name@),
        Component::Normal(name)@ == Component::Normal(name@),
        Component::<Vec<u8>>::RootDir@ == Component::<Seq<u8>>::RootDir,
        Component::<Vec<u8>>::CurDir@ == Component::<Seq<u8>>::CurDir,
        Component::<Vec<u8>>::ParentDir@ == Component::<Seq<u8>>::ParentDir,
{
}

/// The file name is the name that the path ends in, whatever stands before it. A path that does not
/// end in a name has none, and then neither stem nor extension.
pub proof fn law_file_name_is_the_last_name(directory: PathView, name: Seq<u8>, path: PathView)
    ensures
        file_path::file_name(directory.push(Component::Normal(name))) == Some(name),
        (path.len() == 0 || !(path.last() is Normal)) ==> {
            &&& file_path::file_name(path) is None
            &&& file_path::file_stem(path) is None
            &&& file_path::extension(path) is None
        },
{
}

/// A name with a last dot that is not its first character parts there into stem and extension.
pub proof fn law_last_dot_parts_stem_and_extension(
    directory: PathView,
    stem: Seq<u8>,
    extension: Seq<u8>,
)
    requires
        stem.len() > 0,
        !extension.contains(0x2e),
    ensures
        ({
            let path = directory.push(Component::Normal(stem + seq![0x2eu8] + extension));
            &&& file_path::file_stem(path) == Some(stem)
            &&& file_path::extension(path) == Some(extension)
        }),
{
    let name = stem + seq![0x2eu8] + extension;
    lemma_last_dot(stem, extension);
    assert(name.take(stem.len() as int) =~= stem);
    assert(name.skip((stem.len() + 1) as int) =~= extension);
}

proof fn lemma_last_dot(head: Seq<u8>, tail: Seq<u8>)
    requires
        !tail.contains(0x2e),
    ensures
        file_path::last_dot(head + seq![0x2eu8] + tail) == head.len(),
    decreases tail.len(),
{
    let name = head + seq![0x2eu8] + tail;
    if tail.len() == 0 {
        assert(name.last() == 0x2e);
    } else {
        let shorter = tail.drop_last();
        assert forall|i: int| 0 <= i < shorter.len() implies shorter[i] != 0x2e by {
            assert(tail.contains(tail[i]));
        }
        assert(tail.contains(tail.last()));
        assert(name.last() == tail.last());
        assert(name.drop_last() =~= head + seq![0x2eu8] + shorter);
        lemma_last_dot(head, shorter);
    }
}

/// A name with no dot, but for one at its beginning, is all stem.
pub proof fn law_name_without_a_later_dot_is_all_stem(directory: PathView, name: Seq<u8>)
    requires
        forall|i: int| 1 <= i < name.len() ==> #[trigger] name[i] != 0x2e,
    ensures
        ({
            let path = directory.push(Component::Normal(name));
            &&& file_path::file_stem(path) == Some(name)
            &&& file_path::extension(path) is None
        }),
{
    lemma_no_later_dot(name);
}

proof fn lemma_no_later_dot(name: Seq<u8>)
    requires
        forall|i: int| 1 <= i < name.len() ==> #[trigger] name[i] != 0x2e,
    ensures
        file_path::last_dot(name) <= 0,
    decreases name.len(),
{
    if name.len() > 0 && name.last() != 0x2e {
        lemma_no_later_dot(name.drop_last());
    } else if name.len() > 1 {
        assert(name[name.len() - 1] != 0x2e);
    }
}

/// Text is read back from its encoding, and bytes that encode no text are read as none.
pub proof fn law_text_is_read_back(text: Seq<char>, bytes: Seq<u8>)
    ensures
        file_path::decoded(utf8::encode_utf8(text)) == Some(text),
        file_path::decoded(bytes) matches Some(read) ==> utf8::encode_utf8(read) == bytes,
        file_path::text_of(Some(bytes)) == file_path::decoded(bytes),
        file_path::text_of(None) is None,
{
    utf8::encode_utf8_valid_utf8(text);
    utf8::encode_utf8_decode_utf8(text);
    if utf8::valid_utf8(bytes) {
        utf8::decode_utf8_encode_utf8(bytes);
    }
}

/// Texts one behind the other are encoded one behind the other.
pub(crate) proof fn lemma_encode_concat(left: Seq<char>, right: Seq<char>)
    ensures
        utf8::encode_utf8(left + right) == utf8::encode_utf8(left) + utf8::encode_utf8(right),
    decreases left.len(),
{
    if left.len() == 0 {
        assert(left + right =~= right);
        assert(utf8::encode_utf8(left) =~= Seq::empty());
        assert(Seq::<u8>::empty() + utf8::encode_utf8(right) =~= utf8::encode_utf8(right));
    } else {
        lemma_encode_concat(left.drop_first(), right);
        assert((left + right).drop_first() =~= left.drop_first() + right);
        assert((left + right)[0] == left[0]);
        let first = utf8::encode_scalar(left[0] as u32);
        assert(first + (utf8::encode_utf8(left.drop_first()) + utf8::encode_utf8(right)) =~= first
            + utf8::encode_utf8(left.drop_first()) + utf8::encode_utf8(right));
    }
}

/// A dot is encoded as one byte.
pub(crate) proof fn lemma_encode_dot()
    ensures
        utf8::encode_utf8(seq!['.']) == seq![0x2eu8],
{
    assert(utf8::is_ascii_chars(seq!['.']));
    utf8::is_ascii_chars_encode_utf8(seq!['.']);
    assert(seq!['.'][0] as u8 == 0x2e);
    assert(utf8::encode_utf8(seq!['.']) =~= seq![0x2eu8]);
}

/// Only a dot is encoded with the byte of a dot.
proof fn lemma_encode_other(scalar: u32)
    requires
        utf8::is_scalar(scalar),
        scalar != 0x2e,
    ensures
        !utf8::encode_scalar(scalar).contains(0x2e),
{
    let one = utf8::leading_byte_width_1(scalar);
    let two = utf8::leading_byte_width_2(scalar);
    let three = utf8::leading_byte_width_3(scalar);
    let four = utf8::leading_byte_width_4(scalar);
    let last = utf8::last_continuation_byte(scalar);
    let second = utf8::second_last_continuation_byte(scalar);
    let third = utf8::third_last_continuation_byte(scalar);
    assert(scalar <= 0x7f && scalar != 0x2e ==> (scalar & 0x7F) as u8 != 0x2e) by (bit_vector);
    assert((0xC0 | ((scalar >> 6) & 0x1F) as u8) != 0x2e) by (bit_vector);
    assert((0xE0 | ((scalar >> 12) & 0x0F) as u8) != 0x2e) by (bit_vector);
    assert((0xF0 | ((scalar >> 18) & 0x7) as u8) != 0x2e) by (bit_vector);
    assert((0x80 | (scalar & 0x3F) as u8) != 0x2e) by (bit_vector);
    assert((0x80 | ((scalar >> 6) & 0x3F) as u8) != 0x2e) by (bit_vector);
    assert((0x80 | ((scalar >> 12) & 0x3F) as u8) != 0x2e) by (bit_vector);
}

/// Text without a dot is encoded without the byte of a dot.
pub(crate) proof fn lemma_encode_without_dot(text: Seq<char>)
    requires
        !text.contains('.'),
    ensures
        !utf8::encode_utf8(text).contains(0x2e),
    decreases text.len(),
{
    if text.len() > 0 {
        let rest = text.drop_first();
        let first = utf8::encode_scalar(text[0] as u32);
        assert(text.contains(text[0]));
        assert forall|i: int| 0 <= i < rest.len() implies rest[i] != '.' by {
            assert(text.contains(text[i + 1]));
        }
        lemma_encode_without_dot(rest);
        utf8::char_is_scalar(text[0]);
        if text[0] as u32 == 0x2e {
            utf8::char_u32_cast(text[0], 0x2eu32);
            assert(0x2eu32 as char == '.');
        }
        lemma_encode_other(text[0] as u32);
        let bytes = utf8::encode_utf8(text);
        assert forall|i: int| 0 <= i < bytes.len() implies bytes[i] != 0x2e by {
            if i < first.len() {
                assert(first.contains(first[i]));
            } else {
                let k = i - first.len();
                assert(utf8::encode_utf8(rest).contains(utf8::encode_utf8(rest)[k]));
            }
        }
    }
}

/// Text that is not empty has an encoding that is not empty.
pub(crate) proof fn lemma_encode_some(text: Seq<char>)
    requires
        text.len() > 0,
    ensures
        utf8::encode_utf8(text).len() > 0,
{
    assert(utf8::encode_scalar(text[0] as u32).len() > 0);
}

/// A specifier resolves to what the record says it does, and to nothing where the record says
/// nothing.
pub proof fn law_specifier_resolves_as_recorded(
    record: RecordView,
    specifier: Seq<char>,
    target: PathView,
)
    ensures
        record.loaded(specifier) == Some(target) <==> record.loaded_modules.contains_pair(
            specifier,
            target,
        ),
        record.loaded(specifier) is None <==> !record.loaded_modules.contains_key(specifier),
{
}

/// The entry that is made last for a specifier is the one that counts, and the entries for other
/// specifiers are as they were.
pub proof fn law_last_entry_counts(entries: Seq<LoadedModule>, entry: LoadedModule)
    ensures
        module_record::loaded_map(entries.push(entry)) == module_record::loaded_map(entries).insert(
            entry.specifier@,
            entry.resolved_absolute_path@,
        ),
        module_record::loaded_map(Seq::empty()) == Map::<Seq<char>, PathView>::empty(),
{
    assert(entries.push(entry).drop_last() =~= entries);
}

/// Requests are listed one for one, with their specifiers and all their places.
pub proof fn law_requests_are_those_entered(entries: Seq<RequestedModule>)
    ensures
        module_record::requests(entries).len() == entries.len(),
        forall|i: int|
            0 <= i < entries.len() ==> #[trigger] module_record::requests(entries)[i] == (
                entries[i].specifier@,
                entries[i].spans@,
            ),
{
}

/// A range is well formed exactly if it does not end before it starts, and a record exactly if all
/// its ranges are and it lists each specifier once.
pub proof fn law_well_formed_means_ordered_and_distinct(span: Span, record: RecordView)
    ensures
        span.wf() <==> span.start <= span.end,
        record.wf() <==> {
            &&& forall|i: int, j: int|
                0 <= i < record.requested_modules.len() && 0 <= j < record.requested_modules.len()
                    && (#[trigger] record.requested_modules[i]).0 == (
                #[trigger] record.requested_modules[j]).0 ==> i == j
            &&& forall|i: int, j: int|
                0 <= i < record.requested_modules.len() && 0 <= j
                    < record.requested_modules[i].1.len() ==> (
                #[trigger] record.requested_modules[i].1[j]).start
                    <= record.requested_modules[i].1[j].end
        },
{
    if record.wf() {
        assert forall|i: int, j: int|
            0 <= i < record.requested_modules.len() && 0 <= j < record.requested_modules.len() && (
            #[trigger] record.requested_modules[i]).0 == (
            #[trigger] record.requested_modules[j]).0 implies i == j by {
            if i < j {
                assert(record.requested_modules[i].0 != record.requested_modules[j].0);
            } else if j < i {
                assert(record.requested_modules[j].0 != record.requested_modules[i].0);
            }
        }
        assert forall|i: int, j: int|
            0 <= i < record.requested_modules.len() && 0 <= j < record.requested_modules[i].1.len()
            implies (#[trigger] record.requested_modules[i].1[j]).start
            <= record.requested_modules[i].1[j].end by {
            assert(record.requested_modules[i].1[j].wf());
        }
    }
}

} // verus!
