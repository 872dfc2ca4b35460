//! Reading the requested attributes out of one decoded file.

use crate::input::SourceFile;
use crate::tag::Tag;
use dicom_object::{InMemDicomObject, StandardDataDictionary};
use std::collections::HashMap;
use vstd::prelude::*;

verus! {

/// dicom-object's marker type for the standard dictionary.
#[verifier::external_type_specification]
#[verifier::external_body]
pub struct ExStandardDataDictionary(StandardDataDictionary);

/// dicom-object's data set held in memory.
#[verifier::external_type_specification]
#[verifier::external_body]
#[verifier::reject_recursive_types(D)]
pub struct ExInMemDicomObject<D>(InMemDicomObject<D>);

/// What a data set holds, as far as this library reads it: for the group
/// and element of each attribute present, the text of its value, or nothing
/// where the value has no text.
pub uninterp spec fn object_texts(object: InMemDicomObject<StandardDataDictionary>) -> Map<
    (u16, u16),
    Option<Seq<char>>,
>;

/// What a data set said of one tag.
#[derive(Clone, Debug, PartialEq, Eq)]
pub enum FieldValue {
    /// The data set has no attribute with the tag.
    Absent,
    /// The attribute is there, but its value has no text.
    NotText,
    /// The attribute is there, and this is its value as text.
    Text(String),
}

/// Looks `tag` up in a data set.
///
/// The body calls `get` of dicom-object's `InMemDicomObject`, a lookup in
/// the map of the data set's own attributes, and `to_str` of dicom-core's
/// `DataElement` on what it finds, which fails where the value is a sequence
/// of items or of pixel fragments. Both depend on the data set and the tag
/// alone.
#[verifier::external_body]
fn lookup_field(object: &InMemDicomObject<StandardDataDictionary>, tag: Tag) -> (found: FieldValue)
    ensures
        match found {
            FieldValue::Absent => !object_texts(*object).contains_key((tag.0, tag.1)),
            FieldValue::NotText => object_texts(*object).contains_key((tag.0, tag.1))
                && object_texts(*object)[(tag.0, tag.1)] is None,
            FieldValue::Text(text) => object_texts(*object).contains_key((tag.0, tag.1))
                && object_texts(*object)[(tag.0, tag.1)] == Some(text@),
        },
{
    match object.get(dicom_core::Tag(tag.0, tag.1)) {
        None => FieldValue::Absent,
        Some(element) => match element.to_str() {
            Ok(text) => FieldValue::Text(text.into_owned()),
            Err(_) => FieldValue::NotText,
        },
    }
}

/// The text of a cell for what a data set said of a tag.
pub open spec fn cell_text(found: FieldValue) -> Seq<char> {
    match found {
        FieldValue::Text(text) => text@,
        _ => Seq::empty(),
    }
}

/// The text that a data set with these contents gives for `tag`: the text
/// of the attribute's value, and the empty text where the attribute is
/// missing or its value has no text.
pub open spec fn field_text(texts: Map<(u16, u16), Option<Seq<char>>>, tag: Tag) -> Seq<char> {
    if texts.contains_key((tag.0, tag.1)) {
        match texts[(tag.0, tag.1)] {
            Some(text) => text,
            None => Seq::empty(),
        }
    } else {
        Seq::empty()
    }
}

/// Whether `code` is the code of one of `tags`.
pub open spec fn is_requested(tags: Seq<Tag>, code: u32) -> bool {
    exists|i: int| 0 <= i < tags.len() && #[trigger] tags[i].code_spec() == code
}

/// The cell for what a data set said of a tag: the text where there is one,
/// else the empty text. A missing attribute and a value without text are no
/// errors.
pub fn value_text(found: FieldValue) -> (text: String)
    ensures
        text@ == cell_text(found),
{
    match found {
        FieldValue::Text(text) => text,
        _ => String::new(),
    }
}

/// The values read from one file.
#[derive(Clone, Debug, PartialEq, Eq)]
pub struct ExtractionResult {
    pub file: SourceFile,
    /// The text read for each requested tag, under the tag's code.
    pub values: HashMap<u32, String>,
}

/// A file that could not be opened or decoded, and why.
#[derive(Clone, Debug, PartialEq, Eq)]
pub struct OpenError {
    pub file: SourceFile,
    pub reason: String,
}

/// How the work on one file ended.
#[derive(Clone, Debug, PartialEq, Eq)]
pub enum FileOutcome {
    Success(ExtractionResult),
    Failure(OpenError),
}

impl ExtractionResult {
    /// The text held for `tag`, and the empty text where none is held.
    pub open spec fn value_spec(&self, tag: Tag) -> Seq<char> {
        if self.values@.contains_key(tag.code_spec()) {
            self.values@[tag.code_spec()]@
        } else {
            Seq::empty()
        }
    }

    /// The text held for `tag`, and the empty text where none is held.
    pub fn value_for(&self, tag: Tag) -> (text: String)
        ensures
            text@ == self.value_spec(tag),
    {
        broadcast use vstd::std_specs::hash::group_hash_axioms;

        let code = tag.code();
        match self.values.get(&code) {
            Some(text) => text.clone(),
            None => String::new(),
        }
    }
}

/// Reads the value of every tag of `tags` out of a data set. The result has
/// an entry for each of the tags, under the tag's code, and no other.
pub fn dump_tags(object: &InMemDicomObject<StandardDataDictionary>, tags: &Vec<Tag>) -> (values:
    HashMap<u32, String>)
    ensures
        forall|code: u32| values@.contains_key(code) <==> is_requested(tags@, code),
        forall|i: int|
            0 <= i < tags.len() ==> (#[trigger] values@[tags[i].code_spec()])@ == field_text(
                object_texts(*object),
                tags[i],
            ),
{
    broadcast use vstd::std_specs::hash::group_hash_axioms;

    let mut values: HashMap<u32, String> = HashMap::new();
    let mut n: usize = 0;
    while n < tags.len()
        invariant
            0 <= n <= tags.len(),
            forall|code: u32| values@.contains_key(code) <==> is_requested(tags@.take(n as int), code),
            forall|i: int|
                0 <= i < n ==> (#[trigger] values@[tags[i].code_spec()])@ == field_text(
                    object_texts(*object),
                    tags[i],
                ),
        decreases tags.len() - n,
    {
        let tag = tags[n];
        let text = value_text(lookup_field(object, tag));
        let ghost before = values@;
        values.insert(tag.code(), text);
        proof {
            let shorter = tags@.take(n as int);
            let longer = tags@.take(n + 1);
            assert forall|code: u32| values@.contains_key(code) <==> is_requested(
                longer,
                code,
            ) by {
                if is_requested(longer, code) {
                    let i = choose|i: int|
                        0 <= i < longer.len() && #[trigger] longer[i].code_spec() == code;
                    if i < n {
                        assert(shorter[i].code_spec() == code);
                    }
                }
                if before.contains_key(code) {
                    let i = choose|i: int|
                        0 <= i < shorter.len() && #[trigger] shorter[i].code_spec() == code;
                    assert(longer[i].code_spec() == code);
                }
                if code == tag.code_spec() {
                    assert(longer[n as int].code_spec() == code);
                }
            }
            assert forall|i: int| 0 <= i < n + 1 implies (#[trigger] values@[tags[i].code_spec()])@
                == field_text(object_texts(*object), tags[i]) by {
                if tags[i].code_spec() == tag.code_spec() {
                    tags[i].lemma_code_is_injective(tag);
                }
            }
        }
        n = n + 1;
    }
    assert(tags@.take(n as int) == tags@);
    values
}

/// Whether `result` holds what a data set with the contents `texts` gives
/// for `tags`: for each of the tags its text, which is empty where the data
/// set lacks the attribute or its value has no text, and nothing for any
/// other tag.
pub open spec fn holds_values_of(
    result: ExtractionResult,
    texts: Map<(u16, u16), Option<Seq<char>>>,
    tags: Seq<Tag>,
) -> bool {
    forall|tag: Tag| #[trigger]
        result.value_spec(tag) == (if tags.contains(tag) {
            field_text(texts, tag)
        } else {
            Seq::empty()
        })
}

/// The outcome for one file, given what opening it brought. From a data
/// set every requested tag is read: a tag that the file lacks, or whose
/// value has no text, has the empty text, and a tag that was not requested
/// has no entry. A file that did not open is recorded with the reason, and
/// nothing is read.
pub fn extract(
    file: SourceFile,
    opened: Result<&InMemDicomObject<StandardDataDictionary>, String>,
    tags: &Vec<Tag>,
) -> (outcome: FileOutcome)
    ensures
        match opened {
            Ok(object) => outcome matches FileOutcome::Success(result) && result.file == file
                && holds_values_of(result, object_texts(*object), tags@),
            Err(reason) => outcome == FileOutcome::Failure(OpenError { file, reason }),
        },
{
    match opened {
        Ok(object) => {
            let values = dump_tags(object, tags);
            let result = ExtractionResult { file, values };
            proof {
                assert forall|tag: Tag| #[trigger]
                    result.value_spec(tag) == (if tags@.contains(tag) {
                        field_text(object_texts(*object), tag)
                    } else {
                        Seq::empty()
                    }) by {
                    if tags@.contains(tag) {
                        let i = choose|i: int| 0 <= i < tags@.len() && tags@[i] == tag;
                        assert(tags@[i].code_spec() == tag.code_spec());
                        assert(is_requested(tags@, tag.code_spec()));
                    } else if is_requested(tags@, tag.code_spec()) {
                        let i = choose|i: int|
                            0 <= i < tags@.len() && #[trigger] tags@[i].code_spec()
                                == tag.code_spec();
                        tags@[i].lemma_code_is_injective(tag);
                    }
                }
            }
            FileOutcome::Success(result)
        },
        Err(reason) => FileOutcome::Failure(OpenError { file, reason }),
    }
}

} // verus!
