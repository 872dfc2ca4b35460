//! The standard DICOM data dictionary, looked up by alias and by tag.

use crate::tag::Tag;
use vstd::prelude::*;

verus! {

/// The group and element that the standard dictionary files under `name`,
/// if it knows the name.
pub uninterp spec fn dictionary_tag(name: Seq<char>) -> Option<(u16, u16)>;

/// The alias that the standard dictionary gives for a group and an element,
/// if it has an entry that covers them.
pub uninterp spec fn dictionary_alias(group: u16, element: u16) -> Option<Seq<char>>;

/// The tag that the dictionary files under `name`, as a `Tag`.
pub open spec fn tag_by_name(name: Seq<char>) -> Option<Tag> {
    match dictionary_tag(name) {
        Some(pair) => Some(Tag(pair.0, pair.1)),
        None => None,
    }
}

/// The alias that the dictionary gives for `tag`.
pub open spec fn alias_by_tag(tag: Tag) -> Option<Seq<char>> {
    dictionary_alias(tag.0, tag.1)
}

/// The tag of the dictionary entry with the alias `name`.
///
/// The body calls `by_name` of dicom-object's `StandardDataDictionary`, a
/// case-sensitive lookup in a table that is fixed when the crate is built,
/// and takes the entry's `tag()`. Nothing is claimed of which names the
/// table holds: the result is only given its name.
#[verifier::external_body]
pub(crate) fn lookup_name(name: &str) -> (r: Option<Tag>)
    ensures
        match dictionary_tag(name@) {
            Some(pair) => r == Some(Tag(pair.0, pair.1)),
            None => r is None,
        },
{
    let entry = dicom_core::DataDictionary::by_name(&dicom_object::StandardDataDictionary, name);
    match entry {
        Some(e) => {
            let tag = dicom_core::dictionary::DataDictionaryEntry::tag(e);
            Some(Tag(tag.0, tag.1))
        },
        None => None,
    }
}

/// The alias of the dictionary entry that covers `tag`.
///
/// The body calls `by_tag` of dicom-object's `StandardDataDictionary` and
/// copies the entry's `alias()`. The lookup depends on the tag alone; nothing
/// is claimed of which tags have an entry.
#[verifier::external_body]
pub(crate) fn lookup_tag(tag: Tag) -> (r: Option<String>)
    ensures
        match dictionary_alias(tag.0, tag.1) {
            Some(alias) => r matches Some(text) && text@ == alias,
            None => r is None,
        },
{
    let key = dicom_core::Tag(tag.0, tag.1);
    let entry = dicom_core::DataDictionary::by_tag(&dicom_object::StandardDataDictionary, key);
    match entry {
        Some(e) => Some(dicom_core::dictionary::DataDictionaryEntry::alias(e).to_string()),
        None => None,
    }
}

} // verus!
