//! Tag identifiers and the ways a user may write them.

use crate::dictionary::{alias_by_tag, lookup_name, lookup_tag, tag_by_name};
use vstd::prelude::*;

verus! {

/// A DICOM tag: the group number and the element number of one attribute.
#[derive(Clone, Copy, Debug, PartialEq, Eq, Hash, Structural)]
pub struct Tag(pub u16, pub u16);

/// Whether `c` is one of the digits `0-9`, `a-f`, `A-F`.
pub open spec fn is_hex_digit(c: char) -> bool {
    ('0' <= c && c <= '9') || ('a' <= c && c <= 'f') || ('A' <= c && c <= 'F')
}

/// The number that the hexadecimal digit `c` stands for.
pub open spec fn hex_digit_value(c: char) -> int {
    if '0' <= c && c <= '9' {
        c as int - '0' as int
    } else if 'a' <= c && c <= 'f' {
        c as int - 'a' as int + 10
    } else {
        c as int - 'A' as int + 10
    }
}

/// Whether the four characters of `s` from `at` on are hexadecimal digits.
pub open spec fn is_hex4(s: Seq<char>, at: int) -> bool {
    &&& 0 <= at && at + 4 <= s.len()
    &&& is_hex_digit(s[at])
    &&& is_hex_digit(s[at + 1])
    &&& is_hex_digit(s[at + 2])
    &&& is_hex_digit(s[at + 3])
}

/// The number written by the four hexadecimal digits of `s` from `at` on.
pub open spec fn hex4_value(s: Seq<char>, at: int) -> int {
    hex_digit_value(s[at]) * 4096 + hex_digit_value(s[at + 1]) * 256 + hex_digit_value(
        s[at + 2],
    ) * 16 + hex_digit_value(s[at + 3])
}

/// The tag that `s` writes in one of the three numeric forms `ggggeeee`,
/// `gggg,eeee` and `(gggg,eeee)`, if it is in one of them.
pub open spec fn numeric_form(s: Seq<char>) -> Option<Tag> {
    if s.len() == 8 && is_hex4(s, 0) && is_hex4(s, 4) {
        Some(Tag(hex4_value(s, 0) as u16, hex4_value(s, 4) as u16))
    } else if s.len() == 9 && is_hex4(s, 0) && s[4] == ',' && is_hex4(s, 5) {
        Some(Tag(hex4_value(s, 0) as u16, hex4_value(s, 5) as u16))
    } else if s.len() == 11 && s[0] == '(' && is_hex4(s, 1) && s[5] == ',' && is_hex4(s, 6)
        && s[10] == ')' {
        Some(Tag(hex4_value(s, 1) as u16, hex4_value(s, 6) as u16))
    } else {
        None
    }
}

/// The upper-case hexadecimal digit for `d`, a number below sixteen.
pub open spec fn upper_hex_digit(d: int) -> char {
    if 0 <= d && d < 10 {
        (('0' as int + d) as u8) as char
    } else {
        (('A' as int + d - 10) as u8) as char
    }
}

/// The four upper-case hexadecimal digits of `v`, leading zeros included.
pub open spec fn upper_hex4(v: u16) -> Seq<char> {
    seq![
        upper_hex_digit(v as int / 4096),
        upper_hex_digit((v as int / 256) % 16),
        upper_hex_digit((v as int / 16) % 16),
        upper_hex_digit(v as int % 16),
    ]
}

/// The text `(GGGG,EEEE)` of a tag, in upper-case hexadecimal digits.
pub open spec fn canonical_form(tag: Tag) -> Seq<char> {
    seq!['('] + upper_hex4(tag.0) + seq![','] + upper_hex4(tag.1) + seq![')']
}

/// The text `GGGG,EEEE` of a tag.
pub open spec fn comma_form(tag: Tag) -> Seq<char> {
    upper_hex4(tag.0) + seq![','] + upper_hex4(tag.1)
}

/// The text `GGGGEEEE` of a tag.
pub open spec fn plain_form(tag: Tag) -> Seq<char> {
    upper_hex4(tag.0) + upper_hex4(tag.1)
}

/// Four upper-case digits are hexadecimal digits and write the number they
/// were made from.
pub proof fn lemma_upper_hex4(v: u16)
    ensures
        upper_hex4(v).len() == 4,
        is_hex4(upper_hex4(v), 0),
        hex4_value(upper_hex4(v), 0) == v,
{
    let n = v as int;
    let d3 = n / 4096;
    let d2 = (n / 256) % 16;
    let d1 = (n / 16) % 16;
    let d0 = n % 16;
    lemma_hex_places(n);
    lemma_upper_hex_digit(d3);
    lemma_upper_hex_digit(d2);
    lemma_upper_hex_digit(d1);
    lemma_upper_hex_digit(d0);
    let s = upper_hex4(v);
    assert(s.len() == 4);
    assert(s[0] == upper_hex_digit(d3));
    assert(s[1] == upper_hex_digit(d2));
    assert(s[2] == upper_hex_digit(d1));
    assert(s[3] == upper_hex_digit(d0));
    assert(hex4_value(s, 0) == d3 * 4096 + d2 * 256 + d1 * 16 + d0);
}

/// A number below 65536 is the sum of its four hexadecimal places.
proof fn lemma_hex_places(n: int)
    requires
        0 <= n < 65536,
    ensures
        0 <= n / 4096 < 16,
        n == (n / 4096) * 4096 + ((n / 256) % 16) * 256 + ((n / 16) % 16) * 16 + n % 16,
{
}

/// An upper-case digit is a hexadecimal digit and stands for the number it
/// was made from.
proof fn lemma_upper_hex_digit(d: int)
    requires
        0 <= d < 16,
    ensures
        is_hex_digit(upper_hex_digit(d)),
        hex_digit_value(upper_hex_digit(d)) == d,
{
}

/// Every tag is read back from each of its three numeric forms.
pub proof fn lemma_numeric_forms_agree(tag: Tag)
    ensures
        numeric_form(plain_form(tag)) == Some(tag),
        numeric_form(comma_form(tag)) == Some(tag),
        numeric_form(canonical_form(tag)) == Some(tag),
{
    lemma_upper_hex4(tag.0);
    lemma_upper_hex4(tag.1);
}

/// What dicom-core's parser of tags makes of `raw`.
///
/// The body calls `Tag::from_str` of dicom-core. The parser goes by the
/// length of the text in bytes and cuts an eight-byte text in the middle
/// without looking, so only ASCII text is handed to it. Of such text it
/// accepts exactly the three numeric forms, digits in either case, and reads
/// each group of four digits as one hexadecimal number.
#[verifier::external_body]
fn parse_numeric(raw: &str) -> (r: Option<Tag>)
    requires
        vstd::utf8::is_ascii_chars(raw@),
    ensures
        r == numeric_form(raw@),
{
    match raw.parse::<dicom_core::Tag>() {
        Ok(tag) => Some(Tag(tag.0, tag.1)),
        Err(_) => None,
    }
}

/// The text that dicom-core prints for `tag`.
///
/// The body calls `to_string` on dicom-core's `Tag`, whose `Display` writes
/// `(GGGG,EEEE)` with both numbers as four upper-case hexadecimal digits.
#[verifier::external_body]
fn canonical_text(tag: Tag) -> (r: String)
    ensures
        r@ == canonical_form(tag),
{
    dicom_core::Tag(tag.0, tag.1).to_string()
}

/// The tag that `raw` writes numerically, if it does.
pub fn numeric_tag(raw: &str) -> (r: Option<Tag>)
    ensures
        r == numeric_form(raw@),
{
    if raw.is_ascii() {
        parse_numeric(raw)
    } else {
        None
    }
}

/// The canonical text `(GGGG,EEEE)` of `tag`.
pub fn canonical_string(tag: Tag) -> (r: String)
    ensures
        r@ == canonical_form(tag),
{
    canonical_text(tag)
}

/// An identifier that is neither a numeric form nor a known alias.
#[derive(Clone, Debug, PartialEq, Eq)]
pub struct TagParseError(pub String);

impl TagParseError {
    /// The message for the user, which names the rejected identifier.
    pub fn message(&self) -> (m: String)
        ensures
            m@ == "Failed to parse tag: "@ + self.0@,
    {
        let head: String = "Failed to parse tag: ".to_owned();
        head.concat(self.0.as_str())
    }
}

/// The tag that the identifier `raw` stands for: what it writes
/// numerically, else what the dictionary files under it as an alias.
pub open spec fn resolution(raw: Seq<char>) -> Option<Tag> {
    match numeric_form(raw) {
        Some(tag) => Some(tag),
        None => tag_by_name(raw),
    }
}

/// The name under which `tag` is shown: its dictionary alias, else its
/// canonical form.
pub open spec fn display_name(tag: Tag) -> Seq<char> {
    match alias_by_tag(tag) {
        Some(alias) => alias,
        None => canonical_form(tag),
    }
}

/// Chooses between the two readings of `raw`: the numeric one wins, the
/// alias comes second, and with neither `raw` is rejected.
pub fn first_match(raw: &str, numeric: Option<Tag>, alias: Option<Tag>) -> (r: Result<
    Tag,
    TagParseError,
>)
    ensures
        match numeric {
            Some(tag) => r == Ok::<Tag, TagParseError>(tag),
            None => match alias {
                Some(tag) => r == Ok::<Tag, TagParseError>(tag),
                None => r matches Err(e) && e.0@ == raw@,
            },
        },
{
    match numeric {
        Some(tag) => Ok(tag),
        None => match alias {
            Some(tag) => Ok(tag),
            None => Err(TagParseError(raw.to_owned())),
        },
    }
}

/// The name for a tag, given what the dictionary said of it.
pub fn alias_or_canonical(alias: Option<String>, tag: Tag) -> (r: String)
    ensures
        match alias {
            Some(text) => r@ == text@,
            None => r@ == canonical_form(tag),
        },
{
    match alias {
        Some(text) => text,
        None => canonical_string(tag),
    }
}

impl Tag {
    /// The tag as one number: the group in the upper sixteen bits, the
    /// element in the lower.
    pub open spec fn code_spec(self) -> u32 {
        (self.0 as int * 65536 + self.1 as int) as u32
    }

    /// The tag as one number, which no other tag has.
    pub fn code(self) -> (c: u32)
        ensures
            c == self.code_spec(),
    {
        let group: u32 = self.0 as u32;
        let element: u32 = self.1 as u32;
        group * 65536 + element
    }

    /// Two tags with the same code are the same tag.
    pub proof fn lemma_code_is_injective(self, other: Tag)
        requires
            self.code_spec() == other.code_spec(),
        ensures
            self == other,
    {
    }

    /// Resolves an identifier as the user wrote it. The numeric forms are
    /// tried first; the dictionary is asked only when `raw` is in none of
    /// them. The error holds `raw`.
    pub fn from_str(raw: &str) -> (r: Result<Tag, TagParseError>)
        ensures
            match resolution(raw@) {
                Some(tag) => r == Ok::<Tag, TagParseError>(tag),
                None => r matches Err(e) && e.0@ == raw@,
            },
    {
        let numeric = numeric_tag(raw);
        let alias = match numeric {
            Some(_) => None,
            None => lookup_name(raw),
        };
        first_match(raw, numeric, alias)
    }
}

/// The name under which `tag` is shown in headers and messages.
pub fn tag_to_alias(tag: Tag) -> (r: String)
    ensures
        r@ == display_name(tag),
{
    alias_or_canonical(lookup_tag(tag), tag)
}

/// The three numeric forms of a tag resolve to that tag, whatever the
/// dictionary holds.
pub proof fn lemma_numeric_forms_resolve(tag: Tag)
    ensures
        resolution(plain_form(tag)) == Some(tag),
        resolution(comma_form(tag)) == Some(tag),
        resolution(canonical_form(tag)) == Some(tag),
{
    lemma_numeric_forms_agree(tag);
}

/// The three ways of writing the same eight hexadecimal digits resolve to
/// the same tag.
pub proof fn lemma_numeric_forms_same_value(group: Seq<char>, element: Seq<char>)
    requires
        is_hex4(group, 0),
        group.len() == 4,
        is_hex4(element, 0),
        element.len() == 4,
    ensures
        resolution(group + element) == Some(
            Tag(hex4_value(group, 0) as u16, hex4_value(element, 0) as u16),
        ),
        resolution(group + seq![','] + element) == resolution(group + element),
        resolution(seq!['('] + group + seq![','] + element + seq![')']) == resolution(
            group + element,
        ),
{
}

/// A tag that has no alias is shown in a form that resolves back to it.
pub proof fn lemma_canonical_name_resolves(tag: Tag)
    requires
        alias_by_tag(tag) is None,
    ensures
        resolution(display_name(tag)) == Some(tag),
{
    lemma_numeric_forms_agree(tag);
}

/// Whether the dictionary knows `alias` in both directions: it files a tag
/// under the alias and gives the alias back for that tag.
pub open spec fn known_alias(alias: Seq<char>) -> bool {
    match tag_by_name(alias) {
        Some(tag) => alias_by_tag(tag) == Some(alias),
        None => false,
    }
}

/// Resolving an alias that the dictionary knows and that is no numeric form,
/// and then taking the display name of the tag, gives the alias back.
pub proof fn lemma_display_name_inverts_resolution(alias: Seq<char>)
    requires
        numeric_form(alias) is None,
        known_alias(alias),
    ensures
        resolution(alias) matches Some(tag) && display_name(tag) == alias,
{
}

/// Whether `alias` resolves to a tag whose display name is `alias` again.
pub fn alias_round_trips(alias: &str) -> (b: bool)
    ensures
        b == (resolution(alias@) matches Some(tag) && display_name(tag) == alias@),
        numeric_form(alias@) is None && known_alias(alias@) ==> b,
{
    proof {
        if numeric_form(alias@) is None && known_alias(alias@) {
            lemma_display_name_inverts_resolution(alias@);
        }
    }
    match Tag::from_str(alias) {
        Ok(tag) => {
            let name = tag_to_alias(tag);
            let given: String = alias.to_owned();
            name == given
        },
        Err(_) => false,
    }
}

} // verus!
