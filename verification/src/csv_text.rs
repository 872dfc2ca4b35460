//! Records as CSV text: fields separated by commas, a line feed after each
//! record, quotes where a field needs them.

use crate::lines::texts;
use vstd::prelude::*;
use vstd::utf8::encode_utf8;

verus! {

/// The byte for `,`.
pub const COMMA: u8 = 0x2C;

/// The byte for `"`.
pub const QUOTE: u8 = 0x22;

/// The byte for a line feed.
pub const LINE_FEED: u8 = 0x0A;

/// The byte for a carriage return.
pub const CARRIAGE_RETURN: u8 = 0x0D;

/// Whether a byte cannot stand in a field that is written without quotes.
pub open spec fn is_special(byte: u8) -> bool {
    byte == COMMA || byte == QUOTE || byte == LINE_FEED || byte == CARRIAGE_RETURN
}

/// Whether a field has to be written in quotes.
pub open spec fn needs_quotes(field: Seq<u8>) -> bool {
    exists|i: int| 0 <= i < field.len() && is_special(#[trigger] field[i])
}

/// The bytes of a field with each quote written twice.
pub open spec fn doubled_quotes(field: Seq<u8>) -> Seq<u8>
    decreases field.len(),
{
    if field.len() == 0 {
        Seq::empty()
    } else if field.last() == QUOTE {
        doubled_quotes(field.drop_last()) + seq![QUOTE, QUOTE]
    } else {
        doubled_quotes(field.drop_last()).push(field.last())
    }
}

/// A field as it is written: as it is, or between quotes with its own
/// quotes doubled where it holds a comma, a quote or a line break.
pub open spec fn encoded_field(field: Seq<u8>) -> Seq<u8> {
    if needs_quotes(field) {
        seq![QUOTE] + doubled_quotes(field) + seq![QUOTE]
    } else {
        field
    }
}

/// The first `n` fields of a record as they are written, with a comma
/// between one and the next.
pub open spec fn joined_fields(fields: Seq<Seq<u8>>, n: int) -> Seq<u8>
    decreases n,
{
    if n <= 0 {
        Seq::empty()
    } else if n == 1 {
        encoded_field(fields[0])
    } else {
        joined_fields(fields, n - 1) + seq![COMMA] + encoded_field(fields[n - 1])
    }
}

/// A record as it is written: its fields, then a line feed. A record that
/// would otherwise be written as nothing at all, having no field or one
/// empty field, is written as a pair of quotes.
pub open spec fn encoded_record(fields: Seq<Seq<u8>>) -> Seq<u8> {
    let body = joined_fields(fields, fields.len() as int);
    if body.len() == 0 {
        seq![QUOTE, QUOTE, LINE_FEED]
    } else {
        body.push(LINE_FEED)
    }
}

/// The UTF-8 bytes of each of `fields`.
pub open spec fn utf8_fields(fields: Seq<Seq<char>>) -> Seq<Seq<u8>> {
    Seq::new(fields.len(), |i: int| encode_utf8(fields[i]))
}

/// The texts of each of `records`.
pub open spec fn record_texts(records: Seq<Vec<String>>) -> Seq<Seq<Seq<char>>> {
    Seq::new(records.len(), |i: int| texts(records[i]@))
}

/// The first `n` of `records` as they are written, one after the other.
pub open spec fn encoded_records(records: Seq<Seq<Seq<char>>>, n: int) -> Seq<u8>
    decreases n,
{
    if n <= 0 {
        Seq::empty()
    } else {
        encoded_records(records, n - 1) + encoded_record(utf8_fields(records[n - 1]))
    }
}

/// Whether each of the first `n` of `records` has as many fields as the
/// first.
pub open spec fn equal_lengths(records: Seq<Seq<Seq<char>>>, n: int) -> bool {
    forall|i: int| 0 <= i < n ==> (#[trigger] records[i]).len() == records[0].len()
}

/// A record that has another number of fields than the first record.
#[derive(Clone, Copy, Debug, PartialEq, Eq, Structural)]
pub struct UnequalLengths {
    /// The position of the record, counted from zero.
    pub record: usize,
    /// The number of fields of the first record.
    pub expected: usize,
    /// The number of fields of this record.
    pub found: usize,
}

/// One record as the csv crate writes it.
///
/// The body makes a `csv::Writer` with the crate's defaults over an empty
/// `Vec`, calls `write_record` with the fields and takes the bytes back with
/// `into_inner`. With these defaults the writer separates fields by a comma,
/// ends the record with a line feed, puts a field between quotes exactly
/// where it holds a comma, a quote, a carriage return or a line feed, and
/// doubles the quotes inside it; a record of which no byte was written gets
/// a pair of quotes. Neither call fails here: writing into a `Vec` does not
/// fail, and a writer that has written no record yet has no field count to
/// hold this one to.
#[verifier::external_body]
fn encode_record(fields: &Vec<String>) -> (r: Option<Vec<u8>>)
    ensures
        match r {
            Some(bytes) => bytes@ == encoded_record(utf8_fields(texts(fields@))),
            None => false,
        },
{
    let mut writer = ::csv::Writer::from_writer(Vec::new());
    match writer.write_record(fields.iter()) {
        Ok(()) => match writer.into_inner() {
            Ok(bytes) => Some(bytes),
            Err(_) => None,
        },
        Err(_) => None,
    }
}

/// Appends one record, as CSV text, to `bytes`.
pub fn append_record(bytes: &mut Vec<u8>, fields: &Vec<String>)
    ensures
        final(bytes)@ == old(bytes)@ + encoded_record(utf8_fields(texts(fields@))),
{
    let mut written = encode_record(fields).unwrap();
    bytes.append(&mut written);
}

/// Writes `records` as CSV text, one after the other. Every record must
/// have as many fields as the first: the first that has not is reported,
/// and nothing is written.
pub fn encode(records: &Vec<Vec<String>>) -> (r: Result<Vec<u8>, UnequalLengths>)
    ensures
        match r {
            Ok(bytes) => equal_lengths(record_texts(records@), records@.len() as int) && bytes@
                == encoded_records(record_texts(records@), records@.len() as int),
            Err(e) => e.record < records@.len() && equal_lengths(
                record_texts(records@),
                e.record as int,
            ) && e.expected == records@[0].len() && e.found == records@[e.record as int].len()
                && e.found != e.expected,
        },
{
    let ghost all = record_texts(records@);
    let mut bytes: Vec<u8> = Vec::new();
    let mut i: usize = 0;
    while i < records.len()
        invariant
            0 <= i <= records.len(),
            all == record_texts(records@),
            equal_lengths(all, i as int),
            bytes@ == encoded_records(all, i as int),
        decreases records.len() - i,
    {
        let record = &records[i];
        assert(all[i as int] == texts(record@));
        assert(all[0] == texts(records@[0]@));
        let expected = records[0].len();
        if record.len() != expected {
            return Err(UnequalLengths { record: i, expected, found: record.len() });
        }
        append_record(&mut bytes, record);
        i = i + 1;
    }
    Ok(bytes)
}

} // verus!
