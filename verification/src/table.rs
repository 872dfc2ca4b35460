//! The table of a run: a header, a row for each file that was read, and the
//! list of the files that were not.

use crate::csv_text::{
    append_record, encoded_records, equal_lengths, record_texts, UnequalLengths,
};
use crate::extract::{holds_values_of, ExtractionResult, FileOutcome, OpenError};
use crate::lines::texts;
use crate::tag::{display_name, tag_to_alias, Tag};
use vstd::prelude::*;

verus! {

/// The header, the rows and the failures of a run.
#[derive(Clone, Debug, PartialEq, Eq)]
pub struct Table {
    pub header: Vec<String>,
    /// One row for each file that was read, in the order of the files.
    pub rows: Vec<Vec<String>>,
    /// The files that were not read, in the order of the files.
    pub failures: Vec<OpenError>,
}

/// The title of the first column.
pub open spec fn file_name_title() -> Seq<char> {
    "FileName"@
}

/// The header for `tags`: the title of the file name column, then the
/// display name of each tag, in order.
pub open spec fn header_of(tags: Seq<Tag>) -> Seq<Seq<char>> {
    seq![file_name_title()] + Seq::new(tags.len(), |i: int| display_name(tags[i]))
}

/// The row for one file: its name, then the text held for each tag, in
/// order, empty where none is held.
pub open spec fn row_of(result: ExtractionResult, tags: Seq<Tag>) -> Seq<Seq<char>> {
    seq![result.file.name@] + Seq::new(tags.len(), |i: int| result.value_spec(tags[i]))
}

/// The rows for the first `n` outcomes: one for each success, in order.
pub open spec fn rows_of(outcomes: Seq<FileOutcome>, tags: Seq<Tag>, n: int) -> Seq<
    Seq<Seq<char>>,
>
    decreases n,
{
    if n <= 0 {
        Seq::empty()
    } else {
        match outcomes[n - 1] {
            FileOutcome::Success(result) => rows_of(outcomes, tags, n - 1).push(
                row_of(result, tags),
            ),
            FileOutcome::Failure(_) => rows_of(outcomes, tags, n - 1),
        }
    }
}

/// The failures among the first `n` outcomes, in order.
pub open spec fn failures_of(outcomes: Seq<FileOutcome>, n: int) -> Seq<OpenError>
    decreases n,
{
    if n <= 0 {
        Seq::empty()
    } else {
        match outcomes[n - 1] {
            FileOutcome::Success(_) => failures_of(outcomes, n - 1),
            FileOutcome::Failure(error) => failures_of(outcomes, n - 1).push(error),
        }
    }
}

/// The records of a table: its header, then its rows.
pub open spec fn records_of(header: Seq<Seq<char>>, rows: Seq<Seq<Seq<char>>>) -> Seq<
    Seq<Seq<char>>,
> {
    seq![header] + rows
}

/// Every file of a batch gives a row or a failure, never both: the rows and
/// the failures together are as many as the outcomes. Every row has a cell
/// for the file name and one for each tag.
pub proof fn lemma_table_counts(outcomes: Seq<FileOutcome>, tags: Seq<Tag>, n: int)
    requires
        0 <= n <= outcomes.len(),
    ensures
        rows_of(outcomes, tags, n).len() + failures_of(outcomes, n).len() == n,
        header_of(tags).len() == 1 + tags.len(),
        forall|i: int|
            0 <= i < rows_of(outcomes, tags, n).len() ==> (#[trigger] rows_of(
                outcomes,
                tags,
                n,
            )[i]).len() == 1 + tags.len(),
    decreases n,
{
    if n > 0 {
        lemma_table_counts(outcomes, tags, n - 1);
    }
}

/// The row of the file at `index` stands after the rows of the files before
/// it that were read, whatever became of the files after it.
pub proof fn lemma_row_position(
    outcomes: Seq<FileOutcome>,
    tags: Seq<Tag>,
    index: int,
    result: ExtractionResult,
)
    requires
        0 <= index < outcomes.len(),
        outcomes[index] == FileOutcome::Success(result),
    ensures
        rows_of(outcomes, tags, index).len() < rows_of(
            outcomes,
            tags,
            outcomes.len() as int,
        ).len(),
        rows_of(outcomes, tags, outcomes.len() as int)[rows_of(outcomes, tags, index).len() as int]
            == row_of(result, tags),
{
    let all = rows_of(outcomes, tags, outcomes.len() as int);
    let upto = rows_of(outcomes, tags, index + 1);
    let k = rows_of(outcomes, tags, index).len() as int;
    lemma_rows_extend(outcomes, tags, index + 1, outcomes.len() as int);
    assert(upto[k] == row_of(result, tags));
    assert(all.take(upto.len() as int)[k] == upto[k]);
}

/// The rows of the first outcomes open the rows of all outcomes.
proof fn lemma_rows_extend(outcomes: Seq<FileOutcome>, tags: Seq<Tag>, n: int, m: int)
    requires
        0 <= n <= m,
    ensures
        rows_of(outcomes, tags, n).len() <= rows_of(outcomes, tags, m).len(),
        rows_of(outcomes, tags, m).take(rows_of(outcomes, tags, n).len() as int) == rows_of(
            outcomes,
            tags,
            n,
        ),
    decreases m - n,
{
    if n < m {
        lemma_rows_extend(outcomes, tags, n, m - 1);
        let shorter = rows_of(outcomes, tags, m - 1);
        let longer = rows_of(outcomes, tags, m);
        let k = rows_of(outcomes, tags, n).len() as int;
        assert(longer.take(k) == shorter.take(k));
    } else {
        let rows = rows_of(outcomes, tags, n);
        assert(rows.take(rows.len() as int) == rows);
    }
}

/// A tag that a file lacks is no error and costs no column: the row of the
/// file has a cell for every tag, and the cell of the missing one is empty.
pub proof fn lemma_missing_field_is_empty_cell(
    result: ExtractionResult,
    texts: Map<(u16, u16), Option<Seq<char>>>,
    tags: Seq<Tag>,
    i: int,
)
    requires
        holds_values_of(result, texts, tags),
        0 <= i < tags.len(),
        !texts.contains_key((tags[i].0, tags[i].1)),
    ensures
        row_of(result, tags).len() == 1 + tags.len(),
        row_of(result, tags)[i + 1] == Seq::<char>::empty(),
{
    assert(tags.contains(tags[i]));
    assert(result.value_spec(tags[i]) == Seq::<char>::empty());
}

/// The header for `tags`.
pub fn header(tags: &Vec<Tag>) -> (cells: Vec<String>)
    ensures
        texts(cells@) == header_of(tags@),
{
    let mut cells: Vec<String> = Vec::new();
    cells.push("FileName".to_owned());
    let mut i: usize = 0;
    while i < tags.len()
        invariant
            0 <= i <= tags.len(),
            cells@.len() == 1 + i,
            cells@[0]@ == file_name_title(),
            forall|j: int| 0 <= j < i ==> (#[trigger] cells@[j + 1])@ == display_name(tags@[j]),
        decreases tags.len() - i,
    {
        cells.push(tag_to_alias(tags[i]));
        i = i + 1;
    }
    assert(texts(cells@) == header_of(tags@)) by {
        assert forall|j: int| 0 <= j < cells@.len() implies texts(cells@)[j] == header_of(
            tags@,
        )[j] by {
            if j > 0 {
                assert(cells@[(j - 1) + 1]@ == display_name(tags@[j - 1]));
            }
        }
    }
    cells
}

/// The row for one file.
pub fn row(result: &ExtractionResult, tags: &Vec<Tag>) -> (cells: Vec<String>)
    ensures
        texts(cells@) == row_of(*result, tags@),
{
    let mut cells: Vec<String> = Vec::new();
    cells.push(result.file.name.clone());
    let mut i: usize = 0;
    while i < tags.len()
        invariant
            0 <= i <= tags.len(),
            cells@.len() == 1 + i,
            cells@[0]@ == result.file.name@,
            forall|j: int| 0 <= j < i ==> (#[trigger] cells@[j + 1])@ == result.value_spec(tags@[j]),
        decreases tags.len() - i,
    {
        cells.push(result.value_for(tags[i]));
        i = i + 1;
    }
    assert(texts(cells@) == row_of(*result, tags@)) by {
        assert forall|j: int| 0 <= j < cells@.len() implies texts(cells@)[j] == row_of(
            *result,
            tags@,
        )[j] by {
            if j > 0 {
                assert(cells@[(j - 1) + 1]@ == result.value_spec(tags@[j - 1]));
            }
        }
    }
    cells
}

/// Lays the outcomes of a batch out as a table. The outcomes come in the
/// order of the files; the rows keep that order, and so do the failures. A
/// file that was not read has no row.
pub fn assemble(outcomes: Vec<FileOutcome>, tags: &Vec<Tag>) -> (table: Table)
    ensures
        texts(table.header@) == header_of(tags@),
        record_texts(table.rows@) == rows_of(outcomes@, tags@, outcomes@.len() as int),
        table.failures@ == failures_of(outcomes@, outcomes@.len() as int),
        table.rows@.len() + table.failures@.len() == outcomes@.len(),
        table.header@.len() == 1 + tags@.len(),
        forall|i: int|
            0 <= i < table.rows@.len() ==> (#[trigger] table.rows@[i])@.len() == 1 + tags@.len(),
{
    let ghost all = outcomes@;
    let mut rows: Vec<Vec<String>> = Vec::new();
    let mut failures: Vec<OpenError> = Vec::new();
    assert(record_texts(rows@) == rows_of(all, tags@, 0));
    for outcome in it: outcomes
        invariant
            it.seq() == all,
            record_texts(rows@) == rows_of(all, tags@, it.index() as int),
            failures@ == failures_of(all, it.index() as int),
    {
        match outcome {
            FileOutcome::Success(result) => {
                let ghost before = rows@;
                let cells = row(&result, tags);
                rows.push(cells);
                assert(record_texts(rows@) == record_texts(before).push(row_of(result, tags@)));
            },
            FileOutcome::Failure(error) => {
                failures.push(error);
            },
        }
    }
    proof {
        lemma_table_counts(all, tags@, all.len() as int);
        assert(record_texts(rows@).len() == rows@.len());
        assert forall|i: int| 0 <= i < rows@.len() implies (#[trigger] rows@[i])@.len() == 1
            + tags@.len() by {
            assert(record_texts(rows@)[i] == texts(rows@[i]@));
        }
    }
    let header = header(tags);
    assert(texts(header@).len() == header@.len());
    Table { header, rows, failures }
}

impl Table {
    /// The table as CSV text: the header, then the rows. A table in which a
    /// row has another number of cells than the header is refused.
    pub fn to_csv(&self) -> (r: Result<Vec<u8>, UnequalLengths>)
        ensures
            ({
                let records = records_of(texts(self.header@), record_texts(self.rows@));
                match r {
                    Ok(bytes) => equal_lengths(records, records.len() as int) && bytes@
                        == encoded_records(records, records.len() as int),
                    Err(e) => 0 < e.record <= self.rows@.len() && equal_lengths(
                        records,
                        e.record as int,
                    ) && e.expected == self.header@.len() && e.found == self.rows@[e.record
                        - 1].len() && e.found != e.expected,
                }
            }),
    {
        let ghost wanted = records_of(texts(self.header@), record_texts(self.rows@));
        let expected = self.header.len();
        let mut bytes: Vec<u8> = Vec::new();
        append_record(&mut bytes, &self.header);
        assert(bytes@ == encoded_records(wanted, 1)) by {
            assert(encoded_records(wanted, 0) + bytes@ == bytes@);
        }
        let mut i: usize = 0;
        while i < self.rows.len()
            invariant
                0 <= i <= self.rows.len(),
                wanted == records_of(texts(self.header@), record_texts(self.rows@)),
                expected == self.header@.len(),
                equal_lengths(wanted, 1 + i),
                bytes@ == encoded_records(wanted, 1 + i),
            decreases self.rows.len() - i,
        {
            let cells = &self.rows[i];
            assert(wanted[1 + i] == texts(cells@));
            if cells.len() != expected {
                return Err(UnequalLengths { record: i + 1, expected, found: cells.len() });
            }
            append_record(&mut bytes, cells);
            i = i + 1;
        }
        Ok(bytes)
    }
}

} // verus!
