use dicom_core::value::PrimitiveValue;
use dicom_core::{DataElement, VR};
use dicom_object::InMemDicomObject;
use szkdcm::csv_text::{append_record, encode, UnequalLengths};
use szkdcm::extract::{extract, ExtractionResult, FileOutcome, OpenError};
use szkdcm::input::SourceFile;
use szkdcm::table::{assemble, header, row, Table};
use szkdcm::tag::Tag;

const PATIENT_NAME: Tag = Tag(0x0010, 0x0010);
const PATIENT_ID: Tag = Tag(0x0010, 0x0020);

fn strings(items: &[&str]) -> Vec<String> {
    items.iter().map(|s| s.to_string()).collect()
}

fn source(name: &str) -> SourceFile {
    SourceFile { path: format!("in/{name}"), name: name.to_string() }
}

fn object(fields: &[(Tag, &str)]) -> InMemDicomObject {
    InMemDicomObject::from_element_iter(fields.iter().map(|(tag, text)| {
        DataElement::new(dicom_core::Tag(tag.0, tag.1), VR::LO, PrimitiveValue::from(*text))
    }))
}

fn read(name: &str, fields: &[(Tag, &str)], tags: &Vec<Tag>) -> FileOutcome {
    extract(source(name), Ok(&object(fields)), tags)
}

fn unread(name: &str) -> FileOutcome {
    extract(source(name), Err(format!("{name} is corrupt")), &vec![])
}

fn csv(records: &[Vec<String>]) -> String {
    String::from_utf8(encode(&records.to_vec()).unwrap()).unwrap()
}

#[test]
fn header_names_the_file_column_and_each_tag() {
    let tags = vec![PATIENT_NAME, PATIENT_ID, Tag(0x1234, 0x5678), PATIENT_NAME];
    assert_eq!(
        header(&tags),
        strings(&["FileName", "PatientName", "PatientID", "(1234,5678)", "PatientName"])
    );
    assert_eq!(header(&vec![]), strings(&["FileName"]));
}

#[test]
fn row_has_the_file_name_and_a_cell_for_each_tag() {
    let tags = vec![PATIENT_NAME, PATIENT_ID];
    let outcome = read("a.dcm", &[(PATIENT_NAME, "John^Doe")], &tags);
    let result = match outcome {
        FileOutcome::Success(result) => result,
        FileOutcome::Failure(_) => unreachable!(),
    };
    assert_eq!(row(&result, &tags), strings(&["a.dcm", "John^Doe", ""]));
}

#[test]
fn row_defaults_to_empty_cells_for_tags_not_held() {
    let result = ExtractionResult { file: source("x"), values: Default::default() };
    assert_eq!(row(&result, &vec![PATIENT_ID, PATIENT_NAME]), strings(&["x", "", ""]));
    assert_eq!(row(&result, &vec![]), strings(&["x"]));
}

#[test]
fn corrupt_file_in_the_middle_gives_no_row() {
    let tags = vec![PATIENT_ID];
    let outcomes = vec![
        read("1.dcm", &[(PATIENT_ID, "one")], &tags),
        unread("2.dcm"),
        read("3.dcm", &[(PATIENT_ID, "three")], &tags),
    ];
    let table = assemble(outcomes, &tags);
    assert_eq!(table.header, strings(&["FileName", "PatientID"]));
    assert_eq!(table.rows, vec![strings(&["1.dcm", "one"]), strings(&["3.dcm", "three"])]);
    assert_eq!(
        table.failures,
        vec![OpenError { file: source("2.dcm"), reason: "2.dcm is corrupt".to_string() }]
    );
    assert_eq!(
        String::from_utf8(table.to_csv().unwrap()).unwrap(),
        "FileName,PatientID\n1.dcm,one\n3.dcm,three\n"
    );
}

#[test]
fn rows_and_failures_add_up_to_the_files() {
    let tags = vec![PATIENT_NAME, PATIENT_ID, PATIENT_NAME];
    let outcomes = vec![
        unread("a"),
        read("b", &[], &tags),
        unread("c"),
        unread("d"),
        read("e", &[(PATIENT_NAME, "E")], &tags),
    ];
    let count = outcomes.len();
    let table = assemble(outcomes, &tags);
    assert_eq!(table.rows.len() + table.failures.len(), count);
    assert_eq!(table.rows.len(), 2);
    assert_eq!(table.header.len(), 1 + tags.len());
    for cells in &table.rows {
        assert_eq!(cells.len(), 1 + tags.len());
    }
    assert_eq!(table.rows[1], strings(&["e", "E", "", "E"]));
    let names: Vec<&str> = table.failures.iter().map(|f| f.file.name.as_str()).collect();
    assert_eq!(names, vec!["a", "c", "d"]);
}

#[test]
fn empty_batch_gives_only_a_header() {
    let table = assemble(vec![], &vec![PATIENT_ID]);
    assert!(table.rows.is_empty());
    assert!(table.failures.is_empty());
    assert_eq!(table.to_csv(), Ok(b"FileName,PatientID\n".to_vec()));
}

#[test]
fn plain_fields_are_written_as_they_are() {
    assert_eq!(csv(&[strings(&["a", "b c", "d"])]), "a,b c,d\n");
    assert_eq!(csv(&[strings(&["a", "", ""])]), "a,,\n");
    assert_eq!(csv(&[strings(&["", ""])]), ",\n");
    assert_eq!(csv(&[strings(&["John^Doe", "0.5\\0.5"])]), "John^Doe,0.5\\0.5\n");
    assert_eq!(csv(&[strings(&["\u{e9}t\u{e9}", "\u{4e2d}"])]), "\u{e9}t\u{e9},\u{4e2d}\n");
}

#[test]
fn fields_with_special_characters_are_quoted() {
    assert_eq!(csv(&[strings(&["a,b", "c"])]), "\"a,b\",c\n");
    assert_eq!(csv(&[strings(&["say \"hi\"", "x"])]), "\"say \"\"hi\"\"\",x\n");
    assert_eq!(csv(&[strings(&["two\nlines", "x"])]), "\"two\nlines\",x\n");
    assert_eq!(csv(&[strings(&["cr\rhere", "x"])]), "\"cr\rhere\",x\n");
    assert_eq!(csv(&[strings(&["\"", "\"\""])]), "\"\"\"\",\"\"\"\"\"\"\n");
    assert_eq!(csv(&[strings(&["x", ","])]), "x,\",\"\n");
}

#[test]
fn record_of_one_empty_field_is_a_pair_of_quotes() {
    assert_eq!(csv(&[strings(&[""])]), "\"\"\n");
    assert_eq!(csv(&[Vec::new()]), "\"\"\n");
    assert_eq!(csv(&[]), "");
}

#[test]
fn long_field_is_written_whole() {
    let long = "ab\"c,".repeat(5000);
    let expected = format!("\"{}\",tail\n", long.replace('"', "\"\""));
    assert_eq!(csv(&[vec![long, "tail".to_string()]]), expected);
    let plain = "x".repeat(20000);
    assert_eq!(csv(&[vec![plain.clone()]]), format!("{plain}\n"));
}

#[test]
fn records_follow_each_other() {
    let records = [strings(&["h1", "h2"]), strings(&["a", "b"]), strings(&["c", "d,e"])];
    assert_eq!(csv(&records), "h1,h2\na,b\nc,\"d,e\"\n");
    let mut bytes = b"kept".to_vec();
    append_record(&mut bytes, &strings(&["a", "b"]));
    assert_eq!(bytes, b"kepta,b\n".to_vec());
}

#[test]
fn record_of_another_length_is_refused() {
    let records = vec![strings(&["a", "b"]), strings(&["c", "d"]), strings(&["e"]), strings(&[])];
    assert_eq!(encode(&records), Err(UnequalLengths { record: 2, expected: 2, found: 1 }));
    let table = Table {
        header: strings(&["FileName"]),
        rows: vec![strings(&["a"]), strings(&["b", "extra"])],
        failures: vec![],
    };
    assert_eq!(table.to_csv(), Err(UnequalLengths { record: 2, expected: 1, found: 2 }));
}

#[test]
fn values_with_commas_are_quoted_in_the_table() {
    let tags = vec![PATIENT_NAME];
    let table = assemble(vec![read("a,b.dcm", &[(PATIENT_NAME, "Doe, \"J\"")], &tags)], &tags);
    assert_eq!(
        String::from_utf8(table.to_csv().unwrap()).unwrap(),
        "FileName,PatientName\n\"a,b.dcm\",\"Doe, \"\"J\"\"\"\n"
    );
}
