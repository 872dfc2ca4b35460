use dicom_core::value::{DataSetSequence, PrimitiveValue};
use dicom_core::{DataElement, Length, VR};
use dicom_object::InMemDicomObject;
use szkdcm::extract::{
    dump_tags, extract, value_text, ExtractionResult, FieldValue, FileOutcome, OpenError,
};
use szkdcm::input::SourceFile;
use szkdcm::tag::Tag;

const PATIENT_NAME: Tag = Tag(0x0010, 0x0010);
const PATIENT_ID: Tag = Tag(0x0010, 0x0020);
const ROWS: Tag = Tag(0x0028, 0x0010);
const PIXEL_SPACING: Tag = Tag(0x0028, 0x0030);
const REFERENCED_SERIES: Tag = Tag(0x0008, 0x1115);

fn text_element(tag: Tag, vr: VR, text: &str) -> dicom_object::mem::InMemElement {
    DataElement::new(dicom_core::Tag(tag.0, tag.1), vr, PrimitiveValue::from(text))
}

fn sample() -> InMemDicomObject {
    let empty_sequence: DataSetSequence<InMemDicomObject> =
        DataSetSequence::new(Vec::new(), Length::UNDEFINED);
    InMemDicomObject::from_element_iter([
        text_element(PATIENT_NAME, VR::PN, "John^Doe"),
        DataElement::new(dicom_core::Tag(ROWS.0, ROWS.1), VR::US, PrimitiveValue::from(512_u16)),
        DataElement::new(
            dicom_core::Tag(PIXEL_SPACING.0, PIXEL_SPACING.1),
            VR::DS,
            PrimitiveValue::Strs(vec!["0.5".to_string(), "0.25 ".to_string()].into()),
        ),
        DataElement::new(
            dicom_core::Tag(REFERENCED_SERIES.0, REFERENCED_SERIES.1),
            VR::SQ,
            empty_sequence,
        ),
    ])
}

fn source(name: &str) -> SourceFile {
    SourceFile { path: format!("dir/{name}"), name: name.to_string() }
}

fn success(outcome: FileOutcome) -> ExtractionResult {
    match outcome {
        FileOutcome::Success(result) => result,
        FileOutcome::Failure(error) => panic!("not read: {}", error.reason),
    }
}

#[test]
fn missing_field_is_an_empty_text() {
    let object = sample();
    let tags = vec![PATIENT_NAME, PATIENT_ID];
    let result = success(extract(source("a.dcm"), Ok(&object), &tags));
    assert_eq!(result.file, source("a.dcm"));
    assert_eq!(result.value_for(PATIENT_NAME), "John^Doe");
    assert_eq!(result.value_for(PATIENT_ID), "");
    assert_eq!(result.values.len(), 2);
    assert_eq!(result.values.get(&PATIENT_ID.code()), Some(&String::new()));
}

#[test]
fn value_without_text_is_an_empty_text() {
    let object = sample();
    let values = dump_tags(&object, &vec![REFERENCED_SERIES, ROWS]);
    assert_eq!(values.get(&REFERENCED_SERIES.code()), Some(&String::new()));
    assert_eq!(values.get(&ROWS.code()), Some(&"512".to_string()));
}

#[test]
fn values_are_joined_and_trimmed_as_the_decoder_does() {
    let object = sample();
    let values = dump_tags(&object, &vec![PIXEL_SPACING]);
    assert_eq!(values.get(&PIXEL_SPACING.code()), Some(&"0.5\\0.25".to_string()));
}

#[test]
fn only_requested_tags_are_held() {
    let object = sample();
    let result = success(extract(source("a.dcm"), Ok(&object), &vec![ROWS, ROWS]));
    assert_eq!(result.values.len(), 1);
    assert_eq!(result.value_for(ROWS), "512");
    assert_eq!(result.value_for(PATIENT_NAME), "");
    let nothing = success(extract(source("a.dcm"), Ok(&object), &vec![]));
    assert!(nothing.values.is_empty());
}

#[test]
fn file_that_did_not_open_is_recorded() {
    let outcome = extract(source("bad.dcm"), Err("not a DICOM file".to_string()), &vec![ROWS]);
    assert_eq!(
        outcome,
        FileOutcome::Failure(OpenError {
            file: source("bad.dcm"),
            reason: "not a DICOM file".to_string(),
        })
    );
}

#[test]
fn cell_text_for_each_lookup() {
    assert_eq!(value_text(FieldValue::Absent), "");
    assert_eq!(value_text(FieldValue::NotText), "");
    assert_eq!(value_text(FieldValue::Text("CT".to_string())), "CT");
    assert_eq!(value_text(FieldValue::Text(String::new())), "");
}
