use szkdcm::input::{
    expand, expand_input, keeps_entry, DirEntry, InputPath, InvalidInputError, PathKind,
    SourceFile,
};

fn source(path: &str, name: &str) -> SourceFile {
    SourceFile { path: path.to_string(), name: name.to_string() }
}

fn entry(dir: &str, name: &str, is_file: bool) -> DirEntry {
    let extension = match name.rfind('.') {
        Some(at) if at > 0 => Some(name[at + 1..].to_string()),
        _ => None,
    };
    DirEntry { file: source(&format!("{dir}/{name}"), name), is_file, extension }
}

fn directory(path: &str, names: &[&str]) -> InputPath {
    InputPath {
        path: path.to_string(),
        kind: PathKind::Directory {
            entries: names.iter().map(|name| entry(path, name, true)).collect(),
        },
    }
}

fn file(path: &str, name: &str) -> InputPath {
    InputPath { path: path.to_string(), kind: PathKind::File { name: name.to_string() } }
}

#[test]
fn directory_keeps_entries_with_the_expected_extension() {
    let found = expand(&vec![directory("d", &["a.dcm", "b.txt", "c.dcm"])]);
    assert_eq!(found, Ok(vec![source("d/a.dcm", "a.dcm"), source("d/c.dcm", "c.dcm")]));
}

#[test]
fn extension_is_compared_exactly() {
    let names = ["a.DCM", "b.Dcm", "c.dcm2", "d.dc", "dcm", "e.dcm.bak", ".dcm", "f.tar.dcm"];
    let found = expand(&vec![directory("d", &names)]);
    assert_eq!(found, Ok(vec![source("d/f.tar.dcm", "f.tar.dcm")]));
}

#[test]
fn entry_that_is_no_regular_file_is_left_out() {
    let kept = entry("d", "a.dcm", true);
    let subdirectory = entry("d", "sub.dcm", false);
    assert!(keeps_entry(&kept));
    assert!(!keeps_entry(&subdirectory));
    assert!(!keeps_entry(&entry("d", "noextension", true)));
    assert!(!keeps_entry(&DirEntry {
        file: source("d/x", "x"),
        is_file: true,
        extension: Some(String::new()),
    }));
}

#[test]
fn named_file_is_kept_whatever_its_extension() {
    let found = expand(&vec![file("scan.txt", "scan.txt"), file("dir/raw", "raw")]);
    assert_eq!(found, Ok(vec![source("scan.txt", "scan.txt"), source("dir/raw", "raw")]));
}

#[test]
fn results_follow_the_order_of_the_inputs() {
    let inputs = vec![
        file("z.dcm", "z.dcm"),
        directory("d", &["b.dcm", "a.dcm", "skip.png"]),
        file("y", "y"),
        directory("e", &[]),
        directory("f", &["c.dcm"]),
    ];
    assert_eq!(
        expand(&inputs),
        Ok(vec![
            source("z.dcm", "z.dcm"),
            source("d/b.dcm", "b.dcm"),
            source("d/a.dcm", "a.dcm"),
            source("y", "y"),
            source("f/c.dcm", "c.dcm"),
        ])
    );
}

#[test]
fn path_that_is_neither_file_nor_directory_fails() {
    let missing = InputPath { path: "missing".to_string(), kind: PathKind::Other };
    let later = InputPath { path: "later".to_string(), kind: PathKind::Other };
    let inputs = vec![file("a.dcm", "a.dcm"), missing, directory("d", &["b.dcm"]), later];
    let error = expand(&inputs).unwrap_err();
    assert_eq!(error, InvalidInputError("missing".to_string()));
    assert_eq!(error.message(), "Invalid input: missing");
}

#[test]
fn nothing_found_is_no_error() {
    assert_eq!(expand(&vec![]), Ok(vec![]));
    assert_eq!(expand(&vec![directory("d", &["readme.md"])]), Ok(vec![]));
}

#[test]
fn expand_input_appends_and_leaves_the_list_on_failure() {
    let mut files = vec![source("first", "first")];
    assert_eq!(expand_input(&mut files, &directory("d", &["a.dcm", "b"])), Ok(()));
    assert_eq!(files, vec![source("first", "first"), source("d/a.dcm", "a.dcm")]);
    let bad = InputPath { path: "gone".to_string(), kind: PathKind::Other };
    assert_eq!(expand_input(&mut files, &bad), Err(InvalidInputError("gone".to_string())));
    assert_eq!(files.len(), 2);
}
