use szkdcm::coordinator::Coordinator;
use szkdcm::extract::{FileOutcome, OpenError};
use szkdcm::input::SourceFile;

fn failure(name: &str) -> FileOutcome {
    FileOutcome::Failure(OpenError {
        file: SourceFile { path: name.to_string(), name: name.to_string() },
        reason: format!("cannot read {name}"),
    })
}

#[test]
fn outcomes_come_out_in_file_order() {
    let names = ["a", "b", "c", "d", "e"];
    for order in [[0, 1, 2, 3, 4], [4, 3, 2, 1, 0], [2, 0, 4, 1, 3], [1, 4, 0, 3, 2]] {
        let mut coordinator = Coordinator::new(names.len());
        for index in order {
            assert!(!coordinator.is_complete());
            assert!(coordinator.record(index, failure(names[index])));
        }
        assert!(coordinator.is_complete());
        let expected: Vec<FileOutcome> = names.iter().map(|name| failure(name)).collect();
        assert_eq!(coordinator.finish(), Some(expected));
    }
}

#[test]
fn missing_outcome_gives_nothing() {
    let mut coordinator = Coordinator::new(3);
    assert_eq!(coordinator.len(), 3);
    assert!(coordinator.record(0, failure("a")));
    assert!(coordinator.record(2, failure("c")));
    assert!(!coordinator.is_complete());
    assert_eq!(coordinator.finish(), None);
}

#[test]
fn second_outcome_for_a_file_is_refused() {
    let mut coordinator = Coordinator::new(2);
    assert!(coordinator.record(1, failure("first")));
    assert!(!coordinator.record(1, failure("second")));
    assert!(coordinator.record(0, failure("zero")));
    assert_eq!(coordinator.finish(), Some(vec![failure("zero"), failure("first")]));
}

#[test]
fn outcome_outside_the_batch_is_refused() {
    let mut coordinator = Coordinator::new(2);
    assert!(!coordinator.record(2, failure("x")));
    assert!(!coordinator.record(usize::MAX, failure("y")));
    assert!(!coordinator.is_complete());
}

#[test]
fn empty_batch_is_complete() {
    let mut coordinator = Coordinator::new(0);
    assert!(coordinator.is_complete());
    assert!(!coordinator.record(0, failure("x")));
    assert_eq!(coordinator.finish(), Some(vec![]));
}
