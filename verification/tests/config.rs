use org::config::Builder;
use org::error::OrgError;
use org::status_labels::StatusLabels;
use std::str::FromStr;

#[test]
fn default_labels() {
    assert_eq!(StatusLabels::default().iter(), vec!["TODO", "STARTED", "DONE"]);
}

#[test]
fn labels_from_a_string() {
    let labels = StatusLabels::from_str("WAIT,GO,ÉTÉ9").unwrap();
    assert_eq!(labels.iter(), vec!["WAIT", "GO", "ÉTÉ9"]);
    let empty = StatusLabels::parse("").unwrap();
    assert_eq!(empty.iter(), vec![""]);
    let gaps = StatusLabels::parse("A,,B,").unwrap();
    assert_eq!(gaps.iter(), vec!["A", "", "B", ""]);
}

#[test]
fn labels_with_other_characters_are_refused() {
    match StatusLabels::from_str("TO DO,DONE") {
        Err(OrgError::Unexpected(msg)) => {
            assert_eq!(msg, "unexpected characters in status labels:\n\tTO DO,DONE")
        }
        _ => panic!("expected a refusal"),
    }
    assert!(StatusLabels::parse("A-B").is_err());
    assert!(StatusLabels::parse("A;B").is_err());
}

#[test]
fn labels_from_a_list() {
    assert_eq!(StatusLabels::from_labels(&["A", "B", "C"]).iter(), vec!["A", "B", "C"]);
    assert_eq!(StatusLabels::from_labels(&["ONE"]).iter(), vec!["ONE"]);
    assert_eq!(StatusLabels::from_labels(&[]).iter(), vec![""]);
}

#[test]
fn builder_needs_a_path() {
    match Builder::new().build() {
        Err(OrgError::Unexpected(msg)) => assert_eq!(msg, "did not receive file path"),
        _ => panic!("expected an error"),
    }
    match Builder::new().status_labels(StatusLabels::default()).build() {
        Err(OrgError::Unexpected(msg)) => assert_eq!(msg, "did not receive file path"),
        _ => panic!("expected an error"),
    }
}

#[test]
fn builder_takes_the_last_value_given() {
    let config = Builder::new()
        .file_path("first.org".to_string())
        .file_path("second.org".to_string())
        .build()
        .ok()
        .unwrap();
    assert_eq!(config.file_path, "second.org");
    assert_eq!(config.status_labels.iter(), vec!["TODO", "STARTED", "DONE"]);
    let config = Builder::new()
        .status_labels(StatusLabels::parse("A,B").ok().unwrap())
        .file_path("notes.org".to_string())
        .build()
        .ok()
        .unwrap();
    assert_eq!(config.status_labels.iter(), vec!["A", "B"]);
}

#[test]
fn error_messages() {
    assert_eq!(
        OrgError::parse_error(12, "bad line").message(),
        "error parsing line: 12\nbad line"
    );
    assert_eq!(
        OrgError::ParseError(None, "bad".to_string()).message(),
        "error parsing line:\nbad"
    );
    assert_eq!(OrgError::unexpected("odd").message(), "unexpected error:\nodd");
    let io = OrgError::from(std::io::Error::new(std::io::ErrorKind::Other, "disk"));
    assert!(matches!(io, OrgError::IoError(_)));
    assert_eq!(io.message(), "disk");
}
