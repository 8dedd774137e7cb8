use std::io;
use texlex::errors::{Error, ErrorKind};

#[test]
fn from_io_maps_invalid_data_to_unicode() {
    let err = io::Error::new(io::ErrorKind::InvalidData, "not text");
    assert_eq!(ErrorKind::from_io(&err, 3), ErrorKind::Unicode(3));
}

#[test]
fn from_io_maps_everything_else_to_io() {
    let err = io::Error::new(io::ErrorKind::UnexpectedEof, "cut short");
    assert_eq!(ErrorKind::from_io(&err, 7), ErrorKind::Io(7));
    let err = io::Error::new(io::ErrorKind::PermissionDenied, "no");
    assert_eq!(ErrorKind::from_io(&err, 1), ErrorKind::Io(1));
    let err = io::Error::new(io::ErrorKind::Other, "other");
    assert_eq!(ErrorKind::from_io(&err, 0), ErrorKind::Io(0));
}

#[test]
fn from_read_failure_tells_text_errors_from_the_rest() {
    assert_eq!(ErrorKind::from_read_failure(true, 4), ErrorKind::Unicode(4));
    assert_eq!(ErrorKind::from_read_failure(false, 4), ErrorKind::Io(4));
}

#[test]
fn error_keeps_its_kind() {
    let kinds = [
        ErrorKind::EndOfInput,
        ErrorKind::UnclosedVerbatim(2, 5),
        ErrorKind::Unicode(9),
        ErrorKind::Io(1),
    ];
    for kind in kinds {
        assert_eq!(Error::from(kind).kind(), kind);
    }
}

#[test]
fn error_kinds_differ_by_variant_and_position() {
    assert_ne!(ErrorKind::Unicode(1), ErrorKind::Io(1));
    assert_ne!(ErrorKind::Unicode(1), ErrorKind::Unicode(2));
    assert_ne!(ErrorKind::UnclosedVerbatim(1, 9), ErrorKind::UnclosedVerbatim(9, 1));
    assert_ne!(ErrorKind::EndOfInput, ErrorKind::Io(0));
}
