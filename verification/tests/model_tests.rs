//! Tests of the plain model types: timestamps, error descriptions, the
//! default board slot, and the indicator vocabulary.

use aoi_panel::model::{Board, ParseError, Timestamp};
use aoi_panel::status::{IconCollor, Message};

#[test]
fn epoch_year_is_implausible() {
    let e = Timestamp::epoch();
    assert_eq!(e.year, 1970);
    assert!(!e.year_ok());
}

#[test]
fn recent_year_is_plausible() {
    let t = Timestamp { year: 2024, month: 3, day: 15, hour: 10, minute: 11, second: 12 };
    assert!(t.year_ok());
    let t2 = Timestamp { year: 1999, month: 12, day: 31, hour: 23, minute: 59, second: 59 };
    assert!(!t2.year_ok());
}

#[test]
fn error_messages_name_the_failure() {
    assert_eq!(
        ParseError::MissingMandatorySection.message(),
        "missing mandatory section GlobalInformation"
    );
    assert_eq!(ParseError::XmlSyntax.message(), "document is not well-formed XML");
    assert_eq!(ParseError::InvalidTimestampCombination.message(), "invalid timestamp combination");
    assert_eq!(
        ParseError::UnparsableNumericReference.message(),
        "unparsable numeric board reference"
    );
    assert_eq!(ParseError::OutOfRangeBoardReference.message(), "out-of-range board reference");
    assert_eq!(ParseError::InconsistentBoardRecord.message(), "inconsistent board record");
    assert_eq!(ParseError::MissingMandatoryField.message(), "missing mandatory field");
}

#[test]
fn default_board_is_blank() {
    let b = Board::default();
    assert_eq!(b.serial, "");
    assert_eq!(b.result, "");
    assert_eq!(b.position, 0);
    assert!(b.failures.is_empty());
    assert!(b.pseudo_failures.is_empty());
}

#[test]
fn indicator_messages_carry_their_colour() {
    let m = Message::SetIcon(IconCollor::Green);
    assert_eq!(m, Message::SetIcon(IconCollor::Green));
    assert_ne!(m, Message::SetIcon(IconCollor::Red));
    assert_ne!(m, Message::Quit);
    assert_ne!(Message::Quit, Message::FatalError);
}
