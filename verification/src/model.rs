//! Document model: the validated aggregate a parsed inspection report turns
//! into, its mathematical view, the timestamp representation, and the closed
//! set of parse failures.

use vstd::prelude::*;

verus! {

/// A local calendar timestamp, kept as plain calendar fields.
///
/// The document carries timestamps as `YYYYMMDD HHMMSS` literals; a value of
/// this type records the parsed components. The Unix epoch stands in for
/// "absent or unparsable", mirroring the zero value of the source format.
#[derive(Clone, Copy, Debug, PartialEq, Eq, Structural)]
pub struct Timestamp {
    pub year: i32,
    pub month: u32,
    pub day: u32,
    pub hour: u32,
    pub minute: u32,
    pub second: u32,
}

impl Timestamp {
    /// The placeholder for a missing timestamp: 1970-01-01 00:00:00.
    pub open spec fn spec_epoch() -> Timestamp {
        Timestamp { year: 1970, month: 1, day: 1, hour: 0, minute: 0, second: 0 }
    }

    pub fn epoch() -> (r: Timestamp)
        ensures
            r == Timestamp::spec_epoch(),
    {
        Timestamp { year: 1970, month: 1, day: 1, hour: 0, minute: 0, second: 0 }
    }

    /// A timestamp counts as present and plausible only from the year 2000 on.
    pub open spec fn spec_year_ok(self) -> bool {
        self.year >= 2000
    }

    pub fn year_ok(&self) -> (r: bool)
        ensures
            r == self.spec_year_ok(),
    {
        self.year >= 2000
    }
}

/// Why interpreting one document failed. Every failure is terminal for that
/// document: no partial panel is ever handed back.
#[derive(Clone, Copy, Debug, PartialEq, Eq, Structural)]
pub enum ParseError {
    /// The document text is not well-formed XML.
    XmlSyntax,
    /// The mandatory `GlobalInformation` section is absent.
    MissingMandatorySection,
    /// A field that the present sections make mandatory is empty or absent.
    MissingMandatoryField,
    /// The timestamps the document kind requires are absent or implausible.
    InvalidTimestampCombination,
    /// A `PCBNumber` that should be a decimal board reference is not.
    UnparsableNumericReference,
    /// A board reference points at no board of this panel.
    OutOfRangeBoardReference,
    /// A board slot was declared but never populated with serial and result.
    InconsistentBoardRecord,
}

impl ParseError {
    /// A short description of the failure, for the caller's log.
    pub fn message(&self) -> (r: String)
        ensures
            *self == ParseError::XmlSyntax ==> r@ == "document is not well-formed XML"@,
            *self == ParseError::MissingMandatorySection ==> r@
                == "missing mandatory section GlobalInformation"@,
            *self == ParseError::MissingMandatoryField ==> r@ == "missing mandatory field"@,
            *self == ParseError::InvalidTimestampCombination ==> r@
                == "invalid timestamp combination"@,
            *self == ParseError::UnparsableNumericReference ==> r@
                == "unparsable numeric board reference"@,
            *self == ParseError::OutOfRangeBoardReference ==> r@
                == "out-of-range board reference"@,
            *self == ParseError::InconsistentBoardRecord ==> r@ == "inconsistent board record"@,
    {
        match self {
            ParseError::XmlSyntax => "document is not well-formed XML".to_owned(),
            ParseError::MissingMandatorySection => {
                "missing mandatory section GlobalInformation".to_owned()
            },
            ParseError::MissingMandatoryField => "missing mandatory field".to_owned(),
            ParseError::InvalidTimestampCombination => "invalid timestamp combination".to_owned(),
            ParseError::UnparsableNumericReference => {
                "unparsable numeric board reference".to_owned()
            },
            ParseError::OutOfRangeBoardReference => "out-of-range board reference".to_owned(),
            ParseError::InconsistentBoardRecord => "inconsistent board record".to_owned(),
        }
    }
}

/// The mathematical view of a [`Board`].
#[verifier::ext_equal]
pub struct BoardV {
    pub serial: Seq<char>,
    pub position: int,
    pub result: Seq<char>,
    pub failures: Seq<Seq<char>>,
    pub pseudo_failures: Seq<Seq<char>>,
}

impl BoardV {
    /// The unpopulated board slot: everything empty, position 0.
    pub open spec fn blank() -> BoardV {
        BoardV {
            serial: Seq::empty(),
            position: 0,
            result: Seq::empty(),
            failures: Seq::empty(),
            pseudo_failures: Seq::empty(),
        }
    }
}

/// One physical PCB of the panel.
#[derive(Clone, Debug, PartialEq)]
pub struct Board {
    /// Unique textual identifier of the board; non-empty in a returned panel.
    pub serial: String,
    /// 1-based position of the board, assigned only after the final sort.
    pub position: usize,
    /// Pass/fail classification from the inspection step; non-empty in a
    /// returned panel.
    pub result: String,
    /// Distinct defect-window identifiers classified as genuine defects, in
    /// insertion order.
    pub failures: Vec<String>,
    /// Distinct defect-window identifiers reclassified as false positives by a
    /// repair operator, in insertion order.
    pub pseudo_failures: Vec<String>,
}

impl View for Board {
    type V = BoardV;

    open spec fn view(&self) -> BoardV {
        BoardV {
            serial: self.serial@,
            position: self.position as int,
            result: self.result@,
            failures: self.failures.deep_view(),
            pseudo_failures: self.pseudo_failures.deep_view(),
        }
    }
}

impl DeepView for Board {
    type V = BoardV;

    open spec fn deep_view(&self) -> BoardV {
        self.view()
    }
}

impl Default for Board {
    fn default() -> (r: Board)
        ensures
            r@ == BoardV::blank(),
    {
        let r = Board {
            serial: String::new(),
            position: 0,
            result: String::new(),
            failures: Vec::new(),
            pseudo_failures: Vec::new(),
        };
        proof {
            assert(r@ =~= BoardV::blank());
        }
        r
    }
}

/// The mathematical view of a [`Panel`].
#[verifier::ext_equal]
pub struct PanelV {
    pub program: Seq<char>,
    pub station: Seq<char>,
    pub operator: Seq<char>,
    pub inspection_time: Timestamp,
    pub repair_time: Timestamp,
    pub boards: Seq<BoardV>,
}

/// One inspected panel: the validated aggregate built from one document.
#[derive(Clone, Debug, PartialEq)]
pub struct Panel {
    /// Identifier of the inspection plan in use; non-empty.
    pub program: String,
    /// Derived station name: `<line>_HARAN` for repair documents,
    /// `<line>_AOI_AXI` otherwise.
    pub station: String,
    /// Upper-cased repair operator name; empty for AOI/AXI documents.
    pub operator: String,
    /// When automated inspection finished; the epoch when absent.
    pub inspection_time: Timestamp,
    /// When repair finished; the epoch when the document is not a repair
    /// record.
    pub repair_time: Timestamp,
    /// The boards of the panel, sorted by ascending serial.
    pub boards: Vec<Board>,
}

impl View for Panel {
    type V = PanelV;

    open spec fn view(&self) -> PanelV {
        PanelV {
            program: self.program@,
            station: self.station@,
            operator: self.operator@,
            inspection_time: self.inspection_time,
            repair_time: self.repair_time,
            boards: self.boards.deep_view(),
        }
    }
}

} // verus!
