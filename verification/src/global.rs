//! The `GlobalInformation` interpreter: a left-to-right scan of the section's
//! children that collects program name, operator, the two timestamps and the
//! repair flag, followed by the validation the surrounding document kind
//! demands.

use vstd::prelude::*;
use vstd::string::StringExecFns;
use crate::ext::{datetime_of, parse_datetime, to_upper, upper_of};
use crate::model::{ParseError, Timestamp};
use crate::text::str_eq;
use crate::xml::{find_child, first_tagged, nested_end, nested_end_text, XmlElem};

verus! {

/// The state the global-metadata scan accumulates.
#[verifier::ext_equal]
pub struct GState {
    pub program: Seq<char>,
    pub operator: Seq<char>,
    pub inspection: Timestamp,
    pub repair: Timestamp,
    pub repaired: bool,
}

/// Scan state before any child was read: everything empty, timestamps at the
/// epoch, not a repair document.
pub open spec fn init_gstate() -> GState {
    GState {
        program: Seq::empty(),
        operator: Seq::empty(),
        inspection: Timestamp::spec_epoch(),
        repair: Timestamp::spec_epoch(),
        repaired: false,
    }
}

/// The timestamp a date and a time half denote once joined with a single
/// space; the epoch when the joined literal does not parse.
pub open spec fn stamp_of(d: Seq<char>, t: Seq<char>) -> Timestamp {
    match datetime_of(d + " "@ + t) {
        Some(s) => s,
        None => Timestamp::spec_epoch(),
    }
}

/// What one child of `GlobalInformation` does to the scan state.
///
/// A `Program` child rewrites the program name when it carries an
/// `InspectionPlanName`; an `Inspection` child rewrites the inspection
/// timestamp when both halves of its nested date are non-empty; a `Repair`
/// child marks the document as a repair record and likewise rewrites
/// operator and repair timestamp. Every other child is ignored.
pub open spec fn step_global(st: GState, c: XmlElem) -> GState {
    if c.tag@ == "Program"@ {
        match first_tagged(c.children@, "InspectionPlanName"@) {
            Some(x) => GState { program: x.text@, ..st },
            None => st,
        }
    } else if c.tag@ == "Inspection"@ {
        let d = nested_end_text(c, "Date"@);
        let t = nested_end_text(c, "Time"@);
        if d.len() > 0 && t.len() > 0 {
            GState { inspection: stamp_of(d, t), ..st }
        } else {
            st
        }
    } else if c.tag@ == "Repair"@ {
        let st1 = GState { repaired: true, ..st };
        let st2 = match first_tagged(c.children@, "OperatorName"@) {
            Some(x) => GState { operator: upper_of(x.text@), ..st1 },
            None => st1,
        };
        let d = nested_end_text(c, "Date"@);
        let t = nested_end_text(c, "Time"@);
        if d.len() > 0 && t.len() > 0 {
            GState { repair: stamp_of(d, t), ..st2 }
        } else {
            st2
        }
    } else {
        st
    }
}

/// The scan state after all children of `GlobalInformation` were read.
pub open spec fn scan_global(cs: Seq<XmlElem>) -> GState
    decreases cs.len(),
{
    if cs.len() == 0 {
        init_gstate()
    } else {
        step_global(scan_global(cs.drop_last()), cs.last())
    }
}

/// The outcome of the global-metadata section.
///
/// The section itself is mandatory; once scanned, the program name must be
/// non-empty, the inspection timestamp must lie in the year 2000 or later,
/// and, for a repair document, so must the repair timestamp.
pub open spec fn global_of(root: XmlElem) -> Result<GState, ParseError> {
    match first_tagged(root.children@, "GlobalInformation"@) {
        None => Err(ParseError::MissingMandatorySection),
        Some(gi) => {
            let st = scan_global(gi.children@);
            if st.program.len() == 0 {
                Err(ParseError::MissingMandatoryField)
            } else if !st.inspection.spec_year_ok() || (st.repaired && !st.repair.spec_year_ok()) {
                Err(ParseError::InvalidTimestampCombination)
            } else {
                Ok(st)
            }
        },
    }
}

/// When every `Inspection` child carries an empty nested date and no
/// `Repair` child exists, the scan leaves the inspection timestamp at the
/// epoch and the document is no repair record.
pub proof fn lemma_scan_inspection_unset(cs: Seq<XmlElem>)
    requires
        forall|i: int| 0 <= i < cs.len() && (#[trigger] cs[i]).tag@ == "Inspection"@
            ==> nested_end_text(cs[i], "Date"@).len() == 0,
        forall|i: int| 0 <= i < cs.len() ==> (#[trigger] cs[i]).tag@ != "Repair"@,
    ensures
        scan_global(cs).inspection == Timestamp::spec_epoch(),
        !scan_global(cs).repaired,
    decreases cs.len(),
{
    if cs.len() > 0 {
        assert forall|i: int| 0 <= i < cs.drop_last().len() implies #[trigger] cs.drop_last()[i]
            == cs[i] by {}
        lemma_scan_inspection_unset(cs.drop_last());
        assert(cs[cs.len() - 1] == cs.last());
    }
}

/// The validated global metadata, as executable values.
pub struct GlobalInfo {
    pub program: String,
    pub operator: String,
    pub inspection: Timestamp,
    pub repair: Timestamp,
    pub repaired: bool,
}

impl View for GlobalInfo {
    type V = GState;

    open spec fn view(&self) -> GState {
        GState {
            program: self.program@,
            operator: self.operator@,
            inspection: self.inspection,
            repair: self.repair,
            repaired: self.repaired,
        }
    }
}

/// Joins a date and a time half and reads them as a timestamp, the epoch
/// standing in for an unparsable literal.
fn joined_stamp(d: String, t: &str) -> (r: Timestamp)
    ensures
        r == stamp_of(d@, t@),
{
    let mut key = d;
    key.append(" ");
    key.append(t);
    match parse_datetime(key.as_str()) {
        Some(s) => s,
        None => Timestamp::epoch(),
    }
}

/// Interprets the `GlobalInformation` section of `root`.
#[verifier::loop_isolation(false)]
pub fn read_global(root: &XmlElem) -> (r: Result<GlobalInfo, ParseError>)
    ensures
        match r {
            Ok(g) => global_of(*root) == Ok::<GState, ParseError>(g@),
            Err(e) => global_of(*root) == Err::<GState, ParseError>(e),
        },
{
    let gi = match find_child(root, "GlobalInformation") {
        Some(gi) => gi,
        None => {
            return Err(ParseError::MissingMandatorySection);
        },
    };
    let mut program = String::new();
    let mut operator = String::new();
    let mut inspection = Timestamp::epoch();
    let mut repair = Timestamp::epoch();
    let mut repaired = false;
    let n = gi.children.len();
    proof {
        assert(gi.children@.take(0) =~= Seq::<XmlElem>::empty());
    }
    for i in 0..n
        invariant
            program@ == scan_global(gi.children@.take(i as int)).program,
            operator@ == scan_global(gi.children@.take(i as int)).operator,
            inspection == scan_global(gi.children@.take(i as int)).inspection,
            repair == scan_global(gi.children@.take(i as int)).repair,
            repaired == scan_global(gi.children@.take(i as int)).repaired,
    {
        let c = &gi.children[i];
        proof {
            assert(gi.children@.take(i + 1).drop_last() =~= gi.children@.take(i as int));
            assert(gi.children@.take(i + 1).last() == gi.children@[i as int]);
        }
        if str_eq(c.tag.as_str(), "Program") {
            if let Some(x) = find_child(c, "InspectionPlanName") {
                program = x.text.clone();
            }
        } else if str_eq(c.tag.as_str(), "Inspection") {
            let d = nested_end(c, "Date");
            let t = nested_end(c, "Time");
            if !d.as_str().is_empty() && !t.as_str().is_empty() {
                inspection = joined_stamp(d, t.as_str());
            }
        } else if str_eq(c.tag.as_str(), "Repair") {
            repaired = true;
            if let Some(x) = find_child(c, "OperatorName") {
                operator = to_upper(x.text.as_str());
            }
            let d = nested_end(c, "Date");
            let t = nested_end(c, "Time");
            if !d.as_str().is_empty() && !t.as_str().is_empty() {
                repair = joined_stamp(d, t.as_str());
            }
        }
    }
    proof {
        assert(gi.children@.take(n as int) =~= gi.children@);
    }
    if program.as_str().is_empty() {
        return Err(ParseError::MissingMandatoryField);
    }
    if !inspection.year_ok() || (repaired && !repair.year_ok()) {
        return Err(ParseError::InvalidTimestampCombination);
    }
    Ok(GlobalInfo { program, operator, inspection, repair, repaired })
}

} // verus!
