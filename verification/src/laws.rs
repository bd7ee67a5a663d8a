//! The stated properties of the builder, proved once and for all documents:
//! normalization of a successful panel, the mandatory-section and timestamp
//! failures, duplicate suppression, and the pass/fail gating of the
//! defect-window scan.

use vstd::prelude::*;
use crate::boards::{boards_of, singles};
use crate::global::{global_of, scan_global, GState};
use crate::model::{BoardV, PanelV, ParseError};
use crate::panel::{has_blank_slot, panel_of, renumber, station_of, windows_of};
use crate::sort::{
    lemma_sort_by_serial_contains,
    lemma_sort_by_serial_len,
    lemma_sort_by_serial_sorted,
    sort_by_serial,
    sorted_by_serial,
};
use crate::text::{distinct_entries, lex_lt};
use crate::windows::{boards_distinct, lemma_apply_windows_distinct, lemma_apply_windows_len};
use crate::xml::{first_tagged, nested_end_text, XmlElem};

verus! {

/// Law: a successfully parsed document yields one board per `SinglePCB`
/// entry of its `PCBInformation` section (and none without the section),
/// positions forming exactly the contiguous range `1..=N` in order, and
/// boards sorted by ascending serial.
pub proof fn lemma_panel_normalized(root: XmlElem, line: Seq<char>, p: PanelV)
    requires
        panel_of(root, line) == Ok::<PanelV, ParseError>(p),
    ensures
        p.boards.len() == (match first_tagged(root.children@, "PCBInformation"@) {
            Some(pi) => singles(pi.children@).len(),
            None => 0,
        }),
        forall|i: int| 0 <= i < p.boards.len() ==> (#[trigger] p.boards[i]).position == i + 1,
        sorted_by_serial(p.boards),
{
    let st = global_of(root)->Ok_0;
    let bf = boards_of(root)->Ok_0;
    let bs0 = bf.0;
    let bs2 = windows_of(root, bs0, st.repaired, bf.1)->Ok_0;
    assert(p.boards == renumber(sort_by_serial(bs2)));
    if windows_of(root, bs0, st.repaired, bf.1) != Ok::<Seq<BoardV>, ParseError>(bs0) {
        let ci = first_tagged(root.children@, "ComponentInformation"@)->Some_0;
        lemma_apply_windows_len(ci.children@, bs0, st.repaired);
    }
    assert(bs2.len() == bs0.len());
    if first_tagged(root.children@, "PCBInformation"@) is Some {
        let pi = first_tagged(root.children@, "PCBInformation"@)->Some_0;
        let ss = singles(pi.children@);
        crate::boards::lemma_singles_len(pi.children@);
        if ss.len() < pi.children@.len() {
            assert(bs0[ss.len() as int].serial.len() == 0);
        }
        assert(bs0.len() == ss.len());
    }
    lemma_sort_by_serial_len(bs2);
    lemma_sort_by_serial_sorted(bs2);
    let sorted = sort_by_serial(bs2);
    assert forall|i: int, j: int| 0 <= i < j < p.boards.len() implies !lex_lt(
        (#[trigger] p.boards[j]).serial,
        (#[trigger] p.boards[i]).serial,
    ) by {
        assert(p.boards[i].serial == sorted[i].serial);
        assert(p.boards[j].serial == sorted[j].serial);
    }
}

/// Law: a document without a `GlobalInformation` section always fails with
/// the missing-mandatory-section error, whatever else it holds.
pub proof fn lemma_missing_global_section(root: XmlElem, line: Seq<char>)
    requires
        first_tagged(root.children@, "GlobalInformation"@) is None,
    ensures
        panel_of(root, line) == Err::<PanelV, ParseError>(ParseError::MissingMandatorySection),
{
}

/// Law: a document whose `GlobalInformation` names a program but whose
/// `Inspection` children all carry an empty nested date, with no `Repair`
/// section, fails with the invalid-timestamp-combination error: the
/// inspection timestamp stays at the epoch, far before the year 2000.
pub proof fn lemma_unset_inspection_time(root: XmlElem, line: Seq<char>, gi: XmlElem)
    requires
        first_tagged(root.children@, "GlobalInformation"@) == Some(gi),
        scan_global(gi.children@).program.len() > 0,
        forall|i: int| 0 <= i < gi.children@.len() && (#[trigger] gi.children@[i]).tag@
            == "Inspection"@ ==> nested_end_text(gi.children@[i], "Date"@).len() == 0,
        forall|i: int| 0 <= i < gi.children@.len() ==> (#[trigger] gi.children@[i]).tag@
            != "Repair"@,
    ensures
        panel_of(root, line) == Err::<PanelV, ParseError>(ParseError::InvalidTimestampCombination),
{
    crate::global::lemma_scan_inspection_unset(gi.children@);
    assert(!scan_global(gi.children@).inspection.spec_year_ok());
}

/// Law: in a successfully parsed panel, no board lists the same defect
/// identifier twice, neither among its failures nor among its
/// pseudo-failures: every append goes through duplicate suppression.
pub proof fn lemma_failures_distinct(root: XmlElem, line: Seq<char>, p: PanelV)
    requires
        panel_of(root, line) == Ok::<PanelV, ParseError>(p),
    ensures
        forall|i: int| 0 <= i < p.boards.len() ==> distinct_entries(
            (#[trigger] p.boards[i]).failures,
        ) && distinct_entries(p.boards[i].pseudo_failures),
{
    let st = global_of(root)->Ok_0;
    let bf = boards_of(root)->Ok_0;
    let bs0 = bf.0;
    let bs2 = windows_of(root, bs0, st.repaired, bf.1)->Ok_0;
    assert(boards_distinct(bs0)) by {
        assert forall|i: int| 0 <= i < bs0.len() implies distinct_entries(
            (#[trigger] bs0[i]).failures,
        ) && distinct_entries(bs0[i].pseudo_failures) by {
            assert(bs0[i].failures.len() == 0);
            assert(bs0[i].pseudo_failures.len() == 0);
        }
    }
    if windows_of(root, bs0, st.repaired, bf.1) != Ok::<Seq<BoardV>, ParseError>(bs0) {
        let ci = first_tagged(root.children@, "ComponentInformation"@)->Some_0;
        lemma_apply_windows_distinct(ci.children@, bs0, st.repaired);
    }
    assert(boards_distinct(bs2));
    let sorted = sort_by_serial(bs2);
    assert(p.boards == renumber(sorted));
    assert forall|i: int| 0 <= i < p.boards.len() implies distinct_entries(
        (#[trigger] p.boards[i]).failures,
    ) && distinct_entries(p.boards[i].pseudo_failures) by {
        lemma_sort_by_serial_len(bs2);
        assert(sorted.contains(sorted[i]));
        lemma_sort_by_serial_contains(bs2, sorted[i]);
        let m = choose|m: int| 0 <= m < bs2.len() && bs2[m] == sorted[i];
        assert(p.boards[i].failures == sorted[i].failures);
        assert(p.boards[i].pseudo_failures == sorted[i].pseudo_failures);
    }
}

/// Law: an AOI/AXI document whose boards all read `PASS` never reaches the
/// defect-window section: the panel is built from the boards alone, whatever
/// `ComponentInformation` holds, malformed or not.
pub proof fn lemma_all_pass_skips_windows(
    root: XmlElem,
    line: Seq<char>,
    st: GState,
    bs: Seq<BoardV>,
)
    requires
        global_of(root) == Ok::<GState, ParseError>(st),
        !st.repaired,
        boards_of(root) == Ok::<(Seq<BoardV>, bool), ParseError>((bs, false)),
        !has_blank_slot(bs),
    ensures
        panel_of(root, line) == Ok::<PanelV, ParseError>(
            PanelV {
                program: st.program,
                station: station_of(line, false),
                operator: st.operator,
                inspection_time: st.inspection,
                repair_time: st.repair,
                boards: renumber(sort_by_serial(bs)),
            },
        ),
{
}

/// Law: in a repair document, a `PCBNumber` of `0` names the first board
/// slot directly: the window's identifier lands on board 0.
pub proof fn lemma_repair_reference_is_zero_based(bs: Seq<BoardV>, w: XmlElem)
    requires
        crate::windows::win_id_of(w).len() > 0,
        crate::windows::repair_code_of(w).len() > 0,
        crate::windows::pcb_ref_of(w) == "0"@,
        bs.len() > 0,
    ensures
        crate::windows::step_repair(bs, w) == Ok::<Seq<BoardV>, ParseError>(
            crate::windows::add_failure(
                bs,
                0,
                crate::text::spec_strip_win(crate::windows::win_id_of(w)),
                crate::windows::repair_code_of(w) == "Pszeudohiba"@,
            ),
        ),
{
    proof_zero_parses();
}

/// Law: in an AOI/AXI document, a `PCBNumber` of `0` is a hard failure: the
/// references there are 1-based.
pub proof fn lemma_aoi_reference_zero_fails(bs: Seq<BoardV>, w: XmlElem)
    requires
        crate::windows::win_id_of(w).len() > 0,
        crate::windows::aoi_code_of(w).len() > 0,
        crate::windows::aoi_code_of(w) != "0"@,
        crate::windows::pcb_ref_of(w) == "0"@,
    ensures
        crate::windows::step_aoi(bs, w) == Err::<Seq<BoardV>, ParseError>(
            ParseError::OutOfRangeBoardReference,
        ),
{
    proof_zero_parses();
}

/// The literal `0` is a numeral of value zero.
proof fn proof_zero_parses()
    ensures
        crate::text::spec_parse_usize("0"@) == Some(0usize),
{
    reveal_strlit("0");
    assert("0"@.len() == 1);
    assert("0"@[0] == '0');
    assert(crate::text::spec_is_numeral("0"@));
    assert(crate::text::spec_numeral_val("0"@.drop_last()) == 0);
    assert(crate::text::spec_numeral_val("0"@) == 0);
}

} // verus!
