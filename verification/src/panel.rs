//! The panel builder: global metadata, board enumeration and defect windows
//! in fixed order, cross-section validation, and the final normalization
//! (sort by serial, renumbering, station-name derivation). All or nothing:
//! a document either yields a complete panel or one typed failure.

use vstd::prelude::*;
use vstd::string::StringExecFns;
use crate::boards::{boards_of, read_boards};
use crate::ext::{parse_xml_tree, xml_root_of};
use crate::global::{global_of, read_global, GState};
use crate::model::{Board, BoardV, Panel, PanelV, ParseError};
use crate::sort::{sort_boards, sort_by_serial};
use crate::windows::{apply_windows, read_windows};
use crate::xml::{find_child, first_tagged, XmlElem};

verus! {

/// Positions reassigned after the sort: board `i` gets position `i + 1`,
/// whatever the document claimed.
pub open spec fn renumber(s: Seq<BoardV>) -> Seq<BoardV> {
    Seq::new(s.len(), |i: int| BoardV { position: i + 1, ..s[i] })
}

/// The derived station name: the caller's line name with the fixed suffix of
/// the document kind.
pub open spec fn station_of(line: Seq<char>, repaired: bool) -> Seq<char> {
    if repaired {
        line + "_HARAN"@
    } else {
        line + "_AOI_AXI"@
    }
}

/// Whether some declared board slot is still missing its serial or result
/// once the `SinglePCB` entries are in: the declared count then disagrees
/// with the populated entries.
pub open spec fn has_blank_slot(bs: Seq<BoardV>) -> bool {
    exists|i: int|
        0 <= i < bs.len() && ((#[trigger] bs[i]).serial.len() == 0 || bs[i].result.len() == 0)
}

/// The defect-window pass the document kind calls for: repair documents are
/// always scanned with 0-based references and pseudo classification; AOI/AXI
/// documents are scanned with 1-based references only when some board
/// failed; a passing AOI/AXI document never looks at the section.
pub open spec fn windows_of(root: XmlElem, bs: Seq<BoardV>, repaired: bool, failed: bool) -> Result<
    Seq<BoardV>,
    ParseError,
> {
    if repaired {
        match first_tagged(root.children@, "ComponentInformation"@) {
            Some(ci) => apply_windows(ci.children@, bs, true),
            None => Ok(bs),
        }
    } else if failed {
        match first_tagged(root.children@, "ComponentInformation"@) {
            Some(ci) => apply_windows(ci.children@, bs, false),
            None => Ok(bs),
        }
    } else {
        Ok(bs)
    }
}

/// The panel a document tree denotes, or the typed failure interpreting it
/// runs into: the whole contract of the builder.
pub open spec fn panel_of(root: XmlElem, line: Seq<char>) -> Result<PanelV, ParseError> {
    match global_of(root) {
        Err(e) => Err(e),
        Ok(st) => match boards_of(root) {
            Err(e) => Err(e),
            Ok(bf) => if has_blank_slot(bf.0) {
                Err(ParseError::InconsistentBoardRecord)
            } else {
                match windows_of(root, bf.0, st.repaired, bf.1) {
                    Err(e) => Err(e),
                    Ok(bs) => Ok(
                        PanelV {
                            program: st.program,
                            station: station_of(line, st.repaired),
                            operator: st.operator,
                            inspection_time: st.inspection,
                            repair_time: st.repair,
                            boards: renumber(sort_by_serial(bs)),
                        },
                    ),
                }
            },
        },
    }
}

/// The panel a document text denotes: a tree parse, then `panel_of`.
pub open spec fn parse_of(s: Seq<char>, line: Seq<char>) -> Result<PanelV, ParseError> {
    match xml_root_of(s) {
        None => Err(ParseError::XmlSyntax),
        Some(root) => panel_of(root, line),
    }
}

/// Builds the panel from an already-parsed document tree.
#[verifier::loop_isolation(false)]
pub fn build_panel(root: &XmlElem, line: &str) -> (r: Result<Panel, ParseError>)
    ensures
        match r {
            Ok(p) => panel_of(*root, line@) == Ok::<PanelV, ParseError>(p@),
            Err(e) => panel_of(*root, line@) == Err::<PanelV, ParseError>(e),
        },
{
    let g = match read_global(root) {
        Ok(g) => g,
        Err(e) => {
            return Err(e);
        },
    };
    let (mut boards, failed) = match read_boards(root) {
        Ok(p) => p,
        Err(e) => {
            return Err(e);
        },
    };
    let ghost bs0 = boards.deep_view();
    let n = boards.len();
    let mut i: usize = 0;
    while i < n
        invariant
            0 <= i <= n,
            n == boards@.len(),
            boards.deep_view() == bs0,
            forall|k: int| 0 <= k < i ==> (#[trigger] bs0[k]).serial.len() > 0 && bs0[k].result.len()
                > 0,
        decreases n - i,
    {
        if boards[i].serial.as_str().is_empty() || boards[i].result.as_str().is_empty() {
            proof {
                assert(bs0[i as int].serial.len() == 0 || bs0[i as int].result.len() == 0);
            }
            return Err(ParseError::InconsistentBoardRecord);
        }
        i = i + 1;
    }
    if g.repaired {
        if let Some(ci) = find_child(root, "ComponentInformation") {
            if let Err(e) = read_windows(ci, &mut boards, true) {
                return Err(e);
            }
        }
    } else if failed {
        if let Some(ci) = find_child(root, "ComponentInformation") {
            if let Err(e) = read_windows(ci, &mut boards, false) {
                return Err(e);
            }
        }
    }
    let ghost bs2 = boards.deep_view();
    proof {
        assert(windows_of(*root, bs0, g@.repaired, failed) == Ok::<Seq<BoardV>, ParseError>(bs2));
    }
    let mut boards = sort_boards(boards);
    let ghost sorted = boards.deep_view();
    let m = boards.len();
    let mut i: usize = 0;
    while i < m
        invariant
            0 <= i <= m,
            m == boards@.len(),
            boards@.len() == sorted.len(),
            forall|k: int| i <= k < m ==> #[trigger] boards.deep_view()[k] == sorted[k],
            forall|k: int| 0 <= k < i ==> #[trigger] boards.deep_view()[k] == renumber(sorted)[k],
        decreases m - i,
    {
        let ghost prev = boards.deep_view();
        boards[i].position = i + 1;
        proof {
            assert forall|k: int| 0 <= k < boards.deep_view().len() implies #[trigger] boards.deep_view()[k]
                == (if k == i as int {
                renumber(sorted)[k]
            } else {
                prev[k]
            }) by {
                if k == i as int {
                    assert(prev[k] == sorted[k]);
                    assert(boards.deep_view()[k] == boards@[k]@);
                    assert(boards@[k]@.position == i + 1);
                    assert(boards@[k]@.serial == sorted[k].serial);
                    assert(boards@[k]@.result == sorted[k].result);
                    assert(boards@[k]@.failures == sorted[k].failures);
                    assert(boards@[k]@.pseudo_failures == sorted[k].pseudo_failures);
                    assert(renumber(sorted)[k] == BoardV { position: k + 1, ..sorted[k] });
                    assert(boards.deep_view()[k] =~= renumber(sorted)[k]);
                }
            }
        }
        i = i + 1;
    }
    proof {
        assert(boards.deep_view() =~= renumber(sorted));
    }
    let mut station = line.to_owned();
    if g.repaired {
        station.append("_HARAN");
    } else {
        station.append("_AOI_AXI");
    }
    let ghost target = PanelV {
        program: g@.program,
        station: station_of(line@, g@.repaired),
        operator: g@.operator,
        inspection_time: g@.inspection,
        repair_time: g@.repair,
        boards: renumber(sort_by_serial(bs2)),
    };
    let p = Panel {
        program: g.program,
        station,
        operator: g.operator,
        inspection_time: g.inspection,
        repair_time: g.repair,
        boards,
    };
    proof {
        assert(p@ =~= target);
        assert(panel_of(*root, line@) == Ok::<PanelV, ParseError>(target));
    }
    Ok(p)
}

/// Reads one inspection document and returns the validated panel it
/// describes, or the typed failure. `line` is the caller's line name, used
/// only to derive the station name.
pub fn parse_xml(text: &str, line: &str) -> (r: Result<Panel, ParseError>)
    ensures
        match r {
            Ok(p) => parse_of(text@, line@) == Ok::<PanelV, ParseError>(p@),
            Err(e) => parse_of(text@, line@) == Err::<PanelV, ParseError>(e),
        },
{
    match parse_xml_tree(text) {
        None => Err(ParseError::XmlSyntax),
        Some(root) => build_panel(&root, line),
    }
}

} // verus!
