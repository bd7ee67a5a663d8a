//! The `ComponentInformation` interpreter: one pass over the defect windows,
//! each window naming a board, a window identifier and a result code. Repair
//! documents and AOI/AXI documents read the code from different places and
//! resolve the board reference differently.

use vstd::prelude::*;
use crate::model::{Board, BoardV, ParseError};
use crate::text::{
    parse_board_ref,
    push_dedup,
    spec_parse_usize,
    spec_push_dedup,
    spec_strip_win,
    str_eq,
    strip_win_id,
};
use crate::xml::{last_child_text, last_inner, last_inner_text, last_tag_text, XmlElem};

verus! {

/// The window identifier of one defect window: its last `WinID` child's text.
pub open spec fn win_id_of(w: XmlElem) -> Seq<char> {
    last_tag_text(w.children@, "WinID"@, Seq::empty())
}

/// The board reference of one defect window: its last `PCBNumber` child's
/// text.
pub open spec fn pcb_ref_of(w: XmlElem) -> Seq<char> {
    last_tag_text(w.children@, "PCBNumber"@, Seq::empty())
}

/// The result code a repair window carries: nested under
/// `Result`/`ErrorDescription`.
pub open spec fn repair_code_of(w: XmlElem) -> Seq<char> {
    last_inner_text(w.children@, "Result"@, "ErrorDescription"@)
}

/// The result code an AOI/AXI window carries: nested under
/// `Analysis`/`Result`.
pub open spec fn aoi_code_of(w: XmlElem) -> Seq<char> {
    last_inner_text(w.children@, "Analysis"@, "Result"@)
}

/// Board `x` with `wid` appended to its pseudo-failures (when `pseudo`) or
/// its failures, duplicates suppressed either way.
pub open spec fn add_failure(bs: Seq<BoardV>, x: int, wid: Seq<char>, pseudo: bool) -> Seq<
    BoardV,
> {
    if pseudo {
        bs.update(
            x,
            BoardV { pseudo_failures: spec_push_dedup(bs[x].pseudo_failures, wid), ..bs[x] },
        )
    } else {
        bs.update(x, BoardV { failures: spec_push_dedup(bs[x].failures, wid), ..bs[x] })
    }
}

/// What one repair-document window does to the boards.
///
/// All three fields must be non-empty; the board reference must be a decimal
/// numeral and names a board slot directly (0-based). A reference to no
/// existing slot is silently ignored. A code reading `Pszeudohiba` marks the
/// normalized window identifier as a pseudo defect, any other code as a
/// genuine one.
pub open spec fn step_repair(bs: Seq<BoardV>, w: XmlElem) -> Result<Seq<BoardV>, ParseError> {
    if win_id_of(w).len() == 0 || pcb_ref_of(w).len() == 0 || repair_code_of(w).len() == 0 {
        Err(ParseError::MissingMandatoryField)
    } else {
        match spec_parse_usize(pcb_ref_of(w)) {
            None => Err(ParseError::UnparsableNumericReference),
            Some(x) => if x < bs.len() {
                Ok(
                    add_failure(
                        bs,
                        x as int,
                        spec_strip_win(win_id_of(w)),
                        repair_code_of(w) == "Pszeudohiba"@,
                    ),
                )
            } else {
                Ok(bs)
            },
        }
    }
}

/// What one AOI/AXI window does to the boards.
///
/// All three fields must be non-empty. A code reading `0` is no defect and
/// changes nothing. Otherwise the board reference must be a decimal numeral
/// and is 1-based: `0` and any reference past the last slot are failures.
/// The normalized window identifier lands among the genuine failures; no
/// pseudo classification exists here.
pub open spec fn step_aoi(bs: Seq<BoardV>, w: XmlElem) -> Result<Seq<BoardV>, ParseError> {
    if win_id_of(w).len() == 0 || pcb_ref_of(w).len() == 0 || aoi_code_of(w).len() == 0 {
        Err(ParseError::MissingMandatoryField)
    } else if aoi_code_of(w) == "0"@ {
        Ok(bs)
    } else {
        match spec_parse_usize(pcb_ref_of(w)) {
            None => Err(ParseError::UnparsableNumericReference),
            Some(x) => if x == 0 {
                Err(ParseError::OutOfRangeBoardReference)
            } else if x - 1 < bs.len() {
                Ok(add_failure(bs, x - 1, spec_strip_win(win_id_of(w)), false))
            } else {
                Err(ParseError::OutOfRangeBoardReference)
            },
        }
    }
}

/// The boards after every window of `ws` was applied in order, or the
/// failure of the first window that is malformed.
pub open spec fn apply_windows(ws: Seq<XmlElem>, bs: Seq<BoardV>, repair: bool) -> Result<
    Seq<BoardV>,
    ParseError,
>
    decreases ws.len(),
{
    if ws.len() == 0 {
        Ok(bs)
    } else {
        match apply_windows(ws.drop_last(), bs, repair) {
            Err(e) => Err(e),
            Ok(cur) => if repair {
                step_repair(cur, ws.last())
            } else {
                step_aoi(cur, ws.last())
            },
        }
    }
}

/// Once a window prefix has failed, the whole window list fails the same
/// way.
pub proof fn lemma_apply_windows_error(ws: Seq<XmlElem>, m: int, bs: Seq<BoardV>, repair: bool)
    requires
        0 <= m <= ws.len(),
        apply_windows(ws.take(m), bs, repair) is Err,
    ensures
        apply_windows(ws, bs, repair) == apply_windows(ws.take(m), bs, repair),
    decreases ws.len() - m,
{
    if m == ws.len() {
        assert(ws.take(m) =~= ws);
    } else {
        assert(ws.take(m + 1).drop_last() =~= ws.take(m));
        assert(ws.take(m + 1).last() == ws[m]);
        lemma_apply_windows_error(ws, m + 1, bs, repair);
    }
}

/// A successful window pass never changes the number of boards.
pub proof fn lemma_apply_windows_len(ws: Seq<XmlElem>, bs: Seq<BoardV>, repair: bool)
    ensures
        apply_windows(ws, bs, repair) matches Ok(r) ==> r.len() == bs.len(),
    decreases ws.len(),
{
    if ws.len() > 0 {
        lemma_apply_windows_len(ws.drop_last(), bs, repair);
    }
}

/// Every board keeps its failure lists free of duplicates.
pub open spec fn boards_distinct(bs: Seq<BoardV>) -> bool {
    forall|i: int| 0 <= i < bs.len() ==> crate::text::distinct_entries(
        (#[trigger] bs[i]).failures,
    ) && crate::text::distinct_entries(bs[i].pseudo_failures)
}

proof fn lemma_add_failure_distinct(bs: Seq<BoardV>, x: int, wid: Seq<char>, pseudo: bool)
    requires
        boards_distinct(bs),
        0 <= x < bs.len(),
    ensures
        boards_distinct(add_failure(bs, x, wid, pseudo)),
{
    if pseudo {
        crate::text::lemma_push_dedup_distinct(bs[x].pseudo_failures, wid);
    } else {
        crate::text::lemma_push_dedup_distinct(bs[x].failures, wid);
    }
    let r = add_failure(bs, x, wid, pseudo);
    assert forall|i: int| 0 <= i < r.len() implies crate::text::distinct_entries(
        (#[trigger] r[i]).failures,
    ) && crate::text::distinct_entries(r[i].pseudo_failures) by {
        if i != x {
            assert(r[i] == bs[i]);
        }
    }
}

/// A window pass over boards with duplicate-free failure lists leaves them
/// duplicate-free: each window goes through the deduplicating append.
pub proof fn lemma_apply_windows_distinct(ws: Seq<XmlElem>, bs: Seq<BoardV>, repair: bool)
    requires
        boards_distinct(bs),
    ensures
        apply_windows(ws, bs, repair) matches Ok(r) ==> boards_distinct(r),
    decreases ws.len(),
{
    if ws.len() > 0 {
        lemma_apply_windows_distinct(ws.drop_last(), bs, repair);
        let prior = apply_windows(ws.drop_last(), bs, repair);
        if prior is Ok {
            let cur = prior->Ok_0;
            let w = ws.last();
            let pr = spec_parse_usize(pcb_ref_of(w));
            if pr is Some {
                let x = pr->Some_0;
                if repair {
                    if x < cur.len() {
                        lemma_add_failure_distinct(
                            cur,
                            x as int,
                            spec_strip_win(win_id_of(w)),
                            repair_code_of(w) == "Pszeudohiba"@,
                        );
                    }
                } else {
                    if x >= 1 && x - 1 < cur.len() {
                        lemma_add_failure_distinct(cur, x - 1, spec_strip_win(win_id_of(w)), false);
                    }
                }
            }
        }
    }
}

/// Applies every window of the `ComponentInformation` section `ci` to the
/// boards, as a repair document (0-based board references, pseudo
/// classification) or as an AOI/AXI document (1-based references, code `0`
/// skipped).
#[verifier::loop_isolation(false)]
pub fn read_windows(ci: &XmlElem, boards: &mut Vec<Board>, repair: bool) -> (r: Result<
    (),
    ParseError,
>)
    ensures
        match r {
            Ok(_) => apply_windows(ci.children@, old(boards).deep_view(), repair) == Ok::<
                Seq<BoardV>,
                ParseError,
            >(final(boards).deep_view()),
            Err(e) => apply_windows(ci.children@, old(boards).deep_view(), repair) == Err::<
                Seq<BoardV>,
                ParseError,
            >(e),
        },
{
    let n = ci.children.len();
    let mut i: usize = 0;
    proof {
        assert(ci.children@.take(0) =~= Seq::<XmlElem>::empty());
    }
    while i < n
        invariant
            0 <= i <= n,
            apply_windows(ci.children@.take(i as int), old(boards).deep_view(), repair) == Ok::<
                Seq<BoardV>,
                ParseError,
            >(boards.deep_view()),
        decreases n - i,
    {
        let w = &ci.children[i];
        proof {
            assert(ci.children@.take(i + 1).drop_last() =~= ci.children@.take(i as int));
            assert(ci.children@.take(i + 1).last() == ci.children@[i as int]);
        }
        let win = last_child_text(w, "WinID");
        let num = last_child_text(w, "PCBNumber");
        let code = if repair {
            last_inner(w, "Result", "ErrorDescription")
        } else {
            last_inner(w, "Analysis", "Result")
        };
        if win.as_str().is_empty() || num.as_str().is_empty() || code.as_str().is_empty() {
            proof {
                lemma_apply_windows_error(
                    ci.children@,
                    i + 1,
                    old(boards).deep_view(),
                    repair,
                );
            }
            return Err(ParseError::MissingMandatoryField);
        }
        if repair {
            match parse_board_ref(num.as_str()) {
                None => {
                    proof {
                        lemma_apply_windows_error(
                            ci.children@,
                            i + 1,
                            old(boards).deep_view(),
                            repair,
                        );
                    }
                    return Err(ParseError::UnparsableNumericReference);
                },
                Some(x) => {
                    if x < boards.len() {
                        let wid = strip_win_id(win.as_str());
                        let pseudo = str_eq(code.as_str(), "Pszeudohiba");
                        let ghost prev = boards.deep_view();
                        if pseudo {
                            push_dedup(&mut boards[x].pseudo_failures, wid);
                        } else {
                            push_dedup(&mut boards[x].failures, wid);
                        }
                        proof {
                            let nb = boards.deep_view();
                            let target = add_failure(
                                prev,
                                x as int,
                                spec_strip_win(win@),
                                pseudo,
                            );
                            assert forall|k: int| 0 <= k < nb.len() implies nb[k] == target[k] by {
                                assert(nb[k] =~= target[k]);
                            }
                            assert(nb =~= target);
                        }
                    }
                },
            }
        } else {
            if !str_eq(code.as_str(), "0") {
                match parse_board_ref(num.as_str()) {
                    None => {
                        proof {
                            lemma_apply_windows_error(
                                ci.children@,
                                i + 1,
                                old(boards).deep_view(),
                                repair,
                            );
                        }
                        return Err(ParseError::UnparsableNumericReference);
                    },
                    Some(x) => {
                        if x == 0 {
                            proof {
                                lemma_apply_windows_error(
                                    ci.children@,
                                    i + 1,
                                    old(boards).deep_view(),
                                    repair,
                                );
                            }
                            return Err(ParseError::OutOfRangeBoardReference);
                        } else if x - 1 < boards.len() {
                            let wid = strip_win_id(win.as_str());
                            let ghost prev = boards.deep_view();
                            push_dedup(&mut boards[x - 1].failures, wid);
                            proof {
                                let nb = boards.deep_view();
                                let target = add_failure(
                                    prev,
                                    x - 1,
                                    spec_strip_win(win@),
                                    false,
                                );
                                assert forall|k: int| 0 <= k < nb.len() implies nb[k]
                                    == target[k] by {
                                    assert(nb[k] =~= target[k]);
                                }
                                assert(nb =~= target);
                            }
                        } else {
                            proof {
                                lemma_apply_windows_error(
                                    ci.children@,
                                    i + 1,
                                    old(boards).deep_view(),
                                    repair,
                                );
                            }
                            return Err(ParseError::OutOfRangeBoardReference);
                        }
                    },
                }
            }
        }
        i = i + 1;
    }
    proof {
        assert(ci.children@.take(n as int) =~= ci.children@);
    }
    Ok(())
}

} // verus!
