//! The `PCBInformation` interpreter: sizing the board sequence by the
//! section's element count, filling slots from `SinglePCB` entries in
//! document order, and the consistency checks around it.

use vstd::prelude::*;
use crate::model::{Board, BoardV, ParseError};
use crate::text::str_eq;
use crate::xml::{find_child, first_tagged, last_child_text, last_tag_text, XmlElem};

verus! {

/// The `SinglePCB` children of `cs`, in document order.
pub open spec fn singles(cs: Seq<XmlElem>) -> Seq<XmlElem>
    decreases cs.len(),
{
    if cs.len() == 0 {
        Seq::empty()
    } else if cs.last().tag@ == "SinglePCB"@ {
        singles(cs.drop_last()).push(cs.last())
    } else {
        singles(cs.drop_last())
    }
}

pub proof fn lemma_singles_len(cs: Seq<XmlElem>)
    ensures
        singles(cs).len() <= cs.len(),
    decreases cs.len(),
{
    if cs.len() > 0 {
        lemma_singles_len(cs.drop_last());
    }
}

/// The board one `SinglePCB` entry describes: serial from its last `Barcode`
/// child, result from its last `Result` child, nothing else populated.
pub open spec fn board_of_entry(p: XmlElem) -> BoardV {
    BoardV {
        serial: last_tag_text(p.children@, "Barcode"@, Seq::empty()),
        position: 0,
        result: last_tag_text(p.children@, "Result"@, Seq::empty()),
        failures: Seq::empty(),
        pseudo_failures: Seq::empty(),
    }
}

/// An entry is usable only with a non-empty serial and a non-empty result.
pub open spec fn entry_ok(p: XmlElem) -> bool {
    board_of_entry(p).serial.len() > 0 && board_of_entry(p).result.len() > 0
}

/// The board sequence the section declares: one slot per child of
/// `PCBInformation`, the first slots filled from the `SinglePCB` entries in
/// order, the rest left blank.
pub open spec fn filled_boards(pi: XmlElem) -> Seq<BoardV> {
    Seq::new(
        pi.children@.len(),
        |i: int|
            if i < singles(pi.children@).len() {
                board_of_entry(singles(pi.children@)[i])
            } else {
                BoardV::blank()
            },
    )
}

/// Whether some entry's result differs from the literal `PASS`: the
/// document-level failed flag that gates defect-window scanning for AOI/AXI
/// documents.
pub open spec fn any_failed(pi: XmlElem) -> bool {
    exists|i: int|
        0 <= i < singles(pi.children@).len() && board_of_entry(
            singles(pi.children@)[i],
        ).result != "PASS"@
}

/// The outcome of the board-enumeration section: the sized and filled board
/// sequence plus the failed flag, or a failure on the first entry with a
/// blank serial or result. An absent section declares zero boards.
pub open spec fn boards_of(root: XmlElem) -> Result<(Seq<BoardV>, bool), ParseError> {
    match first_tagged(root.children@, "PCBInformation"@) {
        None => Ok((Seq::empty(), false)),
        Some(pi) => {
            if exists|i: int| 0 <= i < singles(pi.children@).len() && !entry_ok(
                #[trigger] singles(pi.children@)[i],
            ) {
                Err(ParseError::MissingMandatoryField)
            } else {
                Ok((filled_boards(pi), any_failed(pi)))
            }
        },
    }
}

/// Interprets the `PCBInformation` section of `root`.
#[verifier::loop_isolation(false)]
pub fn read_boards(root: &XmlElem) -> (r: Result<(Vec<Board>, bool), ParseError>)
    ensures
        match r {
            Ok(p) => boards_of(*root) == Ok::<(Seq<BoardV>, bool), ParseError>(
                (p.0.deep_view(), p.1),
            ),
            Err(e) => boards_of(*root) == Err::<(Seq<BoardV>, bool), ParseError>(e),
        },
{
    let pi = match find_child(root, "PCBInformation") {
        Some(pi) => pi,
        None => {
            let empty: Vec<Board> = Vec::new();
            proof {
                assert(empty.deep_view() =~= Seq::<BoardV>::empty());
            }
            return Ok((empty, false));
        },
    };
    let n = pi.children.len();
    let mut boards: Vec<Board> = Vec::new();
    let mut failed = false;
    proof {
        assert(pi.children@.take(0) =~= Seq::<XmlElem>::empty());
    }
    let mut i: usize = 0;
    while i < n
        invariant
            0 <= i <= n,
            boards@.len() == singles(pi.children@.take(i as int)).len(),
            forall|j: int| 0 <= j < boards@.len() ==> #[trigger] boards.deep_view()[j]
                == board_of_entry(singles(pi.children@.take(i as int))[j]),
            forall|j: int| 0 <= j < boards@.len() ==> entry_ok(
                #[trigger] singles(pi.children@.take(i as int))[j],
            ),
            failed == exists|j: int|
                0 <= j < singles(pi.children@.take(i as int)).len() && board_of_entry(
                    #[trigger] singles(pi.children@.take(i as int))[j],
                ).result != "PASS"@,
        decreases n - i,
    {
        let c = &pi.children[i];
        proof {
            assert(pi.children@.take(i + 1).drop_last() =~= pi.children@.take(i as int));
            assert(pi.children@.take(i + 1).last() == pi.children@[i as int]);
        }
        if str_eq(c.tag.as_str(), "SinglePCB") {
            let serial = last_child_text(c, "Barcode");
            let result = last_child_text(c, "Result");
            if serial.as_str().is_empty() || result.as_str().is_empty() {
                proof {
                    lemma_singles_take_prefix(pi.children@, i + 1);
                    assert(!entry_ok(singles(pi.children@.take(i + 1)).last()));
                    let k = singles(pi.children@.take(i + 1)).len() - 1;
                    assert(!entry_ok(singles(pi.children@)[k]));
                }
                return Err(ParseError::MissingMandatoryField);
            }
            let is_pass = str_eq(result.as_str(), "PASS");
            if !is_pass {
                failed = true;
            }
            let b = Board {
                serial,
                position: 0,
                result,
                failures: Vec::new(),
                pseudo_failures: Vec::new(),
            };
            let ghost prev = boards.deep_view();
            proof {
                assert(b@ =~= board_of_entry(pi.children@[i as int]));
            }
            boards.push(b);
            proof {
                let cs = pi.children@;
                let pre = singles(cs.take(i as int));
                let cur = singles(cs.take(i + 1));
                let ce = cs[i as int];
                assert(cur == pre.push(ce));
                assert(boards.deep_view() =~= prev.push(b@));
                assert forall|j: int| 0 <= j < cur.len() implies #[trigger] cur[j] == (
                if j < pre.len() {
                    pre[j]
                } else {
                    ce
                }) by {
                    assert(pre.push(ce)[j] == (if j < pre.len() {
                        pre[j]
                    } else {
                        ce
                    }));
                }
                assert forall|j: int| 0 <= j < boards@.len() implies #[trigger] boards.deep_view()[j]
                    == board_of_entry(cur[j]) by {
                    assert(boards.deep_view()[j] == prev.push(b@)[j]);
                    if j < pre.len() {
                        assert(prev.push(b@)[j] == prev[j]);
                    } else {
                        assert(prev.push(b@)[j] == b@);
                    }
                }
                assert(board_of_entry(ce).serial.len() > 0);
                assert(board_of_entry(ce).result.len() > 0);
                assert forall|j: int| 0 <= j < boards@.len() implies entry_ok(
                    #[trigger] cur[j],
                ) by {
                    if j < pre.len() {
                        assert(cur[j] == pre[j]);
                        assert(entry_ok(pre[j]));
                    } else {
                        assert(cur[j] == ce);
                    }
                }
                if !is_pass {
                    assert(board_of_entry(cur[pre.len() as int]).result != "PASS"@);
                    assert(exists|j: int|
                        0 <= j < cur.len() && board_of_entry(#[trigger] cur[j]).result
                            != "PASS"@);
                } else {
                    if failed {
                        let k = choose|k: int|
                            0 <= k < pre.len() && board_of_entry(#[trigger] pre[k]).result
                                != "PASS"@;
                        assert(cur[k] == pre[k]);
                        assert(board_of_entry(cur[k]).result != "PASS"@);
                        assert(exists|j: int|
                            0 <= j < cur.len() && board_of_entry(#[trigger] cur[j]).result
                                != "PASS"@);
                    } else {
                        assert forall|j: int|
                            0 <= j < cur.len() implies board_of_entry(#[trigger] cur[j]).result
                                == "PASS"@ by {
                            if j < pre.len() {
                                assert(cur[j] == pre[j]);
                                assert(board_of_entry(pre[j]).result == "PASS"@);
                            } else {
                                assert(cur[j] == ce);
                                assert(board_of_entry(ce).result == "PASS"@);
                            }
                        }
                    }
                }
            }
        }
        i = i + 1;
    }
    proof {
        assert(pi.children@.take(n as int) =~= pi.children@);
        lemma_singles_len(pi.children@);
    }
    while boards.len() < n
        invariant
            singles(pi.children@).len() <= boards@.len() <= n,
            forall|j: int| 0 <= j < boards@.len() ==> #[trigger] boards.deep_view()[j]
                == filled_boards(*pi)[j],
        decreases n - boards.len(),
    {
        let b = Board::default();
        let ghost prev = boards.deep_view();
        boards.push(b);
        proof {
            assert(boards.deep_view() =~= prev.push(b@));
        }
    }
    proof {
        assert(boards.deep_view() =~= filled_boards(*pi));
    }
    Ok((boards, failed))
}

/// Whatever `SinglePCB` entries a prefix of `cs` holds, the whole of `cs`
/// holds at the same positions.
pub proof fn lemma_singles_take_prefix(cs: Seq<XmlElem>, i: int)
    requires
        0 <= i <= cs.len(),
    ensures
        singles(cs.take(i)).len() <= singles(cs).len(),
        forall|j: int| 0 <= j < singles(cs.take(i)).len() ==> #[trigger] singles(cs)[j]
            == singles(cs.take(i))[j],
    decreases cs.len() - i,
{
    if i == cs.len() {
        assert(cs.take(i) =~= cs);
    } else {
        lemma_singles_take_prefix(cs, i + 1);
        assert(cs.take(i + 1).drop_last() =~= cs.take(i));
        assert(cs.take(i + 1).last() == cs[i]);
    }
}

} // verus!
