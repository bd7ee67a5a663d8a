//! The final normalization sort: boards ordered by ascending serial, stably,
//! with a verified insertion sort.

use vstd::prelude::*;
use crate::model::{Board, BoardV};
use crate::text::{lex_lt, str_lt};

verus! {

/// `b` inserted into `s` before the first entry whose serial is strictly
/// greater: entries with an equal serial keep coming first, which is what a
/// stable sort does with them.
pub open spec fn insert_sorted(b: BoardV, s: Seq<BoardV>) -> Seq<BoardV>
    decreases s.len(),
{
    if s.len() == 0 {
        seq![b]
    } else if lex_lt(b.serial, s[0].serial) {
        seq![b] + s
    } else {
        seq![s[0]] + insert_sorted(b, s.drop_first())
    }
}

/// The boards sorted by ascending serial: the unique stable sort under
/// `lex_lt` on serials.
pub open spec fn sort_by_serial(s: Seq<BoardV>) -> Seq<BoardV>
    decreases s.len(),
{
    if s.len() == 0 {
        Seq::empty()
    } else {
        insert_sorted(s.last(), sort_by_serial(s.drop_last()))
    }
}

/// No later board has a strictly smaller serial.
pub open spec fn sorted_by_serial(s: Seq<BoardV>) -> bool {
    forall|i: int, j: int|
        0 <= i < j < s.len() ==> !lex_lt(#[trigger] s[j].serial, #[trigger] s[i].serial)
}

pub proof fn lemma_insert_sorted_len(b: BoardV, s: Seq<BoardV>)
    ensures
        insert_sorted(b, s).len() == s.len() + 1,
    decreases s.len(),
{
    if s.len() > 0 && !lex_lt(b.serial, s[0].serial) {
        lemma_insert_sorted_len(b, s.drop_first());
    }
}

/// Sorting changes no length.
pub proof fn lemma_sort_by_serial_len(s: Seq<BoardV>)
    ensures
        sort_by_serial(s).len() == s.len(),
    decreases s.len(),
{
    if s.len() > 0 {
        lemma_sort_by_serial_len(s.drop_last());
        lemma_insert_sorted_len(s.last(), sort_by_serial(s.drop_last()));
    }
}

/// Insertion yields exactly the old entries plus the new one.
pub proof fn lemma_insert_sorted_contains(b: BoardV, s: Seq<BoardV>, x: BoardV)
    ensures
        insert_sorted(b, s).contains(x) <==> (x == b || s.contains(x)),
    decreases s.len(),
{
    if s.len() == 0 {
        assert(insert_sorted(b, s) == seq![b]);
        assert(insert_sorted(b, s)[0] == b);
    } else if lex_lt(b.serial, s[0].serial) {
        assert forall|k: int| 0 <= k < s.len() implies (seq![b] + s)[k + 1] == s[k] by {}
        assert((seq![b] + s)[0] == b);
        if insert_sorted(b, s).contains(x) {
            let k = choose|k: int| 0 <= k < (seq![b] + s).len() && (seq![b] + s)[k] == x;
            if k > 0 {
                assert(s[k - 1] == x);
            }
        }
        if s.contains(x) {
            let k = choose|k: int| 0 <= k < s.len() && s[k] == x;
            assert((seq![b] + s)[k + 1] == x);
        }
    } else {
        lemma_insert_sorted_contains(b, s.drop_first(), x);
        let rest = insert_sorted(b, s.drop_first());
        assert((seq![s[0]] + rest)[0] == s[0]);
        assert forall|k: int| 0 <= k < rest.len() implies (seq![s[0]] + rest)[k + 1]
            == rest[k] by {}
        if insert_sorted(b, s).contains(x) {
            let k = choose|k: int|
                0 <= k < (seq![s[0]] + rest).len() && (seq![s[0]] + rest)[k] == x;
            if k == 0 {
                assert(s.contains(x)) by {
                    assert(s[0] == x);
                }
            } else {
                assert(rest[k - 1] == x);
                assert(rest.contains(x));
                if x != b {
                    let m = choose|m: int| 0 <= m < s.drop_first().len() && s.drop_first()[m]
                        == x;
                    assert(s[m + 1] == x);
                }
            }
        }
        if x == b || s.contains(x) {
            if x == b {
                assert(rest.contains(x));
                let k = choose|k: int| 0 <= k < rest.len() && rest[k] == x;
                assert((seq![s[0]] + rest)[k + 1] == x);
            } else {
                let k = choose|k: int| 0 <= k < s.len() && s[k] == x;
                if k == 0 {
                    assert((seq![s[0]] + rest)[0] == x);
                } else {
                    assert(s.drop_first()[k - 1] == x);
                    assert(rest.contains(x));
                    let m = choose|m: int| 0 <= m < rest.len() && rest[m] == x;
                    assert((seq![s[0]] + rest)[m + 1] == x);
                }
            }
        }
    }
}

/// A sorted board list holds exactly the boards that went in.
pub proof fn lemma_sort_by_serial_contains(s: Seq<BoardV>, x: BoardV)
    ensures
        sort_by_serial(s).contains(x) <==> s.contains(x),
    decreases s.len(),
{
    if s.len() > 0 {
        lemma_sort_by_serial_contains(s.drop_last(), x);
        lemma_insert_sorted_contains(s.last(), sort_by_serial(s.drop_last()), x);
        if s.contains(x) {
            let k = choose|k: int| 0 <= k < s.len() && s[k] == x;
            if k < s.len() - 1 {
                assert(s.drop_last()[k] == x);
            }
        }
        if x == s.last() || s.drop_last().contains(x) {
            if x == s.last() {
                assert(s[s.len() - 1] == x);
            } else {
                let k = choose|k: int| 0 <= k < s.drop_last().len() && s.drop_last()[k] == x;
                assert(s[k] == x);
            }
        }
    }
}

/// Inserting into a sorted list keeps it sorted.
pub proof fn lemma_insert_sorted_sorted(b: BoardV, s: Seq<BoardV>)
    requires
        sorted_by_serial(s),
    ensures
        sorted_by_serial(insert_sorted(b, s)),
    decreases s.len(),
{
    if s.len() == 0 {
    } else if lex_lt(b.serial, s[0].serial) {
        let r = seq![b] + s;
        assert forall|i: int, j: int| 0 <= i < j < r.len() implies !lex_lt(
            #[trigger] r[j].serial,
            #[trigger] r[i].serial,
        ) by {
            if i == 0 {
                if lex_lt(r[j].serial, b.serial) {
                    crate::text::lemma_lex_lt_transitive(r[j].serial, b.serial, s[0].serial);
                    assert(lex_lt(s[j - 1].serial, s[0].serial));
                    if j - 1 > 0 {
                        assert(!lex_lt(s[j - 1].serial, s[0].serial));
                    } else {
                        crate::text::lemma_lex_lt_irreflexive(s[0].serial);
                    }
                }
            } else {
                assert(r[i] == s[i - 1]);
                assert(r[j] == s[j - 1]);
            }
        }
    } else {
        assert forall|k: int| 0 <= k < s.drop_first().len() implies !lex_lt(
            #[trigger] s.drop_first()[k].serial,
            s[0].serial,
        ) by {
            assert(s.drop_first()[k] == s[k + 1]);
        }
        assert(sorted_by_serial(s.drop_first())) by {
            assert forall|i: int, j: int| 0 <= i < j < s.drop_first().len() implies !lex_lt(
                #[trigger] s.drop_first()[j].serial,
                #[trigger] s.drop_first()[i].serial,
            ) by {
                assert(s.drop_first()[i] == s[i + 1]);
                assert(s.drop_first()[j] == s[j + 1]);
            }
        }
        lemma_insert_sorted_sorted(b, s.drop_first());
        let rest = insert_sorted(b, s.drop_first());
        lemma_insert_sorted_len(b, s.drop_first());
        lemma_insert_sorted_contains_all(b, s.drop_first());
        let r = seq![s[0]] + rest;
        assert forall|i: int, j: int| 0 <= i < j < r.len() implies !lex_lt(
            #[trigger] r[j].serial,
            #[trigger] r[i].serial,
        ) by {
            if i == 0 {
                assert(r[j] == rest[j - 1]);
                if lex_lt(rest[j - 1].serial, s[0].serial) {
                    if rest[j - 1] == b {
                        assert(!lex_lt(b.serial, s[0].serial));
                    } else {
                        let m = choose|m: int|
                            0 <= m < s.drop_first().len() && s.drop_first()[m] == rest[j - 1];
                        assert(s[m + 1] == rest[j - 1]);
                        assert(!lex_lt(s[m + 1].serial, s[0].serial));
                    }
                }
            } else {
                assert(r[i] == rest[i - 1]);
                assert(r[j] == rest[j - 1]);
            }
        }
    }
}

/// Every entry of an insertion result is the inserted board or an old one.
proof fn lemma_insert_sorted_contains_all(b: BoardV, s: Seq<BoardV>)
    ensures
        forall|k: int| 0 <= k < insert_sorted(b, s).len() ==> (#[trigger] insert_sorted(b, s)[k]
            == b || s.contains(insert_sorted(b, s)[k])),
    decreases s.len(),
{
    assert forall|k: int| 0 <= k < insert_sorted(b, s).len() implies (#[trigger] insert_sorted(
        b,
        s,
    )[k] == b || s.contains(insert_sorted(b, s)[k])) by {
        lemma_insert_sorted_contains(b, s, insert_sorted(b, s)[k]);
        lemma_insert_sorted_len(b, s);
        assert(insert_sorted(b, s).contains(insert_sorted(b, s)[k]));
    }
}

/// The sort really sorts.
pub proof fn lemma_sort_by_serial_sorted(s: Seq<BoardV>)
    ensures
        sorted_by_serial(sort_by_serial(s)),
    decreases s.len(),
{
    if s.len() > 0 {
        lemma_sort_by_serial_sorted(s.drop_last());
        lemma_insert_sorted_sorted(s.last(), sort_by_serial(s.drop_last()));
    }
}

/// Where the linear scan stops is where the recursive insertion lands.
proof fn lemma_insert_sorted_at(b: BoardV, s: Seq<BoardV>, j: int)
    requires
        0 <= j <= s.len(),
        forall|k: int| 0 <= k < j ==> !lex_lt(b.serial, (#[trigger] s[k]).serial),
        j == s.len() || lex_lt(b.serial, s[j].serial),
    ensures
        insert_sorted(b, s) == s.insert(j, b),
    decreases s.len(),
{
    if s.len() == 0 {
        assert(insert_sorted(b, s) =~= s.insert(0, b));
    } else if lex_lt(b.serial, s[0].serial) {
        assert(j == 0);
        assert(seq![b] + s =~= s.insert(0, b));
    } else {
        assert(j >= 1);
        assert forall|k: int| 0 <= k < j - 1 implies !lex_lt(
            b.serial,
            (#[trigger] s.drop_first()[k]).serial,
        ) by {
            assert(s.drop_first()[k] == s[k + 1]);
        }
        if j < s.len() {
            assert(s.drop_first()[j - 1] == s[j]);
        }
        lemma_insert_sorted_at(b, s.drop_first(), j - 1);
        assert(seq![s[0]] + s.drop_first().insert(j - 1, b) =~= s.insert(j, b));
    }
}

/// Sorts the boards by ascending serial with a stable insertion sort.
#[verifier::loop_isolation(false)]
pub fn sort_boards(v: Vec<Board>) -> (r: Vec<Board>)
    ensures
        r.deep_view() == sort_by_serial(v.deep_view()),
{
    let ghost orig = v.deep_view();
    let mut input = v;
    let mut out: Vec<Board> = Vec::new();
    proof {
        assert(orig.take(0) =~= Seq::<BoardV>::empty());
        assert(orig.skip(0) =~= orig);
        assert(out.deep_view() =~= Seq::<BoardV>::empty());
    }
    while input.len() > 0
        invariant
            input@.len() <= orig.len(),
            input.deep_view() == orig.skip(orig.len() - input@.len()),
            out.deep_view() == sort_by_serial(orig.take(orig.len() - input@.len())),
        decreases input@.len(),
    {
        let ghost k = orig.len() - input@.len();
        proof {
            assert(0 <= k < orig.len());
        }
        let b = input.remove(0);
        proof {
            assert(input.deep_view() =~= orig.skip(k).remove(0));
            assert(orig.skip(k).remove(0) =~= orig.skip(k + 1));
            assert(b@ == orig.skip(k)[0]);
            assert(orig.skip(k)[0] == orig[k]);
        }
        let mut j: usize = 0;
        while j < out.len() && !str_lt(b.serial.as_str(), out[j].serial.as_str())
            invariant
                0 <= j <= out@.len(),
                forall|m: int| 0 <= m < j ==> !lex_lt(b.serial@, (#[trigger] out.deep_view()[m]).serial),
            decreases out@.len() - j,
        {
            j = j + 1;
        }
        let ghost prev = out.deep_view();
        let ghost prevv = out@;
        proof {
            lemma_insert_sorted_at(b@, prev, j as int);
        }
        out.insert(j, b);
        proof {
            prevv.insert_ensures(j as int, b);
            prev.insert_ensures(j as int, b@);
            assert forall|m: int| 0 <= m < out.deep_view().len() implies #[trigger] out.deep_view()[m]
                == prev.insert(j as int, b@)[m] by {
                if m < j as int {
                    assert(out@[m] == prevv[m]);
                    assert(prev.insert(j as int, b@)[m] == prev[m]);
                } else if m == j as int {
                    assert(out@[m] == b);
                    assert(prev.insert(j as int, b@)[m] == b@);
                } else {
                    assert(out@[m] == prevv.insert(j as int, b)[m]);
                    assert(prevv.insert(j as int, b)[(m - 1) + 1] == prevv[m - 1]);
                    assert(prev.insert(j as int, b@)[(m - 1) + 1] == prev[m - 1]);
                }
            }
            assert(out.deep_view() =~= prev.insert(j as int, b@));
            assert(orig.take(k + 1).drop_last() =~= orig.take(k));
            assert(orig.take(k + 1).last() == orig[k]);
        }
    }
    proof {
        assert(orig.skip(orig.len() - input@.len()) =~= Seq::<BoardV>::empty());
        assert(orig.take(orig.len() - 0) =~= orig);
    }
    out
}

} // verus!
