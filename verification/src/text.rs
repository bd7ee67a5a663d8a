//! Verified helpers over strings: equality, decimal board references,
//! defect-window identifier normalization, and the lexicographic order the
//! final board sort uses.

use vstd::prelude::*;
use vstd::string::StrSliceExecFns;

verus! {

/// String equality by content.
pub fn str_eq(a: &str, b: &str) -> (r: bool)
    ensures
        r == (a@ == b@),
{
    let sa: String = a.to_owned();
    let sb: String = b.to_owned();
    sa == sb
}

/// Whether `c` is a decimal digit.
pub open spec fn spec_is_digit(c: char) -> bool {
    48 <= c as int <= 57
}

/// The value of the digit `c`.
pub open spec fn spec_digit_val(c: char) -> int {
    c as int - 48
}

/// Whether `s` is a well-formed decimal numeral: non-empty and digits only.
pub open spec fn spec_is_numeral(s: Seq<char>) -> bool {
    s.len() > 0 && (forall|i: int| 0 <= i < s.len() ==> spec_is_digit(#[trigger] s[i]))
}

/// The value of the numeral `s`, read most significant digit first.
pub open spec fn spec_numeral_val(s: Seq<char>) -> int
    decreases s.len(),
{
    if s.len() == 0 {
        0
    } else {
        spec_numeral_val(s.drop_last()) * 10 + spec_digit_val(s.last())
    }
}

/// What `parse_board_ref` returns: the value of the numeral when `s` is one
/// and its value fits a `usize`, nothing otherwise.
pub open spec fn spec_parse_usize(s: Seq<char>) -> Option<usize> {
    if spec_is_numeral(s) && spec_numeral_val(s) <= usize::MAX {
        Some(spec_numeral_val(s) as usize)
    } else {
        None
    }
}

/// Reads a board reference: a non-empty, digits-only decimal numeral whose
/// value fits a `usize`. Anything else is refused.
pub fn parse_board_ref(s: &str) -> (r: Option<usize>)
    ensures
        r == spec_parse_usize(s@),
{
    let n = s.unicode_len();
    if n == 0 {
        return None;
    }
    let mut val: usize = 0;
    let mut i: usize = 0;
    while i < n
        invariant
            0 <= i <= n,
            n == s@.len(),
            forall|j: int| 0 <= j < i ==> spec_is_digit(#[trigger] s@[j]),
            val == spec_numeral_val(s@.take(i as int)),
        decreases n - i,
    {
        let c = s.get_char(i);
        let u = c as u32;
        if u < 48 || u > 57 {
            proof {
                assert(!spec_is_digit(s@[i as int]));
            }
            return None;
        }
        let d = (u - 48) as usize;
        if val > (usize::MAX - d) / 10 {
            proof {
                if spec_is_numeral(s@) {
                    assert(val * 10 + d > usize::MAX) by (nonlinear_arith)
                        requires
                            val > (usize::MAX - d) / 10,
                            0 <= d <= 9,
                            val >= 0,
                    ;
                    lemma_numeral_val_overflow(s@, i as int, d as int);
                }
            }
            return None;
        }
        proof {
            assert(s@.take(i + 1).drop_last() =~= s@.take(i as int));
            assert(s@.take(i + 1).last() == s@[i as int]);
        }
        val = val * 10 + d;
        i = i + 1;
    }
    proof {
        assert(s@.take(n as int) =~= s@);
    }
    Some(val)
}

/// Strict lexicographic order on character sequences, by code point; a
/// proper prefix comes first. This is the order the final board sort uses.
pub open spec fn lex_lt(a: Seq<char>, b: Seq<char>) -> bool
    decreases a.len(),
{
    if b.len() == 0 {
        false
    } else if a.len() == 0 {
        true
    } else if (a[0] as int) < (b[0] as int) {
        true
    } else if a[0] != b[0] {
        false
    } else {
        lex_lt(a.drop_first(), b.drop_first())
    }
}

/// `lex_lt` is irreflexive.
pub proof fn lemma_lex_lt_irreflexive(a: Seq<char>)
    ensures
        !lex_lt(a, a),
    decreases a.len(),
{
    if a.len() > 0 {
        lemma_lex_lt_irreflexive(a.drop_first());
    }
}

/// `lex_lt` is transitive.
pub proof fn lemma_lex_lt_transitive(a: Seq<char>, b: Seq<char>, c: Seq<char>)
    requires
        lex_lt(a, b),
        lex_lt(b, c),
    ensures
        lex_lt(a, c),
    decreases a.len(),
{
    if a.len() > 0 && b.len() > 0 && c.len() > 0 && a[0] == b[0] && b[0] == c[0] {
        lemma_lex_lt_transitive(a.drop_first(), b.drop_first(), c.drop_first());
    }
}

/// Decides `lex_lt` on two strings.
pub fn str_lt(a: &str, b: &str) -> (r: bool)
    ensures
        r == lex_lt(a@, b@),
{
    let na = a.unicode_len();
    let nb = b.unicode_len();
    let mut i: usize = 0;
    proof {
        assert(a@.skip(0) =~= a@);
        assert(b@.skip(0) =~= b@);
    }
    loop
        invariant
            0 <= i <= na,
            i <= nb,
            na == a@.len(),
            nb == b@.len(),
            lex_lt(a@, b@) == lex_lt(a@.skip(i as int), b@.skip(i as int)),
        decreases na - i,
    {
        if i >= nb {
            return false;
        }
        if i >= na {
            return true;
        }
        let ca = a.get_char(i);
        let cb = b.get_char(i);
        if (ca as u32) < (cb as u32) {
            return true;
        }
        if ca != cb {
            return false;
        }
        proof {
            assert(a@.skip(i as int).drop_first() =~= a@.skip(i + 1));
            assert(b@.skip(i as int).drop_first() =~= b@.skip(i + 1));
        }
        i = i + 1;
    }
}

/// The index of the last `-` of `s`, or -1 when there is none.
pub open spec fn spec_rfind_dash(s: Seq<char>) -> int
    decreases s.len(),
{
    if s.len() == 0 {
        -1
    } else if s.last() == '-' {
        s.len() - 1
    } else {
        spec_rfind_dash(s.drop_last())
    }
}

/// A defect-window identifier, normalized: everything from its last `-` on is
/// a sub-index suffix and is cut away; an identifier without `-` stays whole.
pub open spec fn spec_strip_win(s: Seq<char>) -> Seq<char> {
    if spec_rfind_dash(s) >= 0 {
        s.take(spec_rfind_dash(s))
    } else {
        s
    }
}

/// Normalizes a defect-window identifier by cutting its sub-index suffix.
pub fn strip_win_id(s: &str) -> (r: String)
    ensures
        r@ == spec_strip_win(s@),
{
    let n = s.unicode_len();
    let mut j: usize = n;
    proof {
        assert(s@.take(n as int) =~= s@);
    }
    while j > 0
        invariant
            0 <= j <= n,
            n == s@.len(),
            spec_rfind_dash(s@) == spec_rfind_dash(s@.take(j as int)),
        decreases j,
    {
        let c = s.get_char(j - 1);
        proof {
            assert(s@.take(j as int).last() == s@[j - 1]);
        }
        if c == '-' {
            let head = s.substring_char(0, j - 1);
            return head.to_owned();
        }
        proof {
            assert(s@.take(j as int).drop_last() =~= s@.take(j - 1));
        }
        j = j - 1;
    }
    proof {
        assert(s@.take(0) =~= Seq::<char>::empty());
        assert(s@.take(n as int) =~= s@);
    }
    s.to_owned()
}

/// No two entries of `l` read the same.
pub open spec fn distinct_entries(l: Seq<Seq<char>>) -> bool {
    forall|i: int, j: int| 0 <= i < j < l.len() ==> #[trigger] l[i] != #[trigger] l[j]
}

/// Appending with suppression of duplicates keeps the entries distinct.
pub proof fn lemma_push_dedup_distinct(l: Seq<Seq<char>>, w: Seq<char>)
    requires
        distinct_entries(l),
    ensures
        distinct_entries(spec_push_dedup(l, w)),
{
    if !spec_has_entry(l, w) {
        let r = l.push(w);
        assert forall|i: int, j: int| 0 <= i < j < r.len() implies #[trigger] r[i]
            != #[trigger] r[j] by {
            if j < l.len() {
                assert(r[i] == l[i] && r[j] == l[j]);
            } else {
                assert(r[j] == w);
                assert(r[i] == l[i]);
                assert(!(exists|k: int| 0 <= k < l.len() && l[k] == w));
            }
        }
    }
}

/// Where the last `-` of `s` sits: `spec_rfind_dash` names the last index
/// holding `-`, or -1 when no entry does.
pub proof fn lemma_rfind_dash(s: Seq<char>)
    ensures
        (forall|i: int| 0 <= i < s.len() ==> s[i] != '-') <==> spec_rfind_dash(s) == -1,
        spec_rfind_dash(s) != -1 ==> 0 <= spec_rfind_dash(s) < s.len() && s[spec_rfind_dash(s)]
            == '-' && (forall|j: int| spec_rfind_dash(s) < j < s.len() ==> s[j] != '-'),
    decreases s.len(),
{
    if s.len() > 0 && s.last() != '-' {
        lemma_rfind_dash(s.drop_last());
        assert forall|i: int| 0 <= i < s.len() - 1 implies s.drop_last()[i] == s[i] by {}
        if spec_rfind_dash(s) == -1 {
            assert forall|i: int| 0 <= i < s.len() implies s[i] != '-' by {
                if i < s.len() - 1 {
                    assert(s.drop_last()[i] != '-');
                }
            }
        }
    }
}

/// A defect-window identifier is truncated at its last `-` and only there;
/// one without a separator stays whole.
pub proof fn lemma_strip_win(s: Seq<char>)
    ensures
        (forall|i: int| 0 <= i < s.len() ==> s[i] != '-') ==> spec_strip_win(s) == s,
        spec_rfind_dash(s) >= 0 ==> {
            let d = spec_rfind_dash(s);
            &&& s[d] == '-'
            &&& (forall|j: int| d < j < s.len() ==> s[j] != '-')
            &&& spec_strip_win(s) == s.take(d)
        },
{
    lemma_rfind_dash(s);
}

/// Whether some entry of `l` reads `w`.
pub open spec fn spec_has_entry(l: Seq<Seq<char>>, w: Seq<char>) -> bool {
    exists|i: int| 0 <= i < l.len() && l[i] == w
}

/// What appending `w` with suppression of duplicates does to a list.
pub open spec fn spec_push_dedup(l: Seq<Seq<char>>, w: Seq<char>) -> Seq<Seq<char>> {
    if spec_has_entry(l, w) {
        l
    } else {
        l.push(w)
    }
}

/// Whether `v` already holds an entry reading `w`.
pub fn contains_str(v: &Vec<String>, w: &str) -> (r: bool)
    ensures
        r == spec_has_entry(v.deep_view(), w@),
{
    let n = v.len();
    for i in 0..n
        invariant
            n == v.len(),
            forall|j: int| 0 <= j < i ==> v.deep_view()[j] != w@,
    {
        if str_eq(v[i].as_str(), w) {
            proof {
                assert(v.deep_view()[i as int] == w@);
            }
            return true;
        }
    }
    false
}

/// Appends `w` unless an equal entry is already present.
pub fn push_dedup(v: &mut Vec<String>, w: String)
    ensures
        final(v).deep_view() == spec_push_dedup(old(v).deep_view(), w@),
{
    if !contains_str(v, w.as_str()) {
        let ghost before = v.deep_view();
        v.push(w);
        proof {
            assert(v.deep_view() =~= before.push(w@));
        }
    }
}

/// If a numeral's prefix is already too large, the whole numeral overflows.
proof fn lemma_numeral_val_overflow(s: Seq<char>, i: int, d: int)
    requires
        0 <= i < s.len(),
        forall|j: int| 0 <= j < s.len() ==> spec_is_digit(#[trigger] s[j]),
        spec_digit_val(s[i]) == d,
        spec_numeral_val(s.take(i)) * 10 + d > usize::MAX,
    ensures
        spec_numeral_val(s) > usize::MAX,
    decreases s.len() - i,
{
    if i == s.len() - 1 {
        assert(s.take(i).push(s[i]) =~= s);
        assert(s.take(i + 1) =~= s);
        assert(s.take(i + 1).drop_last() =~= s.take(i));
        assert(spec_numeral_val(s) == spec_numeral_val(s.take(i)) * 10 + d);
    } else {
        assert(s.take(i + 1).drop_last() =~= s.take(i));
        assert(s.take(i + 1).last() == s[i]);
        assert(spec_numeral_val(s.take(i + 1)) == spec_numeral_val(s.take(i)) * 10 + d)
            by {
            assert(s.take(i + 1).last() == s[i]);
        };
        let d2 = spec_digit_val(s[i + 1]);
        assert(0 <= d2 <= 9);
        assert(spec_numeral_val(s.take(i + 1)) * 10 + d2 > usize::MAX) by (nonlinear_arith)
            requires
                spec_numeral_val(s.take(i + 1)) > usize::MAX,
                d2 >= 0,
        ;
        lemma_numeral_val_overflow(s, i + 1, d2);
    }
}

} // verus!
