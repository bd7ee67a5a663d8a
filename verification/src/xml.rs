//! A read-only document tree as plain data, and the verified lookups the
//! section interpreters use: first child by tag, a child's text, and the
//! last-assignment text scan the per-entry field loops perform.

use vstd::prelude::*;
use crate::text::str_eq;

verus! {

/// One XML element: its tag name, its immediate text content (empty when the
/// element has none), and its element children in document order. Attributes
/// and namespaces are irrelevant to the documents this library reads and are
/// not kept.
#[derive(Debug)]
pub struct XmlElem {
    pub tag: String,
    pub text: String,
    pub children: Vec<XmlElem>,
}

/// The first element of `cs` whose tag reads `t`, if any.
pub open spec fn first_tagged(cs: Seq<XmlElem>, t: Seq<char>) -> Option<XmlElem>
    decreases cs.len(),
{
    if cs.len() == 0 {
        None
    } else if cs[0].tag@ == t {
        Some(cs[0])
    } else {
        first_tagged(cs.drop_first(), t)
    }
}

/// The text of the first child of `e` tagged `t`, empty when there is none.
pub open spec fn tag_text(e: XmlElem, t: Seq<char>) -> Seq<char> {
    match first_tagged(e.children@, t) {
        Some(c) => c.text@,
        None => Seq::empty(),
    }
}

/// The text of the `End` child of the first child of `e` tagged `outer`,
/// empty when either level is absent. The date and time halves of a
/// timestamp both sit under such a nested pair.
pub open spec fn nested_end_text(e: XmlElem, outer: Seq<char>) -> Seq<char> {
    match first_tagged(e.children@, outer) {
        Some(c) => tag_text(c, "End"@),
        None => Seq::empty(),
    }
}

/// The text of the last element of `cs` tagged `t`, or `dflt` when no such
/// element exists. The per-entry field loops assign on every match, so the
/// last occurrence wins.
pub open spec fn last_tag_text(cs: Seq<XmlElem>, t: Seq<char>, dflt: Seq<char>) -> Seq<char>
    decreases cs.len(),
{
    if cs.len() == 0 {
        dflt
    } else if cs.last().tag@ == t {
        cs.last().text@
    } else {
        last_tag_text(cs.drop_last(), t, dflt)
    }
}

/// The defect-window result lookup: among `cs`, the `inner` text of the last
/// element tagged `outer` that has an `inner` child at all; an `outer`
/// element without one leaves the value untouched.
pub open spec fn last_inner_text(cs: Seq<XmlElem>, outer: Seq<char>, inner: Seq<char>) -> Seq<
    char,
>
    decreases cs.len(),
{
    if cs.len() == 0 {
        Seq::empty()
    } else if cs.last().tag@ == outer && first_tagged(cs.last().children@, inner) is Some {
        tag_text(cs.last(), inner)
    } else {
        last_inner_text(cs.drop_last(), outer, inner)
    }
}

/// Finds the first child of `e` tagged `t`.
pub fn find_child<'a>(e: &'a XmlElem, t: &str) -> (r: Option<&'a XmlElem>)
    ensures
        match r {
            Some(c) => first_tagged(e.children@, t@) == Some(*c),
            None => first_tagged(e.children@, t@) is None,
        },
{
    let n = e.children.len();
    proof {
        assert(e.children@.skip(0) =~= e.children@);
    }
    for i in 0..n
        invariant
            n == e.children@.len(),
            first_tagged(e.children@, t@) == first_tagged(e.children@.skip(i as int), t@),
    {
        if str_eq(e.children[i].tag.as_str(), t) {
            proof {
                assert(e.children@.skip(i as int)[0] == e.children@[i as int]);
            }
            return Some(&e.children[i]);
        }
        proof {
            assert(e.children@.skip(i as int).drop_first() =~= e.children@.skip(i + 1));
        }
    }
    proof {
        assert(e.children@.skip(n as int) =~= Seq::<XmlElem>::empty());
    }
    None
}

/// The text of the first child of `e` tagged `t`, empty when there is none.
pub fn child_text(e: &XmlElem, t: &str) -> (r: String)
    ensures
        r@ == tag_text(*e, t@),
{
    match find_child(e, t) {
        Some(c) => c.text.clone(),
        None => String::new(),
    }
}

/// The text of `e`'s `outer` child's `End` child, empty when absent.
pub fn nested_end(e: &XmlElem, outer: &str) -> (r: String)
    ensures
        r@ == nested_end_text(*e, outer@),
{
    match find_child(e, outer) {
        Some(c) => child_text(c, "End"),
        None => String::new(),
    }
}

/// The text of the last child of `e` tagged `t`, empty when there is none.
pub fn last_child_text(e: &XmlElem, t: &str) -> (r: String)
    ensures
        r@ == last_tag_text(e.children@, t@, Seq::<char>::empty()),
{
    let n = e.children.len();
    let mut acc = String::new();
    proof {
        assert(e.children@.take(0) =~= Seq::<XmlElem>::empty());
    }
    for i in 0..n
        invariant
            n == e.children@.len(),
            acc@ == last_tag_text(e.children@.take(i as int), t@, Seq::<char>::empty()),
    {
        proof {
            assert(e.children@.take(i + 1).drop_last() =~= e.children@.take(i as int));
            assert(e.children@.take(i + 1).last() == e.children@[i as int]);
        }
        if str_eq(e.children[i].tag.as_str(), t) {
            acc = e.children[i].text.clone();
        }
    }
    proof {
        assert(e.children@.take(n as int) =~= e.children@);
    }
    acc
}

/// The `inner` text of the last child of `e` tagged `outer` that has an
/// `inner` child, empty when there is none.
pub fn last_inner(e: &XmlElem, outer: &str, inner: &str) -> (r: String)
    ensures
        r@ == last_inner_text(e.children@, outer@, inner@),
{
    let n = e.children.len();
    let mut acc = String::new();
    proof {
        assert(e.children@.take(0) =~= Seq::<XmlElem>::empty());
    }
    for i in 0..n
        invariant
            n == e.children@.len(),
            acc@ == last_inner_text(e.children@.take(i as int), outer@, inner@),
    {
        proof {
            assert(e.children@.take(i + 1).drop_last() =~= e.children@.take(i as int));
            assert(e.children@.take(i + 1).last() == e.children@[i as int]);
        }
        if str_eq(e.children[i].tag.as_str(), outer) {
            if let Some(t) = find_child(&e.children[i], inner) {
                acc = t.text.clone();
            }
        }
    }
    proof {
        assert(e.children@.take(n as int) =~= e.children@);
    }
    acc
}

} // verus!
