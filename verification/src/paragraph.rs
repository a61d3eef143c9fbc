//! Paragraphs: the stretches of a text between paragraph breaks.
//!
//! A paragraph break is two line feeds in a row. Breaks are found from the
//! start of the text and do not overlap, so three line feeds in a row are
//! one break followed by a line feed that opens the next paragraph.

use vstd::prelude::*;
use vstd::slice::slice_subrange;
use crate::join::{join, lemma_join_front};
use crate::views::{lemma_views_push, views};
use crate::whitespace::{is_blank, spec_is_blank};

verus! {

/// The line feed.
pub const LINE_FEED: u8 = 0x0A;

/// The paragraph break, which also stands between the paragraphs of a
/// segment: two line feeds.
pub open spec fn separator() -> Seq<u8> {
    seq![LINE_FEED, LINE_FEED]
}

/// Whether a paragraph break starts at index `i` of `s`.
pub open spec fn is_break(s: Seq<u8>, i: int) -> bool {
    0 <= i && i + 1 < s.len() && s[i] == LINE_FEED && s[i + 1] == LINE_FEED
}

/// The index of the first paragraph break that starts at or after `from`,
/// or `s.len()` if there is none.
pub open spec fn next_break(s: Seq<u8>, from: int) -> int
    decreases s.len() - from,
{
    if from < 0 || from + 1 >= s.len() {
        s.len() as int
    } else if is_break(s, from) {
        from
    } else {
        next_break(s, from + 1)
    }
}

/// The paragraphs of `s`, in order. A text without a break is one
/// paragraph, and so is the empty text.
pub open spec fn spec_paragraphs(s: Seq<u8>) -> Seq<Seq<u8>>
    decreases s.len(),
{
    let b = next_break(s, 0);
    if 0 <= b && b + 2 <= s.len() {
        seq![s.subrange(0, b)] + spec_paragraphs(s.subrange(b + 2, s.len() as int))
    } else {
        seq![s]
    }
}

/// Whether a paragraph has content: it is not blank.
pub open spec fn has_content(p: Seq<u8>) -> bool {
    !spec_is_blank(p)
}

/// The paragraphs of `s` that are not blank, in order.
pub open spec fn spec_content(s: Seq<u8>) -> Seq<Seq<u8>> {
    spec_paragraphs(s).filter(|p: Seq<u8>| has_content(p))
}

/// [`next_break`] is the first break at or after `from`: it lies between
/// `from` and the end, a break starts there unless it is the end, and none
/// starts between `from` and it.
pub proof fn lemma_next_break(s: Seq<u8>, from: int)
    requires
        0 <= from <= s.len(),
    ensures
        from <= next_break(s, from) <= s.len(),
        next_break(s, from) < s.len() ==> is_break(s, next_break(s, from)),
        forall|i: int| from <= i < next_break(s, from) ==> !is_break(s, i),
    decreases s.len() - from,
{
    if from + 1 < s.len() && !is_break(s, from) {
        lemma_next_break(s, from + 1);
    }
}

/// The paragraphs of a text, joined by the separator, are the text.
pub proof fn lemma_paragraphs_rejoin(s: Seq<u8>)
    ensures
        spec_paragraphs(s).len() >= 1,
        join(spec_paragraphs(s), separator()) == s,
    decreases s.len(),
{
    let b = next_break(s, 0);
    lemma_next_break(s, 0);
    if 0 <= b && b + 2 <= s.len() {
        let rest = s.subrange(b + 2, s.len() as int);
        lemma_paragraphs_rejoin(rest);
        lemma_join_front(s.subrange(0, b), spec_paragraphs(rest), separator());
        assert(s.subrange(0, b) + separator() + rest =~= s);
    }
}

/// The index of the first paragraph break of `s`, or `s.len()`.
pub fn find_break(s: &[u8]) -> (at: usize)
    ensures
        at == next_break(s@, 0),
        at <= s.len(),
{
    let mut i: usize = 0;
    while i < s.len() && s.len() - i >= 2
        invariant
            i <= s.len(),
            next_break(s@, 0) == next_break(s@, i as int),
        decreases s.len() - i,
    {
        if s[i] == LINE_FEED && s[i + 1] == LINE_FEED {
            return i;
        }
        i = i + 1;
    }
    s.len()
}

/// The paragraphs of `text`, in order.
pub fn paragraphs<'a>(text: &'a [u8]) -> (list: Vec<&'a [u8]>)
    ensures
        views(list@) == spec_paragraphs(text@),
{
    let mut list: Vec<&'a [u8]> = Vec::new();
    let mut rest: &'a [u8] = text;
    assert(views(list@) =~= Seq::<Seq<u8>>::empty());
    loop
        invariant
            views(list@) + spec_paragraphs(rest@) == spec_paragraphs(text@),
        decreases rest.len(),
    {
        let b: usize = find_break(rest);
        if rest.len() - b >= 2 {
            let head: &'a [u8] = slice_subrange(rest, 0, b);
            let tail: &'a [u8] = slice_subrange(rest, b + 2, rest.len());
            proof {
                lemma_views_push(list@, head);
                assert(views(list@.push(head)) + spec_paragraphs(tail@) =~= views(list@)
                    + spec_paragraphs(rest@));
            }
            list.push(head);
            rest = tail;
        } else {
            proof {
                lemma_views_push(list@, rest);
                assert(views(list@.push(rest)) =~= views(list@) + spec_paragraphs(rest@));
            }
            list.push(rest);
            return list;
        }
    }
}

/// The paragraphs of `text` that are not blank, in order.
pub fn content_paragraphs<'a>(text: &'a [u8]) -> (list: Vec<&'a [u8]>)
    ensures
        views(list@) == spec_content(text@),
{
    let all: Vec<&'a [u8]> = paragraphs(text);
    let mut list: Vec<&'a [u8]> = Vec::new();
    let ghost keep = |p: Seq<u8>| has_content(p);
    let mut i: usize = 0;
    assert(views(list@) =~= Seq::<Seq<u8>>::empty());
    proof {
        reveal(Seq::filter);
        assert(views(all@).subrange(0, 0) =~= Seq::<Seq<u8>>::empty());
    }
    while i < all.len()
        invariant
            i <= all.len(),
            keep == |p: Seq<u8>| has_content(p),
            views(list@) == views(all@).subrange(0, i as int).filter(keep),
        decreases all.len() - i,
    {
        let p: &'a [u8] = all[i];
        proof {
            reveal(Seq::filter);
            let before = views(all@).subrange(0, i as int);
            let now = views(all@).subrange(0, i + 1);
            assert(now.drop_last() =~= before);
            assert(now.last() == p@);
            lemma_views_push(list@, p);
        }
        if !is_blank(p) {
            list.push(p);
        }
        i = i + 1;
    }
    assert(views(all@).subrange(0, all.len() as int) =~= views(all@));
    list
}

} // verus!
