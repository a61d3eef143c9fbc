//! Cutting one over-long paragraph into pieces that fit.
//!
//! A piece ends where the last white-space character inside the window of
//! the first `max` bytes begins. Where the window holds no white space the
//! piece is the window itself, whatever that cuts through. The white space
//! that follows a piece is dropped before the next piece begins.

use vstd::prelude::*;
use vstd::slice::slice_subrange;
use crate::views::{copy_bytes, lemma_views_push, views};
use crate::whitespace::{
    leading_whitespace, lemma_skip_whitespace_bounds, skip_whitespace, spec_is_blank,
    spec_trim_start, whitespace_len, whitespace_len_at,
};

verus! {

/// Whether a white-space character starts at index `i` of `s` and ends
/// within the first `window` bytes.
pub open spec fn is_cut(s: Seq<u8>, window: int, i: int) -> bool {
    whitespace_len(s, i) > 0 && i + whitespace_len(s, i) <= window
}

/// The largest index below `below` that [`is_cut`], or -1 if there is none.
pub open spec fn last_cut(s: Seq<u8>, window: int, below: int) -> int
    decreases below,
{
    if below <= 0 {
        -1
    } else if is_cut(s, window, below - 1) {
        below - 1
    } else {
        last_cut(s, window, below - 1)
    }
}

/// Where the first piece of `s` ends: at the end of `s` if `s` fits in `max`
/// bytes, else at the last cut inside the window, else at `max`.
pub open spec fn piece_end(s: Seq<u8>, max: int) -> int {
    if s.len() <= max {
        s.len() as int
    } else if last_cut(s, max, max) >= 0 {
        last_cut(s, max, max)
    } else {
        max
    }
}

/// What is left of `s` after its first piece and the white space behind it.
pub open spec fn after_piece(s: Seq<u8>, max: int) -> Seq<u8> {
    spec_trim_start(s.subrange(piece_end(s, max), s.len() as int))
}

/// The pieces of `s`, in order: its first piece, and the pieces of what is
/// left after it. No ceiling below one byte can be kept, and no pieces are
/// defined for one.
pub open spec fn spec_split_long(s: Seq<u8>, max: int) -> Seq<Seq<u8>>
    decreases s.len(),
    via split_long_decreases
{
    if s.len() == 0 || max < 1 {
        Seq::empty()
    } else {
        seq![s.subrange(0, piece_end(s, max))] + spec_split_long(after_piece(s, max), max)
    }
}

#[via_fn]
proof fn split_long_decreases(s: Seq<u8>, max: int) {
    if s.len() != 0 && max >= 1 {
        lemma_piece_progress(s, max);
    }
}

/// [`last_cut`] is a cut below `below`, or -1, and no cut lies between it
/// and `below`.
pub proof fn lemma_last_cut(s: Seq<u8>, window: int, below: int)
    ensures
        last_cut(s, window, below) >= -1,
        last_cut(s, window, below) >= 0 ==> last_cut(s, window, below) < below && is_cut(
            s,
            window,
            last_cut(s, window, below),
        ),
        forall|i: int| last_cut(s, window, below) < i < below ==> !is_cut(s, window, i),
    decreases below,
{
    if below > 0 && !is_cut(s, window, below - 1) {
        lemma_last_cut(s, window, below - 1);
    }
}

/// No cut lies behind the end of the text.
proof fn lemma_no_cut_behind_text(s: Seq<u8>, window: int, below: int)
    requires
        s.len() <= below,
    ensures
        last_cut(s, window, below) == last_cut(s, window, s.len() as int),
    decreases below,
{
    if s.len() < below {
        lemma_no_cut_behind_text(s, window, below - 1);
    }
}

/// The first piece lies inside `s` and is at most `max` bytes long, and what
/// is left after it is shorter than `s`.
pub proof fn lemma_piece_progress(s: Seq<u8>, max: int)
    requires
        s.len() > 0,
        max >= 1,
    ensures
        0 <= piece_end(s, max) <= s.len(),
        piece_end(s, max) <= max,
        after_piece(s, max).len() < s.len(),
{
    lemma_last_cut(s, max, max);
    let end = piece_end(s, max);
    let tail = s.subrange(end, s.len() as int);
    lemma_skip_whitespace_bounds(tail, 0);
    if end == 0 {
        assert(is_cut(s, max, 0));
        assert(tail =~= s);
    }
}

/// Every piece is at most `max` bytes long.
pub proof fn lemma_split_long_bounded(s: Seq<u8>, max: int)
    requires
        max >= 1,
    ensures
        forall|i: int|
            0 <= i < spec_split_long(s, max).len() ==> (#[trigger] spec_split_long(s, max)[i]).len()
                <= max,
    decreases s.len(),
{
    if s.len() > 0 {
        lemma_piece_progress(s, max);
        lemma_split_long_bounded(after_piece(s, max), max);
        let rest = spec_split_long(after_piece(s, max), max);
        assert forall|i: int| 0 <= i < spec_split_long(s, max).len() implies (
        #[trigger] spec_split_long(s, max)[i]).len() <= max by {
            if i > 0 {
                assert(spec_split_long(s, max)[i] == rest[i - 1]);
            }
        }
    }
}

/// What is left of `s` when `k` pieces and the white space behind each of
/// them are cut off.
pub open spec fn remainder(s: Seq<u8>, max: int, k: nat) -> Seq<u8>
    decreases k,
{
    if k == 0 {
        s
    } else {
        remainder(after_piece(s, max), max, (k - 1) as nat)
    }
}

/// The white space that is dropped behind the first piece of `s`.
pub open spec fn gap_after_piece(s: Seq<u8>, max: int) -> Seq<u8> {
    let tail = s.subrange(piece_end(s, max), s.len() as int);
    tail.subrange(0, skip_whitespace(tail, 0))
}

/// The white space that is dropped behind each piece of `s`, in order.
pub open spec fn spec_split_gaps(s: Seq<u8>, max: int) -> Seq<Seq<u8>>
    decreases s.len(),
    via split_gaps_decreases
{
    if s.len() == 0 || max < 1 {
        Seq::empty()
    } else {
        seq![gap_after_piece(s, max)] + spec_split_gaps(after_piece(s, max), max)
    }
}

#[via_fn]
proof fn split_gaps_decreases(s: Seq<u8>, max: int) {
    if s.len() != 0 && max >= 1 {
        lemma_piece_progress(s, max);
    }
}

/// The pieces with a gap behind each, in order, as one text.
pub open spec fn weave(pieces: Seq<Seq<u8>>, gaps: Seq<Seq<u8>>) -> Seq<u8>
    decreases pieces.len(),
{
    if pieces.len() == 0 || gaps.len() == 0 {
        Seq::empty()
    } else {
        pieces[0] + gaps[0] + weave(pieces.skip(1), gaps.skip(1))
    }
}

/// Piece `k` of a paragraph is the first piece of what was left when `k`
/// pieces were cut off.
pub proof fn lemma_piece_of_remainder(s: Seq<u8>, max: int, k: nat)
    requires
        max >= 1,
        k < spec_split_long(s, max).len(),
    ensures
        remainder(s, max, k).len() > 0,
        spec_split_long(s, max)[k as int] == remainder(s, max, k).subrange(
            0,
            piece_end(remainder(s, max, k), max),
        ),
    decreases k,
{
    if k > 0 {
        let rest = after_piece(s, max);
        assert(spec_split_long(s, max)[k as int] == spec_split_long(rest, max)[k - 1]);
        lemma_piece_of_remainder(rest, max, (k - 1) as nat);
    }
}

/// A piece is cut off only where white space begins, whenever the window
/// holds a white-space character: piece `k` then ends where the last such
/// character begins. Where the window holds none, the piece is the window.
/// What is left and fits within `max` is the last piece.
pub proof fn lemma_pieces_end_at_whitespace(s: Seq<u8>, max: int, k: nat)
    requires
        max >= 1,
        k < spec_split_long(s, max).len(),
    ensures
        ({
            let left = remainder(s, max, k);
            let piece = spec_split_long(s, max)[k as int];
            let end = piece.len() as int;
            &&& end <= left.len()
            &&& piece == left.subrange(0, end)
            &&& left.len() <= max ==> piece == left
            &&& left.len() > max && (exists|i: int| is_cut(left, max, i)) ==> is_cut(
                left,
                max,
                end,
            ) && forall|j: int| is_cut(left, max, j) ==> j <= end
            &&& left.len() > max && !(exists|i: int| is_cut(left, max, i)) ==> end == max
        }),
{
    let left = remainder(s, max, k);
    lemma_piece_of_remainder(s, max, k);
    lemma_piece_progress(left, max);
    lemma_last_cut(left, max, max);
    assert(left.subrange(0, left.len() as int) =~= left);
    if left.len() > max {
        let cut = last_cut(left, max, max);
        if cut >= 0 {
            assert forall|j: int| is_cut(left, max, j) implies j <= cut by {
                if j > cut {
                    assert(j < max);
                }
            }
        } else {
            assert forall|i: int| !is_cut(left, max, i) by {
                if is_cut(left, max, i) {
                    assert(0 <= i < max);
                }
            }
        }
    }
}

/// The leading white space of a text is blank.
pub proof fn lemma_leading_whitespace_is_blank(t: Seq<u8>)
    ensures
        spec_is_blank(t.subrange(0, skip_whitespace(t, 0))),
{
    lemma_skip_whitespace_bounds(t, 0);
    lemma_skip_in_prefix(t, skip_whitespace(t, 0), 0);
}

proof fn lemma_skip_in_prefix(t: Seq<u8>, n: int, i: int)
    requires
        0 <= i <= n <= t.len(),
        skip_whitespace(t, i) == n,
    ensures
        skip_whitespace(t.subrange(0, n), i) == n,
    decreases n - i,
{
    let pre = t.subrange(0, n);
    if i < n {
        let w = whitespace_len(t, i);
        lemma_skip_whitespace_bounds(t, i + w);
        assert(whitespace_len(pre, i) == w);
        lemma_skip_in_prefix(t, n, i + w);
    }
}

/// The pieces of a paragraph, each followed by the white space that was
/// dropped behind it, are the paragraph: there is one gap for each piece,
/// every gap is blank, and pieces and gaps woven together give the text
/// back.
pub proof fn lemma_split_reassembles(s: Seq<u8>, max: int)
    requires
        max >= 1,
    ensures
        spec_split_gaps(s, max).len() == spec_split_long(s, max).len(),
        forall|i: int|
            0 <= i < spec_split_gaps(s, max).len() ==> spec_is_blank(
                #[trigger] spec_split_gaps(s, max)[i],
            ),
        weave(spec_split_long(s, max), spec_split_gaps(s, max)) == s,
    decreases s.len(),
{
    if s.len() > 0 {
        lemma_piece_progress(s, max);
        let end = piece_end(s, max);
        let tail = s.subrange(end, s.len() as int);
        let rest = after_piece(s, max);
        let pieces = spec_split_long(s, max);
        let gaps = spec_split_gaps(s, max);
        lemma_split_reassembles(rest, max);
        lemma_leading_whitespace_is_blank(tail);
        lemma_skip_whitespace_bounds(tail, 0);
        assert forall|i: int| 0 <= i < gaps.len() implies spec_is_blank(#[trigger] gaps[i]) by {
            if i > 0 {
                assert(gaps[i] == spec_split_gaps(rest, max)[i - 1]);
            }
        }
        assert(pieces.skip(1) =~= spec_split_long(rest, max));
        assert(gaps.skip(1) =~= spec_split_gaps(rest, max));
        assert(pieces[0] + gaps[0] + rest =~= s);
    }
}

/// The index at which the last white-space character inside the first
/// `window` bytes of `s` begins, if there is one.
pub fn find_cut(s: &[u8], window: usize) -> (cut: Option<usize>)
    ensures
        (match cut {
            Some(i) => i as int == last_cut(s@, window as int, window as int),
            None => last_cut(s@, window as int, window as int) == -1,
        }),
{
    let mut below: usize = if window <= s.len() {
        window
    } else {
        s.len()
    };
    proof {
        if s.len() < window {
            lemma_no_cut_behind_text(s@, window as int, window as int);
        }
    }
    while below > 0
        invariant
            below <= window,
            below <= s.len(),
            last_cut(s@, window as int, window as int) == last_cut(s@, window as int, below as int),
        decreases below,
    {
        let i: usize = below - 1;
        let w: usize = whitespace_len_at(s, i);
        if w > 0 && w <= window - i {
            return Some(i);
        }
        below = i;
    }
    None
}

/// Cuts `paragraph` into pieces of at most `max_size` bytes.
pub fn split_long(paragraph: &[u8], max_size: usize) -> (pieces: Vec<Vec<u8>>)
    requires
        max_size >= 1,
    ensures
        views(pieces@) == spec_split_long(paragraph@, max_size as int),
{
    let mut pieces: Vec<Vec<u8>> = Vec::new();
    let mut remaining: &[u8] = paragraph;
    assert(views(pieces@) =~= Seq::<Seq<u8>>::empty());
    while remaining.len() > 0
        invariant
            max_size >= 1,
            views(pieces@) + spec_split_long(remaining@, max_size as int) == spec_split_long(
                paragraph@,
                max_size as int,
            ),
        decreases remaining.len(),
    {
        proof {
            lemma_piece_progress(remaining@, max_size as int);
        }
        let end: usize = if remaining.len() <= max_size {
            remaining.len()
        } else {
            match find_cut(remaining, max_size) {
                Some(i) => i,
                None => max_size,
            }
        };
        let piece: Vec<u8> = copy_bytes(slice_subrange(remaining, 0, end));
        let rest: &[u8] = slice_subrange(remaining, end, remaining.len());
        let skipped: usize = leading_whitespace(rest);
        proof {
            lemma_views_push(pieces@, piece);
            assert(views(pieces@.push(piece)) + spec_split_long(
                after_piece(remaining@, max_size as int),
                max_size as int,
            ) =~= views(pieces@) + spec_split_long(remaining@, max_size as int));
        }
        pieces.push(piece);
        remaining = slice_subrange(rest, skipped, rest.len());
    }
    assert(views(pieces@) + Seq::<Seq<u8>>::empty() =~= views(pieces@));
    pieces
}

} // verus!
