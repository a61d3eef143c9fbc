//! The chunker: from a text to segments of bounded size.
//!
//! Blank paragraphs are dropped. The others are gathered into segments, in
//! order, with the separator between the paragraphs of one segment, as long
//! as the segment stays within the ceiling. A paragraph that is longer than
//! the ceiling by itself is cut into pieces, each a segment of its own.

use vstd::prelude::*;
use crate::join::{join, lemma_join_front};
use crate::paragraph::{content_paragraphs, has_content, separator, spec_content, LINE_FEED};
use crate::split::{lemma_split_long_bounded, spec_split_long, split_long};
use crate::views::{append_bytes, copy_bytes, lemma_views_add, lemma_views_push, views};

verus! {

/// The buffer as a finished segment, or nothing if it is empty.
pub open spec fn flushed(buffer: Seq<u8>) -> Seq<Seq<u8>> {
    if buffer.len() > 0 {
        seq![buffer]
    } else {
        Seq::empty()
    }
}

/// The segments that come of the paragraphs `pars` when `buffer` is the
/// segment under way.
///
/// A paragraph longer than `max` ends the segment under way and is cut into
/// pieces. Another paragraph joins the segment under way if both, with the
/// separator between them, stay within `max`; else it ends that segment and
/// starts the next. A paragraph that finds no segment under way starts one.
pub open spec fn pack(pars: Seq<Seq<u8>>, buffer: Seq<u8>, max: int) -> Seq<Seq<u8>>
    decreases pars.len(),
{
    if pars.len() == 0 {
        flushed(buffer)
    } else {
        let p = pars[0];
        let rest = pars.skip(1);
        if p.len() > max {
            flushed(buffer) + spec_split_long(p, max) + pack(rest, Seq::empty(), max)
        } else if buffer.len() == 0 {
            pack(rest, p, max)
        } else if buffer.len() + 2 + p.len() > max {
            seq![buffer] + pack(rest, p, max)
        } else {
            pack(rest, buffer + separator() + p, max)
        }
    }
}

/// The segments of `text` under the ceiling `max`.
pub open spec fn spec_chunk(text: Seq<u8>, max: int) -> Seq<Seq<u8>> {
    pack(spec_content(text), Seq::empty(), max)
}

/// Whether every one of `parts` is at most `max` long.
pub open spec fn all_within(parts: Seq<Seq<u8>>, max: int) -> bool {
    forall|i: int| 0 <= i < parts.len() ==> (#[trigger] parts[i]).len() <= max
}

/// Whether `chunk` holds `p` whole, from index `at` on.
pub open spec fn holds_at(chunk: Seq<u8>, p: Seq<u8>, at: int) -> bool {
    0 <= at && at + p.len() <= chunk.len() && chunk.subrange(at, at + p.len()) == p
}

/// Whether one of `chunks` holds `p` whole.
pub open spec fn holds_whole(chunks: Seq<Seq<u8>>, p: Seq<u8>) -> bool {
    exists|c: int, at: int| 0 <= c < chunks.len() && #[trigger] holds_at(chunks[c], p, at)
}

/// No segment is longer than the ceiling, whatever the paragraphs, as long
/// as the segment under way is not.
pub proof fn lemma_pack_bounded(pars: Seq<Seq<u8>>, buffer: Seq<u8>, max: int)
    requires
        max >= 1,
        buffer.len() <= max,
    ensures
        all_within(pack(pars, buffer, max), max),
    decreases pars.len(),
{
    if pars.len() > 0 {
        let p = pars[0];
        let rest = pars.skip(1);
        if p.len() > max {
            lemma_split_long_bounded(p, max);
            lemma_pack_bounded(rest, Seq::empty(), max);
        } else if buffer.len() == 0 {
            lemma_pack_bounded(rest, p, max);
        } else if buffer.len() + 2 + p.len() > max {
            lemma_pack_bounded(rest, p, max);
        } else {
            lemma_pack_bounded(rest, buffer + separator() + p, max);
        }
    }
}

/// No segment of a text is longer than the ceiling.
pub proof fn lemma_chunks_bounded(text: Seq<u8>, max: int)
    requires
        max >= 1,
    ensures
        all_within(spec_chunk(text, max), max),
{
    lemma_pack_bounded(spec_content(text), Seq::empty(), max);
}

/// A segment under way opens the segments that follow: there is a first
/// segment, and it starts with the buffer.
pub proof fn lemma_pack_keeps_buffer(pars: Seq<Seq<u8>>, buffer: Seq<u8>, max: int)
    requires
        buffer.len() > 0,
    ensures
        pack(pars, buffer, max).len() > 0,
        holds_at(pack(pars, buffer, max)[0], buffer, 0),
    decreases pars.len(),
{
    if pars.len() == 0 {
        assert(buffer.subrange(0, buffer.len() as int) =~= buffer);
    } else {
        let p = pars[0];
        let rest = pars.skip(1);
        if p.len() > max || buffer.len() + 2 + p.len() > max {
            assert(buffer.subrange(0, buffer.len() as int) =~= buffer);
        } else {
            let grown = buffer + separator() + p;
            lemma_pack_keeps_buffer(rest, grown, max);
            let first = pack(rest, grown, max)[0];
            assert(first.subrange(0, buffer.len() as int) =~= first.subrange(
                0,
                grown.len() as int,
            ).subrange(0, buffer.len() as int));
            assert(grown.subrange(0, buffer.len() as int) =~= buffer);
        }
    }
}

/// Where the parts are neither empty nor longer than the ceiling, joining
/// the segments gives what joining the segment under way and the parts
/// gives.
pub proof fn lemma_pack_rejoin(pars: Seq<Seq<u8>>, buffer: Seq<u8>, max: int)
    requires
        forall|i: int| 0 <= i < pars.len() ==> 0 < (#[trigger] pars[i]).len() <= max,
    ensures
        join(pack(pars, buffer, max), separator()) == (if buffer.len() == 0 {
            join(pars, separator())
        } else if pars.len() == 0 {
            buffer
        } else {
            buffer + separator() + join(pars, separator())
        }),
    decreases pars.len(),
{
    let sep = separator();
    if pars.len() > 0 {
        let p = pars[0];
        let rest = pars.skip(1);
        assert(pars =~= seq![p] + rest);
        assert forall|i: int| 0 <= i < rest.len() implies 0 < (#[trigger] rest[i]).len()
            <= max by {
            assert(rest[i] == pars[i + 1]);
        }
        lemma_join_front(p, rest, sep);
        if buffer.len() == 0 {
            lemma_pack_rejoin(rest, p, max);
        } else if buffer.len() + 2 + p.len() > max {
            lemma_pack_rejoin(rest, p, max);
            lemma_pack_keeps_buffer(rest, p, max);
            lemma_join_front(buffer, pack(rest, p, max), sep);
        } else {
            lemma_pack_rejoin(rest, buffer + sep + p, max);
            if rest.len() > 0 {
                assert(buffer + sep + p + sep + join(rest, sep) =~= buffer + sep + (p + sep
                    + join(rest, sep)));
            }
        }
    }
}

/// Where no paragraph with content is longer than the ceiling, the segments
/// joined by the separator are the paragraphs with content joined by the
/// separator.
pub proof fn lemma_chunks_rejoin(text: Seq<u8>, max: int)
    requires
        all_within(spec_content(text), max),
    ensures
        join(spec_chunk(text, max), separator()) == join(spec_content(text), separator()),
{
    let pars = spec_content(text);
    assert forall|i: int| 0 <= i < pars.len() implies 0 < (#[trigger] pars[i]).len() <= max by {
        lemma_content_not_empty(text, i);
    }
    lemma_pack_rejoin(pars, Seq::empty(), max);
}

/// A paragraph with content is not empty.
pub proof fn lemma_content_not_empty(text: Seq<u8>, i: int)
    requires
        0 <= i < spec_content(text).len(),
    ensures
        has_content(spec_content(text)[i]),
        spec_content(text)[i].len() > 0,
{
    let keep = |p: Seq<u8>| has_content(p);
    crate::paragraph::spec_paragraphs(text).lemma_filter_pred(keep, i);
}

/// A segment that is held whole by some of the later segments is held whole
/// by some of all of them.
proof fn lemma_holds_whole_later(before: Seq<Seq<u8>>, later: Seq<Seq<u8>>, p: Seq<u8>)
    requires
        holds_whole(later, p),
    ensures
        holds_whole(before + later, p),
{
    let (c, at) = choose|c: int, at: int|
        0 <= c < later.len() && #[trigger] holds_at(later[c], p, at);
    assert((before + later)[before.len() + c] == later[c]);
    assert(holds_at((before + later)[before.len() + c], p, at));
}

/// A paragraph that is neither empty nor longer than the ceiling is held
/// whole by one segment.
pub proof fn lemma_pack_holds_whole(pars: Seq<Seq<u8>>, buffer: Seq<u8>, max: int, k: int)
    requires
        0 <= k < pars.len(),
        0 < pars[k].len() <= max,
    ensures
        holds_whole(pack(pars, buffer, max), pars[k]),
    decreases pars.len(),
{
    let sep = separator();
    let p = pars[0];
    let rest = pars.skip(1);
    let all = pack(pars, buffer, max);
    if k == 0 {
        if buffer.len() == 0 {
            lemma_pack_keeps_buffer(rest, p, max);
            assert(holds_at(all[0], p, 0));
        } else if buffer.len() + 2 + p.len() > max {
            lemma_pack_keeps_buffer(rest, p, max);
            assert(all[1] == pack(rest, p, max)[0]);
            assert(holds_at(all[1], p, 0));
        } else {
            let grown = buffer + sep + p;
            lemma_pack_keeps_buffer(rest, grown, max);
            let at: int = buffer.len() as int + 2;
            assert(all[0].subrange(at, at + p.len()) =~= all[0].subrange(
                0,
                grown.len() as int,
            ).subrange(at, at + p.len()));
            assert(grown.subrange(at, at + p.len()) =~= p);
            assert(holds_at(all[0], p, at));
        }
    } else {
        assert(rest[k - 1] == pars[k]);
        if p.len() > max {
            lemma_pack_holds_whole(rest, Seq::empty(), max, k - 1);
            lemma_holds_whole_later(
                flushed(buffer) + spec_split_long(p, max),
                pack(rest, Seq::empty(), max),
                pars[k],
            );
        } else if buffer.len() == 0 {
            lemma_pack_holds_whole(rest, p, max, k - 1);
        } else if buffer.len() + 2 + p.len() > max {
            lemma_pack_holds_whole(rest, p, max, k - 1);
            lemma_holds_whole_later(seq![buffer], pack(rest, p, max), pars[k]);
        } else {
            lemma_pack_holds_whole(rest, buffer + sep + p, max, k - 1);
        }
    }
}

/// A paragraph with content that is not longer than the ceiling is never
/// split: one segment holds it whole. A paragraph of exactly the ceiling's
/// length is a segment by itself.
pub proof fn lemma_fitting_paragraph_stays_whole(text: Seq<u8>, max: int, k: int)
    requires
        max >= 1,
        0 <= k < spec_content(text).len(),
        spec_content(text)[k].len() <= max,
    ensures
        holds_whole(spec_chunk(text, max), spec_content(text)[k]),
        spec_content(text)[k].len() == max ==> spec_chunk(text, max).contains(
            spec_content(text)[k],
        ),
{
    let pars = spec_content(text);
    let p = pars[k];
    let chunks = spec_chunk(text, max);
    lemma_content_not_empty(text, k);
    lemma_pack_holds_whole(pars, Seq::empty(), max, k);
    if p.len() == max {
        lemma_chunks_bounded(text, max);
        let (c, at) = choose|c: int, at: int|
            0 <= c < chunks.len() && #[trigger] holds_at(chunks[c], p, at);
        assert(chunks[c].len() <= max);
        assert(chunks[c].subrange(0, chunks[c].len() as int) =~= chunks[c]);
        assert(chunks[c] == p);
    }
}

/// The `n` segments from index `c` on.
pub open spec fn run_at(chunks: Seq<Seq<u8>>, c: int, n: int) -> Seq<Seq<u8>> {
    chunks.subrange(c, c + n)
}

/// Whether `pieces` stand among `chunks` as they are, one after another.
pub open spec fn holds_run(chunks: Seq<Seq<u8>>, pieces: Seq<Seq<u8>>) -> bool {
    exists|c: int|
        0 <= c && c + pieces.len() <= chunks.len() && #[trigger] run_at(
            chunks,
            c,
            pieces.len() as int,
        ) == pieces
}

/// Pieces that stand among the later segments stand among all of them.
proof fn lemma_holds_run_later(before: Seq<Seq<u8>>, later: Seq<Seq<u8>>, pieces: Seq<Seq<u8>>)
    requires
        holds_run(later, pieces),
    ensures
        holds_run(before + later, pieces),
{
    let n = pieces.len() as int;
    let c = choose|c: int| 0 <= c && c + n <= later.len() && #[trigger] run_at(later, c, n) == pieces;
    assert(run_at(before + later, before.len() + c, n) =~= run_at(later, c, n));
}

/// The pieces of a paragraph that is longer than the ceiling are segments
/// as they are, one after another.
pub proof fn lemma_pack_holds_pieces(pars: Seq<Seq<u8>>, buffer: Seq<u8>, max: int, k: int)
    requires
        0 <= k < pars.len(),
        pars[k].len() > max,
    ensures
        holds_run(pack(pars, buffer, max), spec_split_long(pars[k], max)),
    decreases pars.len(),
{
    let p = pars[0];
    let rest = pars.skip(1);
    let all = pack(pars, buffer, max);
    if k == 0 {
        let pieces = spec_split_long(p, max);
        let c = flushed(buffer).len() as int;
        assert(run_at(all, c, pieces.len() as int) =~= pieces);
    } else {
        assert(rest[k - 1] == pars[k]);
        let pieces = spec_split_long(pars[k], max);
        if p.len() > max {
            lemma_pack_holds_pieces(rest, Seq::empty(), max, k - 1);
            lemma_holds_run_later(
                flushed(buffer) + spec_split_long(p, max),
                pack(rest, Seq::empty(), max),
                pieces,
            );
        } else if buffer.len() == 0 {
            lemma_pack_holds_pieces(rest, p, max, k - 1);
        } else if buffer.len() + 2 + p.len() > max {
            lemma_pack_holds_pieces(rest, p, max, k - 1);
            lemma_holds_run_later(seq![buffer], pack(rest, p, max), pieces);
        } else {
            lemma_pack_holds_pieces(rest, buffer + separator() + p, max, k - 1);
        }
    }
}

/// A paragraph with content that is longer than the ceiling becomes its
/// pieces and nothing else: they are segments of the text as they are, one
/// after another.
pub proof fn lemma_long_paragraph_becomes_pieces(text: Seq<u8>, max: int, k: int)
    requires
        0 <= k < spec_content(text).len(),
        spec_content(text)[k].len() > max,
    ensures
        holds_run(spec_chunk(text, max), spec_split_long(spec_content(text)[k], max)),
{
    lemma_pack_holds_pieces(spec_content(text), Seq::empty(), max, k);
}

/// Cuts `text` into segments of at most `max_size` bytes.
pub fn chunk(text: &[u8], max_size: usize) -> (chunks: Vec<Vec<u8>>)
    requires
        max_size >= 1,
    ensures
        views(chunks@) == spec_chunk(text@, max_size as int),
        forall|i: int| 0 <= i < chunks.len() ==> (#[trigger] chunks[i]).len() <= max_size,
{
    let pars: Vec<&[u8]> = content_paragraphs(text);
    let mut chunks: Vec<Vec<u8>> = Vec::new();
    let mut buffer: Vec<u8> = Vec::new();
    let mut k: usize = 0;
    let ghost max = max_size as int;
    proof {
        assert(views(pars@).skip(0) =~= views(pars@));
        assert(views(chunks@) =~= Seq::<Seq<u8>>::empty());
        assert(views(chunks@) + pack(views(pars@), buffer@, max) =~= spec_chunk(text@, max));
    }
    while k < pars.len()
        invariant
            k <= pars.len(),
            max == max_size as int,
            max_size >= 1,
            buffer.len() <= max_size,
            views(pars@) == spec_content(text@),
            views(chunks@) + pack(views(pars@).skip(k as int), buffer@, max) == spec_chunk(
                text@,
                max,
            ),
        decreases pars.len() - k,
    {
        let p: &[u8] = pars[k];
        let ghost left = views(pars@).skip(k as int);
        let ghost rest = views(pars@).skip(k + 1);
        proof {
            assert(left[0] == p@);
            assert(left.skip(1) =~= rest);
        }
        if p.len() > max_size {
            let ghost before = views(chunks@);
            let ghost pending = buffer@;
            if buffer.len() > 0 {
                proof {
                    lemma_views_push(chunks@, buffer);
                }
                chunks.push(buffer);
                buffer = Vec::new();
            }
            assert(views(chunks@) =~= before + flushed(pending));
            let mut pieces: Vec<Vec<u8>> = split_long(p, max_size);
            proof {
                lemma_views_add(chunks@, pieces@);
                assert(before + flushed(pending) + spec_split_long(p@, max) + pack(
                    rest,
                    Seq::empty(),
                    max,
                ) =~= before + (flushed(pending) + spec_split_long(p@, max) + pack(
                    rest,
                    Seq::empty(),
                    max,
                )));
            }
            chunks.append(&mut pieces);
        } else if buffer.len() == 0 {
            buffer = copy_bytes(p);
        } else if max_size - buffer.len() < 2 || p.len() > max_size - buffer.len() - 2 {
            proof {
                lemma_views_push(chunks@, buffer);
                assert(views(chunks@).push(buffer@) + pack(rest, p@, max) =~= views(chunks@) + (
                seq![buffer@] + pack(rest, p@, max)));
            }
            chunks.push(buffer);
            buffer = copy_bytes(p);
        } else {
            let ghost pending = buffer@;
            buffer.push(LINE_FEED);
            buffer.push(LINE_FEED);
            append_bytes(&mut buffer, p);
            assert(buffer@ =~= pending + separator() + p@);
        }
        k = k + 1;
    }
    assert(views(pars@).skip(k as int) =~= Seq::<Seq<u8>>::empty());
    if buffer.len() > 0 {
        proof {
            lemma_views_push(chunks@, buffer);
        }
        chunks.push(buffer);
    } else {
        assert(views(chunks@) + Seq::<Seq<u8>>::empty() =~= views(chunks@));
    }
    proof {
        lemma_chunks_bounded(text@, max);
        assert forall|i: int| 0 <= i < chunks.len() implies (#[trigger] chunks[i]).len()
            <= max_size by {
            assert(views(chunks@)[i] == chunks[i]@);
        }
    }
    chunks
}

} // verus!
