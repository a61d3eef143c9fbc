//! Joining parts with a separator between neighbours.

use vstd::prelude::*;

verus! {

/// The parts in order, with `sep` between each two neighbours.
pub open spec fn join<T>(parts: Seq<Seq<T>>, sep: Seq<T>) -> Seq<T>
    decreases parts.len(),
{
    if parts.len() == 0 {
        Seq::empty()
    } else if parts.len() == 1 {
        parts[0]
    } else {
        join(parts.drop_last(), sep) + sep + parts.last()
    }
}

/// Joining after one more part: the part alone if it is the first, else the
/// separator and the part behind what was joined before.
pub proof fn lemma_join_push<T>(parts: Seq<Seq<T>>, part: Seq<T>, sep: Seq<T>)
    ensures
        join(parts.push(part), sep) == (if parts.len() == 0 {
            part
        } else {
            join(parts, sep) + sep + part
        }),
{
    assert(parts.push(part).drop_last() =~= parts);
}

/// Joining with one more part in front: the part alone if nothing follows,
/// else the part and the separator before what follows.
pub proof fn lemma_join_front<T>(part: Seq<T>, rest: Seq<Seq<T>>, sep: Seq<T>)
    ensures
        join(seq![part] + rest, sep) == (if rest.len() == 0 {
            part
        } else {
            part + sep + join(rest, sep)
        }),
    decreases rest.len(),
{
    let all = seq![part] + rest;
    if rest.len() == 0 {
        assert(all =~= seq![part]);
    } else if rest.len() == 1 {
        assert(all.drop_last() =~= seq![part]);
        assert(all.last() == rest[0]);
        assert(join(seq![part], sep) == part);
        assert(join(rest, sep) == rest[0]);
    } else {
        assert(all.drop_last() =~= seq![part] + rest.drop_last());
        assert(all.last() == rest.last());
        lemma_join_front(part, rest.drop_last(), sep);
        assert(join(rest, sep) == join(rest.drop_last(), sep) + sep + rest.last());
        assert(join(all, sep) =~= part + sep + join(rest, sep));
    }
}

} // verus!
