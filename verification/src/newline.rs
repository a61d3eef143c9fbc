//! Line ends: a carriage return before a line feed is dropped.

use vstd::prelude::*;
use crate::paragraph::LINE_FEED;

verus! {

/// The carriage return.
pub const CARRIAGE_RETURN: u8 = 0x0D;

/// Whether a carriage return followed by a line feed starts at index `i`.
pub open spec fn is_crlf(s: Seq<u8>, i: int) -> bool {
    0 <= i && i + 1 < s.len() && s[i] == CARRIAGE_RETURN && s[i + 1] == LINE_FEED
}

/// `s` with a line feed in place of each carriage return that is followed
/// by a line feed, taken from the start of the text on.
pub open spec fn spec_normalize(s: Seq<u8>) -> Seq<u8>
    decreases s.len(),
{
    if s.len() == 0 {
        Seq::empty()
    } else if is_crlf(s, 0) {
        seq![LINE_FEED] + spec_normalize(s.skip(2))
    } else {
        seq![s[0]] + spec_normalize(s.skip(1))
    }
}

/// The normal form is no longer than the text, and it is empty only if the
/// text is.
pub proof fn lemma_normalize_len(s: Seq<u8>)
    ensures
        spec_normalize(s).len() <= s.len(),
        spec_normalize(s).len() == 0 <==> s.len() == 0,
    decreases s.len(),
{
    if s.len() > 0 {
        if is_crlf(s, 0) {
            lemma_normalize_len(s.skip(2));
        } else {
            lemma_normalize_len(s.skip(1));
        }
    }
}

/// A text without a carriage return before a line feed is its own normal
/// form.
pub proof fn lemma_normalize_unchanged(s: Seq<u8>)
    requires
        forall|i: int| !is_crlf(s, i),
    ensures
        spec_normalize(s) == s,
    decreases s.len(),
{
    if s.len() > 0 {
        assert(!is_crlf(s, 0));
        let rest = s.skip(1);
        assert forall|i: int| !is_crlf(rest, i) by {
            assert(!is_crlf(s, i + 1));
        }
        lemma_normalize_unchanged(rest);
        assert(seq![s[0]] + rest =~= s);
    }
}

/// `raw` with a line feed in place of each carriage return that is
/// followed by a line feed.
pub fn normalize_newlines(raw: &[u8]) -> (text: Vec<u8>)
    ensures
        text@ == spec_normalize(raw@),
{
    let mut text: Vec<u8> = Vec::new();
    let mut i: usize = 0;
    assert(raw@.skip(0) =~= raw@);
    assert(text@ + spec_normalize(raw@) =~= spec_normalize(raw@));
    while i < raw.len()
        invariant
            i <= raw.len(),
            text@ + spec_normalize(raw@.skip(i as int)) == spec_normalize(raw@),
        decreases raw.len() - i,
    {
        let ghost left = raw@.skip(i as int);
        let ghost before = text@;
        if raw[i] == CARRIAGE_RETURN && raw.len() - i >= 2 && raw[i + 1] == LINE_FEED {
            assert(is_crlf(left, 0));
            assert(left.skip(2) =~= raw@.skip(i + 2));
            text.push(LINE_FEED);
            i = i + 2;
            assert(text@ + spec_normalize(raw@.skip(i as int)) =~= before + spec_normalize(left));
        } else {
            assert(!is_crlf(left, 0));
            assert(left.skip(1) =~= raw@.skip(i + 1));
            text.push(raw[i]);
            i = i + 1;
            assert(text@ + spec_normalize(raw@.skip(i as int)) =~= before + spec_normalize(left));
        }
    }
    assert(text@ + Seq::<u8>::empty() =~= text@);
    text
}

} // verus!
