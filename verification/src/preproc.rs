//! Preprocessing: byte-level normalization run before tokenizing.
//!
//! Carriage returns are normalized to line feeds (a CR LF pair becomes
//! one LF, a lone CR becomes LF) and horizontal tabs become four
//! spaces.  Nothing else is touched.

use vstd::prelude::*;

use crate::token::{NEWLINE, SPACE};

verus! {

/// The carriage-return byte.
pub const CARRIAGE: u8 = 13;

/// The horizontal-tab byte.
pub const TAB: u8 = 9;

/// The normalized image of raw source text: CR LF and lone CR become
/// LF, tab becomes four spaces, all other bytes stay.
pub open spec fn preproc_spec(s: Seq<u8>) -> Seq<u8>
    decreases s.len(),
{
    if s.len() == 0 {
        Seq::empty()
    } else if s[0] == CARRIAGE && s.len() >= 2 && s[1] == NEWLINE {
        seq![NEWLINE] + preproc_spec(s.subrange(2, s.len() as int))
    } else if s[0] == CARRIAGE {
        seq![NEWLINE] + preproc_spec(s.subrange(1, s.len() as int))
    } else if s[0] == TAB {
        seq![SPACE, SPACE, SPACE, SPACE] + preproc_spec(s.subrange(1, s.len() as int))
    } else {
        seq![s[0]] + preproc_spec(s.subrange(1, s.len() as int))
    }
}

/// Normalize raw source text before tokenizing.
pub fn preprocess(text: &Vec<u8>) -> (r: Vec<u8>)
    ensures
        r@ == preproc_spec(text@),
{
    let mut r: Vec<u8> = Vec::new();
    let mut i: usize = 0;
    proof {
        assert(text@.subrange(0, text@.len() as int) =~= text@);
        assert(Seq::<u8>::empty() + preproc_spec(text@) =~= preproc_spec(text@));
    }
    while i < text.len()
        invariant
            0 <= i <= text@.len(),
            preproc_spec(text@) == r@ + preproc_spec(text@.subrange(i as int, text@.len() as int)),
        decreases text@.len() - i,
    {
        let ghost rest = text@.subrange(i as int, text@.len() as int);
        let b = text[i];
        if b == CARRIAGE && i + 1 < text.len() && text[i + 1] == NEWLINE {
            r.push(NEWLINE);
            assert(rest.subrange(2, rest.len() as int) =~= text@.subrange(
                i + 2,
                text@.len() as int,
            ));
            i = i + 2;
        } else if b == CARRIAGE {
            r.push(NEWLINE);
            assert(rest.subrange(1, rest.len() as int) =~= text@.subrange(
                i + 1,
                text@.len() as int,
            ));
            i = i + 1;
        } else if b == TAB {
            r.push(SPACE);
            r.push(SPACE);
            r.push(SPACE);
            r.push(SPACE);
            assert(rest.subrange(1, rest.len() as int) =~= text@.subrange(
                i + 1,
                text@.len() as int,
            ));
            i = i + 1;
        } else {
            r.push(b);
            assert(rest.subrange(1, rest.len() as int) =~= text@.subrange(
                i + 1,
                text@.len() as int,
            ));
            i = i + 1;
        }
    }
    assert(text@.subrange(text@.len() as int, text@.len() as int) =~= Seq::<u8>::empty());
    r
}

} // verus!
