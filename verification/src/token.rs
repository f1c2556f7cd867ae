//! The tokenizer: purely lexical conversion of preprocessed source text
//! into an ordered, span-tagged token sequence.
//!
//! The stream is bounded by synthetic start and end sentinels.  Between
//! them, the source is partitioned into maximal runs: a single newline is
//! a line break, a run of two or more newlines is a paragraph break (a
//! blank line), a run of spaces is whitespace, a `*` or `#` byte is a
//! list marker, and a maximal run of any other bytes is text.  Nothing
//! lexical is interpreted here; the parser gives the tokens meaning.

use vstd::prelude::*;

verus! {

/// A newline byte.
pub const NEWLINE: u8 = 10;

/// A space byte.
pub const SPACE: u8 = 32;

/// The bullet-list marker byte, `*`.
pub const BULLET: u8 = 42;

/// The numbered-list marker byte, `#`.
pub const NUMBER_SIGN: u8 = 35;

/// The lexical kind of a token.
#[derive(Debug, Clone, Copy, PartialEq, Eq, Structural)]
pub enum TokenKind {
    /// Synthetic sentinel before the first byte.
    InputStart,
    /// Synthetic sentinel after the last byte.
    InputEnd,
    /// Exactly one newline.
    LineBreak,
    /// Two or more consecutive newlines: a blank line.
    ParagraphBreak,
    /// A run of spaces.
    Whitespace,
    /// A single `*`.
    BulletItem,
    /// A single `#`.
    NumberedItem,
    /// A maximal run of bytes that are neither newlines, spaces nor
    /// list markers.
    Text,
}

/// A token: a lexical kind tagged with its source span.  The raw slice
/// is `src[start..end]`.
#[derive(Debug, Clone, Copy, PartialEq, Eq, Structural)]
pub struct Token {
    pub kind: TokenKind,
    pub start: usize,
    pub end: usize,
}

/// Whether `b` belongs to the text class: neither newline, space nor
/// marker.
pub open spec fn is_text_byte(b: u8) -> bool {
    b != NEWLINE && b != SPACE && b != BULLET && b != NUMBER_SIGN
}

/// Well-formedness of one non-sentinel token against the source: its
/// span lies in bounds, its bytes match its kind, and runs are maximal
/// (the byte after the span, if any, is of another class).
pub open spec fn token_wf(src: Seq<u8>, t: Token) -> bool {
    &&& t.start <= t.end <= src.len()
    &&& match t.kind {
        TokenKind::InputStart => false,
        TokenKind::InputEnd => false,
        TokenKind::LineBreak => {
            &&& t.end == t.start + 1
            &&& src[t.start as int] == NEWLINE
            &&& (t.end == src.len() || src[t.end as int] != NEWLINE)
        },
        TokenKind::ParagraphBreak => {
            &&& t.end >= t.start + 2
            &&& (forall|i: int| t.start <= i < t.end ==> src[i] == NEWLINE)
            &&& (t.end == src.len() || src[t.end as int] != NEWLINE)
        },
        TokenKind::Whitespace => {
            &&& t.end > t.start
            &&& (forall|i: int| t.start <= i < t.end ==> src[i] == SPACE)
            &&& (t.end == src.len() || src[t.end as int] != SPACE)
        },
        TokenKind::BulletItem => {
            &&& t.end == t.start + 1
            &&& src[t.start as int] == BULLET
        },
        TokenKind::NumberedItem => {
            &&& t.end == t.start + 1
            &&& src[t.start as int] == NUMBER_SIGN
        },
        TokenKind::Text => {
            &&& t.end > t.start
            &&& (forall|i: int| t.start <= i < t.end ==> is_text_byte(src[i]))
            &&& (t.end == src.len() || !is_text_byte(src[t.end as int]))
        },
    }
}

/// Well-formedness of a whole token stream against the source: the
/// sentinels bound it, and the tokens in between are well formed and
/// partition the source in order.  These conditions determine the
/// stream uniquely.
pub open spec fn token_stream_wf(src: Seq<u8>, toks: Seq<Token>) -> bool {
    &&& toks.len() >= 2
    &&& toks[0] == (Token { kind: TokenKind::InputStart, start: 0, end: 0 })
    &&& toks[toks.len() - 1] == (Token {
        kind: TokenKind::InputEnd,
        start: src.len() as usize,
        end: src.len() as usize,
    })
    &&& src.len() <= usize::MAX
    &&& forall|i: int| 0 < i < toks.len() - 1 ==> token_wf(src, #[trigger] toks[i])
    &&& forall|i: int| 0 <= i < toks.len() - 1 ==> #[trigger] toks[i + 1].start == toks[i].end
}

/// Tokenize preprocessed source text into a sentinel-bounded stream.
pub fn tokenize(src: &Vec<u8>) -> (toks: Vec<Token>)
    ensures
        token_stream_wf(src@, toks@),
{
    let mut toks: Vec<Token> = Vec::new();
    toks.push(Token { kind: TokenKind::InputStart, start: 0, end: 0 });
    let mut pos: usize = 0;
    while pos < src.len()
        invariant
            toks@.len() >= 1,
            toks@[0] == (Token { kind: TokenKind::InputStart, start: 0, end: 0 }),
            pos <= src.len(),
            toks@[toks@.len() - 1].end == pos,
            forall|i: int| 0 < i < toks@.len() ==> token_wf(src@, #[trigger] toks@[i]),
            forall|i: int|
                0 <= i < toks@.len() - 1 ==> #[trigger] toks@[i + 1].start == toks@[i].end,
        decreases src.len() - pos,
    {
        let b = src[pos];
        if b == NEWLINE {
            let mut end = pos + 1;
            while end < src.len() && src[end] == NEWLINE
                invariant
                    pos < end <= src.len(),
                    forall|i: int| pos <= i < end ==> src@[i] == NEWLINE,
                decreases src.len() - end,
            {
                end = end + 1;
            }
            let kind = if end - pos == 1 {
                TokenKind::LineBreak
            } else {
                TokenKind::ParagraphBreak
            };
            toks.push(Token { kind, start: pos, end });
            pos = end;
        } else if b == SPACE {
            let mut end = pos + 1;
            while end < src.len() && src[end] == SPACE
                invariant
                    pos < end <= src.len(),
                    forall|i: int| pos <= i < end ==> src@[i] == SPACE,
                decreases src.len() - end,
            {
                end = end + 1;
            }
            toks.push(Token { kind: TokenKind::Whitespace, start: pos, end });
            pos = end;
        } else if b == BULLET {
            toks.push(Token { kind: TokenKind::BulletItem, start: pos, end: pos + 1 });
            pos = pos + 1;
        } else if b == NUMBER_SIGN {
            toks.push(Token { kind: TokenKind::NumberedItem, start: pos, end: pos + 1 });
            pos = pos + 1;
        } else {
            let mut end = pos + 1;
            while end < src.len() && src[end] != NEWLINE && src[end] != SPACE && src[end]
                != BULLET && src[end] != NUMBER_SIGN
                invariant
                    pos < end <= src.len(),
                    forall|i: int| pos <= i < end ==> is_text_byte(src@[i]),
                decreases src.len() - end,
            {
                end = end + 1;
            }
            toks.push(Token { kind: TokenKind::Text, start: pos, end });
            pos = end;
        }
    }
    toks.push(Token { kind: TokenKind::InputEnd, start: pos, end: pos });
    toks
}

/// Copy the raw slice `src[start..end]` out of the source buffer.
pub fn extract_slice(src: &Vec<u8>, start: usize, end: usize) -> (r: Vec<u8>)
    requires
        start <= end <= src@.len(),
    ensures
        r@ == src@.subrange(start as int, end as int),
{
    let mut r: Vec<u8> = Vec::new();
    let mut i: usize = start;
    while i < end
        invariant
            start <= i <= end <= src@.len(),
            r@ =~= src@.subrange(start as int, i as int),
        decreases end - i,
    {
        r.push(src[i]);
        i = i + 1;
    }
    assert(r@ =~= src@.subrange(start as int, end as int));
    r
}


/// Two well-formed tokens starting at the same position are the same
/// token: the byte there settles the kind, and maximality settles the
/// span.
proof fn lemma_same_start_same_token(src: Seq<u8>, t1: Token, t2: Token)
    requires
        token_wf(src, t1),
        token_wf(src, t2),
        t1.start == t2.start,
    ensures
        t1 == t2,
{
    let p = t1.start as int;
    if t1.kind == TokenKind::ParagraphBreak {
        assert(src[p] == NEWLINE);
    }
    if t2.kind == TokenKind::ParagraphBreak {
        assert(src[p] == NEWLINE);
    }
    if t1.kind == TokenKind::Whitespace {
        assert(src[p] == SPACE);
    }
    if t2.kind == TokenKind::Whitespace {
        assert(src[p] == SPACE);
    }
    if t1.kind == TokenKind::Text {
        assert(is_text_byte(src[p]));
    }
    if t2.kind == TokenKind::Text {
        assert(is_text_byte(src[p]));
    }
    if t1.kind == TokenKind::ParagraphBreak && t2.kind == TokenKind::ParagraphBreak {
        if t1.end < t2.end {
            assert(src[t1.end as int] == NEWLINE);
        }
        if t2.end < t1.end {
            assert(src[t2.end as int] == NEWLINE);
        }
    } else if t1.kind == TokenKind::Whitespace && t2.kind == TokenKind::Whitespace {
        if t1.end < t2.end {
            assert(src[t1.end as int] == SPACE);
        }
        if t2.end < t1.end {
            assert(src[t2.end as int] == SPACE);
        }
    } else if t1.kind == TokenKind::Text && t2.kind == TokenKind::Text {
        if t1.end < t2.end {
            assert(is_text_byte(src[t1.end as int]));
        }
        if t2.end < t1.end {
            assert(is_text_byte(src[t2.end as int]));
        }
    } else if t1.kind == TokenKind::LineBreak && t2.kind == TokenKind::ParagraphBreak {
        assert(src[p + 1] == NEWLINE);
        assert(false);
    } else if t1.kind == TokenKind::ParagraphBreak && t2.kind == TokenKind::LineBreak {
        assert(src[p + 1] == NEWLINE);
        assert(false);
    }
}

/// A well-formed stream is the only well-formed stream of its source:
/// the sentinel bounds, the partition and the per-token conditions
/// leave no freedom, so tokenizing is deterministic and restartable.
pub proof fn lemma_token_stream_unique(src: Seq<u8>, a: Seq<Token>, b: Seq<Token>)
    requires
        token_stream_wf(src, a),
        token_stream_wf(src, b),
    ensures
        a == b,
{
    assert forall|k: int| 0 <= k < a.len() && k < b.len() implies a[k] == b[k] by {
        lemma_stream_prefix(src, a, b, k);
    }
    if a.len() < b.len() {
        lemma_stream_prefix(src, a, b, a.len() - 1);
        assert(b[a.len() - 1].kind == TokenKind::InputEnd);
        assert(token_wf(src, b[a.len() - 1]));
        assert(false);
    }
    if b.len() < a.len() {
        lemma_stream_prefix(src, a, b, b.len() - 1);
        assert(a[b.len() - 1].kind == TokenKind::InputEnd);
        assert(token_wf(src, a[b.len() - 1]));
        assert(false);
    }
    assert(a =~= b);
}

/// Tokens at the same index of two well-formed streams of one source
/// are equal.
proof fn lemma_stream_prefix(src: Seq<u8>, a: Seq<Token>, b: Seq<Token>, k: int)
    requires
        token_stream_wf(src, a),
        token_stream_wf(src, b),
        0 <= k < a.len(),
        k < b.len(),
    ensures
        a[k] == b[k],
    decreases k,
{
    if k == 0 {
    } else {
        lemma_stream_prefix(src, a, b, k - 1);
        assert(a[(k - 1) + 1].start == a[k - 1].end);
        assert(b[(k - 1) + 1].start == b[k - 1].end);
        assert(a[k].start == b[k].start);
        if k == a.len() - 1 {
            if k < b.len() - 1 {
                assert(token_wf(src, b[k]));
                assert(b[k].start < src.len());
                assert(false);
            }
        } else if k == b.len() - 1 {
            assert(token_wf(src, a[k]));
            assert(a[k].start < src.len());
            assert(false);
        } else {
            lemma_same_start_same_token(src, a[k], b[k]);
        }
    }
}

} // verus!
