use vstd::prelude::*;

use crate::errors::{ParseError, Span};
use crate::model::{fold_pairs, Block, Pair};
use crate::text::is_space;

verus! {

/// The first position at or after `p` that does not hold whitespace.
pub open spec fn skip_space(s: Seq<char>, p: int) -> int
    decreases s.len() - p,
{
    if 0 <= p < s.len() && is_space(s[p]) {
        skip_space(s, p + 1)
    } else {
        p
    }
}

/// The first position at or after `p` that holds a double quote, or the end of `s`.
pub open spec fn next_quote(s: Seq<char>, p: int) -> int
    decreases s.len() - p,
{
    if 0 <= p < s.len() && s[p] != '"' {
        next_quote(s, p + 1)
    } else {
        p
    }
}

/// The string literal that starts at `p`: its text and the position after its closing quote.
/// `None` where `p` holds no opening quote or the closing quote is missing.
pub open spec fn literal(s: Seq<char>, p: int) -> Option<(Seq<char>, int)> {
    if 0 <= p < s.len() && s[p] == '"' {
        let q = next_quote(s, p + 1);
        if q < s.len() {
            Some((s.subrange(p + 1, q), q + 1))
        } else {
            None
        }
    } else {
        None
    }
}

/// Reads the rest of a block named `name` whose `{` stands at `open`, from position `p` on.
/// `pairs` and `children` hold what was read so far; `nested` tells whether a nested block was
/// read already, after which no expression may follow. On success, gives the block and the
/// position after its `}`.
pub open spec fn block_items(
    s: Seq<char>,
    name: Seq<char>,
    open: int,
    p: int,
    nested: bool,
    pairs: Seq<Pair>,
    children: Seq<Block>,
) -> Result<(Block, int), ParseError>
    decreases s.len() - p,
{
    let q = skip_space(s, p);
    if q >= s.len() {
        Err(ParseError::ExpectedClosingBrace(Span { start: open as usize, end: q as usize }))
    } else if s[q] == '}' {
        Ok((Block { name, pairs: fold_pairs(pairs), children }, q + 1))
    } else {
        match literal(s, q) {
            None => Err(ParseError::Unknown),
            Some((k, a)) => {
                let r = skip_space(s, a);
                if r < s.len() && s[r] == '{' && p <= r {
                    match block_items(s, k, r, r + 1, false, seq![], seq![]) {
                        Err(e) => Err(e),
                        Ok((c, e)) => if p < e <= s.len() {
                            block_items(s, name, open, e, true, pairs, children.push(c))
                        } else {
                            Err(ParseError::Unknown)
                        },
                    }
                } else if !nested && r < s.len() && s[r] == '"' {
                    match literal(s, r) {
                        None => Err(ParseError::Unknown),
                        Some((v, b)) => if p < b <= s.len() {
                            block_items(s, name, open, b, false, pairs.push((k, v)), children)
                        } else {
                            Err(ParseError::Unknown)
                        },
                    }
                } else {
                    Err(ParseError::Unknown)
                }
            },
        }
    }
}

/// Reads top-level blocks from position `p` to the end of `s`, after the blocks in `blocks`.
pub open spec fn document_blocks(s: Seq<char>, p: int, blocks: Seq<Block>) -> Result<
    Seq<Block>,
    ParseError,
>
    decreases s.len() - p,
{
    let q = skip_space(s, p);
    if q >= s.len() {
        Ok(blocks)
    } else {
        match literal(s, q) {
            None => Err(ParseError::Unknown),
            Some((k, a)) => {
                let r = skip_space(s, a);
                if r < s.len() && s[r] == '{' && p <= r {
                    match block_items(s, k, r, r + 1, false, seq![], seq![]) {
                        Err(e) => Err(e),
                        Ok((b, e)) => if p < e <= s.len() {
                            document_blocks(s, e, blocks.push(b))
                        } else {
                            Err(ParseError::Unknown)
                        },
                    }
                } else {
                    Err(ParseError::Unknown)
                }
            },
        }
    }
}

/// What a document text denotes: its top-level blocks in source order, or the grammar
/// violation that rejects it.
pub open spec fn parse_document(s: Seq<char>) -> Result<Seq<Block>, ParseError> {
    document_blocks(s, 0, seq![])
}

} // verus!
