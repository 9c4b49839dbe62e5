use vstd::prelude::*;

use crate::errors::{ParseError, Span};
use crate::grammar::{block_items, document_blocks, literal, next_quote, parse_document, skip_space};
use crate::model::{fold_pairs, Block, Pair};
use crate::text::is_space;

verus! {

/// `t` holds no double quote, so it can stand inside a literal.
pub open spec fn plain(t: Seq<char>) -> bool {
    forall|i: int| 0 <= i < t.len() ==> t[i] != '"'
}

/// Every key and value of `ps` can stand inside a literal.
pub open spec fn plain_pairs(ps: Seq<Pair>) -> bool {
    forall|i: int| 0 <= i < ps.len() ==> plain(#[trigger] ps[i].0) && plain(ps[i].1)
}

/// `t` written as a literal, after a separating space.
pub open spec fn token(t: Seq<char>) -> Seq<char> {
    seq![' ', '"'] + t + seq!['"']
}

/// The expressions `ps`, in order.
pub open spec fn pairs_text(ps: Seq<Pair>) -> Seq<char>
    decreases ps.len(),
{
    if ps.len() == 0 {
        seq![]
    } else {
        token(ps[0].0) + token(ps[0].1) + pairs_text(ps.drop_first())
    }
}

/// A block as written: its name, its expressions in order, and its nested blocks in order.
pub struct Tree {
    pub name: Seq<char>,
    pub pairs: Seq<Pair>,
    pub children: Seq<Tree>,
}

/// Every name, key and value in `t` can stand inside a literal.
pub open spec fn plain_tree(t: Tree) -> bool
    decreases t,
{
    &&& plain(t.name)
    &&& plain_pairs(t.pairs)
    &&& forall|i: int| 0 <= i < t.children.len() ==> plain_tree(#[trigger] t.children[i])
}

/// The text of the block `t`.
pub open spec fn tree_text(t: Tree) -> Seq<char>
    decreases t,
{
    token(t.name) + seq![' ', '{'] + pairs_text(t.pairs) + forest_text(t.children) + seq![' ', '}']
}

/// The texts of the blocks `ts`, one after the other.
pub open spec fn forest_text(ts: Seq<Tree>) -> Seq<char>
    decreases ts,
{
    if ts.len() == 0 {
        seq![]
    } else {
        tree_text(ts[0]) + forest_text(ts.drop_first())
    }
}

/// What the block `t` denotes.
pub open spec fn tree_block(t: Tree) -> Block
    decreases t,
{
    Block { name: t.name, pairs: fold_pairs(t.pairs), children: forest_blocks(t.children) }
}

/// What the blocks `ts` denote.
pub open spec fn forest_blocks(ts: Seq<Tree>) -> Seq<Block>
    decreases ts,
{
    if ts.len() == 0 {
        seq![]
    } else {
        seq![tree_block(ts[0])] + forest_blocks(ts.drop_first())
    }
}

/// `x` stands in `s` at position `p`.
pub open spec fn stands_at(s: Seq<char>, p: int, x: Seq<char>) -> bool {
    0 <= p && p + x.len() <= s.len() && s.subrange(p, p + x.len()) == x
}

proof fn lemma_stands_at_index(s: Seq<char>, p: int, x: Seq<char>, i: int)
    requires
        stands_at(s, p, x),
        0 <= i < x.len(),
    ensures
        s[p + i] == x[i],
{
    assert(s.subrange(p, p + x.len())[i] == s[p + i]);
}

proof fn lemma_stands_at_split(s: Seq<char>, p: int, x: Seq<char>, y: Seq<char>)
    requires
        stands_at(s, p, x + y),
    ensures
        stands_at(s, p, x),
        stands_at(s, p + x.len(), y),
{
    let w = s.subrange(p, p + x.len() + y.len());
    assert(w == x + y);
    assert(s.subrange(p, p + x.len()) =~= x) by {
        assert forall|i: int| 0 <= i < x.len() implies s.subrange(p, p + x.len())[i] == x[i] by {
            assert(w[i] == s[p + i]);
        }
    }
    assert(s.subrange(p + x.len(), p + x.len() + y.len()) =~= y) by {
        assert forall|i: int| 0 <= i < y.len() implies s.subrange(
            p + x.len(),
            p + x.len() + y.len(),
        )[i] == y[i] by {
            assert(w[x.len() + i] == s[p + x.len() + i]);
        }
    }
}

proof fn lemma_next_quote(s: Seq<char>, j: int, q: int)
    requires
        0 <= j <= q < s.len(),
        s[q] == '"',
        forall|i: int| j <= i < q ==> s[i] != '"',
    ensures
        next_quote(s, j) == q,
    decreases q - j,
{
    if j < q {
        lemma_next_quote(s, j + 1, q);
    }
}

/// After a space, a literal holding `t` is read as `t`.
proof fn lemma_token(s: Seq<char>, p: int, t: Seq<char>)
    requires
        stands_at(s, p, token(t)),
        plain(t),
    ensures
        skip_space(s, p) == p + 1,
        literal(s, p + 1) == Some((t, p + token(t).len())),
{
    let x = token(t);
    lemma_stands_at_index(s, p, x, 0);
    lemma_stands_at_index(s, p, x, 1);
    lemma_stands_at_index(s, p, x, x.len() - 1);
    assert(!is_space(s[p + 1]));
    assert(skip_space(s, p + 1) == p + 1);
    assert forall|i: int| p + 2 <= i < p + x.len() - 1 implies s[i] != '"' by {
        lemma_stands_at_index(s, p, x, i - p);
        assert(x[i - p] == t[i - p - 2]);
    }
    lemma_next_quote(s, p + 2, p + x.len() - 1);
    assert forall|i: int| 0 <= i < t.len() implies s.subrange(p + 2, p + x.len() - 1)[i] == t[i] by {
        lemma_stands_at_index(s, p, x, i + 2);
    }
    assert(s.subrange(p + 2, p + x.len() - 1) =~= t);
}

/// After a space, the character `c` is where reading resumes.
proof fn lemma_space_then(s: Seq<char>, p: int, c: char)
    requires
        stands_at(s, p, seq![' ', c]),
        !is_space(c),
    ensures
        skip_space(s, p) == p + 1,
        s[p + 1] == c,
{
    lemma_stands_at_index(s, p, seq![' ', c], 0);
    lemma_stands_at_index(s, p, seq![' ', c], 1);
    assert(skip_space(s, p + 1) == p + 1);
}

proof fn lemma_pairs(
    s: Seq<char>,
    name: Seq<char>,
    open: int,
    p: int,
    acc: Seq<Pair>,
    children: Seq<Block>,
    ps: Seq<Pair>,
)
    requires
        stands_at(s, p, pairs_text(ps)),
        plain_pairs(ps),
    ensures
        block_items(s, name, open, p, false, acc, children) == block_items(
            s,
            name,
            open,
            p + pairs_text(ps).len(),
            false,
            acc + ps,
            children,
        ),
    decreases ps.len(),
{
    if ps.len() == 0 {
        assert(acc + ps =~= acc);
    } else {
        let k = ps[0].0;
        let v = ps[0].1;
        let rest = ps.drop_first();
        assert(plain(k) && plain(v));
        lemma_stands_at_split(s, p, token(k) + token(v), pairs_text(rest));
        lemma_stands_at_split(s, p, token(k), token(v));
        lemma_token(s, p, k);
        let a = p + token(k).len();
        lemma_token(s, a, v);
        lemma_stands_at_index(s, a, token(v), 1);
        let b = a + token(v).len();
        assert(plain_pairs(rest)) by {
            assert forall|i: int| 0 <= i < rest.len() implies plain(#[trigger] rest[i].0) && plain(
                rest[i].1,
            ) by {
                assert(rest[i] == ps[i + 1]);
            }
        }
        lemma_pairs(s, name, open, b, acc.push((k, v)), children, rest);
        assert(acc.push((k, v)) + rest =~= acc + ps);
    }
}

proof fn lemma_close(
    s: Seq<char>,
    name: Seq<char>,
    open: int,
    p: int,
    nested: bool,
    acc: Seq<Pair>,
    children: Seq<Block>,
)
    requires
        stands_at(s, p, seq![' ', '}']),
    ensures
        block_items(s, name, open, p, nested, acc, children) == Ok::<(Block, int), ParseError>(
            (Block { name, pairs: fold_pairs(acc), children }, p + 2),
        ),
{
    lemma_space_then(s, p, '}');
}

/// Reads the nested blocks `ts` inside a block, from position `p`.
proof fn lemma_forest(
    s: Seq<char>,
    name: Seq<char>,
    open: int,
    p: int,
    nested: bool,
    acc: Seq<Pair>,
    children: Seq<Block>,
    ts: Seq<Tree>,
)
    requires
        stands_at(s, p, forest_text(ts)),
        forall|i: int| 0 <= i < ts.len() ==> plain_tree(#[trigger] ts[i]),
    ensures
        block_items(s, name, open, p, nested, acc, children) == block_items(
            s,
            name,
            open,
            p + forest_text(ts).len(),
            nested || ts.len() > 0,
            acc,
            children + forest_blocks(ts),
        ),
    decreases ts,
{
    if ts.len() == 0 {
        assert(children + forest_blocks(ts) =~= children);
        assert(forest_text(ts) =~= seq![]);
    } else {
        let t = ts[0];
        let rest = ts.drop_first();
        assert(plain_tree(t));
        lemma_stands_at_split(s, p, tree_text(t), forest_text(rest));
        let r = lemma_block_head(s, p, t);
        assert(decreases_to!(ts => t));
        assert(decreases_to!(t => t.children));
        let e = lemma_block_body(s, r, t);
        assert(decreases_to!(ts => rest));
        assert forall|i: int| 0 <= i < rest.len() implies plain_tree(#[trigger] rest[i]) by {
            assert(rest[i] == ts[i + 1]);
        }
        lemma_forest(s, name, open, e, true, acc, children.push(tree_block(t)), rest);
        assert(children.push(tree_block(t)) + forest_blocks(rest) =~= children + forest_blocks(
            ts,
        ));
    }
}

/// The name of the block `t` that stands at `p` is read, and its `{` found: gives the
/// position of that `{`.
proof fn lemma_block_head(s: Seq<char>, p: int, t: Tree) -> (r: int)
    requires
        stands_at(s, p, tree_text(t)),
        plain_tree(t),
    ensures
        skip_space(s, p) == p + 1,
        literal(s, p + 1) == Some((t.name, r - 1)),
        skip_space(s, r - 1) == r,
        s[r] == '{',
        r == p + token(t.name).len() + 1,
        stands_at(s, r + 1, pairs_text(t.pairs) + forest_text(t.children) + seq![' ', '}']),
{
    let head = token(t.name) + seq![' ', '{'];
    let body = pairs_text(t.pairs) + forest_text(t.children) + seq![' ', '}'];
    assert(tree_text(t) =~= head + body);
    lemma_stands_at_split(s, p, head, body);
    lemma_stands_at_split(s, p, token(t.name), seq![' ', '{']);
    lemma_token(s, p, t.name);
    let a = p + token(t.name).len();
    lemma_space_then(s, a, '{');
    a + 1
}

/// The body of the block `t`, after its `{` at `r`, is read as what `t` denotes: gives the
/// position after its `}`.
proof fn lemma_block_body(s: Seq<char>, r: int, t: Tree) -> (e: int)
    requires
        stands_at(s, r + 1, pairs_text(t.pairs) + forest_text(t.children) + seq![' ', '}']),
        plain_tree(t),
    ensures
        block_items(s, t.name, r, r + 1, false, seq![], seq![]) == Ok::<(Block, int), ParseError>(
            (tree_block(t), e),
        ),
        e == r + 1 + pairs_text(t.pairs).len() + forest_text(t.children).len() + 2,
    decreases t,
{
    let x = pairs_text(t.pairs);
    let y = forest_text(t.children);
    lemma_stands_at_split(s, r + 1, x + y, seq![' ', '}']);
    lemma_stands_at_split(s, r + 1, x, y);
    lemma_pairs(s, t.name, r, r + 1, seq![], seq![], t.pairs);
    assert(seq![] + t.pairs =~= t.pairs);
    let c = r + 1 + x.len();
    assert(forall|i: int| 0 <= i < t.children.len() ==> plain_tree(#[trigger] t.children[i]));
    lemma_forest(s, t.name, r, c, false, t.pairs, seq![], t.children);
    assert(seq![] + forest_blocks(t.children) =~= forest_blocks(t.children));
    let d = c + y.len();
    lemma_close(s, t.name, r, d, t.children.len() > 0, t.pairs, forest_blocks(t.children));
    d + 2
}

proof fn lemma_document(s: Seq<char>, p: int, blocks: Seq<Block>, ts: Seq<Tree>)
    requires
        stands_at(s, p, forest_text(ts)),
        p + forest_text(ts).len() == s.len(),
        forall|i: int| 0 <= i < ts.len() ==> plain_tree(#[trigger] ts[i]),
    ensures
        document_blocks(s, p, blocks) == Ok::<Seq<Block>, ParseError>(blocks + forest_blocks(ts)),
    decreases ts.len(),
{
    if ts.len() == 0 {
        assert(blocks + forest_blocks(ts) =~= blocks);
        assert(skip_space(s, p) == p);
    } else {
        let t = ts[0];
        let rest = ts.drop_first();
        assert(plain_tree(t));
        lemma_stands_at_split(s, p, tree_text(t), forest_text(rest));
        let r = lemma_block_head(s, p, t);
        let e = lemma_block_body(s, r, t);
        assert forall|i: int| 0 <= i < rest.len() implies plain_tree(#[trigger] rest[i]) by {
            assert(rest[i] == ts[i + 1]);
        }
        lemma_document(s, e, blocks.push(tree_block(t)), rest);
        assert(blocks.push(tree_block(t)) + forest_blocks(rest) =~= blocks + forest_blocks(ts));
    }
}

/// A document written as the blocks `ts` is read as exactly what they denote: the top-level
/// blocks and, at every depth, the nested blocks come in the order in which they stand, each
/// keeps its name, and each block's mapping binds every key among its expressions to the
/// value of its last occurrence.
pub proof fn law_document_parses(ts: Seq<Tree>)
    requires
        forall|i: int| 0 <= i < ts.len() ==> plain_tree(#[trigger] ts[i]),
    ensures
        parse_document(forest_text(ts)) == Ok::<Seq<Block>, ParseError>(forest_blocks(ts)),
{
    let s = forest_text(ts);
    assert(s.subrange(0, s.len() as int) =~= s);
    lemma_document(s, 0, seq![], ts);
    assert(seq![] + forest_blocks(ts) =~= forest_blocks(ts));
}

/// A block that holds expressions and nested blocks but whose closing brace is missing is
/// rejected: the whole document fails with the error for the owed brace, located from the
/// block's `{` to the end of the text, and no document is given.
pub proof fn law_unclosed_block_fails(name: Seq<char>, ps: Seq<Pair>, kids: Seq<Tree>)
    requires
        plain(name),
        plain_pairs(ps),
        forall|i: int| 0 <= i < kids.len() ==> plain_tree(#[trigger] kids[i]),
    ensures
        ({
            let s = token(name) + seq![' ', '{'] + pairs_text(ps) + forest_text(kids);
            parse_document(s) == Err::<Seq<Block>, ParseError>(
                ParseError::ExpectedClosingBrace(
                    Span { start: (token(name).len() + 1) as usize, end: s.len() as usize },
                ),
            )
        }),
{
    let s = token(name) + seq![' ', '{'] + pairs_text(ps) + forest_text(kids);
    let head = token(name) + seq![' ', '{'];
    assert(s.subrange(0, s.len() as int) =~= s);
    lemma_stands_at_split(s, 0, head + pairs_text(ps), forest_text(kids));
    lemma_stands_at_split(s, 0, head, pairs_text(ps));
    lemma_stands_at_split(s, 0, token(name), seq![' ', '{']);
    lemma_token(s, 0, name);
    let a = token(name).len() as int;
    lemma_space_then(s, a, '{');
    let r = a + 1;
    lemma_pairs(s, name, r, r + 1, seq![], seq![], ps);
    assert(seq![] + ps =~= ps);
    let c = r + 1 + pairs_text(ps).len();
    lemma_forest(s, name, r, c, false, ps, seq![], kids);
    assert(c + forest_text(kids).len() == s.len());
    assert(skip_space(s, s.len() as int) == s.len());
}

/// Reading the same text twice gives equal outcomes: the result depends on the text alone.
pub proof fn law_parse_deterministic(a: Seq<char>, b: Seq<char>)
    requires
        a == b,
    ensures
        parse_document(a) == parse_document(b),
{
}

} // verus!
