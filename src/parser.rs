use vstd::prelude::*;

use crate::errors::{AcfError, ParseError, Span};
use crate::grammar::{
    block_items, document_blocks, literal, next_quote, parse_document, skip_space,
};
use crate::model::{
    distinct_keys, fold_pairs, keys_of, last_of_key, lemma_fold_push, lemma_fold_update,
    lemma_last_write_wins, Block, Pair,
};
use crate::text::{chars_of, is_space_char, push_char};

verus! {

/// Representation of an ACF's file content: its top-level entries in file order.
#[derive(Debug, PartialEq, Eq)]
pub struct Acf {
    /// A list of entries. Valve ACF files should have at least `AppState`
    pub entries: Vec<Entry>,
}

/// Representation of an individual ACF entry
#[derive(Debug, PartialEq, Eq)]
pub struct Entry {
    /// Name of the entry
    pub name: String,
    /// The expressions of the entry, one pair per distinct key, in order of first occurrence
    pub expressions: Vec<(String, String)>,
    /// A list of sub-entries, in source order
    pub entries: Vec<Entry>,
}

/// The pairs of `v` as text.
pub open spec fn pair_texts(v: Seq<(String, String)>) -> Seq<Pair> {
    Seq::new(v.len(), |i: int| (v[i].0@, v[i].1@))
}

/// What each entry of `es` denotes.
pub open spec fn models(es: Seq<Entry>) -> Seq<Block> {
    Seq::new(es.len(), |i: int| es[i].model())
}

impl Entry {
    /// What the entry denotes.
    pub open spec fn model(self) -> Block
        decreases self,
    {
        Block {
            name: self.name@,
            pairs: fold_pairs(pair_texts(self.expressions@)),
            children: Seq::new(
                self.entries@.len(),
                |i: int|
                    if 0 <= i < self.entries@.len() {
                        self.entries@[i].model()
                    } else {
                        arbitrary()
                    },
            ),
        }
    }

    /// No key occurs twice among the expressions, here or in any nested entry.
    pub open spec fn wf(self) -> bool
        decreases self,
    {
        &&& distinct_keys(pair_texts(self.expressions@))
        &&& forall|i: int| 0 <= i < self.entries@.len() ==> (#[trigger] self.entries@[i]).wf()
    }

    /// The value bound to `key` among the entry's expressions.
    pub fn get(&self, key: &str) -> (r: Option<&String>)
        ensures
            match r {
                Some(v) => self.model().pairs.contains_key(key@) && self.model().pairs[key@] == v@,
                None => !self.model().pairs.contains_key(key@),
            },
    {
        let ghost ps = pair_texts(self.expressions@);
        let wanted = String::from_str(key);
        let mut i: usize = self.expressions.len();
        while i > 0
            invariant
                i <= self.expressions.len(),
                wanted@ == key@,
                ps == pair_texts(self.expressions@),
                forall|j: int| i <= j < ps.len() ==> ps[j].0 != key@,
            decreases i,
        {
            i = i - 1;
            if self.expressions[i].0 == wanted {
                proof {
                    lemma_last_write_wins(ps);
                    assert(last_of_key(ps, i as int));
                    assert(ps[i as int].0 == key@);
                    assert(keys_of(ps).contains(key@));
                    assert(ps[i as int].1 == self.expressions@[i as int].1@);
                    assert(self.model().pairs == fold_pairs(ps));
                }
                let found = &self.expressions[i].1;
                return Some(found);
            }
        }
        proof {
            lemma_last_write_wins(ps);
            assert(self.model().pairs == fold_pairs(ps));
        }
        None
    }
}

impl Acf {
    /// What the document denotes: its top-level blocks in order.
    pub open spec fn model(self) -> Seq<Block> {
        models(self.entries@)
    }

    /// Every entry is well formed.
    pub open spec fn wf(self) -> bool {
        forall|i: int| 0 <= i < self.entries@.len() ==> (#[trigger] self.entries@[i]).wf()
    }
}

impl Default for Acf {
    fn default() -> (r: Acf)
        ensures
            r.entries@.len() == 0,
    {
        Acf { entries: Vec::new() }
    }
}

impl Default for Entry {
    fn default() -> (r: Entry)
        ensures
            r.name@.len() == 0,
            r.expressions@.len() == 0,
            r.entries@.len() == 0,
    {
        Entry { name: String::new(), expressions: Vec::new(), entries: Vec::new() }
    }
}

/// The first position at or after `p` that does not hold whitespace.
fn skip_spaces(s: &Vec<char>, p: usize) -> (q: usize)
    requires
        p <= s.len(),
    ensures
        q == skip_space(s@, p as int),
        p <= q <= s.len(),
{
    let mut q = p;
    while q < s.len() && is_space_char(s[q])
        invariant
            p <= q <= s.len(),
            skip_space(s@, p as int) == skip_space(s@, q as int),
        decreases s.len() - q,
    {
        q = q + 1;
    }
    q
}

/// Scans the string literal that starts at `p`.
fn scan_literal(s: &Vec<char>, p: usize) -> (r: Option<(String, usize)>)
    requires
        p <= s.len(),
    ensures
        match r {
            Some((t, e)) => literal(s@, p as int) == Some((t@, e as int)) && p < e <= s.len(),
            None => literal(s@, p as int) is None,
        },
{
    if p >= s.len() || s[p] != '"' {
        return None;
    }
    let mut q = p + 1;
    let mut t = String::new();
    while q < s.len() && s[q] != '"'
        invariant
            p < q <= s.len(),
            next_quote(s@, p + 1) == next_quote(s@, q as int),
            t@ == s@.subrange(p + 1, q as int),
        decreases s.len() - q,
    {
        push_char(&mut t, s[q]);
        assert(t@ =~= s@.subrange(p + 1, q + 1));
        q = q + 1;
    }
    if q >= s.len() {
        None
    } else {
        Some((t, q + 1))
    }
}

/// Binds `k` to `v` in a list of pairs without repeated keys.
fn bind(ps: &mut Vec<(String, String)>, k: String, v: String)
    requires
        distinct_keys(pair_texts(old(ps)@)),
    ensures
        distinct_keys(pair_texts(final(ps)@)),
        fold_pairs(pair_texts(final(ps)@)) == fold_pairs(pair_texts(old(ps)@)).insert(k@, v@),
{
    let ghost before = pair_texts(ps@);
    let mut i: usize = 0;
    while i < ps.len()
        invariant
            i <= ps.len(),
            ps@ == old(ps)@,
            before == pair_texts(ps@),
            distinct_keys(before),
            forall|j: int| 0 <= j < i ==> before[j].0 != k@,
        decreases ps.len() - i,
    {
        if ps[i].0 == k {
            let ghost vv = v@;
            ps[i] = (k, v);
            proof {
                lemma_fold_update(before, i as int, vv);
                assert(pair_texts(ps@) =~= before.update(i as int, (before[i as int].0, vv)));
            }
            return;
        }
        i = i + 1;
    }
    let ghost kv = k@;
    let ghost vv = v@;
    ps.push((k, v));
    proof {
        lemma_fold_push(before, (kv, vv));
        assert(pair_texts(ps@) =~= before.push((kv, vv)));
    }
}

/// What a block parse gave, set against what the grammar gives for the text `s` from `start`.
pub open spec fn block_outcome(
    r: Result<(Entry, usize), ParseError>,
    g: Result<(Block, int), ParseError>,
    s: Seq<char>,
    start: int,
) -> bool {
    match r {
        Ok((e, end)) => {
            &&& g == Ok::<(Block, int), ParseError>((e.model(), end as int))
            &&& e.wf()
            &&& start < end <= s.len()
        },
        Err(x) => g == Err::<(Block, int), ParseError>(x),
    }
}

/// Parses the contents of the block named `name` whose `{` stands at `open`, up to and
/// including its `}`.
fn parse_block_items(s: &Vec<char>, name: String, open: usize) -> (r: Result<
    (Entry, usize),
    ParseError,
>)
    requires
        open < s.len(),
    ensures
        block_outcome(
            r,
            block_items(s@, name@, open as int, open + 1, false, seq![], seq![]),
            s@,
            open as int,
        ),
    decreases s.len() - open,
{
    let ghost name_v = name@;
    let mut p: usize = open + 1;
    let mut nested = false;
    let mut pairs: Vec<(String, String)> = Vec::new();
    let mut children: Vec<Entry> = Vec::new();
    let ghost mut raw: Seq<Pair> = seq![];
    assert(pair_texts(pairs@) =~= raw);
    assert(models(children@) =~= seq![]);
    loop
        invariant
            open < p <= s.len(),
            name@ == name_v,
            distinct_keys(pair_texts(pairs@)),
            forall|i: int| 0 <= i < children@.len() ==> (#[trigger] children@[i]).wf(),
            fold_pairs(pair_texts(pairs@)) == fold_pairs(raw),
            block_items(s@, name_v, open as int, open + 1, false, seq![], seq![]) == block_items(
                s@,
                name_v,
                open as int,
                p as int,
                nested,
                raw,
                models(children@),
            ),
        decreases s.len() - p,
    {
        let q = skip_spaces(s, p);
        if q >= s.len() {
            return Err(ParseError::ExpectedClosingBrace(Span { start: open, end: q }));
        }
        if s[q] == '}' {
            let ghost cm = models(children@);
            let e = Entry { name, expressions: pairs, entries: children };
            assert(e.model().children =~= cm);
            assert(e.wf());
            return Ok((e, q + 1));
        }
        match scan_literal(s, q) {
            None => {
                return Err(ParseError::Unknown);
            },
            Some((k, a)) => {
                let r = skip_spaces(s, a);
                if r < s.len() && s[r] == '{' {
                    match parse_block_items(s, k, r) {
                        Err(e) => {
                            return Err(e);
                        },
                        Ok((c, e)) => {
                            let ghost before = models(children@);
                            children.push(c);
                            assert(models(children@) =~= before.push(c.model()));
                            p = e;
                            nested = true;
                        },
                    }
                } else if !nested && r < s.len() && s[r] == '"' {
                    match scan_literal(s, r) {
                        None => {
                            return Err(ParseError::Unknown);
                        },
                        Some((v, b)) => {
                            proof {
                                let old_raw = raw;
                                raw = old_raw.push((k@, v@));
                                lemma_fold_push(old_raw, (k@, v@));
                            }
                            bind(&mut pairs, k, v);
                            p = b;
                        },
                    }
                } else {
                    return Err(ParseError::Unknown);
                }
            },
        }
    }
}

/// Parses a whole document given as characters.
fn parse_document_chars(s: &Vec<char>) -> (r: Result<Acf, ParseError>)
    ensures
        match r {
            Ok(acf) => parse_document(s@) == Ok::<Seq<Block>, ParseError>(acf.model()) && acf.wf(),
            Err(e) => parse_document(s@) == Err::<Seq<Block>, ParseError>(e),
        },
{
    let mut p: usize = 0;
    let mut blocks: Vec<Entry> = Vec::new();
    assert(models(blocks@) =~= seq![]);
    loop
        invariant
            p <= s.len(),
            forall|i: int| 0 <= i < blocks@.len() ==> (#[trigger] blocks@[i]).wf(),
            parse_document(s@) == document_blocks(s@, p as int, models(blocks@)),
        decreases s.len() - p,
    {
        let q = skip_spaces(s, p);
        if q >= s.len() {
            return Ok(Acf { entries: blocks });
        }
        match scan_literal(s, q) {
            None => {
                return Err(ParseError::Unknown);
            },
            Some((k, a)) => {
                let r = skip_spaces(s, a);
                if r < s.len() && s[r] == '{' {
                    match parse_block_items(s, k, r) {
                        Err(e) => {
                            return Err(e);
                        },
                        Ok((b, e)) => {
                            let ghost before = models(blocks@);
                            blocks.push(b);
                            assert(models(blocks@) =~= before.push(b.model()));
                            p = e;
                        },
                    }
                } else {
                    return Err(ParseError::Unknown);
                }
            },
        }
    }
}

/// Parses the text of an ACF document into its tree of entries. Fails with a parse error,
/// and no partial document, exactly where the grammar rejects the text.
pub fn parse_acf(text: &str) -> (r: Result<Acf, AcfError>)
    ensures
        match r {
            Ok(acf) => parse_document(text@) == Ok::<Seq<Block>, ParseError>(acf.model()) && acf.wf(),
            Err(e) => exists|x: ParseError|
                e == AcfError::Parse(x) && parse_document(text@) == Err::<Seq<Block>, ParseError>(x),
        },
{
    let s = chars_of(text);
    match parse_document_chars(&s) {
        Ok(acf) => Ok(acf),
        Err(x) => Err(AcfError::Parse(x)),
    }
}

} // verus!
