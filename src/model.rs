use vstd::prelude::*;

verus! {

/// A key/value pair as text.
pub type Pair = (Seq<char>, Seq<char>);

/// What a block denotes: its name, the mapping of its expressions, and its nested blocks in
/// source order.
pub struct Block {
    pub name: Seq<char>,
    pub pairs: Map<Seq<char>, Seq<char>>,
    pub children: Seq<Block>,
}

/// The mapping that a block's expressions, read in order, leave behind: each key is bound to
/// the value of its last occurrence.
pub open spec fn fold_pairs(ps: Seq<Pair>) -> Map<Seq<char>, Seq<char>>
    decreases ps.len(),
{
    if ps.len() == 0 {
        Map::empty()
    } else {
        fold_pairs(ps.drop_last()).insert(ps.last().0, ps.last().1)
    }
}

/// The keys that occur in `ps`.
pub open spec fn keys_of(ps: Seq<Pair>) -> Set<Seq<char>> {
    Set::new(|k: Seq<char>| exists|i: int| 0 <= i < ps.len() && ps[i].0 == k)
}

/// No key occurs twice in `ps`.
pub open spec fn distinct_keys(ps: Seq<Pair>) -> bool {
    forall|i: int, j: int| 0 <= i < ps.len() && 0 <= j < ps.len() && i != j ==> ps[i].0 != ps[j].0
}

/// `i` is the last position of `ps` that holds the key `ps[i].0`.
pub open spec fn last_of_key(ps: Seq<Pair>, i: int) -> bool {
    &&& 0 <= i < ps.len()
    &&& forall|j: int| i < j < ps.len() ==> ps[j].0 != ps[i].0
}

/// Reading a block's expressions in order binds exactly the keys that occur among them, each
/// to the value of its last occurrence; so the mapping holds one entry per distinct key.
pub proof fn lemma_last_write_wins(ps: Seq<Pair>)
    ensures
        fold_pairs(ps).dom() == keys_of(ps),
        forall|i: int| #[trigger] last_of_key(ps, i) ==> fold_pairs(ps)[ps[i].0] == ps[i].1,
    decreases ps.len(),
{
    if ps.len() > 0 {
        let init = ps.drop_last();
        lemma_last_write_wins(init);
        assert forall|k: Seq<char>| fold_pairs(ps).dom().contains(k) <==> keys_of(ps).contains(
            k,
        ) by {
            if keys_of(ps).contains(k) {
                let i = choose|i: int| 0 <= i < ps.len() && ps[i].0 == k;
                if i < ps.len() - 1 {
                    assert(init[i].0 == k);
                    assert(keys_of(init).contains(k));
                }
            }
            if fold_pairs(init).dom().contains(k) {
                let i = choose|i: int| 0 <= i < init.len() && init[i].0 == k;
                assert(ps[i].0 == k);
            }
        }
        assert(fold_pairs(ps).dom() =~= keys_of(ps));
        assert forall|i: int| #[trigger] last_of_key(ps, i) implies fold_pairs(ps)[ps[i].0]
            == ps[i].1 by {
            if i < ps.len() - 1 {
                assert(last_of_key(init, i));
            }
        }
    }
}

/// Binding `ps[i].0` anew to `v` in a list without repeated keys changes its mapping as an
/// insertion does.
pub proof fn lemma_fold_update(ps: Seq<Pair>, i: int, v: Seq<char>)
    requires
        distinct_keys(ps),
        0 <= i < ps.len(),
    ensures
        fold_pairs(ps.update(i, (ps[i].0, v))) == fold_pairs(ps).insert(ps[i].0, v),
        distinct_keys(ps.update(i, (ps[i].0, v))),
    decreases ps.len(),
{
    let qs = ps.update(i, (ps[i].0, v));
    assert(qs.drop_last() =~= if i == ps.len() - 1 {
        ps.drop_last()
    } else {
        ps.drop_last().update(i, (ps[i].0, v))
    });
    if i == ps.len() - 1 {
        assert(fold_pairs(qs) =~= fold_pairs(ps).insert(ps[i].0, v));
    } else {
        lemma_fold_update(ps.drop_last(), i, v);
        assert(ps.last().0 != ps[i].0);
        assert(fold_pairs(qs) =~= fold_pairs(ps).insert(ps[i].0, v));
    }
}

/// Appending a pair adds its binding to the mapping.
pub proof fn lemma_fold_push(ps: Seq<Pair>, p: Pair)
    ensures
        fold_pairs(ps.push(p)) == fold_pairs(ps).insert(p.0, p.1),
{
    assert(ps.push(p).drop_last() =~= ps);
}

} // verus!
