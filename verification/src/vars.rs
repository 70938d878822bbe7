//! The variable set a build runs with: key–value pairs gathered from the
//! process environment and from in-source directives, later pairs
//! overriding earlier ones.
use vstd::prelude::*;
use crate::text::str_eq_chars;

verus! {

/// The character-level pairs of a pair sequence.
pub open spec fn pairs_view(items: Seq<(String, String)>) -> Seq<(Seq<char>, Seq<char>)> {
    items.map_values(|p: (String, String)| (p.0@, p.1@))
}

/// The mapping a pair sequence denotes: a later pair wins over an
/// earlier pair with the same key.
pub open spec fn assoc_map(items: Seq<(Seq<char>, Seq<char>)>) -> Map<Seq<char>, Seq<char>>
    decreases items.len(),
{
    if items.len() == 0 {
        Map::empty()
    } else {
        assoc_map(items.drop_last()).insert(items.last().0, items.last().1)
    }
}

/// A key–value set with insertion order kept; the mapping it denotes is
/// last-writer-wins over the pair sequence.
pub struct VarSet {
    pub items: Vec<(String, String)>,
}

impl VarSet {
    pub open spec fn view(&self) -> Map<Seq<char>, Seq<char>> {
        assoc_map(pairs_view(self.items@))
    }

    pub fn new() -> (r: VarSet)
        ensures
            r.items@.len() == 0,
            r@ == Map::<Seq<char>, Seq<char>>::empty(),
    {
        let r = VarSet { items: Vec::new() };
        proof {
            assert(pairs_view(r.items@) =~= Seq::<(Seq<char>, Seq<char>)>::empty());
        }
        r
    }

    /// Bind `key` to `value`, overriding any earlier binding of `key`.
    pub fn insert(&mut self, key: String, value: String)
        ensures
            final(self)@ == old(self)@.insert(key@, value@),
            final(self).items@ == old(self).items@.push((key, value)),
    {
        let ghost k = key@;
        let ghost v = value@;
        self.items.push((key, value));
        proof {
            let ps = pairs_view(self.items@);
            assert(ps.drop_last() =~= pairs_view(old(self).items@));
            assert(ps.last() == (k, v));
        }
    }

    /// The value bound to `key`, if any: the last pair with that key.
    pub fn get(&self, key: &str) -> (r: Option<&String>)
        ensures
            match r {
                Some(v) => self@.contains_key(key@) && v@ == self@[key@],
                None => !self@.contains_key(key@),
            },
    {
        assoc_get(&self.items, key)
    }
}

/// The value the pair sequence binds `key` to, if any: the last pair
/// with that key.
pub fn assoc_get<'a>(items: &'a Vec<(String, String)>, key: &str) -> (r: Option<&'a String>)
    ensures
        match r {
            Some(v) => assoc_map(pairs_view(items@)).contains_key(key@) && v@ == assoc_map(
                pairs_view(items@),
            )[key@],
            None => !assoc_map(pairs_view(items@)).contains_key(key@),
        },
{
    let n = items.len();
    let mut j: usize = n;
    while j > 0
        invariant
            j <= n,
            n == items@.len(),
            forall|l: int| j <= l < n ==> pairs_view(items@)[l].0 != key@,
        decreases j,
    {
        j = j - 1;
        if str_eq_chars(items[j].0.as_str(), key) {
            proof {
                lemma_assoc_last_match(pairs_view(items@), key@, j as int);
            }
            return Some(&items[j].1);
        }
    }
    proof {
        lemma_assoc_no_match(pairs_view(items@), key@);
    }
    None
}

/// If position `j` holds the last pair with key `k`, the mapping binds
/// `k` to that pair's value.
pub proof fn lemma_assoc_last_match(items: Seq<(Seq<char>, Seq<char>)>, k: Seq<char>, j: int)
    requires
        0 <= j < items.len(),
        items[j].0 == k,
        forall|l: int| j < l < items.len() ==> items[l].0 != k,
    ensures
        assoc_map(items).contains_key(k),
        assoc_map(items)[k] == items[j].1,
    decreases items.len(),
{
    if j == items.len() - 1 {
    } else {
        lemma_assoc_last_match(items.drop_last(), k, j);
    }
}

/// A key no pair holds is not bound.
pub proof fn lemma_assoc_no_match(items: Seq<(Seq<char>, Seq<char>)>, k: Seq<char>)
    requires
        forall|l: int| 0 <= l < items.len() ==> items[l].0 != k,
    ensures
        !assoc_map(items).contains_key(k),
    decreases items.len(),
{
    if items.len() > 0 {
        lemma_assoc_no_match(items.drop_last(), k);
    }
}

/// Whatever pairs stand before them, the pairs of `src` decide every key
/// they define: an in-source directive wins over an environment-derived
/// binding of the same key.
pub proof fn lemma_source_overrides(
    before1: Seq<(Seq<char>, Seq<char>)>,
    before2: Seq<(Seq<char>, Seq<char>)>,
    src: Seq<(Seq<char>, Seq<char>)>,
    k: Seq<char>,
)
    requires
        exists|l: int| 0 <= l < src.len() && src[l].0 == k,
    ensures
        assoc_map(before1 + src).contains_key(k),
        assoc_map(before1 + src)[k] == assoc_map(before2 + src)[k],
    decreases src.len(),
{
    let l0 = choose|l: int| 0 <= l < src.len() && src[l].0 == k;
    if src.last().0 == k {
        assert((before1 + src).last() == src.last());
        assert((before2 + src).last() == src.last());
    } else {
        assert(l0 < src.len() - 1);
        assert(src.drop_last()[l0] == src[l0]);
        lemma_source_overrides(before1, before2, src.drop_last(), k);
        assert((before1 + src).drop_last() =~= before1 + src.drop_last());
        assert((before2 + src).drop_last() =~= before2 + src.drop_last());
        assert((before1 + src).last() == src.last());
        assert((before2 + src).last() == src.last());
    }
}

} // verus!
