use vstd::prelude::*;
use crate::text::same_text;

verus! {

/// The map that a list of key/value pairs describes when the first pair with
/// a key decides its value.
pub open spec fn pairs_map(s: Seq<(Seq<char>, Seq<char>)>) -> Map<Seq<char>, Seq<char>>
    decreases s.len(),
{
    if s.len() == 0 {
        Map::empty()
    } else if pairs_map(s.drop_last()).contains_key(s.last().0) {
        pairs_map(s.drop_last())
    } else {
        pairs_map(s.drop_last()).insert(s.last().0, s.last().1)
    }
}

/// The keys that occur in a list of pairs.
pub open spec fn pairs_keys(s: Seq<(Seq<char>, Seq<char>)>) -> Set<Seq<char>> {
    Set::new(|k: Seq<char>| exists|i: int| 0 <= i < s.len() && #[trigger] s[i].0 == k)
}

pub proof fn lemma_pairs_map_dom(s: Seq<(Seq<char>, Seq<char>)>)
    ensures
        pairs_map(s).dom() == pairs_keys(s),
    decreases s.len(),
{
    if s.len() > 0 {
        let p = s.drop_last();
        lemma_pairs_map_dom(p);
        assert forall|k: Seq<char>| pairs_map(s).dom().contains(k) <==> pairs_keys(s).contains(k) by {
            if pairs_map(p).contains_key(s.last().0) {
                assert(pairs_keys(p).contains(s.last().0));
                let i = choose|i: int| 0 <= i < p.len() && #[trigger] p[i].0 == s.last().0;
                assert(s[i].0 == s.last().0);
            }
            if pairs_keys(s).contains(k) {
                let i = choose|i: int| 0 <= i < s.len() && #[trigger] s[i].0 == k;
                if i < s.len() - 1 {
                    assert(p[i].0 == k);
                }
            }
            if pairs_keys(p).contains(k) {
                let i = choose|i: int| 0 <= i < p.len() && #[trigger] p[i].0 == k;
                assert(s[i].0 == k);
            }
        }
        assert(pairs_map(s).dom() =~= pairs_keys(s));
    } else {
        assert(pairs_keys(s) =~= Set::empty());
    }
}

pub proof fn lemma_pairs_map_first(s: Seq<(Seq<char>, Seq<char>)>, k: Seq<char>, i: int)
    requires
        0 <= i < s.len(),
        s[i].0 == k,
        forall|j: int| 0 <= j < i ==> #[trigger] s[j].0 != k,
    ensures
        pairs_map(s).contains_key(k),
        pairs_map(s)[k] == s[i].1,
    decreases s.len(),
{
    let p = s.drop_last();
    if i < s.len() - 1 {
        assert forall|j: int| 0 <= j < i implies #[trigger] p[j].0 != k by {
            assert(s[j].0 != k);
        }
        lemma_pairs_map_first(p, k, i);
    } else {
        lemma_pairs_map_dom(p);
        if pairs_keys(p).contains(k) {
            let j = choose|j: int| 0 <= j < p.len() && #[trigger] p[j].0 == k;
            assert(s[j].0 == k);
        }
    }
}

/// A string-keyed map of strings, kept as the list of pairs it was built from.
#[derive(Clone, Debug)]
pub struct StringMap {
    pub pairs: Vec<(String, String)>,
}

impl StringMap {
    /// The pairs, as text.
    pub open spec fn spec_pairs(&self) -> Seq<(Seq<char>, Seq<char>)> {
        self.pairs@.map_values(|p: (String, String)| (p.0@, p.1@))
    }

    pub open spec fn view(&self) -> Map<Seq<char>, Seq<char>> {
        pairs_map(self.spec_pairs())
    }

    pub fn new() -> (r: StringMap)
        ensures
            r.spec_pairs() == Seq::<(Seq<char>, Seq<char>)>::empty(),
            r.view() == Map::<Seq<char>, Seq<char>>::empty(),
    {
        let r = StringMap { pairs: Vec::new() };
        assert(r.spec_pairs() =~= Seq::<(Seq<char>, Seq<char>)>::empty());
        r
    }

    /// Adds the pair `key`, `value`; a key keeps the first value it was given.
    pub fn insert(&mut self, key: String, value: String)
        ensures
            final(self).spec_pairs() == old(self).spec_pairs().push((key@, value@)),
            old(self).view().contains_key(key@) ==> final(self).view() == old(self).view(),
            !old(self).view().contains_key(key@) ==> final(self).view() == old(self).view().insert(key@, value@),
    {
        self.pairs.push((key, value));
        assert(self.spec_pairs() =~= old(self).spec_pairs().push((key@, value@)));
        assert(self.spec_pairs().drop_last() =~= old(self).spec_pairs());
    }

    pub fn len(&self) -> (r: usize)
        ensures
            r == self.spec_pairs().len(),
    {
        self.pairs.len()
    }

    /// Whether the map holds no key.
    pub fn is_empty(&self) -> (r: bool)
        ensures
            r == (self.view() == Map::<Seq<char>, Seq<char>>::empty()),
            r == (self.spec_pairs().len() == 0),
    {
        proof {
            lemma_pairs_map_dom(self.spec_pairs());
            if self.spec_pairs().len() > 0 {
                let s = self.spec_pairs();
                assert(pairs_keys(s).contains(s[0].0));
                assert(!Map::<Seq<char>, Seq<char>>::empty().dom().contains(s[0].0));
            } else {
                assert(self.view() =~= Map::empty());
            }
        }
        self.pairs.len() == 0
    }

    /// The value of `key`, if it has one.
    pub fn get(&self, key: &str) -> (r: Option<&String>)
        ensures
            r matches Some(v) ==> self.view().contains_key(key@) && self.view()[key@] == v@,
            r is None ==> !self.view().contains_key(key@),
    {
        let ghost s = self.spec_pairs();
        let mut i: usize = 0;
        while i < self.pairs.len()
            invariant
                i <= self.pairs.len(),
                s == self.spec_pairs(),
                forall|j: int| 0 <= j < i ==> #[trigger] s[j].0 != key@,
            decreases self.pairs.len() - i,
        {
            if same_text(self.pairs[i].0.as_str(), key) {
                proof {
                    lemma_pairs_map_first(s, key@, i as int);
                }
                return Some(&self.pairs[i].1);
            }
            i = i + 1;
        }
        proof {
            lemma_pairs_map_dom(s);
            if pairs_keys(s).contains(key@) {
                let j = choose|j: int| 0 <= j < s.len() && #[trigger] s[j].0 == key@;
            }
        }
        None
    }
}

} // verus!
