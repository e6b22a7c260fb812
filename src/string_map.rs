//! String-to-string maps with unique keys, kept in insertion order.

use vstd::prelude::*;

verus! {

/// The map that a sequence of (key, value) pairs with distinct keys stands for.
pub open spec fn pairs_map(s: Seq<(String, String)>) -> Map<Seq<char>, Seq<char>> {
    Map::new(
        |k: Seq<char>| exists|i: int| 0 <= i < s.len() && (#[trigger] s[i]).0@ == k,
        |k: Seq<char>| s[choose|i: int| 0 <= i < s.len() && (#[trigger] s[i]).0@ == k].1@,
    )
}

pub open spec fn names_distinct(s: Seq<(String, String)>) -> bool {
    forall|i: int, j: int| 0 <= i < s.len() && 0 <= j < s.len() && i != j ==> (#[trigger] s[i]).0@ != (#[trigger] s[j]).0@
}

pub open spec fn pair_view(p: (String, String)) -> (Seq<char>, Seq<char>) {
    (p.0@, p.1@)
}

proof fn lemma_pairs_map_push(s: Seq<(String, String)>, p: (String, String))
    requires
        names_distinct(s),
        !pairs_map(s).contains_key(p.0@),
    ensures
        names_distinct(s.push(p)),
        pairs_map(s.push(p)) == pairs_map(s).insert(p.0@, p.1@),
{
    let t = s.push(p);
    assert forall|i: int, j: int| 0 <= i < t.len() && 0 <= j < t.len() && i != j implies (#[trigger] t[i]).0@ != (#[trigger] t[j]).0@ by {
        if i == s.len() as int {
            assert(s[j] == t[j]);
        } else if j == s.len() as int {
            assert(s[i] == t[i]);
        } else {
            assert(s[i] == t[i] && s[j] == t[j]);
        }
    }
    assert forall|k: Seq<char>| #[trigger] pairs_map(t).contains_key(k) <==> pairs_map(s).insert(p.0@, p.1@).contains_key(k) by {
        if pairs_map(s).contains_key(k) {
            let i = choose|i: int| 0 <= i < s.len() && (#[trigger] s[i]).0@ == k;
            assert(t[i] == s[i]);
        }
        if k == p.0@ {
            assert(t[s.len() as int] == p);
        }
        if pairs_map(t).contains_key(k) && k != p.0@ {
            let i = choose|i: int| 0 <= i < t.len() && (#[trigger] t[i]).0@ == k;
            assert(t[i] == s[i]);
        }
    }
    assert forall|k: Seq<char>| #[trigger] pairs_map(t).contains_key(k) implies pairs_map(t)[k] == pairs_map(s).insert(p.0@, p.1@)[k] by {
        let i = choose|i: int| 0 <= i < t.len() && (#[trigger] t[i]).0@ == k;
        if k == p.0@ {
            assert(t[s.len() as int].0@ == k);
        } else {
            assert(t[i] == s[i]);
            let i2 = choose|i: int| 0 <= i < s.len() && (#[trigger] s[i]).0@ == k;
            assert(t[i2] == s[i2]);
        }
    }
    assert(pairs_map(t) =~= pairs_map(s).insert(p.0@, p.1@));
}

proof fn lemma_pairs_map_update(s: Seq<(String, String)>, i: int, p: (String, String))
    requires
        names_distinct(s),
        0 <= i < s.len(),
        s[i].0@ == p.0@,
    ensures
        names_distinct(s.update(i, p)),
        pairs_map(s.update(i, p)) == pairs_map(s).insert(p.0@, p.1@),
{
    let t = s.update(i, p);
    assert forall|a: int, b: int| 0 <= a < t.len() && 0 <= b < t.len() && a != b implies (#[trigger] t[a]).0@ != (#[trigger] t[b]).0@ by {
        assert(s[a].0@ == t[a].0@ && s[b].0@ == t[b].0@);
    }
    assert forall|k: Seq<char>| #[trigger] pairs_map(t).contains_key(k) <==> pairs_map(s).insert(p.0@, p.1@).contains_key(k) by {
        if pairs_map(s).contains_key(k) {
            let j = choose|j: int| 0 <= j < s.len() && (#[trigger] s[j]).0@ == k;
            assert(t[j].0@ == s[j].0@);
        }
        if k == p.0@ {
            assert(t[i] == p);
        }
        if pairs_map(t).contains_key(k) {
            let j = choose|j: int| 0 <= j < t.len() && (#[trigger] t[j]).0@ == k;
            assert(t[j].0@ == s[j].0@);
        }
    }
    assert forall|k: Seq<char>| #[trigger] pairs_map(t).contains_key(k) implies pairs_map(t)[k] == pairs_map(s).insert(p.0@, p.1@)[k] by {
        let j = choose|j: int| 0 <= j < t.len() && (#[trigger] t[j]).0@ == k;
        if k == p.0@ {
            assert(t[i].0@ == k);
        } else {
            assert(t[j] == s[j]);
            let j2 = choose|j: int| 0 <= j < s.len() && (#[trigger] s[j]).0@ == k;
            assert(t[j2] == s[j2]);
        }
    }
    assert(pairs_map(t) =~= pairs_map(s).insert(p.0@, p.1@));
}

/// A map from strings to strings that keeps its entries in insertion order.
#[derive(Debug, Clone)]
pub struct StringMap {
    pub entries: Vec<(String, String)>,
}

impl View for StringMap {
    type V = Map<Seq<char>, Seq<char>>;

    open spec fn view(&self) -> Map<Seq<char>, Seq<char>> {
        pairs_map(self.entries@)
    }
}

impl StringMap {
    /// Each key occurs once.
    pub open spec fn wf(&self) -> bool {
        names_distinct(self.entries@)
    }

    pub fn new() -> (r: StringMap)
        ensures
            r.wf(),
            r@ == Map::<Seq<char>, Seq<char>>::empty(),
            r.entries@.len() == 0,
    {
        let r = StringMap { entries: Vec::new() };
        assert(r@ =~= Map::<Seq<char>, Seq<char>>::empty());
        r
    }

    /// The position of `name` among the entries, if it is there.
    pub fn position(&self, name: &String) -> (r: Option<usize>)
        requires
            self.wf(),
        ensures
            r is None <==> !self@.contains_key(name@),
            r matches Some(i) ==> i < self.entries@.len() && self.entries@[i as int].0@ == name@,
    {
        let mut i: usize = 0;
        while i < self.entries.len()
            invariant
                i <= self.entries@.len(),
                forall|j: int| 0 <= j < i ==> (#[trigger] self.entries@[j]).0@ != name@,
            decreases self.entries.len() - i,
        {
            if self.entries[i].0 == *name {
                return Some(i);
            }
            i = i + 1;
        }
        assert(!self@.contains_key(name@)) by {
            if self@.contains_key(name@) {
                let j = choose|j: int| 0 <= j < self.entries@.len() && (#[trigger] self.entries@[j]).0@ == name@;
                assert(self.entries@[j].0@ != name@);
            }
        }
        None
    }

    /// Whether each key occurs once.
    pub fn keys_distinct(&self) -> (r: bool)
        ensures
            r == self.wf(),
    {
        let n = self.entries.len();
        let mut i: usize = 0;
        while i < n
            invariant
                n == self.entries@.len(),
                i <= n,
                forall|a: int, b: int| 0 <= a < i && 0 <= b < n && a != b ==> (#[trigger] self.entries@[a]).0@ != (#[trigger] self.entries@[b]).0@,
            decreases n - i,
        {
            let mut j: usize = 0;
            while j < n
                invariant
                    n == self.entries@.len(),
                    i < n,
                    j <= n,
                    forall|a: int, b: int| 0 <= a < i && 0 <= b < n && a != b ==> (#[trigger] self.entries@[a]).0@ != (#[trigger] self.entries@[b]).0@,
                    forall|b: int| 0 <= b < j && b != i ==> self.entries@[i as int].0@ != (#[trigger] self.entries@[b]).0@,
                decreases n - j,
            {
                if j != i && self.entries[i].0 == self.entries[j].0 {
                    return false;
                }
                j = j + 1;
            }
            i = i + 1;
        }
        true
    }

    /// Sets the value of `key`, in place where the key is already present,
    /// else as a new last entry.
    pub fn insert(&mut self, key: String, value: String)
        requires
            old(self).wf(),
        ensures
            final(self).wf(),
            final(self)@ == old(self)@.insert(key@, value@),
    {
        let ghost s = self.entries@;
        let pair = (key, value);
        match self.position(&pair.0) {
            Some(i) => {
                proof {
                    lemma_pairs_map_update(s, i as int, pair);
                }
                self.entries.set(i, pair);
            },
            None => {
                proof {
                    lemma_pairs_map_push(s, pair);
                }
                self.entries.push(pair);
            },
        }
    }
}

pub open spec fn pairs_view(s: Seq<(String, String)>) -> Seq<(Seq<char>, Seq<char>)> {
    s.map_values(|p: (String, String)| pair_view(p))
}

/// Sequences of pairs with the same characters stand for the same map.
pub proof fn lemma_same_views(a: Seq<(String, String)>, b: Seq<(String, String)>)
    requires
        pairs_view(a) == pairs_view(b),
        names_distinct(a),
    ensures
        names_distinct(b),
        pairs_map(a) == pairs_map(b),
{
    assert(a.len() == b.len()) by {
        assert(pairs_view(a).len() == a.len());
        assert(pairs_view(b).len() == b.len());
    }
    assert forall|i: int| 0 <= i < a.len() implies (#[trigger] a[i]).0@ == b[i].0@ && a[i].1@ == b[i].1@ by {
        assert(pairs_view(a)[i] == pairs_view(b)[i]);
    }
    assert forall|i: int, j: int| 0 <= i < b.len() && 0 <= j < b.len() && i != j implies (#[trigger] b[i]).0@ != (#[trigger] b[j]).0@ by {
        assert(a[i].0@ == b[i].0@ && a[j].0@ == b[j].0@);
    }
    assert forall|k: Seq<char>| #[trigger] pairs_map(a).contains_key(k) <==> pairs_map(b).contains_key(k) by {
        if pairs_map(a).contains_key(k) {
            let i = choose|i: int| 0 <= i < a.len() && (#[trigger] a[i]).0@ == k;
            assert(b[i].0@ == a[i].0@);
        }
        if pairs_map(b).contains_key(k) {
            let i = choose|i: int| 0 <= i < b.len() && (#[trigger] b[i]).0@ == k;
            assert(b[i].0@ == a[i].0@);
        }
    }
    assert forall|k: Seq<char>| #[trigger] pairs_map(a).contains_key(k) implies pairs_map(a)[k] == pairs_map(b)[k] by {
        let i = choose|i: int| 0 <= i < a.len() && (#[trigger] a[i]).0@ == k;
        let j = choose|j: int| 0 <= j < b.len() && (#[trigger] b[j]).0@ == k;
        assert(a[j].0@ == b[j].0@);
        assert(i == j);
    }
    assert(pairs_map(a) =~= pairs_map(b));
}

/// A copy of the entries, in the same order.
pub fn copy_entries(v: &Vec<(String, String)>) -> (r: Vec<(String, String)>)
    ensures
        pairs_view(r@) == pairs_view(v@),
{
    let mut out: Vec<(String, String)> = Vec::new();
    let mut i: usize = 0;
    while i < v.len()
        invariant
            i <= v@.len(),
            pairs_view(out@) == pairs_view(v@.take(i as int)),
        decreases v.len() - i,
    {
        let p = (String::from_str(v[i].0.as_str()), String::from_str(v[i].1.as_str()));
        let ghost before = pairs_view(out@);
        out.push(p);
        proof {
            assert(pairs_view(out@) =~= before.push(pair_view(p)));
            assert(pairs_view(v@.take(i + 1)) =~= pairs_view(v@.take(i as int)).push(pair_view(v@[i as int])));
        }
        i = i + 1;
    }
    assert(v@.take(v@.len() as int) =~= v@);
    out
}

} // verus!
