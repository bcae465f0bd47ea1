//! The map of secrets: names and values, in the order of the names.

use vstd::prelude::*;

use crate::text::{law_order, place, precedes, Place};

verus! {

/// A name and a value, as plain text.
pub type Pair = (Seq<char>, Seq<char>);

/// One secret.
#[derive(Debug)]
pub struct Secret {
    pub name: String,
    pub value: String,
}

impl View for Secret {
    type V = Pair;

    open spec fn view(&self) -> Pair {
        (self.name@, self.value@)
    }
}

/// Whether the names stand in strictly ascending order.
pub open spec fn is_ascending(pairs: Seq<Pair>) -> bool {
    forall|i: int, j: int|
        #![trigger pairs[i], pairs[j]]
        0 <= i < j < pairs.len() ==> precedes(pairs[i].0, pairs[j].0)
}

/// The map that takes each name to its value; of two pairs with the same name
/// the later one counts.
pub open spec fn map_of(pairs: Seq<Pair>) -> Map<Seq<char>, Seq<char>>
    decreases pairs.len(),
{
    if pairs.len() == 0 {
        Map::empty()
    } else {
        map_of(pairs.drop_last()).insert(pairs.last().0, pairs.last().1)
    }
}

pub(crate) proof fn lemma_map_of(pairs: Seq<Pair>)
    requires
        is_ascending(pairs),
    ensures
        forall|i: int|
            #![trigger pairs[i]]
            0 <= i < pairs.len() ==> map_of(pairs).contains_key(pairs[i].0)
                && map_of(pairs)[pairs[i].0] == pairs[i].1,
        forall|k: Seq<char>| #[trigger]
            map_of(pairs).contains_key(k) ==> exists|i: int|
                0 <= i < pairs.len() && (#[trigger] pairs[i]).0 == k,
        map_of(pairs).dom().finite(),
        map_of(pairs).len() == pairs.len(),
    decreases pairs.len(),
{
    if pairs.len() > 0 {
        let init = pairs.drop_last();
        lemma_map_of(init);
        let n = pairs.len() - 1;
        assert forall|i: int| 0 <= i < n implies (#[trigger] pairs[i]).0 != pairs[n].0 by {
            law_order(pairs[i].0, pairs[n].0, pairs[n].0);
        }
        assert forall|i: int| #![trigger pairs[i]] 0 <= i < pairs.len() implies map_of(
            pairs,
        ).contains_key(pairs[i].0) && map_of(pairs)[pairs[i].0] == pairs[i].1 by {
            if i < n {
                assert(init[i] == pairs[i]);
            }
        }
        assert forall|k: Seq<char>| #[trigger] map_of(pairs).contains_key(k) implies exists|i: int|
            0 <= i < pairs.len() && (#[trigger] pairs[i]).0 == k by {
            if k == pairs[n].0 {
                assert(pairs[n].0 == k);
            } else {
                assert(map_of(init).contains_key(k));
                let i = choose|i: int| 0 <= i < init.len() && (#[trigger] init[i]).0 == k;
                assert(pairs[i].0 == k);
            }
        }
        assert(!map_of(init).contains_key(pairs[n].0));
    }
}

/// A map has one listing in ascending order.
pub proof fn law_listing_is_unique(a: Seq<Pair>, b: Seq<Pair>)
    requires
        is_ascending(a),
        is_ascending(b),
        map_of(a) == map_of(b),
    ensures
        a == b,
    decreases a.len(),
{
    lemma_map_of(a);
    lemma_map_of(b);
    if a.len() > 0 {
        let n = a.len() - 1;
        assert(map_of(b).contains_key(a[n].0));
        let i = choose|i: int| 0 <= i < b.len() && (#[trigger] b[i]).0 == a[n].0;
        assert(map_of(a).contains_key(b[n].0));
        let j = choose|j: int| 0 <= j < a.len() && (#[trigger] a[j]).0 == b[n].0;
        law_order(a[n].0, b[n].0, a[n].0);
        if i < n {
            assert(precedes(b[i].0, b[n].0));
        }
        if j < n {
            assert(precedes(a[j].0, a[n].0));
        }
        assert(a[n].0 == b[n].0);
        assert(a[n] == b[n]);
        let x = a.drop_last();
        let y = b.drop_last();
        lemma_map_of(x);
        lemma_map_of(y);
        assert forall|k: Seq<char>| map_of(x).contains_key(k) implies k != a[n].0 by {
            let p = choose|p: int| 0 <= p < x.len() && (#[trigger] x[p]).0 == k;
            law_order(a[p].0, a[n].0, a[n].0);
        }
        assert forall|k: Seq<char>| map_of(y).contains_key(k) implies k != b[n].0 by {
            let p = choose|p: int| 0 <= p < y.len() && (#[trigger] y[p]).0 == k;
            law_order(b[p].0, b[n].0, b[n].0);
        }
        assert(map_of(x) =~= map_of(a).remove(a[n].0));
        assert(map_of(y) =~= map_of(b).remove(b[n].0));
        law_listing_is_unique(x, y);
        assert(a =~= x.push(a[n]));
        assert(b =~= y.push(b[n]));
    } else {
        assert(a =~= b);
    }
}

/// The one listing of a map in ascending order.
pub open spec fn listing(m: Map<Seq<char>, Seq<char>>) -> Seq<Pair> {
    choose|pairs: Seq<Pair>| #[trigger] is_ascending(pairs) && map_of(pairs) == m
}

pub(crate) proof fn lemma_listing(pairs: Seq<Pair>)
    requires
        is_ascending(pairs),
    ensures
        listing(map_of(pairs)) == pairs,
{
    law_listing_is_unique(listing(map_of(pairs)), pairs);
}

/// Every finite map has a listing in ascending order.
pub proof fn law_listing(m: Map<Seq<char>, Seq<char>>)
    requires
        m.dom().finite(),
    ensures
        is_ascending(listing(m)),
        map_of(listing(m)) == m,
    decreases m.dom().len(),
{
    if m.dom().len() == 0 {
        let none = Seq::<Pair>::empty();
        assert(m =~= Map::empty());
        assert(is_ascending(none) && map_of(none) == m);
    } else {
        let k = m.dom().choose();
        let rest = m.remove(k);
        law_listing(rest);
        let pairs = listing(rest);
        assert forall|j: int| 0 <= j < pairs.len() implies (#[trigger] pairs[j]).0 != k by {
            lemma_map_of(pairs);
            assert(rest.contains_key(pairs[j].0));
        }
        let i = lemma_place(pairs, k, pairs.len() as int);
        let all = pairs.insert(i, (k, m[k]));
        lemma_inserted(pairs, i, (k, m[k]));
        assert(map_of(all) =~= m);
        assert(is_ascending(all));
    }
}

/// The place where a new name stands among the first `n` of some pairs.
proof fn lemma_place(pairs: Seq<Pair>, name: Seq<char>, n: int) -> (i: int)
    requires
        is_ascending(pairs),
        0 <= n <= pairs.len(),
        forall|j: int| 0 <= j < pairs.len() ==> (#[trigger] pairs[j]).0 != name,
    ensures
        0 <= i <= n,
        forall|j: int| #![trigger pairs[j]] 0 <= j < i ==> precedes(pairs[j].0, name),
        forall|j: int| #![trigger pairs[j]] i <= j < n ==> precedes(name, pairs[j].0),
    decreases n,
{
    if n == 0 {
        0
    } else {
        law_order(pairs[n - 1].0, name, name);
        if precedes(pairs[n - 1].0, name) {
            assert forall|j: int| #![trigger pairs[j]] 0 <= j < n implies precedes(
                pairs[j].0,
                name,
            ) by {
                if j < n - 1 {
                    law_order(pairs[j].0, pairs[n - 1].0, name);
                }
            }
            n
        } else {
            lemma_place(pairs, name, n - 1)
        }
    }
}

pub(crate) proof fn lemma_map_is_finite(pairs: Seq<Pair>)
    ensures
        map_of(pairs).dom().finite(),
    decreases pairs.len(),
{
    if pairs.len() > 0 {
        lemma_map_is_finite(pairs.drop_last());
    }
}

/// Names and their values, each name once, in ascending order.
#[derive(Debug)]
pub struct SecretMap {
    secrets: Vec<Secret>,
}

impl View for SecretMap {
    type V = Map<Seq<char>, Seq<char>>;

    open spec fn view(&self) -> Map<Seq<char>, Seq<char>> {
        map_of(self.pairs())
    }
}

impl SecretMap {
    /// The secrets in the order of their names.
    pub closed spec fn pairs(&self) -> Seq<Pair> {
        self.secrets@.map_values(|s: Secret| s@)
    }

    /// The names stand in strictly ascending order.
    pub open spec fn wf(&self) -> bool {
        is_ascending(self.pairs())
    }

    /// The map without any secret.
    pub fn new() -> (r: SecretMap)
        ensures
            r.wf(),
            r.pairs() == Seq::<Pair>::empty(),
            r@ == Map::<Seq<char>, Seq<char>>::empty(),
    {
        let r = SecretMap { secrets: Vec::new() };
        assert(r.pairs() =~= Seq::<Pair>::empty());
        r
    }

    /// How many secrets there are.
    pub fn len(&self) -> (r: usize)
        requires
            self.wf(),
        ensures
            r == self.pairs().len(),
            r == self@.len(),
    {
        proof {
            lemma_map_of(self.pairs());
        }
        self.secrets.len()
    }

    /// Whether there is no secret.
    pub fn is_empty(&self) -> (r: bool)
        requires
            self.wf(),
        ensures
            r == (self@ == Map::<Seq<char>, Seq<char>>::empty()),
            r == (self.pairs().len() == 0),
    {
        proof {
            lemma_map_of(self.pairs());
            if self.pairs().len() > 0 {
                assert(self@.contains_key(self.pairs()[0].0));
            }
        }
        self.secrets.len() == 0
    }

    /// The secret at place `i` of the order.
    pub fn secret(&self, i: usize) -> (r: &Secret)
        requires
            i < self.pairs().len(),
        ensures
            r@ == self.pairs()[i as int],
    {
        &self.secrets[i]
    }

    /// The place of `name`, or else the place where it would stand.
    fn search(&self, name: &str) -> (r: Result<usize, usize>)
        requires
            self.wf(),
        ensures
            match r {
                Ok(i) => i < self.pairs().len() && self.pairs()[i as int].0 == name@,
                Err(i) => {
                    &&& i <= self.pairs().len()
                    &&& forall|j: int|
                        #![trigger self.pairs()[j]]
                        0 <= j < i ==> precedes(self.pairs()[j].0, name@)
                    &&& forall|j: int|
                        #![trigger self.pairs()[j]]
                        i <= j < self.pairs().len() ==> precedes(name@, self.pairs()[j].0)
                },
            },
    {
        let mut low: usize = 0;
        let mut high: usize = self.secrets.len();
        while low < high
            invariant
                self.wf(),
                low <= high <= self.pairs().len(),
                forall|j: int|
                    #![trigger self.pairs()[j]]
                    0 <= j < low ==> precedes(self.pairs()[j].0, name@),
                forall|j: int|
                    #![trigger self.pairs()[j]]
                    high <= j < self.pairs().len() ==> precedes(name@, self.pairs()[j].0),
            decreases high - low,
        {
            let mid: usize = low + (high - low) / 2;
            let ghost pairs = self.pairs();
            assert(pairs[mid as int] == self.secrets@[mid as int]@);
            match place(self.secrets[mid].name.as_str(), name) {
                Place::Same => {
                    return Ok(mid);
                },
                Place::Before => {
                    assert forall|j: int| #![trigger pairs[j]] 0 <= j < mid + 1 implies precedes(
                        pairs[j].0,
                        name@,
                    ) by {
                        law_order(pairs[j].0, pairs[mid as int].0, name@);
                    }
                    low = mid + 1;
                },
                Place::After => {
                    assert forall|j: int|
                        #![trigger pairs[j]]
                        mid <= j < pairs.len() implies precedes(name@, pairs[j].0) by {
                        law_order(name@, pairs[mid as int].0, pairs[j].0);
                    }
                    high = mid;
                },
            }
        }
        Err(low)
    }

    proof fn lemma_absent(&self, name: Seq<char>, i: int)
        requires
            self.wf(),
            0 <= i <= self.pairs().len(),
            forall|j: int|
                #![trigger self.pairs()[j]]
                0 <= j < i ==> precedes(self.pairs()[j].0, name),
            forall|j: int|
                #![trigger self.pairs()[j]]
                i <= j < self.pairs().len() ==> precedes(name, self.pairs()[j].0),
        ensures
            !self@.contains_key(name),
    {
        lemma_map_of(self.pairs());
        if self@.contains_key(name) {
            let j = choose|j: int| 0 <= j < self.pairs().len() && (#[trigger] self.pairs()[j]).0
                == name;
            law_order(name, name, name);
        }
    }

    /// The value of `name`.
    pub fn get(&self, name: &str) -> (r: Option<&String>)
        requires
            self.wf(),
        ensures
            match r {
                Some(v) => self@.contains_key(name@) && v@ == self@[name@],
                None => !self@.contains_key(name@),
            },
    {
        match self.search(name) {
            Ok(i) => {
                proof {
                    lemma_map_of(self.pairs());
                }
                Some(&self.secrets[i].value)
            },
            Err(i) => {
                proof {
                    self.lemma_absent(name@, i as int);
                }
                None
            },
        }
    }

    /// Whether `name` has a value.
    pub fn contains_key(&self, name: &str) -> (r: bool)
        requires
            self.wf(),
        ensures
            r == self@.contains_key(name@),
    {
        self.get(name).is_some()
    }

    /// Gives `name` the value `value`, in place of any that it had.
    pub fn insert(&mut self, name: String, value: String)
        requires
            old(self).wf(),
        ensures
            final(self).wf(),
            final(self)@ == old(self)@.insert(name@, value@),
    {
        let ghost before = self.pairs();
        let ghost pair = (name@, value@);
        let found = self.search(name.as_str());
        match found {
            Ok(i) => {
                self.secrets.set(i, Secret { name, value });
                proof {
                    let after = self.pairs();
                    assert(after =~= before.update(i as int, pair));
                    lemma_replaced(before, i as int, pair.1);
                }
            },
            Err(i) => {
                self.secrets.insert(i, Secret { name, value });
                proof {
                    let after = self.pairs();
                    assert(after =~= before.insert(i as int, pair));
                    lemma_inserted(before, i as int, pair);
                }
            },
        }
    }

    /// Takes `name` out, and gives back the value that it had.
    pub fn remove(&mut self, name: &str) -> (r: Option<String>)
        requires
            old(self).wf(),
        ensures
            final(self).wf(),
            final(self)@ == old(self)@.remove(name@),
            match r {
                Some(v) => old(self)@.contains_key(name@) && v@ == old(self)@[name@],
                None => !old(self)@.contains_key(name@),
            },
    {
        let ghost before = self.pairs();
        match self.search(name) {
            Ok(i) => {
                let gone = self.secrets.remove(i);
                proof {
                    let after = self.pairs();
                    assert(after =~= before.remove(i as int));
                    assert(gone@ == before[i as int]);
                    lemma_map_of(before);
                    lemma_removed(before, i as int);
                }
                Some(gone.value)
            },
            Err(i) => {
                proof {
                    self.lemma_absent(name@, i as int);
                    assert(self@.remove(name@) =~= self@);
                }
                None
            },
        }
    }
}

proof fn lemma_replaced(pairs: Seq<Pair>, i: int, value: Seq<char>)
    requires
        is_ascending(pairs),
        0 <= i < pairs.len(),
    ensures
        is_ascending(pairs.update(i, (pairs[i].0, value))),
        map_of(pairs.update(i, (pairs[i].0, value))) == map_of(pairs).insert(pairs[i].0, value),
{
    let after = pairs.update(i, (pairs[i].0, value));
    assert forall|j: int, k: int|
        #![trigger after[j], after[k]]
        0 <= j < k < after.len() implies precedes(after[j].0, after[k].0) by {
        assert(precedes(pairs[j].0, pairs[k].0));
    }
    lemma_same_contents(after, pairs, map_of(pairs).insert(pairs[i].0, value), i);
}

proof fn lemma_same_contents(
    after: Seq<Pair>,
    before: Seq<Pair>,
    m: Map<Seq<char>, Seq<char>>,
    i: int,
)
    requires
        is_ascending(after),
        is_ascending(before),
        0 <= i < before.len() == after.len(),
        after[i].0 == before[i].0,
        forall|j: int|
            #![trigger after[j]]
            0 <= j < after.len() && j != i ==> after[j] == before[j],
        m == map_of(before).insert(before[i].0, after[i].1),
    ensures
        map_of(after) == m,
{
    lemma_map_of(after);
    lemma_map_of(before);
    assert forall|k: Seq<char>|
        #![trigger map_of(after).dom().contains(k)]
        #![trigger m.dom().contains(k)]
        map_of(after).dom().contains(k) == m.dom().contains(k) && (map_of(after).dom().contains(k)
            ==> map_of(after)[k] == m[k]) by {
        if map_of(after).contains_key(k) {
            let j = choose|j: int| 0 <= j < after.len() && (#[trigger] after[j]).0 == k;
            assert(before[j].0 == k);
            if j != i {
                if j < i {
                    law_order(before[j].0, before[i].0, k);
                } else {
                    law_order(before[i].0, before[j].0, k);
                }
            }
        }
        if m.contains_key(k) && k != before[i].0 {
            let j = choose|j: int| 0 <= j < before.len() && (#[trigger] before[j]).0 == k;
            assert(after[j].0 == k);
        }
        if k == before[i].0 {
            assert(after[i].0 == k);
        }
    }
    assert(map_of(after) =~= m);
}

proof fn lemma_inserted(pairs: Seq<Pair>, i: int, pair: Pair)
    requires
        is_ascending(pairs),
        0 <= i <= pairs.len(),
        forall|j: int| #![trigger pairs[j]] 0 <= j < i ==> precedes(pairs[j].0, pair.0),
        forall|j: int| #![trigger pairs[j]] i <= j < pairs.len() ==> precedes(pair.0, pairs[j].0),
    ensures
        is_ascending(pairs.insert(i, pair)),
        map_of(pairs.insert(i, pair)) == map_of(pairs).insert(pair.0, pair.1),
{
    let after = pairs.insert(i, pair);
    let m = map_of(pairs).insert(pair.0, pair.1);
    assert forall|j: int, k: int|
        #![trigger after[j], after[k]]
        0 <= j < k < after.len() implies precedes(after[j].0, after[k].0) by {
        let p = if j < i { j } else { j - 1 };
        let q = if k < i { k } else { k - 1 };
        if j == i {
            assert(after[k] == pairs[q]);
        } else if k == i {
            assert(after[j] == pairs[p]);
        } else {
            assert(after[j] == pairs[p]);
            assert(after[k] == pairs[q]);
        }
    }
    lemma_map_of(after);
    lemma_map_of(pairs);
    assert forall|k: Seq<char>|
        #![trigger map_of(after).dom().contains(k)]
        #![trigger m.dom().contains(k)]
        map_of(after).dom().contains(k) == m.dom().contains(k) && (map_of(after).dom().contains(k)
            ==> map_of(after)[k] == m[k]) by {
        assert(after[i] == pair);
        if map_of(after).contains_key(k) && k != pair.0 {
            let j = choose|j: int| 0 <= j < after.len() && (#[trigger] after[j]).0 == k;
            let p = if j < i { j } else { j - 1 };
            assert(after[j] == pairs[p]);
        }
        if m.contains_key(k) && k != pair.0 {
            let p = choose|p: int| 0 <= p < pairs.len() && (#[trigger] pairs[p]).0 == k;
            let j = if p < i { p } else { p + 1 };
            assert(after[j] == pairs[p]);
        }
    }
    assert(map_of(after) =~= m);
}

proof fn lemma_removed(pairs: Seq<Pair>, i: int)
    requires
        is_ascending(pairs),
        0 <= i < pairs.len(),
    ensures
        is_ascending(pairs.remove(i)),
        map_of(pairs.remove(i)) == map_of(pairs).remove(pairs[i].0),
{
    let after = pairs.remove(i);
    let m = map_of(pairs).remove(pairs[i].0);
    assert forall|j: int, k: int|
        #![trigger after[j], after[k]]
        0 <= j < k < after.len() implies precedes(after[j].0, after[k].0) by {
        let p = if j < i { j } else { j + 1 };
        let q = if k < i { k } else { k + 1 };
        assert(precedes(pairs[p].0, pairs[q].0));
    }
    lemma_map_of(after);
    lemma_map_of(pairs);
    assert forall|k: Seq<char>|
        #![trigger map_of(after).dom().contains(k)]
        #![trigger m.dom().contains(k)]
        map_of(after).dom().contains(k) == m.dom().contains(k) && (map_of(after).dom().contains(k)
            ==> map_of(after)[k] == m[k]) by {
        if map_of(after).contains_key(k) {
            let j = choose|j: int| 0 <= j < after.len() && (#[trigger] after[j]).0 == k;
            let p = if j < i { j } else { j + 1 };
            assert(pairs[p].0 == k);
            law_order(pairs[p].0, pairs[i].0, k);
            law_order(pairs[i].0, pairs[p].0, k);
        }
        if m.contains_key(k) {
            let p = choose|p: int| 0 <= p < pairs.len() && (#[trigger] pairs[p]).0 == k;
            let j = if p < i { p } else { p - 1 };
            assert(after[j] == pairs[p]);
        }
    }
    assert(map_of(after) =~= m);
}

} // verus!
