//! A map with string keys, kept in key order.
use crate::text;
use vstd::prelude::*;

verus! {

/// The map that a sequence of pairs describes; of two pairs with one key the later counts.
pub open spec fn pairs_map<V>(pairs: Seq<(Seq<char>, V)>) -> Map<Seq<char>, V>
    decreases pairs.len(),
{
    if pairs.len() == 0 {
        Map::empty()
    } else {
        pairs_map(pairs.drop_last()).insert(pairs.last().0, pairs.last().1)
    }
}

/// The keys of the pairs increase strictly.
pub open spec fn increasing<V>(pairs: Seq<(Seq<char>, V)>) -> bool {
    forall|i: int, j: int|
        0 <= i < j < pairs.len() ==> text::text_less(#[trigger] pairs[i].0, #[trigger] pairs[j].0)
}

proof fn lemma_pairs_map_contains<V>(pairs: Seq<(Seq<char>, V)>, key: Seq<char>)
    ensures
        pairs_map(pairs).contains_key(key) <==> exists|i: int|
            0 <= i < pairs.len() && #[trigger] pairs[i].0 == key,
    decreases pairs.len(),
{
    if pairs.len() > 0 {
        let front = pairs.drop_last();
        lemma_pairs_map_contains(front, key);
        if pairs_map(pairs).contains_key(key) {
            if pairs.last().0 == key {
                assert(pairs[pairs.len() - 1].0 == key);
            } else {
                let i = choose|i: int| 0 <= i < front.len() && #[trigger] front[i].0 == key;
                assert(pairs[i].0 == key);
            }
        }
        if exists|i: int| 0 <= i < pairs.len() && #[trigger] pairs[i].0 == key {
            let i = choose|i: int| 0 <= i < pairs.len() && #[trigger] pairs[i].0 == key;
            if i < front.len() {
                assert(front[i].0 == key);
            }
        }
    }
}

proof fn lemma_pairs_map_value<V>(pairs: Seq<(Seq<char>, V)>, i: int)
    requires
        increasing(pairs),
        0 <= i < pairs.len(),
    ensures
        pairs_map(pairs).contains_key(pairs[i].0),
        pairs_map(pairs)[pairs[i].0] == pairs[i].1,
    decreases pairs.len(),
{
    lemma_pairs_map_contains(pairs, pairs[i].0);
    if i < pairs.len() - 1 {
        let front = pairs.drop_last();
        assert(increasing(front)) by {
            assert forall|a: int, b: int| 0 <= a < b < front.len() implies text::text_less(
                #[trigger] front[a].0,
                #[trigger] front[b].0,
            ) by {
                assert(front[a] == pairs[a] && front[b] == pairs[b]);
            }
        }
        lemma_pairs_map_value(front, i);
        assert(front[i] == pairs[i]);
        assert(text::text_less(pairs[i].0, pairs[pairs.len() - 1].0));
        text::text_order_total(pairs[i].0, pairs.last().0);
    }
}

proof fn lemma_front<V>(pairs: Seq<(Seq<char>, V)>)
    requires
        increasing(pairs),
        pairs.len() > 0,
    ensures
        increasing(pairs.drop_last()),
        !pairs_map(pairs.drop_last()).contains_key(pairs.last().0),
{
    let front = pairs.drop_last();
    let key = pairs.last().0;
    assert forall|i: int, j: int| 0 <= i < j < front.len() implies text::text_less(
        #[trigger] front[i].0,
        #[trigger] front[j].0,
    ) by {
        assert(text::text_less(pairs[i].0, pairs[j].0));
    }
    lemma_pairs_map_contains(front, key);
    if exists|k: int| 0 <= k < front.len() && #[trigger] front[k].0 == key {
        let k = choose|k: int| 0 <= k < front.len() && #[trigger] front[k].0 == key;
        assert(text::text_less(pairs[k].0, pairs[pairs.len() - 1].0));
        text::text_order_total(key, key);
    }
}

/// Two sequences of pairs in key order that describe one map are the same sequence.
pub proof fn ordered_pairs_are_unique<V>(a: Seq<(Seq<char>, V)>, b: Seq<(Seq<char>, V)>)
    requires
        increasing(a),
        increasing(b),
        pairs_map(a) == pairs_map(b),
    ensures
        a == b,
    decreases a.len(),
{
    if a.len() == 0 {
        if b.len() > 0 {
            lemma_pairs_map_value(b, 0);
        }
        assert(a =~= b);
    } else if b.len() == 0 {
        lemma_pairs_map_value(a, 0);
    } else {
        let x = a.last();
        let y = b.last();
        lemma_pairs_map_value(a, a.len() - 1);
        lemma_pairs_map_value(b, b.len() - 1);
        assert(x.0 == y.0) by {
            lemma_pairs_map_contains(b, x.0);
            lemma_pairs_map_contains(a, y.0);
            let i = choose|i: int| 0 <= i < b.len() && #[trigger] b[i].0 == x.0;
            let j = choose|j: int| 0 <= j < a.len() && #[trigger] a[j].0 == y.0;
            if x.0 != y.0 {
                assert(text::text_less(b[i].0, b[b.len() - 1].0));
                assert(text::text_less(a[j].0, a[a.len() - 1].0));
                text::text_order_total(x.0, y.0);
            }
        }
        let fa = a.drop_last();
        let fb = b.drop_last();
        lemma_front(a);
        lemma_front(b);
        assert(pairs_map(a).remove(x.0) =~= pairs_map(fa));
        assert(pairs_map(b).remove(x.0) =~= pairs_map(fb));
        ordered_pairs_are_unique(fa, fb);
        assert(a =~= fa.push(x));
        assert(b =~= fb.push(y));
    }
}

/// The pairs of a finite map in key order.
pub open spec fn sorted_pairs<V>(map: Map<Seq<char>, V>) -> Seq<(Seq<char>, V)> {
    choose|pairs: Seq<(Seq<char>, V)>| increasing(pairs) && #[trigger] pairs_map(pairs) == map
}

proof fn lemma_pairs_map_insert<V>(pairs: Seq<(Seq<char>, V)>, i: int, key: Seq<char>, value: V)
    requires
        0 <= i <= pairs.len(),
        increasing(pairs),
        forall|k: int| 0 <= k < i ==> text::text_less(#[trigger] pairs[k].0, key),
        forall|k: int| i <= k < pairs.len() ==> text::text_less(key, #[trigger] pairs[k].0),
    ensures
        increasing(pairs.insert(i, (key, value))),
        pairs_map(pairs.insert(i, (key, value))) == pairs_map(pairs).insert(key, value),
{
    let result = pairs.insert(i, (key, value));
    assert forall|a: int, b: int| 0 <= a < b < result.len() implies text::text_less(
        #[trigger] result[a].0,
        #[trigger] result[b].0,
    ) by {
        let a0 = if a < i {
            a
        } else {
            a - 1
        };
        let b0 = if b < i {
            b
        } else {
            b - 1
        };
        if a != i && b != i {
            assert(text::text_less(pairs[a0].0, pairs[b0].0));
        } else if a == i {
            assert(text::text_less(key, pairs[b0].0));
        } else {
            assert(text::text_less(pairs[a0].0, key));
        }
    }
    assert forall|k: Seq<char>| pairs_map(result).contains_key(k) == pairs_map(pairs).insert(
        key,
        value,
    ).contains_key(k) by {
        lemma_pairs_map_contains(result, k);
        lemma_pairs_map_contains(pairs, k);
        if exists|n: int| 0 <= n < result.len() && #[trigger] result[n].0 == k {
            let n = choose|n: int| 0 <= n < result.len() && #[trigger] result[n].0 == k;
            if n < i {
                assert(pairs[n].0 == k);
            } else if n > i {
                assert(pairs[n - 1].0 == k);
            }
        }
        if exists|n: int| 0 <= n < pairs.len() && #[trigger] pairs[n].0 == k {
            let n = choose|n: int| 0 <= n < pairs.len() && #[trigger] pairs[n].0 == k;
            if n < i {
                assert(result[n].0 == k);
            } else {
                assert(result[n + 1].0 == k);
            }
        }
        if k == key {
            assert(result[i].0 == key);
        }
    }
    assert forall|k: Seq<char>| pairs_map(result).contains_key(k) implies pairs_map(result)[k]
        == pairs_map(pairs).insert(key, value)[k] by {
        lemma_pairs_map_contains(result, k);
        let n = choose|n: int| 0 <= n < result.len() && #[trigger] result[n].0 == k;
        lemma_pairs_map_value(result, n);
        text::text_order_total(k, key);
        if n < i {
            lemma_pairs_map_value(pairs, n);
            assert(text::text_less(pairs[n].0, key));
        } else if n > i {
            lemma_pairs_map_value(pairs, n - 1);
            assert(text::text_less(key, pairs[n - 1].0));
        }
    }
    assert(pairs_map(result) =~= pairs_map(pairs).insert(key, value));
}

/// Where a key that is not among the keys of ordered pairs belongs.
proof fn lemma_place<V>(pairs: Seq<(Seq<char>, V)>, key: Seq<char>) -> (i: int)
    requires
        increasing(pairs),
        !pairs_map(pairs).contains_key(key),
    ensures
        0 <= i <= pairs.len(),
        forall|k: int| 0 <= k < i ==> text::text_less(#[trigger] pairs[k].0, key),
        forall|k: int| i <= k < pairs.len() ==> text::text_less(key, #[trigger] pairs[k].0),
    decreases pairs.len(),
{
    if pairs.len() == 0 {
        0
    } else {
        let n = pairs.len() - 1;
        let last = pairs[n].0;
        lemma_pairs_map_contains(pairs, key);
        assert(last != key);
        text::text_order_total(last, key);
        if text::text_less(last, key) {
            assert forall|k: int| 0 <= k < pairs.len() implies text::text_less(
                #[trigger] pairs[k].0,
                key,
            ) by {
                if k < n {
                    text::text_order_transitive(pairs[k].0, last, key);
                }
            }
            pairs.len() as int
        } else {
            let front = pairs.drop_last();
            lemma_front(pairs);
            let i = lemma_place(front, key);
            assert forall|k: int| 0 <= k < i implies text::text_less(
                #[trigger] pairs[k].0,
                key,
            ) by {
                assert(front[k] == pairs[k]);
            }
            assert forall|k: int| i <= k < pairs.len() implies text::text_less(
                key,
                #[trigger] pairs[k].0,
            ) by {
                if k < n {
                    assert(front[k] == pairs[k]);
                }
            }
            i
        }
    }
}

proof fn lemma_sorted_pairs_exist<V>(map: Map<Seq<char>, V>) -> (pairs: Seq<(Seq<char>, V)>)
    requires
        map.dom().finite(),
    ensures
        increasing(pairs),
        pairs_map(pairs) == map,
    decreases map.dom().len(),
{
    if map.dom().len() == 0 {
        let pairs = Seq::<(Seq<char>, V)>::empty();
        assert(map.dom() =~= Set::empty());
        assert(pairs_map(pairs) =~= map);
        pairs
    } else {
        let key = map.dom().choose();
        let rest = map.remove(key);
        assert(rest.dom() =~= map.dom().remove(key));
        let front = lemma_sorted_pairs_exist(rest);
        let i = lemma_place(front, key);
        lemma_pairs_map_insert(front, i, key, map[key]);
        assert(rest.insert(key, map[key]) =~= map);
        front.insert(i, (key, map[key]))
    }
}

/// The pairs of a finite map in key order are those of the map: they stand in key order, each
/// holds a key with its value, and each key has its pair.
pub proof fn sorted_pairs_describe_their_map<V>(map: Map<Seq<char>, V>)
    requires
        map.dom().finite(),
    ensures
        increasing(sorted_pairs(map)),
        pairs_map(sorted_pairs(map)) == map,
        forall|i: int|
            0 <= i < sorted_pairs(map).len() ==> map.contains_key(
                (#[trigger] sorted_pairs(map)[i]).0,
            ) && map[sorted_pairs(map)[i].0] == sorted_pairs(map)[i].1,
        forall|key: Seq<char>| #[trigger]
            map.contains_key(key) ==> exists|i: int|
                0 <= i < sorted_pairs(map).len() && (#[trigger] sorted_pairs(map)[i]).0 == key,
{
    let pairs = lemma_sorted_pairs_exist(map);
    assert(increasing(pairs) && pairs_map(pairs) == map);
    let sorted = sorted_pairs(map);
    assert forall|i: int| 0 <= i < sorted.len() implies map.contains_key((#[trigger] sorted[i]).0)
        && map[sorted[i].0] == sorted[i].1 by {
        lemma_pairs_map_value(sorted, i);
    }
    assert forall|key: Seq<char>| #[trigger] map.contains_key(key) implies exists|i: int|
        0 <= i < sorted.len() && (#[trigger] sorted[i]).0 == key by {
        lemma_pairs_map_contains(sorted, key);
    }
}

proof fn lemma_pairs_map_update<V>(pairs: Seq<(Seq<char>, V)>, i: int, value: V)
    requires
        0 <= i < pairs.len(),
        increasing(pairs),
    ensures
        increasing(pairs.update(i, (pairs[i].0, value))),
        pairs_map(pairs.update(i, (pairs[i].0, value))) == pairs_map(pairs).insert(
            pairs[i].0,
            value,
        ),
{
    let key = pairs[i].0;
    let result = pairs.update(i, (key, value));
    assert forall|a: int, b: int| 0 <= a < b < result.len() implies text::text_less(
        #[trigger] result[a].0,
        #[trigger] result[b].0,
    ) by {
        assert(text::text_less(pairs[a].0, pairs[b].0));
    }
    assert forall|k: Seq<char>| pairs_map(result).contains_key(k) == pairs_map(pairs).insert(
        key,
        value,
    ).contains_key(k) by {
        lemma_pairs_map_contains(result, k);
        lemma_pairs_map_contains(pairs, k);
        assert(pairs[i].0 == key);
        if exists|n: int| 0 <= n < result.len() && #[trigger] result[n].0 == k {
            let n = choose|n: int| 0 <= n < result.len() && #[trigger] result[n].0 == k;
            assert(pairs[n].0 == k);
        }
        if exists|n: int| 0 <= n < pairs.len() && #[trigger] pairs[n].0 == k {
            let n = choose|n: int| 0 <= n < pairs.len() && #[trigger] pairs[n].0 == k;
            assert(result[n].0 == k);
        }
    }
    assert forall|k: Seq<char>| pairs_map(result).contains_key(k) implies pairs_map(result)[k]
        == pairs_map(pairs).insert(key, value)[k] by {
        lemma_pairs_map_contains(result, k);
        let n = choose|n: int| 0 <= n < result.len() && #[trigger] result[n].0 == k;
        lemma_pairs_map_value(result, n);
        lemma_pairs_map_value(pairs, n);
        if n != i {
            text::text_order_total(k, key);
            if n < i {
                assert(text::text_less(pairs[n].0, pairs[i].0));
            } else {
                assert(text::text_less(pairs[i].0, pairs[n].0));
            }
        }
    }
    assert(pairs_map(result) =~= pairs_map(pairs).insert(key, value));
}

proof fn lemma_pairs_map_remove<V>(pairs: Seq<(Seq<char>, V)>, i: int)
    requires
        0 <= i < pairs.len(),
        increasing(pairs),
    ensures
        increasing(pairs.remove(i)),
        pairs_map(pairs.remove(i)) == pairs_map(pairs).remove(pairs[i].0),
{
    let key = pairs[i].0;
    let result = pairs.remove(i);
    assert forall|a: int, b: int| 0 <= a < b < result.len() implies text::text_less(
        #[trigger] result[a].0,
        #[trigger] result[b].0,
    ) by {
        let a0 = if a < i {
            a
        } else {
            a + 1
        };
        let b0 = if b < i {
            b
        } else {
            b + 1
        };
        assert(text::text_less(pairs[a0].0, pairs[b0].0));
    }
    assert forall|k: Seq<char>| pairs_map(result).contains_key(k) == pairs_map(pairs).remove(
        key,
    ).contains_key(k) by {
        lemma_pairs_map_contains(result, k);
        lemma_pairs_map_contains(pairs, k);
        text::text_order_total(k, key);
        if exists|n: int| 0 <= n < result.len() && #[trigger] result[n].0 == k {
            let n = choose|n: int| 0 <= n < result.len() && #[trigger] result[n].0 == k;
            if n < i {
                assert(pairs[n].0 == k);
                assert(text::text_less(pairs[n].0, pairs[i].0));
            } else {
                assert(pairs[n + 1].0 == k);
                assert(text::text_less(pairs[i].0, pairs[n + 1].0));
            }
        }
        if k != key && exists|n: int| 0 <= n < pairs.len() && #[trigger] pairs[n].0 == k {
            let n = choose|n: int| 0 <= n < pairs.len() && #[trigger] pairs[n].0 == k;
            if n < i {
                assert(result[n].0 == k);
            } else {
                assert(result[n - 1].0 == k);
            }
        }
    }
    assert forall|k: Seq<char>| pairs_map(result).contains_key(k) implies pairs_map(result)[k]
        == pairs_map(pairs).remove(key)[k] by {
        lemma_pairs_map_contains(result, k);
        let n = choose|n: int| 0 <= n < result.len() && #[trigger] result[n].0 == k;
        lemma_pairs_map_value(result, n);
        if n < i {
            lemma_pairs_map_value(pairs, n);
        } else {
            lemma_pairs_map_value(pairs, n + 1);
        }
    }
    assert(pairs_map(result) =~= pairs_map(pairs).remove(key));
}

/// The pairs of a vector of strings and values.
pub open spec fn pairs_of<V: View>(entries: Seq<(String, V)>) -> Seq<(Seq<char>, V::V)> {
    Seq::new(entries.len(), |i: int| (entries[i].0@, entries[i].1@))
}

/// A map from strings to values, ordered by key.
#[derive(Debug, PartialEq, Eq)]
pub struct TextMap<V> {
    entries: Vec<(String, V)>,
}

impl<V> TextMap<V> {
    #[verifier::type_invariant]
    spec fn keys_increase(self) -> bool {
        sorted_entries(self.entries@)
    }
}

spec fn sorted_entries<V>(entries: Seq<(String, V)>) -> bool {
    forall|i: int, j: int|
        0 <= i < j < entries.len() ==> text::text_less(
            #[trigger] entries[i].0@,
            #[trigger] entries[j].0@,
        )
}

proof fn lemma_sorted_entries<V: View>(entries: Seq<(String, V)>)
    ensures
        sorted_entries(entries) <==> increasing(pairs_of(entries)),
{
    let pairs = pairs_of(entries);
    if increasing(pairs) {
        assert forall|i: int, j: int| 0 <= i < j < entries.len() implies text::text_less(
            #[trigger] entries[i].0@,
            #[trigger] entries[j].0@,
        ) by {
            assert(text::text_less(pairs[i].0, pairs[j].0));
        }
    }
}

/// The headers of an HTTP message, under their lower-case names.
pub type Headers = TextMap<String>;

impl<V: View> View for TextMap<V> {
    type V = Map<Seq<char>, V::V>;

    open spec fn view(&self) -> Map<Seq<char>, V::V> {
        pairs_map(self.pairs())
    }
}

impl<V: View> TextMap<V> {
    /// The pairs of the map in key order.
    pub closed spec fn pairs(&self) -> Seq<(Seq<char>, V::V)> {
        pairs_of(self.entries@)
    }

    /// The empty map.
    pub fn new() -> (r: Self)
        ensures
            r@ == Map::<Seq<char>, V::V>::empty(),
    {
        let r = TextMap { entries: Vec::new() };
        assert(r.pairs() =~= Seq::empty());
        r
    }

    /// The number of keys.
    pub fn len(&self) -> (r: usize)
        ensures
            r == self.pairs().len(),
            increasing(self.pairs()),
            self.pairs() == sorted_pairs(self@),
    {
        proof {
            use_type_invariant(self);
            lemma_sorted_entries(self.entries@);
            ordered_pairs_are_unique(self.pairs(), sorted_pairs(self@));
        }
        self.entries.len()
    }

    /// Tells whether the map has no key.
    pub fn is_empty(&self) -> (r: bool)
        ensures
            r == (self@ == Map::<Seq<char>, V::V>::empty()),
    {
        let r = self.entries.len() == 0;
        proof {
            use_type_invariant(self);
            lemma_sorted_entries(self.entries@);
            if r {
                assert(self.pairs() =~= Seq::empty());
            } else {
                lemma_pairs_map_value(self.pairs(), 0);
                assert(self@.contains_key(self.pairs()[0].0));
            }
        }
        r
    }

    /// The key at a position in key order.
    pub fn key_at(&self, i: usize) -> (r: &str)
        requires
            i < self.pairs().len(),
        ensures
            r@ == self.pairs()[i as int].0,
    {
        self.entries[i].0.as_str()
    }

    /// The value at a position in key order.
    pub fn value_at(&self, i: usize) -> (r: &V)
        requires
            i < self.pairs().len(),
        ensures
            r@ == self.pairs()[i as int].1,
    {
        &self.entries[i].1
    }

    /// Where a key stands, or else where it would stand.
    fn position(entries: &Vec<(String, V)>, key: &str) -> (r: Result<usize, usize>)
        requires
            sorted_entries(entries@),
        ensures
            match r {
                Ok(i) => i < entries@.len() && pairs_of(entries@)[i as int].0 == key@,
                Err(i) => {
                    &&& i <= entries@.len()
                    &&& forall|k: int|
                        0 <= k < i ==> text::text_less(#[trigger] pairs_of(entries@)[k].0, key@)
                    &&& forall|k: int|
                        i <= k < entries@.len() ==> text::text_less(
                            key@,
                            #[trigger] pairs_of(entries@)[k].0,
                        )
                },
            },
    {
        let mut low: usize = 0;
        let mut high: usize = entries.len();
        let ghost pairs = pairs_of(entries@);
        proof {
            lemma_sorted_entries(entries@);
        }
        while low < high
            invariant
                pairs == pairs_of(entries@),
                increasing(pairs),
                low <= high <= entries@.len(),
                forall|k: int| 0 <= k < low ==> text::text_less(#[trigger] pairs[k].0, key@),
                forall|k: int|
                    high <= k < entries@.len() ==> text::text_less(key@, #[trigger] pairs[k].0),
            decreases high - low,
        {
            let middle: usize = low + (high - low) / 2;
            assert(pairs[middle as int].0 == entries@[middle as int].0@);
            if text::text_eq(entries[middle].0.as_str(), key) {
                return Ok(middle);
            }
            if text::text_before(entries[middle].0.as_str(), key) {
                proof {
                    assert forall|k: int| 0 <= k < middle + 1 implies text::text_less(
                        #[trigger] pairs[k].0,
                        key@,
                    ) by {
                        if k < middle {
                            assert(text::text_less(pairs[k].0, pairs[middle as int].0));
                            text::text_order_transitive(pairs[k].0, pairs[middle as int].0, key@);
                        }
                    }
                }
                low = middle + 1;
            } else {
                proof {
                    text::text_order_total(pairs[middle as int].0, key@);
                    assert forall|k: int| middle <= k < entries@.len() implies text::text_less(
                        key@,
                        #[trigger] pairs[k].0,
                    ) by {
                        if k > middle {
                            assert(text::text_less(pairs[middle as int].0, pairs[k].0));
                            text::text_order_transitive(key@, pairs[middle as int].0, pairs[k].0);
                        }
                    }
                }
                high = middle;
            }
        }
        Err(low)
    }

    /// The value of a key.
    pub fn get(&self, key: &str) -> (r: Option<&V>)
        ensures
            match r {
                Some(v) => self@.contains_key(key@) && self@[key@] == v@,
                None => !self@.contains_key(key@),
            },
    {
        proof {
            use_type_invariant(self);
            lemma_sorted_entries(self.entries@);
        }
        match Self::position(&self.entries, key) {
            Ok(i) => {
                proof {
                    lemma_pairs_map_value(self.pairs(), i as int);
                }
                Some(&self.entries[i].1)
            },
            Err(i) => {
                proof {
                    lemma_pairs_map_contains(self.pairs(), key@);
                    assert forall|k: int| 0 <= k < self.pairs().len() implies #[trigger] self.pairs()[k].0
                        != key@ by {
                        text::text_order_total(self.pairs()[k].0, key@);
                    }
                }
                None
            },
        }
    }

    /// Tells whether a key is present.
    pub fn contains_key(&self, key: &str) -> (r: bool)
        ensures
            r == self@.contains_key(key@),
    {
        match self.get(key) {
            Some(_) => true,
            None => false,
        }
    }

    /// Gives a key a value, in place of the one that it had.
    pub fn insert(&mut self, key: String, value: V)
        ensures
            final(self)@ == old(self)@.insert(key@, value@),
    {
        proof {
            use_type_invariant(&*self);
            lemma_sorted_entries(self.entries@);
        }
        let mut entries: Vec<(String, V)> = Vec::new();
        std::mem::swap(&mut self.entries, &mut entries);
        let ghost before = entries@;
        let ghost value_view = value@;
        match Self::position(&entries, key.as_str()) {
            Ok(i) => {
                proof {
                    lemma_pairs_map_update(pairs_of(before), i as int, value@);
                }
                entries[i] = (key, value);
                assert(pairs_of(entries@) =~= pairs_of(before).update(
                    i as int,
                    (pairs_of(before)[i as int].0, value_view),
                ));
            },
            Err(i) => {
                proof {
                    lemma_pairs_map_insert(pairs_of(before), i as int, key@, value@);
                }
                let ghost key_view = key@;
                entries.insert(i, (key, value));
                assert(pairs_of(entries@) =~= pairs_of(before).insert(
                    i as int,
                    (key_view, value_view),
                ));
            },
        }
        proof {
            lemma_sorted_entries(entries@);
        }
        self.entries = entries;
    }

    /// Removes a key, and gives back the value that it had.
    pub fn remove(&mut self, key: &str) -> (r: Option<V>)
        ensures
            final(self)@ == old(self)@.remove(key@),
            match r {
                Some(v) => old(self)@.contains_key(key@) && old(self)@[key@] == v@,
                None => !old(self)@.contains_key(key@),
            },
    {
        proof {
            use_type_invariant(&*self);
            lemma_sorted_entries(self.entries@);
        }
        let mut entries: Vec<(String, V)> = Vec::new();
        std::mem::swap(&mut self.entries, &mut entries);
        let ghost before = pairs_of(entries@);
        match Self::position(&entries, key) {
            Ok(i) => {
                proof {
                    lemma_pairs_map_remove(before, i as int);
                    lemma_pairs_map_value(before, i as int);
                }
                let (_, value) = entries.remove(i);
                assert(pairs_of(entries@) =~= before.remove(i as int));
                proof {
                    lemma_sorted_entries(entries@);
                }
                self.entries = entries;
                Some(value)
            },
            Err(i) => {
                proof {
                    lemma_pairs_map_contains(before, key@);
                    assert forall|k: int| 0 <= k < before.len() implies #[trigger] before[k].0
                        != key@ by {
                        text::text_order_total(before[k].0, key@);
                    }
                    assert(pairs_map(before).remove(key@) =~= pairs_map(before));
                }
                self.entries = entries;
                None
            },
        }
    }

    /// The map of the given pairs; of two pairs with one key the later counts.
    pub fn from_pairs(pairs: Vec<(String, V)>) -> (r: Self)
        ensures
            r@ == pairs_map(pairs_of(pairs@)),
    {
        let mut r = TextMap::new();
        let mut rest = pairs;
        let ghost all = pairs_of(pairs@);
        let mut reversed: Vec<(String, V)> = Vec::new();
        assert(all =~= pairs_of(rest@) + pairs_of(reversed@).reverse());
        loop
            invariant
                all == pairs_of(rest@) + pairs_of(reversed@).reverse(),
            ensures
                rest@.len() == 0,
            decreases rest@.len(),
        {
            let ghost r0 = rest@;
            let ghost v0 = reversed@;
            match rest.pop() {
                Some(pair) => {
                    reversed.push(pair);
                    assert(pairs_of(r0) + pairs_of(v0).reverse() =~= pairs_of(rest@) + pairs_of(
                        reversed@,
                    ).reverse());
                },
                None => {
                    break;
                },
            }
        }
        assert(all =~= pairs_of(reversed@).reverse());
        let ghost mut done: int = 0;
        assert(all.take(0) =~= Seq::empty());
        loop
            invariant
                0 <= done <= all.len(),
                pairs_of(reversed@).reverse() == all.skip(done),
                r@ == pairs_map(all.take(done)),
            ensures
                done == all.len(),
            decreases reversed@.len(),
        {
            let ghost v0 = pairs_of(reversed@);
            assert(v0.reverse() == all.skip(done));
            match reversed.pop() {
                Some((key, value)) => {
                    proof {
                        assert(v0.reverse().len() == v0.len());
                        assert(all.skip(done).len() == all.len() - done);
                        assert(v0.reverse()[0] == v0.last());
                        assert(all.skip(done)[0] == all[done]);
                        assert(all.take(done + 1).drop_last() =~= all.take(done));
                        assert(pairs_of(reversed@) =~= v0.drop_last());
                        assert(pairs_of(reversed@).reverse() =~= all.skip(done + 1)) by {
                            assert(v0.reverse().skip(1) =~= v0.drop_last().reverse());
                            assert(all.skip(done).skip(1) =~= all.skip(done + 1));
                        }
                        done = done + 1;
                    }
                    r.insert(key, value);
                },
                None => {
                    assert(v0.reverse().len() == 0);
                    assert(all.skip(done).len() == 0);
                    break;
                },
            }
        }
        assert(all.take(done) =~= all);
        r
    }
}

impl Clone for TextMap<String> {
    fn clone(&self) -> (r: Self)
        ensures
            r@ == self@,
            r.pairs() == self.pairs(),
    {
        proof {
            use_type_invariant(self);
        }
        let mut entries: Vec<(String, String)> = Vec::new();
        let mut i: usize = 0;
        while i < self.entries.len()
            invariant
                i <= self.entries@.len(),
                entries@ =~= self.entries@.take(i as int),
            decreases self.entries@.len() - i,
        {
            entries.push((self.entries[i].0.clone(), self.entries[i].1.clone()));
            i += 1;
        }
        assert(entries@ =~= self.entries@);
        TextMap { entries }
    }
}

impl Clone for TextMap<bool> {
    fn clone(&self) -> (r: Self)
        ensures
            r@ == self@,
            r.pairs() == self.pairs(),
    {
        proof {
            use_type_invariant(self);
        }
        let mut entries: Vec<(String, bool)> = Vec::new();
        let mut i: usize = 0;
        while i < self.entries.len()
            invariant
                i <= self.entries@.len(),
                entries@ =~= self.entries@.take(i as int),
            decreases self.entries@.len() - i,
        {
            entries.push((self.entries[i].0.clone(), self.entries[i].1));
            i += 1;
        }
        assert(entries@ =~= self.entries@);
        TextMap { entries }
    }
}

} // verus!
