//! A map whose keys are texts.
use vstd::prelude::*;

use crate::text::same_text;

verus! {

/// `pairs` holds the key `key` at position `i`.
pub open spec fn key_at<T>(pairs: Seq<(String, T)>, key: Seq<char>, i: int) -> bool {
    0 <= i < pairs.len() && pairs[i].0@ == key
}

/// `pairs` holds the key `key` somewhere.
pub open spec fn has_key<T>(pairs: Seq<(String, T)>, key: Seq<char>) -> bool {
    exists|i: int| key_at(pairs, key, i)
}

/// A position at which `pairs` holds the key `key`.
pub open spec fn key_index<T>(pairs: Seq<(String, T)>, key: Seq<char>) -> int {
    choose|i: int| key_at(pairs, key, i)
}

/// No key occurs twice.
pub open spec fn distinct_keys<T>(pairs: Seq<(String, T)>) -> bool {
    forall|i: int, j: int|
        0 <= i < pairs.len() && 0 <= j < pairs.len() && i != j ==> #[trigger] pairs[i].0@
            != #[trigger] pairs[j].0@
}

/// The map that `pairs` lists.
pub open spec fn map_of<T>(pairs: Seq<(String, T)>) -> Map<Seq<char>, T> {
    Map::new(|key: Seq<char>| has_key(pairs, key), |key: Seq<char>| pairs[key_index(pairs, key)].1)
}

/// A map from texts to values. Its pairs stand in the order in which their keys
/// were last set.
#[verifier::reject_recursive_types(T)]
#[derive(Debug)]
pub struct TextMap<T> {
    pairs: Vec<(String, T)>,
}

impl<T> View for TextMap<T> {
    type V = Map<Seq<char>, T>;

    open spec fn view(&self) -> Map<Seq<char>, T> {
        map_of(self.listed())
    }
}

impl<T: DeepView> DeepView for TextMap<T> {
    type V = Map<Seq<char>, T::V>;

    open spec fn deep_view(&self) -> Map<Seq<char>, T::V> {
        Map::new(|key: Seq<char>| self@.contains_key(key), |key: Seq<char>| self@[key].deep_view())
    }
}

pub proof fn lemma_key_index<T>(pairs: Seq<(String, T)>, i: int)
    requires
        distinct_keys(pairs),
        0 <= i < pairs.len(),
    ensures
        map_of(pairs).contains_key(pairs[i].0@),
        map_of(pairs)[pairs[i].0@] == pairs[i].1,
        key_index(pairs, pairs[i].0@) == i,
{
    assert(key_at(pairs, pairs[i].0@, i));
}

proof fn lemma_map_push<T>(pairs: Seq<(String, T)>, k: String, v: T)
    requires
        distinct_keys(pairs),
        !has_key(pairs, k@),
    ensures
        distinct_keys(pairs.push((k, v))),
        map_of(pairs.push((k, v))) == map_of(pairs).insert(k@, v),
{
    let more = pairs.push((k, v));
    assert forall|i: int, j: int|
        0 <= i < more.len() && 0 <= j < more.len() && i != j implies #[trigger] more[i].0@
        != #[trigger] more[j].0@ by {
        if i == pairs.len() {
            assert(!key_at(pairs, k@, j));
        } else if j == pairs.len() {
            assert(!key_at(pairs, k@, i));
        } else {
            assert(pairs[i].0@ != pairs[j].0@);
        }
    }
    assert forall|key: Seq<char>| has_key(more, key) == (has_key(pairs, key) || key == k@) by {
        if has_key(pairs, key) {
            assert(key_at(more, key, key_index(pairs, key)));
        }
        if key == k@ {
            assert(key_at(more, key, pairs.len() as int));
        }
        if has_key(more, key) {
            let i = key_index(more, key);
            if i < pairs.len() {
                assert(key_at(pairs, key, i));
            }
        }
    }
    assert forall|key: Seq<char>| #[trigger] has_key(more, key) implies map_of(more)[key] == map_of(
        pairs,
    ).insert(k@, v)[key] by {
        let i = key_index(more, key);
        assert(key_at(more, key, i));
        if i < pairs.len() {
            assert(key_at(pairs, key, i));
            lemma_key_index(pairs, i);
        }
    }
    assert(map_of(more) =~= map_of(pairs).insert(k@, v));
}

proof fn lemma_map_size<T>(pairs: Seq<(String, T)>)
    requires
        distinct_keys(pairs),
    ensures
        map_of(pairs).dom().finite(),
        map_of(pairs).dom().len() == pairs.len(),
    decreases pairs.len(),
{
    if pairs.len() == 0 {
        assert(map_of(pairs).dom() =~= Set::empty());
    } else {
        let front = pairs.drop_last();
        let (k, v) = pairs.last();
        assert(front.push((k, v)) =~= pairs);
        assert forall|i: int, j: int|
            0 <= i < front.len() && 0 <= j < front.len() && i != j implies #[trigger] front[i].0@
            != #[trigger] front[j].0@ by {
            assert(pairs[i].0@ != pairs[j].0@);
        }
        assert(!has_key(front, k@)) by {
            if has_key(front, k@) {
                let i = key_index(front, k@);
                assert(pairs[i].0@ != pairs[pairs.len() - 1].0@);
            }
        }
        lemma_map_size(front);
        lemma_map_push(front, k, v);
        assert(map_of(pairs).dom() =~= map_of(front).dom().insert(k@));
    }
}

/// The map that the first pairs list grows with each pair.
pub proof fn lemma_map_take<T>(pairs: Seq<(String, T)>, i: int)
    requires
        distinct_keys(pairs),
        0 <= i < pairs.len(),
    ensures
        map_of(pairs.take(i + 1)) == map_of(pairs.take(i)).insert(pairs[i].0@, pairs[i].1),
        !map_of(pairs.take(i)).contains_key(pairs[i].0@),
{
    let before = pairs.take(i);
    let k = pairs[i].0@;
    assert(pairs.take(i + 1) =~= before.push(pairs[i]));
    assert(distinct_keys(before));
    assert(!has_key(before, k)) by {
        if has_key(before, k) {
            let j = key_index(before, k);
            assert(key_at(before, k, j));
            assert(pairs[j].0@ == pairs[i].0@);
        }
    }
    lemma_map_push(before, pairs[i].0, pairs[i].1);
}

proof fn lemma_map_remove<T>(pairs: Seq<(String, T)>, at: int)
    requires
        distinct_keys(pairs),
        0 <= at < pairs.len(),
    ensures
        distinct_keys(pairs.remove(at)),
        map_of(pairs.remove(at)) == map_of(pairs).remove(pairs[at].0@),
        !has_key(pairs.remove(at), pairs[at].0@),
{
    let fewer = pairs.remove(at);
    let gone = pairs[at].0@;
    assert forall|i: int, j: int|
        0 <= i < fewer.len() && 0 <= j < fewer.len() && i != j implies #[trigger] fewer[i].0@
        != #[trigger] fewer[j].0@ by {
        let a = if i < at { i } else { i + 1 };
        let b = if j < at { j } else { j + 1 };
        assert(pairs[a].0@ != pairs[b].0@);
    }
    assert forall|key: Seq<char>| has_key(fewer, key) == (has_key(pairs, key) && key != gone) by {
        if has_key(fewer, key) {
            let i = key_index(fewer, key);
            let a = if i < at { i } else { i + 1 };
            assert(key_at(pairs, key, a));
            assert(pairs[a].0@ != pairs[at].0@);
        }
        if has_key(pairs, key) && key != gone {
            let a = key_index(pairs, key);
            let i = if a < at { a } else { a - 1 };
            assert(key_at(fewer, key, i));
        }
    }
    assert forall|key: Seq<char>| #[trigger] has_key(fewer, key) implies map_of(fewer)[key]
        == map_of(pairs)[key] by {
        let i = key_index(fewer, key);
        assert(key_at(fewer, key, i));
        let a = if i < at { i } else { i + 1 };
        lemma_key_index(pairs, a);
    }
    assert(map_of(fewer) =~= map_of(pairs).remove(gone));
}

impl<T> TextMap<T> {
    /// The pairs of the map, in the order in which their keys were last set.
    pub closed spec fn listed(self) -> Seq<(String, T)> {
        self.pairs@
    }

    /// No key is listed twice.
    #[verifier::type_invariant]
    pub open spec fn normal(self) -> bool {
        distinct_keys(self.listed())
    }

    /// The map without keys.
    pub fn new() -> (r: TextMap<T>)
        ensures
            r@ == Map::<Seq<char>, T>::empty(),
            r.listed() == Seq::<(String, T)>::empty(),
    {
        let r = TextMap { pairs: Vec::new() };
        assert(r@ =~= Map::<Seq<char>, T>::empty());
        r
    }

    /// The number of keys.
    pub fn len(&self) -> (r: usize)
        ensures
            self@.dom().finite(),
            r == self@.dom().len(),
            r == self.listed().len(),
    {
        proof {
            use_type_invariant(self);
            lemma_map_size(self.pairs@);
        }
        self.pairs.len()
    }

    /// The pairs of the map, in the order in which their keys were last set.
    pub fn pairs(&self) -> (r: &Vec<(String, T)>)
        ensures
            r@ == self.listed(),
    {
        &self.pairs
    }

    /// The position of `key` among the pairs.
    fn position(&self, key: &str) -> (r: Option<usize>)
        ensures
            match r {
                Some(i) => key_at(self.listed(), key@, i as int),
                None => !has_key(self.listed(), key@),
            },
    {
        let mut i: usize = 0;
        while i < self.pairs.len()
            invariant
                i <= self.pairs.len(),
                forall|j: int| 0 <= j < i ==> !key_at(self.listed(), key@, j),
            decreases self.pairs.len() - i,
        {
            if same_text(&self.pairs[i].0, key) {
                return Some(i);
            }
            i += 1;
        }
        None
    }

    /// The value that `key` is mapped to.
    pub fn get(&self, key: &str) -> (r: Option<&T>)
        ensures
            match r {
                Some(v) => self@.contains_key(key@) && *v == self@[key@],
                None => !self@.contains_key(key@),
            },
    {
        proof {
            use_type_invariant(self);
        }
        match self.position(key) {
            Some(i) => {
                proof {
                    lemma_key_index(self.listed(), i as int);
                }
                Some(&self.pairs[i].1)
            },
            None => None,
        }
    }

    /// Whether `key` is mapped to a value.
    pub fn contains_key(&self, key: &str) -> (r: bool)
        ensures
            r == self@.contains_key(key@),
    {
        self.position(key).is_some()
    }

    /// Takes `key` out of the map, with the value that it was mapped to.
    pub fn remove(&mut self, key: &str) -> (r: Option<T>)
        ensures
            final(self)@ == old(self)@.remove(key@),
            match r {
                Some(v) => old(self)@.contains_key(key@) && v == old(self)@[key@],
                None => !old(self)@.contains_key(key@),
            },
    {
        proof {
            use_type_invariant(&*self);
        }
        match self.position(key) {
            Some(i) => {
                proof {
                    lemma_key_index(self.listed(), i as int);
                    lemma_map_remove(self.listed(), i as int);
                }
                let mut pairs: Vec<(String, T)> = Vec::new();
                std::mem::swap(&mut pairs, &mut self.pairs);
                let pair = pairs.remove(i);
                self.pairs = pairs;
                Some(pair.1)
            },
            None => {
                assert(self@ =~= self@.remove(key@));
                None
            },
        }
    }

    /// Maps `key` to `value`, whatever it was mapped to.
    pub fn insert(&mut self, key: String, value: T)
        ensures
            final(self)@ == old(self)@.insert(key@, value),
    {
        let ghost before = self@;
        let ghost k = key@;
        self.remove(&key);
        proof {
            use_type_invariant(&*self);
            assert(!self@.contains_key(k));
            lemma_map_push(self.listed(), key, value);
        }
        let mut pairs: Vec<(String, T)> = Vec::new();
        std::mem::swap(&mut pairs, &mut self.pairs);
        pairs.push((key, value));
        self.pairs = pairs;
        assert(before.remove(k).insert(k, value) =~= before.insert(k, value));
    }
}

/// What is done to a map is done to its values.
pub proof fn lemma_deep_insert<T: DeepView>(
    before: TextMap<T>,
    after: TextMap<T>,
    key: Seq<char>,
    value: T,
)
    requires
        after@ == before@.insert(key, value),
    ensures
        after.deep_view() == before.deep_view().insert(key, value.deep_view()),
{
    assert(after.deep_view() =~= before.deep_view().insert(key, value.deep_view()));
}

/// What is done to a map is done to its values.
pub proof fn lemma_deep_remove<T: DeepView>(before: TextMap<T>, after: TextMap<T>, key: Seq<char>)
    requires
        after@ == before@.remove(key),
    ensures
        after.deep_view() == before.deep_view().remove(key),
{
    assert(after.deep_view() =~= before.deep_view().remove(key));
}

impl<T: Clone> Clone for TextMap<T> {
    /// The same keys, each with a clone of its value.
    fn clone(&self) -> (r: TextMap<T>)
        ensures
            r@.dom() == self@.dom(),
            forall|key: Seq<char>| #[trigger]
                r@.contains_key(key) ==> cloned::<T>(self@[key], r@[key]),
    {
        proof {
            use_type_invariant(self);
        }
        let mut pairs: Vec<(String, T)> = Vec::new();
        let mut i: usize = 0;
        while i < self.pairs.len()
            invariant
                i <= self.pairs.len(),
                pairs.len() == i,
                forall|k: int|
                    0 <= k < i ==> (#[trigger] pairs[k]).0@ == self.pairs[k].0@ && cloned::<T>(
                        self.pairs[k].1,
                        pairs[k].1,
                    ),
            decreases self.pairs.len() - i,
        {
            let key = self.pairs[i].0.clone();
            let value = self.pairs[i].1.clone();
            pairs.push((key, value));
            i += 1;
        }
        proof {
            let (a, b) = (self.pairs@, pairs@);
            assert forall|k: int, l: int|
                0 <= k < b.len() && 0 <= l < b.len() && k != l implies #[trigger] b[k].0@
                != #[trigger] b[l].0@ by {
                assert(a[k].0@ != a[l].0@);
            }
            assert forall|key: Seq<char>| has_key(a, key) == has_key(b, key) by {
                if has_key(a, key) {
                    assert(key_at(b, key, key_index(a, key)));
                }
                if has_key(b, key) {
                    assert(key_at(a, key, key_index(b, key)));
                }
            }
            assert forall|key: Seq<char>| #[trigger]
                map_of(b).contains_key(key) implies cloned::<T>(map_of(a)[key], map_of(b)[key]) by {
                let k = key_index(b, key);
                assert(key_at(b, key, k));
                lemma_key_index(a, k);
            }
            assert(map_of(b).dom() =~= map_of(a).dom());
        }
        TextMap { pairs }
    }
}

} // verus!
