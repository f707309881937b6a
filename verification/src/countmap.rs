//! A map from strings to numbers that keeps its keys in ascending order, as a
//! `BTreeMap<String, _>` does: lookups, inserts and in-order walks.
use vstd::prelude::*;

use crate::order::{
    chars_le, chars_le_exec, is_strictly_sorted, lemma_chars_le_antisymmetric,
    lemma_chars_le_total, lemma_chars_le_transitive,
};
use crate::text::{chars_eq, chars_of, copy_string};

verus! {

broadcast use crate::views::lemma_char_vec_deep_view;

/// The map that lists of keys and values describe, later entries winning.
pub open spec fn pairs_map<V>(keys: Seq<Seq<char>>, values: Seq<V>) -> Map<Seq<char>, V>
    decreases keys.len(),
{
    if keys.len() == 0 || values.len() == 0 {
        Map::empty()
    } else {
        pairs_map(keys.drop_last(), values.drop_last()).insert(keys.last(), values.last())
    }
}

pub open spec fn distinct_keys(keys: Seq<Seq<char>>) -> bool {
    forall|i: int, j: int| 0 <= i < j < keys.len() ==> keys[i] != keys[j]
}

/// With distinct keys, the map holds exactly the listed keys, each with the
/// value listed beside it.
pub proof fn lemma_pairs_map<V>(keys: Seq<Seq<char>>, values: Seq<V>)
    requires
        keys.len() == values.len(),
        distinct_keys(keys),
    ensures
        forall|k: Seq<char>|
            #![trigger pairs_map(keys, values).dom().contains(k)]
            #![trigger keys.contains(k)]
            pairs_map(keys, values).dom().contains(k) <==> keys.contains(k),
        forall|i: int|
            0 <= i < keys.len() ==> pairs_map(keys, values)[#[trigger] keys[i]] == values[i],
    decreases keys.len(),
{
    if keys.len() > 0 {
        let kp = keys.drop_last();
        let vp = values.drop_last();
        lemma_pairs_map(kp, vp);
        assert forall|k: Seq<char>|
            pairs_map(keys, values).dom().contains(k) <==> keys.contains(k) by {
            if keys.contains(k) {
                let i = choose|i: int| 0 <= i < keys.len() && keys[i] == k;
                if i < keys.len() - 1 {
                    assert(kp[i] == k);
                }
            }
            if pairs_map(kp, vp).dom().contains(k) {
                let i = choose|i: int| 0 <= i < kp.len() && kp[i] == k;
                assert(keys[i] == k);
            }
        }
        assert forall|i: int| 0 <= i < keys.len() implies pairs_map(keys, values)[#[trigger] keys[i]]
            == values[i] by {
            if i < keys.len() - 1 {
                assert(kp[i] == keys[i]);
                assert(keys[i] != keys[keys.len() - 1]);
            }
        }
    }
}

pub proof fn lemma_sorted_keys(keys: Seq<Seq<char>>)
    requires
        is_strictly_sorted::<String>(keys),
    ensures
        distinct_keys(keys),
        forall|a: int, b: int|
            0 <= a < b < keys.len() ==> #[trigger] chars_le(keys[a], keys[b]) && keys[a] != keys[b],
{
    assert forall|a: int, b: int| 0 <= a < b < keys.len() implies #[trigger] chars_le(
        keys[a],
        keys[b],
    ) && keys[a] != keys[b] by {
        assert(<String as crate::order::Sortable>::le_spec(keys[a], keys[b]));
    }
    assert forall|a: int, b: int| 0 <= a < b < keys.len() implies keys[a] != keys[b] by {
        assert(chars_le(keys[a], keys[b]));
    }
}

/// A map from strings to counts whose keys are held in ascending order.
pub struct CountMap<V> {
    keys: Vec<String>,
    values: Vec<V>,
}

impl<V: Copy> CountMap<V> {
    /// The keys, in ascending order.
    pub closed spec fn keys_view(&self) -> Seq<Seq<char>> {
        self.keys.deep_view()
    }

    /// The values, each beside its key.
    pub closed spec fn values_view(&self) -> Seq<V> {
        self.values@
    }

    pub open spec fn wf(&self) -> bool {
        &&& self.keys_view().len() == self.values_view().len()
        &&& is_strictly_sorted::<String>(self.keys_view())
    }

    pub open spec fn as_map(&self) -> Map<Seq<char>, V> {
        pairs_map(self.keys_view(), self.values_view())
    }

    /// What a well-formed map holds: the listed keys with their values.
    pub proof fn lemma_contents(&self)
        requires
            self.wf(),
        ensures
            forall|k: Seq<char>|
                #![trigger self.as_map().dom().contains(k)]
                #![trigger self.keys_view().contains(k)]
                self.as_map().dom().contains(k) <==> self.keys_view().contains(k),
            forall|i: int|
                0 <= i < self.keys_view().len() ==> self.as_map()[#[trigger] self.keys_view()[i]]
                    == self.values_view()[i],
            distinct_keys(self.keys_view()),
            forall|a: int, b: int|
                0 <= a < b < self.keys_view().len() ==> #[trigger] chars_le(
                    self.keys_view()[a],
                    self.keys_view()[b],
                ) && self.keys_view()[a] != self.keys_view()[b],
    {
        lemma_sorted_keys(self.keys_view());
        lemma_pairs_map(self.keys_view(), self.values_view());
    }

    pub fn new() -> (m: Self)
        ensures
            m.wf(),
            m.keys_view() == Seq::<Seq<char>>::empty(),
            m.values_view() == Seq::<V>::empty(),
            m.as_map() == Map::<Seq<char>, V>::empty(),
    {
        let m = CountMap { keys: Vec::new(), values: Vec::new() };
        assert(m.keys_view() =~= Seq::<Seq<char>>::empty());
        m
    }

    pub fn len(&self) -> (n: usize)
        requires
            self.wf(),
        ensures
            n == self.keys_view().len(),
    {
        proof {
            crate::views::lemma_vec_dview(self.keys);
        }
        self.keys.len()
    }

    pub fn is_empty(&self) -> (b: bool)
        requires
            self.wf(),
        ensures
            b == (self.keys_view().len() == 0),
            b == (self.as_map().dom() == Set::<Seq<char>>::empty()),
    {
        proof {
            self.lemma_contents();
            if self.keys_view().len() > 0 {
                assert(self.as_map().dom().contains(self.keys_view()[0]));
                assert(!Set::<Seq<char>>::empty().contains(self.keys_view()[0]));
            } else {
                assert(self.as_map().dom() =~= Set::empty());
            }
        }
        self.len() == 0
    }

    /// The key at position `i` in ascending order.
    pub fn key(&self, i: usize) -> (k: &String)
        requires
            self.wf(),
            i < self.keys_view().len(),
        ensures
            k@ == self.keys_view()[i as int],
    {
        proof {
            crate::views::lemma_vec_dview(self.keys);
        }
        &self.keys[i]
    }

    /// The value beside the key at position `i`.
    pub fn value(&self, i: usize) -> (v: V)
        requires
            self.wf(),
            i < self.keys_view().len(),
        ensures
            v == self.values_view()[i as int],
    {
        self.values[i]
    }

    /// Where `key` is, or where it would go: every key before that position
    /// is smaller.
    fn position(&self, key: &Vec<char>) -> (r: (usize, bool))
        requires
            self.wf(),
        ensures
            r.0 <= self.keys_view().len(),
            forall|j: int|
                0 <= j < r.0 ==> chars_le(#[trigger] self.keys_view()[j], key@)
                    && self.keys_view()[j] != key@,
            r.1 ==> r.0 < self.keys_view().len() && self.keys_view()[r.0 as int] == key@,
            !r.1 && r.0 < self.keys_view().len() ==> chars_le(key@, self.keys_view()[r.0 as int])
                && self.keys_view()[r.0 as int] != key@,
    {
        proof {
            crate::views::lemma_vec_dview(self.keys);
        }
        let mut i: usize = 0;
        while i < self.keys.len()
            invariant
                i <= self.keys.len(),
                self.keys.len() == self.keys_view().len(),
                forall|j: int| 0 <= j < self.keys_view().len() ==> #[trigger] self.keys_view()[j]
                    == self.keys@[j]@,
                forall|j: int|
                    0 <= j < i ==> chars_le(#[trigger] self.keys_view()[j], key@)
                        && self.keys_view()[j] != key@,
            decreases self.keys.len() - i,
        {
            let k = chars_of(self.keys[i].as_str());
            if chars_eq(&k, key) {
                return (i, true);
            }
            if !chars_le_exec(&k, key) {
                proof {
                    lemma_chars_le_total(k@, key@);
                }
                return (i, false);
            }
            i += 1;
        }
        (i, false)
    }

    /// Two well-formed maps with the same contents list the same keys and
    /// values.
    pub proof fn lemma_same_contents(&self, other: &Self)
        requires
            self.wf(),
            other.wf(),
            self.as_map() == other.as_map(),
        ensures
            self.keys_view() == other.keys_view(),
            self.values_view() == other.values_view(),
    {
        self.lemma_contents();
        other.lemma_contents();
        let a = self.keys_view();
        let b = other.keys_view();
        assert forall|k: Seq<char>| #![trigger a.contains(k)] #![trigger b.contains(k)] a.contains(k) <==> b.contains(k) by {
            assert(a.contains(k) == self.as_map().dom().contains(k));
            assert(b.contains(k) == other.as_map().dom().contains(k));
        }
        crate::order::lemma_strictly_sorted_unique::<String>(a, b);
        assert forall|i: int| 0 <= i < self.values_view().len() implies self.values_view()[i]
            == other.values_view()[i] by {
            assert(self.as_map()[a[i]] == self.values_view()[i]);
            assert(other.as_map()[b[i]] == other.values_view()[i]);
        }
        assert(self.values_view() =~= other.values_view());
    }

    /// The value stored for `key`, if any.
    pub fn get(&self, key: &str) -> (r: Option<V>)
        requires
            self.wf(),
        ensures
            r == (if self.as_map().dom().contains(key@) {
                Some(self.as_map()[key@])
            } else {
                None::<V>
            }),
    {
        let k = chars_of(key);
        let (i, found) = self.position(&k);
        proof {
            self.lemma_contents();
        }
        if found {
            Some(self.values[i])
        } else {
            proof {
                if self.keys_view().contains(key@) {
                    let j = choose|j: int| 0 <= j < self.keys_view().len() && self.keys_view()[j] == key@;
                    if j >= i {
                        assert(chars_le(self.keys_view()[i as int], self.keys_view()[j]));
                        lemma_chars_le_antisymmetric(key@, self.keys_view()[i as int]);
                    }
                }
            }
            None
        }
    }

    /// Stores `value` for `key`, replacing what was stored for it.
    pub fn set(&mut self, key: String, value: V)
        requires
            old(self).wf(),
        ensures
            final(self).wf(),
            final(self).as_map() == old(self).as_map().insert(key@, value),
    {
        let k = chars_of(key.as_str());
        let (i, found) = self.position(&k);
        let ghost ok = old(self).keys_view();
        let ghost ov = old(self).values_view();
        proof {
            old(self).lemma_contents();
        }
        if found {
            self.values.set(i, value);
            proof {
                assert(self.keys_view() == ok);
                assert(self.values_view() == ov.update(i as int, value));
                self.lemma_contents();
                assert(self.as_map() =~= old(self).as_map().insert(key@, value)) by {
                    assert forall|q: Seq<char>| #[trigger] self.as_map().dom().contains(q) <==> old(
                        self,
                    ).as_map().insert(key@, value).dom().contains(q) by {
                        if q == key@ {
                            assert(ok[i as int] == q);
                        }
                    }
                    assert forall|q: Seq<char>| #[trigger]
                        self.as_map().dom().contains(q) implies self.as_map()[q] == old(
                        self,
                    ).as_map().insert(key@, value)[q] by {
                        let j = choose|j: int| 0 <= j < ok.len() && ok[j] == q;
                        assert(self.keys_view()[j] == q);
                    }
                }
            }
        } else {
            proof {
                crate::views::lemma_vec_dview(self.keys);
            }
            let ghost pk = self.keys@;
            self.keys.insert(i, key);
            self.values.insert(i, value);
            proof {
                crate::views::lemma_vec_dview(self.keys);
                let nk = self.keys_view();
                assert(nk =~= ok.insert(i as int, key@)) by {
                    assert forall|j: int| 0 <= j < nk.len() implies nk[j] == ok.insert(
                        i as int,
                        key@,
                    )[j] by {
                        if j < i {
                            assert(self.keys@[j] == pk[j]);
                        } else if j > i {
                            assert(self.keys@[j] == pk[j - 1]);
                        }
                    }
                }
                assert(self.values_view() == ov.insert(i as int, value));
                // The new key fits between its neighbours.
                assert forall|a: int, b: int| 0 <= a < b < nk.len() implies chars_le(
                    #[trigger] nk[a],
                    #[trigger] nk[b],
                ) && nk[a] != nk[b] by {
                    if b == i {
                        assert(nk[a] == ok[a]);
                    } else if a == i {
                        assert(nk[b] == ok[b - 1]);
                        assert(chars_le(ok[i as int], ok[b - 1]) || i == b - 1);
                        if i < b - 1 {
                            lemma_chars_le_transitive(key@, ok[i as int], ok[b - 1]);
                            if key@ == ok[b - 1] {
                                lemma_chars_le_antisymmetric(key@, ok[i as int]);
                            }
                        }
                    } else if a < i && i < b {
                        assert(nk[a] == ok[a]);
                        assert(nk[b] == ok[b - 1]);
                        if i < b - 1 {
                            lemma_chars_le_transitive(ok[a], key@, ok[i as int]);
                            lemma_chars_le_transitive(ok[a], ok[i as int], ok[b - 1]);
                        } else {
                            lemma_chars_le_transitive(ok[a], key@, ok[i as int]);
                        }
                        if ok[a] == ok[b - 1] {
                            assert(false);
                        }
                    } else if b < i {
                        assert(nk[a] == ok[a]);
                        assert(nk[b] == ok[b]);
                    } else {
                        assert(nk[a] == ok[a - 1]);
                        assert(nk[b] == ok[b - 1]);
                    }
                }
                self.lemma_contents();
                assert(self.as_map() =~= old(self).as_map().insert(key@, value)) by {
                    assert forall|q: Seq<char>| #[trigger] self.as_map().dom().contains(q) <==> old(
                        self,
                    ).as_map().insert(key@, value).dom().contains(q) by {
                        if q == key@ {
                            assert(nk[i as int] == q);
                        }
                        if nk.contains(q) && q != key@ {
                            let j = choose|j: int| 0 <= j < nk.len() && nk[j] == q;
                            if j < i {
                                assert(ok[j] == q);
                            } else {
                                assert(ok[j - 1] == q);
                            }
                        }
                        if ok.contains(q) {
                            let j = choose|j: int| 0 <= j < ok.len() && ok[j] == q;
                            if j < i {
                                assert(nk[j] == q);
                            } else {
                                assert(nk[j + 1] == q);
                            }
                        }
                    }
                    assert forall|q: Seq<char>| #[trigger]
                        self.as_map().dom().contains(q) implies self.as_map()[q] == old(
                        self,
                    ).as_map().insert(key@, value)[q] by {
                        if q == key@ {
                            assert(nk[i as int] == q);
                        } else {
                            let j = choose|j: int| 0 <= j < nk.len() && nk[j] == q;
                            if j < i {
                                assert(ok[j] == q);
                            } else {
                                assert(ok[j - 1] == q);
                            }
                        }
                    }
                }
            }
        }
    }

    /// A copy of the map.
    pub fn duplicate(&self) -> (r: Self)
        requires
            self.wf(),
        ensures
            r.wf(),
            r.keys_view() == self.keys_view(),
            r.values_view() == self.values_view(),
    {
        let mut keys: Vec<String> = Vec::new();
        let mut values: Vec<V> = Vec::new();
        let mut i: usize = 0;
        proof {
            crate::views::lemma_vec_dview(self.keys);
        }
        while i < self.keys.len()
            invariant
                i <= self.keys.len(),
                self.keys.len() == self.values.len(),
                keys.deep_view() == self.keys.deep_view().take(i as int),
                values@ == self.values@.take(i as int),
            decreases self.keys.len() - i,
        {
            let ghost prev = keys@;
            let s = copy_string(&self.keys[i]);
            keys.push(s);
            values.push(self.values[i]);
            proof {
                crate::views::lemma_vec_dview(keys);
                crate::views::lemma_vec_dview(self.keys);
                crate::views::lemma_dview_push(prev, s);
            }
            i += 1;
            assert(keys.deep_view() =~= self.keys.deep_view().take(i as int));
            assert(values@ =~= self.values@.take(i as int));
        }
        assert(keys.deep_view() =~= self.keys.deep_view());
        assert(values@ =~= self.values@);
        CountMap { keys, values }
    }
}

} // verus!
