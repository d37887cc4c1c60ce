//! An ordered key-value table: byte-string keys kept in lexicographic order,
//! at most one value for each key.

use crate::types::bytes::{
    bytes_equal, bytes_less, copy_bytes, lemma_lex_asymmetric, lemma_lex_connected,
    lemma_lex_transitive, lex_less,
};
use vstd::prelude::*;

verus! {

/// Every key comes strictly before the keys that follow it.
pub open spec fn sorted_keys(keys: Seq<Seq<u8>>) -> bool {
    forall|i: int, j: int| 0 <= i < j < keys.len() ==> lex_less(#[trigger] keys[i], #[trigger] keys[j])
}

/// The map that sends each key to the value at the same position.
pub open spec fn assoc_map<T>(keys: Seq<Seq<u8>>, values: Seq<T>) -> Map<Seq<u8>, T> {
    Map::new(|k: Seq<u8>| keys.contains(k), |k: Seq<u8>| values[keys.index_of(k)])
}

/// In a sorted sequence a key is found at its own position and nowhere else.
pub proof fn lemma_sorted_index_of(keys: Seq<Seq<u8>>, i: int)
    requires
        sorted_keys(keys),
        0 <= i < keys.len(),
    ensures
        keys.contains(keys[i]),
        keys.index_of(keys[i]) == i,
{
    let j = keys.index_of(keys[i]);
    assert(keys.contains(keys[i]));
    assert(0 <= j < keys.len() && keys[j] == keys[i]);
    if j < i {
        lemma_lex_asymmetric(keys[j], keys[i]);
    } else if i < j {
        lemma_lex_asymmetric(keys[i], keys[j]);
    }
}

/// A key that lies strictly between its neighbours is not in the sequence.
pub proof fn lemma_gap_absent(keys: Seq<Seq<u8>>, at: int, k: Seq<u8>)
    requires
        0 <= at <= keys.len(),
        forall|i: int| 0 <= i < at ==> lex_less(#[trigger] keys[i], k),
        forall|i: int| at <= i < keys.len() ==> lex_less(k, #[trigger] keys[i]),
    ensures
        !keys.contains(k),
{
    if keys.contains(k) {
        let j = keys.index_of(k);
        if j < at {
            lemma_lex_asymmetric(keys[j], k);
        } else {
            lemma_lex_asymmetric(k, keys[j]);
        }
    }
}

/// Putting a new key into its place keeps the order and adds one binding.
pub proof fn lemma_assoc_insert<T>(keys: Seq<Seq<u8>>, values: Seq<T>, at: int, k: Seq<u8>, v: T)
    requires
        sorted_keys(keys),
        keys.len() == values.len(),
        0 <= at <= keys.len(),
        forall|i: int| 0 <= i < at ==> lex_less(#[trigger] keys[i], k),
        forall|i: int| at <= i < keys.len() ==> lex_less(k, #[trigger] keys[i]),
    ensures
        sorted_keys(keys.insert(at, k)),
        assoc_map(keys.insert(at, k), values.insert(at, v)) == assoc_map(keys, values).insert(k, v),
{
    let keys2 = keys.insert(at, k);
    let values2 = values.insert(at, v);
    assert forall|i: int, j: int| 0 <= i < j < keys2.len() implies lex_less(
        #[trigger] keys2[i],
        #[trigger] keys2[j],
    ) by {
        let oi = if i < at { i } else { i - 1 };
        let oj = if j < at { j } else { j - 1 };
        if i == at {
            assert(keys2[j] == keys[oj]);
        } else if j == at {
            assert(keys2[i] == keys[oi]);
        } else {
            assert(keys2[i] == keys[oi] && keys2[j] == keys[oj]);
        }
    }
    let m1 = assoc_map(keys2, values2);
    let m2 = assoc_map(keys, values).insert(k, v);
    assert forall|x: Seq<u8>| m1.contains_key(x) <==> m2.contains_key(x) by {
        if keys2.contains(x) {
            let j = keys2.index_of(x);
            if j != at {
                let oj = if j < at { j } else { j - 1 };
                assert(keys[oj] == x);
            }
        }
        if keys.contains(x) {
            let j = keys.index_of(x);
            let nj = if j < at { j } else { j + 1 };
            assert(keys2[nj] == x);
        }
        if x == k {
            assert(keys2[at] == x);
        }
    }
    assert forall|x: Seq<u8>| m1.contains_key(x) implies m1[x] == m2[x] by {
        let j = keys2.index_of(x);
        lemma_sorted_index_of(keys2, j);
        if j == at {
            assert(x == k);
        } else {
            let oj = if j < at { j } else { j - 1 };
            assert(keys[oj] == x);
            lemma_sorted_index_of(keys, oj);
            lemma_gap_absent(keys, at, k);
            assert(x != k);
        }
    }
    assert(m1 =~= m2);
}

/// Replacing the value at a position rebinds that position's key.
pub proof fn lemma_assoc_update<T>(keys: Seq<Seq<u8>>, values: Seq<T>, at: int, v: T)
    requires
        sorted_keys(keys),
        keys.len() == values.len(),
        0 <= at < keys.len(),
    ensures
        assoc_map(keys, values.update(at, v)) == assoc_map(keys, values).insert(keys[at], v),
{
    let m1 = assoc_map(keys, values.update(at, v));
    let m2 = assoc_map(keys, values).insert(keys[at], v);
    assert forall|x: Seq<u8>| m1.contains_key(x) <==> m2.contains_key(x) by {
        if x == keys[at] {
            assert(keys.contains(x));
        }
    }
    assert forall|x: Seq<u8>| m1.contains_key(x) implies m1[x] == m2[x] by {
        let j = keys.index_of(x);
        lemma_sorted_index_of(keys, j);
        lemma_sorted_index_of(keys, at);
    }
    assert(m1 =~= m2);
}

/// Taking a position out keeps the order and drops that position's key.
pub proof fn lemma_assoc_remove<T>(keys: Seq<Seq<u8>>, values: Seq<T>, at: int)
    requires
        sorted_keys(keys),
        keys.len() == values.len(),
        0 <= at < keys.len(),
    ensures
        sorted_keys(keys.remove(at)),
        assoc_map(keys.remove(at), values.remove(at)) == assoc_map(keys, values).remove(keys[at]),
{
    let keys2 = keys.remove(at);
    let values2 = values.remove(at);
    assert forall|i: int, j: int| 0 <= i < j < keys2.len() implies lex_less(
        #[trigger] keys2[i],
        #[trigger] keys2[j],
    ) by {
        let oi = if i < at { i } else { i + 1 };
        let oj = if j < at { j } else { j + 1 };
        assert(keys2[i] == keys[oi] && keys2[j] == keys[oj]);
    }
    let m1 = assoc_map(keys2, values2);
    let m2 = assoc_map(keys, values).remove(keys[at]);
    assert forall|x: Seq<u8>| m1.contains_key(x) <==> m2.contains_key(x) by {
        if keys2.contains(x) {
            let j = keys2.index_of(x);
            let oj = if j < at { j } else { j + 1 };
            assert(keys[oj] == x);
            lemma_sorted_index_of(keys, oj);
            lemma_sorted_index_of(keys, at);
        }
        if keys.contains(x) && x != keys[at] {
            let j = keys.index_of(x);
            let nj = if j < at { j } else { j - 1 };
            assert(keys2[nj] == x);
        }
    }
    assert forall|x: Seq<u8>| m1.contains_key(x) implies m1[x] == m2[x] by {
        let j = keys2.index_of(x);
        lemma_sorted_index_of(keys2, j);
        let oj = if j < at { j } else { j + 1 };
        assert(keys[oj] == x);
        lemma_sorted_index_of(keys, oj);
    }
    assert(m1 =~= m2);
}

/// The map `map` without the keys `keys`.
pub open spec fn remove_all<V>(map: Map<Seq<u8>, V>, keys: Seq<Seq<u8>>) -> Map<Seq<u8>, V>
    decreases keys.len(),
{
    if keys.len() == 0 {
        map
    } else {
        remove_all(map, keys.drop_last()).remove(keys.last())
    }
}

/// The map `map` with the bindings `entries` put in, one after the other.
pub open spec fn put_all<V>(map: Map<Seq<u8>, V>, entries: Seq<(Seq<u8>, V)>) -> Map<Seq<u8>, V>
    decreases entries.len(),
{
    if entries.len() == 0 {
        map
    } else {
        put_all(map, entries.drop_last()).insert(entries.last().0, entries.last().1)
    }
}

/// A key is in a list if it is the last item or in what comes before.
pub proof fn lemma_contains_last<T>(items: Seq<T>, item: T)
    requires
        items.len() > 0,
    ensures
        items.contains(item) <==> items.drop_last().contains(item) || items.last() == item,
{
    if items.contains(item) {
        let i = items.index_of(item);
        if i < items.len() - 1 {
            assert(items.drop_last()[i] == item);
        }
    }
    if items.drop_last().contains(item) {
        let i = items.drop_last().index_of(item);
        assert(items[i] == item);
    }
    if items.last() == item {
        assert(items[items.len() - 1] == item);
    }
}

/// What is left of a map once keys are taken out: the bindings of the
/// other keys.
pub proof fn lemma_remove_all<V>(map: Map<Seq<u8>, V>, keys: Seq<Seq<u8>>, k: Seq<u8>)
    ensures
        remove_all(map, keys).contains_key(k) <==> map.contains_key(k) && !keys.contains(k),
        remove_all(map, keys).contains_key(k) ==> remove_all(map, keys)[k] == map[k],
    decreases keys.len(),
{
    if keys.len() > 0 {
        lemma_remove_all(map, keys.drop_last(), k);
        lemma_contains_last(keys, k);
    }
}

/// Whether one of the bindings is for the key `k`.
pub open spec fn binds<V>(entries: Seq<(Seq<u8>, V)>, k: Seq<u8>) -> bool {
    exists|i: int| 0 <= i < entries.len() && (#[trigger] entries[i]).0 == k
}

/// A key is bound by a list of bindings if the last binds it or one before.
pub proof fn lemma_binds_last<V>(entries: Seq<(Seq<u8>, V)>, k: Seq<u8>)
    requires
        entries.len() > 0,
    ensures
        binds(entries, k) <==> binds(entries.drop_last(), k) || entries.last().0 == k,
{
    let shorter = entries.drop_last();
    if binds(entries, k) {
        let i = choose|i: int| 0 <= i < entries.len() && (#[trigger] entries[i]).0 == k;
        if i < entries.len() - 1 {
            assert(shorter[i].0 == k);
        }
    }
    if binds(shorter, k) {
        let i = choose|i: int| 0 <= i < shorter.len() && (#[trigger] shorter[i]).0 == k;
        assert(entries[i].0 == k);
    }
    if entries.last().0 == k {
        assert(entries[entries.len() - 1].0 == k);
    }
}

/// What a map holds once bindings are put in: the keys that it held and
/// the keys of the bindings; for a key that no binding is for, the value
/// that the map held.
pub proof fn lemma_put_all<V>(map: Map<Seq<u8>, V>, entries: Seq<(Seq<u8>, V)>, k: Seq<u8>)
    ensures
        put_all(map, entries).contains_key(k) <==> map.contains_key(k) || binds(entries, k),
        !binds(entries, k) ==> put_all(map, entries)[k] == map[k],
    decreases entries.len(),
{
    if entries.len() > 0 {
        lemma_put_all(map, entries.drop_last(), k);
        lemma_binds_last(entries, k);
    }
}

/// A key holds the value of the last binding that is for it.
pub proof fn lemma_put_all_at<V>(map: Map<Seq<u8>, V>, entries: Seq<(Seq<u8>, V)>, i: int)
    requires
        0 <= i < entries.len(),
        forall|j: int| i < j < entries.len() ==> (#[trigger] entries[j]).0 != entries[i].0,
    ensures
        put_all(map, entries).contains_key(entries[i].0),
        put_all(map, entries)[entries[i].0] == entries[i].1,
    decreases entries.len(),
{
    let last = entries.len() - 1;
    if i < last {
        let shorter = entries.drop_last();
        assert(shorter[i] == entries[i]);
        assert forall|j: int| i < j < shorter.len() implies (#[trigger] shorter[j]).0
            != shorter[i].0 by {
            assert(shorter[j] == entries[j]);
        }
        lemma_put_all_at(map, shorter, i);
        assert(entries[last].0 != entries[i].0);
    }
}

/// Putting two lists of bindings in one after the other is putting in the
/// one list and then the other.
pub proof fn lemma_put_all_concat<V>(map: Map<Seq<u8>, V>, first: Seq<(Seq<u8>, V)>, second: Seq<(Seq<u8>, V)>)
    ensures
        put_all(map, first + second) == put_all(put_all(map, first), second),
    decreases second.len(),
{
    if second.len() == 0 {
        assert(first + second =~= first);
    } else {
        assert((first + second).drop_last() =~= first + second.drop_last());
        assert((first + second).last() == second.last());
        lemma_put_all_concat(map, first, second.drop_last());
    }
}

/// No two of the bindings are for the same key.
pub open spec fn distinct_keys<V>(entries: Seq<(Seq<u8>, V)>) -> bool {
    forall|i: int, j: int|
        0 <= i < j < entries.len() ==> (#[trigger] entries[i]).0 != (#[trigger] entries[j]).0
}

/// None of the bindings is for a key of the map.
pub open spec fn fresh_keys<V, W>(entries: Seq<(Seq<u8>, V)>, map: Map<Seq<u8>, W>) -> bool {
    forall|i: int| 0 <= i < entries.len() ==> !map.contains_key((#[trigger] entries[i]).0)
}

/// A binding for a key that the list does not bind can be put in before
/// the list or after it.
pub proof fn lemma_put_all_insert<V>(map: Map<Seq<u8>, V>, k: Seq<u8>, v: V, entries: Seq<(Seq<u8>, V)>)
    requires
        !binds(entries, k),
    ensures
        put_all(map.insert(k, v), entries) == put_all(map, entries).insert(k, v),
    decreases entries.len(),
{
    if entries.len() > 0 {
        lemma_binds_last(entries, k);
        lemma_put_all_insert(map, k, v, entries.drop_last());
        let shorter = put_all(map, entries.drop_last());
        assert(shorter.insert(k, v).insert(entries.last().0, entries.last().1) =~= shorter.insert(
            entries.last().0,
            entries.last().1,
        ).insert(k, v));
    } else {
        assert(put_all(map.insert(k, v), entries) =~= put_all(map, entries).insert(k, v));
    }
}

/// What a key that the list binds holds afterwards does not depend on the
/// map that the list is put into.
pub proof fn lemma_put_all_bound<V>(
    one: Map<Seq<u8>, V>,
    other: Map<Seq<u8>, V>,
    entries: Seq<(Seq<u8>, V)>,
    k: Seq<u8>,
)
    requires
        binds(entries, k),
    ensures
        put_all(one, entries)[k] == put_all(other, entries)[k],
    decreases entries.len(),
{
    if entries.len() > 0 {
        lemma_binds_last(entries, k);
        if entries.last().0 != k {
            lemma_put_all_bound(one, other, entries.drop_last(), k);
        }
    }
}

/// One binding of a table.
pub struct Entry<V> {
    pub key: Vec<u8>,
    pub value: V,
}

/// An ordered table from byte-string keys to values of type `V`.
pub struct Table<V: View> {
    entries: Vec<Entry<V>>,
}

spec fn entry_keys<V>(entries: Seq<Entry<V>>) -> Seq<Seq<u8>> {
    Seq::new(entries.len(), |i: int| entries[i].key@)
}

spec fn entry_values<V: View>(entries: Seq<Entry<V>>) -> Seq<V::V> {
    Seq::new(entries.len(), |i: int| entries[i].value@)
}

impl<V: View> View for Table<V> {
    type V = Map<Seq<u8>, V::V>;

    /// The table as a map from keys to the views of their values.
    open spec fn view(&self) -> Map<Seq<u8>, V::V> {
        assoc_map(self.keys(), self.values())
    }
}

impl<V: View> Table<V> {
    #[verifier::type_invariant]
    spec fn ordered(&self) -> bool {
        sorted_keys(self.keys())
    }

    /// The keys in stored order.
    pub closed spec fn keys(&self) -> Seq<Seq<u8>> {
        entry_keys(self.entries@)
    }

    /// The views of the values, each at the position of its key.
    pub closed spec fn values(&self) -> Seq<V::V> {
        entry_values(self.entries@)
    }

    /// An empty table.
    pub fn new() -> (table: Self)
        ensures
            table@ == Map::<Seq<u8>, V::V>::empty(),
            table.keys() == Seq::<Seq<u8>>::empty(),
    {
        let table = Table { entries: Vec::new() };
        assert(table.keys() =~= Seq::<Seq<u8>>::empty());
        assert(table@ =~= Map::<Seq<u8>, V::V>::empty());
        table
    }

    /// The number of bindings. The keys are in strictly increasing order.
    pub fn len(&self) -> (n: usize)
        ensures
            n == self.keys().len(),
            self.values().len() == self.keys().len(),
            sorted_keys(self.keys()),
            forall|i: int|
                0 <= i < n ==> self@.contains_key(#[trigger] self.keys()[i]) && self@[self.keys()[i]]
                    == self.values()[i],
            forall|k: Seq<u8>| self@.contains_key(k) <==> self.keys().contains(k),
    {
        proof {
            use_type_invariant(self);
            assert forall|i: int| 0 <= i < self.keys().len() implies self@.contains_key(
                #[trigger] self.keys()[i],
            ) && self@[self.keys()[i]] == self.values()[i] by {
                lemma_sorted_index_of(self.keys(), i);
            }
        }
        self.entries.len()
    }

    /// The binding at position `i` of the stored order.
    pub fn entry(&self, i: usize) -> (e: &Entry<V>)
        requires
            i < self.keys().len(),
        ensures
            e.key@ == self.keys()[i as int],
            e.value@ == self.values()[i as int],
            self@.contains_key(e.key@),
            self@[e.key@] == e.value@,
    {
        proof {
            use_type_invariant(self);
            lemma_sorted_index_of(self.keys(), i as int);
        }
        &self.entries[i]
    }

    /// Where `key` is, or where it would have to be put.
    fn search(&self, key: &[u8]) -> (r: (usize, bool))
        ensures
            r.0 <= self.keys().len(),
            r.1 ==> r.0 < self.keys().len() && self.keys()[r.0 as int] == key@,
            !r.1 ==> forall|i: int| 0 <= i < r.0 ==> lex_less(#[trigger] self.keys()[i], key@),
            !r.1 ==> forall|i: int|
                r.0 <= i < self.keys().len() ==> lex_less(key@, #[trigger] self.keys()[i]),
    {
        proof {
            use_type_invariant(self);
        }
        let mut lo: usize = 0;
        let mut hi: usize = self.entries.len();
        while lo < hi
            invariant
                lo <= hi <= self.keys().len(),
                self.keys().len() == self.entries@.len(),
                sorted_keys(self.keys()),
                forall|i: int| 0 <= i < lo ==> lex_less(#[trigger] self.keys()[i], key@),
                forall|i: int| hi <= i < self.keys().len() ==> lex_less(key@, #[trigger] self.keys()[i]),
            decreases hi - lo,
        {
            let mid: usize = lo + (hi - lo) / 2;
            let probe = &self.entries[mid];
            assert(probe.key@ == self.keys()[mid as int]);
            if bytes_equal(probe.key.as_slice(), key) {
                return (mid, true);
            }
            if bytes_less(probe.key.as_slice(), key) {
                assert forall|i: int| 0 <= i < mid + 1 implies lex_less(
                    #[trigger] self.keys()[i],
                    key@,
                ) by {
                    if i < mid {
                        lemma_lex_transitive(self.keys()[i], self.keys()[mid as int], key@);
                    }
                }
                lo = mid + 1;
            } else {
                proof {
                    lemma_lex_connected(probe.key@, key@);
                }
                assert forall|i: int| mid <= i < self.keys().len() implies lex_less(
                    key@,
                    #[trigger] self.keys()[i],
                ) by {
                    if mid < i {
                        lemma_lex_transitive(key@, self.keys()[mid as int], self.keys()[i]);
                    }
                }
                hi = mid;
            }
        }
        (lo, false)
    }

    /// Whether `key` is bound.
    pub fn contains_key(&self, key: &[u8]) -> (r: bool)
        ensures
            r == self@.contains_key(key@),
    {
        let (at, found) = self.search(key);
        proof {
            if found {
                assert(self.keys().contains(key@));
            } else {
                lemma_gap_absent(self.keys(), at as int, key@);
            }
        }
        found
    }

    /// The value bound to `key`, if any.
    pub fn get(&self, key: &[u8]) -> (r: Option<&V>)
        ensures
            r is Some == self@.contains_key(key@),
            r matches Some(v) ==> v@ == self@[key@],
    {
        let (at, found) = self.search(key);
        if found {
            proof {
                use_type_invariant(self);
                lemma_sorted_index_of(self.keys(), at as int);
            }
            Some(&self.entries[at].value)
        } else {
            proof {
                lemma_gap_absent(self.keys(), at as int, key@);
            }
            None
        }
    }

    /// Binds `key` to `value`, in place of any value it had.
    pub fn put(&mut self, key: &[u8], value: V)
        ensures
            final(self)@ == old(self)@.insert(key@, value@),
    {
        let (at, found) = self.search(key);
        proof {
            use_type_invariant(&*self);
        }
        let ghost keys = self.keys();
        let ghost values = self.values();
        let entry = Entry { key: copy_bytes(key), value };
        let mut entries: Vec<Entry<V>> = Vec::new();
        core::mem::swap(&mut self.entries, &mut entries);
        if found {
            entries.set(at, entry);
            proof {
                assert(entry_keys(entries@) =~= keys);
                assert(entry_values(entries@) =~= values.update(at as int, value@));
                lemma_assoc_update(keys, values, at as int, value@);
            }
            core::mem::swap(&mut self.entries, &mut entries);
        } else {
            entries.insert(at, entry);
            proof {
                assert(entry_keys(entries@) =~= keys.insert(at as int, key@));
                assert(entry_values(entries@) =~= values.insert(at as int, value@));
                lemma_assoc_insert(keys, values, at as int, key@, value@);
            }
            core::mem::swap(&mut self.entries, &mut entries);
        }
    }

    /// Puts `value` in place of the value at position `i` of the stored
    /// order.
    pub fn replace_at(&mut self, i: usize, value: V)
        requires
            i < old(self).keys().len(),
        ensures
            final(self).keys() == old(self).keys(),
            final(self).values() == old(self).values().update(i as int, value@),
            final(self)@ == old(self)@.insert(old(self).keys()[i as int], value@),
    {
        proof {
            use_type_invariant(&*self);
        }
        let ghost keys = self.keys();
        let ghost values = self.values();
        let mut entries: Vec<Entry<V>> = Vec::new();
        core::mem::swap(&mut self.entries, &mut entries);
        let old_entry = entries.remove(i);
        entries.insert(i, Entry { key: old_entry.key, value });
        proof {
            assert(entry_keys(entries@) =~= keys);
            assert(entry_values(entries@) =~= values.update(i as int, value@));
            lemma_assoc_update(keys, values, i as int, value@);
        }
        core::mem::swap(&mut self.entries, &mut entries);
    }

    /// The table has as many bindings as keys, and finitely many.
    pub proof fn lemma_finite(keys: Seq<Seq<u8>>, values: Seq<V::V>)
        requires
            sorted_keys(keys),
            keys.len() == values.len(),
        ensures
            assoc_map(keys, values).dom().finite(),
            assoc_map(keys, values).dom().len() == keys.len(),
        decreases keys.len(),
    {
        let map = assoc_map(keys, values);
        if keys.len() == 0 {
            assert(map.dom() =~= Set::<Seq<u8>>::empty());
        } else {
            let shorter = keys.drop_last();
            let fewer = values.drop_last();
            assert forall|i: int, j: int| 0 <= i < j < shorter.len() implies lex_less(
                #[trigger] shorter[i],
                #[trigger] shorter[j],
            ) by {
                assert(shorter[i] == keys[i] && shorter[j] == keys[j]);
            }
            Self::lemma_finite(shorter, fewer);
            let rest = assoc_map(shorter, fewer);
            assert(!shorter.contains(keys.last())) by {
                if shorter.contains(keys.last()) {
                    let i = shorter.index_of(keys.last());
                    assert(shorter[i] == keys[i]);
                    lemma_lex_asymmetric(keys[i], keys[keys.len() - 1]);
                }
            }
            assert(map.dom() =~= rest.dom().insert(keys.last())) by {
                assert forall|k: Seq<u8>| map.dom().contains(k) <==> rest.dom().insert(
                    keys.last(),
                ).contains(k) by {
                    if keys.contains(k) {
                        let i = keys.index_of(k);
                        if i < keys.len() - 1 {
                            assert(shorter[i] == k);
                        }
                    }
                    if shorter.contains(k) {
                        let i = shorter.index_of(k);
                        assert(keys[i] == k);
                    }
                    if k == keys.last() {
                        assert(keys[keys.len() - 1] == k);
                    }
                }
            }
        }
    }

    /// Unbinds `key` and hands back the value it had, if any.
    pub fn take(&mut self, key: &[u8]) -> (r: Option<V>)
        ensures
            final(self)@ == old(self)@.remove(key@),
            r is Some == old(self)@.contains_key(key@),
            r matches Some(v) ==> v@ == old(self)@[key@],
            final(self).keys().len() == old(self).keys().len() - (if r is Some {
                1int
            } else {
                0int
            }),
    {
        let (at, found) = self.search(key);
        proof {
            use_type_invariant(&*self);
        }
        let ghost keys = self.keys();
        let ghost values = self.values();
        if found {
            let mut entries: Vec<Entry<V>> = Vec::new();
            core::mem::swap(&mut self.entries, &mut entries);
            let entry = entries.remove(at);
            proof {
                assert(entry_keys(entries@) =~= keys.remove(at as int));
                assert(entry_values(entries@) =~= values.remove(at as int));
                lemma_assoc_remove(keys, values, at as int);
                lemma_sorted_index_of(keys, at as int);
            }
            core::mem::swap(&mut self.entries, &mut entries);
            Some(entry.value)
        } else {
            proof {
                lemma_gap_absent(keys, at as int, key@);
                assert(self@ =~= self@.remove(key@));
            }
            None
        }
    }

    /// Unbinds `key`; says whether it was bound.
    pub fn delete(&mut self, key: &[u8]) -> (r: bool)
        ensures
            final(self)@ == old(self)@.remove(key@),
            r == old(self)@.contains_key(key@),
    {
        self.take(key).is_some()
    }
}


impl<V: View + Copy> Table<V> {
    /// A table with the same bindings.
    pub fn copy(&self) -> (copy: Table<V>)
        ensures
            copy@ == self@,
            copy.keys() == self.keys(),
            copy.values() == self.values(),
    {
        proof {
            use_type_invariant(self);
        }
        let mut entries: Vec<Entry<V>> = Vec::new();
        let mut i: usize = 0;
        while i < self.entries.len()
            invariant
                i <= self.entries@.len(),
                entries@.len() == i,
                forall|j: int|
                    0 <= j < i ==> (#[trigger] entries@[j]).key@ == self.entries@[j].key@
                        && entries@[j].value == self.entries@[j].value,
            decreases self.entries@.len() - i,
        {
            let entry = &self.entries[i];
            entries.push(Entry { key: copy_bytes(entry.key.as_slice()), value: entry.value });
            i += 1;
        }
        proof {
            assert(entry_keys(entries@) =~= self.keys());
            assert(entry_values(entries@) =~= self.values());
        }
        Table { entries }
    }
}

} // verus!
