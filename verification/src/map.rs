//! A map from byte strings to values, kept sorted by key.
//!
//! Fingerprints, mailbox ids, handles and record names are all keys of this kind. What walks a
//! map (a sweep, a listing, a round of notifications) goes in dictionary order, so that its
//! result is a function of the contents alone.

use vstd::prelude::*;
use crate::bytes::{bytes_equal, bytes_less, bytes_lt, copy_bytes};
use crate::bytes::{lemma_bytes_lt_total, lemma_bytes_lt_transitive};

verus! {

/// A map from byte strings to values. Lookups are by binary search; walking it by position
/// visits the keys in dictionary order.
pub struct ByteMap<V> {
    keys: Vec<Vec<u8>>,
    values: Vec<V>,
}

/// Each key comes before every later one: the list is sorted and nothing occurs twice.
pub open spec fn keys_sorted(keys: Seq<Seq<u8>>) -> bool {
    forall|i: int, j: int| 0 <= i < j < keys.len() ==> bytes_lt(#[trigger] keys[i], #[trigger] keys[j])
}

/// Where `key` stands in `keys`.
pub open spec fn position(keys: Seq<Seq<u8>>, key: Seq<u8>) -> int {
    choose|i: int| 0 <= i < keys.len() && keys[i] == key
}

/// The map that pairs each key with the value at its position.
pub open spec fn pairing<V>(keys: Seq<Seq<u8>>, values: Seq<V>) -> Map<Seq<u8>, V> {
    Map::new(|k: Seq<u8>| keys.contains(k), |k: Seq<u8>| values[position(keys, k)])
}

/// In a sorted list every key stands at one position only.
pub proof fn lemma_position(keys: Seq<Seq<u8>>, i: int)
    requires
        keys_sorted(keys),
        0 <= i < keys.len(),
    ensures
        keys.contains(keys[i]),
        position(keys, keys[i]) == i,
{
    let p = position(keys, keys[i]);
    assert(0 <= p < keys.len() && keys[p] == keys[i]);
    lemma_bytes_lt_total(keys[i], keys[i]);
    if p < i {
        assert(bytes_lt(keys[p], keys[i]));
    } else if i < p {
        assert(bytes_lt(keys[i], keys[p]));
    }
}

/// The paired map holds at each listed key the value at the key's position.
pub proof fn lemma_pairing<V>(keys: Seq<Seq<u8>>, values: Seq<V>)
    requires
        keys_sorted(keys),
        keys.len() == values.len(),
    ensures
        forall|i: int|
            0 <= i < keys.len() ==> #[trigger] pairing(keys, values).dom().contains(keys[i])
                && pairing(keys, values)[keys[i]] == values[i],
        forall|k: Seq<u8>| #[trigger]
            pairing(keys, values).dom().contains(k) ==> exists|i: int|
                0 <= i < keys.len() && keys[i] == k,
{
    assert forall|i: int| 0 <= i < keys.len() implies #[trigger] pairing(
        keys,
        values,
    ).dom().contains(keys[i]) && pairing(keys, values)[keys[i]] == values[i] by {
        lemma_position(keys, i);
    }
}

/// The paired map has as many keys as the list.
pub proof fn lemma_pairing_len<V>(keys: Seq<Seq<u8>>, values: Seq<V>)
    requires
        keys_sorted(keys),
        keys.len() == values.len(),
    ensures
        pairing(keys, values).dom().finite(),
        pairing(keys, values).len() == keys.len(),
{
    assert forall|i: int, j: int| 0 <= i < keys.len() && 0 <= j < keys.len() && i != j implies keys[i]
        != keys[j] by {
        lemma_bytes_lt_total(keys[i], keys[j]);
        lemma_bytes_lt_total(keys[i], keys[i]);
    }
    keys.unique_seq_to_set();
    assert(pairing(keys, values).dom() =~= keys.to_set());
}

/// The entry of `m` at `k`, if there is one.
pub open spec fn lookup<K, V>(m: Map<K, V>, k: K) -> Option<V> {
    if m.dom().contains(k) {
        Some(m[k])
    } else {
        None
    }
}

/// The elements of `items` whose mark is set, in order.
pub open spec fn marked<T>(items: Seq<T>, marks: Seq<bool>) -> Seq<T>
    recommends
        items.len() == marks.len(),
    decreases items.len(),
{
    if items.len() == 0 {
        Seq::empty()
    } else if marks.last() {
        marked(items.drop_last(), marks.drop_last()).push(items.last())
    } else {
        marked(items.drop_last(), marks.drop_last())
    }
}

/// The part of the map whose keys stand at marked positions.
pub open spec fn marked_part<V>(keys: Seq<Seq<u8>>, values: Seq<V>, marks: Seq<bool>) -> Map<
    Seq<u8>,
    V,
> {
    Map::new(
        |k: Seq<u8>| keys.contains(k) && marks[position(keys, k)],
        |k: Seq<u8>| values[position(keys, k)],
    )
}

/// Every marked element came from a marked position.
proof fn lemma_marked_from<V>(
    keys: Seq<Seq<u8>>,
    values: Seq<V>,
    marks: Seq<bool>,
    j: int,
) -> (i: int)
    requires
        keys.len() == marks.len(),
        keys.len() == values.len(),
        0 <= j < marked(keys, marks).len(),
    ensures
        0 <= i < keys.len(),
        marks[i],
        marked(keys, marks).len() == marked(values, marks).len(),
        marked(keys, marks)[j] == keys[i],
        marked(values, marks)[j] == values[i],
    decreases keys.len(),
{
    let n = keys.len() - 1;
    lemma_marked_len(keys, values, marks);
    lemma_marked_len(keys.drop_last(), values.drop_last(), marks.drop_last());
    if marks.last() && j == marked(keys, marks).len() - 1 {
        n
    } else {
        lemma_marked_from(keys.drop_last(), values.drop_last(), marks.drop_last(), j)
    }
}

proof fn lemma_marked_len<V>(keys: Seq<Seq<u8>>, values: Seq<V>, marks: Seq<bool>)
    requires
        keys.len() == marks.len(),
        keys.len() == values.len(),
    ensures
        marked(keys, marks).len() == marked(values, marks).len(),
        marked(keys, marks).len() <= keys.len(),
    decreases keys.len(),
{
    if keys.len() > 0 {
        lemma_marked_len(keys.drop_last(), values.drop_last(), marks.drop_last());
    }
}

/// Every marked position is kept.
proof fn lemma_marked_keeps(keys: Seq<Seq<u8>>, marks: Seq<bool>, i: int) -> (j: int)
    requires
        keys.len() == marks.len(),
        0 <= i < keys.len(),
        marks[i],
    ensures
        0 <= j < marked(keys, marks).len(),
        marked(keys, marks)[j] == keys[i],
    decreases keys.len(),
{
    if i == keys.len() - 1 {
        marked(keys, marks).len() - 1
    } else {
        lemma_marked_keeps(keys.drop_last(), marks.drop_last(), i)
    }
}

/// Leaving elements out keeps a list sorted.
proof fn lemma_marked_sorted(keys: Seq<Seq<u8>>, marks: Seq<bool>)
    requires
        keys.len() == marks.len(),
        keys_sorted(keys),
    ensures
        keys_sorted(marked(keys, marks)),
        forall|j: int, b: Seq<u8>|
            0 <= j < marked(keys, marks).len() && (forall|i: int|
                0 <= i < keys.len() ==> bytes_lt(#[trigger] keys[i], b)) ==> #[trigger] bytes_lt(
                marked(keys, marks)[j],
                b,
            ),
    decreases keys.len(),
{
    if keys.len() > 0 {
        lemma_marked_sorted(keys.drop_last(), marks.drop_last());
        let shorter = keys.drop_last();
        let m = marked(shorter, marks.drop_last());
        assert(forall|i: int| 0 <= i < shorter.len() ==> shorter[i] == keys[i]);
        assert forall|j: int| 0 <= j < m.len() implies bytes_lt(#[trigger] m[j], keys.last()) by {
            let _ = lemma_marked_from(shorter, shorter, marks.drop_last(), j);
        }
        assert forall|j: int, b: Seq<u8>|
            0 <= j < marked(keys, marks).len() && (forall|i: int|
                0 <= i < keys.len() ==> bytes_lt(#[trigger] keys[i], b)) implies #[trigger] bytes_lt(
            marked(keys, marks)[j],
            b,
        ) by {
            let i = lemma_marked_from(keys, keys, marks, j);
            assert(bytes_lt(keys[i], b));
        }
    }
}

proof fn lemma_marked_map(keys: Seq<Vec<u8>>, marks: Seq<bool>)
    requires
        keys.len() == marks.len(),
    ensures
        marked(keys, marks).map_values(|k: Vec<u8>| k@) == marked(
            keys.map_values(|k: Vec<u8>| k@),
            marks,
        ),
        marked(keys, marks).len() <= keys.len(),
    decreases keys.len(),
{
    if keys.len() > 0 {
        lemma_marked_map(keys.drop_last(), marks.drop_last());
        assert(keys.map_values(|k: Vec<u8>| k@).drop_last() =~= keys.drop_last().map_values(
            |k: Vec<u8>| k@,
        ));
    }
    assert(marked(keys, marks).map_values(|k: Vec<u8>| k@) =~= marked(
        keys.map_values(|k: Vec<u8>| k@),
        marks,
    ));
}

/// The marked lists pair up to the marked part of the map.
proof fn lemma_marked_pairing<V>(keys: Seq<Seq<u8>>, values: Seq<V>, marks: Seq<bool>)
    requires
        keys.len() == marks.len(),
        keys.len() == values.len(),
        keys_sorted(keys),
    ensures
        marked(keys, marks).len() == marked(values, marks).len(),
        keys_sorted(marked(keys, marks)),
        pairing(marked(keys, marks), marked(values, marks)) == marked_part(keys, values, marks),
{
    lemma_marked_len(keys, values, marks);
    lemma_marked_sorted(keys, marks);
    let left = pairing(marked(keys, marks), marked(values, marks));
    let right = marked_part(keys, values, marks);
    assert forall|k: Seq<u8>| #[trigger] left.dom().contains(k) implies right.dom().contains(k)
        && left[k] == right[k] by {
        let j = position(marked(keys, marks), k);
        assert(0 <= j < marked(keys, marks).len() && marked(keys, marks)[j] == k);
        let i = lemma_marked_from(keys, values, marks, j);
        lemma_position(keys, i);
    }
    assert forall|k: Seq<u8>| #[trigger] right.dom().contains(k) implies left.dom().contains(k) by {
        let i = position(keys, k);
        assert(0 <= i < keys.len() && keys[i] == k);
        let j = lemma_marked_keeps(keys, marks, i);
        assert(marked(keys, marks)[j] == k);
    }
    assert(left =~= right);
}

/// Marks that say a predicate of the key pick out the part of the map where it holds.
pub proof fn lemma_marked_part_where<V>(
    keys: Seq<Seq<u8>>,
    values: Seq<V>,
    marks: Seq<bool>,
    keep: spec_fn(Seq<u8>) -> bool,
)
    requires
        keys_sorted(keys),
        keys.len() == values.len(),
        keys.len() == marks.len(),
        forall|j: int| 0 <= j < keys.len() ==> marks[j] == keep(#[trigger] keys[j]),
    ensures
        marked_part(keys, values, marks) == Map::new(
            |k: Seq<u8>| pairing(keys, values).dom().contains(k) && keep(k),
            |k: Seq<u8>| pairing(keys, values)[k],
        ),
{
    let left = marked_part(keys, values, marks);
    let right = Map::new(
        |k: Seq<u8>| pairing(keys, values).dom().contains(k) && keep(k),
        |k: Seq<u8>| pairing(keys, values)[k],
    );
    assert forall|k: Seq<u8>| #[trigger] left.dom().contains(k) == right.dom().contains(k) by {
        if keys.contains(k) {
            let p = position(keys, k);
            assert(0 <= p < keys.len() && keys[p] == k);
        }
    }
    assert(left =~= right);
}

/// The members of a finite set, in dictionary order.
pub open spec fn in_order(set: Set<Seq<u8>>) -> Seq<Seq<u8>> {
    choose|keys: Seq<Seq<u8>>| keys_sorted(keys) && keys.to_set() == set
}

/// A set has one dictionary order only.
pub proof fn lemma_in_order(keys: Seq<Seq<u8>>, set: Set<Seq<u8>>)
    requires
        keys_sorted(keys),
        forall|k: Seq<u8>| keys.contains(k) <==> set.contains(k),
    ensures
        in_order(set) == keys,
{
    assert(keys.to_set() =~= set);
    let other = in_order(set);
    assert(keys_sorted(other) && other.to_set() == set);
    assert forall|k: Seq<u8>| keys.contains(k) <==> other.contains(k) by {
        assert(other.to_set().contains(k) <==> other.contains(k));
    }
    lemma_sorted_unique(keys, other);
}

/// Every finite set has a dictionary order.
pub proof fn lemma_in_order_of_finite(set: Set<Seq<u8>>)
    requires
        set.finite(),
    ensures
        keys_sorted(in_order(set)),
        forall|k: Seq<u8>| in_order(set).contains(k) <==> set.contains(k),
        in_order(set).len() == set.len(),
    decreases set.len(),
{
    if set.len() == 0 {
        assert(set =~= Set::<Seq<u8>>::empty());
        let none = Seq::<Seq<u8>>::empty();
        lemma_in_order(none, set);
    } else {
        let x = set.choose();
        let rest = set.remove(x);
        lemma_in_order_of_finite(rest);
        let keys = in_order(rest);
        let p = lemma_place_of(keys, x);
        let all = keys.insert(p, x);
        assert forall|i: int, j: int| 0 <= i < j < all.len() implies bytes_lt(
            #[trigger] all[i],
            #[trigger] all[j],
        ) by {
            if i == p {
                assert(keys.contains(keys[j - 1]));
                assert(all[j] == keys[j - 1]);
                lemma_bytes_lt_total(x, keys[j - 1]);
            } else if j == p {
                assert(all[i] == keys[i]);
            } else {
                let i0 = if i < p { i } else { i - 1 };
                let j0 = if j < p { j } else { j - 1 };
                assert(all[i] == keys[i0] && all[j] == keys[j0]);
            }
        }
        assert forall|k: Seq<u8>| all.contains(k) <==> set.contains(k) by {
            if all.contains(k) {
                let i = choose|i: int| 0 <= i < all.len() && all[i] == k;
                if i != p {
                    let i0 = if i < p { i } else { i - 1 };
                    assert(keys[i0] == k);
                    assert(keys.contains(k));
                }
            }
            if set.contains(k) {
                if k == x {
                    assert(all[p] == x);
                } else {
                    assert(keys.contains(k));
                    let i0 = choose|i0: int| 0 <= i0 < keys.len() && keys[i0] == k;
                    let i = if i0 < p { i0 } else { i0 + 1 };
                    assert(all[i] == k);
                }
            }
        }
        lemma_in_order(all, set);
    }
}

/// How many keys of a sorted list come before `x`.
proof fn lemma_place_of(keys: Seq<Seq<u8>>, x: Seq<u8>) -> (p: int)
    requires
        keys_sorted(keys),
    ensures
        0 <= p <= keys.len(),
        forall|j: int| 0 <= j < p ==> bytes_lt(#[trigger] keys[j], x),
        forall|j: int| p <= j < keys.len() ==> !bytes_lt(#[trigger] keys[j], x),
    decreases keys.len(),
{
    if keys.len() == 0 {
        0
    } else {
        let shorter = keys.drop_last();
        assert(forall|i: int| 0 <= i < shorter.len() ==> shorter[i] == keys[i]);
        if bytes_lt(keys.last(), x) {
            assert forall|j: int| 0 <= j < keys.len() implies bytes_lt(#[trigger] keys[j], x) by {
                if j < keys.len() - 1 {
                    lemma_bytes_lt_transitive(keys[j], keys[keys.len() - 1], x);
                }
            }
            keys.len() as int
        } else {
            let p = lemma_place_of(shorter, x);
            assert forall|j: int| 0 <= j < p implies bytes_lt(#[trigger] keys[j], x) by {
                assert(bytes_lt(shorter[j], x));
            }
            assert forall|j: int| p <= j < keys.len() implies !bytes_lt(#[trigger] keys[j], x) by {
                if j < keys.len() - 1 {
                    assert(!bytes_lt(shorter[j], x));
                }
            }
            p
        }
    }
}

proof fn lemma_sorted_unique(a: Seq<Seq<u8>>, b: Seq<Seq<u8>>)
    requires
        keys_sorted(a),
        keys_sorted(b),
        forall|k: Seq<u8>| a.contains(k) <==> b.contains(k),
    ensures
        a == b,
    decreases a.len(),
{
    if a.len() == 0 {
        if b.len() > 0 {
            assert(b.contains(b[0]));
        }
        assert(a =~= b);
    } else {
        assert(a.contains(a.last()));
        let p = choose|p: int| 0 <= p < b.len() && b[p] == a.last();
        assert(b.contains(b.last()));
        let q = choose|q: int| 0 <= q < a.len() && a[q] == b.last();
        if a.last() != b.last() {
            assert(bytes_lt(b[p], b[b.len() - 1]));
            assert(bytes_lt(a[q], a[a.len() - 1]));
            lemma_bytes_lt_total(a.last(), b.last());
        }
        let a1 = a.drop_last();
        let b1 = b.drop_last();
        assert forall|k: Seq<u8>| a1.contains(k) <==> b1.contains(k) by {
            lemma_bytes_lt_total(a.last(), a.last());
            if a1.contains(k) {
                let i = choose|i: int| 0 <= i < a1.len() && a1[i] == k;
                assert(bytes_lt(a[i], a[a.len() - 1]));
                assert(a.contains(a[i]));
                let j = choose|j: int| 0 <= j < b.len() && b[j] == k;
                assert(b1[j] == k);
            }
            if b1.contains(k) {
                let i = choose|i: int| 0 <= i < b1.len() && b1[i] == k;
                assert(bytes_lt(b[i], b[b.len() - 1]));
                assert(b.contains(b[i]));
                let j = choose|j: int| 0 <= j < a.len() && a[j] == k;
                assert(a1[j] == k);
            }
        }
        lemma_sorted_unique(a1, b1);
        assert(a =~= a1.push(a.last()));
        assert(b =~= b1.push(b.last()));
    }
}

/// The sum of the numbers of a list.
pub open spec fn sum(numbers: Seq<nat>) -> nat
    decreases numbers.len(),
{
    if numbers.len() == 0 {
        0
    } else {
        sum(numbers.drop_last()) + numbers.last()
    }
}

/// The sum of the numbers of a finite map.
pub open spec fn total(m: Map<Seq<u8>, nat>) -> nat
    decreases m.dom().len(),
{
    if !m.dom().finite() || m.dom().len() == 0 {
        0
    } else {
        let k = m.dom().choose();
        m[k] + total(m.remove(k))
    }
}

/// Any key may be counted first.
pub proof fn lemma_total_remove(m: Map<Seq<u8>, nat>, k: Seq<u8>)
    requires
        m.dom().finite(),
        m.dom().contains(k),
    ensures
        total(m) == m[k] + total(m.remove(k)),
    decreases m.dom().len(),
{
    let c = m.dom().choose();
    assert(m.dom().contains(c));
    if c != k {
        lemma_total_remove(m.remove(c), k);
        lemma_total_remove(m.remove(k), c);
        assert(m.remove(c).remove(k) =~= m.remove(k).remove(c));
    }
}

/// The numbers of a map add up to the sum of its value list.
pub proof fn lemma_total_of_pairing(keys: Seq<Seq<u8>>, numbers: Seq<nat>)
    requires
        keys_sorted(keys),
        keys.len() == numbers.len(),
    ensures
        total(pairing(keys, numbers)) == sum(numbers),
    decreases keys.len(),
{
    let m = pairing(keys, numbers);
    lemma_pairing(keys, numbers);
    lemma_pairing_len(keys, numbers);
    if keys.len() > 0 {
        let n = keys.len() - 1;
        let k = keys[n];
        let shorter = pairing(keys.drop_last(), numbers.drop_last());
        lemma_total_remove(m, k);
        lemma_total_of_pairing(keys.drop_last(), numbers.drop_last());
        lemma_pairing(keys.drop_last(), numbers.drop_last());
        assert forall|x: Seq<u8>| #[trigger] m.remove(k).dom().contains(x) implies shorter.dom().contains(x)
            && shorter[x] == m[x] by {
            let p = position(keys, x);
            assert(0 <= p < keys.len() && keys[p] == x);
            assert(keys.drop_last()[p] == x);
            lemma_position(keys.drop_last(), p);
        }
        assert forall|x: Seq<u8>| #[trigger] shorter.dom().contains(x) implies m.remove(k).dom().contains(x) by {
            let p = position(keys.drop_last(), x);
            assert(0 <= p < n && keys.drop_last()[p] == x);
            assert(keys[p] == x);
            lemma_position(keys, p);
            lemma_position(keys, n);
        }
        assert(m.remove(k) =~= shorter);
    }
}

impl<V> View for ByteMap<V> {
    type V = Map<Seq<u8>, V>;

    closed spec fn view(&self) -> Map<Seq<u8>, V> {
        pairing(self.key_seq(), self.values@)
    }
}

impl<V> ByteMap<V> {
    /// The keys in dictionary order.
    pub closed spec fn key_seq(&self) -> Seq<Seq<u8>> {
        self.keys@.map_values(|k: Vec<u8>| k@)
    }

    /// The values in the order of their keys.
    pub closed spec fn value_seq(&self) -> Seq<V> {
        self.values@
    }

    /// Keys and values pair up, and the keys are sorted without repetition.
    #[verifier::type_invariant]
    pub closed spec fn wf(&self) -> bool {
        &&& self.keys@.len() == self.values@.len()
        &&& keys_sorted(self.key_seq())
    }

    /// What the two ordered lists say of the map.
    proof fn lemma_layout(&self)
        requires
            self.wf(),
        ensures
            self.key_seq().len() == self.value_seq().len(),
            keys_sorted(self.key_seq()),
            self@ == pairing(self.key_seq(), self.value_seq()),
            forall|k: Seq<u8>| #![auto] self@.dom().contains(k) <==> self.key_seq().contains(k),
            forall|i: int|
                0 <= i < self.key_seq().len() ==> self@.dom().contains(#[trigger] self.key_seq()[i])
                    && self@[self.key_seq()[i]] == self.value_seq()[i],
    {
        lemma_pairing(self.key_seq(), self.value_seq());
    }

    /// Does nothing at run time; tells a caller's proof how the map is laid out.
    pub fn layout(&self)
        ensures
            self.key_seq().len() == self.value_seq().len(),
            self.key_seq().len() <= usize::MAX,
            self@.dom().finite(),
            self@.len() == self.key_seq().len(),
            keys_sorted(self.key_seq()),
            self@ == pairing(self.key_seq(), self.value_seq()),
            forall|k: Seq<u8>| #![auto] self@.dom().contains(k) <==> self.key_seq().contains(k),
            forall|i: int|
                0 <= i < self.key_seq().len() ==> self@.dom().contains(#[trigger] self.key_seq()[i])
                    && self@[self.key_seq()[i]] == self.value_seq()[i],
    {
        let _len: usize = self.keys.len();
        proof {
            use_type_invariant(self);
            self.lemma_layout();
            lemma_pairing_len(self.key_seq(), self.value_seq());
        }
    }

    /// The map that holds nothing.
    pub fn new() -> (map: Self)
        ensures
            map@ == Map::<Seq<u8>, V>::empty(),
            map.key_seq().len() == 0,
    {
        let map: ByteMap<V> = ByteMap { keys: Vec::new(), values: Vec::new() };
        assert(map@ =~= Map::<Seq<u8>, V>::empty());
        map
    }

    /// How many keys the map holds.
    pub fn len(&self) -> (n: usize)
        ensures
            n == self.key_seq().len(),
            n == self.value_seq().len(),
    {
        proof {
            use_type_invariant(self);
        }
        self.keys.len()
    }

    /// The key at a position of the dictionary order.
    pub fn key_at(&self, i: usize) -> (key: &Vec<u8>)
        requires
            i < self.key_seq().len(),
        ensures
            key@ == self.key_seq()[i as int],
    {
        &self.keys[i]
    }

    /// The value at a position of the dictionary order.
    pub fn value_at(&self, i: usize) -> (value: &V)
        requires
            i < self.key_seq().len(),
        ensures
            *value == self.value_seq()[i as int],
    {
        proof {
            use_type_invariant(self);
        }
        &self.values[i]
    }

    /// The number of keys that come before `key`.
    fn lower_bound(&self, key: &[u8]) -> (at: usize)
        ensures
            at <= self.key_seq().len(),
            forall|j: int| 0 <= j < at ==> bytes_lt(#[trigger] self.key_seq()[j], key@),
            forall|j: int| at <= j < self.key_seq().len() ==> !bytes_lt(#[trigger] self.key_seq()[j], key@),
    {
        proof {
            use_type_invariant(self);
        }
        let mut low: usize = 0;
        let mut high: usize = self.keys.len();
        while low < high
            invariant
                low <= high <= self.key_seq().len(),
                self.keys@.len() == self.key_seq().len(),
                keys_sorted(self.key_seq()),
                forall|j: int| 0 <= j < low ==> bytes_lt(#[trigger] self.key_seq()[j], key@),
                forall|j: int|
                    high <= j < self.key_seq().len() ==> !bytes_lt(#[trigger] self.key_seq()[j], key@),
            decreases high - low,
        {
            let mid: usize = low + (high - low) / 2;
            let less: bool = bytes_less(self.keys[mid].as_slice(), key);
            assert(self.key_seq()[mid as int] == self.keys@[mid as int]@);
            if less {
                assert forall|j: int| 0 <= j < mid + 1 implies bytes_lt(
                    #[trigger] self.key_seq()[j],
                    key@,
                ) by {
                    if low <= j < mid {
                        lemma_bytes_lt_transitive(self.key_seq()[j], self.key_seq()[mid as int], key@);
                    }
                }
                low = mid + 1;
            } else {
                assert forall|j: int| mid <= j < self.key_seq().len() implies !bytes_lt(
                    #[trigger] self.key_seq()[j],
                    key@,
                ) by {
                    if mid < j < high && bytes_lt(self.key_seq()[j], key@) {
                        lemma_bytes_lt_transitive(self.key_seq()[mid as int], self.key_seq()[j], key@);
                    }
                }
                high = mid;
            }
        }
        low
    }

    /// Where `key` stands in the dictionary order, if the map holds it.
    pub fn index_of(&self, key: &[u8]) -> (at: Option<usize>)
        ensures
            at is Some <==> self@.dom().contains(key@),
            at matches Some(i) ==> i < self.key_seq().len() && self.key_seq()[i as int] == key@
                && self.value_seq()[i as int] == self@[key@],
    {
        let at: usize = self.lower_bound(key);
        proof {
            use_type_invariant(self);
            self.lemma_layout();
        }
        if at < self.keys.len() {
            assert(self.key_seq()[at as int] == self.keys@[at as int]@);
            if bytes_equal(self.keys[at].as_slice(), key) {
                return Some(at);
            }
        }
        proof {
            if self@.dom().contains(key@) {
                let p = position(self.key_seq(), key@);
                assert(0 <= p < self.key_seq().len() && self.key_seq()[p] == key@);
                lemma_bytes_lt_total(key@, key@);
                assert(!bytes_lt(self.key_seq()[p], key@));
                assert(at < p);
                assert(bytes_lt(self.key_seq()[at as int], self.key_seq()[p]));
            }
        }
        None
    }

    /// Whether the map holds `key`.
    pub fn contains_key(&self, key: &[u8]) -> (found: bool)
        ensures
            found == self@.dom().contains(key@),
    {
        self.index_of(key).is_some()
    }

    /// The value at `key`.
    pub fn get(&self, key: &[u8]) -> (value: Option<&V>)
        ensures
            value is Some <==> self@.dom().contains(key@),
            value matches Some(v) ==> *v == self@[key@],
    {
        match self.index_of(key) {
            Some(i) => {
                proof {
                    use_type_invariant(self);
                }
                Some(&self.values[i])
            },
            None => None,
        }
    }

    /// Sets the value at `key`, in place of what was there.
    pub fn insert(&mut self, key: &[u8], value: V)
        ensures
            final(self)@ == old(self)@.insert(key@, value),
    {
        proof {
            use_type_invariant(&*self);
            self.lemma_layout();
        }
        let at: usize = self.lower_bound(key);
        let found: Option<usize> = self.index_of(key);
        let ghost keys0 = self.key_seq();
        let ghost values0 = self.values@;
        let ghost map0 = self@;
        match found {
            Some(i) => {
                let _ = self.replace_at(i, value);
            },
            None => {
                let stored: Vec<u8> = copy_bytes(key);
                proof {
                    let keys1 = keys0.insert(at as int, key@);
                    assert(self.keys@.insert(at as int, stored).map_values(|k: Vec<u8>| k@) =~= keys1);
                    assert forall|i: int, j: int| 0 <= i < j < keys1.len() implies bytes_lt(
                        #[trigger] keys1[i],
                        #[trigger] keys1[j],
                    ) by {
                        if i == at {
                            let k = keys0[j - 1];
                            assert(keys1[j] == k);
                            assert(keys0.contains(k));
                            lemma_bytes_lt_total(key@, k);
                        } else if j == at {
                            assert(keys1[i] == keys0[i]);
                        } else {
                            let i0 = if i < at { i } else { i - 1 };
                            let j0 = if j < at { j } else { j - 1 };
                            assert(keys1[i] == keys0[i0] && keys1[j] == keys0[j0]);
                        }
                    }
                }
                self.insert_at(at, stored, value);
                proof {
                    self.lemma_layout();
                    let keys1 = self.key_seq();
                    let target = map0.insert(key@, value);
                    assert(keys1 =~= keys0.insert(at as int, key@));
                    assert(self.value_seq() =~= values0.insert(at as int, value));
                    lemma_pairing(keys0, values0);
                    assert forall|k: Seq<u8>| #![auto] self@.dom().contains(k) <==> target.dom().contains(k) by {
                        if self@.dom().contains(k) {
                            let p = position(keys1, k);
                            assert(0 <= p < keys1.len() && keys1[p] == k);
                            if p != at {
                                let p0 = if p < at { p } else { p - 1 };
                                assert(keys0[p0] == k);
                                assert(map0.dom().contains(keys0[p0]));
                            }
                        }
                        if target.dom().contains(k) {
                            if k == key@ {
                                assert(keys1[at as int] == k);
                            } else {
                                let p0 = position(keys0, k);
                                assert(0 <= p0 < keys0.len() && keys0[p0] == k);
                                let p = if p0 < at { p0 } else { p0 + 1 };
                                assert(keys1[p] == k);
                            }
                        }
                    }
                    assert forall|k: Seq<u8>| #![auto] self@.dom().contains(k) implies self@[k] == target[k] by {
                        let p = position(keys1, k);
                        assert(0 <= p < keys1.len() && keys1[p] == k);
                        if p != at {
                            let p0 = if p < at { p } else { p - 1 };
                            assert(keys0[p0] == k);
                            assert(map0[keys0[p0]] == values0[p0]);
                        }
                    }
                    assert(self@ =~= target);
                }
            },
        }
    }

    /// Takes the two lists out and leaves the empty map behind.
    fn take_lists(&mut self) -> (lists: (Vec<Vec<u8>>, Vec<V>))
        ensures
            lists.0@.map_values(|k: Vec<u8>| k@) == old(self).key_seq(),
            lists.1@ == old(self).value_seq(),
            lists.0@.len() == lists.1@.len(),
            keys_sorted(old(self).key_seq()),
    {
        let mut taken: ByteMap<V> = ByteMap { keys: Vec::new(), values: Vec::new() };
        core::mem::swap(self, &mut taken);
        proof {
            use_type_invariant(&taken);
        }
        (taken.keys, taken.values)
    }

    fn insert_at(&mut self, at: usize, key: Vec<u8>, value: V)
        requires
            at <= old(self).key_seq().len(),
            keys_sorted(old(self).key_seq().insert(at as int, key@)),
        ensures
            final(self).key_seq() == old(self).key_seq().insert(at as int, key@),
            final(self).value_seq() == old(self).value_seq().insert(at as int, value),
    {
        let (mut keys, mut values) = self.take_lists();
        let ghost key_bytes = key@;
        keys.insert(at, key);
        values.insert(at, value);
        assert(keys@.map_values(|k: Vec<u8>| k@) =~= old(self).key_seq().insert(at as int, key_bytes));
        *self = ByteMap { keys, values };
    }

    /// Puts `value` at a position of the dictionary order and hands out what was there.
    pub fn replace_at(&mut self, at: usize, value: V) -> (previous: V)
        requires
            at < old(self).key_seq().len(),
        ensures
            final(self).key_seq() == old(self).key_seq(),
            final(self).value_seq() == old(self).value_seq().update(at as int, value),
            final(self)@ == old(self)@.insert(old(self).key_seq()[at as int], value),
            previous == old(self).value_seq()[at as int],
    {
        let (keys, mut values) = self.take_lists();
        let mut slot: V = value;
        values.set_and_swap(at, &mut slot);
        *self = ByteMap { keys, values };
        proof {
            let keys0 = old(self).key_seq();
            assert(self.key_seq() =~= keys0);
            lemma_pairing(keys0, old(self).value_seq());
            lemma_pairing(keys0, self.value_seq());
            let target = old(self)@.insert(keys0[at as int], value);
            assert forall|k: Seq<u8>| #![auto] target.dom().contains(k) implies self@.dom().contains(k)
                && self@[k] == target[k] by {
                if k != keys0[at as int] {
                    let p = position(keys0, k);
                    assert(0 <= p < keys0.len() && keys0[p] == k);
                }
            }
            assert(self@ =~= target);
        }
        slot
    }

    /// Removes `key` and hands out its value.
    pub fn remove(&mut self, key: &[u8]) -> (removed: Option<V>)
        ensures
            final(self)@ == old(self)@.remove(key@),
            removed is Some <==> old(self)@.dom().contains(key@),
            removed matches Some(v) ==> v == old(self)@[key@],
            old(self)@.dom().contains(key@) ==> final(self).key_seq() == old(self).key_seq().remove(
                position(old(self).key_seq(), key@),
            ),
    {
        proof {
            use_type_invariant(&*self);
            self.lemma_layout();
        }
        match self.index_of(key) {
            None => {
                assert(self@ =~= old(self)@.remove(key@));
                None
            },
            Some(at) => {
                let (mut keys, mut values) = self.take_lists();
                keys.remove(at);
                let value: V = values.remove(at);
                proof {
                    let keys0 = old(self).key_seq();
                    let keys1 = keys0.remove(at as int);
                    assert(keys@.map_values(|k: Vec<u8>| k@) =~= keys1);
                    assert forall|i: int, j: int| 0 <= i < j < keys1.len() implies bytes_lt(
                        #[trigger] keys1[i],
                        #[trigger] keys1[j],
                    ) by {
                        let i0 = if i < at { i } else { i + 1 };
                        let j0 = if j < at { j } else { j + 1 };
                        assert(keys1[i] == keys0[i0] && keys1[j] == keys0[j0]);
                    }
                }
                *self = ByteMap { keys, values };
                proof {
                    let keys0 = old(self).key_seq();
                    let values0 = old(self).value_seq();
                    let keys1 = self.key_seq();
                    lemma_position(keys0, at as int);
                    lemma_pairing(keys0, values0);
                    lemma_pairing(keys1, self.value_seq());
                    let target = old(self)@.remove(key@);
                    assert(self.value_seq() =~= values0.remove(at as int));
                    assert(keys1 =~= keys0.remove(at as int));
                    assert forall|k: Seq<u8>| #[trigger] self@.dom().contains(k) implies target.dom().contains(k)
                        && self@[k] == target[k] by {
                        let p = position(keys1, k);
                        assert(0 <= p < keys1.len() && keys1[p] == k);
                        let p0 = if p < at { p } else { p + 1 };
                        assert(keys0[p0] == k);
                        lemma_position(keys0, p0);
                    }
                    assert forall|k: Seq<u8>| #[trigger] target.dom().contains(k) implies self@.dom().contains(k) by {
                        let p0 = position(keys0, k);
                        assert(0 <= p0 < keys0.len() && keys0[p0] == k);
                        let p = if p0 < at { p0 } else { p0 - 1 };
                        assert(keys1[p] == k);
                    }
                    assert(self@ =~= target);
                }
                Some(value)
            },
        }
    }

    /// Drops every entry whose position is not marked. Returns how many were dropped.
    pub fn retain_marked(&mut self, marks: &Vec<bool>) -> (removed: usize)
        requires
            marks@.len() == old(self).key_seq().len(),
        ensures
            final(self).key_seq() == marked(old(self).key_seq(), marks@),
            final(self).value_seq() == marked(old(self).value_seq(), marks@),
            final(self)@ == marked_part(old(self).key_seq(), old(self).value_seq(), marks@),
            removed == old(self).key_seq().len() - final(self).key_seq().len(),
    {
        let (mut keys, mut values) = self.take_lists();
        let ghost keys0 = keys@;
        let ghost values0 = values@;
        let total: usize = keys.len();
        let mut later_keys: Vec<Vec<u8>> = Vec::new();
        let mut later_values: Vec<V> = Vec::new();
        while keys.len() > 0
            invariant
                keys@.len() == values@.len(),
                keys0.len() == values0.len(),
                keys@.len() <= keys0.len(),
                keys@ == keys0.take(keys@.len() as int),
                values@ == values0.take(keys@.len() as int),
                later_keys@.len() == keys0.len() - keys@.len(),
                later_values@.len() == keys0.len() - keys@.len(),
                forall|j: int| 0 <= j < later_keys@.len() ==> later_keys@[j] == keys0[keys0.len() - 1 - j],
                forall|j: int|
                    0 <= j < later_values@.len() ==> later_values@[j] == values0[keys0.len() - 1 - j],
            decreases keys@.len(),
        {
            if let Some(key) = keys.pop() {
                later_keys.push(key);
            }
            if let Some(value) = values.pop() {
                later_values.push(value);
            }
        }
        let mut i: usize = 0;
        while i < total
            invariant
                i <= total,
                total == keys0.len(),
                marks@.len() == total,
                keys0.len() == values0.len(),
                later_keys@.len() == total - i,
                later_values@.len() == total - i,
                forall|j: int| 0 <= j < later_keys@.len() ==> later_keys@[j] == keys0[total - 1 - j],
                forall|j: int| 0 <= j < later_values@.len() ==> later_values@[j] == values0[total - 1 - j],
                keys@ == marked(keys0.take(i as int), marks@.take(i as int)),
                values@ == marked(values0.take(i as int), marks@.take(i as int)),
            decreases total - i,
        {
            proof {
                assert(keys0.take(i + 1).drop_last() =~= keys0.take(i as int));
                assert(values0.take(i + 1).drop_last() =~= values0.take(i as int));
                assert(marks@.take(i + 1).drop_last() =~= marks@.take(i as int));
            }
            if let Some(key) = later_keys.pop() {
                if let Some(value) = later_values.pop() {
                    if marks[i] {
                        keys.push(key);
                        values.push(value);
                    }
                }
            }
            i = i + 1;
        }
        proof {
            assert(keys0.take(total as int) =~= keys0);
            assert(values0.take(total as int) =~= values0);
            assert(marks@.take(total as int) =~= marks@);
            lemma_marked_map(keys0, marks@);
            lemma_marked_pairing(old(self).key_seq(), old(self).value_seq(), marks@);
            lemma_marked_len(old(self).key_seq(), old(self).value_seq(), marks@);
        }
        let removed: usize = total - keys.len();
        *self = ByteMap { keys, values };
        removed
    }
}

} // verus!
