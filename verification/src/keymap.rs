//! A map from texts to values that is kept in the order of its keys.
use vstd::prelude::*;
use crate::text::{chars_of, same};

verus! {

broadcast use vstd::string::group_string_axioms;

/// Whether one text comes before another: by the first characters in which they
/// differ, a text before all that go on after it.
pub open spec fn comes_before(a: Seq<char>, b: Seq<char>) -> bool
    decreases a.len(),
{
    if b.len() == 0 {
        false
    } else if a.len() == 0 {
        true
    } else if a[0] != b[0] {
        a[0] < b[0]
    } else {
        comes_before(a.skip(1), b.skip(1))
    }
}

/// Of two different texts exactly one comes before the other.
pub proof fn order_is_total(a: Seq<char>, b: Seq<char>)
    ensures
        comes_before(a, b) || comes_before(b, a) || a == b,
        !(comes_before(a, b) && comes_before(b, a)),
        a == b ==> !comes_before(a, b),
    decreases a.len(),
{
    if a.len() > 0 && b.len() > 0 && a[0] == b[0] {
        order_is_total(a.skip(1), b.skip(1));
        if a.skip(1) == b.skip(1) {
            assert(a =~= seq![a[0]] + a.skip(1));
            assert(b =~= seq![b[0]] + b.skip(1));
        }
    } else if a.len() == 0 && b.len() == 0 {
        assert(a =~= b);
    }
}

/// The order of texts is transitive.
pub proof fn order_is_transitive(a: Seq<char>, b: Seq<char>, c: Seq<char>)
    requires
        comes_before(a, b),
        comes_before(b, c),
    ensures
        comes_before(a, c),
    decreases a.len(),
{
    if a.len() > 0 && a[0] == b[0] && b[0] == c[0] {
        order_is_transitive(a.skip(1), b.skip(1), c.skip(1));
    }
}

/// Whether one text comes before another.
pub fn is_before(a: &str, b: &str) -> (r: bool)
    ensures
        r == comes_before(a@, b@),
{
    let x = chars_of(a);
    let y = chars_of(b);
    let mut i: usize = 0;
    assert(x@.skip(0) =~= a@);
    assert(y@.skip(0) =~= b@);
    while i < x.len() && i < y.len()
        invariant
            x@ == a@,
            y@ == b@,
            i <= x@.len(),
            i <= y@.len(),
            comes_before(a@, b@) == comes_before(x@.skip(i as int), y@.skip(i as int)),
        decreases x@.len() - i,
    {
        assert(x@.skip(i as int)[0] == x@[i as int]);
        assert(y@.skip(i as int)[0] == y@[i as int]);
        if x[i] != y[i] {
            return x[i] < y[i];
        }
        assert(x@.skip(i as int).skip(1) =~= x@.skip(i + 1));
        assert(y@.skip(i as int).skip(1) =~= y@.skip(i + 1));
        i = i + 1;
    }
    i < y.len()
}

// ---------------------------------------------------------------------------
// Maps
// ---------------------------------------------------------------------------

/// A map from texts to values.
#[derive(Debug)]
pub struct KeyMap<V> {
    pub entries: Vec<(String, V)>,
}

impl<V> View for KeyMap<V> {
    type V = Seq<(Seq<char>, V)>;

    open spec fn view(&self) -> Seq<(Seq<char>, V)> {
        Seq::new(self.entries@.len(), |i: int| (self.entries@[i].0@, self.entries@[i].1))
    }
}

/// The keys go up.
pub open spec fn sorted<V>(s: Seq<(Seq<char>, V)>) -> bool {
    forall|i: int, j: int|
        0 <= i < j < s.len() ==> comes_before((#[trigger] s[i]).0, (#[trigger] s[j]).0)
}

/// How many keys stand before a key.
pub open spec fn place<V>(s: Seq<(Seq<char>, V)>, key: Seq<char>) -> int
    decreases s.len(),
{
    if s.len() > 0 && comes_before(s[0].0, key) {
        1 + place(s.skip(1), key)
    } else {
        0
    }
}

/// The value under a key.
pub open spec fn found<V>(s: Seq<(Seq<char>, V)>, key: Seq<char>) -> Option<V> {
    let i = place(s, key);
    if i < s.len() && s[i].0 == key {
        Some(s[i].1)
    } else {
        None
    }
}

/// The entries with a value put under a key, in place of one that was there.
pub open spec fn inserted<V>(s: Seq<(Seq<char>, V)>, key: Seq<char>, value: V) -> Seq<
    (Seq<char>, V),
> {
    let i = place(s, key);
    if i < s.len() && s[i].0 == key {
        s.update(i, (key, value))
    } else {
        s.insert(i, (key, value))
    }
}

/// The place of a key lies after the keys that come before it.
pub proof fn lemma_place<V>(s: Seq<(Seq<char>, V)>, key: Seq<char>)
    ensures
        0 <= place(s, key) <= s.len(),
        forall|i: int| 0 <= i < place(s, key) ==> comes_before((#[trigger] s[i]).0, key),
        place(s, key) < s.len() ==> !comes_before(s[place(s, key)].0, key),
    decreases s.len(),
{
    if s.len() > 0 && comes_before(s[0].0, key) {
        lemma_place(s.skip(1), key);
        assert forall|i: int| 0 <= i < place(s, key) implies comes_before(
            (#[trigger] s[i]).0,
            key,
        ) by {
            if i > 0 {
                assert(s.skip(1)[i - 1] == s[i]);
            }
        }
    }
}

/// There is one place at which the keys stop coming before a key.
pub proof fn lemma_place_unique<V>(s: Seq<(Seq<char>, V)>, key: Seq<char>, k: int)
    requires
        0 <= k <= s.len(),
        forall|i: int| 0 <= i < k ==> comes_before((#[trigger] s[i]).0, key),
        k < s.len() ==> !comes_before(s[k].0, key),
    ensures
        place(s, key) == k,
{
    lemma_place(s, key);
    let p = place(s, key);
    if p < k {
        assert(comes_before(s[p].0, key));
    } else if k < p {
        assert(comes_before(s[k].0, key));
    }
}

/// Putting a value in keeps the keys in order.
pub proof fn insertion_keeps_order<V>(s: Seq<(Seq<char>, V)>, key: Seq<char>, value: V)
    requires
        sorted(s),
    ensures
        sorted(inserted(s, key, value)),
{
    lemma_place(s, key);
    let p = place(s, key);
    let out = inserted(s, key, value);
    if p < s.len() && s[p].0 == key {
        assert forall|i: int, j: int| 0 <= i < j < out.len() implies comes_before(
            (#[trigger] out[i]).0,
            (#[trigger] out[j]).0,
        ) by {
            assert(out[i].0 == s[i].0);
            assert(out[j].0 == s[j].0);
        }
    } else {
        if p < s.len() {
            order_is_total(s[p].0, key);
        }
        assert forall|i: int, j: int| 0 <= i < j < out.len() implies comes_before(
            (#[trigger] out[i]).0,
            (#[trigger] out[j]).0,
        ) by {
            let x = if i < p { i } else { i - 1 };
            let y = if j < p { j } else { j - 1 };
            if i != p {
                assert(out[i] == s[x]);
            }
            if j != p {
                assert(out[j] == s[y]);
            }
            if i == p {
                if y > p {
                    assert(comes_before(s[p].0, s[y].0));
                    order_is_transitive(key, s[p].0, s[y].0);
                }
            }
        }
    }
}

/// A value that was put in is found under its key, and nothing else changes.
pub proof fn insertion_is_found<V>(
    s: Seq<(Seq<char>, V)>,
    key: Seq<char>,
    value: V,
    other: Seq<char>,
)
    requires
        sorted(s),
    ensures
        found(inserted(s, key, value), key) == Some(value),
        other != key ==> found(inserted(s, key, value), other) == found(s, other),
{
    lemma_place(s, key);
    let p = place(s, key);
    let out = inserted(s, key, value);
    order_is_total(key, key);
    let replaced = p < s.len() && s[p].0 == key;
    assert forall|i: int| 0 <= i < p implies comes_before((#[trigger] out[i]).0, key) by {
        assert(out[i].0 == s[i].0);
    }
    lemma_place_unique(out, key, p);
    if other != key {
        lemma_place(s, other);
        let q = place(s, other);
        order_is_total(other, key);
        if replaced {
            assert forall|i: int| 0 <= i < q implies comes_before((#[trigger] out[i]).0, other) by {
                assert(out[i].0 == s[i].0);
            }
            lemma_place_unique(out, other, q);
        } else if comes_before(key, other) {
            // The new entry stands before the other key.
            if q < p {
                assert(comes_before(s[q].0, key));
                order_is_transitive(s[q].0, key, other);
            }
            assert forall|i: int| 0 <= i < q + 1 implies comes_before(
                (#[trigger] out[i]).0,
                other,
            ) by {
                if i < p {
                    assert(out[i] == s[i]);
                } else if i > p {
                    assert(out[i] == s[i - 1]);
                }
            }
            if q < s.len() {
                assert(out[q + 1] == s[q]);
            }
            lemma_place_unique(out, other, q + 1);
        } else {
            // The other key stands before the new entry.
            if q > p {
                assert(comes_before(s[p].0, other));
                order_is_total(s[p].0, key);
                order_is_transitive(s[p].0, other, key);
            }
            assert forall|i: int| 0 <= i < q implies comes_before((#[trigger] out[i]).0, other) by {
                assert(out[i] == s[i]);
            }
            if q < p {
                assert(out[q] == s[q]);
            } else {
                assert(out[q].0 == key);
            }
            lemma_place_unique(out, other, q);
            if q == p && q < s.len() {
                // What stood there is neither key.
                if s[q].0 == other {
                    order_is_total(s[p].0, key);
                }
            }
        }
    }
}

impl<V> KeyMap<V> {
    /// A map without entries.
    pub fn new() -> (r: KeyMap<V>)
        ensures
            r@ == Seq::<(Seq<char>, V)>::empty(),
            sorted(r@),
    {
        let r = KeyMap { entries: Vec::new() };
        assert(r@ =~= Seq::<(Seq<char>, V)>::empty());
        r
    }

    fn find(&self, key: &str) -> (r: usize)
        ensures
            r == place(self@, key@),
            r <= self@.len(),
    {
        let mut i: usize = 0;
        assert(self@.skip(0) =~= self@);
        while i < self.entries.len() && is_before(self.entries[i].0.as_str(), key)
            invariant
                i <= self.entries@.len(),
                place(self@, key@) == i + place(self@.skip(i as int), key@),
            decreases self.entries@.len() - i,
        {
            assert(self@.skip(i as int)[0] == self@[i as int]);
            assert(self@.skip(i as int).skip(1) =~= self@.skip(i + 1));
            i = i + 1;
        }
        if i < self.entries.len() {
            assert(self@.skip(i as int)[0] == self@[i as int]);
        }
        i
    }

    /// The value under a key.
    pub fn get(&self, key: &str) -> (r: Option<&V>)
        ensures
            match r {
                Some(v) => found(self@, key@) == Some(*v),
                None => found(self@, key@) is None,
            },
    {
        let i = self.find(key);
        if i < self.entries.len() && same(self.entries[i].0.as_str(), key) {
            Some(&self.entries[i].1)
        } else {
            None
        }
    }

    /// Whether there is a value under a key.
    pub fn contains_key(&self, key: &str) -> (r: bool)
        ensures
            r == (found(self@, key@) is Some),
    {
        self.get(key).is_some()
    }

    /// Puts a value under a key, in place of one that was there.
    pub fn insert(&mut self, key: String, value: V)
        ensures
            final(self)@ == inserted(old(self)@, key@, value),
            sorted(old(self)@) ==> sorted(final(self)@),
    {
        let ghost before = self@;
        proof {
            if sorted(before) {
                insertion_keeps_order(before, key@, value);
            }
        }
        let i = self.find(key.as_str());
        if i < self.entries.len() && same(self.entries[i].0.as_str(), key.as_str()) {
            self.entries.set(i, (key, value));
            assert(self@ =~= inserted(before, key@, value));
        } else {
            self.entries.insert(i, (key, value));
            assert(self@ =~= inserted(before, key@, value));
        }
    }

    /// The number of entries.
    pub fn len(&self) -> (r: usize)
        ensures
            r == self@.len(),
    {
        self.entries.len()
    }
}

/// Texts are ordered by the first character in which they differ, the smaller one first, and
/// a text comes before those that it begins.
pub proof fn the_first_difference_decides(
    common: Seq<char>,
    a: char,
    b: char,
    s: Seq<char>,
    t: Seq<char>,
)
    ensures
        a < b ==> comes_before(common + seq![a] + s, common + seq![b] + t),
        comes_before(common, common + seq![b] + t),
        !comes_before(common + seq![a] + s, common),
    decreases common.len(),
{
    let x = common + seq![a] + s;
    let y = common + seq![b] + t;
    if common.len() == 0 {
        assert(x[0] == a && y[0] == b);
    } else {
        let rest = common.skip(1);
        the_first_difference_decides(rest, a, b, s, t);
        assert(x[0] == common[0] && y[0] == common[0]);
        assert(x.skip(1) =~= rest + seq![a] + s);
        assert(y.skip(1) =~= rest + seq![b] + t);
    }
}

/// What is found under a key in a sorted map is the value that stands under it, and what
/// stands under a key is found.
pub proof fn what_stands_under_a_key_is_found<V>(s: Seq<(Seq<char>, V)>, i: int, key: Seq<char>)
    requires
        sorted(s),
    ensures
        0 <= i < s.len() ==> found(s, s[i].0) == Some(s[i].1),
        found(s, key) is Some ==> s.contains((key, found(s, key)->Some_0)),
{
    lemma_place(s, key);
    if found(s, key) is Some {
        assert(s[place(s, key)] == (key, s[place(s, key)].1));
    }
    if 0 <= i < s.len() {
        let k = s[i].0;
        lemma_place(s, k);
        let p = place(s, k);
        if p < i {
            assert(comes_before(s[p].0, s[i].0));
        }
        if p > i {
            order_is_total(s[i].0, k);
        }
    }
}

} // verus!
