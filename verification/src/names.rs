//! Ordered collections keyed by name.
//!
//! Names are ordered the way `String`'s `Ord` orders them: lexicographically by
//! Unicode scalar value, which is also the byte order of their UTF-8 encoding.
//! [`NameMap`] keeps its keys strictly ascending, so it walks in the same order as
//! a `BTreeMap<String, V>`, and [`sorted_unique`] is what `sort` followed by
//! `dedup` gives for a list of names.

use vstd::prelude::*;

use crate::text::{chars_of, owned};

verus! {

/// Length of the longest common prefix of `a` and `b`.
pub open spec fn common_prefix_len(a: Seq<char>, b: Seq<char>) -> nat
    decreases a.len(),
{
    if a.len() == 0 || b.len() == 0 || a[0] != b[0] {
        0
    } else {
        1 + common_prefix_len(a.drop_first(), b.drop_first())
    }
}

/// `a` sorts strictly before `b`.
pub open spec fn name_lt(a: Seq<char>, b: Seq<char>) -> bool {
    let k = common_prefix_len(a, b) as int;
    ||| k == a.len() && k < b.len()
    ||| k < a.len() && k < b.len() && (a[k] as int) < (b[k] as int)
}

/// Every name in `s` sorts strictly before the ones after it.
pub open spec fn strictly_sorted(s: Seq<Seq<char>>) -> bool {
    forall|i: int, j: int| 0 <= i < j < s.len() ==> name_lt(s[i], s[j])
}

pub proof fn lemma_common_prefix(a: Seq<char>, b: Seq<char>)
    ensures
        common_prefix_len(a, b) <= a.len(),
        common_prefix_len(a, b) <= b.len(),
        forall|j: int| 0 <= j < common_prefix_len(a, b) ==> a[j] == b[j],
        common_prefix_len(a, b) < a.len() && common_prefix_len(a, b) < b.len() ==> a[common_prefix_len(a, b) as int] != b[common_prefix_len(a, b) as int],
        common_prefix_len(a, b) == common_prefix_len(b, a),
    decreases a.len(),
{
    if a.len() == 0 || b.len() == 0 || a[0] != b[0] {
    } else {
        lemma_common_prefix(a.drop_first(), b.drop_first());
        let k = common_prefix_len(a, b);
        assert forall|j: int| 0 <= j < k implies a[j] == b[j] by {
            if j > 0 {
                assert(a.drop_first()[j - 1] == b.drop_first()[j - 1]);
            }
        }
    }
}

/// The common prefix is determined by where the two names first differ.
pub proof fn lemma_common_prefix_is(a: Seq<char>, b: Seq<char>, k: int)
    requires
        0 <= k <= a.len(),
        k <= b.len(),
        forall|j: int| 0 <= j < k ==> a[j] == b[j],
        k < a.len() && k < b.len() ==> a[k] != b[k],
    ensures
        common_prefix_len(a, b) == k,
{
    lemma_common_prefix(a, b);
    let c = common_prefix_len(a, b) as int;
    if c < k {
        assert(a[c] == b[c]);
    } else if k < c {
        assert(a[k] == b[k]);
    }
}

pub proof fn lemma_name_lt_irreflexive(a: Seq<char>)
    ensures
        !name_lt(a, a),
{
    lemma_common_prefix_is(a, a, a.len() as int);
}

pub proof fn lemma_name_lt_asymmetric(a: Seq<char>, b: Seq<char>)
    ensures
        !(name_lt(a, b) && name_lt(b, a)),
{
    lemma_common_prefix(a, b);
}

pub proof fn lemma_name_lt_total(a: Seq<char>, b: Seq<char>)
    ensures
        a == b || name_lt(a, b) || name_lt(b, a),
{
    lemma_common_prefix(a, b);
    let k = common_prefix_len(a, b) as int;
    if k == a.len() && k == b.len() {
        assert(a =~= b);
    } else if k < a.len() && k < b.len() {
        assert(a[k] != b[k]);
        assert((a[k] as int) != (b[k] as int));
    }
}

pub proof fn lemma_name_lt_transitive(a: Seq<char>, b: Seq<char>, c: Seq<char>)
    requires
        name_lt(a, b),
        name_lt(b, c),
    ensures
        name_lt(a, c),
{
    lemma_common_prefix(a, b);
    lemma_common_prefix(b, c);
    lemma_common_prefix(a, c);
    let k1 = common_prefix_len(a, b) as int;
    let k2 = common_prefix_len(b, c) as int;
    if k1 < k2 {
        // a and c first differ where a and b do.
        assert forall|j: int| 0 <= j < k1 implies a[j] == c[j] by {
            assert(b[j] == c[j]);
        }
        assert(b[k1] == c[k1]);
        lemma_common_prefix_is(a, c, k1);
    } else if k2 < k1 {
        assert forall|j: int| 0 <= j < k2 implies a[j] == c[j] by {
            assert(a[j] == b[j]);
        }
        assert(a[k2] == b[k2]);
        lemma_common_prefix_is(a, c, k2);
    } else {
        assert forall|j: int| 0 <= j < k1 implies a[j] == c[j] by {
            assert(a[j] == b[j]);
        }
        if k1 < a.len() && k1 < c.len() {
            assert((a[k1] as int) < (c[k1] as int));
        }
        lemma_common_prefix_is(a, c, k1);
    }
}

/// Whether `a` sorts strictly before `b`.
pub fn chars_lt(a: &[char], b: &[char]) -> (r: bool)
    ensures
        r == name_lt(a@, b@),
{
    let mut i: usize = 0;
    while i < a.len() && i < b.len() && a[i] == b[i]
        invariant
            i <= a@.len(),
            i <= b@.len(),
            forall|j: int| 0 <= j < i ==> a@[j] == b@[j],
        decreases a@.len() - i,
    {
        i += 1;
    }
    proof {
        lemma_common_prefix_is(a@, b@, i as int);
    }
    if i == a.len() {
        i < b.len()
    } else if i == b.len() {
        false
    } else {
        a[i] < b[i]
    }
}

/// Whether `a` sorts strictly before `b`.
pub fn name_less(a: &str, b: &str) -> (r: bool)
    ensures
        r == name_lt(a@, b@),
{
    let va = chars_of(a);
    let vb = chars_of(b);
    chars_lt(va.as_slice(), vb.as_slice())
}

/// The views of a list of names.
pub open spec fn names_view(v: Seq<String>) -> Seq<Seq<char>> {
    v.map_values(|s: String| s@)
}

/// `out` holds each name of `names` once, in ascending order.
pub open spec fn is_sorted_unique_of(out: Seq<Seq<char>>, names: Seq<Seq<char>>) -> bool {
    &&& strictly_sorted(out)
    &&& forall|x: Seq<char>| out.contains(x) <==> names.contains(x)
}

/// Position at which `key` sits, or would be inserted, in a strictly sorted list.
pub fn sorted_position(keys: &Vec<String>, key: &str) -> (r: (usize, bool))
    requires
        strictly_sorted(names_view(keys@)),
    ensures
        r.0 <= keys@.len(),
        forall|j: int| 0 <= j < r.0 ==> name_lt(keys@[j]@, key@),
        r.1 ==> r.0 < keys@.len() && keys@[r.0 as int]@ == key@,
        !r.1 ==> forall|j: int| r.0 <= j < keys@.len() ==> name_lt(key@, keys@[j]@),
{
    let mut i: usize = 0;
    while i < keys.len()
        invariant
            i <= keys@.len(),
            strictly_sorted(names_view(keys@)),
            forall|j: int| 0 <= j < i ==> name_lt(keys@[j]@, key@),
        decreases keys@.len() - i,
    {
        if !name_less(keys[i].as_str(), key) {
            proof {
                lemma_name_lt_total(keys@[i as int]@, key@);
            }
            if name_less(key, keys[i].as_str()) {
                assert forall|j: int| i <= j < keys@.len() implies name_lt(key@, keys@[j]@) by {
                    if j > i {
                        assert(name_lt(names_view(keys@)[i as int], names_view(keys@)[j]));
                        lemma_name_lt_transitive(key@, keys@[i as int]@, keys@[j]@);
                    }
                }
                return (i, false);
            }
            return (i, true);
        }
        i += 1;
    }
    (i, false)
}

/// What a sequence holds after an insertion.
pub proof fn lemma_insert_contains<A>(s: Seq<A>, pos: int, x: A)
    requires
        0 <= pos <= s.len(),
    ensures
        forall|y: A| #[trigger] s.insert(pos, x).contains(y) <==> (s.contains(y) || y == x),
{
    let t = s.insert(pos, x);
    assert forall|y: A| #[trigger] t.contains(y) <==> (s.contains(y) || y == x) by {
        if t.contains(y) {
            let k = choose|k: int| 0 <= k < t.len() && t[k] == y;
            if k < pos {
                assert(s[k] == y);
            } else if k > pos {
                assert(s[k - 1] == y);
            }
        }
        if s.contains(y) {
            let k = choose|k: int| 0 <= k < s.len() && s[k] == y;
            if k < pos {
                assert(t[k] == y);
            } else {
                assert(t[k + 1] == y);
            }
        }
        if y == x {
            assert(t[pos] == y);
        }
    }
}

/// Inserting a name at the position that `sorted_position` reports keeps a list sorted.
pub proof fn lemma_insert_sorted(before: Seq<Seq<char>>, pos: int, key: Seq<char>)
    requires
        strictly_sorted(before),
        0 <= pos <= before.len(),
        forall|j: int| 0 <= j < pos ==> name_lt(before[j], key),
        forall|j: int| pos <= j < before.len() ==> name_lt(key, before[j]),
    ensures
        strictly_sorted(before.insert(pos, key)),
{
    let after = before.insert(pos, key);
    assert forall|i: int, j: int| 0 <= i < j < after.len() implies name_lt(after[i], after[j]) by {
        if i < pos && j == pos {
        } else if i == pos && j > pos {
        } else if i < pos && j > pos {
            assert(name_lt(before[i], before[j - 1]));
        } else if j < pos {
            assert(name_lt(before[i], before[j]));
        } else {
            assert(name_lt(before[i - 1], before[j - 1]));
        }
    }
}

/// Adds `name` to a strictly sorted list unless it is already there.
pub fn insert_sorted_unique(names: &mut Vec<String>, name: &str)
    requires
        strictly_sorted(names_view(old(names)@)),
    ensures
        strictly_sorted(names_view(final(names)@)),
        forall|x: Seq<char>| names_view(final(names)@).contains(x) <==> (names_view(old(names)@).contains(x) || x == name@),
{
    let (pos, found) = sorted_position(names, name);
    if found {
        assert(names_view(names@)[pos as int] == name@);
        assert(names_view(names@).contains(name@));
        return;
    }
    let ghost before = names@;
    assert(before == old(names)@);
    names.insert(pos, owned(name));
    assert(names_view(names@) =~= names_view(before).insert(pos as int, name@));
    proof {
        lemma_insert_sorted(names_view(before), pos as int, name@);
    }
    proof {
        lemma_insert_contains(names_view(before), pos as int, name@);
    }
}

/// The names of `names`, each once, in ascending order (`sort` then `dedup`).
pub fn sorted_unique(names: &Vec<String>) -> (r: Vec<String>)
    ensures
        is_sorted_unique_of(names_view(r@), names_view(names@)),
{
    let mut out: Vec<String> = Vec::new();
    let mut i: usize = 0;
    while i < names.len()
        invariant
            i <= names@.len(),
            strictly_sorted(names_view(out@)),
            forall|x: Seq<char>| names_view(out@).contains(x) <==> names_view(names@).subrange(0, i as int).contains(x),
        decreases names@.len() - i,
    {
        let ghost prev = out@;
        insert_sorted_unique(&mut out, names[i].as_str());
        proof {
            let s1 = names_view(names@).subrange(0, i + 1);
            let s0 = names_view(names@).subrange(0, i as int);
            assert(s1 =~= s0.push(names@[i as int]@));
            assert forall|x: Seq<char>| names_view(out@).contains(x) <==> s1.contains(x) by {
                assert(names_view(prev).contains(x) <==> s0.contains(x));
                if s1.contains(x) {
                    let k = choose|k: int| 0 <= k < s1.len() && s1[k] == x;
                    if k < i {
                        assert(s0[k] == x);
                    }
                }
                if s0.contains(x) {
                    let k = choose|k: int| 0 <= k < s0.len() && s0[k] == x;
                    assert(s1[k] == x);
                }
                if x == names@[i as int]@ {
                    assert(s1[i as int] == x);
                }
            }
        }
        i += 1;
    }
    assert(names_view(names@).subrange(0, names@.len() as int) == names_view(names@));
    out
}

/// A map from names to values that walks its keys in ascending order, as a
/// `BTreeMap<String, V>` does.
#[derive(Debug, Clone)]
pub struct NameMap<V> {
    keys: Vec<String>,
    values: Vec<V>,
}

impl<V> NameMap<V> {
    /// The keys, in ascending order.
    pub closed spec fn key_seq(self) -> Seq<Seq<char>> {
        names_view(self.keys@)
    }

    /// The values, in the order of their keys.
    pub closed spec fn value_seq(self) -> Seq<V> {
        self.values@
    }

    /// Keys ascend strictly and each has a value.
    pub closed spec fn wf(self) -> bool {
        &&& self.keys@.len() == self.values@.len()
        &&& strictly_sorted(names_view(self.keys@))
    }

    /// The value stored under `key`, if any.
    pub open spec fn lookup(self, key: Seq<char>) -> Option<V> {
        if self.key_seq().contains(key) {
            Some(self.value_seq()[self.key_seq().index_of(key)])
        } else {
            None
        }
    }

    /// A well-formed map has one value per key, and its keys ascend strictly.
    pub proof fn lemma_wf(self)
        requires
            self.wf(),
        ensures
            self.key_seq().len() == self.value_seq().len(),
            strictly_sorted(self.key_seq()),
    {
    }

    /// Keys are distinct, so each key sits at one position.
    pub proof fn lemma_key_position(self, k: int)
        requires
            self.wf(),
            0 <= k < self.key_seq().len(),
        ensures
            self.key_seq().index_of(self.key_seq()[k]) == k,
            self.lookup(self.key_seq()[k]) == Some(self.value_seq()[k]),
    {
        let key = self.key_seq()[k];
        assert(self.key_seq().contains(key));
        let p = self.key_seq().index_of(key);
        if p < k {
            assert(name_lt(self.key_seq()[p], self.key_seq()[k]));
            lemma_name_lt_irreflexive(key);
        } else if k < p {
            assert(name_lt(self.key_seq()[k], self.key_seq()[p]));
            lemma_name_lt_irreflexive(key);
        }
    }

    /// An empty map.
    pub fn new() -> (m: Self)
        ensures
            m.wf(),
            m.key_seq() == Seq::<Seq<char>>::empty(),
            m.value_seq() == Seq::<V>::empty(),
    {
        let m = NameMap { keys: Vec::new(), values: Vec::new() };
        assert(names_view(m.keys@) =~= Seq::<Seq<char>>::empty());
        m
    }

    /// Number of entries.
    pub fn len(&self) -> (n: usize)
        requires
            self.wf(),
        ensures
            n == self.key_seq().len(),
            n == self.value_seq().len(),
    {
        self.keys.len()
    }

    /// The `i`-th key in ascending order.
    pub fn key_at(&self, i: usize) -> (k: &String)
        requires
            i < self.key_seq().len(),
        ensures
            k@ == self.key_seq()[i as int],
    {
        &self.keys[i]
    }

    /// The value of the `i`-th key.
    pub fn value_at(&self, i: usize) -> (v: &V)
        requires
            self.wf(),
            i < self.value_seq().len(),
        ensures
            *v == self.value_seq()[i as int],
    {
        &self.values[i]
    }

    /// Position of `key`, if present.
    pub fn position(&self, key: &str) -> (r: Option<usize>)
        requires
            self.wf(),
        ensures
            r is None <==> !self.key_seq().contains(key@),
            r matches Some(i) ==> i < self.key_seq().len() && self.key_seq()[i as int] == key@
                && self.key_seq().index_of(key@) == i,
    {
        let (pos, found) = sorted_position(&self.keys, key);
        if found {
            proof {
                self.lemma_key_position(pos as int);
            }
            Some(pos)
        } else {
            assert forall|j: int| 0 <= j < self.key_seq().len() implies self.key_seq()[j] != key@ by {
                if j < pos {
                    lemma_name_lt_irreflexive(key@);
                } else {
                    lemma_name_lt_irreflexive(key@);
                }
            }
            None
        }
    }

    /// The value stored under `key`.
    pub fn get(&self, key: &str) -> (r: Option<&V>)
        requires
            self.wf(),
        ensures
            r matches Some(v) ==> self.lookup(key@) == Some(*v),
            r matches Some(v) ==> self.key_seq().contains(key@) && 0 <= self.key_seq().index_of(key@) < self.value_seq().len()
                && *v == self.value_seq()[self.key_seq().index_of(key@)],
            r is None ==> self.lookup(key@) is None,
    {
        match self.position(key) {
            Some(i) => Some(&self.values[i]),
            None => None,
        }
    }

    /// Whether `key` is present.
    pub fn contains_key(&self, key: &str) -> (r: bool)
        requires
            self.wf(),
        ensures
            r == self.key_seq().contains(key@),
    {
        self.position(key).is_some()
    }

    /// Stores `value` under `key`, replacing what was there.
    pub fn insert(&mut self, key: &str, value: V)
        requires
            old(self).wf(),
        ensures
            final(self).wf(),
            forall|k: Seq<char>| #[trigger] final(self).lookup(k) == if k == key@ {
                Some(value)
            } else {
                old(self).lookup(k)
            },
            forall|k: Seq<char>| #[trigger] final(self).key_seq().contains(k) <==> (old(self).key_seq().contains(k) || k == key@),
    {
        let ghost before = *self;
        let (pos, found) = sorted_position(&self.keys, key);
        if found {
            self.values.set(pos, value);
            let m = &*self;
            proof {
                before.lemma_key_position(pos as int);
                assert forall|k: Seq<char>| #[trigger] m.lookup(k) == if k == key@ {
                    Some(value)
                } else {
                    before.lookup(k)
                } by {
                    assert(m.key_seq() == before.key_seq());
                    if m.key_seq().contains(k) {
                        let p = m.key_seq().index_of(k);
                        m.lemma_key_position(p);
                        before.lemma_key_position(p);
                    }
                }
            }
        } else {
            let ghost old_keys = self.keys@;
            self.keys.insert(pos, owned(key));
            self.values.insert(pos, value);
            assert(names_view(self.keys@) =~= names_view(old_keys).insert(pos as int, key@));
            proof {
                lemma_insert_sorted(names_view(old_keys), pos as int, key@);
            }
            let m = &*self;
            proof {
                assert(m.key_seq() == before.key_seq().insert(pos as int, key@));
                assert(m.value_seq() == before.value_seq().insert(pos as int, value));
                m.lemma_key_position(pos as int);
                assert forall|k: Seq<char>| #[trigger] m.key_seq().contains(k) <==> (before.key_seq().contains(k) || k == key@) by {
                    if m.key_seq().contains(k) {
                        let p = m.key_seq().index_of(k);
                        if p < pos {
                            assert(before.key_seq()[p] == k);
                        } else if p > pos {
                            assert(before.key_seq()[p - 1] == k);
                        }
                    }
                    if before.key_seq().contains(k) {
                        let p = before.key_seq().index_of(k);
                        if p < pos {
                            assert(m.key_seq()[p] == k);
                        } else {
                            assert(m.key_seq()[p + 1] == k);
                        }
                    }
                }
                assert forall|k: Seq<char>| #[trigger] m.lookup(k) == if k == key@ {
                    Some(value)
                } else {
                    before.lookup(k)
                } by {
                    if k != key@ && before.key_seq().contains(k) {
                        let p = before.key_seq().index_of(k);
                        before.lemma_key_position(p);
                        if p < pos {
                            assert(m.key_seq()[p] == k);
                            m.lemma_key_position(p);
                        } else {
                            assert(m.key_seq()[p + 1] == k);
                            m.lemma_key_position(p + 1);
                        }
                    }
                }
            }
        }
    }
}

/// The keys of a list of `(key, value)` entries.
pub open spec fn entry_keys<W>(m: Seq<(Seq<char>, W)>) -> Seq<Seq<char>> {
    m.map_values(|e: (Seq<char>, W)| e.0)
}

/// The value an entry list holds under `k`, if any.
pub open spec fn entry_get<W>(m: Seq<(Seq<char>, W)>, k: Seq<char>) -> Option<W> {
    if entry_keys(m).contains(k) {
        Some(m[entry_keys(m).index_of(k)].1)
    } else {
        None
    }
}

/// Keys are distinct, so in a sorted entry list each key sits at one position.
pub proof fn lemma_entry_position<W>(m: Seq<(Seq<char>, W)>, k: int)
    requires
        strictly_sorted(entry_keys(m)),
        0 <= k < m.len(),
    ensures
        entry_keys(m).index_of(m[k].0) == k,
        entry_get(m, m[k].0) == Some(m[k].1),
{
    let keys = entry_keys(m);
    assert(keys[k] == m[k].0);
    assert(keys.contains(m[k].0));
    let p = keys.index_of(m[k].0);
    if p < k {
        assert(name_lt(keys[p], keys[k]));
        lemma_name_lt_irreflexive(m[k].0);
    } else if k < p {
        assert(name_lt(keys[k], keys[p]));
        lemma_name_lt_irreflexive(m[k].0);
    }
}

/// A value that can be copied with every part equal to the original.
pub trait DeepCopy: View + Sized {
    fn deep_copy(&self) -> (r: Self)
        ensures
            r@ == self@,
    ;
}

impl DeepCopy for String {
    fn deep_copy(&self) -> (r: Self) {
        self.clone()
    }
}

impl DeepCopy for Vec<String> {
    fn deep_copy(&self) -> (r: Self) {
        let mut r: Vec<String> = Vec::new();
        let mut i: usize = 0;
        while i < self.len()
            invariant
                i <= self@.len(),
                r@ == self@.subrange(0, i as int),
            decreases self@.len() - i,
        {
            r.push(self[i].clone());
            i += 1;
        }
        assert(self@.subrange(0, self@.len() as int) =~= self@);
        r
    }
}

impl<V: View> View for NameMap<V> {
    type V = Seq<(Seq<char>, V::V)>;

    closed spec fn view(&self) -> Self::V {
        Seq::new(self.values@.len(), |i: int| (self.keys@[i]@, self.values@[i]@))
    }
}

impl<V: View> NameMap<V> {
    /// The view lists the keys in ascending order, each with its value's view.
    pub proof fn lemma_view(self)
        requires
            self.wf(),
        ensures
            self@.len() == self.key_seq().len(),
            entry_keys(self@) == self.key_seq(),
            strictly_sorted(entry_keys(self@)),
            forall|i: int| 0 <= i < self@.len() ==> #[trigger] self@[i].1 == self.value_seq()[i]@,
            forall|k: Seq<char>| #[trigger] entry_get(self@, k) == match self.lookup(k) {
                Some(v) => Some(v@),
                None => None,
            },
    {
        assert(entry_keys(self@) =~= self.key_seq());
        assert forall|k: Seq<char>| #[trigger] entry_get(self@, k) == match self.lookup(k) {
            Some(v) => Some(v@),
            None => None,
        } by {
            if self.key_seq().contains(k) {
                let p = self.key_seq().index_of(k);
                self.lemma_key_position(p);
            }
        }
    }
}

impl<V: View> NameMap<V> {
    /// The value stored under `key`, stated over views.
    pub fn find(&self, key: &str) -> (r: Option<&V>)
        requires
            self.wf(),
        ensures
            match r {
                Some(v) => entry_get(self@, key@) == Some(v@),
                None => entry_get(self@, key@) is None,
            },
            r matches Some(v) ==> exists|i: int| 0 <= i < self.value_seq().len() && self.value_seq()[i] == *v,
    {
        proof {
            self.lemma_view();
        }
        self.get(key)
    }

    /// Whether `key` is present, stated over views.
    pub fn has(&self, key: &str) -> (r: bool)
        requires
            self.wf(),
        ensures
            r == entry_keys(self@).contains(key@),
    {
        proof {
            self.lemma_view();
        }
        self.contains_key(key)
    }

    /// The `i`-th key, stated over views.
    pub fn key_of(&self, i: usize) -> (k: &String)
        requires
            self.wf(),
            i < self@.len(),
        ensures
            k@ == self@[i as int].0,
    {
        proof {
            self.lemma_view();
        }
        &self.keys[i]
    }

    /// The `i`-th value, stated over views.
    pub fn value_of(&self, i: usize) -> (v: &V)
        requires
            self.wf(),
            i < self@.len(),
        ensures
            v@ == self@[i as int].1,
            (i as int) < self.value_seq().len(),
            *v == self.value_seq()[i as int],
    {
        proof {
            self.lemma_view();
        }
        &self.values[i]
    }

    /// Number of entries, stated over views.
    pub fn size(&self) -> (n: usize)
        requires
            self.wf(),
        ensures
            n == self@.len(),
    {
        proof {
            self.lemma_view();
        }
        self.keys.len()
    }
}

impl<V: DeepCopy> NameMap<V> {
    /// A copy whose keys and values equal these.
    pub fn deep_copy(&self) -> (r: Self)
        ensures
            r.wf() == self.wf(),
            r@ == self@,
            r.key_seq() == self.key_seq(),
    {
        let keys = self.keys.deep_copy();
        let mut values: Vec<V> = Vec::new();
        let mut i: usize = 0;
        while i < self.values.len()
            invariant
                i <= self.values@.len(),
                values@.len() == i,
                forall|j: int| 0 <= j < i ==> #[trigger] values@[j]@ == self.values@[j]@,
            decreases self.values@.len() - i,
        {
            values.push(self.values[i].deep_copy());
            i += 1;
        }
        let r = NameMap { keys, values };
        assert(r@ =~= self@);
        assert(r.key_seq() =~= self.key_seq());
        r
    }
}

/// Whether `x` is one of `v`.
pub fn contains_name(v: &[String], x: &str) -> (r: bool)
    ensures
        r == names_view(v@).contains(x@),
{
    let mut i: usize = 0;
    while i < v.len()
        invariant
            i <= v@.len(),
            forall|j: int| 0 <= j < i ==> v@[j]@ != x@,
        decreases v@.len() - i,
    {
        if crate::text::str_eq(v[i].as_str(), x) {
            assert(names_view(v@)[i as int] == x@);
            return true;
        }
        i += 1;
    }
    assert forall|j: int| 0 <= j < names_view(v@).len() implies names_view(v@)[j] != x@ by {
        assert(names_view(v@)[j] == v@[j]@);
    }
    false
}

/// Appends a copy of every name in `items` to `out`.
pub fn extend_names(out: &mut Vec<String>, items: &[String])
    ensures
        names_view(final(out)@) == names_view(old(out)@) + names_view(items@),
{
    let ghost start = out@;
    let mut i: usize = 0;
    while i < items.len()
        invariant
            i <= items@.len(),
            names_view(out@) == names_view(start) + names_view(items@.subrange(0, i as int)),
        decreases items@.len() - i,
    {
        let ghost before = out@;
        out.push(items[i].clone());
        assert(names_view(out@) =~= names_view(before).push(items@[i as int]@));
        assert(names_view(items@.subrange(0, i + 1)) =~= names_view(items@.subrange(0, i as int)).push(items@[i as int]@));
        i += 1;
    }
    assert(items@.subrange(0, items@.len() as int) =~= items@);
}

/// `s` with each name kept only at its first occurrence.
pub open spec fn dedup(s: Seq<Seq<char>>) -> Seq<Seq<char>>
    decreases s.len(),
{
    if s.len() == 0 {
        s
    } else {
        let d = dedup(s.drop_last());
        if d.contains(s.last()) {
            d
        } else {
            d.push(s.last())
        }
    }
}

pub proof fn lemma_dedup_contains(s: Seq<Seq<char>>)
    ensures
        forall|x: Seq<char>| #[trigger] dedup(s).contains(x) <==> s.contains(x),
        dedup(s).no_duplicates(),
    decreases s.len(),
{
    if s.len() > 0 {
        lemma_dedup_contains(s.drop_last());
        assert forall|x: Seq<char>| #[trigger] dedup(s).contains(x) <==> s.contains(x) by {
            let d = dedup(s.drop_last());
            if s.contains(x) && x != s.last() {
                let k = choose|k: int| 0 <= k < s.len() && s[k] == x;
                assert(s.drop_last()[k] == x);
            }
            if d.contains(x) {
                let k = choose|k: int| 0 <= k < s.drop_last().len() && s.drop_last()[k] == x;
                assert(s[k] == x);
            }
            if !d.contains(s.last()) {
                assert(d.push(s.last())[d.len() as int] == s.last());
                if d.push(s.last()).contains(x) && x != s.last() {
                    let k = choose|k: int| 0 <= k < d.push(s.last()).len() && d.push(s.last())[k] == x;
                    assert(d[k] == x);
                }
                if d.contains(x) {
                    let k = choose|k: int| 0 <= k < d.len() && d[k] == x;
                    assert(d.push(s.last())[k] == x);
                }
            }
            assert(s[s.len() - 1] == s.last());
        }
    }
}

/// Appends `x` to `out` unless it is already there.
pub fn push_unique(out: &mut Vec<String>, x: &String)
    ensures
        names_view(final(out)@) == if names_view(old(out)@).contains(x@) {
            names_view(old(out)@)
        } else {
            names_view(old(out)@).push(x@)
        },
{
    if !contains_name(out.as_slice(), x.as_str()) {
        let ghost before = out@;
        out.push(x.clone());
        assert(names_view(out@) =~= names_view(before).push(x@));
    }
}

/// The names of `s`, each once, in ascending order.
pub open spec fn sorted_set(s: Seq<Seq<char>>) -> Seq<Seq<char>> {
    choose|o: Seq<Seq<char>>| is_sorted_unique_of(o, s)
}

/// Two strictly sorted lists with the same names are the same list.
pub proof fn lemma_sorted_unique_is_unique(a: Seq<Seq<char>>, b: Seq<Seq<char>>)
    requires
        strictly_sorted(a),
        strictly_sorted(b),
        forall|x: Seq<char>| a.contains(x) <==> b.contains(x),
    ensures
        a == b,
    decreases a.len() + b.len(),
{
    if a.len() == 0 {
        if b.len() > 0 {
            assert(b.contains(b[0]));
        }
        assert(a =~= b);
    } else if b.len() == 0 {
        assert(a.contains(a[0]));
    } else {
        assert(a.contains(a[0]));
        let j = choose|j: int| 0 <= j < b.len() && b[j] == a[0];
        assert(b.contains(b[0]));
        let k = choose|k: int| 0 <= k < a.len() && a[k] == b[0];
        if j > 0 {
            assert(name_lt(b[0], b[j]));
            if k > 0 {
                assert(name_lt(a[0], a[k]));
                lemma_name_lt_asymmetric(a[0], b[0]);
            } else {
                lemma_name_lt_irreflexive(a[0]);
            }
        }
        assert(a[0] == b[0]);
        let ta = a.drop_first();
        let tb = b.drop_first();
        assert forall|x: Seq<char>| ta.contains(x) <==> tb.contains(x) by {
            if ta.contains(x) {
                let p = choose|p: int| 0 <= p < ta.len() && ta[p] == x;
                assert(name_lt(a[0], a[p + 1]));
                assert(a.contains(x));
                let q = choose|q: int| 0 <= q < b.len() && b[q] == x;
                if q == 0 {
                    lemma_name_lt_irreflexive(x);
                }
                assert(tb[q - 1] == x);
            }
            if tb.contains(x) {
                let p = choose|p: int| 0 <= p < tb.len() && tb[p] == x;
                assert(name_lt(b[0], b[p + 1]));
                assert(b.contains(x));
                let q = choose|q: int| 0 <= q < a.len() && a[q] == x;
                if q == 0 {
                    lemma_name_lt_irreflexive(x);
                }
                assert(ta[q - 1] == x);
            }
        }
        assert forall|i: int, j: int| 0 <= i < j < ta.len() implies name_lt(ta[i], ta[j]) by {
            assert(name_lt(a[i + 1], a[j + 1]));
        }
        assert forall|i: int, j: int| 0 <= i < j < tb.len() implies name_lt(tb[i], tb[j]) by {
            assert(name_lt(b[i + 1], b[j + 1]));
        }
        lemma_sorted_unique_is_unique(ta, tb);
        assert(a.len() == b.len());
        assert forall|i: int| 0 <= i < a.len() implies a[i] == b[i] by {
            if i > 0 {
                assert(a[i] == ta[i - 1]);
                assert(b[i] == tb[i - 1]);
            }
        }
        assert(a =~= b);
    }
}

/// A sorted, duplicate-free list of the names of `s` is `sorted_set(s)`.
pub proof fn lemma_sorted_set(o: Seq<Seq<char>>, s: Seq<Seq<char>>)
    requires
        is_sorted_unique_of(o, s),
    ensures
        o == sorted_set(s),
{
    let c = sorted_set(s);
    assert(is_sorted_unique_of(c, s));
    lemma_sorted_unique_is_unique(o, c);
}

/// Position of the first `x` in `s`; meaningful only when `s` contains `x`.
pub open spec fn first_position_of<A>(s: Seq<A>, x: A) -> int {
    choose|k: int| 0 <= k < s.len() && s[k] == x && forall|j: int| 0 <= j < k ==> s[j] != x
}

/// Position of the first name `x` in `s`; meaningful only when `s` contains `x`.
pub open spec fn first_position(s: Seq<Seq<char>>, x: Seq<char>) -> int {
    first_position_of(s, x)
}

/// The first position of `x` is the one with no `x` before it.
pub proof fn lemma_first_position<A>(s: Seq<A>, x: A, k: int)
    requires
        0 <= k < s.len(),
        s[k] == x,
        forall|j: int| 0 <= j < k ==> s[j] != x,
    ensures
        first_position_of(s, x) == k,
{
    let c = first_position_of(s, x);
    assert(0 <= c < s.len() && s[c] == x && forall|j: int| 0 <= j < c ==> s[j] != x);
    if c < k {
        assert(s[c] != x);
    } else if k < c {
        assert(s[k] != x);
    }
}

/// A sequence holding `x` has a first position of `x`.
pub proof fn lemma_first_position_exists<A>(s: Seq<A>, x: A)
    requires
        s.contains(x),
    ensures
        0 <= first_position_of(s, x) < s.len(),
        s[first_position_of(s, x)] == x,
        forall|j: int| 0 <= j < first_position_of(s, x) ==> s[j] != x,
{
    let i = choose|i: int| 0 <= i < s.len() && s[i] == x;
    lemma_first_position_below(s, x, i);
}

proof fn lemma_first_position_below<A>(s: Seq<A>, x: A, i: int)
    requires
        0 <= i < s.len(),
        s[i] == x,
    ensures
        0 <= first_position_of(s, x) < s.len(),
        s[first_position_of(s, x)] == x,
        forall|j: int| 0 <= j < first_position_of(s, x) ==> s[j] != x,
    decreases i,
{
    if exists|j: int| 0 <= j < i && s[j] == x {
        let j = choose|j: int| 0 <= j < i && s[j] == x;
        lemma_first_position_below(s, x, j);
    } else {
        lemma_first_position(s, x, i);
    }
}

/// Position of the first name in `v` equal to `x`.
pub fn find_name(v: &[String], x: &str) -> (r: Option<usize>)
    ensures
        r is None <==> !names_view(v@).contains(x@),
        r matches Some(k) ==> k < v@.len() && k == first_position(names_view(v@), x@),
{
    let mut i: usize = 0;
    while i < v.len()
        invariant
            i <= v@.len(),
            forall|j: int| 0 <= j < i ==> names_view(v@)[j] != x@,
        decreases v@.len() - i,
    {
        if crate::text::str_eq(v[i].as_str(), x) {
            let ghost s = names_view(v@);
            proof {
                assert(s[i as int] == x@);
                let c = first_position(s, x@);
                assert(0 <= c < s.len() && s[c] == x@ && forall|j: int| 0 <= j < c ==> s[j] != x@);
                if c < i {
                } else if i < c {
                    assert(s[i as int] != x@);
                }
            }
            return Some(i);
        }
        assert(names_view(v@)[i as int] == v@[i as int]@);
        i += 1;
    }
    assert forall|j: int| 0 <= j < names_view(v@).len() implies names_view(v@)[j] != x@ by {}
    None
}

/// A duplicate-free list whose names all come from `keys` is no longer than it.
pub proof fn lemma_distinct_subset_len(vis: Seq<Seq<char>>, keys: Seq<Seq<char>>)
    requires
        vis.no_duplicates(),
        forall|x: Seq<char>| vis.contains(x) ==> keys.contains(x),
    ensures
        vis.len() <= keys.len(),
{
    vis.unique_seq_to_set();
    keys.lemma_cardinality_of_set();
    assert(vis.to_set().subset_of(keys.to_set())) by {
        assert forall|x: Seq<char>| vis.to_set().contains(x) implies keys.to_set().contains(x) by {
            assert(vis.contains(x));
        }
    }
    vstd::set_lib::lemma_len_subset(vis.to_set(), keys.to_set());
}

/// An owned copy of a list of names.
pub fn copy_names(v: &[String]) -> (r: Vec<String>)
    ensures
        r@ == v@,
{
    let mut r: Vec<String> = Vec::new();
    let mut i: usize = 0;
    while i < v.len()
        invariant
            i <= v@.len(),
            r@ == v@.subrange(0, i as int),
        decreases v@.len() - i,
    {
        r.push(v[i].clone());
        i += 1;
    }
    assert(v@.subrange(0, v@.len() as int) =~= v@);
    r
}

/// What a sequence holds after a push.
pub proof fn lemma_push_contains<A>(s: Seq<A>, a: A)
    ensures
        forall|x: A| #[trigger] s.push(a).contains(x) <==> (s.contains(x) || x == a),
{
    assert forall|x: A| #[trigger] s.push(a).contains(x) <==> (s.contains(x) || x == a) by {
        if s.push(a).contains(x) {
            let k = choose|k: int| 0 <= k < s.push(a).len() && s.push(a)[k] == x;
            if k < s.len() {
                assert(s[k] == x);
            }
        }
        if s.contains(x) {
            let k = choose|k: int| 0 <= k < s.len() && s[k] == x;
            assert(s.push(a)[k] == x);
        }
        if x == a {
            assert(s.push(a)[s.len() as int] == x);
        }
    }
}

} // verus!
