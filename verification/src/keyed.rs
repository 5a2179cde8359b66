//! Text keys, their order, and a registry of records kept sorted by key.
use vstd::prelude::*;

verus! {

/// Lexicographic order on character sequences (by code point), the order of `str`.
pub open spec fn key_lt(a: Seq<char>, b: Seq<char>) -> bool
    decreases a.len(),
{
    if a.len() == 0 {
        b.len() > 0
    } else if b.len() == 0 {
        false
    } else if a[0] != b[0] {
        (a[0] as int) < (b[0] as int)
    } else {
        key_lt(a.drop_first(), b.drop_first())
    }
}

pub proof fn lemma_key_lt_irreflexive(a: Seq<char>)
    ensures
        !key_lt(a, a),
    decreases a.len(),
{
    if a.len() > 0 {
        lemma_key_lt_irreflexive(a.drop_first());
    }
}

pub proof fn lemma_key_lt_transitive(a: Seq<char>, b: Seq<char>, c: Seq<char>)
    requires
        key_lt(a, b),
        key_lt(b, c),
    ensures
        key_lt(a, c),
    decreases a.len(),
{
    if a.len() > 0 && b.len() > 0 && c.len() > 0 {
        if a[0] == b[0] && b[0] == c[0] {
            lemma_key_lt_transitive(a.drop_first(), b.drop_first(), c.drop_first());
        }
    }
}

pub proof fn lemma_key_lt_total(a: Seq<char>, b: Seq<char>)
    ensures
        a == b || key_lt(a, b) || key_lt(b, a),
    decreases a.len(),
{
    if a.len() > 0 && b.len() > 0 && a[0] == b[0] {
        lemma_key_lt_total(a.drop_first(), b.drop_first());
        if a.drop_first() == b.drop_first() {
            assert(a =~= seq![a[0]] + a.drop_first());
            assert(b =~= seq![b[0]] + b.drop_first());
        }
    } else if a.len() == 0 && b.len() == 0 {
        assert(a =~= b);
    } else if a.len() > 0 && b.len() > 0 {
        assert(a[0] != b[0]);
        assert((a[0] as int) != (b[0] as int));
    }
}

/// Keys that share a prefix compare as what follows it.
pub proof fn lemma_key_lt_common_prefix(x: Seq<char>, a: Seq<char>, b: Seq<char>)
    ensures
        key_lt(x + a, x + b) == key_lt(a, b),
    decreases x.len(),
{
    if x.len() == 0 {
        assert(x + a =~= a);
        assert(x + b =~= b);
    } else {
        assert((x + a)[0] == x[0]);
        assert((x + b)[0] == x[0]);
        assert((x + a).drop_first() =~= x.drop_first() + a);
        assert((x + b).drop_first() =~= x.drop_first() + b);
        lemma_key_lt_common_prefix(x.drop_first(), a, b);
    }
}

/// Outcome of comparing two keys.
#[derive(Clone, Copy, Debug, PartialEq, Eq, Structural)]
pub enum KeyOrder {
    Less,
    Equal,
    Greater,
}

fn compare_from(a: &str, b: &str, i: usize, la: usize, lb: usize) -> (r: KeyOrder)
    requires
        la == a@.len(),
        lb == b@.len(),
        i <= la,
        i <= lb,
    ensures
        r == KeyOrder::Less <==> key_lt(a@.skip(i as int), b@.skip(i as int)),
        r == KeyOrder::Greater <==> key_lt(b@.skip(i as int), a@.skip(i as int)),
        r == KeyOrder::Equal <==> a@.skip(i as int) == b@.skip(i as int),
    decreases la - i,
{
    let ghost sa = a@.skip(i as int);
    let ghost sb = b@.skip(i as int);
    if i == la && i == lb {
        assert(sa =~= sb);
        proof {
            lemma_key_lt_irreflexive(sa);
        }
        return KeyOrder::Equal;
    }
    if i == la {
        assert(sa.len() == 0);
        return KeyOrder::Less;
    }
    if i == lb {
        assert(sb.len() == 0);
        return KeyOrder::Greater;
    }
    let ca = a.get_char(i);
    let cb = b.get_char(i);
    assert(sa[0] == ca);
    assert(sb[0] == cb);
    if ca != cb {
        if (ca as u32) < (cb as u32) {
            KeyOrder::Less
        } else {
            KeyOrder::Greater
        }
    } else {
        assert(sa.drop_first() =~= a@.skip(i + 1));
        assert(sb.drop_first() =~= b@.skip(i + 1));
        let r = compare_from(a, b, i + 1, la, lb);
        proof {
            if sa.drop_first() == sb.drop_first() {
                assert(sa =~= seq![ca] + sa.drop_first());
                assert(sb =~= seq![cb] + sb.drop_first());
            }
            if sa == sb {
                assert(sa.drop_first() =~= sb.drop_first());
            }
        }
        r
    }
}

/// Compares two keys in the order of `key_lt`.
pub fn compare_keys(a: &str, b: &str) -> (r: KeyOrder)
    ensures
        r == KeyOrder::Less <==> key_lt(a@, b@),
        r == KeyOrder::Greater <==> key_lt(b@, a@),
        r == KeyOrder::Equal <==> a@ == b@,
{
    let la = a.unicode_len();
    let lb = b.unicode_len();
    assert(a@.skip(0) =~= a@);
    assert(b@.skip(0) =~= b@);
    compare_from(a, b, 0, la, lb)
}

/// Whether two texts are the same.
pub fn same_text(a: &str, b: &str) -> (r: bool)
    ensures
        r == (a@ == b@),
{
    compare_keys(a, b) == KeyOrder::Equal
}

/// Keys by which the books find their records.
pub trait BookKey: Sized {
    spec fn key(&self) -> Seq<char>;

    fn key_str(&self) -> (r: &str)
        ensures
            r@ == self.key(),
    ;

    fn duplicate(&self) -> (r: Self)
        ensures
            r == *self,
    ;
}

/// Keys of a sequence of entries.
pub open spec fn entry_keys<K: BookKey, V>(s: Seq<(K, V)>) -> Seq<Seq<char>> {
    s.map_values(|e: (K, V)| e.0.key())
}

/// Strictly increasing keys (hence no key twice).
pub open spec fn sorted_keys(ks: Seq<Seq<char>>) -> bool {
    forall|i: int, j: int| 0 <= i < j < ks.len() ==> key_lt(#[trigger] ks[i], #[trigger] ks[j])
}

/// Whether some entry carries key `k`.
pub open spec fn has_key(ks: Seq<Seq<char>>, k: Seq<char>) -> bool {
    exists|i: int| 0 <= i < ks.len() && ks[i] == k
}

/// Position of key `k` in a key sequence, when present.
pub open spec fn key_index(ks: Seq<Seq<char>>, k: Seq<char>) -> int {
    choose|i: int| 0 <= i < ks.len() && ks[i] == k
}

/// The value stored under key `k`, if any.
pub open spec fn lookup<K: BookKey, V>(s: Seq<(K, V)>, k: Seq<char>) -> Option<V> {
    if has_key(entry_keys(s), k) {
        Some(s[key_index(entry_keys(s), k)].1)
    } else {
        None
    }
}

pub proof fn lemma_sorted_index_unique(ks: Seq<Seq<char>>, i: int, k: Seq<char>)
    requires
        sorted_keys(ks),
        0 <= i < ks.len(),
        ks[i] == k,
    ensures
        has_key(ks, k),
        key_index(ks, k) == i,
{
    let j = key_index(ks, k);
    assert(0 <= j < ks.len() && ks[j] == k);
    if j < i {
        lemma_key_lt_irreflexive(k);
    }
    if i < j {
        lemma_key_lt_irreflexive(k);
    }
}

/// The keys after inserting an entry are the keys before and the new entry's.
pub proof fn lemma_keys_after_insert<K: BookKey, V>(
    s: Seq<(K, V)>,
    p: int,
    e: (K, V),
    k: Seq<char>,
)
    requires
        0 <= p <= s.len(),
    ensures
        has_key(entry_keys(s.insert(p, e)), k) == (has_key(entry_keys(s), k) || e.0.key() == k),
{
    let t = s.insert(p, e);
    if has_key(entry_keys(t), k) {
        let i = choose|i: int| 0 <= i < entry_keys(t).len() && entry_keys(t)[i] == k;
        if i < p {
            assert(entry_keys(s)[i] == k);
        } else if i > p {
            assert(entry_keys(s)[i - 1] == k);
        }
    }
    if has_key(entry_keys(s), k) {
        let i = choose|i: int| 0 <= i < entry_keys(s).len() && entry_keys(s)[i] == k;
        if i < p {
            assert(entry_keys(t)[i] == k);
        } else {
            assert(entry_keys(t)[i + 1] == k);
        }
    }
    if e.0.key() == k {
        assert(entry_keys(t)[p] == k);
    }
}

/// A sequence of `(key, value)` entries kept in strictly increasing key order.
pub struct Registry<K, V> {
    entries: Vec<(K, V)>,
}

impl<K: BookKey, V> Registry<K, V> {
    pub closed spec fn entries(&self) -> Seq<(K, V)> {
        self.entries@
    }

    pub open spec fn keys(&self) -> Seq<Seq<char>> {
        entry_keys(self.entries())
    }

    pub open spec fn wf(&self) -> bool {
        sorted_keys(self.keys())
    }

    pub open spec fn get_spec(&self, k: Seq<char>) -> Option<V> {
        lookup(self.entries(), k)
    }

    pub fn new() -> (r: Self)
        ensures
            r.entries() == Seq::<(K, V)>::empty(),
            r.wf(),
    {
        Registry { entries: Vec::new() }
    }

    pub fn len(&self) -> (n: usize)
        ensures
            n == self.entries().len(),
    {
        self.entries.len()
    }

    pub fn key_at(&self, i: usize) -> (k: &K)
        requires
            i < self.entries().len(),
        ensures
            *k == self.entries()[i as int].0,
    {
        &self.entries[i].0
    }

    pub fn value_at(&self, i: usize) -> (v: &V)
        requires
            i < self.entries().len(),
        ensures
            *v == self.entries()[i as int].1,
    {
        &self.entries[i].1
    }

    /// Finds the position of `key`, or the position where it would be inserted.
    pub fn locate(&self, key: &str) -> (r: Result<usize, usize>)
        requires
            self.wf(),
        ensures
            match r {
                Ok(i) => i < self.entries().len() && self.keys()[i as int] == key@,
                Err(p) => {
                    &&& p <= self.entries().len()
                    &&& !has_key(self.keys(), key@)
                    &&& forall|i: int| 0 <= i < p ==> key_lt(#[trigger] self.keys()[i], key@)
                    &&& forall|i: int|
                        p <= i < self.entries().len() ==> key_lt(key@, #[trigger] self.keys()[i])
                },
            },
    {
        let n = self.entries.len();
        let mut i: usize = 0;
        while i < n
            invariant
                n == self.entries().len(),
                i <= n,
                self.wf(),
                forall|j: int| 0 <= j < i ==> key_lt(#[trigger] self.keys()[j], key@),
            decreases n - i,
        {
            let c = compare_keys(self.entries[i].0.key_str(), key);
            assert(self.keys()[i as int] == self.entries()[i as int].0.key());
            match c {
                KeyOrder::Equal => {
                    return Ok(i);
                },
                KeyOrder::Greater => {
                    proof {
                        assert forall|j: int| i <= j < n implies key_lt(
                            key@,
                            #[trigger] self.keys()[j],
                        ) by {
                            if j > i {
                                lemma_key_lt_transitive(key@, self.keys()[i as int], self.keys()[j]);
                            }
                        }
                        if has_key(self.keys(), key@) {
                            let j = key_index(self.keys(), key@);
                            if j < i {
                                lemma_key_lt_irreflexive(key@);
                            } else {
                                lemma_key_lt_irreflexive(key@);
                            }
                        }
                    }
                    return Err(i);
                },
                KeyOrder::Less => {},
            }
            i += 1;
        }
        proof {
            if has_key(self.keys(), key@) {
                let j = key_index(self.keys(), key@);
                lemma_key_lt_irreflexive(key@);
            }
        }
        Err(n)
    }

    /// The value stored under `key`, if any.
    pub fn find(&self, key: &str) -> (r: Option<&V>)
        requires
            self.wf(),
        ensures
            match r {
                Some(v) => self.get_spec(key@) == Some(*v),
                None => self.get_spec(key@) is None,
            },
    {
        match self.locate(key) {
            Ok(i) => {
                proof {
                    lemma_sorted_index_unique(self.keys(), i as int, key@);
                }
                Some(&self.entries[i].1)
            },
            Err(_) => None,
        }
    }

    /// The position of `key`, if present.
    pub fn position(&self, key: &str) -> (r: Option<usize>)
        requires
            self.wf(),
        ensures
            match r {
                Some(i) => i < self.entries().len() && self.keys()[i as int] == key@
                    && has_key(self.keys(), key@) && key_index(self.keys(), key@) == i,
                None => !has_key(self.keys(), key@),
            },
    {
        match self.locate(key) {
            Ok(i) => {
                proof {
                    lemma_sorted_index_unique(self.keys(), i as int, key@);
                }
                Some(i)
            },
            Err(_) => None,
        }
    }

    /// Mutable access to the value stored under `key`, if any.
    pub fn find_mut(&mut self, key: &str) -> (r: Option<&mut V>)
        requires
            old(self).wf(),
        ensures
            match r {
                Some(v) => {
                    let i = key_index(old(self).keys(), key@);
                    &&& has_key(old(self).keys(), key@)
                    &&& *v == old(self).entries()[i].1
                    &&& final(self).entries() == old(self).entries().update(
                        i,
                        (old(self).entries()[i].0, *final(v)),
                    )
                },
                None => !has_key(old(self).keys(), key@) && final(self).entries() == old(
                    self,
                ).entries(),
            },
    {
        match self.locate(key) {
            Ok(i) => {
                proof {
                    lemma_sorted_index_unique(self.keys(), i as int, key@);
                }
                Some(&mut self.entries[i].1)
            },
            Err(_) => None,
        }
    }

    /// Mutable access to the value at position `i`.
    pub fn value_at_mut(&mut self, i: usize) -> (v: &mut V)
        requires
            i < old(self).entries().len(),
        ensures
            *v == old(self).entries()[i as int].1,
            final(self).entries() == old(self).entries().update(
                i as int,
                (old(self).entries()[i as int].0, *final(v)),
            ),
    {
        &mut self.entries[i].1
    }

    /// Inserts `value` under `key` unless the key is already present.
    pub fn insert_new(&mut self, key: K, value: V) -> (r: bool)
        requires
            old(self).wf(),
        ensures
            final(self).wf(),
            r == !has_key(old(self).keys(), key.key()),
            r ==> exists|p: int|
                0 <= p <= old(self).entries().len() && final(self).entries() == old(
                    self,
                ).entries().insert(p, (key, value)),
            !r ==> final(self).entries() == old(self).entries(),
    {
        match self.locate(key.key_str()) {
            Ok(i) => {
                proof {
                    lemma_sorted_index_unique(self.keys(), i as int, key.key());
                }
                false
            },
            Err(p) => {
                let ghost old_entries = self.entries@;
                let ghost k = key.key();
                self.entries.insert(p, (key, value));
                proof {
                    let ks = self.keys();
                    let oks = entry_keys(old_entries);
                    assert(ks.len() == oks.len() + 1);
                    assert forall|i: int| 0 <= i < ks.len() implies #[trigger] ks[i] == if i < p {
                        oks[i]
                    } else if i == p {
                        k
                    } else {
                        oks[i - 1]
                    } by {}
                    assert forall|i: int, j: int| 0 <= i < j < ks.len() implies key_lt(
                        #[trigger] ks[i],
                        #[trigger] ks[j],
                    ) by {
                        if i < p && j == p {
                        } else if i < p && j > p {
                            lemma_key_lt_transitive(oks[i], k, oks[j - 1]);
                        } else if i == p {
                        } else if i < p {
                        } else {
                            assert(key_lt(oks[i - 1], oks[j - 1]));
                        }
                    }
                }
                true
            },
        }
    }

    /// Appends an entry whose key is greater than every key present.
    pub fn push_greatest(&mut self, key: K, value: V)
        requires
            old(self).wf(),
            forall|i: int| 0 <= i < old(self).keys().len() ==> key_lt(#[trigger] old(self).keys()[i], key.key()),
        ensures
            final(self).wf(),
            final(self).entries() == old(self).entries().push((key, value)),
    {
        let ghost k = key.key();
        self.entries.push((key, value));
        proof {
            let ks = self.keys();
            let oks = old(self).keys();
            assert forall|i: int, j: int| 0 <= i < j < ks.len() implies key_lt(
                #[trigger] ks[i],
                #[trigger] ks[j],
            ) by {
                if j == ks.len() - 1 {
                    assert(ks[j] == k);
                    assert(ks[i] == oks[i]);
                } else {
                    assert(ks[i] == oks[i]);
                    assert(ks[j] == oks[j]);
                }
            }
        }
    }

    /// Removes every entry.
    pub fn clear(&mut self)
        ensures
            final(self).entries() == Seq::<(K, V)>::empty(),
            final(self).wf(),
    {
        self.entries.clear();
    }
}

/// The values of a sequence of entries, in key order.
pub open spec fn entry_values<K, V>(s: Seq<(K, V)>) -> Seq<V> {
    s.map_values(|e: (K, V)| e.1)
}

/// One more element taken: the filter grows by that element when it passes.
pub proof fn lemma_filter_take_step<A>(s: Seq<A>, pred: spec_fn(A) -> bool, i: int)
    requires
        0 <= i < s.len(),
    ensures
        s.take(i + 1).filter(pred) == if pred(s[i]) {
            s.take(i).filter(pred).push(s[i])
        } else {
            s.take(i).filter(pred)
        },
{
    reveal(Seq::filter);
    assert(s.take(i + 1).drop_last() =~= s.take(i));
    assert(s.take(i + 1).last() == s[i]);
}

/// Every element a filter keeps comes from the sequence.
pub proof fn lemma_filter_member<A>(s: Seq<A>, p: spec_fn(A) -> bool, k: int)
    requires
        0 <= k < s.filter(p).len(),
    ensures
        exists|m: int| 0 <= m < s.len() && s[m] == s.filter(p)[k],
    decreases s.len(),
{
    reveal(Seq::filter);
    let t = s.drop_last();
    if p(s.last()) && k == s.filter(p).len() - 1 {
        assert(s[s.len() - 1] == s.filter(p)[k]);
    } else {
        assert(s.filter(p)[k] == t.filter(p)[k]);
        lemma_filter_member(t, p, k);
        let m = choose|m: int| 0 <= m < t.len() && t[m] == t.filter(p)[k];
        assert(s[m] == t[m]);
    }
}

/// Filtering distributes over a split of the sequence.
pub proof fn lemma_filter_split<A>(s: Seq<A>, p: spec_fn(A) -> bool, i: int)
    requires
        0 <= i <= s.len(),
    ensures
        s.filter(p) == s.take(i).filter(p) + s.skip(i).filter(p),
{
    assert(s =~= s.take(i) + s.skip(i));
    Seq::filter_distributes_over_add(s.take(i), s.skip(i), p);
}

pub proof fn lemma_take_full<A>(s: Seq<A>)
    ensures
        s.take(s.len() as int) == s,
{
    assert(s.take(s.len() as int) =~= s);
}

/// The values behind a sequence of references.
pub open spec fn derefs<T>(s: Seq<&T>) -> Seq<T> {
    s.map_values(|x: &T| *x)
}

pub proof fn lemma_derefs_push<T>(s: Seq<&T>, x: &T)
    ensures
        derefs(s.push(x)) == derefs(s).push(*x),
{
    assert(derefs(s.push(x)) =~= derefs(s).push(*x));
}

pub proof fn lemma_take_push<T>(s: Seq<T>, i: int)
    requires
        0 <= i < s.len(),
    ensures
        s.take(i + 1) == s.take(i).push(s[i]),
{
    assert(s.take(i + 1) =~= s.take(i).push(s[i]));
}

/// A sorted book of one to six entries found under keys listed in increasing order holds
/// exactly those values, in that order.
pub proof fn lemma_entries_in_order<K: BookKey, V>(s: Seq<(K, V)>, keys: Seq<Seq<char>>, vals: Seq<V>)
    requires
        sorted_keys(entry_keys(s)),
        1 <= keys.len() <= 6,
        vals.len() == keys.len(),
        s.len() == keys.len(),
        forall|i: int| 0 <= i < keys.len() - 1 ==> key_lt(#[trigger] keys[i], keys[i + 1]),
        forall|i: int| 0 <= i < keys.len() ==> lookup(s, #[trigger] keys[i]) == Some(vals[i]),
    ensures
        entry_values(s) =~= vals,
{
    let ks = entry_keys(s);
    let n = keys.len();
    let idx = Seq::new(n as nat, |i: int| key_index(ks, keys[i]));
    assert forall|i: int| 0 <= i < n implies 0 <= #[trigger] idx[i] < n && s[idx[i]].1 == vals[i] && ks[idx[i]] == keys[i] by {
        assert(lookup(s, keys[i]) == Some(vals[i]));
    }
    assert forall|i: int| 0 <= i < n - 1 implies #[trigger] idx[i] < idx[i + 1] by {
        assert(key_lt(keys[i], keys[i + 1]));
        assert(ks[idx[i]] == keys[i] && ks[idx[i + 1]] == keys[i + 1]);
        if idx[i + 1] < idx[i] {
            assert(key_lt(ks[idx[i + 1]], ks[idx[i]]));
            lemma_key_lt_transitive(keys[i], keys[i + 1], keys[i]);
            lemma_key_lt_irreflexive(keys[i]);
        }
        if idx[i + 1] == idx[i] {
            lemma_key_lt_irreflexive(keys[i]);
        }
    }
    if n > 1 { assert(idx[0] < idx[1]); }
    if n > 2 { assert(idx[1] < idx[2]); }
    if n > 3 { assert(idx[2] < idx[3]); }
    if n > 4 { assert(idx[3] < idx[4]); }
    if n > 5 { assert(idx[4] < idx[5]); }
    assert(0 <= idx[0] && idx[n - 1] < n);
    assert forall|i: int| 0 <= i < n implies #[trigger] entry_values(s)[i] == vals[i] by {
        assert(idx[i] == i);
    }
}

/// Lookup after an insertion at the sorted position.
pub proof fn lemma_lookup_after_insert<K: BookKey, V>(
    s: Seq<(K, V)>,
    p: int,
    key: K,
    value: V,
    other: Seq<char>,
)
    requires
        sorted_keys(entry_keys(s)),
        sorted_keys(entry_keys(s.insert(p, (key, value)))),
        0 <= p <= s.len(),
    ensures
        lookup(s.insert(p, (key, value)), key.key()) == Some(value),
        other != key.key() ==> lookup(s.insert(p, (key, value)), other) == lookup(s, other),
{
    let t = s.insert(p, (key, value));
    let ks = entry_keys(s);
    let kt = entry_keys(t);
    assert(kt[p] == key.key());
    lemma_sorted_index_unique(kt, p, key.key());
    if other != key.key() {
        if has_key(ks, other) {
            let j = key_index(ks, other);
            let j2 = if j < p {
                j
            } else {
                j + 1
            };
            assert(kt[j2] == other);
            lemma_sorted_index_unique(kt, j2, other);
        }
        if has_key(kt, other) {
            let j = key_index(kt, other);
            let j2 = if j < p {
                j
            } else {
                j - 1
            };
            assert(ks[j2] == other);
        }
    }
}

/// Lookup after the value at one position is replaced.
pub proof fn lemma_lookup_after_update<K: BookKey, V>(
    s: Seq<(K, V)>,
    i: int,
    value: V,
    other: Seq<char>,
)
    requires
        sorted_keys(entry_keys(s)),
        0 <= i < s.len(),
    ensures
        entry_keys(s.update(i, (s[i].0, value))) == entry_keys(s),
        lookup(s.update(i, (s[i].0, value)), s[i].0.key()) == Some(value),
        other != s[i].0.key() ==> lookup(s.update(i, (s[i].0, value)), other) == lookup(s, other),
{
    let t = s.update(i, (s[i].0, value));
    assert(entry_keys(t) =~= entry_keys(s));
    lemma_sorted_index_unique(entry_keys(s), i, s[i].0.key());
}

} // verus!
