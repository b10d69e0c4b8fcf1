//! Vectors kept in strictly increasing identifier order, read as maps from
//! identifier text to element.
use vstd::prelude::*;

use crate::iri::{
    iri_lt, lemma_iri_lt_irreflexive, lemma_iri_lt_total, lemma_iri_lt_transitive, str_precedes,
    str_same, Iri,
};

verus! {

/// An element that carries the identifier it is filed under.
pub trait Keyed {
    spec fn key(&self) -> Seq<char>;
}

/// A keyed element whose identifier can be read at run time.
pub trait KeyedExec: Keyed {
    fn key_str(&self) -> (r: &str)
        ensures
            r@ == self.key(),
    ;
}

impl Keyed for Iri {
    open spec fn key(&self) -> Seq<char> {
        self@
    }
}

impl KeyedExec for Iri {
    fn key_str(&self) -> (r: &str) {
        self.as_str()
    }
}

impl Keyed for String {
    open spec fn key(&self) -> Seq<char> {
        self@
    }
}

impl KeyedExec for String {
    fn key_str(&self) -> (r: &str) {
        self.as_str()
    }
}

impl Keyed for Seq<char> {
    open spec fn key(&self) -> Seq<char> {
        *self
    }
}

/// The keys increase strictly along the sequence.
pub open spec fn sorted_keys<T: Keyed>(s: Seq<T>) -> bool {
    forall|i: int, j: int| 0 <= i < j < s.len() ==> iri_lt(#[trigger] s[i].key(), #[trigger] s[j].key())
}

pub open spec fn has_key<T: Keyed>(s: Seq<T>, k: Seq<char>) -> bool {
    exists|i: int| 0 <= i < s.len() && #[trigger] s[i].key() == k
}

pub open spec fn index_of_key<T: Keyed>(s: Seq<T>, k: Seq<char>) -> int {
    choose|i: int| 0 <= i < s.len() && #[trigger] s[i].key() == k
}

/// The sequence read as a map from key to element.
pub open spec fn key_map<T: Keyed>(s: Seq<T>) -> Map<Seq<char>, T> {
    Map::new(|k: Seq<char>| has_key(s, k), |k: Seq<char>| s[index_of_key(s, k)])
}

/// The keys of the sequence, in order.
pub open spec fn keys_of<T: Keyed>(s: Seq<T>) -> Seq<Seq<char>> {
    s.map_values(|e: T| e.key())
}

pub proof fn lemma_sorted_distinct<T: Keyed>(s: Seq<T>, i: int, j: int)
    requires
        sorted_keys(s),
        0 <= i < s.len(),
        0 <= j < s.len(),
        s[i].key() == s[j].key(),
    ensures
        i == j,
{
    lemma_iri_lt_irreflexive(s[i].key());
}

/// Two sequences with the same keys at the same places.
pub open spec fn same_keys<T: Keyed, U: Keyed>(s: Seq<T>, t: Seq<U>) -> bool {
    s.len() == t.len() && forall|i: int| 0 <= i < s.len() ==> #[trigger] s[i].key() == #[trigger] t[i].key()
}

pub proof fn lemma_same_keys<T: Keyed, U: Keyed>(s: Seq<T>, t: Seq<U>)
    requires
        same_keys(s, t),
    ensures
        sorted_keys(s) == sorted_keys(t),
        key_map(s).dom() == key_map(t).dom(),
{
    assert forall|k: Seq<char>| has_key(s, k) <==> has_key(t, k) by {
        if has_key(s, k) {
            let i = index_of_key(s, k);
            assert(t[i].key() == k);
        }
        if has_key(t, k) {
            let i = index_of_key(t, k);
            assert(s[i].key() == k);
        }
    }
    assert(key_map(s).dom() =~= key_map(t).dom());
    if sorted_keys(s) {
        assert forall|i: int, j: int| 0 <= i < j < t.len() implies iri_lt(
            #[trigger] t[i].key(),
            #[trigger] t[j].key(),
        ) by {
            assert(s[i].key() == t[i].key());
            assert(s[j].key() == t[j].key());
        }
    }
    if sorted_keys(t) {
        assert forall|i: int, j: int| 0 <= i < j < s.len() implies iri_lt(
            #[trigger] s[i].key(),
            #[trigger] s[j].key(),
        ) by {
            assert(s[i].key() == t[i].key());
            assert(s[j].key() == t[j].key());
        }
    }
}

/// In a sorted sequence each element is what the map holds under its key.
pub proof fn lemma_key_map_at<T: Keyed>(s: Seq<T>, i: int)
    requires
        sorted_keys(s),
        0 <= i < s.len(),
    ensures
        key_map(s).contains_key(s[i].key()),
        key_map(s)[s[i].key()] == s[i],
{
    let k = s[i].key();
    assert(has_key(s, k));
    let j = index_of_key(s, k);
    lemma_sorted_distinct(s, i, j);
}

pub proof fn lemma_key_map_all<T: Keyed>(s: Seq<T>)
    requires
        sorted_keys(s),
    ensures
        forall|i: int| 0 <= i < s.len() ==> #[trigger] key_map(s)[s[i].key()] == s[i],
        forall|i: int| 0 <= i < s.len() ==> key_map(s).contains_key(#[trigger] s[i].key()),
{
    assert forall|i: int| 0 <= i < s.len() implies #[trigger] key_map(s)[s[i].key()] == s[i]
        && key_map(s).contains_key(s[i].key()) by {
        lemma_key_map_at(s, i);
    }
}

/// Inserting at the place that the order assigns keeps the order and adds the entry.
pub proof fn lemma_insert_at<T: Keyed>(s: Seq<T>, p: int, x: T)
    requires
        sorted_keys(s),
        0 <= p <= s.len(),
        forall|j: int| 0 <= j < p ==> iri_lt(#[trigger] s[j].key(), x.key()),
        forall|j: int| p <= j < s.len() ==> iri_lt(x.key(), #[trigger] s[j].key()),
    ensures
        sorted_keys(s.insert(p, x)),
        !key_map(s).contains_key(x.key()),
        key_map(s.insert(p, x)) == key_map(s).insert(x.key(), x),
{
    let t = s.insert(p, x);
    assert forall|i: int, j: int| 0 <= i < j < t.len() implies iri_lt(
        #[trigger] t[i].key(),
        #[trigger] t[j].key(),
    ) by {
        if i < p && j > p {
            lemma_iri_lt_transitive(s[i].key(), x.key(), s[j - 1].key());
        }
    }
    if has_key(s, x.key()) {
        let j = index_of_key(s, x.key());
        lemma_iri_lt_irreflexive(x.key());
        assert(false);
    }
    lemma_key_map_all(s);
    lemma_key_map_all(t);
    assert forall|k: Seq<char>| has_key(t, k) <==> (has_key(s, k) || k == x.key()) by {
        if has_key(t, k) {
            let i = index_of_key(t, k);
            if i < p {
                assert(s[i].key() == k);
            } else if i > p {
                assert(s[i - 1].key() == k);
            }
        }
        if has_key(s, k) {
            let i = index_of_key(s, k);
            if i < p {
                assert(t[i].key() == k);
            } else {
                assert(t[i + 1].key() == k);
            }
        }
        if k == x.key() {
            assert(t[p].key() == k);
        }
    }
    assert forall|k: Seq<char>| #[trigger] key_map(t).contains_key(k) implies key_map(t)[k]
        == key_map(s).insert(x.key(), x)[k] by {
        let i = index_of_key(t, k);
        if i < p {
            assert(key_map(s)[s[i].key()] == s[i]);
        } else if i > p {
            assert(key_map(s)[s[i - 1].key()] == s[i - 1]);
        }
    }
    assert(key_map(t) =~= key_map(s).insert(x.key(), x));
}

/// Replacing an element by one with the same key keeps the order and updates the entry.
pub proof fn lemma_update_at<T: Keyed>(s: Seq<T>, p: int, x: T)
    requires
        sorted_keys(s),
        0 <= p < s.len(),
        x.key() == s[p].key(),
    ensures
        sorted_keys(s.update(p, x)),
        key_map(s.update(p, x)) == key_map(s).insert(x.key(), x),
{
    let t = s.update(p, x);
    assert forall|i: int, j: int| 0 <= i < j < t.len() implies iri_lt(
        #[trigger] t[i].key(),
        #[trigger] t[j].key(),
    ) by {
        assert(t.len() == s.len());
    }
    lemma_key_map_all(s);
    lemma_key_map_all(t);
    assert forall|k: Seq<char>| has_key(t, k) <==> has_key(s, k) by {
        if has_key(t, k) {
            let i = index_of_key(t, k);
            assert(s[i].key() == k);
        }
        if has_key(s, k) {
            let i = index_of_key(s, k);
            assert(t[i].key() == k);
        }
    }
    assert forall|k: Seq<char>| #[trigger] key_map(t).contains_key(k) implies key_map(t)[k]
        == key_map(s).insert(x.key(), x)[k] by {
        let i = index_of_key(t, k);
        if i != p {
            assert(key_map(s)[s[i].key()] == s[i]);
            if k == x.key() {
                lemma_sorted_distinct(t, i, p);
            }
        }
    }
    assert(key_map(t) =~= key_map(s).insert(x.key(), x));
}

/// Removing an element keeps the order and drops its entry.
pub proof fn lemma_remove_at<T: Keyed>(s: Seq<T>, p: int)
    requires
        sorted_keys(s),
        0 <= p < s.len(),
    ensures
        sorted_keys(s.remove(p)),
        key_map(s.remove(p)) == key_map(s).remove(s[p].key()),
{
    let t = s.remove(p);
    let xk = s[p].key();
    lemma_key_map_all(s);
    lemma_key_map_all(t);
    assert forall|k: Seq<char>| has_key(t, k) <==> (has_key(s, k) && k != xk) by {
        if has_key(t, k) {
            let i = index_of_key(t, k);
            if i < p {
                assert(s[i].key() == k);
                if k == xk {
                    lemma_sorted_distinct(s, i, p);
                }
            } else {
                assert(s[i + 1].key() == k);
                if k == xk {
                    lemma_sorted_distinct(s, i + 1, p);
                }
            }
        }
        if has_key(s, k) && k != xk {
            let i = index_of_key(s, k);
            if i < p {
                assert(t[i].key() == k);
            } else if i > p {
                assert(t[i - 1].key() == k);
            }
        }
    }
    assert forall|k: Seq<char>| #[trigger] key_map(t).contains_key(k) implies key_map(t)[k]
        == key_map(s).remove(xk)[k] by {
        let i = index_of_key(t, k);
        if i < p {
            assert(key_map(s)[s[i].key()] == s[i]);
        } else {
            assert(key_map(s)[s[i + 1].key()] == s[i + 1]);
        }
    }
    assert(key_map(t) =~= key_map(s).remove(xk));
}

/// A sequence of distinct keys, each filed in `s`, is no longer than `s`.
pub proof fn lemma_distinct_keys_bounded<T: Keyed>(q: Seq<Seq<char>>, s: Seq<T>)
    requires
        q.no_duplicates(),
        forall|i: int| 0 <= i < q.len() ==> key_map(s).contains_key(#[trigger] q[i]),
    ensures
        q.len() <= s.len(),
{
    let ks = keys_of(s);
    assert(q.to_set().subset_of(ks.to_set())) by {
        assert forall|k: Seq<char>| q.to_set().contains(k) implies ks.to_set().contains(k) by {
            let i = choose|i: int| 0 <= i < q.len() && q[i] == k;
            assert(has_key(s, k));
            let j = index_of_key(s, k);
            assert(ks[j] == k);
        }
    }
    vstd::seq_lib::seq_to_set_is_finite(ks);
    vstd::set_lib::lemma_len_subset(q.to_set(), ks.to_set());
    q.unique_seq_to_set();
    ks.lemma_cardinality_of_set();
}

/// Two sorted sequences of texts that hold the same texts are equal.
pub proof fn lemma_sorted_unique(a: Seq<Seq<char>>, b: Seq<Seq<char>>)
    requires
        sorted_keys(a),
        sorted_keys(b),
        a.to_set() == b.to_set(),
    ensures
        a == b,
    decreases a.len(),
{
    if a.len() == 0 {
        if b.len() > 0 {
            assert(b.to_set().contains(b[0]));
        }
        assert(a =~= b);
    } else {
        assert(a.to_set().contains(a[0]));
        assert(b.len() > 0);
        assert(b.to_set().contains(b[0]));
        let j = choose|j: int| 0 <= j < b.len() && b[j] == a[0];
        let i = choose|i: int| 0 <= i < a.len() && a[i] == b[0];
        if j > 0 {
            assert(iri_lt(b[0].key(), b[j].key()));
            if i > 0 {
                assert(iri_lt(a[0].key(), a[i].key()));
                lemma_iri_lt_transitive(a[0], b[0], a[0]);
            }
            lemma_iri_lt_irreflexive(a[0]);
        }
        assert(a[0] == b[0]);
        let a1 = a.drop_first();
        let b1 = b.drop_first();
        assert forall|x: Seq<char>| a1.to_set().contains(x) <==> b1.to_set().contains(x) by {
            if a1.to_set().contains(x) {
                let k = choose|k: int| 0 <= k < a1.len() && a1[k] == x;
                assert(iri_lt(a[0].key(), a[k + 1].key()));
                if x == a[0] {
                    lemma_iri_lt_irreflexive(x);
                }
                assert(a.to_set().contains(x));
                let m = choose|m: int| 0 <= m < b.len() && b[m] == x;
                assert(m != 0);
                assert(b1[m - 1] == x);
            }
            if b1.to_set().contains(x) {
                let k = choose|k: int| 0 <= k < b1.len() && b1[k] == x;
                assert(iri_lt(b[0].key(), b[k + 1].key()));
                if x == b[0] {
                    lemma_iri_lt_irreflexive(x);
                }
                assert(b.to_set().contains(x));
                let m = choose|m: int| 0 <= m < a.len() && a[m] == x;
                assert(m != 0);
                assert(a1[m - 1] == x);
            }
        }
        assert(a1.to_set() =~= b1.to_set());
        assert(sorted_keys(a1)) by {
            assert forall|x: int, y: int| 0 <= x < y < a1.len() implies iri_lt(#[trigger] a1[x].key(), #[trigger] a1[y].key()) by {
                assert(iri_lt(a[x + 1].key(), a[y + 1].key()));
            }
        }
        assert(sorted_keys(b1)) by {
            assert forall|x: int, y: int| 0 <= x < y < b1.len() implies iri_lt(#[trigger] b1[x].key(), #[trigger] b1[y].key()) by {
                assert(iri_lt(b[x + 1].key(), b[y + 1].key()));
            }
        }
        lemma_sorted_unique(a1, b1);
        assert(a =~= seq![a[0]] + a1);
        assert(b =~= seq![b[0]] + b1);
    }
}

/// Finds the element filed under `k`, or the position where it would go.
pub fn locate<T: KeyedExec>(v: &Vec<T>, k: &str) -> (r: Result<usize, usize>)
    requires
        sorted_keys(v@),
    ensures
        match r {
            Ok(i) => i < v.len() && v@[i as int].key() == k@ && key_map(v@).contains_key(k@)
                && key_map(v@)[k@] == v@[i as int],
            Err(p) => p <= v.len() && !key_map(v@).contains_key(k@) && (forall|j: int|
                0 <= j < p ==> iri_lt(#[trigger] v@[j].key(), k@)) && (forall|j: int|
                p <= j < v.len() ==> iri_lt(k@, #[trigger] v@[j].key())),
        },
{
    let mut i: usize = 0;
    while i < v.len()
        invariant
            sorted_keys(v@),
            i <= v.len(),
            forall|j: int| 0 <= j < i ==> iri_lt(#[trigger] v@[j].key(), k@),
        decreases v.len() - i,
    {
        let here = v[i].key_str();
        if str_same(here, k) {
            proof {
                lemma_key_map_at(v@, i as int);
            }
            return Ok(i);
        }
        if str_precedes(k, here) {
            proof {
                assert forall|j: int| i <= j < v.len() implies iri_lt(k@, #[trigger] v@[j].key()) by {
                    if j > i {
                        lemma_iri_lt_transitive(k@, v@[i as int].key(), v@[j].key());
                    }
                }
                if has_key(v@, k@) {
                    let j = index_of_key(v@, k@);
                    lemma_iri_lt_irreflexive(k@);
                }
            }
            return Err(i);
        }
        proof {
            lemma_iri_lt_total(v@[i as int].key(), k@);
        }
        i = i + 1;
    }
    proof {
        if has_key(v@, k@) {
            let j = index_of_key(v@, k@);
            lemma_iri_lt_irreflexive(k@);
        }
    }
    Err(i)
}

/// Adds `x` unless an element with its key is present; returns whether it was added.
pub fn insert_keyed<T: KeyedExec>(v: &mut Vec<T>, x: T) -> (r: bool)
    requires
        sorted_keys(old(v)@),
    ensures
        sorted_keys(final(v)@),
        r == !key_map(old(v)@).contains_key(x.key()),
        r ==> key_map(final(v)@) == key_map(old(v)@).insert(x.key(), x),
        !r ==> final(v)@ == old(v)@,
{
    match locate(v, x.key_str()) {
        Ok(_) => false,
        Err(p) => {
            proof {
                lemma_insert_at(v@, p as int, x);
            }
            v.insert(p, x);
            true
        },
    }
}

/// Files `x` under its key, replacing what was filed there.
pub fn upsert_keyed<T: KeyedExec>(v: &mut Vec<T>, x: T) -> (r: Result<usize, usize>)
    requires
        sorted_keys(old(v)@),
    ensures
        sorted_keys(final(v)@),
        key_map(final(v)@) == key_map(old(v)@).insert(x.key(), x),
        match r {
            Ok(i) => i < old(v)@.len() && old(v)@[i as int].key() == x.key() && final(v)@ == old(
                v,
            )@.update(i as int, x),
            Err(p) => p <= old(v)@.len() && final(v)@ == old(v)@.insert(p as int, x) && (forall|
                j: int,
            | 0 <= j < p ==> iri_lt(#[trigger] old(v)@[j].key(), x.key())) && (forall|j: int|
                p <= j < old(v)@.len() ==> iri_lt(x.key(), #[trigger] old(v)@[j].key())),
        },
{
    let ghost k = x.key();
    match locate(v, x.key_str()) {
        Ok(i) => {
            proof {
                lemma_update_at(v@, i as int, x);
            }
            let ghost before = v@;
            v.remove(i);
            v.insert(i, x);
            assert(v@ =~= before.update(i as int, x));
            Ok(i)
        },
        Err(p) => {
            proof {
                lemma_insert_at(v@, p as int, x);
            }
            v.insert(p, x);
            Err(p)
        },
    }
}

/// Removes the element filed under `k`; returns whether there was one.
pub fn remove_keyed<T: KeyedExec>(v: &mut Vec<T>, k: &Iri) -> (r: bool)
    requires
        sorted_keys(old(v)@),
    ensures
        sorted_keys(final(v)@),
        r == key_map(old(v)@).contains_key(k@),
        key_map(final(v)@) == key_map(old(v)@).remove(k@),
{
    match locate(v, k.as_str()) {
        Ok(p) => {
            proof {
                lemma_remove_at(v@, p as int);
            }
            v.remove(p);
            true
        },
        Err(_) => {
            assert(key_map(v@) =~= key_map(v@).remove(k@));
            false
        },
    }
}

/// The element filed under `k`, if any.
pub fn lookup<'a, T: KeyedExec>(v: &'a Vec<T>, k: &Iri) -> (r: Option<&'a T>)
    requires
        sorted_keys(v@),
    ensures
        r is Some == key_map(v@).contains_key(k@),
        r matches Some(e) ==> *e == key_map(v@)[k@],
{
    match locate(v, k.as_str()) {
        Ok(i) => Some(&v[i]),
        Err(_) => None,
    }
}

} // verus!
