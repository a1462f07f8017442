//! Ordered string-keyed tables: a vector of `(key, value)` pairs kept in
//! strictly increasing lexicographic key order, so that iteration visits keys
//! in the same order an ordered map would.

use crate::text::chars_of;
use vstd::prelude::*;

verus! {

/// Strict lexicographic order on character sequences (code-point order).
pub open spec fn lex_lt(a: Seq<char>, b: Seq<char>) -> bool
    decreases a.len(),
{
    if a.len() == 0 {
        b.len() > 0
    } else if b.len() == 0 {
        false
    } else if a[0] < b[0] {
        true
    } else if a[0] == b[0] {
        lex_lt(a.drop_first(), b.drop_first())
    } else {
        false
    }
}

/// No sequence precedes itself.
pub proof fn lemma_lex_irreflexive(a: Seq<char>)
    ensures
        !lex_lt(a, a),
    decreases a.len(),
{
    if a.len() > 0 {
        lemma_lex_irreflexive(a.drop_first());
    }
}

/// Lexicographic order is transitive.
pub proof fn lemma_lex_transitive(a: Seq<char>, b: Seq<char>, c: Seq<char>)
    requires
        lex_lt(a, b),
        lex_lt(b, c),
    ensures
        lex_lt(a, c),
    decreases a.len(),
{
    if a.len() > 0 && b.len() > 0 && c.len() > 0 && a[0] == b[0] && b[0] == c[0] {
        lemma_lex_transitive(a.drop_first(), b.drop_first(), c.drop_first());
    }
}

/// Any two distinct sequences are ordered one way or the other.
pub proof fn lemma_lex_total(a: Seq<char>, b: Seq<char>)
    ensures
        a == b || lex_lt(a, b) || lex_lt(b, a),
    decreases a.len(),
{
    if a.len() > 0 && b.len() > 0 && a[0] == b[0] {
        lemma_lex_total(a.drop_first(), b.drop_first());
        if a.drop_first() == b.drop_first() {
            assert(a =~= seq![a[0]] + a.drop_first());
            assert(b =~= seq![b[0]] + b.drop_first());
        }
    } else if a.len() == 0 && b.len() == 0 {
        assert(a =~= b);
    }
}

/// Lexicographic order is asymmetric.
pub proof fn lemma_lex_asymmetric(a: Seq<char>, b: Seq<char>)
    ensures
        !(lex_lt(a, b) && lex_lt(b, a)),
{
    if lex_lt(a, b) && lex_lt(b, a) {
        lemma_lex_transitive(a, b, a);
        lemma_lex_irreflexive(a);
    }
}

proof fn lemma_lex_skip(a: Seq<char>, b: Seq<char>, i: int)
    requires
        0 <= i < a.len(),
        i < b.len(),
        a.take(i) == b.take(i),
        a[i] == b[i],
    ensures
        lex_lt(a.skip(i), b.skip(i)) == lex_lt(a.skip(i + 1), b.skip(i + 1)),
{
    assert(a.skip(i).drop_first() =~= a.skip(i + 1));
    assert(b.skip(i).drop_first() =~= b.skip(i + 1));
}

proof fn lemma_lex_prefix(a: Seq<char>, b: Seq<char>, i: int)
    requires
        0 <= i <= a.len(),
        i <= b.len(),
        a.take(i) == b.take(i),
    ensures
        lex_lt(a, b) == lex_lt(a.skip(i), b.skip(i)),
    decreases i,
{
    if i > 0 {
        assert(a.take(i - 1) =~= a.take(i).take(i - 1));
        assert(b.take(i - 1) =~= b.take(i).take(i - 1));
        assert(a[i - 1] == a.take(i)[i - 1]);
        assert(b[i - 1] == b.take(i)[i - 1]);
        lemma_lex_prefix(a, b, i - 1);
        lemma_lex_skip(a, b, i - 1);
    } else {
        assert(a.skip(0) =~= a);
        assert(b.skip(0) =~= b);
    }
}

/// Three-way lexicographic comparison: negative, zero or positive.
pub fn lex_compare(a: &[char], b: &[char]) -> (r: i8)
    ensures
        r < 0 <==> lex_lt(a@, b@),
        r == 0 <==> a@ == b@,
        r > 0 <==> lex_lt(b@, a@),
{
    let mut i: usize = 0;
    while i < a.len() && i < b.len()
        invariant
            i <= a.len(),
            i <= b.len(),
            a@.take(i as int) == b@.take(i as int),
        decreases a.len() - i,
    {
        if a[i] != b[i] {
            proof {
                lemma_lex_prefix(a@, b@, i as int);
                lemma_lex_prefix(b@, a@, i as int);
                lemma_lex_asymmetric(a@, b@);
                assert(a@[i as int] != b@[i as int]);
            }
            if a[i] < b[i] {
                return -1;
            } else {
                return 1;
            }
        }
        proof {
            assert(a@.take(i + 1) =~= a@.take(i as int).push(a@[i as int]));
            assert(b@.take(i + 1) =~= b@.take(i as int).push(b@[i as int]));
        }
        i = i + 1;
    }
    proof {
        lemma_lex_prefix(a@, b@, i as int);
        lemma_lex_prefix(b@, a@, i as int);
        assert(a@ =~= a@.take(i as int) + a@.skip(i as int));
        assert(b@ =~= b@.take(i as int) + b@.skip(i as int));
    }
    if a.len() == b.len() {
        proof {
            assert(a@.skip(i as int) =~= b@.skip(i as int));
            lemma_lex_irreflexive(a@);
        }
        0
    } else if a.len() < b.len() {
        proof {
            lemma_lex_asymmetric(a@, b@);
        }
        -1
    } else {
        proof {
            lemma_lex_asymmetric(a@, b@);
        }
        1
    }
}

// ---------------------------------------------------------------------------
// Ordered tables
// ---------------------------------------------------------------------------

/// Keys are strictly increasing.
pub open spec fn keys_sorted<V>(s: Seq<(String, V)>) -> bool {
    forall|i: int, j: int| 0 <= i < j < s.len() ==> lex_lt(#[trigger] s[i].0@, #[trigger] s[j].0@)
}

/// `k` is one of the keys.
pub open spec fn has_key<V>(s: Seq<(String, V)>, k: Seq<char>) -> bool {
    exists|i: int| 0 <= i < s.len() && #[trigger] s[i].0@ == k
}

/// The position of key `k`.
pub open spec fn key_pos<V>(s: Seq<(String, V)>, k: Seq<char>) -> int {
    choose|i: int| 0 <= i < s.len() && #[trigger] s[i].0@ == k
}

/// The table as a map from key to value.
pub open spec fn table_map<V>(s: Seq<(String, V)>) -> Map<Seq<char>, V> {
    Map::new(|k: Seq<char>| has_key(s, k), |k: Seq<char>| s[key_pos(s, k)].1)
}

/// The keys in table order.
pub open spec fn table_keys<V>(s: Seq<(String, V)>) -> Seq<Seq<char>> {
    Seq::new(s.len(), |i: int| s[i].0@)
}

/// In a sorted table the entry at `i` is what the map holds for its key.
pub proof fn lemma_table_entry<V>(s: Seq<(String, V)>, i: int)
    requires
        keys_sorted(s),
        0 <= i < s.len(),
    ensures
        table_map(s).dom().contains(s[i].0@),
        table_map(s)[s[i].0@] == s[i].1,
        key_pos(s, s[i].0@) == i,
{
    let k = s[i].0@;
    assert(has_key(s, k));
    let p = key_pos(s, k);
    if p != i {
        if p < i {
            assert(lex_lt(s[p].0@, s[i].0@));
        } else {
            assert(lex_lt(s[i].0@, s[p].0@));
        }
        lemma_lex_irreflexive(k);
    }
}

/// Position of `key`: `Ok(i)` when present, otherwise `Err(p)` with the
/// insertion point that keeps the keys sorted.
pub fn table_find<V>(t: &Vec<(String, V)>, key: &[char]) -> (r: Result<usize, usize>)
    requires
        keys_sorted(t@),
    ensures
        match r {
            Ok(i) => i < t@.len() && t@[i as int].0@ == key@,
            Err(p) => {
                &&& p <= t@.len()
                &&& !has_key(t@, key@)
                &&& forall|j: int| 0 <= j < p ==> lex_lt(#[trigger] t@[j].0@, key@)
                &&& forall|j: int| p <= j < t@.len() ==> lex_lt(key@, #[trigger] t@[j].0@)
            },
        },
{
    let mut i: usize = 0;
    while i < t.len()
        invariant
            i <= t@.len(),
            keys_sorted(t@),
            forall|j: int| 0 <= j < i ==> lex_lt(#[trigger] t@[j].0@, key@),
        decreases t.len() - i,
    {
        let kv = chars_of(t[i].0.as_str());
        let c = lex_compare(kv.as_slice(), key);
        if c == 0 {
            return Ok(i);
        }
        if c > 0 {
            proof {
                assert forall|j: int| i <= j < t@.len() implies lex_lt(key@, #[trigger] t@[j].0@) by {
                    if j > i {
                        lemma_lex_transitive(key@, t@[i as int].0@, t@[j].0@);
                    }
                }
                assert forall|j: int| 0 <= j < t@.len() implies #[trigger] t@[j].0@ != key@ by {
                    if j < i {
                        lemma_lex_irreflexive(key@);
                    } else {
                        lemma_lex_irreflexive(key@);
                    }
                }
            }
            return Err(i);
        }
        i = i + 1;
    }
    proof {
        assert forall|j: int| 0 <= j < t@.len() implies #[trigger] t@[j].0@ != key@ by {
            lemma_lex_irreflexive(key@);
        }
    }
    Err(i)
}

/// Looks a key up.
pub fn table_get<'a, V>(t: &'a Vec<(String, V)>, key: &[char]) -> (r: Option<&'a V>)
    requires
        keys_sorted(t@),
    ensures
        match r {
            Some(v) => table_map(t@).dom().contains(key@) && table_map(t@)[key@] == *v,
            None => !table_map(t@).dom().contains(key@),
        },
{
    match table_find(t, key) {
        Ok(i) => {
            proof {
                lemma_table_entry(t@, i as int);
            }
            Some(&t[i].1)
        },
        Err(_) => None,
    }
}

/// Whether a key is present.
pub fn table_contains<V>(t: &Vec<(String, V)>, key: &[char]) -> (r: bool)
    requires
        keys_sorted(t@),
    ensures
        r == table_map(t@).dom().contains(key@),
{
    table_find(t, key).is_ok()
}

/// Inserts or replaces the value for `key`.
pub fn table_insert<V>(t: &mut Vec<(String, V)>, key: String, value: V)
    requires
        keys_sorted(old(t)@),
    ensures
        keys_sorted(final(t)@),
        table_map(final(t)@) == table_map(old(t)@).insert(key@, value),
{
    let kv = chars_of(key.as_str());
    let ghost k = key@;
    let ghost s0 = t@;
    let ghost e = (key, value);
    match table_find(t, kv.as_slice()) {
        Ok(i) => {
            t.set(i, (key, value));
            proof {
                let s1 = t@;
                assert(keys_sorted(s1)) by {
                    assert forall|a: int, b: int| 0 <= a < b < s1.len() implies lex_lt(
                        #[trigger] s1[a].0@,
                        #[trigger] s1[b].0@,
                    ) by {
                        assert(s0[a].0@ == s1[a].0@ || a == i);
                        assert(s0[b].0@ == s1[b].0@ || b == i);
                        assert(lex_lt(s0[a].0@, s0[b].0@));
                    }
                }
                lemma_table_set_map(s0, s1, e, i as int);
            }
        },
        Err(p) => {
            t.insert(p, (key, value));
            proof {
                let s1 = t@;
                assert(keys_sorted(s1)) by {
                    assert forall|a: int, b: int| 0 <= a < b < s1.len() implies lex_lt(
                        #[trigger] s1[a].0@,
                        #[trigger] s1[b].0@,
                    ) by {
                        if a < p && b < p {
                            assert(lex_lt(s0[a].0@, s0[b].0@));
                        } else if a < p && b == p {
                        } else if a < p && b > p {
                            assert(s1[b] == s0[b - 1]);
                            assert(lex_lt(s0[a].0@, k));
                            lemma_lex_transitive(s0[a].0@, k, s0[b - 1].0@);
                        } else if a == p {
                            assert(s1[b] == s0[b - 1]);
                        } else {
                            assert(s1[a] == s0[a - 1]);
                            assert(s1[b] == s0[b - 1]);
                            assert(lex_lt(s0[a - 1].0@, s0[b - 1].0@));
                        }
                    }
                }
                lemma_table_insert_at_map(s0, s1, e, p as int);
            }
        },
    }
}

proof fn lemma_table_set_map<V>(s0: Seq<(String, V)>, s1: Seq<(String, V)>, e: (String, V), i: int)
    requires
        keys_sorted(s0),
        keys_sorted(s1),
        0 <= i < s0.len(),
        s0[i].0@ == e.0@,
        s1 == s0.update(i, e),
    ensures
        table_map(s1) == table_map(s0).insert(e.0@, e.1),
{
    let k = e.0@;
    let m0 = table_map(s0);
    let m1 = table_map(s1);
    assert forall|x: Seq<char>| #[trigger] m1.dom().contains(x) <==> m0.insert(k, e.1).dom().contains(x) by {
        if m1.dom().contains(x) {
            let a = key_pos(s1, x);
            if a != i {
                assert(s0[a] == s1[a]);
            }
        }
        if m0.dom().contains(x) {
            let b = key_pos(s0, x);
            if b != i {
                assert(s1[b] == s0[b]);
            } else {
                assert(s1[i].0@ == x);
            }
        }
        if x == k {
            assert(s1[i].0@ == x);
        }
    }
    assert forall|x: Seq<char>| #[trigger] m1.dom().contains(x) implies m1[x] == m0.insert(k, e.1)[x] by {
        let a = key_pos(s1, x);
        lemma_table_entry(s1, a);
        lemma_table_entry(s1, i);
        if a != i {
            assert(s0[a] == s1[a]);
            lemma_table_entry(s0, a);
        }
    }
    assert(m1 =~= m0.insert(k, e.1));
}

proof fn lemma_table_insert_at_map<V>(s0: Seq<(String, V)>, s1: Seq<(String, V)>, e: (String, V), p: int)
    requires
        keys_sorted(s0),
        keys_sorted(s1),
        0 <= p <= s0.len(),
        !has_key(s0, e.0@),
        s1 == s0.insert(p, e),
    ensures
        table_map(s1) == table_map(s0).insert(e.0@, e.1),
{
    let k = e.0@;
    let m0 = table_map(s0);
    let m1 = table_map(s1);
    assert(s1[p] == e);
    assert forall|x: Seq<char>| #[trigger] m1.dom().contains(x) <==> m0.insert(k, e.1).dom().contains(x) by {
        if m1.dom().contains(x) {
            let a = key_pos(s1, x);
            if a < p {
                assert(s1[a] == s0[a]);
            } else if a > p {
                assert(s1[a] == s0[a - 1]);
            }
        }
        if m0.dom().contains(x) {
            let b = key_pos(s0, x);
            let b1 = if b < p { b } else { b + 1 };
            assert(s1[b1] == s0[b]);
        }
        if x == k {
            assert(s1[p].0@ == x);
        }
    }
    assert forall|x: Seq<char>| #[trigger] m1.dom().contains(x) implies m1[x] == m0.insert(k, e.1)[x] by {
        let a = key_pos(s1, x);
        lemma_table_entry(s1, a);
        if a < p {
            assert(s1[a] == s0[a]);
            lemma_table_entry(s0, a);
        } else if a > p {
            assert(s1[a] == s0[a - 1]);
            lemma_table_entry(s0, a - 1);
        }
    }
    assert(m1 =~= m0.insert(k, e.1));
}

/// Removes `key`, returning its value.
pub fn table_remove<V>(t: &mut Vec<(String, V)>, key: &[char]) -> (r: Option<V>)
    requires
        keys_sorted(old(t)@),
    ensures
        keys_sorted(final(t)@),
        table_map(final(t)@) == table_map(old(t)@).remove(key@),
        match r {
            Some(v) => table_map(old(t)@).dom().contains(key@) && table_map(old(t)@)[key@] == v,
            None => !table_map(old(t)@).dom().contains(key@),
        },
{
    let ghost s0 = t@;
    match table_find(t, key) {
        Ok(i) => {
            proof {
                lemma_table_entry(s0, i as int);
            }
            let (_, v) = t.remove(i);
            proof {
                let s1 = t@;
                assert(keys_sorted(s1)) by {
                    assert forall|a: int, b: int| 0 <= a < b < s1.len() implies lex_lt(
                        #[trigger] s1[a].0@,
                        #[trigger] s1[b].0@,
                    ) by {
                        let a0 = if a < i { a } else { a + 1 };
                        let b0 = if b < i { b } else { b + 1 };
                        assert(s1[a] == s0[a0]);
                        assert(s1[b] == s0[b0]);
                        assert(lex_lt(s0[a0].0@, s0[b0].0@));
                    }
                }
                lemma_table_remove_map(s0, s1, key@, i as int);
            }
            Some(v)
        },
        Err(_) => {
            proof {
                assert(table_map(s0).remove(key@) =~= table_map(s0));
            }
            None
        },
    }
}

proof fn lemma_table_remove_map<V>(s0: Seq<(String, V)>, s1: Seq<(String, V)>, k: Seq<char>, i: int)
    requires
        keys_sorted(s0),
        keys_sorted(s1),
        0 <= i < s0.len(),
        s0[i].0@ == k,
        s1 == s0.remove(i),
    ensures
        table_map(s1) == table_map(s0).remove(k),
{
    let m0 = table_map(s0);
    let m1 = table_map(s1);
    assert forall|x: Seq<char>| #[trigger] m1.dom().contains(x) <==> m0.remove(k).dom().contains(x) by {
        if m1.dom().contains(x) {
            let a = key_pos(s1, x);
            let a0 = if a < i { a } else { a + 1 };
            assert(s1[a] == s0[a0]);
            if x == k {
                if a0 < i {
                    assert(lex_lt(s0[a0].0@, s0[i].0@));
                } else {
                    assert(lex_lt(s0[i].0@, s0[a0].0@));
                }
                lemma_lex_irreflexive(k);
            }
        }
        if m0.remove(k).dom().contains(x) {
            let b = key_pos(s0, x);
            assert(b != i);
            let b1 = if b < i { b } else { b - 1 };
            assert(s1[b1] == s0[b]);
        }
    }
    assert forall|x: Seq<char>| #[trigger] m1.dom().contains(x) implies m1[x] == m0.remove(k)[x] by {
        let a = key_pos(s1, x);
        lemma_table_entry(s1, a);
        let a0 = if a < i { a } else { a + 1 };
        assert(s1[a] == s0[a0]);
        lemma_table_entry(s0, a0);
    }
    assert(m1 =~= m0.remove(k));
}

/// An empty table is sorted and maps nothing.
pub proof fn lemma_table_empty<V>(s: Seq<(String, V)>)
    requires
        s.len() == 0,
    ensures
        keys_sorted(s),
        table_map(s) == Map::<Seq<char>, V>::empty(),
{
    assert(table_map(s) =~= Map::<Seq<char>, V>::empty());
}

/// A sorted table is empty exactly when its map is.
pub proof fn lemma_table_len_zero<V>(s: Seq<(String, V)>)
    requires
        keys_sorted(s),
    ensures
        table_map(s).dom().finite(),
        (s.len() == 0) == (table_map(s).dom().len() == 0),
{
    let keys = Seq::new(s.len(), |i: int| s[i].0@);
    let d = table_map(s).dom();
    assert(d =~= keys.to_set()) by {
        assert forall|k: Seq<char>| d.contains(k) implies keys.to_set().contains(k) by {
            let i = key_pos(s, k);
            assert(keys[i] == k);
        }
        assert forall|k: Seq<char>| keys.to_set().contains(k) implies d.contains(k) by {
            let i = choose|i: int| 0 <= i < keys.len() && keys[i] == k;
            assert(s[i].0@ == k);
        }
    }
    vstd::seq_lib::seq_to_set_is_finite(keys);
    if s.len() == 0 {
        lemma_table_empty(s);
        assert(d =~= Set::<Seq<char>>::empty());
    } else {
        lemma_table_entry(s, 0);
        vstd::set::axiom_set_contains_len(d, s[0].0@);
    }
}


/// A sorted table has as many keys in its map as entries.
pub proof fn lemma_table_len<V>(s: Seq<(String, V)>)
    requires
        keys_sorted(s),
    ensures
        table_map(s).dom().finite(),
        table_map(s).dom().len() == s.len(),
{
    let keys = table_keys(s);
    let d = table_map(s).dom();
    assert(d =~= keys.to_set()) by {
        assert forall|k: Seq<char>| d.contains(k) implies keys.to_set().contains(k) by {
            let i = key_pos(s, k);
            assert(keys[i] == k);
        }
        assert forall|k: Seq<char>| keys.to_set().contains(k) implies d.contains(k) by {
            let i = choose|i: int| 0 <= i < keys.len() && keys[i] == k;
            assert(s[i].0@ == k);
        }
    }
    assert(keys.no_duplicates()) by {
        assert forall|i: int, j: int| 0 <= i < keys.len() && 0 <= j < keys.len() && i != j implies keys[i]
            != keys[j] by {
            if i < j {
                assert(lex_lt(s[i].0@, s[j].0@));
            } else {
                assert(lex_lt(s[j].0@, s[i].0@));
            }
            lemma_lex_irreflexive(keys[i]);
        }
    }
    vstd::seq_lib::seq_to_set_is_finite(keys);
    keys.unique_seq_to_set();
}


// ---------------------------------------------------------------------------
// Tables keyed by integer ids, in increasing id order
// ---------------------------------------------------------------------------

/// Ids strictly increase.
pub open spec fn ids_sorted<V>(s: Seq<(u64, V)>) -> bool {
    forall|i: int, j: int| 0 <= i < j < s.len() ==> #[trigger] s[i].0 < #[trigger] s[j].0
}

/// `k` is one of the ids.
pub open spec fn has_id<V>(s: Seq<(u64, V)>, k: u64) -> bool {
    exists|i: int| 0 <= i < s.len() && #[trigger] s[i].0 == k
}

/// Position of id `k`.
pub open spec fn id_pos<V>(s: Seq<(u64, V)>, k: u64) -> int {
    choose|i: int| 0 <= i < s.len() && #[trigger] s[i].0 == k
}

/// The table as a map from id.
pub open spec fn id_map<V>(s: Seq<(u64, V)>) -> Map<u64, V> {
    Map::new(|k: u64| has_id(s, k), |k: u64| s[id_pos(s, k)].1)
}

/// In a sorted id table the entry at `i` is what the map holds for its id.
pub proof fn lemma_id_entry<V>(s: Seq<(u64, V)>, i: int)
    requires
        ids_sorted(s),
        0 <= i < s.len(),
    ensures
        id_map(s).dom().contains(s[i].0),
        id_map(s)[s[i].0] == s[i].1,
        id_pos(s, s[i].0) == i,
{
    let k = s[i].0;
    assert(has_id(s, k));
    let p = id_pos(s, k);
    if p < i {
        assert(s[p].0 < s[i].0);
    } else if p > i {
        assert(s[i].0 < s[p].0);
    }
}

/// An empty id table maps nothing.
pub proof fn lemma_id_empty<V>(s: Seq<(u64, V)>)
    requires
        s.len() == 0,
    ensures
        ids_sorted(s),
        id_map(s) == Map::<u64, V>::empty(),
{
    assert(id_map(s) =~= Map::<u64, V>::empty());
}

/// Position of `key`, or the insertion point keeping ids sorted.
pub fn id_find<V>(t: &Vec<(u64, V)>, key: u64) -> (r: Result<usize, usize>)
    requires
        ids_sorted(t@),
    ensures
        match r {
            Ok(i) => i < t@.len() && t@[i as int].0 == key,
            Err(p) => {
                &&& p <= t@.len()
                &&& !has_id(t@, key)
                &&& forall|j: int| 0 <= j < p ==> #[trigger] t@[j].0 < key
                &&& forall|j: int| p <= j < t@.len() ==> key < #[trigger] t@[j].0
            },
        },
{
    let mut lo: usize = 0;
    let mut hi: usize = t.len();
    while lo < hi
        invariant
            lo <= hi <= t@.len(),
            ids_sorted(t@),
            forall|j: int| 0 <= j < lo ==> #[trigger] t@[j].0 < key,
            forall|j: int| hi <= j < t@.len() ==> key < #[trigger] t@[j].0,
        decreases hi - lo,
    {
        let mid = lo + (hi - lo) / 2;
        let k = t[mid].0;
        if k == key {
            return Ok(mid);
        }
        if k < key {
            lo = mid + 1;
        } else {
            hi = mid;
        }
    }
    Err(lo)
}

/// Inserts or replaces the value for `key`.
pub fn id_insert<V>(t: &mut Vec<(u64, V)>, key: u64, value: V)
    requires
        ids_sorted(old(t)@),
    ensures
        ids_sorted(final(t)@),
        id_map(final(t)@) == id_map(old(t)@).insert(key, value),
        final(t)@.len() == old(t)@.len() + (if has_id(old(t)@, key) {
            0int
        } else {
            1int
        }),
{
    let ghost s0 = t@;
    match id_find(t, key) {
        Ok(i) => {
            t.set(i, (key, value));
            proof {
                let s1 = t@;
                assert(ids_sorted(s1)) by {
                    assert forall|a: int, b: int| 0 <= a < b < s1.len() implies #[trigger] s1[a].0 < #[trigger] s1[b].0 by {
                        assert(s0[a].0 < s0[b].0);
                    }
                }
                let m0 = id_map(s0);
                let m1 = id_map(s1);
                assert forall|x: u64| #[trigger] m1.dom().contains(x) <==> m0.insert(key, value).dom().contains(x) by {
                    if m1.dom().contains(x) {
                        let a = id_pos(s1, x);
                        if a != i {
                            assert(s0[a] == s1[a]);
                        }
                    }
                    if m0.dom().contains(x) {
                        let b = id_pos(s0, x);
                        assert(s1[b].0 == s0[b].0);
                    }
                    if x == key {
                        assert(s1[i as int].0 == x);
                    }
                }
                assert forall|x: u64| #[trigger] m1.dom().contains(x) implies m1[x] == m0.insert(key, value)[x] by {
                    let a = id_pos(s1, x);
                    lemma_id_entry(s1, a);
                    if a != i {
                        assert(s0[a] == s1[a]);
                        lemma_id_entry(s0, a);
                    }
                }
                assert(m1 =~= m0.insert(key, value));
            }
        },
        Err(p) => {
            t.insert(p, (key, value));
            proof {
                let s1 = t@;
                assert(ids_sorted(s1)) by {
                    assert forall|a: int, b: int| 0 <= a < b < s1.len() implies #[trigger] s1[a].0 < #[trigger] s1[b].0 by {
                        if a < p && b < p {
                            assert(s0[a].0 < s0[b].0);
                        } else if a < p && b > p {
                            assert(s1[b] == s0[b - 1]);
                        } else if a == p {
                            if b > p {
                                assert(s1[b] == s0[b - 1]);
                            }
                        } else if a > p {
                            assert(s1[a] == s0[a - 1]);
                            assert(s1[b] == s0[b - 1]);
                            assert(s0[a - 1].0 < s0[b - 1].0);
                        }
                    }
                }
                let m0 = id_map(s0);
                let m1 = id_map(s1);
                assert forall|x: u64| #[trigger] m1.dom().contains(x) <==> m0.insert(key, value).dom().contains(x) by {
                    if m1.dom().contains(x) {
                        let a = id_pos(s1, x);
                        if a < p {
                            assert(s1[a] == s0[a]);
                        } else if a > p {
                            assert(s1[a] == s0[a - 1]);
                        }
                    }
                    if m0.dom().contains(x) {
                        let b = id_pos(s0, x);
                        let b1 = if b < p { b } else { b + 1 };
                        assert(s1[b1] == s0[b]);
                    }
                    if x == key {
                        assert(s1[p as int].0 == x);
                    }
                }
                assert forall|x: u64| #[trigger] m1.dom().contains(x) implies m1[x] == m0.insert(key, value)[x] by {
                    let a = id_pos(s1, x);
                    lemma_id_entry(s1, a);
                    if a < p {
                        assert(s1[a] == s0[a]);
                        lemma_id_entry(s0, a);
                    } else if a > p {
                        assert(s1[a] == s0[a - 1]);
                        lemma_id_entry(s0, a - 1);
                    }
                }
                assert(m1 =~= m0.insert(key, value));
            }
        },
    }
}

/// Removes `key`, returning its value.
pub fn id_remove<V>(t: &mut Vec<(u64, V)>, key: u64) -> (r: Option<V>)
    requires
        ids_sorted(old(t)@),
    ensures
        ids_sorted(final(t)@),
        id_map(final(t)@) == id_map(old(t)@).remove(key),
        match r {
            Some(v) => id_map(old(t)@).dom().contains(key) && id_map(old(t)@)[key] == v,
            None => !id_map(old(t)@).dom().contains(key),
        },
{
    let ghost s0 = t@;
    match id_find(t, key) {
        Ok(i) => {
            proof {
                lemma_id_entry(s0, i as int);
            }
            let (_, v) = t.remove(i);
            proof {
                let s1 = t@;
                assert(ids_sorted(s1)) by {
                    assert forall|a: int, b: int| 0 <= a < b < s1.len() implies #[trigger] s1[a].0 < #[trigger] s1[b].0 by {
                        let a0 = if a < i { a } else { a + 1 };
                        let b0 = if b < i { b } else { b + 1 };
                        assert(s1[a] == s0[a0]);
                        assert(s1[b] == s0[b0]);
                        assert(s0[a0].0 < s0[b0].0);
                    }
                }
                let m0 = id_map(s0);
                let m1 = id_map(s1);
                assert forall|x: u64| #[trigger] m1.dom().contains(x) <==> m0.remove(key).dom().contains(x) by {
                    if m1.dom().contains(x) {
                        let a = id_pos(s1, x);
                        let a0 = if a < i { a } else { a + 1 };
                        assert(s1[a] == s0[a0]);
                        if a0 < i {
                            assert(s0[a0].0 < s0[i as int].0);
                        } else {
                            assert(s0[i as int].0 < s0[a0].0);
                        }
                    }
                    if m0.remove(key).dom().contains(x) {
                        let b = id_pos(s0, x);
                        assert(b != i);
                        let b1 = if b < i { b } else { b - 1 };
                        assert(s1[b1] == s0[b]);
                    }
                }
                assert forall|x: u64| #[trigger] m1.dom().contains(x) implies m1[x] == m0.remove(key)[x] by {
                    let a = id_pos(s1, x);
                    lemma_id_entry(s1, a);
                    let a0 = if a < i { a } else { a + 1 };
                    assert(s1[a] == s0[a0]);
                    lemma_id_entry(s0, a0);
                }
                assert(m1 =~= m0.remove(key));
            }
            Some(v)
        },
        Err(_) => {
            proof {
                assert(id_map(s0).remove(key) =~= id_map(s0));
            }
            None
        },
    }
}

// ---------------------------------------------------------------------------
// Sorted lists of distinct texts
// ---------------------------------------------------------------------------

/// Strictly increasing, hence each entry once.
pub open spec fn strictly_sorted(r: Seq<Seq<char>>) -> bool {
    forall|i: int, j: int| 0 <= i < j < r.len() ==> lex_lt(#[trigger] r[i], #[trigger] r[j])
}

/// `l` lists the members of `s` in strictly increasing order.
pub open spec fn lists_sorted(l: Seq<Seq<char>>, s: Set<Seq<char>>) -> bool {
    strictly_sorted(l) && forall|x: Seq<char>| #[trigger] l.contains(x) <==> s.contains(x)
}

/// The members of a set of texts as a strictly increasing list.
pub open spec fn sorted_list(s: Set<Seq<char>>) -> Seq<Seq<char>> {
    choose|r: Seq<Seq<char>>| strictly_sorted(r) && forall|x: Seq<char>| #[trigger] r.contains(x) <==> s.contains(x)
}

/// Two strictly sorted lists with the same entries are the same list.
pub proof fn lemma_sorted_unique(a: Seq<Seq<char>>, b: Seq<Seq<char>>)
    requires
        strictly_sorted(a),
        strictly_sorted(b),
        forall|x: Seq<char>| #[trigger] a.contains(x) <==> b.contains(x),
    ensures
        a == b,
    decreases a.len(),
{
    if a.len() == 0 {
        if b.len() > 0 {
            assert(b.contains(b[0]));
            assert(a.contains(b[0]));
            assert(false);
        }
        assert(a =~= b);
    } else {
        assert(a.contains(a[0]));
        assert(b.contains(a[0]));
        assert(b.len() > 0);
        assert(b.contains(b[0]));
        assert(a.contains(b[0]));
        let j = choose|j: int| 0 <= j < b.len() && b[j] == a[0];
        let k = choose|k: int| 0 <= k < a.len() && a[k] == b[0];
        if j > 0 {
            assert(lex_lt(b[0], b[j]));
            if k == 0 {
                lemma_lex_irreflexive(a[0]);
            } else {
                assert(lex_lt(a[0], a[k]));
                lemma_lex_transitive(a[0], a[k], a[0]);
                lemma_lex_irreflexive(a[0]);
            }
        }
        assert(a[0] == b[0]);
        let a1 = a.drop_first();
        let b1 = b.drop_first();
        assert forall|x: Seq<char>| #[trigger] a1.contains(x) <==> b1.contains(x) by {
            if a1.contains(x) {
                let p = choose|p: int| 0 <= p < a1.len() && a1[p] == x;
                assert(a[p + 1] == x);
                assert(lex_lt(a[0], a[p + 1]));
                assert(a.contains(x));
                assert(b.contains(x));
                let q = choose|q: int| 0 <= q < b.len() && b[q] == x;
                if q == 0 {
                    lemma_lex_irreflexive(x);
                }
                assert(b1[q - 1] == x);
            }
            if b1.contains(x) {
                let p = choose|p: int| 0 <= p < b1.len() && b1[p] == x;
                assert(b[p + 1] == x);
                assert(lex_lt(b[0], b[p + 1]));
                assert(b.contains(x));
                assert(a.contains(x));
                let q = choose|q: int| 0 <= q < a.len() && a[q] == x;
                if q == 0 {
                    lemma_lex_irreflexive(x);
                }
                assert(a1[q - 1] == x);
            }
        }
        assert forall|p: int, q: int| 0 <= p < q < a1.len() implies lex_lt(#[trigger] a1[p], #[trigger] a1[q]) by {
            assert(a1[p] == a[p + 1] && a1[q] == a[q + 1]);
        }
        assert forall|p: int, q: int| 0 <= p < q < b1.len() implies lex_lt(#[trigger] b1[p], #[trigger] b1[q]) by {
            assert(b1[p] == b[p + 1] && b1[q] == b[q + 1]);
        }
        lemma_sorted_unique(a1, b1);
        assert(a.len() == a1.len() + 1 && b.len() == b1.len() + 1);
        assert forall|i: int| 0 <= i < a.len() implies a[i] == b[i] by {
            if i > 0 {
                assert(a[i] == a1[i - 1]);
                assert(b[i] == b1[i - 1]);
            }
        }
        assert(a =~= b);
    }
}

/// A strictly increasing list with the members of a set is its sorted list.
pub proof fn lemma_sorted_list(r: Seq<Seq<char>>, s: Set<Seq<char>>)
    requires
        strictly_sorted(r),
        forall|x: Seq<char>| #[trigger] r.contains(x) <==> s.contains(x),
    ensures
        r == sorted_list(s),
{
    let q = sorted_list(s);
    assert(strictly_sorted(q) && forall|x: Seq<char>| #[trigger] q.contains(x) <==> s.contains(x));
    lemma_sorted_unique(r, q);
}

/// The keys of a sorted table, in order.
pub fn table_key_list<V>(t: &Vec<(String, V)>) -> (r: Vec<String>)
    requires
        keys_sorted(t@),
    ensures
        crate::security::string_views(r@) == sorted_list(table_map(t@).dom()),
        lists_sorted(crate::security::string_views(r@), table_map(t@).dom()),
{
    let mut r: Vec<String> = Vec::new();
    let mut i: usize = 0;
    while i < t.len()
        invariant
            keys_sorted(t@),
            i <= t@.len(),
            r@.len() == i,
            forall|k: int| 0 <= k < i ==> (#[trigger] r@[k])@ == t@[k].0@,
        decreases t.len() - i,
    {
        r.push(t[i].0.clone());
        i = i + 1;
    }
    proof {
        let rv = crate::security::string_views(r@);
        assert forall|a: int, b: int| 0 <= a < b < rv.len() implies lex_lt(#[trigger] rv[a], #[trigger] rv[b]) by {
            assert(rv[a] == t@[a].0@);
            assert(rv[b] == t@[b].0@);
        }
        assert forall|code: Seq<char>| #[trigger] rv.contains(code) <==> table_map(t@).dom().contains(code) by {
            if rv.contains(code) {
                let k = choose|k: int| 0 <= k < rv.len() && rv[k] == code;
                lemma_table_entry(t@, k);
            }
            if table_map(t@).dom().contains(code) {
                let k = key_pos(t@, code);
                assert(rv[k] == code);
            }
        }
        lemma_sorted_list(rv, table_map(t@).dom());
    }
    r
}

} // verus!
