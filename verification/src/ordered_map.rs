//! A map from strings to values that keeps its keys in ascending order, as
//! `BTreeMap<String, V>` does: string order is the lexicographic order of
//! the characters' code points.
use vstd::prelude::*;

use crate::text::{chars_of, str_eq};

verus! {

/// `a` sorts before `b`, comparing from position `i` on.
pub open spec fn str_lt_from(a: Seq<char>, b: Seq<char>, i: int) -> bool
    decreases a.len() - i,
{
    if i < 0 {
        false
    } else if i >= a.len() {
        i < b.len()
    } else if i >= b.len() {
        false
    } else if (a[i] as u32) != (b[i] as u32) {
        (a[i] as u32) < (b[i] as u32)
    } else {
        str_lt_from(a, b, i + 1)
    }
}

/// `a` sorts before `b` in string order.
pub open spec fn str_lt(a: Seq<char>, b: Seq<char>) -> bool {
    str_lt_from(a, b, 0)
}

proof fn lemma_char_code_injective(a: char, b: char)
    requires
        (a as u32) == (b as u32),
    ensures
        a == b,
{
    assert(((a as u32) as char) == a);
    assert(((b as u32) as char) == b);
}

proof fn lemma_str_lt_irreflexive_from(a: Seq<char>, i: int)
    requires
        0 <= i,
    ensures
        !str_lt_from(a, a, i),
    decreases a.len() - i,
{
    if i < a.len() {
        lemma_str_lt_irreflexive_from(a, i + 1);
    }
}

proof fn lemma_str_lt_trans_from(a: Seq<char>, b: Seq<char>, c: Seq<char>, i: int)
    requires
        0 <= i,
        str_lt_from(a, b, i),
        str_lt_from(b, c, i),
    ensures
        str_lt_from(a, c, i),
    decreases a.len() - i,
{
    if i < a.len() && i < b.len() && i < c.len() && (a[i] as u32) == (b[i] as u32) && (b[i] as u32)
        == (c[i] as u32) {
        lemma_str_lt_trans_from(a, b, c, i + 1);
    }
}

/// Two strings that agree up to position `i` and neither sorts before the
/// other from there are equal.
proof fn lemma_str_lt_total_from(a: Seq<char>, b: Seq<char>, i: int)
    requires
        0 <= i <= a.len(),
        i <= b.len(),
        a.subrange(0, i) == b.subrange(0, i),
        !str_lt_from(a, b, i),
        !str_lt_from(b, a, i),
    ensures
        a == b,
    decreases a.len() - i,
{
    if i < a.len() && i < b.len() {
        lemma_char_code_injective(a[i], b[i]);
        assert(a.subrange(0, i + 1) =~= a.subrange(0, i).push(a[i]));
        assert(b.subrange(0, i + 1) =~= b.subrange(0, i).push(b[i]));
        lemma_str_lt_total_from(a, b, i + 1);
    } else {
        assert(a =~= a.subrange(0, i));
        assert(b =~= b.subrange(0, i));
    }
}

pub proof fn lemma_str_lt_irreflexive(a: Seq<char>)
    ensures
        !str_lt(a, a),
{
    lemma_str_lt_irreflexive_from(a, 0);
}

pub proof fn lemma_str_lt_transitive(a: Seq<char>, b: Seq<char>, c: Seq<char>)
    requires
        str_lt(a, b),
        str_lt(b, c),
    ensures
        str_lt(a, c),
{
    lemma_str_lt_trans_from(a, b, c, 0);
}

pub proof fn lemma_str_lt_total(a: Seq<char>, b: Seq<char>)
    ensures
        a == b || str_lt(a, b) || str_lt(b, a),
{
    if !str_lt(a, b) && !str_lt(b, a) {
        assert(a.subrange(0, 0) =~= b.subrange(0, 0));
        lemma_str_lt_total_from(a, b, 0);
    }
}

/// Compares two strings in string order.
pub fn str_less(a: &str, b: &str) -> (r: bool)
    ensures
        r == str_lt(a@, b@),
{
    let x = chars_of(a);
    let y = chars_of(b);
    let mut i: usize = 0;
    while i < x.len() && i < y.len() && (x[i] as u32) == (y[i] as u32)
        invariant
            x@ == a@,
            y@ == b@,
            i <= x.len(),
            i <= y.len(),
            str_lt_from(x@, y@, 0) == str_lt_from(x@, y@, i as int),
        decreases x.len() - i,
    {
        i += 1;
    }
    if i >= x.len() {
        i < y.len()
    } else if i >= y.len() {
        false
    } else {
        (x[i] as u32) < (y[i] as u32)
    }
}

/// The keys of `s`, in order.
pub open spec fn keys_of<V>(s: Seq<(String, V)>) -> Seq<Seq<char>> {
    s.map_values(|e: (String, V)| e.0@)
}

/// Keys strictly ascend.
pub open spec fn ascending<V>(s: Seq<(String, V)>) -> bool {
    forall|i: int, j: int| 0 <= i < j < s.len() ==> str_lt(#[trigger] s[i].0@, #[trigger] s[j].0@)
}

/// The map that a list of entries denotes (a later entry wins).
pub open spec fn map_of<V>(s: Seq<(String, V)>) -> Map<Seq<char>, V>
    decreases s.len(),
{
    if s.len() == 0 {
        Map::empty()
    } else {
        map_of(s.drop_last()).insert(s.last().0@, s.last().1)
    }
}

proof fn lemma_map_of_contains<V>(s: Seq<(String, V)>, k: Seq<char>)
    ensures
        map_of(s).contains_key(k) <==> exists|i: int| 0 <= i < s.len() && (#[trigger] s[i]).0@ == k,
    decreases s.len(),
{
    if s.len() > 0 {
        let p = s.drop_last();
        lemma_map_of_contains(p, k);
        if map_of(s).contains_key(k) && s.last().0@ != k {
            let i = choose|i: int| 0 <= i < p.len() && (#[trigger] p[i]).0@ == k;
            assert(s[i] == p[i]);
        }
        if exists|i: int| 0 <= i < s.len() && (#[trigger] s[i]).0@ == k {
            let i = choose|i: int| 0 <= i < s.len() && (#[trigger] s[i]).0@ == k;
            if i < s.len() - 1 {
                assert(p[i] == s[i]);
            }
        }
    }
}

proof fn lemma_map_of_value<V>(s: Seq<(String, V)>, i: int)
    requires
        ascending(s),
        0 <= i < s.len(),
    ensures
        map_of(s).contains_key(s[i].0@),
        map_of(s)[s[i].0@] == s[i].1,
    decreases s.len(),
{
    let p = s.drop_last();
    if i < s.len() - 1 {
        assert(ascending(p)) by {
            assert forall|a: int, b: int| 0 <= a < b < p.len() implies str_lt(
                #[trigger] p[a].0@,
                #[trigger] p[b].0@,
            ) by {
                assert(p[a] == s[a] && p[b] == s[b]);
            }
        }
        assert(p[i] == s[i]);
        lemma_map_of_value(p, i);
        assert(str_lt(s[i].0@, s.last().0@));
        lemma_str_lt_irreflexive(s[i].0@);
    }
}

/// The map of ascending entries: its keys are the entry keys, each with its value.
proof fn lemma_map_of_characterized<V>(s: Seq<(String, V)>)
    requires
        ascending(s),
    ensures
        forall|k: Seq<char>|
            #![trigger map_of(s).contains_key(k)]
            map_of(s).contains_key(k) <==> exists|i: int| 0 <= i < s.len() && (#[trigger] s[i]).0@ == k,
        forall|i: int| 0 <= i < s.len() ==> #[trigger] map_of(s)[s[i].0@] == s[i].1,
{
    assert forall|k: Seq<char>| #![trigger map_of(s).contains_key(k)]
        map_of(s).contains_key(k) <==> exists|i: int| 0 <= i < s.len() && (#[trigger] s[i]).0@
            == k by {
        lemma_map_of_contains(s, k);
    }
    assert forall|i: int| 0 <= i < s.len() implies #[trigger] map_of(s)[s[i].0@] == s[i].1 by {
        lemma_map_of_value(s, i);
    }
}

/// A string-keyed map with its entries in ascending key order.
#[derive(Debug)]
pub struct OrderedMap<V> {
    entries: Vec<(String, V)>,
}

impl<V> OrderedMap<V> {
    pub closed spec fn entries_view(&self) -> Seq<(String, V)> {
        self.entries@
    }

    /// The map's contents.
    pub closed spec fn view(&self) -> Map<Seq<char>, V> {
        map_of(self.entries@)
    }

    /// The keys, in ascending order.
    pub closed spec fn keys(&self) -> Seq<Seq<char>> {
        keys_of(self.entries@)
    }

    /// The entries are in strictly ascending key order.
    pub closed spec fn wf(&self) -> bool {
        ascending(self.entries@)
    }

    pub fn new() -> (m: Self)
        ensures
            m.wf(),
            m.view() == Map::<Seq<char>, V>::empty(),
            m.keys() == Seq::<Seq<char>>::empty(),
    {
        let m = OrderedMap { entries: Vec::new() };
        assert(m.keys() =~= Seq::<Seq<char>>::empty());
        m
    }

    /// The keys hold exactly the map's domain, in ascending order.
    pub proof fn lemma_keys(&self)
        requires
            self.wf(),
        ensures
            forall|i: int, j: int|
                0 <= i < j < self.keys().len() ==> str_lt(
                    #[trigger] self.keys()[i],
                    #[trigger] self.keys()[j],
                ),
            forall|k: Seq<char>| #[trigger]
                self.view().contains_key(k) <==> self.keys().contains(k),
            self.keys().len() == self.view().dom().len(),
    {
        let s = self.entries@;
        lemma_map_of_characterized(s);
        assert forall|k: Seq<char>| #[trigger] self.view().contains_key(k) <==> self.keys().contains(
            k,
        ) by {
            if self.keys().contains(k) {
                let i = choose|i: int| 0 <= i < self.keys().len() && self.keys()[i] == k;
                assert(s[i].0@ == k);
            }
            if self.view().contains_key(k) {
                let i = choose|i: int| 0 <= i < s.len() && (#[trigger] s[i]).0@ == k;
                assert(self.keys()[i] == k);
            }
        }
        assert(self.keys().no_duplicates()) by {
            assert forall|i: int, j: int|
                0 <= i < self.keys().len() && 0 <= j < self.keys().len() && i != j implies self.keys()[i]
                != self.keys()[j] by {
                if i < j {
                    assert(str_lt(s[i].0@, s[j].0@));
                    lemma_str_lt_irreflexive(s[i].0@);
                } else {
                    assert(str_lt(s[j].0@, s[i].0@));
                    lemma_str_lt_irreflexive(s[j].0@);
                }
            }
        }
        self.keys().unique_seq_to_set();
        assert(self.keys().to_set() =~= self.view().dom());
    }

    /// The entries, in ascending key order.
    pub fn entries(&self) -> (e: &Vec<(String, V)>)
        ensures
            e@ == self.entries_view(),
    {
        &self.entries
    }

    pub proof fn lemma_entries(&self)
        requires
            self.wf(),
        ensures
            keys_of(self.entries_view()) == self.keys(),
            forall|i: int|
                0 <= i < self.entries_view().len() ==> self.view().contains_key(
                    #[trigger] self.entries_view()[i].0@,
                ) && self.view()[self.entries_view()[i].0@] == self.entries_view()[i].1,
    {
        lemma_map_of_characterized(self.entries@);
    }

    pub fn len(&self) -> (n: usize)
        requires
            self.wf(),
        ensures
            n == self.view().dom().len(),
    {
        proof {
            self.lemma_keys();
        }
        self.entries.len()
    }

    pub fn is_empty(&self) -> (b: bool)
        requires
            self.wf(),
        ensures
            b == (self.view().dom().len() == 0),
    {
        proof {
            self.lemma_keys();
        }
        self.entries.len() == 0
    }

    /// The position of `key`, or where it would go.
    fn position(&self, key: &str) -> (r: (usize, bool))
        requires
            self.wf(),
        ensures
            r.0 <= self.entries@.len(),
            forall|i: int| 0 <= i < r.0 ==> str_lt(#[trigger] self.entries@[i].0@, key@),
            r.1 ==> r.0 < self.entries@.len() && self.entries@[r.0 as int].0@ == key@,
            !r.1 ==> forall|i: int|
                r.0 <= i < self.entries@.len() ==> str_lt(key@, #[trigger] self.entries@[i].0@),
    {
        let mut i: usize = 0;
        while i < self.entries.len() && str_less(self.entries[i].0.as_str(), key)
            invariant
                ascending(self.entries@),
                i <= self.entries@.len(),
                forall|k: int| 0 <= k < i ==> str_lt(#[trigger] self.entries@[k].0@, key@),
            decreases self.entries.len() - i,
        {
            i += 1;
        }
        if i < self.entries.len() && str_eq(self.entries[i].0.as_str(), key) {
            return (i, true);
        }
        proof {
            if i < self.entries@.len() {
                let e = self.entries@[i as int].0@;
                lemma_str_lt_total(e, key@);
                assert forall|k: int| i <= k < self.entries@.len() implies str_lt(
                    key@,
                    #[trigger] self.entries@[k].0@,
                ) by {
                    if k > i {
                        lemma_str_lt_transitive(key@, e, self.entries@[k].0@);
                    }
                }
            }
        }
        (i, false)
    }

    /// The value stored under `key`.
    pub fn get(&self, key: &str) -> (r: Option<&V>)
        requires
            self.wf(),
        ensures
            match r {
                Some(v) => self.view().contains_key(key@) && *v == self.view()[key@],
                None => !self.view().contains_key(key@),
            },
    {
        proof {
            lemma_map_of_characterized(self.entries@);
        }
        let (i, found) = self.position(key);
        if found {
            Some(&self.entries[i].1)
        } else {
            proof {
                if self.view().contains_key(key@) {
                    let k = choose|k: int| 0 <= k < self.entries@.len() && (
                    #[trigger] self.entries@[k]).0@ == key@;
                    if k < i {
                        assert(str_lt(key@, key@));
                    } else {
                        assert(str_lt(key@, key@));
                    }
                    lemma_str_lt_irreflexive(key@);
                }
            }
            None
        }
    }

    /// Stores `value` under `key`, replacing any previous value.
    pub fn insert(&mut self, key: String, value: V)
        requires
            old(self).wf(),
        ensures
            final(self).wf(),
            final(self).view() == old(self).view().insert(key@, value),
    {
        proof {
            lemma_map_of_characterized(self.entries@);
        }
        let ghost k = key@;
        let (i, found) = self.position(key.as_str());
        let ghost s0 = self.entries@;
        if found {
            self.entries.set(i, (key, value));
        } else {
            self.entries.insert(i, (key, value));
        }
        let ghost s1 = self.entries@;
        proof {
            assert(ascending(s1)) by {
                assert forall|a: int, b: int| 0 <= a < b < s1.len() implies str_lt(
                    #[trigger] s1[a].0@,
                    #[trigger] s1[b].0@,
                ) by {
                    if found {
                        if a == i as int {
                            assert(s1[a].0@ == s0[a].0@);
                        } else if b == i as int {
                            assert(s1[b].0@ == s0[b].0@);
                        }
                    } else {
                        if a < i && b < i {
                            assert(s1[a] == s0[a] && s1[b] == s0[b]);
                        } else if a < i && b == i {
                        } else if a < i {
                            assert(s1[a] == s0[a] && s1[b] == s0[b - 1]);
                        } else if a == i {
                            assert(s1[b] == s0[b - 1]);
                        } else {
                            assert(s1[a] == s0[a - 1] && s1[b] == s0[b - 1]);
                        }
                    }
                }
            }
            lemma_map_of_characterized(s1);
            let m = old(self).view().insert(k, value);
            assert forall|q: Seq<char>| #[trigger] map_of(s1).contains_key(q) == m.contains_key(q) by {
                if map_of(s1).contains_key(q) && q != k {
                    let t = choose|t: int| 0 <= t < s1.len() && (#[trigger] s1[t]).0@ == q;
                    if found {
                        assert(s0[t].0@ == q);
                    } else if t < i {
                        assert(s0[t] == s1[t]);
                    } else {
                        assert(s0[t - 1] == s1[t]);
                    }
                }
                if m.contains_key(q) && q != k {
                    let t = choose|t: int| 0 <= t < s0.len() && (#[trigger] s0[t]).0@ == q;
                    if found {
                        assert(s1[t].0@ == q);
                    } else if t < i {
                        assert(s1[t] == s0[t]);
                    } else {
                        assert(s1[t + 1] == s0[t]);
                    }
                }
                if q == k {
                    assert(s1[i as int].0@ == k);
                }
            }
            assert forall|q: Seq<char>| #[trigger] map_of(s1).contains_key(q) implies map_of(s1)[q]
                == m[q] by {
                let t = choose|t: int| 0 <= t < s1.len() && (#[trigger] s1[t]).0@ == q;
                assert(map_of(s1)[s1[t].0@] == s1[t].1);
                if q == k {
                    assert(s1[i as int].0@ == k);
                    if t != i as int {
                        if t < i as int {
                            assert(str_lt(s1[t].0@, s1[i as int].0@));
                        } else {
                            assert(str_lt(s1[i as int].0@, s1[t].0@));
                        }
                        lemma_str_lt_irreflexive(k);
                    }
                } else if found {
                    assert(s0[t] == s1[t]);
                } else if t < i {
                    assert(s0[t] == s1[t]);
                } else {
                    assert(s0[t - 1] == s1[t]);
                }
            }
            assert(map_of(s1) =~= m);
        }
    }

    /// Removes `key` and its value, if present.
    pub fn remove(&mut self, key: &str)
        requires
            old(self).wf(),
        ensures
            final(self).wf(),
            final(self).view() == old(self).view().remove(key@),
    {
        proof {
            lemma_map_of_characterized(self.entries@);
        }
        let (i, found) = self.position(key);
        let ghost s0 = self.entries@;
        if found {
            self.entries.remove(i);
        }
        let ghost s1 = self.entries@;
        proof {
            assert(ascending(s1)) by {
                assert forall|a: int, b: int| 0 <= a < b < s1.len() implies str_lt(
                    #[trigger] s1[a].0@,
                    #[trigger] s1[b].0@,
                ) by {
                    if found {
                        if b < i {
                            assert(s1[a] == s0[a] && s1[b] == s0[b]);
                        } else if a < i {
                            assert(s1[a] == s0[a] && s1[b] == s0[b + 1]);
                        } else {
                            assert(s1[a] == s0[a + 1] && s1[b] == s0[b + 1]);
                        }
                    }
                }
            }
            lemma_map_of_characterized(s1);
            let m = old(self).view().remove(key@);
            assert forall|q: Seq<char>| #[trigger] map_of(s1).contains_key(q) == m.contains_key(q) by {
                if map_of(s1).contains_key(q) {
                    let t = choose|t: int| 0 <= t < s1.len() && (#[trigger] s1[t]).0@ == q;
                    if found && t >= i {
                        assert(s0[t + 1] == s1[t]);
                        assert(str_lt(key@, q));
                        lemma_str_lt_irreflexive(q);
                    } else {
                        assert(s0[t] == s1[t]);
                        if !found {
                            if t >= i {
                                assert(str_lt(key@, q));
                            } else {
                                assert(str_lt(q, key@));
                            }
                            lemma_str_lt_irreflexive(q);
                        } else {
                            assert(str_lt(q, key@));
                            lemma_str_lt_irreflexive(q);
                        }
                    }
                }
                if m.contains_key(q) {
                    let t = choose|t: int| 0 <= t < s0.len() && (#[trigger] s0[t]).0@ == q;
                    if found && t > i {
                        assert(s1[t - 1] == s0[t]);
                    } else if found && t == i {
                    } else {
                        assert(s1[t] == s0[t]);
                    }
                }
            }
            assert forall|q: Seq<char>| #[trigger] map_of(s1).contains_key(q) implies map_of(s1)[q]
                == m[q] by {
                let t = choose|t: int| 0 <= t < s1.len() && (#[trigger] s1[t]).0@ == q;
                if found && t >= i {
                    assert(s0[t + 1] == s1[t]);
                } else {
                    assert(s0[t] == s1[t]);
                }
            }
            assert(map_of(s1) =~= m);
        }
    }
}

} // verus!
