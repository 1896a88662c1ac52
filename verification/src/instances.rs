//! Instance identifiers (`<slug>#<n>`), window labels, and the plan for
//! changing how many instances of a deskling run.
use vstd::prelude::*;
use vstd::string::StrSliceExecFns;

use crate::text::{
    all_digits, chars_of, decimal, digit_char, digit_value, digits_value, is_ascii_alnum,
    is_ascii_alpha_char, is_ascii_digit, is_ascii_digit_char, lemma_digits_value_push,
    parse_u32_chars, parse_u32_spec, str_eq, u32_to_decimal,
};

verus! {

broadcast use vstd::string::group_string_axioms;

/// The prefix of every deskling window's label.
pub const WINDOW_LABEL_PREFIX: &'static str = "deskling-";

/// The identifier of instance number `index` of deskling `slug`.
pub open spec fn instance_id(slug: Seq<char>, index: nat) -> Seq<char> {
    slug + seq!['#'] + decimal(index)
}

/// The position of the first `#` at or after `i`, or the length.
pub open spec fn first_hash(s: Seq<char>, i: int) -> int
    decreases s.len() - i,
{
    if 0 <= i < s.len() && s[i] != '#' {
        first_hash(s, i + 1)
    } else {
        i
    }
}

/// The position of the last `#` in `s[..n]`, if any.
pub open spec fn last_hash(s: Seq<char>, n: int) -> Option<int>
    decreases n,
{
    if n <= 0 || n > s.len() {
        None
    } else if s[n - 1] == '#' {
        Some(n - 1)
    } else {
        last_hash(s, n - 1)
    }
}

/// The slug part of an identifier: everything before the first `#`.
pub open spec fn slug_of(id: Seq<char>) -> Seq<char> {
    id.subrange(0, first_hash(id, 0))
}

/// The instance number after the last `#`, when it is a valid `u32`.
pub open spec fn index_of(id: Seq<char>) -> Option<u32> {
    match last_hash(id, id.len() as int) {
        Some(p) => parse_u32_spec(id.subrange(p + 1, id.len() as int)),
        None => None,
    }
}

/// A character allowed in a window label, or `_` in its place.
pub open spec fn label_char(c: char) -> char {
    if is_ascii_alnum(c) || c == '-' || c == '_' {
        c
    } else {
        '_'
    }
}

pub open spec fn sanitized(raw: Seq<char>) -> Seq<char> {
    Seq::new(raw.len(), |i: int| label_char(raw[i]))
}

/// The label of the window that shows instance `id`.
pub open spec fn window_label(id: Seq<char>) -> Seq<char> {
    WINDOW_LABEL_PREFIX@ + sanitized(id)
}

pub fn make_instance_id(slug: &str, index: u32) -> (id: String)
    ensures
        id@ == instance_id(slug@, index as nat),
{
    let mut s = slug.to_owned();
    s.push('#');
    let d = u32_to_decimal(index);
    s.append(d.as_str());
    s
}

pub fn slug_from_instance_id(instance_id: &str) -> (slug: &str)
    ensures
        slug@ == slug_of(instance_id@),
{
    let v = chars_of(instance_id);
    let mut i: usize = 0;
    while i < v.len() && v[i] != '#'
        invariant
            v@ == instance_id@,
            i <= v.len(),
            first_hash(v@, i as int) == first_hash(v@, 0),
        decreases v.len() - i,
    {
        i += 1;
    }
    instance_id.substring_char(0, i)
}

fn sanitize_for_label(raw: &str) -> (s: String)
    ensures
        s@ == sanitized(raw@),
{
    let v = chars_of(raw);
    let mut s = String::new();
    let mut i: usize = 0;
    while i < v.len()
        invariant
            v@ == raw@,
            i <= v.len(),
            s@ == sanitized(raw@).subrange(0, i as int),
        decreases v.len() - i,
    {
        let c = v[i];
        let keep = is_ascii_alpha_char(c) || is_ascii_digit_char(c) || c == '-' || c == '_';
        s.push(if keep { c } else { '_' });
        assert(sanitized(raw@).subrange(0, i + 1) =~= sanitized(raw@).subrange(0, i as int).push(
            label_char(c),
        ));
        i += 1;
    }
    assert(sanitized(raw@).subrange(0, v.len() as int) =~= sanitized(raw@));
    s
}

pub fn window_label_for(instance_id: &str) -> (label: String)
    ensures
        label@ == window_label(instance_id@),
{
    let mut s = WINDOW_LABEL_PREFIX.to_owned();
    let tail = sanitize_for_label(instance_id);
    s.append(tail.as_str());
    s
}

/// The instance number of an identifier, as `rsplit_once('#')` followed by
/// `parse::<u32>` finds it.
pub fn instance_index(instance_id: &str) -> (n: Option<u32>)
    ensures
        n == index_of(instance_id@),
{
    let v = chars_of(instance_id);
    let mut n = v.len();
    while n > 0 && v[n - 1] != '#'
        invariant
            v@ == instance_id@,
            n <= v.len(),
            last_hash(v@, v.len() as int) == last_hash(v@, n as int),
        decreases n,
    {
        n -= 1;
    }
    if n == 0 {
        return None;
    }
    parse_u32_chars(&v, n, v.len())
}

// ---------------------------------------------------------------------------
// Reading identifiers back.
// ---------------------------------------------------------------------------
proof fn lemma_digit_char(d: nat)
    requires
        d < 10,
    ensures
        is_ascii_digit(digit_char(d)),
        digit_value(digit_char(d)) == d,
        digit_char(d) != '#',
        digit_char(d) != '+',
{
    assert(((d + 0x30) as char) as u32 == d + 0x30);
    assert(('#' as u32) == 0x23);
    assert(('+' as u32) == 0x2b);
}

/// The decimal rendering of `n` is a non-empty string of digits worth `n`.
pub proof fn lemma_decimal_digits(n: nat)
    ensures
        decimal(n).len() >= 1,
        all_digits(decimal(n)),
        digits_value(decimal(n)) == n,
        forall|i: int| 0 <= i < decimal(n).len() ==> #[trigger] decimal(n)[i] != '#',
        decimal(n)[0] != '+',
    decreases n,
{
    if n < 10 {
        lemma_digit_char(n);
        assert(decimal(n) =~= seq![digit_char(n)]);
        assert(decimal(n).drop_last() =~= Seq::<char>::empty());
        assert(digits_value(Seq::<char>::empty()) == 0);
        assert(digits_value(decimal(n)) == 10 * digits_value(decimal(n).drop_last()) + digit_value(
            decimal(n).last(),
        ));
    } else {
        lemma_decimal_digits(n / 10);
        lemma_digit_char(n % 10);
        let p = decimal(n / 10);
        assert(decimal(n) == p.push(digit_char(n % 10)));
        lemma_digits_value_push(p, digit_char(n % 10));
        assert(10 * (n / 10) + n % 10 == n);
        assert(decimal(n)[0] == p[0]);
        assert forall|i: int| 0 <= i < decimal(n).len() implies is_ascii_digit(
            #[trigger] decimal(n)[i],
        ) by {
            if i < p.len() {
                assert(decimal(n)[i] == p[i]);
            }
        }
        assert forall|i: int| 0 <= i < decimal(n).len() implies #[trigger] decimal(n)[i] != '#' by {
            if i < p.len() {
                assert(decimal(n)[i] == p[i]);
            }
        }
    }
}

proof fn lemma_first_hash_at(s: Seq<char>, i: int, h: int)
    requires
        0 <= i <= h < s.len(),
        s[h] == '#',
        forall|k: int| i <= k < h ==> s[k] != '#',
    ensures
        first_hash(s, i) == h,
    decreases h - i,
{
    if i < h {
        lemma_first_hash_at(s, i + 1, h);
    }
}

proof fn lemma_last_hash_at(s: Seq<char>, n: int, h: int)
    requires
        0 <= h < n <= s.len(),
        s[h] == '#',
        forall|k: int| h < k < n ==> s[k] != '#',
    ensures
        last_hash(s, n) == Some(h),
    decreases n - h,
{
    if n - 1 > h {
        lemma_last_hash_at(s, n - 1, h);
    }
}

/// The slug of an identifier made from a slug without `#` is that slug.
pub proof fn lemma_slug_of_instance_id(slug: Seq<char>, index: nat)
    requires
        forall|i: int| 0 <= i < slug.len() ==> slug[i] != '#',
    ensures
        slug_of(instance_id(slug, index)) == slug,
{
    let id = instance_id(slug, index);
    assert(id[slug.len() as int] == '#');
    assert forall|k: int| 0 <= k < slug.len() implies id[k] != '#' by {
        assert(id[k] == slug[k]);
    }
    lemma_first_hash_at(id, 0, slug.len() as int);
    assert(id.subrange(0, slug.len() as int) =~= slug);
}

/// Different slugs or numbers never give the same identifier.
pub proof fn lemma_instance_id_injective(a: Seq<char>, n: nat, b: Seq<char>, m: nat)
    requires
        instance_id(a, n) == instance_id(b, m),
    ensures
        a == b,
        n == m,
{
    let id = instance_id(a, n);
    lemma_decimal_digits(n);
    lemma_decimal_digits(m);
    let ha = a.len() as int;
    let hb = b.len() as int;
    assert(id[ha] == '#');
    assert forall|k: int| ha < k < id.len() implies id[k] != '#' by {
        assert(id[k] == decimal(n)[k - ha - 1]);
    }
    lemma_last_hash_at(id, id.len() as int, ha);
    assert(instance_id(b, m)[hb] == '#');
    assert forall|k: int| hb < k < id.len() implies id[k] != '#' by {
        assert(instance_id(b, m)[k] == decimal(m)[k - hb - 1]);
    }
    lemma_last_hash_at(id, id.len() as int, hb);
    assert(ha == hb);
    assert(id.subrange(0, ha) =~= a);
    assert(instance_id(b, m).subrange(0, hb) =~= b);
    assert(id.subrange(ha + 1, id.len() as int) =~= decimal(n));
    assert(instance_id(b, m).subrange(hb + 1, id.len() as int) =~= decimal(m));
}

/// The instance number of an identifier made from any slug and `index` is
/// `index`.
pub proof fn lemma_index_of_instance_id(slug: Seq<char>, index: u32)
    ensures
        index_of(instance_id(slug, index as nat)) == Some(index),
{
    let d = decimal(index as nat);
    let id = instance_id(slug, index as nat);
    lemma_decimal_digits(index as nat);
    let h = slug.len() as int;
    assert(id[h] == '#');
    assert forall|k: int| h < k < id.len() implies id[k] != '#' by {
        assert(id[k] == d[k - h - 1]);
    }
    lemma_last_hash_at(id, id.len() as int, h);
    assert(id.subrange(h + 1, id.len() as int) =~= d);
}

// ---------------------------------------------------------------------------
// Stable ordering by instance number.
// ---------------------------------------------------------------------------
/// The first position at or after `i` whose key exceeds `k`.
pub open spec fn upper_bound<A>(s: Seq<(u32, A)>, k: u32, i: int) -> int
    decreases s.len() - i,
{
    if 0 <= i < s.len() && s[i].0 <= k {
        upper_bound(s, k, i + 1)
    } else {
        i
    }
}

/// Inserts `x` after every element whose key is not greater than its own.
pub open spec fn insert_by_key<A>(s: Seq<(u32, A)>, x: (u32, A)) -> Seq<(u32, A)> {
    s.insert(upper_bound(s, x.0, 0), x)
}

/// The stable ordering of `s` by key: equal keys keep their order.
pub open spec fn sort_by_key<A>(s: Seq<(u32, A)>) -> Seq<(u32, A)>
    decreases s.len(),
{
    if s.len() == 0 {
        s
    } else {
        insert_by_key(sort_by_key(s.drop_last()), s.last())
    }
}

pub open spec fn keyed_view(v: Seq<(u32, String)>) -> Seq<(u32, Seq<char>)> {
    v.map_values(|p: (u32, String)| (p.0, p.1@))
}

proof fn lemma_upper_bound_range<A>(s: Seq<(u32, A)>, k: u32, i: int)
    requires
        0 <= i <= s.len(),
    ensures
        i <= upper_bound(s, k, i) <= s.len(),
        forall|m: int| i <= m < upper_bound(s, k, i) ==> #[trigger] s[m].0 <= k,
        upper_bound(s, k, i) < s.len() ==> s[upper_bound(s, k, i)].0 > k,
    decreases s.len() - i,
{
    if i < s.len() && s[i].0 <= k {
        lemma_upper_bound_range(s, k, i + 1);
    }
}

/// No key is smaller than an earlier one.
pub open spec fn keys_ascending<A>(s: Seq<(u32, A)>) -> bool {
    forall|i: int, j: int| 0 <= i < j < s.len() ==> s[i].0 <= s[j].0
}

proof fn lemma_insert_by_key_ascending<A>(s: Seq<(u32, A)>, x: (u32, A))
    requires
        keys_ascending(s),
    ensures
        keys_ascending(insert_by_key(s, x)),
        insert_by_key(s, x).len() == s.len() + 1,
{
    lemma_upper_bound_range(s, x.0, 0);
    let p = upper_bound(s, x.0, 0);
    let t = insert_by_key(s, x);
    assert forall|i: int, j: int| 0 <= i < j < t.len() implies t[i].0 <= t[j].0 by {
        if i == p {
            assert(t[j] == s[j - 1]);
            assert(s[p].0 <= s[j - 1].0);
        } else if j == p {
            assert(t[i] == s[i]);
        } else {
            let a = if i < p {
                i
            } else {
                i - 1
            };
            let b = if j < p {
                j
            } else {
                j - 1
            };
            assert(t[i] == s[a]);
            assert(t[j] == s[b]);
        }
    }
}

/// Ordering by instance number leaves the numbers ascending.
pub proof fn lemma_sort_by_key_ascending<A>(s: Seq<(u32, A)>)
    ensures
        keys_ascending(sort_by_key(s)),
        sort_by_key(s).len() == s.len(),
    decreases s.len(),
{
    if s.len() > 0 {
        lemma_sort_by_key_ascending(s.drop_last());
        lemma_insert_by_key_ascending(sort_by_key(s.drop_last()), s.last());
    }
}

/// Ordering by instance number neither drops nor adds an entry.
pub proof fn lemma_sort_by_key_permutes<A>(s: Seq<(u32, A)>)
    ensures
        sort_by_key(s).to_multiset() == s.to_multiset(),
    decreases s.len(),
{
    if s.len() > 0 {
        let rest = sort_by_key(s.drop_last());
        lemma_sort_by_key_permutes(s.drop_last());
        lemma_upper_bound_range(rest, s.last().0, 0);
        vstd::seq_lib::to_multiset_insert(rest, upper_bound(rest, s.last().0, 0), s.last());
        vstd::seq_lib::to_multiset_build(s.drop_last(), s.last());
        assert(s.drop_last().push(s.last()) =~= s);
    }
}

fn sort_by_instance_index(items: Vec<(u32, String)>) -> (r: Vec<(u32, String)>)
    ensures
        keyed_view(r@) == sort_by_key(keyed_view(items@)),
{
    let ghost input = keyed_view(items@);
    let total = items.len();
    let mut rest = items;
    let mut out: Vec<(u32, String)> = Vec::new();
    let mut i: usize = 0;
    while rest.len() > 0
        invariant
            i + rest@.len() == total,
            input.len() == total,
            keyed_view(rest@) == input.subrange(i as int, total as int),
            keyed_view(out@) == sort_by_key(input.subrange(0, i as int)),
        decreases rest.len(),
    {
        let ghost old_rest = rest@;
        let x = rest.remove(0);
        assert(old_rest[0] == x);
        assert(keyed_view(old_rest)[0] == (x.0, x.1@));
        assert(keyed_view(old_rest)[0] == input[i as int]);
        assert(rest@ =~= old_rest.subrange(1, old_rest.len() as int));
        assert(keyed_view(rest@) =~= input.subrange(i + 1, total as int)) by {
            assert forall|k: int| 0 <= k < rest@.len() implies #[trigger] keyed_view(rest@)[k]
                == input[i + 1 + k] by {
                assert(rest@[k] == old_rest[k + 1]);
                assert(keyed_view(old_rest)[k + 1] == input.subrange(i as int, total as int)[k + 1]);
            }
        }
        assert((x.0, x.1@) == input[i as int]);
        let ghost sorted = keyed_view(out@);
        proof {
            lemma_upper_bound_range(sorted, x.0, 0);
        }
        let mut p: usize = 0;
        while p < out.len() && out[p].0 <= x.0
            invariant
                sorted == keyed_view(out@),
                p <= out.len(),
                upper_bound(sorted, x.0, p as int) == upper_bound(sorted, x.0, 0),
            decreases out.len() - p,
        {
            p += 1;
        }
        out.insert(p, x);
        proof {
            let next = input.subrange(0, i + 1);
            assert(next.drop_last() =~= input.subrange(0, i as int));
            assert(keyed_view(out@) =~= insert_by_key(sorted, (x.0, x.1@)));
        }
        i += 1;
    }
    assert(input.subrange(0, total as int) =~= input);
    out
}

/// The identifiers of `slug`'s instances among `runtimes` (pairs of slug
/// and identifier, in the order the runtime table yields them), sorted by
/// instance number; an identifier without a valid number sorts as `0`.
pub open spec fn ids_for_slug(runtimes: Seq<(String, String)>, slug: Seq<char>) -> Seq<Seq<char>> {
    let mine = runtimes.filter(|e: (String, String)| e.0@ == slug);
    let keyed = mine.map_values(
        |e: (String, String)|
            (
                match index_of(e.1@) {
                    Some(n) => n,
                    None => 0u32,
                },
                e.1@,
            ),
    );
    sort_by_key(keyed).map_values(|p: (u32, Seq<char>)| p.1)
}

pub fn instance_ids_for_slug(runtimes: &Vec<(String, String)>, slug: &str) -> (ids: Vec<String>)
    ensures
        ids@.map_values(|s: String| s@) == ids_for_slug(runtimes@, slug@),
{
    let ghost f = |e: (String, String)| e.0@ == slug@;
    let ghost key = |e: (String, String)|
        (
            match index_of(e.1@) {
                Some(n) => n,
                None => 0u32,
            },
            e.1@,
        );
    let mut keyed: Vec<(u32, String)> = Vec::new();
    let mut i: usize = 0;
    while i < runtimes.len()
        invariant
            i <= runtimes.len(),
            f == (|e: (String, String)| e.0@ == slug@),
            key == (|e: (String, String)|
                (
                    match index_of(e.1@) {
                        Some(n) => n,
                        None => 0u32,
                    },
                    e.1@,
                )),
            keyed_view(keyed@) == runtimes@.subrange(0, i as int).filter(f).map_values(key),
        decreases runtimes.len() - i,
    {
        let ghost prefix = runtimes@.subrange(0, i + 1);
        assert(prefix.drop_last() =~= runtimes@.subrange(0, i as int));
        reveal_with_fuel(Seq::filter, 1);
        let entry = &runtimes[i];
        if str_eq(entry.0.as_str(), slug) {
            let n = match instance_index(entry.1.as_str()) {
                Some(n) => n,
                None => 0,
            };
            let ghost before = keyed@;
            let id_copy = entry.1.clone();
            keyed.push((n, id_copy));
            assert(prefix.filter(f) =~= runtimes@.subrange(0, i as int).filter(f).push(
                runtimes@[i as int],
            ));
            assert(key(runtimes@[i as int]) == (n, entry.1@));
            assert(keyed_view(keyed@) =~= keyed_view(before).push((n, entry.1@)));
            assert(runtimes@.subrange(0, i as int).filter(f).push(runtimes@[i as int]).map_values(
                key,
            ) =~= runtimes@.subrange(0, i as int).filter(f).map_values(key).push(
                key(runtimes@[i as int]),
            ));
            assert(keyed_view(keyed@) =~= runtimes@.subrange(0, i + 1).filter(f).map_values(key));
        } else {
            assert(prefix.filter(f) =~= runtimes@.subrange(0, i as int).filter(f));
        }
        i += 1;
    }
    assert(runtimes@.subrange(0, runtimes.len() as int) =~= runtimes@);
    let sorted = sort_by_instance_index(keyed);
    let mut ids: Vec<String> = Vec::new();
    let mut j: usize = 0;
    while j < sorted.len()
        invariant
            j <= sorted.len(),
            ids@.map_values(|s: String| s@) == keyed_view(sorted@).subrange(0, j as int).map_values(
                |p: (u32, Seq<char>)| p.1,
            ),
        decreases sorted.len() - j,
    {
        let ghost before = ids@;
        let id_copy = sorted[j].1.clone();
        ids.push(id_copy);
        assert(ids@.map_values(|s: String| s@) =~= before.map_values(|s: String| s@).push(
            sorted@[j as int].1@,
        ));
        assert(keyed_view(sorted@)[j as int].1 == sorted@[j as int].1@);
        assert(keyed_view(sorted@).subrange(0, j + 1) =~= keyed_view(sorted@).subrange(
            0,
            j as int,
        ).push(keyed_view(sorted@)[j as int]));
        assert(ids@.map_values(|s: String| s@) =~= keyed_view(sorted@).subrange(
            0,
            j + 1,
        ).map_values(|p: (u32, Seq<char>)| p.1));
        j += 1;
    }
    assert(keyed_view(sorted@).subrange(0, sorted.len() as int) =~= keyed_view(sorted@));
    ids
}

// ---------------------------------------------------------------------------
// Changing the number of instances.
// ---------------------------------------------------------------------------
/// What bringing a deskling's instance count to the requested quantity takes.
#[derive(Debug)]
pub enum QuantityPlan {
    /// Stop every instance of the deskling.
    StopAll,
    /// Nothing to do.
    Keep,
    /// Start instances with these numbers, in this order.
    Start(Vec<u32>),
    /// Stop these instances, in this order.
    Stop(Vec<String>),
}

/// The value of a [`QuantityPlan`].
pub enum PlanView {
    StopAll,
    Keep,
    Start(Seq<u32>),
    Stop(Seq<Seq<char>>),
}

impl View for QuantityPlan {
    type V = PlanView;

    open spec fn view(&self) -> PlanView {
        match self {
            QuantityPlan::StopAll => PlanView::StopAll,
            QuantityPlan::Keep => PlanView::Keep,
            QuantityPlan::Start(v) => PlanView::Start(v@),
            QuantityPlan::Stop(v) => PlanView::Stop(v@.map_values(|s: String| s@)),
        }
    }
}

/// The instance numbers in use among `ids` (identifiers without a valid
/// number are skipped).
pub open spec fn used_indices(ids: Seq<Seq<char>>) -> Seq<u32> {
    ids.filter(|s: Seq<char>| index_of(s) is Some).map_values(|s: Seq<char>| index_of(s)->Some_0)
}

/// The smallest number at or above `n` (and at least 1) that `used` lacks.
pub open spec fn first_free_from(used: Seq<u32>, n: int) -> int
    decreases used.len() + 2 - n,
{
    if n < 1 || n > used.len() + 1 {
        n
    } else if !used.contains(n as u32) {
        n
    } else {
        first_free_from(used, n + 1)
    }
}

/// `k` new instance numbers, each the smallest one not yet taken.
pub open spec fn fresh_indices(used: Seq<u32>, k: nat) -> Seq<u32>
    decreases k,
{
    if k == 0 {
        Seq::empty()
    } else {
        let n = first_free_from(used, 1) as u32;
        seq![n] + fresh_indices(used.push(n), (k - 1) as nat)
    }
}

/// The plan for the instances `ids` (ordered by instance number) and the
/// requested `quantity`.
pub open spec fn spec_plan(ids: Seq<Seq<char>>, quantity: u32) -> PlanView {
    if quantity == 0 {
        PlanView::StopAll
    } else if ids.len() == quantity {
        PlanView::Keep
    } else if ids.len() < quantity {
        PlanView::Start(fresh_indices(used_indices(ids), (quantity - ids.len()) as nat))
    } else {
        PlanView::Stop(Seq::new((ids.len() - quantity) as nat, |i: int| ids[ids.len() - 1 - i]))
    }
}

/// If `v` holds every number from 1 to `m`, it has at least `m` elements.
pub proof fn lemma_range_needs_room(v: Seq<u32>, m: int)
    requires
        0 <= m <= u32::MAX,
        forall|k: u32| 1 <= k <= m ==> #[trigger] v.contains(k),
    ensures
        m <= v.len(),
{
    let vi = v.map_values(|x: u32| x as int);
    let range = vstd::set_lib::set_int_range(1, m + 1);
    vstd::set_lib::lemma_int_range(1, m + 1);
    assert forall|k: int| range.contains(k) implies vi.to_set().contains(k) by {
        assert(v.contains(k as u32));
        let j = choose|j: int| 0 <= j < v.len() && v[j] == k as u32;
        assert(vi[j] == k);
    }
    vstd::seq_lib::seq_to_set_is_finite(vi);
    vstd::set_lib::lemma_len_subset(range, vi.to_set());
    vi.lemma_cardinality_of_set();
}

proof fn lemma_first_free(used: Seq<u32>, n: int)
    requires
        1 <= n,
        used.len() + 1 <= u32::MAX,
        forall|k: u32| 1 <= k < n ==> #[trigger] used.contains(k),
    ensures
        ({
            let f = first_free_from(used, n);
            &&& n <= f <= used.len() + 1
            &&& !used.contains(f as u32)
            &&& forall|k: u32| 1 <= k < f ==> #[trigger] used.contains(k)
        }),
    decreases used.len() + 2 - n,
{
    if n > used.len() + 1 {
        lemma_range_needs_room(used, used.len() + 1int);
    } else if used.contains(n as u32) {
        lemma_first_free(used, n + 1);
    }
}

/// The new instance numbers are at least 1, not in use, and all different.
pub proof fn lemma_fresh_indices(used: Seq<u32>, k: nat)
    requires
        used.len() + k <= u32::MAX,
    ensures
        fresh_indices(used, k).len() == k,
        forall|i: int| 0 <= i < k ==> #[trigger] fresh_indices(used, k)[i] >= 1,
        forall|i: int| 0 <= i < k ==> !used.contains(#[trigger] fresh_indices(used, k)[i]),
        forall|i: int, j: int|
            0 <= i < j < k ==> #[trigger] fresh_indices(used, k)[i] != #[trigger] fresh_indices(
                used,
                k,
            )[j],
    decreases k,
{
    if k > 0 {
        lemma_first_free(used, 1);
        let n = first_free_from(used, 1) as u32;
        let rest = fresh_indices(used.push(n), (k - 1) as nat);
        lemma_fresh_indices(used.push(n), (k - 1) as nat);
        let all = fresh_indices(used, k);
        assert(all == seq![n] + rest);
        assert forall|i: int| 0 <= i < k implies !used.contains(#[trigger] all[i]) by {
            if i > 0 {
                assert(all[i] == rest[i - 1]);
                if used.contains(all[i]) {
                    let j = choose|j: int| 0 <= j < used.len() && used[j] == all[i];
                    assert(used.push(n)[j] == all[i]);
                }
            }
        }
        assert forall|i: int, j: int| 0 <= i < j < k implies #[trigger] all[i] != #[trigger] all[j] by {
            if i == 0 {
                assert(all[j] == rest[j - 1]);
                assert(used.push(n)[used.len() as int] == n);
            } else {
                assert(all[i] == rest[i - 1] && all[j] == rest[j - 1]);
            }
        }
        assert forall|i: int| 0 <= i < k implies #[trigger] all[i] >= 1 by {
            if i > 0 {
                assert(all[i] == rest[i - 1]);
            }
        }
    }
}

fn contains_u32(v: &Vec<u32>, x: u32) -> (b: bool)
    ensures
        b == v@.contains(x),
{
    let mut i: usize = 0;
    while i < v.len()
        invariant
            i <= v.len(),
            forall|k: int| 0 <= k < i ==> v@[k] != x,
        decreases v.len() - i,
    {
        if v[i] == x {
            return true;
        }
        i += 1;
    }
    false
}

/// Plans how to bring the instances `current_ids` (ordered by instance
/// number) to `quantity`: nothing, stopping all of them, starting the
/// smallest free numbers, or stopping the highest-numbered ones.
pub fn plan_quantity(current_ids: &Vec<String>, quantity: u32) -> (p: QuantityPlan)
    requires
        current_ids.len() <= u32::MAX,
    ensures
        p@ == spec_plan(current_ids@.map_values(|s: String| s@), quantity),
{
    let ghost ids = current_ids@.map_values(|s: String| s@);
    let current = current_ids.len();
    if quantity == 0 {
        return QuantityPlan::StopAll;
    }
    if current == quantity as usize {
        return QuantityPlan::Keep;
    }
    if current < quantity as usize {
        let ghost pred = |s: Seq<char>| index_of(s) is Some;
        let ghost val = |s: Seq<char>| index_of(s)->Some_0;
        let mut used: Vec<u32> = Vec::new();
        let mut i: usize = 0;
        while i < current
            invariant
                current == current_ids.len(),
                ids == current_ids@.map_values(|s: String| s@),
                i <= current,
                pred == (|s: Seq<char>| index_of(s) is Some),
                val == (|s: Seq<char>| index_of(s)->Some_0),
                used@ == ids.subrange(0, i as int).filter(pred).map_values(val),
                used@.len() <= i,
            decreases current - i,
        {
            assert(ids.subrange(0, i + 1).drop_last() =~= ids.subrange(0, i as int));
            reveal_with_fuel(Seq::filter, 1);
            assert(ids[i as int] == current_ids@[i as int]@);
            match instance_index(current_ids[i].as_str()) {
                Some(n) => {
                    used.push(n);
                    assert(ids.subrange(0, i + 1).filter(pred) =~= ids.subrange(
                        0,
                        i as int,
                    ).filter(pred).push(ids[i as int]));
                    assert(used@ =~= ids.subrange(0, i + 1).filter(pred).map_values(val));
                },
                None => {
                    assert(ids.subrange(0, i + 1).filter(pred) =~= ids.subrange(
                        0,
                        i as int,
                    ).filter(pred));
                },
            }
            i += 1;
        }
        assert(ids.subrange(0, current as int) =~= ids);
        let needed = quantity as usize - current;
        let ghost used0 = used@;
        let mut starts: Vec<u32> = Vec::new();
        let mut t: usize = 0;
        while t < needed
            invariant
                t <= needed,
                needed == quantity - current,
                used0.len() <= current,
                current < quantity,
                used@ == used0 + starts@,
                starts@.len() == t,
                fresh_indices(used0, needed as nat) == starts@ + fresh_indices(
                    used@,
                    (needed - t) as nat,
                ),
            decreases needed - t,
        {
            let mut next: u32 = 1;
            while contains_u32(&used, next)
                invariant
                    1 <= next,
                    used@.len() + 1 <= quantity,
                    forall|k: u32| 1 <= k < next ==> #[trigger] used@.contains(k),
                    first_free_from(used@, next as int) == first_free_from(used@, 1),
                decreases quantity - next,
            {
                proof {
                    assert forall|k: u32| 1 <= k <= next implies #[trigger] used@.contains(k) by {
                        if k == next {
                        }
                    }
                    lemma_range_needs_room(used@, next as int);
                }
                next = next + 1;
            }
            proof {
                lemma_range_needs_room(used@, next - 1);
                let rest = fresh_indices(used@, (needed - t) as nat);
                assert(rest == seq![next] + fresh_indices(used@.push(next), (needed - t - 1) as nat));
                assert(starts@.push(next) + fresh_indices(used@.push(next), (needed - t - 1) as nat)
                    =~= starts@ + rest);
            }
            starts.push(next);
            used.push(next);
            assert(used@ =~= used0 + starts@);
            t += 1;
        }
        assert(starts@ + fresh_indices(used@, 0) =~= starts@);
        return QuantityPlan::Start(starts);
    }
    let excess = current - quantity as usize;
    let mut stops: Vec<String> = Vec::new();
    let mut k: usize = 0;
    while k < excess
        invariant
            current == current_ids.len(),
            ids == current_ids@.map_values(|s: String| s@),
            excess <= current,
            k <= excess,
            stops@.map_values(|s: String| s@) == Seq::new(
                k as nat,
                |i: int| ids[ids.len() - 1 - i],
            ),
        decreases excess - k,
    {
        let ghost before = stops@;
        let id = current_ids[current - 1 - k].clone();
        stops.push(id);
        assert(ids[ids.len() - 1 - k] == current_ids@[current - 1 - k]@);
        assert(stops@.map_values(|s: String| s@) =~= before.map_values(|s: String| s@).push(
            ids[ids.len() - 1 - k],
        ));
        assert(stops@.map_values(|s: String| s@) =~= Seq::new(
            (k + 1) as nat,
            |i: int| ids[ids.len() - 1 - i],
        ));
        k += 1;
    }
    QuantityPlan::Stop(stops)
}

} // verus!
