//! What the settings window lists of the installed desklings: one summary
//! per deskling folder, ordered by name regardless of case, and the sprite
//! that previews each.
use vstd::prelude::*;

use crate::ordered_map::{lemma_str_lt_irreflexive, lemma_str_lt_transitive, str_less, str_lt};
use crate::text::chars_of;

verus! {

/// One installed deskling as the settings window shows it.
#[derive(Debug, Clone)]
pub struct DesklingSummary {
    pub slug: String,
    pub name: String,
    pub size: u32,
    pub preview: Option<String>,
}

/// `str::to_lowercase`: the text with every character replaced by its
/// Unicode lowercase mapping. It depends on the text alone.
pub uninterp spec fn lowercase(s: Seq<char>) -> Seq<char>;

/// Calls `str::to_lowercase`; claimed: the result is `lowercase(s@)`.
#[verifier::external_body]
fn to_lowercase(s: &str) -> (r: String)
    ensures
        r@ == lowercase(s@),
{
    s.to_lowercase()
}

/// The key the summaries are ordered by: the lowercased name.
pub open spec fn name_key(s: DesklingSummary) -> Seq<char> {
    lowercase(s.name@)
}

/// The first position at or after `i` whose key sorts after `k`.
pub open spec fn insert_pos(s: Seq<DesklingSummary>, k: Seq<char>, i: int) -> int
    decreases s.len() - i,
{
    if 0 <= i < s.len() && !str_lt(k, name_key(s[i])) {
        insert_pos(s, k, i + 1)
    } else {
        i
    }
}

/// Inserts `x` after every summary whose key does not sort after its own.
pub open spec fn insert_by_name(s: Seq<DesklingSummary>, x: DesklingSummary) -> Seq<DesklingSummary> {
    s.insert(insert_pos(s, name_key(x), 0), x)
}

/// The stable ordering of `s` by key: summaries with equal keys keep the
/// order they were found in, as `slice::sort_by` leaves them.
pub open spec fn sorted_by_name(s: Seq<DesklingSummary>) -> Seq<DesklingSummary>
    decreases s.len(),
{
    if s.len() == 0 {
        s
    } else {
        insert_by_name(sorted_by_name(s.drop_last()), s.last())
    }
}

/// No summary sorts before an earlier one.
pub open spec fn names_ascending(s: Seq<DesklingSummary>) -> bool {
    forall|i: int, j: int| 0 <= i < j < s.len() ==> !str_lt(name_key(s[j]), name_key(s[i]))
}

proof fn lemma_insert_pos_range(s: Seq<DesklingSummary>, k: Seq<char>, i: int)
    requires
        0 <= i <= s.len(),
    ensures
        i <= insert_pos(s, k, i) <= s.len(),
        forall|m: int| i <= m < insert_pos(s, k, i) ==> !str_lt(k, #[trigger] name_key(s[m])),
        insert_pos(s, k, i) < s.len() ==> str_lt(k, name_key(s[insert_pos(s, k, i)])),
    decreases s.len() - i,
{
    if i < s.len() && !str_lt(k, name_key(s[i])) {
        lemma_insert_pos_range(s, k, i + 1);
    }
}

/// Inserting into an ascending sequence keeps it ascending.
proof fn lemma_insert_keeps_ascending(s: Seq<DesklingSummary>, x: DesklingSummary)
    requires
        names_ascending(s),
    ensures
        names_ascending(insert_by_name(s, x)),
        insert_by_name(s, x).len() == s.len() + 1,
{
    let k = name_key(x);
    lemma_insert_pos_range(s, k, 0);
    let p = insert_pos(s, k, 0);
    let t = insert_by_name(s, x);
    assert forall|i: int, j: int| 0 <= i < j < t.len() implies !str_lt(
        name_key(t[j]),
        name_key(t[i]),
    ) by {
        if i == p {
            // `x` against a later summary, which sat at or after `p`.
            assert(t[j] == s[j - 1]);
            if str_lt(name_key(s[j - 1]), k) {
                if j - 1 == p {
                    lemma_str_lt_transitive(k, name_key(s[p]), k);
                    lemma_str_lt_irreflexive(k);
                } else {
                    lemma_str_lt_transitive(name_key(s[j - 1]), k, name_key(s[p]));
                }
            }
        } else if j == p {
            // An earlier summary against `x`.
            assert(t[i] == s[i]);
        } else {
            let a = if i < p {
                i
            } else {
                i - 1
            };
            let b = if j < p {
                j
            } else {
                j - 1
            };
            assert(t[i] == s[a]);
            assert(t[j] == s[b]);
        }
    }
}

/// The stable ordering is ascending.
pub proof fn lemma_sorted_by_name_ascending(s: Seq<DesklingSummary>)
    ensures
        names_ascending(sorted_by_name(s)),
        sorted_by_name(s).len() == s.len(),
    decreases s.len(),
{
    if s.len() > 0 {
        lemma_sorted_by_name_ascending(s.drop_last());
        lemma_insert_keeps_ascending(sorted_by_name(s.drop_last()), s.last());
    }
}

/// The ordering neither drops nor adds a summary.
pub proof fn lemma_sorted_by_name_permutes(s: Seq<DesklingSummary>)
    ensures
        sorted_by_name(s).to_multiset() == s.to_multiset(),
    decreases s.len(),
{
    if s.len() > 0 {
        let rest = sorted_by_name(s.drop_last());
        lemma_sorted_by_name_permutes(s.drop_last());
        lemma_insert_pos_range(rest, name_key(s.last()), 0);
        vstd::seq_lib::to_multiset_insert(rest, insert_pos(rest, name_key(s.last()), 0), s.last());
        vstd::seq_lib::to_multiset_build(s.drop_last(), s.last());
        assert(s.drop_last().push(s.last()) =~= s);
    }
}

/// Orders the summaries by name regardless of case, keeping the order in
/// which summaries with equal keys were found.
pub fn sort_summaries(found: Vec<DesklingSummary>) -> (r: Vec<DesklingSummary>)
    ensures
        r@ == sorted_by_name(found@),
{
    let ghost input = found@;
    let total = found.len();
    let mut rest = found;
    let mut out: Vec<DesklingSummary> = Vec::new();
    let mut i: usize = 0;
    while rest.len() > 0
        invariant
            i + rest@.len() == total,
            input.len() == total,
            rest@ == input.subrange(i as int, total as int),
            out@ == sorted_by_name(input.subrange(0, i as int)),
        decreases rest.len(),
    {
        let ghost old_rest = rest@;
        let x = rest.remove(0);
        assert(rest@ =~= input.subrange(i + 1, total as int));
        let key = to_lowercase(x.name.as_str());
        let ghost sorted = out@;
        proof {
            lemma_insert_pos_range(sorted, key@, 0);
        }
        let mut p: usize = 0;
        while p < out.len() && !str_less(key.as_str(), to_lowercase(out[p].name.as_str()).as_str())
            invariant
                sorted == out@,
                p <= out.len(),
                key@ == name_key(x),
                insert_pos(sorted, key@, p as int) == insert_pos(sorted, key@, 0),
            decreases out.len() - p,
        {
            p += 1;
        }
        out.insert(p, x);
        proof {
            let next = input.subrange(0, i + 1);
            assert(next.drop_last() =~= input.subrange(0, i as int));
            assert(next.last() == x);
        }
        i += 1;
    }
    assert(input.subrange(0, total as int) =~= input);
    out
}

/// The slug of the deskling listed first among those found, in the order
/// the settings window lists them; `None` where none was found.
pub fn first_installed_slug(found: Vec<DesklingSummary>) -> (r: Option<String>)
    ensures
        sorted_by_name(found@).len() == 0 ==> r is None,
        sorted_by_name(found@).len() > 0 ==> (r matches Some(s) && s@ == sorted_by_name(
            found@,
        )[0].slug@),
{
    let sorted = sort_summaries(found);
    if sorted.len() == 0 {
        None
    } else {
        Some(sorted[0].slug.clone())
    }
}

/// The deskling listed first has the smallest key of all those found.
pub proof fn lemma_first_is_least(found: Seq<DesklingSummary>, i: int)
    requires
        0 <= i < sorted_by_name(found).len(),
    ensures
        !str_lt(name_key(sorted_by_name(found)[i]), name_key(sorted_by_name(found)[0])),
{
    lemma_sorted_by_name_ascending(found);
    if i > 0 {
        assert(!str_lt(name_key(sorted_by_name(found)[i]), name_key(sorted_by_name(found)[0])));
    } else {
        lemma_str_lt_irreflexive(name_key(sorted_by_name(found)[0]));
    }
}

// ---------------------------------------------------------------------------
// The preview sprite.
// ---------------------------------------------------------------------------
/// The position of the last `.` among the first `n` characters of `s`, or
/// `-1` where there is none.
pub open spec fn last_dot(s: Seq<char>, n: int) -> int
    decreases n,
{
    if n <= 0 || n > s.len() {
        -1
    } else if s[n - 1] == '.' {
        n - 1
    } else {
        last_dot(s, n - 1)
    }
}

/// The stem and the extension of a file name, as `Path::file_stem` and
/// `Path::extension` document them: no extension without an embedded `.`,
/// nor when the only `.` starts the name; else the parts around the last
/// `.`.
pub open spec fn stem_and_ext(name: Seq<char>) -> (Seq<char>, Option<Seq<char>>) {
    let d = last_dot(name, name.len() as int);
    if name == ".."@ || d <= 0 {
        (name, None)
    } else {
        (name.subrange(0, d), Some(name.subrange(d + 1, name.len() as int)))
    }
}

/// ASCII letters in lower case; every other character unchanged.
pub open spec fn ascii_lower(c: char) -> char {
    if 'A' <= c <= 'Z' {
        ((c as u32) + 32) as char
    } else {
        c
    }
}

/// `str::eq_ignore_ascii_case`.
pub open spec fn eq_ignore_ascii_case(a: Seq<char>, b: Seq<char>) -> bool {
    a.len() == b.len() && forall|i: int| 0 <= i < a.len() ==> ascii_lower(a[i]) == ascii_lower(b[i])
}

/// A file name with the extension `png`, in any case.
pub open spec fn is_png_name(name: Seq<char>) -> bool {
    match stem_and_ext(name).1 {
        Some(e) => eq_ignore_ascii_case(e, "png"@),
        None => false,
    }
}

/// A PNG whose stem is `idle`, in any case.
pub open spec fn is_idle_png(name: Seq<char>) -> bool {
    is_png_name(name) && eq_ignore_ascii_case(stem_and_ext(name).0, "idle"@)
}

/// `r` is among `names`, satisfies `p`, and no name that satisfies `p`
/// sorts before it.
pub open spec fn least_such(names: Seq<String>, r: Seq<char>, p: spec_fn(Seq<char>) -> bool) -> bool {
    &&& p(r)
    &&& exists|i: int| 0 <= i < names.len() && #[trigger] names[i]@ == r
    &&& forall|i: int| 0 <= i < names.len() && p(#[trigger] names[i]@) ==> !str_lt(names[i]@, r)
}

/// The sprite that previews a deskling, among the file names of its sprite
/// folder: the first `idle` PNG in path order, else the first PNG.
pub open spec fn preview_choice(names: Seq<String>, r: Option<String>) -> bool {
    match r {
        None => forall|i: int| 0 <= i < names.len() ==> !is_png_name(#[trigger] names[i]@),
        Some(n) => if exists|i: int| 0 <= i < names.len() && is_idle_png(#[trigger] names[i]@) {
            least_such(names, n@, |s: Seq<char>| is_idle_png(s))
        } else {
            least_such(names, n@, |s: Seq<char>| is_png_name(s))
        },
    }
}

fn ascii_lower_char(c: char) -> (r: char)
    ensures
        r == ascii_lower(c),
{
    if 'A' <= c && c <= 'Z' {
        let u = (c as u32) + 32;
        ((u as u8) as char)
    } else {
        c
    }
}

/// Whether `v[from..to]` equals `lit` regardless of ASCII case.
fn range_eq_ignore_ascii_case(v: &Vec<char>, from: usize, to: usize, lit: &str) -> (b: bool)
    requires
        from <= to <= v.len(),
    ensures
        b == eq_ignore_ascii_case(v@.subrange(from as int, to as int), lit@),
{
    let w = chars_of(lit);
    if to - from != w.len() {
        return false;
    }
    let mut i: usize = 0;
    while i < w.len()
        invariant
            from <= to <= v.len(),
            to - from == w.len(),
            w@ == lit@,
            i <= w.len(),
            forall|k: int|
                0 <= k < i ==> ascii_lower(#[trigger] v@.subrange(from as int, to as int)[k])
                    == ascii_lower(w@[k]),
        decreases w.len() - i,
    {
        if ascii_lower_char(v[from + i]) != ascii_lower_char(w[i]) {
            assert(v@.subrange(from as int, to as int)[i as int] == v@[from + i]);
            return false;
        }
        assert(v@.subrange(from as int, to as int)[i as int] == v@[from + i]);
        i += 1;
    }
    true
}

/// Whether `name` is a PNG, and whether it is the `idle` one.
fn classify_sprite(name: &str) -> (r: (bool, bool))
    ensures
        r.0 == is_png_name(name@),
        r.1 == is_idle_png(name@),
{
    proof {
        reveal_strlit("..");
        reveal_strlit("png");
        reveal_strlit("idle");
    }
    let v = chars_of(name);
    let mut n = v.len();
    while n > 0 && v[n - 1] != '.'
        invariant
            v@ == name@,
            n <= v.len(),
            last_dot(v@, v.len() as int) == last_dot(v@, n as int),
        decreases n,
    {
        n -= 1;
    }
    let ghost d = last_dot(v@, v.len() as int);
    if n <= 1 || (v.len() == 2 && v[0] == '.' && v[1] == '.') {
        assert(d <= 0 || name@ == ".."@);
        return (false, false);
    }
    let dot = n - 1;
    assert(d == dot as int);
    assert(name@ != ".."@);
    let png = range_eq_ignore_ascii_case(&v, dot + 1, v.len(), "png");
    if !png {
        return (false, false);
    }
    let idle = range_eq_ignore_ascii_case(&v, 0, dot, "idle");
    (true, idle)
}

/// The file name, among those in a deskling's sprite folder, that previews
/// it: the first `idle` PNG (any case) in path order, else the first PNG;
/// `None` where the folder holds no PNG.
pub fn preview_sprite(names: &Vec<String>) -> (r: Option<String>)
    ensures
        preview_choice(names@, r),
{
    let mut best_png: Option<usize> = None;
    let mut best_idle: Option<usize> = None;
    let mut i: usize = 0;
    while i < names.len()
        invariant
            i <= names.len(),
            match best_png {
                None => forall|k: int| 0 <= k < i ==> !is_png_name(#[trigger] names@[k]@),
                Some(b) => b < i && is_png_name(names@[b as int]@) && forall|k: int|
                    0 <= k < i && is_png_name(#[trigger] names@[k]@) ==> !str_lt(
                        names@[k]@,
                        names@[b as int]@,
                    ),
            },
            match best_idle {
                None => forall|k: int| 0 <= k < i ==> !is_idle_png(#[trigger] names@[k]@),
                Some(b) => b < i && is_idle_png(names@[b as int]@) && forall|k: int|
                    0 <= k < i && is_idle_png(#[trigger] names@[k]@) ==> !str_lt(
                        names@[k]@,
                        names@[b as int]@,
                    ),
            },
        decreases names.len() - i,
    {
        let (png, idle) = classify_sprite(names[i].as_str());
        if png {
            match best_png {
                None => {
                    proof {
                        lemma_str_lt_irreflexive(names@[i as int]@);
                    }
                    best_png = Some(i);
                },
                Some(b) => {
                    if str_less(names[i].as_str(), names[b].as_str()) {
                        proof {
                            assert forall|k: int|
                                0 <= k < i + 1 && is_png_name(#[trigger] names@[k]@) implies !str_lt(
                                names@[k]@,
                                names@[i as int]@,
                            ) by {
                                if k < i && str_lt(names@[k]@, names@[i as int]@) {
                                    lemma_str_lt_transitive(
                                        names@[k]@,
                                        names@[i as int]@,
                                        names@[b as int]@,
                                    );
                                }
                                if k == i {
                                    lemma_str_lt_irreflexive(names@[k]@);
                                }
                            }
                        }
                        best_png = Some(i);
                    }
                },
            }
        }
        if idle {
            match best_idle {
                None => {
                    proof {
                        lemma_str_lt_irreflexive(names@[i as int]@);
                    }
                    best_idle = Some(i);
                },
                Some(b) => {
                    if str_less(names[i].as_str(), names[b].as_str()) {
                        proof {
                            assert forall|k: int|
                                0 <= k < i + 1 && is_idle_png(#[trigger] names@[k]@) implies !str_lt(
                                names@[k]@,
                                names@[i as int]@,
                            ) by {
                                if k < i && str_lt(names@[k]@, names@[i as int]@) {
                                    lemma_str_lt_transitive(
                                        names@[k]@,
                                        names@[i as int]@,
                                        names@[b as int]@,
                                    );
                                }
                                if k == i {
                                    lemma_str_lt_irreflexive(names@[k]@);
                                }
                            }
                        }
                        best_idle = Some(i);
                    }
                },
            }
        }
        i += 1;
    }
    match best_idle {
        Some(b) => Some(names[b].clone()),
        None => match best_png {
            Some(b) => Some(names[b].clone()),
            None => None,
        },
    }
}

} // verus!
