//! Which deskling instances start with the application.
use vstd::prelude::*;

use crate::instances::{instance_id, lemma_instance_id_injective, make_instance_id};
use crate::ordered_map::{keys_of, lemma_str_lt_irreflexive, OrderedMap};

verus! {

/// The identifiers of instances `1..=q` of `slug`, in order.
pub open spec fn instances_of(slug: Seq<char>, q: nat) -> Seq<Seq<char>> {
    Seq::new(q, |n: int| instance_id(slug, (n + 1) as nat))
}

/// The instances of every `(slug, quantity)` entry, entry after entry.
pub open spec fn startup_ids(entries: Seq<(String, u32)>) -> Seq<Seq<char>>
    decreases entries.len(),
{
    if entries.len() == 0 {
        Seq::empty()
    } else {
        startup_ids(entries.drop_last()) + instances_of(entries.last().0@, entries.last().1 as nat)
    }
}

/// What starts: the instances the settings ask for, or, when they ask for
/// none, a single instance of the first installed deskling if there is one.
pub open spec fn startup_plan(entries: Seq<(String, u32)>, first_installed: Option<Seq<char>>) -> Seq<
    Seq<char>,
> {
    if entries.len() == 0 {
        match first_installed {
            Some(s) => instances_of(s, 1),
            None => Seq::empty(),
        }
    } else {
        startup_ids(entries)
    }
}

/// Appends the identifiers of instances `1..=quantity` of `slug`.
fn push_instances(ids: &mut Vec<String>, slug: &str, quantity: u32)
    ensures
        final(ids)@.map_values(|s: String| s@) == old(ids)@.map_values(|s: String| s@)
            + instances_of(slug@, quantity as nat),
{
    let ghost start = ids@.map_values(|s: String| s@);
    let mut n: u32 = 0;
    while n < quantity
        invariant
            n <= quantity,
            ids@.map_values(|s: String| s@) == start + instances_of(slug@, n as nat),
        decreases quantity - n,
    {
        let id = make_instance_id(slug, n + 1);
        let ghost before = ids@.map_values(|s: String| s@);
        ids.push(id);
        assert(ids@.map_values(|s: String| s@) =~= before.push(id@));
        assert(instances_of(slug@, (n + 1) as nat) =~= instances_of(slug@, n as nat).push(
            instance_id(slug@, (n + 1) as nat),
        ));
        n += 1;
    }
}

/// The identifiers of the instances to start, in the order they start:
/// for each deskling in `active` (ascending slug order), instances `1` to
/// its quantity; when `active` is empty, instance `1` of `first_installed`.
pub fn startup_instances(active: &OrderedMap<u32>, first_installed: Option<String>) -> (ids: Vec<
    String,
>)
    ensures
        ids@.map_values(|s: String| s@) == startup_plan(
            active.entries_view(),
            match first_installed {
                Some(s) => Some(s@),
                None => None,
            },
        ),
{
    let entries = active.entries();
    let mut ids: Vec<String> = Vec::new();
    if entries.len() == 0 {
        match first_installed {
            Some(slug) => {
                push_instances(&mut ids, slug.as_str(), 1);
                assert(ids@.map_values(|s: String| s@) =~= instances_of(slug@, 1));
            },
            None => {
                assert(ids@.map_values(|s: String| s@) =~= Seq::<Seq<char>>::empty());
            },
        }
        return ids;
    }
    let mut i: usize = 0;
    assert(ids@.map_values(|s: String| s@) =~= startup_ids(entries@.subrange(0, 0)));
    while i < entries.len()
        invariant
            i <= entries.len(),
            ids@.map_values(|s: String| s@) == startup_ids(entries@.subrange(0, i as int)),
        decreases entries.len() - i,
    {
        let ghost prefix = entries@.subrange(0, i + 1);
        assert(prefix.drop_last() =~= entries@.subrange(0, i as int));
        push_instances(&mut ids, entries[i].0.as_str(), entries[i].1);
        i += 1;
    }
    assert(entries@.subrange(0, entries.len() as int) =~= entries@);
    ids
}

/// Every identifier started for `entries` is instance `1..=q` of one of its
/// entries `(slug, q)`.
proof fn lemma_startup_ids_member(entries: Seq<(String, u32)>, k: int)
    requires
        0 <= k < startup_ids(entries).len(),
    ensures
        exists|j: int, n: nat|
            0 <= j < entries.len() && 1 <= n <= entries[j].1 && startup_ids(entries)[k]
                == #[trigger] instance_id(entries[j].0@, n),
    decreases entries.len(),
{
    let init = entries.drop_last();
    let head = startup_ids(init);
    let last = entries.last();
    if k < head.len() {
        lemma_startup_ids_member(init, k);
        let (j, n) = choose|j: int, n: nat|
            0 <= j < init.len() && 1 <= n <= init[j].1 && startup_ids(init)[k]
                == #[trigger] instance_id(init[j].0@, n);
        assert(entries[j] == init[j]);
        assert(startup_ids(entries)[k] == instance_id(entries[j].0@, n));
    } else {
        let n = (k - head.len() + 1) as nat;
        assert(startup_ids(entries)[k] == instances_of(last.0@, last.1 as nat)[k - head.len()]);
        assert(startup_ids(entries)[k] == instance_id(entries[entries.len() - 1].0@, n));
    }
}

/// The instances of `entries` with distinct slugs are all different.
proof fn lemma_startup_ids_distinct(entries: Seq<(String, u32)>)
    requires
        forall|i: int, j: int| 0 <= i < j < entries.len() ==> entries[i].0@ != entries[j].0@,
    ensures
        startup_ids(entries).no_duplicates(),
    decreases entries.len(),
{
    if entries.len() > 0 {
        let init = entries.drop_last();
        let last = entries.last();
        lemma_startup_ids_distinct(init);
        let head = startup_ids(init);
        let tail = instances_of(last.0@, last.1 as nat);
        let all = startup_ids(entries);
        assert(all == head + tail);
        assert forall|x: int, y: int| 0 <= x < y < all.len() implies all[x] != all[y] by {
            if y < head.len() {
                assert(all[x] == head[x] && all[y] == head[y]);
            } else if x >= head.len() {
                assert(all[x] == instance_id(last.0@, (x - head.len() + 1) as nat));
                assert(all[y] == instance_id(last.0@, (y - head.len() + 1) as nat));
                if all[x] == all[y] {
                    lemma_instance_id_injective(
                        last.0@,
                        (x - head.len() + 1) as nat,
                        last.0@,
                        (y - head.len() + 1) as nat,
                    );
                }
            } else {
                lemma_startup_ids_member(init, x);
                let (j, n) = choose|j: int, n: nat|
                    0 <= j < init.len() && 1 <= n <= init[j].1 && startup_ids(init)[x]
                        == #[trigger] instance_id(init[j].0@, n);
                assert(all[x] == head[x]);
                assert(all[y] == instance_id(last.0@, (y - head.len() + 1) as nat));
                if all[x] == all[y] {
                    lemma_instance_id_injective(
                        init[j].0@,
                        n,
                        last.0@,
                        (y - head.len() + 1) as nat,
                    );
                    assert(entries[j] == init[j]);
                    assert(entries[entries.len() - 1] == last);
                }
            }
        }
    }
}

/// No instance is started twice: the settings hold each slug once, and
/// each slug's instances have different numbers.
pub proof fn lemma_startup_plan_distinct(active: &OrderedMap<u32>, first_installed: Option<Seq<char>>)
    requires
        active.wf(),
    ensures
        startup_plan(active.entries_view(), first_installed).no_duplicates(),
{
    active.lemma_entries();
    active.lemma_keys();
    let e = active.entries_view();
    assert forall|i: int, j: int| 0 <= i < j < e.len() implies e[i].0@ != e[j].0@ by {
        assert(keys_of(e)[i] == e[i].0@);
        assert(keys_of(e)[j] == e[j].0@);
        lemma_str_lt_irreflexive(e[i].0@);
    }
    lemma_startup_ids_distinct(e);
}

} // verus!
