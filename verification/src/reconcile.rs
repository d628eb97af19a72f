//! Set arithmetic on member lists.
//!
//! A member list is a `Vec<String>` of node ids. What a list means is the set
//! of ids in it: order and repetition carry nothing. Every function here hands
//! its result back in normal form, that is in strictly increasing order, so
//! that equal sets come out as equal lists.

use crate::node_id::{
    id_less, id_lt, lemma_id_lt_asymmetric, lemma_id_lt_connected, lemma_id_lt_irreflexive,
    lemma_id_lt_transitive,
};
use vstd::prelude::*;

verus! {

/// The ids of `ids` stand in strictly increasing order: the list is sorted
/// and holds no id twice.
pub open spec fn is_normalized(ids: Seq<Seq<char>>) -> bool {
    forall|i: int, j: int| 0 <= i < j < ids.len() ==> id_lt(#[trigger] ids[i], #[trigger] ids[j])
}

/// The normal form of a finite set of ids: its members in increasing order.
pub open spec fn normalize(members: Set<Seq<char>>) -> Seq<Seq<char>> {
    choose|ids: Seq<Seq<char>>| is_normalized(ids) && ids.to_set() == members
}

/// What merging `additions` into `existing` gives: the normal form of the
/// union of the two.
pub open spec fn merged_ids(existing: Seq<Seq<char>>, additions: Seq<Seq<char>>) -> Seq<
    Seq<char>,
> {
    normalize(existing.to_set().union(additions.to_set()))
}

/// What deleting `to_delete` from `current` leaves: the normal form of the
/// difference of the two.
pub open spec fn retained_ids(current: Seq<Seq<char>>, to_delete: Seq<Seq<char>>) -> Seq<
    Seq<char>,
> {
    normalize(current.to_set().difference(to_delete.to_set()))
}

/// The target group's new member list after a migration: what it held merged
/// with what moves in.
pub open spec fn migrated_target(target: Seq<Seq<char>>, moving: Seq<Seq<char>>) -> Seq<
    Seq<char>,
> {
    merged_ids(target, moving)
}

/// The parent group's new member list after a migration: what it held without
/// the new members of the target group.
pub open spec fn migrated_parent(
    target: Seq<Seq<char>>,
    parent: Seq<Seq<char>>,
    moving: Seq<Seq<char>>,
) -> Seq<Seq<char>> {
    retained_ids(parent, migrated_target(target, moving))
}

/// A normalized list holds no id twice.
pub proof fn lemma_normalized_no_duplicates(ids: Seq<Seq<char>>)
    requires
        is_normalized(ids),
    ensures
        ids.no_duplicates(),
{
    assert forall|i: int, j: int| 0 <= i < ids.len() && 0 <= j < ids.len() && i != j implies ids[i]
        != ids[j] by {
        if i < j {
            assert(id_lt(ids[i], ids[j]));
            lemma_id_lt_irreflexive(ids[i]);
        } else {
            assert(id_lt(ids[j], ids[i]));
            lemma_id_lt_irreflexive(ids[i]);
        }
    }
}

/// Two normalized lists that hold the same ids are the same list.
pub proof fn lemma_normalized_unique(a: Seq<Seq<char>>, b: Seq<Seq<char>>)
    requires
        is_normalized(a),
        is_normalized(b),
        a.to_set() == b.to_set(),
    ensures
        a == b,
    decreases a.len(),
{
    if a.len() == 0 {
        if b.len() > 0 {
            assert(b.contains(b[0]));
            assert(a.to_set().contains(b[0]));
        }
        assert(a =~= b);
    } else {
        assert(a.contains(a[0]));
        assert(b.to_set().contains(a[0]));
        let k = choose|k: int| 0 <= k < b.len() && b[k] == a[0];
        assert(b.contains(b[0]));
        assert(a.to_set().contains(b[0]));
        let m = choose|m: int| 0 <= m < a.len() && a[m] == b[0];
        if k > 0 && m > 0 {
            assert(id_lt(b[0], b[k]));
            assert(id_lt(a[0], a[m]));
            lemma_id_lt_asymmetric(a[0], b[0]);
        }
        assert(a[0] == b[0]);
        let rest_a = a.drop_first();
        let rest_b = b.drop_first();
        assert(is_normalized(rest_a)) by {
            assert forall|i: int, j: int| 0 <= i < j < rest_a.len() implies id_lt(
                #[trigger] rest_a[i],
                #[trigger] rest_a[j],
            ) by {
                assert(id_lt(a[i + 1], a[j + 1]));
            }
        }
        assert(is_normalized(rest_b)) by {
            assert forall|i: int, j: int| 0 <= i < j < rest_b.len() implies id_lt(
                #[trigger] rest_b[i],
                #[trigger] rest_b[j],
            ) by {
                assert(id_lt(b[i + 1], b[j + 1]));
            }
        }
        assert forall|x: Seq<char>| rest_a.to_set().contains(x) <==> rest_b.to_set().contains(
            x,
        ) by {
            if rest_a.contains(x) {
                let i = choose|i: int| 0 <= i < rest_a.len() && rest_a[i] == x;
                assert(a[i + 1] == x);
                assert(a.contains(x));
                assert(b.to_set().contains(x));
                let j = choose|j: int| 0 <= j < b.len() && b[j] == x;
                assert(id_lt(a[0], a[i + 1]));
                lemma_id_lt_irreflexive(x);
                assert(rest_b[j - 1] == x);
            }
            if rest_b.contains(x) {
                let i = choose|i: int| 0 <= i < rest_b.len() && rest_b[i] == x;
                assert(b[i + 1] == x);
                assert(b.contains(x));
                assert(a.to_set().contains(x));
                let j = choose|j: int| 0 <= j < a.len() && a[j] == x;
                assert(id_lt(b[0], b[i + 1]));
                lemma_id_lt_irreflexive(x);
                assert(rest_a[j - 1] == x);
            }
        }
        assert(rest_a.to_set() =~= rest_b.to_set());
        lemma_normalized_unique(rest_a, rest_b);
        assert(a =~= seq![a[0]] + rest_a);
        assert(b =~= seq![b[0]] + rest_b);
    }
}

/// A normalized list is the normal form of the set of its ids.
pub proof fn lemma_normalize_of_normalized(ids: Seq<Seq<char>>)
    requires
        is_normalized(ids),
    ensures
        normalize(ids.to_set()) == ids,
{
    let chosen = normalize(ids.to_set());
    assert(is_normalized(chosen) && chosen.to_set() == ids.to_set());
    lemma_normalized_unique(chosen, ids);
}

/// Putting `id` into a normalized list at the place where the ids before it
/// are smaller and those from it on are larger keeps the list normalized and
/// adds `id` to its set.
proof fn lemma_insert_normalized(ids: Seq<Seq<char>>, at: int, id: Seq<char>)
    requires
        is_normalized(ids),
        0 <= at <= ids.len(),
        forall|i: int| 0 <= i < at ==> id_lt(#[trigger] ids[i], id),
        forall|i: int| at <= i < ids.len() ==> id_lt(id, #[trigger] ids[i]),
    ensures
        is_normalized(ids.insert(at, id)),
        ids.insert(at, id).to_set() == ids.to_set().insert(id),
{
    let out = ids.insert(at, id);
    assert forall|i: int, j: int| 0 <= i < j < out.len() implies id_lt(
        #[trigger] out[i],
        #[trigger] out[j],
    ) by {
        if j < at {
            assert(out[i] == ids[i] && out[j] == ids[j]);
        } else if j == at {
            assert(out[i] == ids[i]);
        } else if i < at {
            assert(out[i] == ids[i] && out[j] == ids[j - 1]);
            if at == j - 1 {
                lemma_id_lt_transitive(ids[i], id, ids[j - 1]);
            }
        } else if i == at {
            assert(out[j] == ids[j - 1]);
        } else {
            assert(out[i] == ids[i - 1] && out[j] == ids[j - 1]);
        }
    }
    assert forall|x: Seq<char>| out.to_set().contains(x) <==> ids.to_set().insert(id).contains(
        x,
    ) by {
        if out.contains(x) {
            let i = choose|i: int| 0 <= i < out.len() && out[i] == x;
            if i < at {
                assert(ids[i] == x);
            } else if i > at {
                assert(ids[i - 1] == x);
            }
        }
        if ids.contains(x) {
            let i = choose|i: int| 0 <= i < ids.len() && ids[i] == x;
            if i < at {
                assert(out[i] == x);
            } else {
                assert(out[i + 1] == x);
            }
        }
        if x == id {
            assert(out[at] == x);
        }
    }
    assert(out.to_set() =~= ids.to_set().insert(id));
}

/// The number of ids of a normalized list that come before `id`.
fn lower_bound(sorted: &Vec<String>, id: &String) -> (at: usize)
    requires
        is_normalized(sorted.deep_view()),
    ensures
        at <= sorted.len(),
        forall|i: int| 0 <= i < at ==> id_lt(#[trigger] sorted.deep_view()[i], id@),
        forall|i: int| at <= i < sorted.len() ==> !id_lt(#[trigger] sorted.deep_view()[i], id@),
{
    let ghost ids = sorted.deep_view();
    let mut low: usize = 0;
    let mut high: usize = sorted.len();
    while low < high
        invariant
            ids == sorted.deep_view(),
            is_normalized(ids),
            low <= high <= sorted.len(),
            forall|i: int| 0 <= i < low ==> id_lt(#[trigger] ids[i], id@),
            forall|i: int| high <= i < ids.len() ==> !id_lt(#[trigger] ids[i], id@),
        decreases high - low,
    {
        let mid: usize = low + (high - low) / 2;
        assert(ids[mid as int] == sorted@[mid as int]@);
        if id_less(sorted[mid].as_str(), id.as_str()) {
            assert forall|i: int| 0 <= i < mid + 1 implies id_lt(#[trigger] ids[i], id@) by {
                if i < mid {
                    assert(id_lt(ids[i], ids[mid as int]));
                    lemma_id_lt_transitive(ids[i], ids[mid as int], id@);
                }
            }
            low = mid + 1;
        } else {
            assert forall|i: int| mid <= i < ids.len() implies !id_lt(#[trigger] ids[i], id@) by {
                if i > mid && id_lt(ids[i], id@) {
                    assert(id_lt(ids[mid as int], ids[i]));
                    lemma_id_lt_transitive(ids[mid as int], ids[i], id@);
                }
            }
            high = mid;
        }
    }
    low
}

/// Tells whether a normalized list holds `id`.
pub fn contains_id(sorted: &Vec<String>, id: &String) -> (found: bool)
    requires
        is_normalized(sorted.deep_view()),
    ensures
        found == sorted.deep_view().contains(id@),
{
    let ghost ids = sorted.deep_view();
    let at = lower_bound(sorted, id);
    if at < sorted.len() {
        assert(ids[at as int] == sorted@[at as int]@);
        if sorted[at] == *id {
            return true;
        }
    }
    proof {
        if ids.contains(id@) {
            let i = choose|i: int| 0 <= i < ids.len() && ids[i] == id@;
            lemma_id_lt_irreflexive(id@);
            assert(i >= at);
            if i > at {
                assert(id_lt(ids[at as int], ids[i]));
            }
        }
    }
    false
}

/// Adds `id` to a normalized list, which stays normalized. An id that the list
/// holds already leaves it as it was.
pub fn insert_id(sorted: &mut Vec<String>, id: &String)
    requires
        is_normalized(old(sorted).deep_view()),
    ensures
        is_normalized(final(sorted).deep_view()),
        final(sorted).deep_view().to_set() == old(sorted).deep_view().to_set().insert(id@),
        old(sorted).deep_view().contains(id@) ==> final(sorted).deep_view() == old(
            sorted,
        ).deep_view(),
{
    let ghost ids = sorted.deep_view();
    let at = lower_bound(sorted, id);
    if at < sorted.len() {
        assert(ids[at as int] == sorted@[at as int]@);
        if sorted[at] == *id {
            assert(ids.contains(id@));
            assert(ids.to_set().insert(id@) =~= ids.to_set());
            return;
        }
    }
    proof {
        assert forall|i: int| at <= i < ids.len() implies id_lt(id@, #[trigger] ids[i]) by {
            if i == at {
                lemma_id_lt_connected(id@, ids[i]);
            } else {
                assert(id_lt(ids[at as int], ids[i]));
                lemma_id_lt_connected(id@, ids[at as int]);
                lemma_id_lt_transitive(id@, ids[at as int], ids[i]);
            }
        }
        lemma_insert_normalized(ids, at as int, id@);
        if ids.contains(id@) {
            let i = choose|i: int| 0 <= i < ids.len() && ids[i] == id@;
            lemma_id_lt_irreflexive(id@);
        }
    }
    sorted.insert(at, id.clone());
    assert(sorted.deep_view() =~= ids.insert(at as int, id@));
}

/// The first `n + 1` ids of a list are its first `n` and the one after them.
proof fn lemma_take_next(ids: Seq<Seq<char>>, n: int)
    requires
        0 <= n < ids.len(),
    ensures
        ids.take(n + 1).to_set() == ids.take(n).to_set().insert(ids[n]),
{
    let more = ids.take(n + 1);
    let fewer = ids.take(n);
    assert forall|x: Seq<char>| more.to_set().contains(x) <==> fewer.to_set().insert(
        ids[n],
    ).contains(x) by {
        if more.contains(x) {
            let i = choose|i: int| 0 <= i < more.len() && more[i] == x;
            if i < n {
                assert(fewer[i] == x);
            }
        }
        if fewer.contains(x) {
            let i = choose|i: int| 0 <= i < fewer.len() && fewer[i] == x;
            assert(more[i] == x);
        }
        if x == ids[n] {
            assert(more[n] == x);
        }
    }
    assert(more.to_set() =~= fewer.to_set().insert(ids[n]));
}

/// Adds every id of `ids` to a normalized list, which stays normalized.
pub fn insert_all(sorted: &mut Vec<String>, ids: &Vec<String>)
    requires
        is_normalized(old(sorted).deep_view()),
    ensures
        is_normalized(final(sorted).deep_view()),
        final(sorted).deep_view().to_set() == old(sorted).deep_view().to_set().union(
            ids.deep_view().to_set(),
        ),
{
    let ghost before = sorted.deep_view().to_set();
    let ghost all = ids.deep_view();
    let mut n: usize = 0;
    assert(all.take(0).to_set() =~= Set::<Seq<char>>::empty());
    assert(before.union(all.take(0).to_set()) =~= before);
    while n < ids.len()
        invariant
            n <= ids.len(),
            all == ids.deep_view(),
            is_normalized(sorted.deep_view()),
            sorted.deep_view().to_set() == before.union(all.take(n as int).to_set()),
        decreases ids.len() - n,
    {
        proof {
            lemma_take_next(all, n as int);
            assert(all[n as int] == ids@[n as int]@);
            assert(before.union(all.take(n as int).to_set()).insert(all[n as int]) =~= before.union(
                all.take(n as int + 1).to_set(),
            ));
        }
        insert_id(sorted, &ids[n]);
        n = n + 1;
    }
    assert(all.take(ids.len() as int) =~= all);
}

/// Folds `additions` into `existing`: the union of the two, sorted, each id
/// once.
pub fn merge_and_normalize(existing: &Vec<String>, additions: &Vec<String>) -> (merged: Vec<
    String,
>)
    ensures
        is_normalized(merged.deep_view()),
        merged.deep_view().no_duplicates(),
        merged.deep_view().to_set() == existing.deep_view().to_set().union(
            additions.deep_view().to_set(),
        ),
        merged.deep_view() == merged_ids(existing.deep_view(), additions.deep_view()),
{
    let mut merged: Vec<String> = Vec::new();
    assert(merged.deep_view().to_set() =~= Set::<Seq<char>>::empty());
    insert_all(&mut merged, existing);
    insert_all(&mut merged, additions);
    proof {
        assert(merged.deep_view().to_set() =~= existing.deep_view().to_set().union(
            additions.deep_view().to_set(),
        ));
        lemma_normalize_of_normalized(merged.deep_view());
        lemma_normalized_no_duplicates(merged.deep_view());
    }
    merged
}

/// The members that remain after a deletion request: those of `current` that
/// `to_delete` does not name, in normal form.
pub fn compute_delete_retained(current: &Vec<String>, to_delete: &Vec<String>) -> (retained: Vec<
    String,
>)
    ensures
        is_normalized(retained.deep_view()),
        retained.deep_view().to_set() == current.deep_view().to_set().difference(
            to_delete.deep_view().to_set(),
        ),
        retained.deep_view() == retained_ids(current.deep_view(), to_delete.deep_view()),
{
    let mut dropped: Vec<String> = Vec::new();
    assert(dropped.deep_view().to_set() =~= Set::<Seq<char>>::empty());
    insert_all(&mut dropped, to_delete);
    let ghost gone = to_delete.deep_view().to_set();
    assert(dropped.deep_view().to_set() =~= gone);
    let ghost all = current.deep_view();
    let mut retained: Vec<String> = Vec::new();
    let mut n: usize = 0;
    assert(all.take(0).to_set() =~= Set::<Seq<char>>::empty());
    assert(retained.deep_view().to_set() =~= all.take(0).to_set().difference(gone));
    while n < current.len()
        invariant
            n <= current.len(),
            all == current.deep_view(),
            is_normalized(dropped.deep_view()),
            dropped.deep_view().to_set() == gone,
            is_normalized(retained.deep_view()),
            retained.deep_view().to_set() == all.take(n as int).to_set().difference(gone),
        decreases current.len() - n,
    {
        proof {
            lemma_take_next(all, n as int);
            assert(all[n as int] == current@[n as int]@);
        }
        let ghost kept = retained.deep_view().to_set();
        if contains_id(&dropped, &current[n]) {
            assert(gone.contains(all[n as int]));
            assert(kept =~= all.take(n as int + 1).to_set().difference(gone));
        } else {
            assert(!gone.contains(all[n as int]));
            insert_id(&mut retained, &current[n]);
            assert(kept.insert(all[n as int]) =~= all.take(n as int + 1).to_set().difference(
                gone,
            ));
        }
        n = n + 1;
    }
    proof {
        assert(all.take(current.len() as int) =~= all);
        lemma_normalize_of_normalized(retained.deep_view());
    }
    retained
}

/// The member lists of the two groups after `moving` has gone from the parent
/// group to the target group, target first. The target gains `moving`; the
/// parent loses every id that the target then holds, which takes away also a
/// node that stood in both groups before.
pub fn compute_migration_state(
    target_existing: &Vec<String>,
    parent_existing: &Vec<String>,
    moving: &Vec<String>,
) -> (state: (Vec<String>, Vec<String>))
    ensures
        is_normalized(state.0.deep_view()),
        is_normalized(state.1.deep_view()),
        state.0.deep_view() == migrated_target(target_existing.deep_view(), moving.deep_view()),
        state.1.deep_view() == migrated_parent(
            target_existing.deep_view(),
            parent_existing.deep_view(),
            moving.deep_view(),
        ),
        state.0.deep_view().to_set() == target_existing.deep_view().to_set().union(
            moving.deep_view().to_set(),
        ),
        state.1.deep_view().to_set() == parent_existing.deep_view().to_set().difference(
            state.0.deep_view().to_set(),
        ),
        state.0.deep_view().to_set().disjoint(state.1.deep_view().to_set()),
        forall|id: Seq<char>| #[trigger]
            moving.deep_view().contains(id) ==> state.0.deep_view().contains(id)
                && !state.1.deep_view().contains(id),
{
    let target_new = merge_and_normalize(target_existing, moving);
    let parent_new = compute_delete_retained(parent_existing, &target_new);
    proof {
        assert forall|id: Seq<char>| #[trigger]
            moving.deep_view().contains(id) implies target_new.deep_view().contains(id)
            && !parent_new.deep_view().contains(id) by {
            assert(moving.deep_view().to_set().contains(id));
            assert(target_new.deep_view().to_set().contains(id));
            assert(!parent_new.deep_view().to_set().contains(id));
        }
    }
    (target_new, parent_new)
}

/// The ids of `ids` and `id`, in increasing order when `ids` is.
spec fn with_id(ids: Seq<Seq<char>>, id: Seq<char>) -> Seq<Seq<char>>
    decreases ids.len(),
{
    if ids.len() == 0 {
        seq![id]
    } else if ids.last() == id {
        ids
    } else if id_lt(ids.last(), id) {
        ids.push(id)
    } else {
        with_id(ids.drop_last(), id).push(ids.last())
    }
}

proof fn lemma_with_id(ids: Seq<Seq<char>>, id: Seq<char>)
    requires
        is_normalized(ids),
    ensures
        is_normalized(with_id(ids, id)),
        with_id(ids, id).to_set() == ids.to_set().insert(id),
    decreases ids.len(),
{
    let out = with_id(ids, id);
    if ids.len() == 0 {
        assert(ids.insert(0, id) =~= out);
        lemma_insert_normalized(ids, 0, id);
    } else if ids.last() == id {
        assert(ids.contains(id));
        assert(ids.to_set().insert(id) =~= ids.to_set());
    } else if id_lt(ids.last(), id) {
        assert forall|i: int| 0 <= i < ids.len() implies id_lt(#[trigger] ids[i], id) by {
            if i < ids.len() - 1 {
                assert(id_lt(ids[i], ids[ids.len() - 1]));
                lemma_id_lt_transitive(ids[i], ids.last(), id);
            }
        }
        assert(ids.insert(ids.len() as int, id) =~= out);
        lemma_insert_normalized(ids, ids.len() as int, id);
    } else {
        let front = ids.drop_last();
        let inner = with_id(front, id);
        assert(is_normalized(front)) by {
            assert forall|i: int, j: int| 0 <= i < j < front.len() implies id_lt(
                #[trigger] front[i],
                #[trigger] front[j],
            ) by {
                assert(id_lt(ids[i], ids[j]));
            }
        }
        lemma_with_id(front, id);
        lemma_id_lt_connected(id, ids.last());
        assert forall|i: int| 0 <= i < inner.len() implies id_lt(#[trigger] inner[i], ids.last()) by {
            assert(inner.contains(inner[i]));
            assert(front.to_set().insert(id).contains(inner[i]));
            if inner[i] != id {
                assert(front.contains(inner[i]));
                let k = choose|k: int| 0 <= k < front.len() && front[k] == inner[i];
                assert(id_lt(ids[k], ids[ids.len() - 1]));
            }
        }
        assert(inner.insert(inner.len() as int, ids.last()) =~= out);
        lemma_insert_normalized(inner, inner.len() as int, ids.last());
        assert(ids =~= front.push(ids.last()));
        lemma_take_next(ids, ids.len() - 1);
        assert(ids.take(ids.len() - 1) =~= front);
        assert(ids.take(ids.len() as int) =~= ids);
        assert(out.to_set() =~= ids.to_set().insert(id));
    }
}

/// A normalized list of the ids of `ids`.
proof fn sorted_ids(ids: Seq<Seq<char>>) -> (sorted: Seq<Seq<char>>)
    ensures
        is_normalized(sorted),
        sorted.to_set() == ids.to_set(),
    decreases ids.len(),
{
    if ids.len() == 0 {
        ids
    } else {
        let front = sorted_ids(ids.drop_last());
        lemma_with_id(front, ids.last());
        lemma_take_next(ids, ids.len() - 1);
        assert(ids.take(ids.len() - 1) =~= ids.drop_last());
        assert(ids.take(ids.len() as int) =~= ids);
        with_id(front, ids.last())
    }
}

/// Every finite set of ids has a normal form: a normalized list of exactly its
/// members.
pub proof fn lemma_normalize_finite(members: Set<Seq<char>>)
    requires
        members.finite(),
    ensures
        is_normalized(normalize(members)),
        normalize(members).to_set() == members,
{
    members.lemma_to_seq_to_set_id();
    let sorted = sorted_ids(members.to_seq());
    assert(is_normalized(sorted) && sorted.to_set() == members);
}

/// The merge is idempotent: folding the same additions in a second time
/// changes nothing.
pub proof fn lemma_merge_idempotent(existing: Seq<Seq<char>>, additions: Seq<Seq<char>>)
    ensures
        merged_ids(merged_ids(existing, additions), additions) == merged_ids(existing, additions),
{
    let both = existing.to_set().union(additions.to_set());
    lemma_normalize_finite(both);
    assert(merged_ids(existing, additions).to_set().union(additions.to_set()) =~= both);
}

/// The two lists of a migration share no id, and each id of `moving` stands in
/// the target's list.
pub proof fn lemma_migration_disjoint(
    target: Seq<Seq<char>>,
    parent: Seq<Seq<char>>,
    moving: Seq<Seq<char>>,
)
    ensures
        migrated_target(target, moving).to_set().disjoint(
            migrated_parent(target, parent, moving).to_set(),
        ),
        moving.to_set().subset_of(migrated_target(target, moving).to_set()),
        moving.to_set().disjoint(migrated_parent(target, parent, moving).to_set()),
{
    let target_new = migrated_target(target, moving);
    lemma_normalize_finite(target.to_set().union(moving.to_set()));
    lemma_normalize_finite(parent.to_set().difference(target_new.to_set()));
}

/// A migration that is planned again gives the same two lists, once every
/// request of the first run has succeeded: the target group then holds what it
/// held and `moving`, the parent group what it held without `moving`.
pub proof fn lemma_migration_rerun(
    target: Seq<Seq<char>>,
    parent: Seq<Seq<char>>,
    moving: Seq<Seq<char>>,
    target_after: Seq<Seq<char>>,
    parent_after: Seq<Seq<char>>,
)
    requires
        target_after.to_set() == target.to_set().union(moving.to_set()),
        parent_after.to_set() == parent.to_set().difference(moving.to_set()),
    ensures
        migrated_target(target_after, moving) == migrated_target(target, moving),
        migrated_parent(target_after, parent_after, moving) == migrated_parent(
            target,
            parent,
            moving,
        ),
{
    let both = target.to_set().union(moving.to_set());
    assert(target_after.to_set().union(moving.to_set()) =~= both);
    lemma_normalize_finite(both);
    assert(parent_after.to_set().difference(both) =~= parent.to_set().difference(both));
}

/// The two lists of a migration are a fixed point of it: planned from them,
/// the same migration gives them back.
pub proof fn lemma_migration_settled(
    target: Seq<Seq<char>>,
    parent: Seq<Seq<char>>,
    moving: Seq<Seq<char>>,
)
    ensures
        migrated_target(migrated_target(target, moving), moving) == migrated_target(
            target,
            moving,
        ),
        migrated_parent(
            migrated_target(target, moving),
            migrated_parent(target, parent, moving),
            moving,
        ) == migrated_parent(target, parent, moving),
{
    let both = target.to_set().union(moving.to_set());
    let target_new = migrated_target(target, moving);
    let left = parent.to_set().difference(target_new.to_set());
    lemma_merge_idempotent(target, moving);
    lemma_normalize_finite(both);
    lemma_normalize_finite(left);
    assert(migrated_parent(target, parent, moving).to_set().difference(target_new.to_set())
        =~= left);
}

/// Tells whether each of `node_ids` is one of `members`.
pub fn are_members(node_ids: &Vec<String>, members: &Vec<String>) -> (all: bool)
    ensures
        all == node_ids.deep_view().to_set().subset_of(members.deep_view().to_set()),
{
    let none: Vec<String> = Vec::new();
    let sorted = merge_and_normalize(members, &none);
    assert(sorted.deep_view().to_set() =~= members.deep_view().to_set());
    let ghost wanted = node_ids.deep_view();
    let mut n: usize = 0;
    while n < node_ids.len()
        invariant
            n <= node_ids.len(),
            wanted == node_ids.deep_view(),
            is_normalized(sorted.deep_view()),
            sorted.deep_view().to_set() == members.deep_view().to_set(),
            forall|i: int| 0 <= i < n ==> sorted.deep_view().contains(#[trigger] wanted[i]),
        decreases node_ids.len() - n,
    {
        assert(wanted[n as int] == node_ids@[n as int]@);
        if !contains_id(&sorted, &node_ids[n]) {
            assert(wanted.contains(wanted[n as int]));
            assert(!members.deep_view().to_set().contains(wanted[n as int]));
            return false;
        }
        n = n + 1;
    }
    assert forall|id: Seq<char>| wanted.to_set().contains(id) implies members.deep_view().to_set().contains(
        id,
    ) by {
        let i = choose|i: int| 0 <= i < wanted.len() && wanted[i] == id;
        assert(sorted.deep_view().contains(wanted[i]));
    }
    true
}

/// A change of one group's members: ids to take out and ids to put in. It is
/// worked out and applied in memory and never stored.
#[derive(Debug)]
pub struct MembershipDelta {
    /// The group that changes.
    pub group_label: String,
    /// The ids that join the group.
    pub additions: Vec<String>,
    /// The ids that leave the group.
    pub removals: Vec<String>,
}

impl MembershipDelta {
    /// The members of the group after the change: those of `current` that do
    /// not leave, and those that join.
    pub fn apply_to(&self, current: &Vec<String>) -> (changed: Vec<String>)
        ensures
            is_normalized(changed.deep_view()),
            changed.deep_view().to_set() == current.deep_view().to_set().difference(
                self.removals.deep_view().to_set(),
            ).union(self.additions.deep_view().to_set()),
            changed.deep_view() == merged_ids(
                retained_ids(current.deep_view(), self.removals.deep_view()),
                self.additions.deep_view(),
            ),
    {
        let retained = compute_delete_retained(current, &self.removals);
        merge_and_normalize(&retained, &self.additions)
    }
}

} // verus!
