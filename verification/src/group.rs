//! Groups and the map from group labels to member lists.

use crate::node_id::same_id;
use crate::reconcile::{insert_all, is_normalized};
use vstd::prelude::*;

verus! {

/// A named set of node ids.
#[derive(Debug)]
pub struct Group {
    /// The group's name, by which the store finds it.
    pub label: String,
    /// What the group is for, in words.
    pub description: String,
    /// Free-form marks on the group.
    pub tags: Vec<String>,
    /// The ids of the group's nodes.
    pub members: Vec<String>,
}

/// What a [`Group`] holds, as plain values.
pub struct GroupView {
    pub label: Seq<char>,
    pub description: Seq<char>,
    pub tags: Seq<Seq<char>>,
    pub members: Seq<Seq<char>>,
}

impl DeepView for Group {
    type V = GroupView;

    open spec fn deep_view(&self) -> GroupView {
        GroupView {
            label: self.label@,
            description: self.description@,
            tags: self.tags.deep_view(),
            members: self.members.deep_view(),
        }
    }
}

impl View for Group {
    type V = GroupView;

    open spec fn view(&self) -> GroupView {
        self.deep_view()
    }
}

/// Some entry of `entries` carries `label`.
pub open spec fn has_label(entries: Seq<(Seq<char>, Seq<Seq<char>>)>, label: Seq<char>) -> bool {
    exists|i: int| 0 <= i < entries.len() && (#[trigger] entries[i]).0 == label
}

/// The place of an entry of `entries` that carries `label`.
pub open spec fn place_of(entries: Seq<(Seq<char>, Seq<Seq<char>>)>, label: Seq<char>) -> int {
    choose|i: int| 0 <= i < entries.len() && (#[trigger] entries[i]).0 == label
}

/// No two entries of `entries` carry the same label.
pub open spec fn labels_differ(entries: Seq<(Seq<char>, Seq<Seq<char>>)>) -> bool {
    forall|i: int, j: int|
        0 <= i < j < entries.len() ==> (#[trigger] entries[i]).0 != (#[trigger] entries[j]).0
}

/// The map that a list of entries with different labels stands for.
pub open spec fn map_of(entries: Seq<(Seq<char>, Seq<Seq<char>>)>) -> Map<
    Seq<char>,
    Seq<Seq<char>>,
> {
    Map::new(
        |label: Seq<char>| has_label(entries, label),
        |label: Seq<char>| entries[place_of(entries, label)].1,
    )
}

/// With different labels, the entry at a place is the one that its label finds.
proof fn lemma_place_of(entries: Seq<(Seq<char>, Seq<Seq<char>>)>, i: int)
    requires
        labels_differ(entries),
        0 <= i < entries.len(),
    ensures
        has_label(entries, entries[i].0),
        place_of(entries, entries[i].0) == i,
{
    let found = place_of(entries, entries[i].0);
    if found < i {
        assert(entries[found].0 != entries[i].0);
    } else if i < found {
        assert(entries[i].0 != entries[found].0);
    }
}

/// An entry with a new label, put at the end, adds one key to the map.
proof fn lemma_map_of_push(
    entries: Seq<(Seq<char>, Seq<Seq<char>>)>,
    label: Seq<char>,
    members: Seq<Seq<char>>,
)
    requires
        labels_differ(entries),
        !has_label(entries, label),
    ensures
        labels_differ(entries.push((label, members))),
        map_of(entries.push((label, members))) == map_of(entries).insert(label, members),
{
    let more = entries.push((label, members));
    assert forall|i: int, j: int| 0 <= i < j < more.len() implies (#[trigger] more[i]).0 != (
    #[trigger] more[j]).0 by {
        if j < entries.len() {
            assert(entries[i].0 != entries[j].0);
        } else {
            assert(more[i] == entries[i]);
        }
    }
    assert forall|key: Seq<char>| has_label(more, key) <==> (key == label || has_label(
        entries,
        key,
    )) by {
        if has_label(more, key) {
            let i = place_of(more, key);
            if i < entries.len() {
                assert(entries[i].0 == key);
            }
        }
        if has_label(entries, key) {
            let i = place_of(entries, key);
            assert(more[i].0 == key);
        }
        if key == label {
            assert(more[entries.len() as int].0 == key);
        }
    }
    assert forall|key: Seq<char>| has_label(more, key) implies #[trigger] map_of(more)[key]
        == map_of(entries).insert(label, members)[key] by {
        let i = place_of(more, key);
        lemma_place_of(more, i);
        if i < entries.len() {
            assert(entries[i] == more[i]);
            lemma_place_of(entries, i);
        }
    }
    assert(map_of(more) =~= map_of(entries).insert(label, members));
}

/// New members for the label of an entry change that key of the map alone.
proof fn lemma_map_of_update(
    entries: Seq<(Seq<char>, Seq<Seq<char>>)>,
    at: int,
    members: Seq<Seq<char>>,
)
    requires
        labels_differ(entries),
        0 <= at < entries.len(),
    ensures
        labels_differ(entries.update(at, (entries[at].0, members))),
        map_of(entries.update(at, (entries[at].0, members))) == map_of(entries).insert(
            entries[at].0,
            members,
        ),
{
    let label = entries[at].0;
    let other = entries.update(at, (label, members));
    assert forall|i: int, j: int| 0 <= i < j < other.len() implies (#[trigger] other[i]).0 != (
    #[trigger] other[j]).0 by {
        assert(entries[i].0 != entries[j].0);
    }
    assert forall|key: Seq<char>| has_label(other, key) <==> has_label(entries, key) by {
        if has_label(other, key) {
            let i = place_of(other, key);
            assert(entries[i].0 == key);
        }
        if has_label(entries, key) {
            let i = place_of(entries, key);
            assert(other[i].0 == key);
        }
    }
    lemma_place_of(entries, at);
    assert forall|key: Seq<char>| has_label(other, key) implies #[trigger] map_of(other)[key]
        == map_of(entries).insert(label, members)[key] by {
        let i = place_of(other, key);
        lemma_place_of(other, i);
        lemma_place_of(entries, i);
    }
    assert(map_of(other) =~= map_of(entries).insert(label, members));
}

/// The ids that stand under some label of `map`.
pub open spec fn ids_in(map: Map<Seq<char>, Seq<Seq<char>>>) -> Set<Seq<char>> {
    Set::new(
        |id: Seq<char>|
            exists|label: Seq<char>| map.contains_key(label) && (#[trigger] map[label]).contains(id),
    )
}

/// The ids that stand in one of the first `n` entries.
spec fn ids_before(entries: Seq<(Seq<char>, Seq<Seq<char>>)>, n: int) -> Set<Seq<char>> {
    Set::new(
        |id: Seq<char>| exists|i: int| 0 <= i < n && (#[trigger] entries[i]).1.contains(id),
    )
}

/// A map from group labels to member lists, in which no label stands twice.
#[derive(Debug)]
pub struct GroupMap {
    entries: Vec<(String, Vec<String>)>,
}

impl View for GroupMap {
    type V = Map<Seq<char>, Seq<Seq<char>>>;

    closed spec fn view(&self) -> Map<Seq<char>, Seq<Seq<char>>> {
        map_of(self.entries.deep_view())
    }
}

impl GroupMap {
    #[verifier::type_invariant]
    spec fn labels_stand_once(&self) -> bool {
        labels_differ(self.entries.deep_view())
    }

    /// The map without any label.
    pub fn new() -> (map: GroupMap)
        ensures
            map@ == Map::<Seq<char>, Seq<Seq<char>>>::empty(),
    {
        let map = GroupMap { entries: Vec::new() };
        assert(map@ =~= Map::<Seq<char>, Seq<Seq<char>>>::empty());
        map
    }

    /// The place of the entry for `label`, if there is one.
    fn find(&self, label: &str) -> (found: Option<usize>)
        ensures
            match found {
                Some(i) => i < self.entries.len() && self.entries.deep_view()[i as int].0
                    == label@,
                None => !has_label(self.entries.deep_view(), label@),
            },
    {
        let ghost entries = self.entries.deep_view();
        let mut i: usize = 0;
        while i < self.entries.len()
            invariant
                i <= self.entries.len(),
                entries == self.entries.deep_view(),
                forall|j: int| 0 <= j < i ==> (#[trigger] entries[j]).0 != label@,
            decreases self.entries.len() - i,
        {
            assert(entries[i as int].0 == self.entries@[i as int].0@);
            if same_id(self.entries[i].0.as_str(), label) {
                return Some(i);
            }
            i = i + 1;
        }
        None
    }

    /// The number of labels.
    pub fn len(&self) -> (n: usize)
        ensures
            self@.dom().finite(),
            n == self@.len(),
    {
        proof {
            use_type_invariant(self);
            let entries = self.entries.deep_view();
            let labels = entries.map_values(|e: (Seq<char>, Seq<Seq<char>>)| e.0);
            assert(labels.no_duplicates()) by {
                assert forall|i: int, j: int|
                    0 <= i < labels.len() && 0 <= j < labels.len() && i != j implies labels[i]
                    != labels[j] by {
                    if i < j {
                        assert(entries[i].0 != entries[j].0);
                    } else {
                        assert(entries[j].0 != entries[i].0);
                    }
                }
            }
            assert forall|key: Seq<char>| labels.to_set().contains(key) <==> self@.dom().contains(
                key,
            ) by {
                if labels.contains(key) {
                    let i = choose|i: int| 0 <= i < labels.len() && labels[i] == key;
                    assert(entries[i].0 == key);
                }
                if has_label(entries, key) {
                    let i = place_of(entries, key);
                    assert(labels[i] == key);
                }
            }
            assert(labels.to_set() =~= self@.dom());
            labels.unique_seq_to_set();
        }
        self.entries.len()
    }

    /// Tells whether the map holds `label`.
    pub fn contains_key(&self, label: &str) -> (held: bool)
        ensures
            held == self@.contains_key(label@),
    {
        self.find(label).is_some()
    }

    /// The member list that stands under `label`.
    pub fn get(&self, label: &str) -> (found: Option<&Vec<String>>)
        ensures
            match found {
                Some(members) => self@.contains_key(label@) && members.deep_view() == self@[label@],
                None => !self@.contains_key(label@),
            },
    {
        match self.find(label) {
            Some(i) => {
                proof {
                    use_type_invariant(self);
                    lemma_place_of(self.entries.deep_view(), i as int);
                    assert(self.entries.deep_view()[i as int].1 == self.entries@[i as int].1.deep_view());
                }
                Some(&self.entries[i].1)
            },
            None => None,
        }
    }

    /// Puts `members` under `label`, in place of what stood there.
    pub fn insert(&mut self, label: String, members: Vec<String>)
        ensures
            final(self)@ == old(self)@.insert(label@, members.deep_view()),
    {
        proof {
            use_type_invariant(&*self);
        }
        let ghost before = self.entries.deep_view();
        let found = self.find(label.as_str());
        let mut entries: Vec<(String, Vec<String>)> = Vec::new();
        core::mem::swap(&mut self.entries, &mut entries);
        match found {
            Some(i) => {
                proof {
                    lemma_map_of_update(before, i as int, members.deep_view());
                }
                entries.set(i, (label, members));
                assert(entries.deep_view() =~= before.update(
                    i as int,
                    (label@, members.deep_view()),
                ));
            },
            None => {
                proof {
                    lemma_map_of_push(before, label@, members.deep_view());
                }
                entries.push((label, members));
                assert(entries.deep_view() =~= before.push((label@, members.deep_view())));
            },
        }
        self.entries = entries;
    }

    /// The members of all groups of the map together, in normal form.
    pub fn all_members(&self) -> (ids: Vec<String>)
        ensures
            is_normalized(ids.deep_view()),
            ids.deep_view().to_set() == ids_in(self@),
    {
        let ghost entries = self.entries.deep_view();
        let mut ids: Vec<String> = Vec::new();
        let mut n: usize = 0;
        assert(ids.deep_view().to_set() =~= ids_before(entries, 0));
        while n < self.entries.len()
            invariant
                n <= self.entries.len(),
                entries == self.entries.deep_view(),
                is_normalized(ids.deep_view()),
                ids.deep_view().to_set() == ids_before(entries, n as int),
            decreases self.entries.len() - n,
        {
            let ghost before = ids.deep_view().to_set();
            assert(entries[n as int].1 == self.entries@[n as int].1.deep_view());
            insert_all(&mut ids, &self.entries[n].1);
            proof {
                let more = ids_before(entries, n + 1);
                assert forall|id: Seq<char>| more.contains(id) <==> before.union(
                    entries[n as int].1.to_set(),
                ).contains(id) by {
                    if more.contains(id) {
                        let i = choose|i: int|
                            0 <= i < n + 1 && (#[trigger] entries[i]).1.contains(id);
                        if i < n {
                            assert(ids_before(entries, n as int).contains(id));
                        }
                    }
                    if before.contains(id) {
                        let i = choose|i: int| 0 <= i < n && (#[trigger] entries[i]).1.contains(id);
                        assert(entries[i].1.contains(id));
                    }
                    if entries[n as int].1.contains(id) {
                        assert(more.contains(id));
                    }
                }
                assert(more =~= before.union(entries[n as int].1.to_set()));
            }
            n = n + 1;
        }
        proof {
            use_type_invariant(self);
            let all = ids_before(entries, entries.len() as int);
            assert forall|id: Seq<char>| all.contains(id) <==> ids_in(self@).contains(id) by {
                if all.contains(id) {
                    let i = choose|i: int|
                        0 <= i < entries.len() && (#[trigger] entries[i]).1.contains(id);
                    lemma_place_of(entries, i);
                    assert(self@.contains_key(entries[i].0));
                    assert(self@[entries[i].0].contains(id));
                }
                if ids_in(self@).contains(id) {
                    let label = choose|label: Seq<char>|
                        self@.contains_key(label) && (#[trigger] self@[label]).contains(id);
                    let i = place_of(entries, label);
                    assert(entries[i].1.contains(id));
                }
            }
            assert(all =~= ids_in(self@));
        }
        ids
    }

    /// The labels of the map, each once.
    pub fn labels(&self) -> (labels: Vec<String>)
        ensures
            labels.deep_view().no_duplicates(),
            labels.deep_view().to_set() == self@.dom(),
    {
        let ghost entries = self.entries.deep_view();
        let mut labels: Vec<String> = Vec::new();
        let mut i: usize = 0;
        while i < self.entries.len()
            invariant
                i <= self.entries.len(),
                entries == self.entries.deep_view(),
                labels.len() == i,
                forall|j: int| 0 <= j < i ==> #[trigger] labels.deep_view()[j] == entries[j].0,
            decreases self.entries.len() - i,
        {
            let ghost before = labels.deep_view();
            assert(entries[i as int].0 == self.entries@[i as int].0@);
            labels.push(self.entries[i].0.clone());
            assert forall|j: int| 0 <= j < i + 1 implies #[trigger] labels.deep_view()[j]
                == entries[j].0 by {
                if j < i {
                    assert(labels.deep_view()[j] == before[j]);
                }
            }
            i = i + 1;
        }
        proof {
            use_type_invariant(self);
            let out = labels.deep_view();
            assert forall|a: int, b: int|
                0 <= a < out.len() && 0 <= b < out.len() && a != b implies out[a] != out[b] by {
                if a < b {
                    assert(entries[a].0 != entries[b].0);
                } else {
                    assert(entries[b].0 != entries[a].0);
                }
            }
            assert forall|key: Seq<char>| out.to_set().contains(key) <==> self@.dom().contains(
                key,
            ) by {
                if out.contains(key) {
                    let j = choose|j: int| 0 <= j < out.len() && out[j] == key;
                    assert(entries[j].0 == key);
                }
                if has_label(entries, key) {
                    let j = place_of(entries, key);
                    assert(out[j] == key);
                }
            }
            assert(out.to_set() =~= self@.dom());
        }
        labels
    }
}

/// The group at place `i` is the first of `groups` that carries `label`.
pub open spec fn is_first_labelled(groups: Seq<GroupView>, label: Seq<char>, i: int) -> bool {
    &&& 0 <= i < groups.len()
    &&& groups[i].label == label
    &&& forall|j: int| 0 <= j < i ==> (#[trigger] groups[j]).label != label
}

/// The place of the first group of `groups` that carries `label`.
pub open spec fn first_labelled(groups: Seq<GroupView>, label: Seq<char>) -> int {
    choose|i: int| is_first_labelled(groups, label, i)
}

/// Some group of `groups` carries `label`.
pub open spec fn is_labelled(groups: Seq<GroupView>, label: Seq<char>) -> bool {
    exists|i: int| 0 <= i < groups.len() && (#[trigger] groups[i]).label == label
}

/// A bulk listing cut down to the wanted labels: each wanted label that some
/// group of the listing carries, with the members of the first such group.
pub open spec fn filtered_map(names: Seq<Seq<char>>, groups: Seq<GroupView>) -> Map<
    Seq<char>,
    Seq<Seq<char>>,
> {
    Map::new(
        |label: Seq<char>| names.contains(label) && is_labelled(groups, label),
        |label: Seq<char>| groups[first_labelled(groups, label)].members,
    )
}

/// Among the groups up to place `i`, where one carries `label`, one is the
/// first to do so.
proof fn lemma_first_labelled_before(groups: Seq<GroupView>, label: Seq<char>, i: int)
    requires
        0 <= i < groups.len(),
        groups[i].label == label,
    ensures
        is_first_labelled(groups, label, first_labelled(groups, label)),
        first_labelled(groups, label) <= i,
    decreases i,
{
    if forall|j: int| 0 <= j < i ==> (#[trigger] groups[j]).label != label {
        assert(is_first_labelled(groups, label, i));
    } else {
        let j = choose|j: int| 0 <= j < i && (#[trigger] groups[j]).label == label;
        lemma_first_labelled_before(groups, label, j);
    }
    let first = first_labelled(groups, label);
    if first > i {
        assert(groups[i].label != label);
    }
}

/// What one more group at the end of the listing does to the filtered map: it
/// adds its label and members where the label is wanted and no earlier group
/// carried it, and changes nothing otherwise.
proof fn lemma_filtered_map_push(names: Seq<Seq<char>>, groups: Seq<GroupView>, group: GroupView)
    ensures
        filtered_map(names, groups.push(group)) == if names.contains(group.label) && !filtered_map(
            names,
            groups,
        ).contains_key(group.label) {
            filtered_map(names, groups).insert(group.label, group.members)
        } else {
            filtered_map(names, groups)
        },
{
    let more = groups.push(group);
    let before = filtered_map(names, groups);
    let after = filtered_map(names, more);
    let expected = if names.contains(group.label) && !before.contains_key(group.label) {
        before.insert(group.label, group.members)
    } else {
        before
    };
    assert forall|label: Seq<char>| is_labelled(more, label) <==> (label == group.label
        || is_labelled(groups, label)) by {
        if is_labelled(more, label) {
            let i = choose|i: int| 0 <= i < more.len() && (#[trigger] more[i]).label == label;
            if i < groups.len() {
                assert(groups[i].label == label);
            }
        }
        if is_labelled(groups, label) {
            let i = choose|i: int| 0 <= i < groups.len() && (#[trigger] groups[i]).label == label;
            assert(more[i].label == label);
        }
        if label == group.label {
            assert(more[groups.len() as int].label == label);
        }
    }
    assert forall|label: Seq<char>| after.contains_key(label) implies #[trigger] after[label]
        == expected[label] by {
        if is_labelled(groups, label) {
            let i = choose|i: int| 0 <= i < groups.len() && (#[trigger] groups[i]).label == label;
            lemma_first_labelled_before(groups, label, i);
            assert(more[i].label == label);
            lemma_first_labelled_before(more, label, i);
            let first = first_labelled(groups, label);
            let first_more = first_labelled(more, label);
            assert(more[first] == groups[first]);
            assert(groups[first_more] == more[first_more]);
            if first < first_more {
                assert(more[first].label != label);
            } else if first_more < first {
                assert(groups[first_more].label != label);
            }
        } else {
            let last = groups.len() as int;
            assert(more[last].label == label);
            lemma_first_labelled_before(more, label, last);
            let first_more = first_labelled(more, label);
            if first_more < last {
                assert(groups[first_more].label == label);
            }
        }
    }
    assert(after =~= expected);
}

/// Tells whether `names` holds `label`.
fn names_hold(names: &Vec<&str>, label: &str) -> (held: bool)
    ensures
        held == names.deep_view().contains(label@),
{
    let mut i: usize = 0;
    while i < names.len()
        invariant
            i <= names.len(),
            forall|j: int| 0 <= j < i ==> #[trigger] names.deep_view()[j] != label@,
        decreases names.len() - i,
    {
        assert(names.deep_view()[i as int] == names@[i as int]@);
        if same_id(names[i], label) {
            return true;
        }
        i = i + 1;
    }
    false
}

/// Cuts a bulk listing of groups down to the labels of `hsm_name_vec` and
/// turns it into a map from label to members. A wanted label that no group
/// carries is absent from the map; of several groups with one label the first
/// counts.
pub fn filter_and_convert_to_map(hsm_name_vec: Vec<&str>, hsm_group_vec: Vec<Group>) -> (map:
    GroupMap)
    ensures
        map@ == filtered_map(hsm_name_vec.deep_view(), hsm_group_vec.deep_view()),
{
    let ghost names = hsm_name_vec.deep_view();
    let ghost listing = hsm_group_vec.deep_view();
    let mut map = GroupMap::new();
    assert(filtered_map(names, listing.take(0)) =~= map@);
    for group in it: hsm_group_vec
        invariant
            names == hsm_name_vec.deep_view(),
            listing.len() == it.seq().len(),
            forall|j: int| 0 <= j < listing.len() ==> #[trigger] listing[j] == it.seq()[j].deep_view(),
            map@ == filtered_map(names, listing.take(it.index() as int)),
    {
        proof {
            let seen = listing.take(it.index() as int);
            lemma_filtered_map_push(names, seen, group.deep_view());
            assert(listing.take(it.index() + 1) =~= seen.push(group.deep_view()));
        }
        if names_hold(&hsm_name_vec, group.label.as_str()) && !map.contains_key(
            group.label.as_str(),
        ) {
            map.insert(group.label, group.members);
        }
    }
    assert(listing.take(listing.len() as int) =~= listing);
    map
}

/// The labels of `groups`, in their order.
pub fn group_labels(groups: &Vec<Group>) -> (labels: Vec<String>)
    ensures
        labels.deep_view() == groups.deep_view().map_values(|group: GroupView| group.label),
{
    let ghost wanted = groups.deep_view().map_values(|group: GroupView| group.label);
    let mut labels: Vec<String> = Vec::new();
    let mut n: usize = 0;
    while n < groups.len()
        invariant
            n <= groups.len(),
            wanted == groups.deep_view().map_values(|group: GroupView| group.label),
            labels.len() == n,
            forall|i: int| 0 <= i < n ==> #[trigger] labels.deep_view()[i] == wanted[i],
        decreases groups.len() - n,
    {
        let ghost before = labels.deep_view();
        assert(wanted[n as int] == groups@[n as int].label@);
        labels.push(groups[n].label.clone());
        assert forall|i: int| 0 <= i < n + 1 implies #[trigger] labels.deep_view()[i]
            == wanted[i] by {
            if i < n {
                assert(labels.deep_view()[i] == before[i]);
            }
        }
        n = n + 1;
    }
    assert(labels.deep_view() =~= wanted);
    labels
}

} // verus!
