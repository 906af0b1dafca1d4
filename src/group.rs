//! The keybinding aggregator: the bindings of a mode, grouped by the display
//! record of what they do, in left-to-right order.
use vstd::prelude::*;

use crate::action::{Action, ActionRecord, RecordView, classify, record_of};
use crate::text::{
    lemma_text_before_irreflexive, lemma_text_before_total, lemma_text_before_transitive,
    text_before, text_less, texts_sorted,
};

verus! {

broadcast use vstd::seq_lib::group_to_multiset_ensures;

/// A key chord, in text form, and the actions it runs; only the first action
/// counts for display.
#[derive(Clone, Debug, PartialEq, Eq)]
pub struct KeyBinding {
    pub chord: String,
    pub actions: Vec<Action>,
}

pub ghost struct BindingView {
    pub chord: Seq<char>,
    pub actions: Seq<Action>,
}

impl View for KeyBinding {
    type V = BindingView;

    open spec fn view(&self) -> BindingView {
        BindingView { chord: self.chord@, actions: self.actions@ }
    }
}

impl DeepView for KeyBinding {
    type V = BindingView;

    open spec fn deep_view(&self) -> BindingView {
        self@
    }
}

/// A display record and the key texts, ascending, of every chord whose first
/// action has that record. A text of more than one character carries a
/// trailing `/`.
#[derive(Clone, Debug, PartialEq, Eq)]
pub struct KeyGroup {
    pub record: ActionRecord,
    pub keys: Vec<String>,
}

pub ghost struct GroupView {
    pub record: RecordView,
    pub keys: Seq<Seq<char>>,
}

impl View for KeyGroup {
    type V = GroupView;

    open spec fn view(&self) -> GroupView {
        GroupView { record: self.record@, keys: self.keys.deep_view() }
    }
}

impl DeepView for KeyGroup {
    type V = GroupView;

    open spec fn deep_view(&self) -> GroupView {
        self@
    }
}

/// The record a binding is shown under; a binding without actions is not shown.
pub open spec fn binding_record(b: BindingView) -> Option<RecordView> {
    if b.actions.len() > 0 {
        Some(record_of(b.actions[0]))
    } else {
        None
    }
}

/// The text a chord contributes to its group: a chord of more than one
/// character gets a `/` after it, to part it from the next.
pub open spec fn chord_entry(c: Seq<char>) -> Seq<char> {
    if c.len() > 1 {
        c.push('/')
    } else {
        c
    }
}

/// Some binding of the table is shown under record `r`.
pub open spec fn occurs(t: Seq<BindingView>, r: RecordView) -> bool {
    exists|i: int| 0 <= i < t.len() && #[trigger] binding_record(t[i]) == Some(r)
}

/// The position of the first binding of the table shown under record `r`.
pub open spec fn first_index(t: Seq<BindingView>, r: RecordView) -> nat
    decreases t.len(),
{
    if t.len() == 0 {
        0
    } else if binding_record(t[0]) == Some(r) {
        0
    } else {
        1 + first_index(t.drop_first(), r)
    }
}

/// The entries, in table order, of the bindings shown under record `r`.
pub open spec fn entries_for(t: Seq<BindingView>, r: RecordView) -> Seq<Seq<char>>
    decreases t.len(),
{
    if t.len() == 0 {
        seq![]
    } else if binding_record(t.last()) == Some(r) {
        entries_for(t.drop_last(), r).push(chord_entry(t.last().chord))
    } else {
        entries_for(t.drop_last(), r)
    }
}

/// The group of record `a` stands left of that of record `b`: lower rank first,
/// and on equal ranks the record met first in the table.
pub open spec fn precedes(t: Seq<BindingView>, a: RecordView, b: RecordView) -> bool {
    a.sort < b.sort || (a.sort == b.sort && first_index(t, a) < first_index(t, b))
}

/// `g` is the grouping of table `t`: one group for each record that some binding
/// is shown under and for no other, ordered by `precedes`, each holding exactly
/// the entries of its bindings in ascending order.
pub open spec fn is_grouping(t: Seq<BindingView>, g: Seq<GroupView>) -> bool {
    &&& forall|j: int| 0 <= j < g.len() ==> occurs(t, #[trigger] g[j].record)
    &&& forall|i: int|
        0 <= i < t.len() && (#[trigger] binding_record(t[i])) is Some ==> exists|j: int|
            0 <= j < g.len() && Some(#[trigger] g[j].record) == binding_record(t[i])
    &&& forall|j: int, k: int|
        0 <= j < k < g.len() ==> precedes(t, #[trigger] g[j].record, #[trigger] g[k].record)
    &&& forall|j: int|
        0 <= j < g.len() ==> texts_sorted(#[trigger] g[j].keys) && g[j].keys.to_multiset()
            == entries_for(t, g[j].record).to_multiset()
}

proof fn lemma_first_index_found(t: Seq<BindingView>, r: RecordView)
    requires
        occurs(t, r),
    ensures
        first_index(t, r) < t.len(),
        binding_record(t[first_index(t, r) as int]) == Some(r),
    decreases t.len(),
{
    if binding_record(t[0]) != Some(r) {
        let i = choose|i: int| 0 <= i < t.len() && #[trigger] binding_record(t[i]) == Some(r);
        assert(binding_record(t.drop_first()[i - 1]) == Some(r));
        lemma_first_index_found(t.drop_first(), r);
    }
}

proof fn lemma_first_index_push(t: Seq<BindingView>, b: BindingView, r: RecordView)
    ensures
        occurs(t, r) ==> first_index(t.push(b), r) == first_index(t, r),
        !occurs(t, r) ==> first_index(t.push(b), r) == first_index(t, r) + (
        if binding_record(b) == Some(r) {
            0int
        } else {
            1int
        }),
        !occurs(t, r) ==> first_index(t, r) == t.len(),
    decreases t.len(),
{
    if t.len() > 0 {
        assert(t.push(b).drop_first() =~= t.drop_first().push(b));
        lemma_first_index_push(t.drop_first(), b, r);
        if binding_record(t[0]) != Some(r) {
            if occurs(t, r) {
                let i = choose|i: int| 0 <= i < t.len() && #[trigger] binding_record(t[i]) == Some(r);
                assert(binding_record(t.drop_first()[i - 1]) == Some(r));
            }
            if occurs(t.drop_first(), r) {
                let i = choose|i: int|
                    0 <= i < t.drop_first().len() && #[trigger] binding_record(t.drop_first()[i])
                        == Some(r);
                assert(binding_record(t[i + 1]) == Some(r));
            }
        } else {
            assert(binding_record(t[0]) == Some(r));
        }
    } else {
        assert(t.push(b)[0] == b);
        assert(t.push(b).drop_first() =~= t);
    }
}

proof fn lemma_entries_absent(t: Seq<BindingView>, r: RecordView)
    requires
        !occurs(t, r),
    ensures
        entries_for(t, r) == Seq::<Seq<char>>::empty(),
    decreases t.len(),
{
    if t.len() > 0 {
        assert(binding_record(t[t.len() - 1]) != Some(r));
        assert forall|i: int| 0 <= i < t.drop_last().len() implies #[trigger] binding_record(
            t.drop_last()[i],
        ) != Some(r) by {
            assert(binding_record(t[i]) != Some(r));
        }
        lemma_entries_absent(t.drop_last(), r);
    }
}

proof fn lemma_entries_push(t: Seq<BindingView>, b: BindingView, r: RecordView)
    ensures
        entries_for(t.push(b), r) == if binding_record(b) == Some(r) {
            entries_for(t, r).push(chord_entry(b.chord))
        } else {
            entries_for(t, r)
        },
{
    assert(t.push(b).drop_last() =~= t);
}

/// The key text of a chord, with the separator that parts a long chord from the
/// next.
pub fn chord_text(chord: &String) -> (r: String)
    ensures
        r@ == chord_entry(chord@),
{
    let mut s = chord.clone();
    if chord.as_str().unicode_len() > 1 {
        proof {
            reveal_strlit("/");
        }
        s.append("/");
        assert(s@ =~= chord@.push('/'));
    }
    s
}

/// Whether two display records are the same: records are equal when label, icon
/// and rank are.
pub fn same_record(a: &ActionRecord, b: &ActionRecord) -> (r: bool)
    ensures
        r == (a@ == b@),
{
    a.sort == b.sort && a.label == b.label && a.icon == b.icon
}

/// Puts `entry` into ascending `keys` at its place.
fn insert_key(keys: &mut Vec<String>, entry: String)
    requires
        texts_sorted(old(keys).deep_view()),
    ensures
        texts_sorted(final(keys).deep_view()),
        final(keys).deep_view().to_multiset() == old(keys).deep_view().to_multiset().insert(entry@),
{
    let ghost before = keys.deep_view();
    let mut p: usize = 0;
    while p < keys.len()
        invariant
            p <= keys.len(),
            keys.deep_view() == before,
            texts_sorted(before),
            forall|k: int| 0 <= k < p ==> !text_before(entry@, #[trigger] before[k]),
        ensures
            p <= keys.len(),
            forall|k: int| 0 <= k < p ==> !text_before(entry@, #[trigger] before[k]),
            p < keys.len() ==> text_before(entry@, before[p as int]),
        decreases keys.len() - p,
    {
        if text_less(entry.as_str(), keys[p].as_str()) {
            break;
        }
        p = p + 1;
    }
    let ghost e = entry@;
    proof {
        assert forall|k: int| p <= k < before.len() implies !text_before(
            #[trigger] before[k],
            e,
        ) by {
            if text_before(before[k], e) {
                if k == p {
                    lemma_text_before_transitive(before[k], e, before[k]);
                    lemma_text_before_irreflexive(before[k]);
                } else {
                    assert(before.len() == keys.len());
                    assert(!text_before(before[k], before[p as int]));
                    lemma_text_before_transitive(before[k], e, before[p as int]);
                }
            }
        }
    }
    keys.insert(p, entry);
    let ghost after = before.insert(p as int, e);
    assert(keys.deep_view() =~= after);
    assert forall|i: int, j: int| 0 <= i < j < after.len() implies !text_before(
        #[trigger] after[j],
        #[trigger] after[i],
    ) by {
        if j < p {
        } else if j == p {
        } else if i < p {
            assert(after[j] == before[j - 1]);
        } else if i == p {
            assert(after[j] == before[j - 1]);
        } else {
            assert(after[j] == before[j - 1]);
            assert(after[i] == before[i - 1]);
        }
    }
}

/// The position of the group holding record `rec`, if there is one.
fn find_group(groups: &Vec<KeyGroup>, rec: &ActionRecord) -> (r: Option<usize>)
    ensures
        r matches Some(j) ==> j < groups@.len() && groups@[j as int].record@ == rec@,
        r is None ==> forall|j: int| 0 <= j < groups@.len() ==> groups@[j].record@ != rec@,
{
    let mut j: usize = 0;
    while j < groups.len()
        invariant
            j <= groups@.len(),
            forall|k: int| 0 <= k < j ==> groups@[k].record@ != rec@,
        decreases groups.len() - j,
    {
        if same_record(&groups[j].record, rec) {
            return Some(j);
        }
        j = j + 1;
    }
    None
}

/// The position at which a new group of rank `sort` goes: after every group of
/// rank at most `sort`, before every group of a higher one.
fn insertion_point(groups: &Vec<KeyGroup>, sort: u64) -> (p: usize)
    requires
        forall|j: int, k: int|
            0 <= j < k < groups@.len() ==> #[trigger] groups@[j].record.sort
                <= #[trigger] groups@[k].record.sort,
    ensures
        p <= groups@.len(),
        forall|k: int| 0 <= k < p ==> #[trigger] groups@[k].record.sort <= sort,
        forall|k: int| p <= k < groups@.len() ==> #[trigger] groups@[k].record.sort > sort,
{
    let mut p: usize = 0;
    while p < groups.len()
        invariant
            p <= groups@.len(),
            forall|k: int| 0 <= k < p ==> #[trigger] groups@[k].record.sort <= sort,
        ensures
            p <= groups@.len(),
            forall|k: int| 0 <= k < p ==> #[trigger] groups@[k].record.sort <= sort,
            p < groups@.len() ==> groups@[p as int].record.sort > sort,
        decreases groups.len() - p,
    {
        if groups[p].record.sort > sort {
            break;
        }
        p = p + 1;
    }
    p
}

/// Adds one binding of the table to the grouping of the bindings before it.
fn add_binding(groups: &mut Vec<KeyGroup>, Ghost(t): Ghost<Seq<BindingView>>, b: &KeyBinding)
    requires
        is_grouping(t, old(groups).deep_view()),
    ensures
        is_grouping(t.push(b@), final(groups).deep_view()),
{
    let ghost t2 = t.push(b@);
    let ghost g0 = groups.deep_view();
    if b.actions.len() == 0 {
        assert(binding_record(b@) is None);
        assert forall|r: RecordView| occurs(t, r) implies occurs(t2, r)
            && first_index(t2, r) == first_index(t, r) && entries_for(t2, r) == entries_for(
            t,
            r,
        ) by {
            let i = choose|i: int| 0 <= i < t.len() && #[trigger] binding_record(t[i]) == Some(r);
            assert(binding_record(t2[i]) == Some(r));
            lemma_first_index_push(t, b@, r);
            lemma_entries_push(t, b@, r);
        }
        assert forall|i: int| 0 <= i < t2.len() && (#[trigger] binding_record(t2[i])) is Some implies exists|j: int|
            0 <= j < g0.len() && Some(#[trigger] g0[j].record) == binding_record(t2[i]) by {
            assert(i < t.len());
            assert(t2[i] == t[i]);
        }
        return;
    }
    let rec = classify(&b.actions[0]);
    let entry = chord_text(&b.chord);
    assert(binding_record(b@) == Some(rec@));
    let ghost r0 = rec@;
    // every record already grouped keeps its first position and gains no entry
    // unless it is the binding's own
    assert forall|r: RecordView| occurs(t, r) implies occurs(t2, r) && first_index(t2, r)
        == first_index(t, r) && first_index(t, r) < t.len() && entries_for(t2, r) == (if r == r0 {
        entries_for(t, r).push(chord_entry(b@.chord))
    } else {
        entries_for(t, r)
    }) by {
        let i = choose|i: int| 0 <= i < t.len() && #[trigger] binding_record(t[i]) == Some(r);
        assert(binding_record(t2[i]) == Some(r));
        lemma_first_index_push(t, b@, r);
        lemma_first_index_found(t, r);
        lemma_entries_push(t, b@, r);
    }
    assert(binding_record(t2[t.len() as int]) == Some(r0));
    match find_group(groups, &rec) {
        Some(j) => {
            assert(g0[j as int].record == r0);
            assert(occurs(t, g0[j as int].record));
            assert(texts_sorted(g0[j as int].keys));
            let mut g = groups.remove(j);
            assert(g@ == g0[j as int]);
            insert_key(&mut g.keys, entry);
            groups.insert(j, g);
            let ghost g1 = groups.deep_view();
            assert(g1 =~= g0.update(j as int, g1[j as int]));
            assert(occurs(t, r0));
            assert forall|i: int| 0 <= i < t2.len() && (#[trigger] binding_record(t2[i])) is Some implies exists|k: int|
                0 <= k < g1.len() && Some(#[trigger] g1[k].record) == binding_record(t2[i]) by {
                if i < t.len() {
                    assert(t2[i] == t[i]);
                    let k = choose|k: int|
                        0 <= k < g0.len() && Some(#[trigger] g0[k].record) == binding_record(t[i]);
                    assert(g1[k].record == g0[k].record);
                } else {
                    assert(g1[j as int].record == r0);
                }
            }
            assert forall|k: int| 0 <= k < g1.len() implies occurs(t2, #[trigger] g1[k].record) by {
                assert(g1[k].record == g0[k].record);
            }
            assert forall|k1: int, k2: int| 0 <= k1 < k2 < g1.len() implies precedes(
                t2,
                #[trigger] g1[k1].record,
                #[trigger] g1[k2].record,
            ) by {
                assert(g1[k1].record == g0[k1].record);
                assert(g1[k2].record == g0[k2].record);
                assert(precedes(t, g0[k1].record, g0[k2].record));
                assert(occurs(t, g0[k1].record));
                assert(occurs(t, g0[k2].record));
            }
            assert forall|k: int| 0 <= k < g1.len() implies texts_sorted(#[trigger] g1[k].keys)
                && g1[k].keys.to_multiset() == entries_for(t2, g1[k].record).to_multiset() by {
                assert(occurs(t, g0[k].record));
                if k == j {
                    assert(entries_for(t2, r0).to_multiset() == entries_for(t, r0).to_multiset().insert(
                        chord_entry(b@.chord),
                    ));
                }
            }
        },
        None => {
            assert(!occurs(t, r0)) by {
                if occurs(t, r0) {
                    let i = choose|i: int| 0 <= i < t.len() && #[trigger] binding_record(t[i]) == Some(r0);
                    let k = choose|k: int|
                        0 <= k < g0.len() && Some(#[trigger] g0[k].record) == binding_record(t[i]);
                }
            }
            proof {
                lemma_first_index_push(t, b@, r0);
                lemma_entries_push(t, b@, r0);
                lemma_entries_absent(t, r0);
            }
            assert forall|j: int, k: int|
                0 <= j < k < groups@.len() implies #[trigger] groups@[j].record.sort
                    <= #[trigger] groups@[k].record.sort by {
                assert(precedes(t, g0[j].record, g0[k].record));
            }
            let p = insertion_point(groups, rec.sort);
            let mut keys: Vec<String> = Vec::new();
            keys.push(entry);
            let ghost kv = keys.deep_view();
            assert(kv =~= seq![chord_entry(b@.chord)]);
            assert(entries_for(t2, r0) =~= seq![chord_entry(b@.chord)]);
            groups.insert(p, KeyGroup { record: rec, keys });
            let ghost g1 = groups.deep_view();
            assert(g1 =~= g0.insert(p as int, GroupView { record: r0, keys: kv }));
            assert forall|i: int| 0 <= i < t2.len() && (#[trigger] binding_record(t2[i])) is Some implies exists|k: int|
                0 <= k < g1.len() && Some(#[trigger] g1[k].record) == binding_record(t2[i]) by {
                if i < t.len() {
                    assert(t2[i] == t[i]);
                    let k = choose|k: int|
                        0 <= k < g0.len() && Some(#[trigger] g0[k].record) == binding_record(t[i]);
                    if k < p {
                        assert(g1[k].record == g0[k].record);
                    } else {
                        assert(g1[k + 1].record == g0[k].record);
                    }
                } else {
                    assert(g1[p as int].record == r0);
                }
            }
            assert forall|k: int| 0 <= k < g1.len() implies occurs(t2, #[trigger] g1[k].record) by {
                if k < p {
                    assert(g1[k].record == g0[k].record);
                } else if k > p {
                    assert(g1[k].record == g0[k - 1].record);
                }
            }
            assert forall|k1: int, k2: int| 0 <= k1 < k2 < g1.len() implies precedes(
                t2,
                #[trigger] g1[k1].record,
                #[trigger] g1[k2].record,
            ) by {
                if k1 < p {
                    assert(g1[k1].record == g0[k1].record);
                    assert(occurs(t, g0[k1].record));
                    if k2 < p {
                        assert(g1[k2].record == g0[k2].record);
                        assert(occurs(t, g0[k2].record));
                        assert(precedes(t, g0[k1].record, g0[k2].record));
                    } else if k2 == p {
                    } else {
                        assert(g1[k2].record == g0[k2 - 1].record);
                        assert(occurs(t, g0[k2 - 1].record));
                        assert(precedes(t, g0[k1].record, g0[k2 - 1].record));
                    }
                } else if k1 == p {
                    assert(g1[k2].record == g0[k2 - 1].record);
                    assert(g0[k2 - 1].record.sort > r0.sort);
                } else {
                    assert(g1[k1].record == g0[k1 - 1].record);
                    assert(g1[k2].record == g0[k2 - 1].record);
                    assert(occurs(t, g0[k1 - 1].record));
                    assert(occurs(t, g0[k2 - 1].record));
                    assert(precedes(t, g0[k1 - 1].record, g0[k2 - 1].record));
                }
            }
            assert forall|k: int| 0 <= k < g1.len() implies texts_sorted(#[trigger] g1[k].keys)
                && g1[k].keys.to_multiset() == entries_for(t2, g1[k].record).to_multiset() by {
                if k < p {
                    assert(g1[k] == g0[k]);
                    assert(occurs(t, g0[k].record));
                } else if k > p {
                    assert(g1[k] == g0[k - 1]);
                    assert(occurs(t, g0[k - 1].record));
                }
            }
        },
    }
}

/// Groups the bindings of a mode by the display record of their first action.
/// There is one group per record that some binding is shown under; groups go
/// by ascending rank, and on equal ranks by where their first binding stands in
/// the table; each group holds the texts of its chords in ascending order.
pub fn aggregate(table: &Vec<KeyBinding>) -> (r: Vec<KeyGroup>)
    ensures
        is_grouping(table.deep_view(), r.deep_view()),
        r.deep_view() == grouping_of(table.deep_view()),
{
    let mut groups: Vec<KeyGroup> = Vec::new();
    let ghost t = table.deep_view();
    let mut i: usize = 0;
    assert(groups.deep_view() =~= Seq::<GroupView>::empty());
    while i < table.len()
        invariant
            i <= table.len(),
            t == table.deep_view(),
            is_grouping(t.take(i as int), groups.deep_view()),
        decreases table.len() - i,
    {
        assert(t.take(i as int).push(table[i as int]@) =~= t.take(i + 1));
        add_binding(&mut groups, Ghost(t.take(i as int)), &table[i]);
        i = i + 1;
    }
    assert(t.take(i as int) =~= t);
    proof {
        lemma_grouping_of(t, groups.deep_view());
    }
    groups
}

/// Two ascending sequences of texts with the same members are the same.
proof fn lemma_sorted_texts_unique(a: Seq<Seq<char>>, b: Seq<Seq<char>>)
    requires
        texts_sorted(a),
        texts_sorted(b),
        a.to_multiset() == b.to_multiset(),
    ensures
        a == b,
    decreases a.len(),
{
    a.to_multiset_ensures();
    b.to_multiset_ensures();
    if a.len() == 0 {
        assert(b.len() == 0);
        assert(a =~= b);
    } else {
        assert(b.len() == a.len());
        assert(b.to_multiset().count(a[0]) > 0);
        assert(a.to_multiset().count(b[0]) > 0);
        let k = choose|k: int| 0 <= k < b.len() && b[k] == a[0];
        let m = choose|m: int| 0 <= m < a.len() && a[m] == b[0];
        if a[0] != b[0] {
            assert(m != 0);
            assert(!text_before(a[m], a[0]));
            assert(k != 0);
            assert(!text_before(b[k], b[0]));
            lemma_text_before_total(a[0], b[0]);
        }
        assert(a.drop_first() =~= a.remove(0));
        assert(b.drop_first() =~= b.remove(0));
        vstd::seq_lib::to_multiset_remove(a, 0);
        vstd::seq_lib::to_multiset_remove(b, 0);
        lemma_sorted_texts_unique(a.drop_first(), b.drop_first());
        assert(a =~= seq![a[0]] + a.drop_first());
        assert(b =~= seq![b[0]] + b.drop_first());
    }
}

/// Two sequences of records, each strictly ordered by `precedes`, with the same
/// members, are the same.
proof fn lemma_ordered_records_unique(t: Seq<BindingView>, a: Seq<RecordView>, b: Seq<RecordView>)
    requires
        forall|j: int, k: int| 0 <= j < k < a.len() ==> precedes(t, #[trigger] a[j], #[trigger] a[k]),
        forall|j: int, k: int| 0 <= j < k < b.len() ==> precedes(t, #[trigger] b[j], #[trigger] b[k]),
        forall|j: int| 0 <= j < a.len() ==> b.contains(#[trigger] a[j]),
        forall|j: int| 0 <= j < b.len() ==> a.contains(#[trigger] b[j]),
    ensures
        a == b,
    decreases a.len() + b.len(),
{
    if a.len() == 0 {
        if b.len() > 0 {
            assert(a.contains(b[0]));
        }
        assert(a =~= b);
    } else if b.len() == 0 {
        assert(b.contains(a[0]));
    } else {
        assert(b.contains(a[0]));
        assert(a.contains(b[0]));
        let k = choose|k: int| 0 <= k < b.len() && b[k] == a[0];
        let m = choose|m: int| 0 <= m < a.len() && a[m] == b[0];
        if k != 0 {
            assert(precedes(t, b[0], b[k]));
            if m == 0 {
                assert(precedes(t, b[k], b[k]));
            } else {
                assert(precedes(t, a[0], a[m]));
            }
        }
        let a1 = a.drop_first();
        let b1 = b.drop_first();
        assert forall|j: int| 0 <= j < a1.len() implies b1.contains(#[trigger] a1[j]) by {
            assert(b.contains(a[j + 1]));
            let q = choose|q: int| 0 <= q < b.len() && b[q] == a[j + 1];
            assert(precedes(t, a[0], a[j + 1]));
            assert(q != 0);
            assert(b1[q - 1] == a1[j]);
        }
        assert forall|j: int| 0 <= j < b1.len() implies a1.contains(#[trigger] b1[j]) by {
            assert(a.contains(b[j + 1]));
            let q = choose|q: int| 0 <= q < a.len() && a[q] == b[j + 1];
            assert(precedes(t, b[0], b[j + 1]));
            assert(q != 0);
            assert(a1[q - 1] == b1[j]);
        }
        assert forall|j: int, l: int| 0 <= j < l < a1.len() implies precedes(
            t,
            #[trigger] a1[j],
            #[trigger] a1[l],
        ) by {
            assert(precedes(t, a[j + 1], a[l + 1]));
        }
        assert forall|j: int, l: int| 0 <= j < l < b1.len() implies precedes(
            t,
            #[trigger] b1[j],
            #[trigger] b1[l],
        ) by {
            assert(precedes(t, b[j + 1], b[l + 1]));
        }
        lemma_ordered_records_unique(t, a1, b1);
        assert(a =~= seq![a[0]] + a1);
        assert(b =~= seq![b[0]] + b1);
    }
}

/// The records of a grouping, left to right.
pub open spec fn group_records(g: Seq<GroupView>) -> Seq<RecordView> {
    g.map_values(|x: GroupView| x.record)
}

/// Grouping is a function of the table: two groupings of one table hold the
/// same groups, with the same keys, in the same order. So aggregating a table
/// twice gives the same result.
pub proof fn lemma_grouping_unique(t: Seq<BindingView>, g1: Seq<GroupView>, g2: Seq<GroupView>)
    requires
        is_grouping(t, g1),
        is_grouping(t, g2),
    ensures
        g1 == g2,
{
    let a = group_records(g1);
    let b = group_records(g2);
    assert forall|j: int| 0 <= j < a.len() implies b.contains(#[trigger] a[j]) by {
        assert(occurs(t, g1[j].record));
        let i = choose|i: int| 0 <= i < t.len() && #[trigger] binding_record(t[i]) == Some(g1[j].record);
        let k = choose|k: int| 0 <= k < g2.len() && Some(#[trigger] g2[k].record) == binding_record(t[i]);
        assert(b[k] == a[j]);
    }
    assert forall|j: int| 0 <= j < b.len() implies a.contains(#[trigger] b[j]) by {
        assert(occurs(t, g2[j].record));
        let i = choose|i: int| 0 <= i < t.len() && #[trigger] binding_record(t[i]) == Some(g2[j].record);
        let k = choose|k: int| 0 <= k < g1.len() && Some(#[trigger] g1[k].record) == binding_record(t[i]);
        assert(a[k] == b[j]);
    }
    assert forall|j: int, k: int| 0 <= j < k < a.len() implies precedes(t, #[trigger] a[j], #[trigger] a[k]) by {
        assert(precedes(t, g1[j].record, g1[k].record));
    }
    assert forall|j: int, k: int| 0 <= j < k < b.len() implies precedes(t, #[trigger] b[j], #[trigger] b[k]) by {
        assert(precedes(t, g2[j].record, g2[k].record));
    }
    lemma_ordered_records_unique(t, a, b);
    assert forall|j: int| 0 <= j < g1.len() implies g1[j] == g2[j] by {
        assert(a[j] == b[j]);
        assert(texts_sorted(g1[j].keys));
        assert(texts_sorted(g2[j].keys));
        lemma_sorted_texts_unique(g1[j].keys, g2[j].keys);
    }
    assert(g1 =~= g2);
}

/// The grouping of a table.
pub open spec fn grouping_of(t: Seq<BindingView>) -> Seq<GroupView> {
    choose|g: Seq<GroupView>| is_grouping(t, g)
}

/// The grouping that `aggregate` computes is the grouping of the table.
pub proof fn lemma_grouping_of(t: Seq<BindingView>, g: Seq<GroupView>)
    requires
        is_grouping(t, g),
    ensures
        grouping_of(t) == g,
{
    lemma_grouping_unique(t, grouping_of(t), g);
}

} // verus!
