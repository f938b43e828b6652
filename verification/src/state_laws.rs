//! Properties of the browsing state that hold across its operations.
use vstd::prelude::*;

use crate::domain::{
    first_note_for_topic, first_note_from, initial_state, note_exists, note_ids, spec_apply_refresh,
    spec_navigate_back, spec_navigate_forward, spec_select_note, spec_select_note_with_history,
    spec_select_topic, spec_toggle_topic, topic_exists, topic_for_note, topic_for_note_from,
    AppStateView, SnapshotView,
};

verus! {

/// The browsing state refers only to what exists: expanded and selected
/// topics exist; a selected note exists and its topic is the selected
/// topic; every history entry names an existing note.
pub open spec fn consistent(s: AppStateView) -> bool {
    &&& forall|id: Seq<char>| #[trigger]
        s.expanded_topic_ids.contains(id) ==> topic_exists(s.topics, id)
    &&& s.selected_topic_id is Some ==> topic_exists(s.topics, s.selected_topic_id->Some_0)
    &&& s.selected_note_id is Some ==> {
        &&& note_exists(s.topics, s.selected_note_id->Some_0)
        &&& s.selected_topic_id == topic_for_note(s.topics, s.selected_note_id->Some_0)
    }
    &&& forall|i: int| 0 <= i < s.history_back.len() ==> note_exists(s.topics, #[trigger] s.history_back[i])
    &&& forall|i: int|
        0 <= i < s.history_forward.len() ==> note_exists(s.topics, #[trigger] s.history_forward[i])
}

/// No note id occurs in two different topics.
pub open spec fn note_ids_unique(ts: Seq<SnapshotView>) -> bool {
    forall|i: int, j: int, n: Seq<char>|
        0 <= i < ts.len() && 0 <= j < ts.len() && #[trigger] note_ids(ts[i]).contains(n)
            && #[trigger] note_ids(ts[j]).contains(n) ==> i == j
}

proof fn lemma_topic_for_note_witness(ts: Seq<SnapshotView>, n: Seq<char>, i: int) -> (k: int)
    requires
        0 <= i,
        topic_for_note_from(ts, n, i) is Some,
    ensures
        i <= k < ts.len(),
        note_ids(ts[k]).contains(n),
        topic_for_note_from(ts, n, i) == Some(ts[k].topic.id),
    decreases ts.len() - i,
{
    if note_ids(ts[i]).contains(n) {
        i
    } else {
        lemma_topic_for_note_witness(ts, n, i + 1)
    }
}

proof fn lemma_topic_for_note_unique(ts: Seq<SnapshotView>, n: Seq<char>, i: int, k: int)
    requires
        note_ids_unique(ts),
        0 <= i <= k < ts.len(),
        note_ids(ts[k]).contains(n),
    ensures
        topic_for_note_from(ts, n, i) == Some(ts[k].topic.id),
    decreases ts.len() - i,
{
    if note_ids(ts[i]).contains(n) {
        assert(i == k);
    } else {
        lemma_topic_for_note_unique(ts, n, i + 1, k);
    }
}

proof fn lemma_first_note_witness(ts: Seq<SnapshotView>, t: Seq<char>, i: int) -> (k: int)
    requires
        0 <= i,
        first_note_from(ts, t, i) is Some,
    ensures
        i <= k < ts.len(),
        ts[k].topic.id == t,
        ts[k].notes.len() > 0,
        first_note_from(ts, t, i) == Some(ts[k].notes[0].id),
    decreases ts.len() - i,
{
    if ts[i].topic.id == t {
        i
    } else {
        lemma_first_note_witness(ts, t, i + 1)
    }
}

/// A note found in a topic: the topic exists and the note exists.
proof fn lemma_found_note(ts: Seq<SnapshotView>, n: Seq<char>)
    requires
        topic_for_note(ts, n) is Some,
    ensures
        topic_exists(ts, topic_for_note(ts, n)->Some_0),
{
    let k = lemma_topic_for_note_witness(ts, n, 0);
    assert(ts[k].topic.id == topic_for_note(ts, n)->Some_0);
}

/// The state built for scanned topics is consistent.
pub proof fn law_initial_state_consistent(ts: Seq<SnapshotView>)
    ensures
        consistent(initial_state(ts)),
{
    let s = initial_state(ts);
    if ts.len() > 0 {
        assert(ts[0].topic.id == ts[0].topic.id);
        assert(topic_exists(ts, ts[0].topic.id));
        if ts[0].notes.len() > 0 {
            assert(note_ids(ts[0])[0] == ts[0].notes[0].id);
            assert(note_ids(ts[0]).contains(ts[0].notes[0].id));
        }
    }
}

/// Selecting a note keeps a consistent state consistent.
proof fn lemma_select_consistent(s: AppStateView, n: Seq<char>, record: bool)
    requires
        consistent(s),
    ensures
        consistent(spec_select_note_with_history(s, n, record)),
{
    let r = spec_select_note_with_history(s, n, record);
    if topic_for_note(s.topics, n) is Some {
        lemma_found_note(s.topics, n);
        if record && s.selected_note_id != Some(n) && s.selected_note_id is Some {
            assert forall|i: int| 0 <= i < r.history_back.len() implies note_exists(
                r.topics,
                #[trigger] r.history_back[i],
            ) by {
                if i < s.history_back.len() {
                    assert(r.history_back[i] == s.history_back[i]);
                }
            }
        }
    }
}

/// Every operation on the browsing state keeps it consistent.
pub proof fn law_operations_keep_consistency(s: AppStateView, id: Seq<char>)
    requires
        consistent(s),
    ensures
        consistent(spec_toggle_topic(s, id)),
        consistent(spec_select_topic(s, id)),
        consistent(spec_select_note(s, id)),
        consistent(spec_navigate_back(s).1),
        consistent(spec_navigate_forward(s).1),
{
    lemma_select_consistent(s, id, true);
    lemma_back_consistent(s);
    lemma_forward_consistent(s);
}

proof fn lemma_back_consistent(s: AppStateView)
    requires
        consistent(s),
    ensures
        consistent(spec_navigate_back(s).1),
    decreases s.history_back.len(),
{
    if s.history_back.len() > 0 {
        let note = s.history_back.last();
        let popped = AppStateView { history_back: s.history_back.drop_last(), ..s };
        assert forall|i: int| 0 <= i < popped.history_back.len() implies note_exists(
            popped.topics,
            #[trigger] popped.history_back[i],
        ) by {
            assert(popped.history_back[i] == s.history_back[i]);
        }
        if !note_exists(s.topics, note) {
            lemma_back_consistent(popped);
        } else {
            let moved = AppStateView {
                history_forward: if s.selected_note_id is Some {
                    s.history_forward.push(s.selected_note_id->Some_0)
                } else {
                    s.history_forward
                },
                ..popped
            };
            assert forall|i: int| 0 <= i < moved.history_forward.len() implies note_exists(
                moved.topics,
                #[trigger] moved.history_forward[i],
            ) by {
                if i < s.history_forward.len() {
                    assert(moved.history_forward[i] == s.history_forward[i]);
                }
            }
            lemma_select_consistent(moved, note, false);
        }
    }
}

proof fn lemma_forward_consistent(s: AppStateView)
    requires
        consistent(s),
    ensures
        consistent(spec_navigate_forward(s).1),
    decreases s.history_forward.len(),
{
    if s.history_forward.len() > 0 {
        let note = s.history_forward.last();
        let popped = AppStateView { history_forward: s.history_forward.drop_last(), ..s };
        assert forall|i: int| 0 <= i < popped.history_forward.len() implies note_exists(
            popped.topics,
            #[trigger] popped.history_forward[i],
        ) by {
            assert(popped.history_forward[i] == s.history_forward[i]);
        }
        if !note_exists(s.topics, note) {
            lemma_forward_consistent(popped);
        } else {
            let moved = AppStateView {
                history_back: if s.selected_note_id is Some {
                    s.history_back.push(s.selected_note_id->Some_0)
                } else {
                    s.history_back
                },
                ..popped
            };
            assert forall|i: int| 0 <= i < moved.history_back.len() implies note_exists(
                moved.topics,
                #[trigger] moved.history_back[i],
            ) by {
                if i < s.history_back.len() {
                    assert(moved.history_back[i] == s.history_back[i]);
                }
            }
            lemma_select_consistent(moved, note, false);
        }
    }
}

/// A refresh leaves the state consistent, whatever it was before, provided
/// no note id occurs in two topics of the new scan.
pub proof fn law_refresh_makes_consistent(s: AppStateView, ts: Seq<SnapshotView>)
    requires
        note_ids_unique(ts),
    ensures
        consistent(spec_apply_refresh(s, ts)),
{
    let r = spec_apply_refresh(s, ts);
    let pred = |n: Seq<char>| note_exists(ts, n);
    assert forall|i: int| 0 <= i < r.history_back.len() implies note_exists(
        r.topics,
        #[trigger] r.history_back[i],
    ) by {
        s.history_back.lemma_filter_pred(pred, i);
    }
    assert forall|i: int| 0 <= i < r.history_forward.len() implies note_exists(
        r.topics,
        #[trigger] r.history_forward[i],
    ) by {
        s.history_forward.lemma_filter_pred(pred, i);
    }
    if s.selected_note_id is Some && topic_for_note(ts, s.selected_note_id->Some_0) is Some {
        lemma_found_note(ts, s.selected_note_id->Some_0);
    } else if s.selected_topic_id is Some && topic_exists(ts, s.selected_topic_id->Some_0) {
        let t = s.selected_topic_id->Some_0;
        if first_note_for_topic(ts, t) is Some {
            let k = lemma_first_note_witness(ts, t, 0);
            assert(note_ids(ts[k])[0] == ts[k].notes[0].id);
            assert(note_ids(ts[k]).contains(ts[k].notes[0].id));
            lemma_topic_for_note_unique(ts, ts[k].notes[0].id, 0, k);
        }
    } else {
        law_initial_state_consistent(ts);
    }
}

/// Selecting the same note twice is the same as selecting it once.
pub proof fn law_select_note_idempotent(s: AppStateView, n: Seq<char>)
    ensures
        spec_select_note(spec_select_note(s, n), n) == spec_select_note(s, n),
{
    let s1 = spec_select_note(s, n);
    if topic_for_note(s.topics, n) is Some {
        let t = topic_for_note(s.topics, n)->Some_0;
        assert(s1.expanded_topic_ids.insert(t) =~= s1.expanded_topic_ids);
    }
}

/// Toggling a topic twice restores the expansion, unless the topic is
/// expanded yet does not exist.
pub proof fn law_toggle_twice_restores(s: AppStateView, id: Seq<char>)
    requires
        s.expanded_topic_ids.contains(id) ==> topic_exists(s.topics, id),
    ensures
        spec_toggle_topic(spec_toggle_topic(s, id), id) == s,
{
    if s.expanded_topic_ids.contains(id) {
        assert(s.expanded_topic_ids.remove(id).insert(id) =~= s.expanded_topic_ids);
    } else if topic_exists(s.topics, id) {
        assert(s.expanded_topic_ids.insert(id).remove(id) =~= s.expanded_topic_ids);
    }
}

/// What going back yields: topics unchanged; on success the previous note
/// is on top of the forward history and an existing note is selected
/// together with its topic.
proof fn lemma_back_shape(s: AppStateView)
    ensures
        spec_navigate_back(s).1.topics == s.topics,
        spec_navigate_back(s).0 ==> {
            let r = spec_navigate_back(s).1;
            &&& r.history_forward == (if s.selected_note_id is Some {
                s.history_forward.push(s.selected_note_id->Some_0)
            } else {
                s.history_forward
            })
            &&& r.selected_note_id is Some
            &&& note_exists(s.topics, r.selected_note_id->Some_0)
            &&& r.selected_topic_id == topic_for_note(s.topics, r.selected_note_id->Some_0)
        },
    decreases s.history_back.len(),
{
    if s.history_back.len() > 0 {
        let note = s.history_back.last();
        let popped = AppStateView { history_back: s.history_back.drop_last(), ..s };
        if !note_exists(s.topics, note) {
            lemma_back_shape(popped);
        }
    }
}

proof fn lemma_forward_shape(s: AppStateView)
    ensures
        spec_navigate_forward(s).1.topics == s.topics,
        spec_navigate_forward(s).0 ==> {
            let r = spec_navigate_forward(s).1;
            &&& r.history_back == (if s.selected_note_id is Some {
                s.history_back.push(s.selected_note_id->Some_0)
            } else {
                s.history_back
            })
            &&& r.selected_note_id is Some
            &&& note_exists(s.topics, r.selected_note_id->Some_0)
            &&& r.selected_topic_id == topic_for_note(s.topics, r.selected_note_id->Some_0)
        },
    decreases s.history_forward.len(),
{
    if s.history_forward.len() > 0 {
        let note = s.history_forward.last();
        let popped = AppStateView { history_forward: s.history_forward.drop_last(), ..s };
        if !note_exists(s.topics, note) {
            lemma_forward_shape(popped);
        }
    }
}

/// Going back and then forward returns to the note (and topic) that was
/// selected, with the forward history as it was.
pub proof fn law_back_then_forward_returns(s: AppStateView)
    requires
        consistent(s),
        s.selected_note_id is Some,
        spec_navigate_back(s).0,
    ensures
        ({
            let r = spec_navigate_back(s).1;
            let (ok, r2) = spec_navigate_forward(r);
            &&& ok
            &&& r2.selected_note_id == s.selected_note_id
            &&& r2.selected_topic_id == s.selected_topic_id
            &&& r2.history_forward == s.history_forward
            &&& r2.topics == s.topics
        }),
{
    lemma_back_shape(s);
    let r = spec_navigate_back(s).1;
    let c = s.selected_note_id->Some_0;
    assert(r.history_forward.last() == c);
    assert(r.history_forward.drop_last() == s.history_forward);
}

/// Going forward and then back returns to the note (and topic) that was
/// selected, with the back history as it was.
pub proof fn law_forward_then_back_returns(s: AppStateView)
    requires
        consistent(s),
        s.selected_note_id is Some,
        spec_navigate_forward(s).0,
    ensures
        ({
            let r = spec_navigate_forward(s).1;
            let (ok, r2) = spec_navigate_back(r);
            &&& ok
            &&& r2.selected_note_id == s.selected_note_id
            &&& r2.selected_topic_id == s.selected_topic_id
            &&& r2.history_back == s.history_back
            &&& r2.topics == s.topics
        }),
{
    lemma_forward_shape(s);
    let r = spec_navigate_forward(s).1;
    let c = s.selected_note_id->Some_0;
    assert(r.history_back.last() == c);
    assert(r.history_back.drop_last() == s.history_back);
}

/// Selecting another note and then going back returns to the note (and
/// topic) selected before, with the back history as it was and the other
/// note alone on the forward history.
pub proof fn law_select_then_back_returns(s: AppStateView, n: Seq<char>)
    requires
        consistent(s),
        s.selected_note_id is Some,
        s.selected_note_id != Some(n),
        note_exists(s.topics, n),
    ensures
        ({
            let (ok, r) = spec_navigate_back(spec_select_note(s, n));
            &&& ok
            &&& r.selected_note_id == s.selected_note_id
            &&& r.selected_topic_id == s.selected_topic_id
            &&& r.history_back == s.history_back
            &&& r.history_forward == seq![n]
        }),
{
    let s1 = spec_select_note(s, n);
    let c = s.selected_note_id->Some_0;
    assert(s1.history_back.last() == c);
    assert(s1.history_back.drop_last() == s.history_back);
    assert(Seq::<Seq<char>>::empty().push(n) == seq![n]);
}

/// A refresh in which the selected note still exists keeps it selected and
/// selects and expands the topic that holds it.
pub proof fn law_refresh_keeps_surviving_note(s: AppStateView, ts: Seq<SnapshotView>)
    requires
        s.selected_note_id is Some,
        note_exists(ts, s.selected_note_id->Some_0),
    ensures
        ({
            let r = spec_apply_refresh(s, ts);
            let t = topic_for_note(ts, s.selected_note_id->Some_0);
            &&& r.selected_note_id == s.selected_note_id
            &&& r.selected_topic_id == t
            &&& r.expanded_topic_ids.contains(t->Some_0)
        }),
{
}

/// After a refresh the histories hold exactly the entries that still name a
/// note, in their old order.
pub proof fn law_refresh_prunes_history(s: AppStateView, ts: Seq<SnapshotView>, n: Seq<char>)
    ensures
        spec_apply_refresh(s, ts).history_back.contains(n) <==> (s.history_back.contains(n)
            && note_exists(ts, n)),
        spec_apply_refresh(s, ts).history_forward.contains(n) <==> (s.history_forward.contains(n)
            && note_exists(ts, n)),
{
    let pred = |m: Seq<char>| note_exists(ts, m);
    broadcast use vstd::seq_lib::group_filter_ensures;

    if s.history_back.contains(n) && note_exists(ts, n) {
        let k = choose|k: int| 0 <= k < s.history_back.len() && s.history_back[k] == n;
        s.history_back.lemma_filter_contains(pred, k);
    }
    if spec_apply_refresh(s, ts).history_back.contains(n) {
        let k = choose|k: int|
            0 <= k < s.history_back.filter(pred).len() && s.history_back.filter(pred)[k] == n;
        s.history_back.lemma_filter_pred(pred, k);
        s.history_back.lemma_filter_contains_rev(pred, n);
    }
    if s.history_forward.contains(n) && note_exists(ts, n) {
        let k = choose|k: int| 0 <= k < s.history_forward.len() && s.history_forward[k] == n;
        s.history_forward.lemma_filter_contains(pred, k);
    }
    if spec_apply_refresh(s, ts).history_forward.contains(n) {
        let k = choose|k: int|
            0 <= k < s.history_forward.filter(pred).len() && s.history_forward.filter(pred)[k] == n;
        s.history_forward.lemma_filter_pred(pred, k);
        s.history_forward.lemma_filter_contains_rev(pred, n);
    }
}

/// A refresh keeps every expanded topic that the new scan still has
/// expanded, and expands only topics that the new scan has.
pub proof fn law_refresh_keeps_expansion_of_surviving_topics(
    s: AppStateView,
    ts: Seq<SnapshotView>,
    id: Seq<char>,
)
    ensures
        s.expanded_topic_ids.contains(id) && topic_exists(ts, id) ==> spec_apply_refresh(
            s,
            ts,
        ).expanded_topic_ids.contains(id),
        spec_apply_refresh(s, ts).expanded_topic_ids.contains(id) ==> topic_exists(ts, id),
{
    let r = spec_apply_refresh(s, ts);
    if r.expanded_topic_ids.contains(id) && !s.expanded_topic_ids.filter(
        |x: Seq<char>| topic_exists(ts, x),
    ).contains(id) {
        if s.selected_note_id is Some && topic_for_note(ts, s.selected_note_id->Some_0) is Some {
            lemma_topic_for_note_exists(ts, s.selected_note_id->Some_0, 0);
        } else if s.selected_topic_id is Some && topic_exists(ts, s.selected_topic_id->Some_0) {
        } else {
            assert(ts.len() > 0 && ts[0].topic.id == id);
        }
    }
}

proof fn lemma_topic_for_note_exists(ts: Seq<SnapshotView>, n: Seq<char>, i: int)
    requires
        topic_for_note_from(ts, n, i) is Some,
    ensures
        topic_exists(ts, topic_for_note_from(ts, n, i)->Some_0),
    decreases ts.len() - i,
{
    if 0 <= i < ts.len() && !note_ids(ts[i]).contains(n) {
        lemma_topic_for_note_exists(ts, n, i + 1);
    }
}

/// Going back selects the most recent entry of the back history that still
/// names a note, whatever is selected now: the entries after it are
/// dropped, the note selected now (if any) goes onto the forward history,
/// and the note's topic is selected and expanded.
pub proof fn law_back_selects_latest_existing_entry(s: AppStateView, i: int)
    requires
        0 <= i < s.history_back.len(),
        note_exists(s.topics, s.history_back[i]),
        forall|j: int| i < j < s.history_back.len() ==> !note_exists(s.topics, #[trigger] s.history_back[j]),
    ensures
        ({
            let (ok, r) = spec_navigate_back(s);
            let n = s.history_back[i];
            &&& ok
            &&& r.selected_note_id == Some(n)
            &&& r.selected_topic_id == topic_for_note(s.topics, n)
            &&& r.expanded_topic_ids == s.expanded_topic_ids.insert(topic_for_note(s.topics, n)->Some_0)
            &&& r.history_back == s.history_back.take(i)
            &&& r.history_forward == if s.selected_note_id is Some {
                s.history_forward.push(s.selected_note_id->Some_0)
            } else {
                s.history_forward
            }
            &&& r.topics == s.topics
        }),
    decreases s.history_back.len(),
{
    let last = s.history_back.len() - 1;
    let popped = AppStateView { history_back: s.history_back.drop_last(), ..s };
    if i < last {
        assert(!note_exists(s.topics, s.history_back[last]));
        assert forall|j: int| i < j < popped.history_back.len() implies !note_exists(
            popped.topics,
            #[trigger] popped.history_back[j],
        ) by {
            assert(popped.history_back[j] == s.history_back[j]);
        }
        law_back_selects_latest_existing_entry(popped, i);
        assert(popped.history_back.take(i) == s.history_back.take(i));
    } else {
        assert(s.history_back.drop_last() == s.history_back.take(i));
    }
}

/// Going back fails, and changes nothing but emptying the back history,
/// when no entry of it names a note.
pub proof fn law_back_fails_without_existing_entry(s: AppStateView)
    requires
        forall|j: int| 0 <= j < s.history_back.len() ==> !note_exists(s.topics, #[trigger] s.history_back[j]),
    ensures
        ({
            let (ok, r) = spec_navigate_back(s);
            &&& !ok
            &&& r == AppStateView { history_back: Seq::empty(), ..s }
        }),
    decreases s.history_back.len(),
{
    if s.history_back.len() > 0 {
        let popped = AppStateView { history_back: s.history_back.drop_last(), ..s };
        assert(!note_exists(s.topics, s.history_back[s.history_back.len() - 1]));
        assert forall|j: int| 0 <= j < popped.history_back.len() implies !note_exists(
            popped.topics,
            #[trigger] popped.history_back[j],
        ) by {
            assert(popped.history_back[j] == s.history_back[j]);
        }
        law_back_fails_without_existing_entry(popped);
    } else {
        assert(s.history_back =~= Seq::<Seq<char>>::empty());
    }
}

/// Going forward selects the most recent entry of the forward history that
/// still names a note, whatever is selected now: the entries after it are
/// dropped, the note selected now (if any) goes onto the back history, and
/// the note's topic is selected and expanded.
pub proof fn law_forward_selects_latest_existing_entry(s: AppStateView, i: int)
    requires
        0 <= i < s.history_forward.len(),
        note_exists(s.topics, s.history_forward[i]),
        forall|j: int|
            i < j < s.history_forward.len() ==> !note_exists(s.topics, #[trigger] s.history_forward[j]),
    ensures
        ({
            let (ok, r) = spec_navigate_forward(s);
            let n = s.history_forward[i];
            &&& ok
            &&& r.selected_note_id == Some(n)
            &&& r.selected_topic_id == topic_for_note(s.topics, n)
            &&& r.expanded_topic_ids == s.expanded_topic_ids.insert(topic_for_note(s.topics, n)->Some_0)
            &&& r.history_forward == s.history_forward.take(i)
            &&& r.history_back == if s.selected_note_id is Some {
                s.history_back.push(s.selected_note_id->Some_0)
            } else {
                s.history_back
            }
            &&& r.topics == s.topics
        }),
    decreases s.history_forward.len(),
{
    let last = s.history_forward.len() - 1;
    let popped = AppStateView { history_forward: s.history_forward.drop_last(), ..s };
    if i < last {
        assert(!note_exists(s.topics, s.history_forward[last]));
        assert forall|j: int| i < j < popped.history_forward.len() implies !note_exists(
            popped.topics,
            #[trigger] popped.history_forward[j],
        ) by {
            assert(popped.history_forward[j] == s.history_forward[j]);
        }
        law_forward_selects_latest_existing_entry(popped, i);
        assert(popped.history_forward.take(i) == s.history_forward.take(i));
    } else {
        assert(s.history_forward.drop_last() == s.history_forward.take(i));
    }
}

/// Going forward fails, and changes nothing but emptying the forward
/// history, when no entry of it names a note.
pub proof fn law_forward_fails_without_existing_entry(s: AppStateView)
    requires
        forall|j: int|
            0 <= j < s.history_forward.len() ==> !note_exists(s.topics, #[trigger] s.history_forward[j]),
    ensures
        ({
            let (ok, r) = spec_navigate_forward(s);
            &&& !ok
            &&& r == AppStateView { history_forward: Seq::empty(), ..s }
        }),
    decreases s.history_forward.len(),
{
    if s.history_forward.len() > 0 {
        let popped = AppStateView { history_forward: s.history_forward.drop_last(), ..s };
        assert(!note_exists(s.topics, s.history_forward[s.history_forward.len() - 1]));
        assert forall|j: int| 0 <= j < popped.history_forward.len() implies !note_exists(
            popped.topics,
            #[trigger] popped.history_forward[j],
        ) by {
            assert(popped.history_forward[j] == s.history_forward[j]);
        }
        law_forward_fails_without_existing_entry(popped);
    } else {
        assert(s.history_forward =~= Seq::<Seq<char>>::empty());
    }
}

/// A refresh that loses the selected note (or had none) keeps a surviving
/// selected topic and selects its first note; when the selected topic is
/// gone too, it selects the first topic of the new scan and that topic's
/// first note, as a new state would.
pub proof fn law_refresh_falls_back_to_topic_then_first_note(s: AppStateView, ts: Seq<SnapshotView>)
    requires
        !(s.selected_note_id is Some && note_exists(ts, s.selected_note_id->Some_0)),
    ensures
        ({
            let r = spec_apply_refresh(s, ts);
            if s.selected_topic_id is Some && topic_exists(ts, s.selected_topic_id->Some_0) {
                let t = s.selected_topic_id->Some_0;
                &&& r.selected_topic_id == Some(t)
                &&& r.selected_note_id == first_note_for_topic(ts, t)
            } else {
                &&& r.selected_topic_id == (if ts.len() > 0 {
                    Some(ts[0].topic.id)
                } else {
                    None::<Seq<char>>
                })
                &&& r.selected_note_id == (if ts.len() > 0 && ts[0].notes.len() > 0 {
                    Some(ts[0].notes[0].id)
                } else {
                    None::<Seq<char>>
                })
            }
        }),
{
}

} // verus!