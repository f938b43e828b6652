//! The app's data: topics, their notes, and the browsing state (selection,
//! expanded topics, back/forward history).
use vstd::prelude::*;

use crate::text::{copy_opt, opt_view, str_eq, strings_view, to_string};

verus! {

/// A configured topic folder.
#[derive(Debug, Clone, PartialEq, Eq)]
pub struct TopicConfig {
    pub id: String,
    pub display_name: String,
    pub path: String,
}

pub struct TopicConfigView {
    pub id: Seq<char>,
    pub display_name: Seq<char>,
    pub path: Seq<char>,
}

impl View for TopicConfig {
    type V = TopicConfigView;

    open spec fn view(&self) -> TopicConfigView {
        TopicConfigView { id: self.id@, display_name: self.display_name@, path: self.path@ }
    }
}

impl TopicConfig {
    /// A copy of this topic.
    pub fn duplicate(&self) -> (r: Self)
        ensures
            r == *self,
    {
        TopicConfig {
            id: self.id.clone(),
            display_name: self.display_name.clone(),
            path: self.path.clone(),
        }
    }
}

/// One note: an HTML file directly inside a topic folder.
/// `modified_at` is the file's modification time in nanoseconds since the
/// Unix epoch.
#[derive(Debug, Clone, PartialEq, Eq)]
pub struct NoteEntry {
    pub id: String,
    pub topic_id: String,
    pub title: String,
    pub folder_path: String,
    pub index_html_path: String,
    pub modified_at: u128,
}

pub struct NoteView {
    pub id: Seq<char>,
    pub topic_id: Seq<char>,
    pub title: Seq<char>,
    pub folder_path: Seq<char>,
    pub index_html_path: Seq<char>,
    pub modified_at: u128,
}

impl View for NoteEntry {
    type V = NoteView;

    open spec fn view(&self) -> NoteView {
        NoteView {
            id: self.id@,
            topic_id: self.topic_id@,
            title: self.title@,
            folder_path: self.folder_path@,
            index_html_path: self.index_html_path@,
            modified_at: self.modified_at,
        }
    }
}

impl NoteEntry {
    /// A copy of this note.
    pub fn duplicate(&self) -> (r: Self)
        ensures
            r == *self,
    {
        NoteEntry {
            id: self.id.clone(),
            topic_id: self.topic_id.clone(),
            title: self.title.clone(),
            folder_path: self.folder_path.clone(),
            index_html_path: self.index_html_path.clone(),
            modified_at: self.modified_at,
        }
    }
}

/// A problem met while scanning a topic folder.
#[derive(Debug, Clone, PartialEq, Eq)]
pub struct ScanWarning {
    pub path: String,
    pub message: String,
}

pub struct WarningView {
    pub path: Seq<char>,
    pub message: Seq<char>,
}

impl View for ScanWarning {
    type V = WarningView;

    open spec fn view(&self) -> WarningView {
        WarningView { path: self.path@, message: self.message@ }
    }
}

impl ScanWarning {
    /// A copy of this warning.
    pub fn duplicate(&self) -> (r: Self)
        ensures
            r == *self,
    {
        ScanWarning { path: self.path.clone(), message: self.message.clone() }
    }
}

/// Whether a topic folder could be read.
#[derive(Debug, Clone, Copy, PartialEq, Eq, Structural)]
pub enum TopicAvailability {
    Available,
    Missing,
    ReplacementCanceled,
}

/// A topic and what its last scan found.
#[derive(Debug, Clone, PartialEq, Eq)]
pub struct TopicSnapshot {
    pub topic: TopicConfig,
    pub notes: Vec<NoteEntry>,
    pub scan_warnings: Vec<ScanWarning>,
    pub availability: TopicAvailability,
}

pub struct SnapshotView {
    pub topic: TopicConfigView,
    pub notes: Seq<NoteView>,
    pub scan_warnings: Seq<WarningView>,
    pub availability: TopicAvailability,
}

pub open spec fn notes_view(v: Seq<NoteEntry>) -> Seq<NoteView> {
    v.map_values(|n: NoteEntry| n@)
}

pub open spec fn warnings_view(v: Seq<ScanWarning>) -> Seq<WarningView> {
    v.map_values(|w: ScanWarning| w@)
}

pub open spec fn snapshots_view(v: Seq<TopicSnapshot>) -> Seq<SnapshotView> {
    v.map_values(|t: TopicSnapshot| t@)
}

impl View for TopicSnapshot {
    type V = SnapshotView;

    open spec fn view(&self) -> SnapshotView {
        SnapshotView {
            topic: self.topic@,
            notes: notes_view(self.notes@),
            scan_warnings: warnings_view(self.scan_warnings@),
            availability: self.availability,
        }
    }
}

/// A copy of a list of notes.
pub fn duplicate_notes(v: &Vec<NoteEntry>) -> (r: Vec<NoteEntry>)
    ensures
        r@ == v@,
{
    let mut r: Vec<NoteEntry> = Vec::new();
    let mut i: usize = 0;
    while i < v.len()
        invariant
            i <= v@.len(),
            r@ == v@.take(i as int),
        decreases v@.len() - i,
    {
        r.push(v[i].duplicate());
        i = i + 1;
        assert(v@.take(i as int) == v@.take(i - 1).push(v@[i - 1]));
    }
    assert(v@.take(i as int) == v@);
    r
}

/// A copy of a list of warnings.
pub fn duplicate_warnings(v: &Vec<ScanWarning>) -> (r: Vec<ScanWarning>)
    ensures
        r@ == v@,
{
    let mut r: Vec<ScanWarning> = Vec::new();
    let mut i: usize = 0;
    while i < v.len()
        invariant
            i <= v@.len(),
            r@ == v@.take(i as int),
        decreases v@.len() - i,
    {
        r.push(v[i].duplicate());
        i = i + 1;
        assert(v@.take(i as int) == v@.take(i - 1).push(v@[i - 1]));
    }
    assert(v@.take(i as int) == v@);
    r
}

impl TopicSnapshot {
    /// A copy of this snapshot.
    pub fn duplicate(&self) -> (r: Self)
        ensures
            r.topic == self.topic,
            r.notes@ == self.notes@,
            r.scan_warnings@ == self.scan_warnings@,
            r.availability == self.availability,
            r@ == self@,
    {
        TopicSnapshot {
            topic: self.topic.duplicate(),
            notes: duplicate_notes(&self.notes),
            scan_warnings: duplicate_warnings(&self.scan_warnings),
            availability: self.availability,
        }
    }
}

/// Whether `s` occurs among the first `n` entries of `v`.
pub open spec fn in_prefix(v: Seq<Seq<char>>, n: int, s: Seq<char>) -> bool {
    exists|j: int| 0 <= j < n && v[j] == s
}

/// A set of topic ids (the topics shown expanded in the sidebar).
#[derive(Debug, Clone)]
pub struct IdSet {
    ids: Vec<String>,
}

impl View for IdSet {
    type V = Set<Seq<char>>;

    closed spec fn view(&self) -> Set<Seq<char>> {
        Set::new(|s: Seq<char>| strings_view(self.ids@).contains(s))
    }
}

impl IdSet {
    /// The empty set.
    pub fn new() -> (r: Self)
        ensures
            r@ == Set::<Seq<char>>::empty(),
    {
        let r = IdSet { ids: Vec::new() };
        assert(r@ =~= Set::<Seq<char>>::empty());
        r
    }

    /// Whether `id` is in the set.
    pub fn contains(&self, id: &str) -> (r: bool)
        ensures
            r == self@.contains(id@),
    {
        let mut i: usize = 0;
        while i < self.ids.len()
            invariant
                i <= self.ids@.len(),
                forall|j: int| 0 <= j < i ==> self.ids@[j]@ != id@,
            decreases self.ids@.len() - i,
        {
            if str_eq(self.ids[i].as_str(), id) {
                assert(strings_view(self.ids@)[i as int] == id@);
                return true;
            }
            i = i + 1;
        }
        assert(!strings_view(self.ids@).contains(id@)) by {
            if strings_view(self.ids@).contains(id@) {
                let k = choose|k: int| 0 <= k < self.ids@.len() && strings_view(self.ids@)[k] == id@;
                assert(self.ids@[k]@ == id@);
            }
        }
        false
    }

    /// Adds `id` to the set.
    pub fn insert(&mut self, id: String)
        ensures
            final(self)@ == old(self)@.insert(id@),
    {
        if !self.contains(id.as_str()) {
            let ghost before = self.ids@;
            self.ids.push(id);
            assert(strings_view(self.ids@) == strings_view(before).push(id@));
            assert forall|s: Seq<char>| strings_view(self.ids@).contains(s) implies s == id@
                || strings_view(before).contains(s) by {
                let k = choose|k: int| 0 <= k < self.ids@.len() && strings_view(self.ids@)[k] == s;
                if k < before.len() {
                    assert(strings_view(before)[k] == s);
                }
            }
            assert(strings_view(self.ids@)[before.len() as int] == id@);
            assert forall|s: Seq<char>| strings_view(before).contains(s) implies strings_view(
                self.ids@,
            ).contains(s) by {
                let k = choose|k: int| 0 <= k < before.len() && strings_view(before)[k] == s;
                assert(strings_view(self.ids@)[k] == s);
            }
            assert(self@ =~= old(self)@.insert(id@));
        } else {
            assert(self@ =~= old(self)@.insert(id@));
        }
    }

    /// Keeps only the ids of topics in `topics`.
    pub fn retain_topics(&mut self, topics: &Vec<TopicSnapshot>)
        ensures
            final(self)@ == old(self)@.filter(
                |id: Seq<char>| topic_exists(snapshots_view(topics@), id),
            ),
    {
        let ghost ts = snapshots_view(topics@);
        let ghost before = strings_view(self.ids@);
        let mut kept: Vec<String> = Vec::new();
        let mut i: usize = 0;
        while i < self.ids.len()
            invariant
                i <= self.ids@.len(),
                before == strings_view(self.ids@),
                ts == snapshots_view(topics@),
                forall|s: Seq<char>| #[trigger]
                    strings_view(kept@).contains(s) <==> (topic_exists(ts, s) && in_prefix(
                        before,
                        i as int,
                        s,
                    )),
            decreases self.ids@.len() - i,
        {
            let ghost prev = kept@;
            let ghost i0 = i as int;
            let keep = topics_contain(topics, self.ids[i].as_str());
            if keep {
                kept.push(self.ids[i].clone());
                assert(strings_view(kept@) == strings_view(prev).push(before[i0]));
            }
            i = i + 1;
            proof {
                assert forall|s: Seq<char>| #[trigger]
                    strings_view(kept@).contains(s) <==> (topic_exists(ts, s) && in_prefix(
                        before,
                        i as int,
                        s,
                    )) by {
                    if strings_view(kept@).contains(s) {
                        let k = choose|k: int| 0 <= k < kept@.len() && strings_view(kept@)[k] == s;
                        if k < prev.len() {
                            assert(strings_view(prev)[k] == s);
                            assert(strings_view(prev).contains(s));
                            let j = choose|j: int| 0 <= j < i0 && before[j] == s;
                            assert(0 <= j < i && before[j] == s);
                        } else {
                            assert(before[i0] == s);
                        }
                    }
                    if topic_exists(ts, s) && in_prefix(before, i as int, s) {
                        let j = choose|j: int| 0 <= j < i && before[j] == s;
                        if j < i0 {
                            assert(in_prefix(before, i0, s));
                            assert(strings_view(prev).contains(s));
                            let k = choose|k: int| 0 <= k < prev.len() && strings_view(prev)[k] == s;
                            assert(strings_view(kept@)[k] == s);
                        } else {
                            assert(strings_view(kept@)[kept@.len() - 1] == s);
                        }
                    }
                }
            }
        }
        self.ids = kept;
        assert forall|s: Seq<char>| #[trigger] before.contains(s) <==> in_prefix(before, before.len() as int, s) by {
            if before.contains(s) {
                let k = choose|k: int| 0 <= k < before.len() && before[k] == s;
                assert(in_prefix(before, before.len() as int, s));
            }
        }
        assert(self@ =~= old(self)@.filter(|id: Seq<char>| topic_exists(ts, id)));
    }

    /// Removes `id` from the set; whether it was there.
    pub fn remove(&mut self, id: &str) -> (r: bool)
        ensures
            r == old(self)@.contains(id@),
            final(self)@ == old(self)@.remove(id@),
    {
        let ghost before = strings_view(self.ids@);
        let mut kept: Vec<String> = Vec::new();
        let mut found = false;
        let mut i: usize = 0;
        while i < self.ids.len()
            invariant
                i <= self.ids@.len(),
                before == strings_view(self.ids@),
                found == (exists|j: int| 0 <= j < i && before[j] == id@),
                forall|s: Seq<char>| strings_view(kept@).contains(s) <==> (s != id@ && exists|j: int|
                    0 <= j < i && before[j] == s),
            decreases self.ids@.len() - i,
        {
            let ghost prev = kept@;
            let ghost i0 = i as int;
            let is_id = str_eq(self.ids[i].as_str(), id);
            if is_id {
                found = true;
            } else {
                kept.push(self.ids[i].clone());
                assert(strings_view(kept@) == strings_view(prev).push(before[i0]));
            }
            i = i + 1;
            proof {
                if is_id {
                    assert(before[i0] == id@);
                }
                assert forall|s: Seq<char>| strings_view(kept@).contains(s) <==> (s != id@ && exists|
                    j: int,
                | 0 <= j < i && before[j] == s) by {
                    if strings_view(kept@).contains(s) {
                        let k = choose|k: int| 0 <= k < kept@.len() && strings_view(kept@)[k] == s;
                        if k < prev.len() {
                            assert(strings_view(prev)[k] == s);
                            assert(strings_view(prev).contains(s));
                            let j = choose|j: int| 0 <= j < i0 && before[j] == s;
                            assert(0 <= j < i && before[j] == s);
                        } else {
                            assert(before[i0] == s);
                        }
                    }
                    if s != id@ && exists|j: int| 0 <= j < i && before[j] == s {
                        let j = choose|j: int| 0 <= j < i && before[j] == s;
                        if j < i0 {
                            assert(strings_view(prev).contains(s));
                            let k = choose|k: int| 0 <= k < prev.len() && strings_view(prev)[k] == s;
                            assert(strings_view(kept@)[k] == s);
                        } else {
                            assert(strings_view(kept@)[kept@.len() - 1] == s);
                        }
                    }
                }
            }
        }
        self.ids = kept;
        assert(self@ =~= old(self)@.remove(id@));
        found
    }
}

/// The ids of a topic's notes, in order.
pub open spec fn note_ids(t: SnapshotView) -> Seq<Seq<char>> {
    t.notes.map_values(|n: NoteView| n.id)
}

/// Whether some topic has id `id`.
pub open spec fn topic_exists(ts: Seq<SnapshotView>, id: Seq<char>) -> bool {
    exists|i: int| 0 <= i < ts.len() && ts[i].topic.id == id
}

/// The id of the first topic, from position `i` on, that holds a note with
/// id `note`.
pub open spec fn topic_for_note_from(ts: Seq<SnapshotView>, note: Seq<char>, i: int) -> Option<
    Seq<char>,
>
    decreases ts.len() - i,
{
    if i < 0 || i >= ts.len() {
        None
    } else if note_ids(ts[i]).contains(note) {
        Some(ts[i].topic.id)
    } else {
        topic_for_note_from(ts, note, i + 1)
    }
}

/// The id of the first topic that holds a note with id `note`.
pub open spec fn topic_for_note(ts: Seq<SnapshotView>, note: Seq<char>) -> Option<Seq<char>> {
    topic_for_note_from(ts, note, 0)
}

/// Whether some topic holds a note with id `note`.
pub open spec fn note_exists(ts: Seq<SnapshotView>, note: Seq<char>) -> bool {
    topic_for_note(ts, note) is Some
}

/// The first note of the first topic, from position `i` on, whose id is
/// `topic_id`.
pub open spec fn first_note_from(ts: Seq<SnapshotView>, topic_id: Seq<char>, i: int) -> Option<
    Seq<char>,
>
    decreases ts.len() - i,
{
    if i < 0 || i >= ts.len() {
        None
    } else if ts[i].topic.id == topic_id {
        if ts[i].notes.len() > 0 {
            Some(ts[i].notes[0].id)
        } else {
            None
        }
    } else {
        first_note_from(ts, topic_id, i + 1)
    }
}

/// The id of the first note of the first topic with id `topic_id`.
pub open spec fn first_note_for_topic(ts: Seq<SnapshotView>, topic_id: Seq<char>) -> Option<
    Seq<char>,
> {
    first_note_from(ts, topic_id, 0)
}

/// Whether `t` holds a note with id `note_id`.
pub fn topic_has_note(t: &TopicSnapshot, note_id: &str) -> (r: bool)
    ensures
        r == note_ids(t@).contains(note_id@),
{
    let mut j: usize = 0;
    while j < t.notes.len()
        invariant
            j <= t.notes@.len(),
            forall|k: int| 0 <= k < j ==> t.notes@[k].id@ != note_id@,
        decreases t.notes@.len() - j,
    {
        if str_eq(t.notes[j].id.as_str(), note_id) {
            assert(note_ids(t@)[j as int] == note_id@);
            return true;
        }
        j = j + 1;
    }
    assert(!note_ids(t@).contains(note_id@)) by {
        if note_ids(t@).contains(note_id@) {
            let k = choose|k: int| 0 <= k < note_ids(t@).len() && note_ids(t@)[k] == note_id@;
            assert(t.notes@[k].id@ == note_id@);
        }
    }
    false
}

/// Whether some snapshot has topic id `topic_id`.
pub fn topics_contain(topics: &Vec<TopicSnapshot>, topic_id: &str) -> (r: bool)
    ensures
        r == topic_exists(snapshots_view(topics@), topic_id@),
{
    let ghost ts = snapshots_view(topics@);
    let mut i: usize = 0;
    while i < topics.len()
        invariant
            i <= topics@.len(),
            ts == snapshots_view(topics@),
            forall|k: int| 0 <= k < i ==> ts[k].topic.id != topic_id@,
        decreases topics@.len() - i,
    {
        if str_eq(topics[i].topic.id.as_str(), topic_id) {
            assert(ts[i as int].topic.id == topic_id@);
            return true;
        }
        i = i + 1;
    }
    false
}

/// The id of the first topic that holds a note with id `note_id`.
pub fn topic_id_for_note(topics: &Vec<TopicSnapshot>, note_id: &str) -> (r: Option<String>)
    ensures
        opt_view(r) == topic_for_note(snapshots_view(topics@), note_id@),
{
    let ghost ts = snapshots_view(topics@);
    let mut i: usize = 0;
    while i < topics.len()
        invariant
            i <= topics@.len(),
            ts == snapshots_view(topics@),
            topic_for_note(ts, note_id@) == topic_for_note_from(ts, note_id@, i as int),
        decreases topics@.len() - i,
    {
        assert(topics@[i as int]@ == ts[i as int]);
        if topic_has_note(&topics[i], note_id) {
            return Some(topics[i].topic.id.clone());
        }
        i = i + 1;
    }
    None
}

/// The id of the first note of the first topic with id `topic_id`.
pub fn first_note_id_for_topic(topics: &Vec<TopicSnapshot>, topic_id: &str) -> (r: Option<String>)
    ensures
        opt_view(r) == first_note_for_topic(snapshots_view(topics@), topic_id@),
{
    let ghost ts = snapshots_view(topics@);
    let mut i: usize = 0;
    while i < topics.len()
        invariant
            i <= topics@.len(),
            ts == snapshots_view(topics@),
            first_note_for_topic(ts, topic_id@) == first_note_from(ts, topic_id@, i as int),
        decreases topics@.len() - i,
    {
        assert(topics@[i as int]@ == ts[i as int]);
        if str_eq(topics[i].topic.id.as_str(), topic_id) {
            if topics[i].notes.len() > 0 {
                assert(ts[i as int].notes[0] == topics@[i as int].notes@[0]@);
                return Some(topics[i].notes[0].id.clone());
            } else {
                return None;
            }
        }
        i = i + 1;
    }
    None
}

/// The entries of `history` that name a note of `topics`, in order.
pub fn retain_existing_notes(history: &Vec<String>, topics: &Vec<TopicSnapshot>) -> (r: Vec<
    String,
>)
    ensures
        strings_view(r@) == strings_view(history@).filter(
            |n: Seq<char>| note_exists(snapshots_view(topics@), n),
        ),
{
    let ghost ts = snapshots_view(topics@);
    let ghost pred = |n: Seq<char>| note_exists(ts, n);
    let ghost hv = strings_view(history@);
    let mut r: Vec<String> = Vec::new();
    let mut i: usize = 0;
    assert(hv.take(0) =~= Seq::<Seq<char>>::empty());
    proof {
        reveal(Seq::filter);
    }
    while i < history.len()
        invariant
            i <= history@.len(),
            hv == strings_view(history@),
            ts == snapshots_view(topics@),
            pred == (|n: Seq<char>| note_exists(ts, n)),
            strings_view(r@) == hv.take(i as int).filter(pred),
        decreases history@.len() - i,
    {
        let ghost prev = r@;
        assert(hv.take(i + 1) == hv.take(i as int).push(hv[i as int]));
        proof {
            hv.take(i as int).lemma_filter_push(hv[i as int], pred);
        }
        let found = topic_id_for_note(topics, history[i].as_str());
        if found.is_some() {
            r.push(history[i].clone());
            assert(strings_view(r@) == strings_view(prev).push(hv[i as int]));
        }
        i = i + 1;
    }
    assert(hv.take(i as int) == hv);
    r
}

/// The browsing state of the app: the topics, which topic and note are
/// selected, which topics are expanded, and the back/forward history of
/// note ids.
#[derive(Debug, Clone)]
pub struct AppState {
    pub topics: Vec<TopicSnapshot>,
    pub selected_topic_id: Option<String>,
    pub selected_note_id: Option<String>,
    pub expanded_topic_ids: IdSet,
    pub history_back: Vec<String>,
    pub history_forward: Vec<String>,
}

pub struct AppStateView {
    pub topics: Seq<SnapshotView>,
    pub selected_topic_id: Option<Seq<char>>,
    pub selected_note_id: Option<Seq<char>>,
    pub expanded_topic_ids: Set<Seq<char>>,
    pub history_back: Seq<Seq<char>>,
    pub history_forward: Seq<Seq<char>>,
}

impl View for AppState {
    type V = AppStateView;

    open spec fn view(&self) -> AppStateView {
        AppStateView {
            topics: snapshots_view(self.topics@),
            selected_topic_id: opt_view(self.selected_topic_id),
            selected_note_id: opt_view(self.selected_note_id),
            expanded_topic_ids: self.expanded_topic_ids@,
            history_back: strings_view(self.history_back@),
            history_forward: strings_view(self.history_forward@),
        }
    }
}

/// The state built for `topics`: the first topic is selected and expanded,
/// with its first note selected; the history is empty.
pub open spec fn initial_state(ts: Seq<SnapshotView>) -> AppStateView {
    AppStateView {
        topics: ts,
        selected_topic_id: if ts.len() > 0 {
            Some(ts[0].topic.id)
        } else {
            None
        },
        selected_note_id: if ts.len() > 0 && ts[0].notes.len() > 0 {
            Some(ts[0].notes[0].id)
        } else {
            None
        },
        expanded_topic_ids: if ts.len() > 0 {
            Set::empty().insert(ts[0].topic.id)
        } else {
            Set::empty()
        },
        history_back: Seq::empty(),
        history_forward: Seq::empty(),
    }
}

/// Expanding or collapsing a topic: an expanded topic collapses; a collapsed
/// one expands only if it exists.
pub open spec fn spec_toggle_topic(s: AppStateView, id: Seq<char>) -> AppStateView {
    if s.expanded_topic_ids.contains(id) {
        AppStateView { expanded_topic_ids: s.expanded_topic_ids.remove(id), ..s }
    } else if topic_exists(s.topics, id) {
        AppStateView { expanded_topic_ids: s.expanded_topic_ids.insert(id), ..s }
    } else {
        s
    }
}

/// Selecting an existing topic selects no note.
pub open spec fn spec_select_topic(s: AppStateView, id: Seq<char>) -> AppStateView {
    if topic_exists(s.topics, id) {
        AppStateView { selected_topic_id: Some(id), selected_note_id: None, ..s }
    } else {
        s
    }
}

/// Selecting an existing note selects its topic and expands it; with
/// `record`, a change of note pushes the previous note on the back history
/// and clears the forward history.
pub open spec fn spec_select_note_with_history(
    s: AppStateView,
    note: Seq<char>,
    record: bool,
) -> AppStateView {
    match topic_for_note(s.topics, note) {
        None => s,
        Some(t) => {
            let changes = record && s.selected_note_id != Some(note);
            AppStateView {
                selected_topic_id: Some(t),
                selected_note_id: Some(note),
                expanded_topic_ids: s.expanded_topic_ids.insert(t),
                history_back: if changes && s.selected_note_id is Some {
                    s.history_back.push(s.selected_note_id->Some_0)
                } else {
                    s.history_back
                },
                history_forward: if changes {
                    Seq::empty()
                } else {
                    s.history_forward
                },
                ..s
            }
        },
    }
}

pub open spec fn spec_select_note(s: AppStateView, note: Seq<char>) -> AppStateView {
    spec_select_note_with_history(s, note, true)
}

/// Going back: entries of the back history that name no note are dropped
/// from its end; the last one that names a note is selected and the
/// current note goes onto the forward history. `false` when the history
/// runs out.
pub open spec fn spec_navigate_back(s: AppStateView) -> (bool, AppStateView)
    decreases s.history_back.len(),
{
    if s.history_back.len() == 0 {
        (false, s)
    } else {
        let note = s.history_back.last();
        let popped = AppStateView { history_back: s.history_back.drop_last(), ..s };
        if !note_exists(s.topics, note) {
            spec_navigate_back(popped)
        } else {
            let moved = AppStateView {
                history_forward: if s.selected_note_id is Some {
                    s.history_forward.push(s.selected_note_id->Some_0)
                } else {
                    s.history_forward
                },
                ..popped
            };
            (true, spec_select_note_with_history(moved, note, false))
        }
    }
}

/// Going forward, the mirror image of going back.
pub open spec fn spec_navigate_forward(s: AppStateView) -> (bool, AppStateView)
    decreases s.history_forward.len(),
{
    if s.history_forward.len() == 0 {
        (false, s)
    } else {
        let note = s.history_forward.last();
        let popped = AppStateView { history_forward: s.history_forward.drop_last(), ..s };
        if !note_exists(s.topics, note) {
            spec_navigate_forward(popped)
        } else {
            let moved = AppStateView {
                history_back: if s.selected_note_id is Some {
                    s.history_back.push(s.selected_note_id->Some_0)
                } else {
                    s.history_back
                },
                ..popped
            };
            (true, spec_select_note_with_history(moved, note, false))
        }
    }
}

/// The entries of a history that name a note of `ts`.
pub open spec fn pruned_history(history: Seq<Seq<char>>, ts: Seq<SnapshotView>) -> Seq<Seq<char>> {
    history.filter(|n: Seq<char>| note_exists(ts, n))
}

/// Taking in a new scan: topics are replaced; expansion and history keep
/// only what still exists; a surviving selected note stays selected (its
/// topic selected and expanded); otherwise a surviving selected topic gets
/// its first note selected; otherwise the selection starts over as for a
/// new state.
pub open spec fn spec_apply_refresh(s: AppStateView, ts: Seq<SnapshotView>) -> AppStateView {
    let expanded = s.expanded_topic_ids.filter(|id: Seq<char>| topic_exists(ts, id));
    let base = AppStateView {
        topics: ts,
        expanded_topic_ids: expanded,
        history_back: pruned_history(s.history_back, ts),
        history_forward: pruned_history(s.history_forward, ts),
        ..s
    };
    if s.selected_note_id is Some && topic_for_note(ts, s.selected_note_id->Some_0) is Some {
        let t = topic_for_note(ts, s.selected_note_id->Some_0)->Some_0;
        AppStateView { selected_topic_id: Some(t), expanded_topic_ids: expanded.insert(t), ..base }
    } else if s.selected_topic_id is Some && topic_exists(ts, s.selected_topic_id->Some_0) {
        let t = s.selected_topic_id->Some_0;
        let n = first_note_for_topic(ts, t);
        AppStateView {
            selected_note_id: n,
            expanded_topic_ids: if n is Some {
                expanded.insert(t)
            } else {
                expanded
            },
            ..base
        }
    } else {
        let fresh = initial_state(ts);
        AppStateView {
            selected_topic_id: fresh.selected_topic_id,
            selected_note_id: fresh.selected_note_id,
            expanded_topic_ids: expanded.union(fresh.expanded_topic_ids),
            ..base
        }
    }
}

/// The snapshot of a configured topic before any scan.
pub open spec fn placeholder_snapshot(t: TopicConfigView) -> SnapshotView {
    SnapshotView {
        topic: t,
        notes: Seq::empty(),
        scan_warnings: Seq::empty(),
        availability: TopicAvailability::Available,
    }
}

impl AppState {
    /// The state for freshly scanned topics.
    pub fn from_topics(topics: Vec<TopicSnapshot>) -> (r: Self)
        ensures
            r.topics@ == topics@,
            r@ == initial_state(snapshots_view(topics@)),
    {
        let ghost ts = snapshots_view(topics@);
        let mut expanded = IdSet::new();
        let mut selected_topic_id: Option<String> = None;
        let mut selected_note_id: Option<String> = None;
        if topics.len() > 0 {
            assert(ts[0] == topics@[0]@);
            let first = &topics[0];
            selected_topic_id = Some(first.topic.id.clone());
            expanded.insert(first.topic.id.clone());
            if first.notes.len() > 0 {
                assert(ts[0].notes[0] == first.notes@[0]@);
                selected_note_id = Some(first.notes[0].id.clone());
            }
        }
        let r = AppState {
            topics,
            selected_topic_id,
            selected_note_id,
            expanded_topic_ids: expanded,
            history_back: Vec::new(),
            history_forward: Vec::new(),
        };
        assert(r@.history_back =~= Seq::<Seq<char>>::empty());
        assert(r@.history_forward =~= Seq::<Seq<char>>::empty());
        r
    }

    /// The state for configured topics that have not been scanned yet.
    pub fn from_topic_configs(topics: Vec<TopicConfig>) -> (r: Self)
        ensures
            r@ == initial_state(topics@.map_values(|t: TopicConfig| placeholder_snapshot(t@))),
    {
        let ghost target = topics@.map_values(|t: TopicConfig| placeholder_snapshot(t@));
        let mut snapshots: Vec<TopicSnapshot> = Vec::new();
        let mut i: usize = 0;
        while i < topics.len()
            invariant
                i <= topics@.len(),
                target == topics@.map_values(|t: TopicConfig| placeholder_snapshot(t@)),
                snapshots_view(snapshots@) == target.take(i as int),
            decreases topics@.len() - i,
        {
            let ghost prev = snapshots@;
            let snapshot = TopicSnapshot {
                topic: topics[i].duplicate(),
                notes: Vec::new(),
                scan_warnings: Vec::new(),
                availability: TopicAvailability::Available,
            };
            assert(notes_view(snapshot.notes@) =~= Seq::<NoteView>::empty());
            assert(warnings_view(snapshot.scan_warnings@) =~= Seq::<WarningView>::empty());
            assert(snapshot@ == placeholder_snapshot(topics@[i as int]@));
            snapshots.push(snapshot);
            assert(snapshots_view(snapshots@) == snapshots_view(prev).push(target[i as int]));
            i = i + 1;
            assert(target.take(i as int) == target.take(i - 1).push(target[i - 1]));
        }
        assert(target.take(i as int) == target);
        Self::from_topics(snapshots)
    }

    /// Expands a collapsed existing topic, or collapses an expanded one.
    pub fn toggle_topic(&mut self, topic_id: &str)
        ensures
            final(self)@ == spec_toggle_topic(old(self)@, topic_id@),
            final(self).topics@ == old(self).topics@,
    {
        if self.expanded_topic_ids.contains(topic_id) {
            self.expanded_topic_ids.remove(topic_id);
        } else if topics_contain(&self.topics, topic_id) {
            self.expanded_topic_ids.insert(to_string(topic_id));
        }
    }

    /// Selects an existing topic, with no note selected.
    pub fn select_topic(&mut self, topic_id: &str)
        ensures
            final(self)@ == spec_select_topic(old(self)@, topic_id@),
            final(self).topics@ == old(self).topics@,
    {
        if topics_contain(&self.topics, topic_id) {
            self.selected_topic_id = Some(to_string(topic_id));
            self.selected_note_id = None;
        }
    }

    /// Selects an existing note, recording the previous one in the history.
    pub fn select_note(&mut self, note_id: &str)
        ensures
            final(self)@ == spec_select_note(old(self)@, note_id@),
            final(self).topics@ == old(self).topics@,
    {
        self.select_note_with_history(note_id, true);
    }

    fn select_note_with_history(&mut self, note_id: &str, record_history: bool)
        ensures
            final(self)@ == spec_select_note_with_history(old(self)@, note_id@, record_history),
            final(self).topics@ == old(self).topics@,
    {
        if let Some(topic_id) = topic_id_for_note(&self.topics, note_id) {
            let same = match &self.selected_note_id {
                Some(current) => str_eq(current.as_str(), note_id),
                None => false,
            };
            if record_history && !same {
                if let Some(current_note_id) = copy_opt(&self.selected_note_id) {
                    let ghost prev = self.history_back@;
                    self.history_back.push(current_note_id);
                    assert(strings_view(self.history_back@) == strings_view(prev).push(
                        old(self)@.selected_note_id->Some_0,
                    ));
                }
                self.history_forward = Vec::new();
                assert(strings_view(self.history_forward@) =~= Seq::<Seq<char>>::empty());
            }
            self.selected_topic_id = Some(topic_id.clone());
            self.selected_note_id = Some(to_string(note_id));
            self.expanded_topic_ids.insert(topic_id);
        }
    }

    /// Takes in a new scan of the topics, keeping what survives of the
    /// selection, expansion and history.
    pub fn apply_refresh(&mut self, topics: Vec<TopicSnapshot>)
        ensures
            final(self)@ == spec_apply_refresh(old(self)@, snapshots_view(topics@)),
            final(self).topics@ == topics@,
    {
        let ghost ts = snapshots_view(topics@);
        let ghost s0 = self@;
        self.topics = topics;
        self.expanded_topic_ids.retain_topics(&self.topics);
        self.prune_history();
        let ghost expanded = self.expanded_topic_ids@;
        let surviving = match &self.selected_note_id {
            Some(note_id) => topic_id_for_note(&self.topics, note_id.as_str()),
            None => None,
        };
        if let Some(topic_id) = surviving {
            self.selected_topic_id = Some(topic_id.clone());
            self.expanded_topic_ids.insert(topic_id);
            return;
        }
        if let Some(topic_id) = copy_opt(&self.selected_topic_id) {
            if topics_contain(&self.topics, topic_id.as_str()) {
                self.selected_note_id = first_note_id_for_topic(&self.topics, topic_id.as_str());
                if self.selected_note_id.is_some() {
                    self.expanded_topic_ids.insert(topic_id);
                }
                return;
            }
        }
        let ghost fresh = initial_state(ts);
        if self.topics.len() > 0 {
            assert(ts[0] == self.topics@[0]@);
            let first_topic = self.topics[0].topic.id.clone();
            let first_note = if self.topics[0].notes.len() > 0 {
                assert(ts[0].notes[0] == self.topics@[0].notes@[0]@);
                Some(self.topics[0].notes[0].id.clone())
            } else {
                None
            };
            self.selected_topic_id = Some(first_topic.clone());
            self.selected_note_id = first_note;
            self.expanded_topic_ids.insert(first_topic);
            assert(self.expanded_topic_ids@ =~= expanded.union(fresh.expanded_topic_ids));
        } else {
            self.selected_topic_id = None;
            self.selected_note_id = None;
            assert(self.expanded_topic_ids@ =~= expanded.union(fresh.expanded_topic_ids));
        }
    }

    fn prune_history(&mut self)
        ensures
            strings_view(final(self).history_back@) == pruned_history(
                strings_view(old(self).history_back@),
                snapshots_view(old(self).topics@),
            ),
            strings_view(final(self).history_forward@) == pruned_history(
                strings_view(old(self).history_forward@),
                snapshots_view(old(self).topics@),
            ),
            final(self).topics@ == old(self).topics@,
            final(self).selected_topic_id == old(self).selected_topic_id,
            final(self).selected_note_id == old(self).selected_note_id,
            final(self).expanded_topic_ids@ == old(self).expanded_topic_ids@,
    {
        self.history_back = retain_existing_notes(&self.history_back, &self.topics);
        self.history_forward = retain_existing_notes(&self.history_forward, &self.topics);
    }

    /// Goes back to the last note of the back history that still exists;
    /// whether there was one.
    pub fn navigate_back(&mut self) -> (r: bool)
        ensures
            (r, final(self)@) == spec_navigate_back(old(self)@),
            final(self).topics@ == old(self).topics@,
    {
        loop
            invariant
                spec_navigate_back(self@) == spec_navigate_back(old(self)@),
                self.topics@ == old(self).topics@,
            decreases self.history_back@.len(),
        {
            let ghost before = self@;
            match self.history_back.pop() {
                None => {
                    return false;
                },
                Some(note_id) => {
                    assert(strings_view(self.history_back@) == before.history_back.drop_last());
                    if topic_id_for_note(&self.topics, note_id.as_str()).is_none() {
                        continue;
                    }
                    if let Some(current_note_id) = copy_opt(&self.selected_note_id) {
                        let ghost prev = self.history_forward@;
                        self.history_forward.push(current_note_id);
                        assert(strings_view(self.history_forward@) == strings_view(prev).push(
                            before.selected_note_id->Some_0,
                        ));
                    }
                    self.select_note_with_history(note_id.as_str(), false);
                    return true;
                },
            }
        }
    }

    /// Goes forward to the last note of the forward history that still
    /// exists; whether there was one.
    pub fn navigate_forward(&mut self) -> (r: bool)
        ensures
            (r, final(self)@) == spec_navigate_forward(old(self)@),
            final(self).topics@ == old(self).topics@,
    {
        loop
            invariant
                spec_navigate_forward(self@) == spec_navigate_forward(old(self)@),
                self.topics@ == old(self).topics@,
            decreases self.history_forward@.len(),
        {
            let ghost before = self@;
            match self.history_forward.pop() {
                None => {
                    return false;
                },
                Some(note_id) => {
                    assert(strings_view(self.history_forward@) == before.history_forward.drop_last());
                    if topic_id_for_note(&self.topics, note_id.as_str()).is_none() {
                        continue;
                    }
                    if let Some(current_note_id) = copy_opt(&self.selected_note_id) {
                        let ghost prev = self.history_back@;
                        self.history_back.push(current_note_id);
                        assert(strings_view(self.history_back@) == strings_view(prev).push(
                            before.selected_note_id->Some_0,
                        ));
                    }
                    self.select_note_with_history(note_id.as_str(), false);
                    return true;
                },
            }
        }
    }
}

} // verus!
