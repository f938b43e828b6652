//! Properties of every scan of a topic folder.
use vstd::prelude::*;

use crate::path::spec_extension;
use crate::domain::{notes_view, NoteView, TopicConfig, TopicConfigView, TopicSnapshot};
use crate::notes::{
    ascii_lowercase, is_newest_first_order, is_scan_of, scan_entries, spec_build_note, spec_is_html_file, spec_note_id,
    TopicEntry, TopicListing,
};

verus! {

/// Note `n` belongs to `topic`: it carries the topic's id, its own id is
/// the one made of the topic id and its file, and its file is an HTML file.
pub open spec fn note_of_topic(n: NoteView, topic: TopicConfigView) -> bool {
    &&& n.topic_id == topic.id
    &&& n.id == spec_note_id(topic.id, n.index_html_path)
    &&& spec_is_html_file(n.index_html_path, true)
    &&& (lower_extension(n.index_html_path) == "html"@ || lower_extension(n.index_html_path) == "htm"@)
}

/// The extension of `path` with ASCII letters lower-cased; empty when it
/// has none.
pub open spec fn lower_extension(path: Seq<char>) -> Seq<char> {
    match spec_extension(path) {
        Some(ext) => ascii_lowercase(ext),
        None => Seq::empty(),
    }
}

/// A note file is a file whose extension is `html` or `htm` in any ASCII
/// case, and nothing else: a `.js`, `.css` or `.txt` file, a directory, or
/// a file without an extension is never one.
pub proof fn law_note_files_are_html_files(path: Seq<char>, is_file: bool)
    ensures
        spec_is_html_file(path, is_file) <==> (is_file && (lower_extension(path) == "html"@
            || lower_extension(path) == "htm"@)),
{
    reveal_strlit("html");
    reveal_strlit("htm");
    if spec_extension(path) is None {
        assert(lower_extension(path).len() == 0);
    }
}

proof fn lemma_entries_give_topic_notes(topic: TopicConfigView, entries: Seq<TopicEntry>)
    ensures
        forall|k: int|
            0 <= k < scan_entries(topic, entries).0.len() ==> note_of_topic(
                #[trigger] scan_entries(topic, entries).0[k],
                topic,
            ),
    decreases entries.len(),
{
    if entries.len() > 0 {
        lemma_entries_give_topic_notes(topic, entries.drop_last());
        let prev = scan_entries(topic, entries.drop_last()).0;
        let ns = scan_entries(topic, entries).0;
        match entries.last() {
            TopicEntry::Listed { path, is_file, contents } => {
                if spec_is_html_file(path@, is_file) && contents is Some {
                    match spec_build_note(topic, path@, is_file, contents->Some_0) {
                        Ok(note) => {
                            law_note_files_are_html_files(path@, is_file);
                            assert(ns == prev.push(note));
                            assert forall|k: int| 0 <= k < ns.len() implies note_of_topic(
                                #[trigger] ns[k],
                                topic,
                            ) by {
                                if k < prev.len() {
                                    assert(ns[k] == prev[k]);
                                }
                            }
                        },
                        Err(_) => {},
                    }
                }
            },
            TopicEntry::Unreadable { .. } => {},
        }
    }
}

/// Every note that a scan lists belongs to the scanned topic: it carries
/// the topic's id, its id is made of the topic id and its file name, and
/// its file is an `.html` or `.htm` file.
pub proof fn law_scanned_notes_belong_to_topic(
    topic: TopicConfig,
    listing: TopicListing,
    snapshot: TopicSnapshot,
)
    requires
        is_scan_of(topic, listing, snapshot),
    ensures
        forall|i: int|
            0 <= i < snapshot.notes@.len() ==> note_of_topic(#[trigger] snapshot.notes@[i]@, topic@),
{
    match listing {
        TopicListing::Entries(es) => {
            let ns = scan_entries(topic@, es@).0;
            let out = notes_view(snapshot.notes@);
            lemma_entries_give_topic_notes(topic@, es@);
            let perm = choose|perm: Seq<int>| #[trigger] is_newest_first_order(ns, out, perm);
            assert forall|i: int| 0 <= i < snapshot.notes@.len() implies note_of_topic(
                #[trigger] snapshot.notes@[i]@,
                topic@,
            ) by {
                assert(out[i] == snapshot.notes@[i]@);
                assert(out[i] == ns[perm[i]]);
                assert(0 <= perm[i] < ns.len());
            }
        },
        _ => {},
    }
}

} // verus!
