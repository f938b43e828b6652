//! What the app's `app://` protocol serves: which route a request path
//! takes, how a note asset path is checked and resolved, content types, and
//! the error page.
use vstd::prelude::*;

use crate::domain::{snapshots_view, NoteEntry, NoteView, SnapshotView, TopicAvailability, TopicSnapshot};
use crate::notes::ascii_lowercase;
use crate::path::{
    components, is_rooted, join, parts_view, path_components, spec_extension, spec_join,
    spec_starts_with, starts_with, Part, PathComponent,
};
use crate::text::{append_chars, append_str, chars_eq, chars_of, push_char, str_eq, string_from_chars, strings_view, to_string};

verus! {

/// The part of the app that answers a request path.
#[derive(Debug, Clone, Copy, PartialEq, Eq, Structural)]
pub enum RequestRoute {
    Index,
    Script,
    Stylesheet,
    Topics,
    TopicSnapshots,
    AddTopic,
    Note,
    NotFound,
}

/// Whether `s` begins with `prefix`.
pub open spec fn has_prefix(s: Seq<char>, prefix: Seq<char>) -> bool {
    prefix.len() <= s.len() && s.take(prefix.len() as int) == prefix
}

/// The route of a request path.
pub open spec fn spec_route(path: Seq<char>) -> RequestRoute {
    if path == "/index.html"@ || path == "/"@ {
        RequestRoute::Index
    } else if path == "/app.js"@ {
        RequestRoute::Script
    } else if path == "/styles.css"@ {
        RequestRoute::Stylesheet
    } else if path == "/api/topics"@ {
        RequestRoute::Topics
    } else if path == "/api/topics/snapshot"@ {
        RequestRoute::TopicSnapshots
    } else if path == "/api/topics/add"@ {
        RequestRoute::AddTopic
    } else if has_prefix(path, "/notes/"@) {
        RequestRoute::Note
    } else {
        RequestRoute::NotFound
    }
}

/// Whether `s` begins with `prefix`.
pub fn starts_with_text(s: &str, prefix: &str) -> (r: bool)
    ensures
        r == has_prefix(s@, prefix@),
{
    let sc = chars_of(s);
    let pc = chars_of(prefix);
    if pc.len() > sc.len() {
        return false;
    }
    let head = crate::path::name_slice(&sc, 0, pc.len());
    assert(head@ == s@.take(prefix@.len() as int));
    chars_eq(head.as_slice(), pc.as_slice())
}

/// The route of request path `path`.
pub fn route_request(path: &str) -> (r: RequestRoute)
    ensures
        r == spec_route(path@),
{
    if str_eq(path, "/index.html") || str_eq(path, "/") {
        RequestRoute::Index
    } else if str_eq(path, "/app.js") {
        RequestRoute::Script
    } else if str_eq(path, "/styles.css") {
        RequestRoute::Stylesheet
    } else if str_eq(path, "/api/topics") {
        RequestRoute::Topics
    } else if str_eq(path, "/api/topics/snapshot") {
        RequestRoute::TopicSnapshots
    } else if str_eq(path, "/api/topics/add") {
        RequestRoute::AddTopic
    } else if starts_with_text(path, "/notes/") {
        RequestRoute::Note
    } else {
        RequestRoute::NotFound
    }
}

/// Why a note route is refused.
#[derive(Debug, Clone, Copy, PartialEq, Eq, Structural)]
pub enum RouteError {
    InvalidRoute,
    MissingNoteId,
}

impl RouteError {
    /// A message for the user.
    pub fn message(&self) -> (r: String)
        ensures
            r@ == match self {
                RouteError::InvalidRoute => "invalid note route"@,
                RouteError::MissingNoteId => "missing note id"@,
            },
    {
        match self {
            RouteError::InvalidRoute => to_string("invalid note route"),
            RouteError::MissingNoteId => to_string("missing note id"),
        }
    }
}

/// The position of the first `c` in `s`, or -1.
pub open spec fn first_index_of(s: Seq<char>, c: char) -> int
    decreases s.len(),
{
    if s.len() == 0 {
        -1
    } else if s[0] == c {
        0
    } else {
        let k = first_index_of(s.drop_first(), c);
        if k < 0 {
            -1
        } else {
            k + 1
        }
    }
}

proof fn lemma_first_index_of(s: Seq<char>, c: char)
    ensures
        -1 <= first_index_of(s, c) < s.len(),
        first_index_of(s, c) >= 0 ==> s[first_index_of(s, c)] == c,
        forall|j: int|
            0 <= j < s.len() && (first_index_of(s, c) < 0 || j < first_index_of(s, c)) ==> s[j] != c,
    decreases s.len(),
{
    if s.len() > 0 && s[0] != c {
        lemma_first_index_of(s.drop_first(), c);
        assert forall|j: int|
            0 <= j < s.len() && (first_index_of(s, c) < 0 || j < first_index_of(s, c)) implies s[j] != c by {
            if j > 0 {
                assert(s.drop_first()[j - 1] == s[j]);
            }
        }
    }
}

/// A note route `/notes/{id}/{asset}` split into the note id and the asset
/// path ("index.html" when missing or empty).
pub open spec fn spec_parse_note_route(path: Seq<char>) -> Result<(Seq<char>, Seq<char>), RouteError> {
    let prefix = "/notes/"@;
    if !has_prefix(path, prefix) {
        Err(RouteError::InvalidRoute)
    } else {
        let tail = path.skip(prefix.len() as int);
        let k = first_index_of(tail, '/');
        let note_id = if k < 0 {
            tail
        } else {
            tail.take(k)
        };
        let asset = if k < 0 {
            "index.html"@
        } else {
            tail.skip(k + 1)
        };
        if note_id.len() == 0 {
            Err(RouteError::MissingNoteId)
        } else if asset.len() == 0 {
            Ok((note_id, "index.html"@))
        } else {
            Ok((note_id, asset))
        }
    }
}

/// The note id and asset path of a note route.
pub fn parse_note_route(path: &str) -> (r: Result<(String, String), RouteError>)
    ensures
        match spec_parse_note_route(path@) {
            Ok((id, asset)) => r is Ok && r->Ok_0.0@ == id && r->Ok_0.1@ == asset,
            Err(e) => r == Err::<(String, String), RouteError>(e),
        },
{
    if !starts_with_text(path, "/notes/") {
        return Err(RouteError::InvalidRoute);
    }
    let chars = chars_of(path);
    let prefix_len = chars_of("/notes/").len();
    let tail = crate::path::name_slice(&chars, prefix_len, chars.len());
    let ghost t = tail@;
    assert(t == path@.skip(prefix_len as int));
    proof {
        lemma_first_index_of(t, '/');
    }
    let mut i: usize = 0;
    while i < tail.len() && tail[i] != '/'
        invariant
            i <= tail@.len(),
            forall|j: int| 0 <= j < i ==> tail@[j] != '/',
        decreases tail@.len() - i,
    {
        i = i + 1;
    }
    let (note_id, asset) = if i == tail.len() {
        assert(first_index_of(t, '/') < 0);
        (string_from_chars(tail.as_slice()), to_string("index.html"))
    } else {
        assert(first_index_of(t, '/') == i);
        let id_chars = crate::path::name_slice(&tail, 0, i);
        let asset_chars = crate::path::name_slice(&tail, i + 1, tail.len());
        assert(asset_chars@ == t.skip(i + 1));
        (string_from_chars(id_chars.as_slice()), string_from_chars(asset_chars.as_slice()))
    };
    if note_id.as_str().is_empty() {
        return Err(RouteError::MissingNoteId);
    }
    if asset.as_str().is_empty() {
        return Ok((note_id, to_string("index.html")));
    }
    Ok((note_id, asset))
}

/// The first note, in topic order then note order, with id `note_id`.
pub open spec fn find_note_from(ts: Seq<SnapshotView>, note_id: Seq<char>, i: int) -> Option<NoteView>
    decreases ts.len() - i,
{
    if i < 0 || i >= ts.len() {
        None
    } else {
        match first_note_with_id(ts[i].notes, note_id, 0) {
            Some(n) => Some(n),
            None => find_note_from(ts, note_id, i + 1),
        }
    }
}

pub open spec fn first_note_with_id(ns: Seq<NoteView>, note_id: Seq<char>, j: int) -> Option<NoteView>
    decreases ns.len() - j,
{
    if j < 0 || j >= ns.len() {
        None
    } else if ns[j].id == note_id {
        Some(ns[j])
    } else {
        first_note_with_id(ns, note_id, j + 1)
    }
}

/// The first note, in topic order then note order, with id `note_id`.
pub fn find_note<'a>(topics: &'a Vec<TopicSnapshot>, note_id: &str) -> (r: Option<&'a NoteEntry>)
    ensures
        match r {
            Some(n) => find_note_from(snapshots_view(topics@), note_id@, 0) == Some(n@),
            None => find_note_from(snapshots_view(topics@), note_id@, 0) is None,
        },
{
    let ghost ts = snapshots_view(topics@);
    let mut i: usize = 0;
    while i < topics.len()
        invariant
            i <= topics@.len(),
            ts == snapshots_view(topics@),
            find_note_from(ts, note_id@, 0) == find_note_from(ts, note_id@, i as int),
        decreases topics@.len() - i,
    {
        let notes = &topics[i].notes;
        let ghost ns = ts[i as int].notes;
        assert(ns == crate::domain::notes_view(notes@));
        let mut j: usize = 0;
        while j < notes.len()
            invariant
                j <= notes@.len(),
                i < topics@.len(),
                ts == snapshots_view(topics@),
                ns == ts[i as int].notes,
                find_note_from(ts, note_id@, 0) == find_note_from(ts, note_id@, i as int),
                ns == crate::domain::notes_view(notes@),
                first_note_with_id(ns, note_id@, 0) == first_note_with_id(ns, note_id@, j as int),
            decreases notes@.len() - j,
        {
            assert(ns[j as int] == notes@[j as int]@);
            if str_eq(notes[j].id.as_str(), note_id) {
                assert(first_note_with_id(ns, note_id@, j as int) == Some(ns[j as int]));
                assert(find_note_from(ts, note_id@, i as int) == Some(ns[j as int]));
                return Some(&notes[j]);
            }
            j = j + 1;
        }
        i = i + 1;
    }
    None
}

/// Why a note asset cannot be served.
#[derive(Debug, Clone, PartialEq, Eq)]
pub enum AssetError {
    NoteNotFound(String),
    AbsolutePath,
    EscapesNoteFolder,
    AssetNotFound(String),
}

impl AssetError {
    /// A message for the user.
    pub fn message(&self) -> (r: String)
        ensures
            r@ == match self {
                AssetError::NoteNotFound(id) => "note "@ + id@ + " was not found"@,
                AssetError::AbsolutePath => "absolute note asset paths are not allowed"@,
                AssetError::EscapesNoteFolder => "note asset path may not escape the note folder"@,
                AssetError::AssetNotFound(p) => "note asset "@ + p@ + " was not found"@,
            },
    {
        match self {
            AssetError::NoteNotFound(id) => {
                let mut r = to_string("note ");
                append_str(&mut r, id.as_str());
                append_str(&mut r, " was not found");
                r
            },
            AssetError::AbsolutePath => to_string("absolute note asset paths are not allowed"),
            AssetError::EscapesNoteFolder => to_string("note asset path may not escape the note folder"),
            AssetError::AssetNotFound(p) => {
                let mut r = to_string("note asset ");
                append_str(&mut r, p.as_str());
                append_str(&mut r, " was not found");
                r
            },
        }
    }
}

/// The normal names among `parts`, joined by `/`.
pub open spec fn join_normals(parts: Seq<Part>) -> Seq<char>
    decreases parts.len(),
{
    if parts.len() == 0 {
        Seq::empty()
    } else {
        let prev = join_normals(parts.drop_last());
        match parts.last() {
            Part::Normal(name) => if prev.len() == 0 {
                name
            } else {
                prev + seq!['/'] + name
            },
            _ => prev,
        }
    }
}

/// Whether some component leaves the folder it starts from (`..` or the
/// root).
pub open spec fn has_escape(parts: Seq<Part>) -> bool {
    exists|i: int| 0 <= i < parts.len() && (parts[i] is ParentDir || parts[i] is RootDir)
}

/// An asset path made safe: absolute paths and paths with `..` are refused;
/// `.` components are dropped; an empty path means "index.html".
pub open spec fn spec_safe_relative_asset_path(asset: Seq<char>) -> Result<Seq<char>, AssetError> {
    let parts = path_components(asset);
    if is_rooted(asset) {
        Err(AssetError::AbsolutePath)
    } else if has_escape(parts) {
        Err(AssetError::EscapesNoteFolder)
    } else if join_normals(parts).len() == 0 {
        Ok("index.html"@)
    } else {
        Ok(join_normals(parts))
    }
}

/// The asset path made safe to look up inside a note's folder.
pub fn safe_relative_asset_path(asset_path: &str) -> (r: Result<String, AssetError>)
    ensures
        match spec_safe_relative_asset_path(asset_path@) {
            Ok(p) => r is Ok && r->Ok_0@ == p,
            Err(e) => r == Err::<String, AssetError>(e),
        },
{
    if crate::path::is_absolute(asset_path) {
        return Err(AssetError::AbsolutePath);
    }
    let parts = components(asset_path);
    let ghost pv = parts_view(parts@);
    let mut safe: Vec<char> = Vec::new();
    let mut i: usize = 0;
    assert(pv.take(0) =~= Seq::<Part>::empty());
    while i < parts.len()
        invariant
            i <= parts@.len(),
            pv == parts_view(parts@),
            pv == path_components(asset_path@),
            !is_rooted(asset_path@),
            safe@ == join_normals(pv.take(i as int)),
            !has_escape(pv.take(i as int)),
        decreases parts@.len() - i,
    {
        assert(pv.take(i + 1).drop_last() == pv.take(i as int));
        assert(pv.take(i + 1).last() == parts@[i as int]@);
        match &parts[i] {
            PathComponent::Normal(name) => {
                if safe.len() > 0 {
                    safe.push('/');
                }
                let mut j: usize = 0;
                let ghost before = safe@;
                while j < name.len()
                    invariant
                        j <= name@.len(),
                        safe@ == before + name@.take(j as int),
                    decreases name@.len() - j,
                {
                    safe.push(name[j]);
                    j = j + 1;
                    assert(safe@ =~= before + name@.take(j as int));
                }
                assert(name@.take(j as int) == name@);
            },
            PathComponent::CurDir => {},
            _ => {
                assert(has_escape(pv)) by {
                    assert(pv[i as int] == parts@[i as int]@);
                }
                return Err(AssetError::EscapesNoteFolder);
            },
        }
        i = i + 1;
        assert(!has_escape(pv.take(i as int))) by {
            if has_escape(pv.take(i as int)) {
                let k = choose|k: int|
                    0 <= k < pv.take(i as int).len() && (pv.take(i as int)[k] is ParentDir || pv.take(
                        i as int,
                    )[k] is RootDir);
                if k < i - 1 {
                    assert(pv.take(i - 1)[k] == pv.take(i as int)[k]);
                }
            }
        }
    }
    assert(pv.take(i as int) == pv);
    if safe.len() == 0 {
        Ok(to_string("index.html"))
    } else {
        Ok(string_from_chars(safe.as_slice()))
    }
}

/// The file a note route asks for: the note's own file for "index.html",
/// otherwise the asset path under the note's folder. Whether the file
/// exists and stays inside the folder is checked on disk afterwards.
pub open spec fn spec_asset_candidate(note: NoteView, relative: Seq<char>) -> Seq<char> {
    if path_components(relative) == path_components("index.html"@) {
        note.index_html_path
    } else {
        spec_join(note.folder_path, relative)
    }
}

/// The file that the route for note `note_id` and `asset_path` names.
pub fn resolve_note_asset(topics: &Vec<TopicSnapshot>, note_id: &str, asset_path: &str) -> (r: Result<
    String,
    AssetError,
>)
    ensures
        match find_note_from(snapshots_view(topics@), note_id@, 0) {
            None => match r {
                Err(AssetError::NoteNotFound(id)) => id@ == note_id@,
                _ => false,
            },
            Some(note) => match spec_safe_relative_asset_path(asset_path@) {
                Err(e) => r == Err::<String, AssetError>(e),
                Ok(rel) => r is Ok && r->Ok_0@ == spec_asset_candidate(note, rel),
            },
        },
{
    let note = match find_note(topics, note_id) {
        Some(n) => n,
        None => {
            return Err(AssetError::NoteNotFound(to_string(note_id)));
        },
    };
    let relative = match safe_relative_asset_path(asset_path) {
        Ok(p) => p,
        Err(e) => {
            return Err(e);
        },
    };
    if crate::path::path_eq(relative.as_str(), "index.html") {
        Ok(note.index_html_path.clone())
    } else {
        Ok(join(note.folder_path.as_str(), relative.as_str()))
    }
}

/// Accepts an asset only inside the note's folder (both paths as resolved
/// on disk), compared component by component.
pub fn ensure_asset_is_inside_note_folder(note_folder: &str, asset_path: &str) -> (r: Result<
    (),
    AssetError,
>)
    ensures
        r is Ok <==> spec_starts_with(asset_path@, note_folder@),
        r is Err ==> r == Err::<(), AssetError>(AssetError::EscapesNoteFolder),
{
    if starts_with(asset_path, note_folder) {
        Ok(())
    } else {
        Err(AssetError::EscapesNoteFolder)
    }
}

/// The content type for a file, by its extension in any ASCII case.
pub open spec fn spec_content_type(path: Seq<char>) -> Seq<char> {
    let e = match spec_extension(path) {
        Some(x) => ascii_lowercase(x),
        None => Seq::empty(),
    };
    if e == "html"@ || e == "htm"@ {
        "text/html"@
    } else if e == "css"@ {
        "text/css"@
    } else if e == "js"@ {
        "text/javascript"@
    } else if e == "json"@ {
        "application/json"@
    } else if e == "png"@ {
        "image/png"@
    } else if e == "jpg"@ || e == "jpeg"@ {
        "image/jpeg"@
    } else if e == "gif"@ {
        "image/gif"@
    } else if e == "svg"@ {
        "image/svg+xml"@
    } else if e == "webp"@ {
        "image/webp"@
    } else if e == "ico"@ {
        "image/x-icon"@
    } else if e == "woff"@ {
        "font/woff"@
    } else if e == "woff2"@ {
        "font/woff2"@
    } else {
        "application/octet-stream"@
    }
}

/// The content type for the file at `path`.
pub fn content_type_for_path(path: &str) -> (r: &'static str)
    ensures
        r@ == spec_content_type(path@),
{
    let lower = match crate::path::extension(path) {
        Some(ext) => crate::notes::ascii_lowercase_exec(&ext),
        None => String::new(),
    };
    let e = lower.as_str();
    if str_eq(e, "html") || str_eq(e, "htm") {
        "text/html"
    } else if str_eq(e, "css") {
        "text/css"
    } else if str_eq(e, "js") {
        "text/javascript"
    } else if str_eq(e, "json") {
        "application/json"
    } else if str_eq(e, "png") {
        "image/png"
    } else if str_eq(e, "jpg") || str_eq(e, "jpeg") {
        "image/jpeg"
    } else if str_eq(e, "gif") {
        "image/gif"
    } else if str_eq(e, "svg") {
        "image/svg+xml"
    } else if str_eq(e, "webp") {
        "image/webp"
    } else if str_eq(e, "ico") {
        "image/x-icon"
    } else if str_eq(e, "woff") {
        "font/woff"
    } else if str_eq(e, "woff2") {
        "font/woff2"
    } else {
        "application/octet-stream"
    }
}

/// How a char is written in escaped HTML text: `&`, `<` and `>` as
/// entities, any other char as itself.
pub open spec fn escaped_char(c: char) -> Seq<char> {
    if c == '&' {
        "&amp;"@
    } else if c == '<' {
        "&lt;"@
    } else if c == '>' {
        "&gt;"@
    } else {
        seq![c]
    }
}

/// `s` with `&`, `<` and `>` replaced by their entities.
pub open spec fn spec_escape_html(s: Seq<char>) -> Seq<char>
    decreases s.len(),
{
    if s.len() == 0 {
        Seq::empty()
    } else {
        spec_escape_html(s.drop_last()) + escaped_char(s.last())
    }
}

/// `message` with `&`, `<` and `>` replaced by their entities.
pub fn escape_html(message: &str) -> (r: String)
    ensures
        r@ == spec_escape_html(message@),
{
    let chars = chars_of(message);
    let mut r = String::new();
    let mut i: usize = 0;
    assert(chars@.take(0) =~= Seq::<char>::empty());
    while i < chars.len()
        invariant
            i <= chars@.len(),
            chars@ == message@,
            r@ == spec_escape_html(chars@.take(i as int)),
        decreases chars@.len() - i,
    {
        let c = chars[i];
        assert(chars@.take(i + 1).drop_last() == chars@.take(i as int));
        if c == '&' {
            append_str(&mut r, "&amp;");
        } else if c == '<' {
            append_str(&mut r, "&lt;");
        } else if c == '>' {
            append_str(&mut r, "&gt;");
        } else {
            push_char(&mut r, c);
        }
        i = i + 1;
    }
    assert(chars@.take(i as int) == chars@);
    r
}

/// The HTML page shown when a note cannot be rendered.
pub open spec fn spec_error_page(message: Seq<char>) -> Seq<char> {
    "<!doctype html><html><body><h1>Unable to render note</h1><p>"@ + spec_escape_html(message)
        + "</p></body></html>"@
}

/// The HTML page shown when a note cannot be rendered, with the (escaped)
/// message.
pub fn error_page(message: &str) -> (r: String)
    ensures
        r@ == spec_error_page(message@),
{
    let mut r = to_string("<!doctype html><html><body><h1>Unable to render note</h1><p>");
    let escaped = escape_html(message);
    append_str(&mut r, escaped.as_str());
    append_str(&mut r, "</p></body></html>");
    r
}

/// The availability a snapshot shows after the missing-folder prompt: a
/// missing topic whose replacement was canceled is marked so.
pub open spec fn spec_after_prompt(s: SnapshotView, canceled: Seq<Seq<char>>) -> TopicAvailability {
    if canceled.contains(s.topic.id) && s.availability == TopicAvailability::Missing {
        TopicAvailability::ReplacementCanceled
    } else {
        s.availability
    }
}

/// Marks the missing topics whose replacement was canceled.
pub fn mark_replacement_canceled(snapshots: &mut Vec<TopicSnapshot>, canceled_topic_ids: &Vec<String>)
    ensures
        final(snapshots)@.len() == old(snapshots)@.len(),
        forall|i: int|
            0 <= i < final(snapshots)@.len() ==> {
                let before = old(snapshots)@[i];
                let after = #[trigger] final(snapshots)@[i];
                &&& after.topic == before.topic
                &&& after.notes@ == before.notes@
                &&& after.scan_warnings@ == before.scan_warnings@
                &&& after.availability == spec_after_prompt(before@, strings_view(canceled_topic_ids@))
            },
{
    let mut i: usize = 0;
    while i < snapshots.len()
        invariant
            i <= snapshots@.len(),
            snapshots@.len() == old(snapshots)@.len(),
            forall|k: int|
                0 <= k < snapshots@.len() ==> {
                    let before = old(snapshots)@[k];
                    let after = #[trigger] snapshots@[k];
                    &&& after.topic == before.topic
                    &&& after.notes@ == before.notes@
                    &&& after.scan_warnings@ == before.scan_warnings@
                    &&& after.availability == if k < i {
                        spec_after_prompt(before@, strings_view(canceled_topic_ids@))
                    } else {
                        before.availability
                    }
                },
        decreases snapshots@.len() - i,
    {
        let canceled = crate::config::contains_id(canceled_topic_ids, snapshots[i].topic.id.as_str());
        if canceled && snapshots[i].availability == TopicAvailability::Missing {
            let mut updated = snapshots[i].duplicate();
            updated.availability = TopicAvailability::ReplacementCanceled;
            snapshots.set(i, updated);
        }
        i = i + 1;
    }
}

} // verus!
