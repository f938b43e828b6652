//! Scanning a topic folder for notes: which files are notes, their ids and
//! titles, and the order in which they are listed.
use vstd::prelude::*;

use crate::config::{ascii_lower, slugify, slugify_exec};
use crate::domain::{
    NoteEntry, NoteView, ScanWarning, TopicAvailability, TopicConfig, TopicConfigView, TopicSnapshot,
    WarningView, warnings_view,
};
use crate::order::{lemma_text_order, text_less, text_lt};
use crate::path::{
    components, components_less, extension, file_stem, lemma_parts_order, parent, parts_lt,
    parts_view, path_components, path_lt, spec_extension, spec_file_stem, spec_parent,
    PathComponent, Part,
};
use crate::domain::notes_view;
use crate::text::{
    append_chars, append_str, chars_eq, chars_of, lemma_trim_leading, lemma_trim_trailing, opt_view,
    str_eq, string_from_chars, strings_view, to_string, trim_both,
};

verus! {

/// The texts of the elements of HTML document `source` that match CSS
/// selector `selector`, in the order of the parsed tree's nodes (what
/// `scraper` finds).
pub uninterp spec fn spec_selected_texts(source: Seq<char>, selector: Seq<char>) -> Seq<Seq<char>>;

/// `scraper::Html::parse_document(source)`, parsed once and searched with
/// `scraper::Selector::parse(first)` and then `scraper::Selector::parse(second)`:
/// for each selector, the concatenated text of each matching element, in
/// the order of the parsed tree's nodes; no element when the selector does
/// not parse. The results are named, not described: each is a function of
/// the document's text and the selector's text alone.
#[verifier::external_body]
fn selected_texts(source: &str, first: &str, second: &str) -> (r: (Vec<String>, Vec<String>))
    ensures
        strings_view(r.0@) == spec_selected_texts(source@, first@),
        strings_view(r.1@) == spec_selected_texts(source@, second@),
{
    let document = scraper::Html::parse_document(source);
    let firsts = match scraper::Selector::parse(first) {
        Ok(parsed) => document.select(&parsed).map(|element| element.text().collect::<String>()).collect(),
        Err(_) => Vec::new(),
    };
    let seconds = match scraper::Selector::parse(second) {
        Ok(parsed) => document.select(&parsed).map(|element| element.text().collect::<String>()).collect(),
        Err(_) => Vec::new(),
    };
    (firsts, seconds)
}

/// Unicode's White_Space characters, which `char::is_whitespace` accepts
/// and `str::trim` removes.
pub open spec fn is_white_space(c: char) -> bool {
    let u = c as int;
    (0x9 <= u && u <= 0xd) || u == 0x20 || u == 0x85 || u == 0xa0 || u == 0x1680 || (0x2000 <= u
        && u <= 0x200a) || u == 0x2028 || u == 0x2029 || u == 0x202f || u == 0x205f || u == 0x3000
}

/// `s` without white space at either end, as `str::trim` gives it.
pub open spec fn trim_white_space(s: Seq<char>) -> Seq<char> {
    trim_both(s, |c: char| is_white_space(c))
}

fn is_white_space_exec(c: char) -> (r: bool)
    ensures
        r == is_white_space(c),
{
    let u = c as u32;
    (0x9 <= u && u <= 0xd) || u == 0x20 || u == 0x85 || u == 0xa0 || u == 0x1680 || (0x2000 <= u
        && u <= 0x200a) || u == 0x2028 || u == 0x2029 || u == 0x202f || u == 0x205f || u == 0x3000
}

/// `s` without white space at either end.
pub fn trim_text(s: &str) -> (r: Vec<char>)
    ensures
        r@ == trim_white_space(s@),
{
    let chars = chars_of(s);
    let n = chars.len();
    let mut start: usize = 0;
    while start < n && is_white_space_exec(chars[start])
        invariant
            start <= n == chars@.len(),
            forall|j: int| 0 <= j < start ==> is_white_space(#[trigger] chars@[j]),
        decreases n - start,
    {
        start = start + 1;
    }
    proof {
        lemma_trim_leading(chars@, |c: char| is_white_space(c), start as int);
    }
    let ghost lead = chars@.skip(start as int);
    let mut end: usize = n;
    while end > start && is_white_space_exec(chars[end - 1])
        invariant
            start <= end <= n == chars@.len(),
            forall|j: int| end <= j < n ==> is_white_space(#[trigger] chars@[j]),
        decreases end,
    {
        end = end - 1;
    }
    proof {
        assert forall|j: int| end - start <= j < lead.len() implies is_white_space(#[trigger] lead[j]) by {
            assert(lead[j] == chars@[j + start]);
        }
        if end > start {
            assert(lead[end - start - 1] == chars@[end - 1]);
        }
        lemma_trim_trailing(lead, |c: char| is_white_space(c), end - start);
        assert(lead.take(end - start) == chars@.subrange(start as int, end as int));
    }
    crate::path::name_slice(&chars, start, end)
}

/// The first of `texts`, from position `i` on, that is not blank once
/// trimmed; trimmed.
pub open spec fn first_non_blank_from(texts: Seq<Seq<char>>, i: int) -> Option<Seq<char>>
    decreases texts.len() - i,
{
    if i < 0 || i >= texts.len() {
        None
    } else if trim_white_space(texts[i]).len() > 0 {
        Some(trim_white_space(texts[i]))
    } else {
        first_non_blank_from(texts, i + 1)
    }
}

/// The trimmed text of the first element matching `selector` whose text is
/// not blank.
pub open spec fn spec_first_non_empty_text(source: Seq<char>, selector: Seq<char>) -> Option<
    Seq<char>,
> {
    first_non_blank_from(spec_selected_texts(source, selector), 0)
}

/// The first of the texts of the matching elements that is not blank,
/// trimmed.
pub fn first_non_empty_text(texts: &Vec<String>) -> (r: Option<String>)
    ensures
        opt_view(r) == first_non_blank_from(strings_view(texts@), 0),
{
    let ghost tv = strings_view(texts@);
    let mut i: usize = 0;
    while i < texts.len()
        invariant
            i <= texts@.len(),
            tv == strings_view(texts@),
            first_non_blank_from(tv, 0) == first_non_blank_from(tv, i as int),
        decreases texts@.len() - i,
    {
        let trimmed = trim_text(texts[i].as_str());
        assert(tv[i as int] == texts@[i as int]@);
        if trimmed.len() > 0 {
            return Some(string_from_chars(trimmed.as_slice()));
        }
        i = i + 1;
    }
    None
}

/// The title taken from the file name: its stem, unless that is missing or
/// blank, in which case "Untitled note".
pub open spec fn spec_title_from_file(path: Seq<char>) -> Seq<char> {
    match spec_file_stem(path) {
        Some(stem) => if trim_white_space(stem).len() > 0 {
            stem
        } else {
            "Untitled note"@
        },
        None => "Untitled note"@,
    }
}

/// The title of a note: the first non-blank `<title>`, else the first
/// non-blank `<h1>`, else the file name without its extension.
pub open spec fn spec_note_title(path: Seq<char>, source: Seq<char>) -> Seq<char> {
    match spec_first_non_empty_text(source, "title"@) {
        Some(t) => t,
        None => match spec_first_non_empty_text(source, "h1"@) {
            Some(h) => h,
            None => spec_title_from_file(path),
        },
    }
}

/// The title taken from the file name of `path`.
pub fn note_title_from_file(path: &str) -> (r: String)
    ensures
        r@ == spec_title_from_file(path@),
{
    match file_stem(path) {
        Some(stem) => {
            let stem_text = string_from_chars(stem.as_slice());
            let trimmed = trim_text(stem_text.as_str());
            if trimmed.len() > 0 {
                stem_text
            } else {
                to_string("Untitled note")
            }
        },
        None => to_string("Untitled note"),
    }
}

/// The title of the note in file `path` with HTML `source`.
pub fn note_title_from_html(path: &str, source: &str) -> (r: String)
    ensures
        r@ == spec_note_title(path@, source@),
{
    let (titles, headings) = selected_texts(source, "title", "h1");
    match first_non_empty_text(&titles) {
        Some(title) => title,
        None => match first_non_empty_text(&headings) {
            Some(heading) => heading,
            None => note_title_from_file(path),
        },
    }
}

/// The slug used in a note id ("note" when nothing is left).
pub fn slugify_note_id(title: &str) -> (r: String)
    ensures
        r@ == slugify(title@, "note"@),
{
    slugify_exec(title, "note")
}

/// The id of the note in file `path` of topic `topic_id`: the topic id, a
/// colon, and the slug of the file stem ("note" without one).
pub open spec fn spec_note_id(topic_id: Seq<char>, path: Seq<char>) -> Seq<char> {
    let stem = match spec_file_stem(path) {
        Some(s) => s,
        None => "note"@,
    };
    topic_id + seq![':'] + slugify(stem, "note"@)
}

/// The id of the note in file `html_path` of topic `topic_id`.
pub fn note_id(topic_id: &str, html_path: &str) -> (r: String)
    ensures
        r@ == spec_note_id(topic_id@, html_path@),
{
    let stem = match file_stem(html_path) {
        Some(s) => string_from_chars(s.as_slice()),
        None => to_string("note"),
    };
    let slug = slugify_note_id(stem.as_str());
    let mut r = to_string(topic_id);
    crate::text::push_char(&mut r, ':');
    append_str(&mut r, slug.as_str());
    r
}

/// The text with ASCII letters lower-cased.
pub open spec fn ascii_lowercase(s: Seq<char>) -> Seq<char> {
    s.map_values(|c: char| ascii_lower(c))
}

/// Whether `path` names a note file: a file whose extension is `html` or
/// `htm`, in any ASCII case.
pub open spec fn spec_is_html_file(path: Seq<char>, is_file: bool) -> bool {
    is_file && match spec_extension(path) {
        Some(ext) => ascii_lowercase(ext) == "html"@ || ascii_lowercase(ext) == "htm"@,
        None => false,
    }
}

pub(crate) fn ascii_lowercase_exec(s: &Vec<char>) -> (r: String)
    ensures
        r@ == ascii_lowercase(s@),
{
    let mut out: Vec<char> = Vec::new();
    let mut i: usize = 0;
    while i < s.len()
        invariant
            i <= s@.len(),
            out@ == ascii_lowercase(s@).take(i as int),
        decreases s@.len() - i,
    {
        let c = s[i];
        let lower = if 'A' <= c && c <= 'Z' {
            let code = c as u8;
            assert(code as int == c as int);
            (code + 32) as char
        } else {
            c
        };
        out.push(lower);
        i = i + 1;
        assert(out@ =~= ascii_lowercase(s@).take(i as int));
    }
    assert(ascii_lowercase(s@).take(i as int) == ascii_lowercase(s@));
    string_from_chars(out.as_slice())
}

/// Whether `path` (a file when `is_file`) is a note file.
pub fn is_html_file(path: &str, is_file: bool) -> (r: bool)
    ensures
        r == spec_is_html_file(path@, is_file),
{
    if !is_file {
        return false;
    }
    match extension(path) {
        Some(ext) => {
            let lower = ascii_lowercase_exec(&ext);
            str_eq(lower.as_str(), "html") || str_eq(lower.as_str(), "htm")
        },
        None => false,
    }
}

/// The contents of a note file as read from disk: its HTML text and its
/// modification time in nanoseconds since the Unix epoch.
#[derive(Debug, Clone, PartialEq, Eq)]
pub struct NoteFile {
    pub source: String,
    pub modified_at: u128,
}

/// The note built from file `path` of topic `topic`, or why there is none:
/// not an HTML file, or the error met reading it.
pub open spec fn spec_build_note(
    topic: TopicConfigView,
    path: Seq<char>,
    is_file: bool,
    contents: Result<NoteFile, String>,
) -> Result<NoteView, Seq<char>> {
    if !spec_is_html_file(path, is_file) {
        Err("not an HTML file"@)
    } else {
        match contents {
            Err(e) => Err(e@),
            Ok(file) => Ok(
                NoteView {
                    id: spec_note_id(topic.id, path),
                    topic_id: topic.id,
                    title: spec_note_title(path, file.source@),
                    folder_path: match spec_parent(path) {
                        Some(p) => p,
                        None => "."@,
                    },
                    index_html_path: path,
                    modified_at: file.modified_at,
                },
            ),
        }
    }
}

/// The note in file `html_path` of `topic`, from what reading the file gave.
pub fn build_note_entry(
    topic: &TopicConfig,
    html_path: &str,
    is_file: bool,
    contents: &Result<NoteFile, String>,
) -> (r: Result<NoteEntry, String>)
    ensures
        match r {
            Ok(n) => spec_build_note(topic@, html_path@, is_file, *contents) == Ok::<NoteView, Seq<char>>(n@),
            Err(e) => spec_build_note(topic@, html_path@, is_file, *contents) == Err::<NoteView, Seq<char>>(e@),
        },
{
    if !is_html_file(html_path, is_file) {
        return Err(to_string("not an HTML file"));
    }
    match contents {
        Err(e) => Err(e.clone()),
        Ok(file) => {
            let title = note_title_from_html(html_path, file.source.as_str());
            let id = note_id(topic.id.as_str(), html_path);
            let folder_path = match parent(html_path) {
                Some(p) => p,
                None => to_string("."),
            };
            Ok(
                NoteEntry {
                    id,
                    topic_id: topic.id.clone(),
                    title,
                    folder_path,
                    index_html_path: to_string(html_path),
                    modified_at: file.modified_at,
                },
            )
        },
    }
}

/// The lower-case form of a text, as `str::to_lowercase` gives it (Unicode
/// lower-case mapping).
pub uninterp spec fn spec_lowercase(s: Seq<char>) -> Seq<char>;

/// `str::to_lowercase`: the text with each char replaced by its Unicode
/// lower-case mapping. Named, not described: a function of `s` alone.
#[verifier::external_body]
fn lowercase(s: &str) -> (r: String)
    ensures
        r@ == spec_lowercase(s@),
{
    s.to_lowercase()
}

/// Whether note `a` is listed before note `b`: newer first, then by
/// lower-cased title, then by file path.
pub open spec fn note_before(a: NoteView, b: NoteView) -> bool {
    a.modified_at > b.modified_at || (a.modified_at == b.modified_at && (text_lt(
        spec_lowercase(a.title),
        spec_lowercase(b.title),
    ) || (spec_lowercase(a.title) == spec_lowercase(b.title) && path_lt(
        a.index_html_path,
        b.index_html_path,
    ))))
}

/// Whether notes `a` and `b` rank equal in the listing order.
pub open spec fn same_rank(a: NoteView, b: NoteView) -> bool {
    a.modified_at == b.modified_at && spec_lowercase(a.title) == spec_lowercase(b.title)
        && path_components(a.index_html_path) == path_components(b.index_html_path)
}

/// Whether the note at position `i` of `ns` is listed before the one at
/// `j`, notes of equal rank keeping their positions (a stable sort).
pub open spec fn index_before(ns: Seq<NoteView>, i: int, j: int) -> bool {
    note_before(ns[i], ns[j]) || (same_rank(ns[i], ns[j]) && i < j)
}

/// `output` is `input` arranged by `perm` (output position `i` holds input
/// position `perm[i]`) in listing order, ties kept in input order.
pub open spec fn is_newest_first_order(input: Seq<NoteView>, output: Seq<NoteView>, perm: Seq<int>) -> bool {
    &&& perm.len() == input.len()
    &&& output.len() == input.len()
    &&& forall|i: int| 0 <= i < perm.len() ==> 0 <= #[trigger] perm[i] < input.len()
    &&& perm.no_duplicates()
    &&& forall|i: int| 0 <= i < output.len() ==> #[trigger] output[i] == input[perm[i]]
    &&& forall|i: int, j: int|
        0 <= i < j < output.len() ==> index_before(input, #[trigger] perm[i], #[trigger] perm[j])
}

/// `output` is `input` sorted stably into listing order: newest first, then
/// by lower-cased title, then by file path.
pub open spec fn sorted_newest_first(input: Seq<NoteView>, output: Seq<NoteView>) -> bool {
    exists|perm: Seq<int>| #[trigger] is_newest_first_order(input, output, perm)
}

/// The listing order ranks notes: irreflexive and transitive, with equal
/// rank between notes that neither precedes.
pub proof fn lemma_rank_order(a: NoteView, b: NoteView, c: NoteView)
    ensures
        !note_before(a, a),
        same_rank(a, a),
        note_before(a, b) && note_before(b, c) ==> note_before(a, c),
        note_before(a, b) && same_rank(b, c) ==> note_before(a, c),
        same_rank(a, b) && note_before(b, c) ==> note_before(a, c),
        same_rank(a, b) && same_rank(b, c) ==> same_rank(a, c),
        same_rank(a, b) ==> same_rank(b, a),
        note_before(a, b) ==> !note_before(b, a) && !same_rank(a, b),
        !note_before(a, b) && !note_before(b, a) ==> same_rank(a, b),
{
    lemma_text_order();
    lemma_parts_order();
    let t = |x: Seq<char>, y: Seq<char>| text_lt(x, y);
    let p = |x: Seq<Part>, y: Seq<Part>| parts_lt(x, y);
    let (la, lb, lc) = (spec_lowercase(a.title), spec_lowercase(b.title), spec_lowercase(c.title));
    let (pa, pb, pc) = (
        path_components(a.index_html_path),
        path_components(b.index_html_path),
        path_components(c.index_html_path),
    );
    assert(t(la, la) == text_lt(la, la));
    assert(t(la, lb) == text_lt(la, lb));
    assert(t(lb, la) == text_lt(lb, la));
    assert(t(lb, lc) == text_lt(lb, lc));
    assert(t(la, lc) == text_lt(la, lc));
    assert(p(pa, pa) == parts_lt(pa, pa));
    assert(p(pa, pb) == parts_lt(pa, pb));
    assert(p(pb, pa) == parts_lt(pb, pa));
    assert(p(pb, pc) == parts_lt(pb, pc));
    assert(p(pa, pc) == parts_lt(pa, pc));
}

proof fn lemma_index_before_transitive(ns: Seq<NoteView>, i: int, j: int, k: int)
    requires
        index_before(ns, i, j),
        index_before(ns, j, k),
    ensures
        index_before(ns, i, k),
{
    lemma_rank_order(ns[i], ns[j], ns[k]);
}

/// What the listing order reads of a note, computed once.
struct SortKey {
    modified: u128,
    title: Vec<char>,
    file: Vec<PathComponent>,
}

spec fn key_matches(k: SortKey, n: NoteView) -> bool {
    &&& k.modified == n.modified_at
    &&& k.title@ == spec_lowercase(n.title)
    &&& parts_view(k.file@) == path_components(n.index_html_path)
}

fn key_before(a: &SortKey, b: &SortKey, Ghost(na): Ghost<NoteView>, Ghost(nb): Ghost<NoteView>) -> (r: bool)
    requires
        key_matches(*a, na),
        key_matches(*b, nb),
    ensures
        r == note_before(na, nb),
{
    if a.modified != b.modified {
        return a.modified > b.modified;
    }
    if text_less(a.title.as_slice(), b.title.as_slice()) {
        return true;
    }
    if !crate::text::chars_eq(a.title.as_slice(), b.title.as_slice()) {
        return false;
    }
    components_less(&a.file, &b.file)
}

/// Sorts notes into listing order: newest first, then by lower-cased
/// title, then by file path; a stable sort.
pub fn sort_notes_newest_first(notes: &mut Vec<NoteEntry>)
    ensures
        sorted_newest_first(notes_view(old(notes)@), notes_view(final(notes)@)),
{
    let ghost input = notes_view(notes@);
    let n = notes.len();
    let mut keys: Vec<SortKey> = Vec::new();
    let mut i: usize = 0;
    while i < n
        invariant
            n == notes@.len(),
            input == notes_view(notes@),
            i <= n,
            keys@.len() == i,
            forall|k: int| 0 <= k < i ==> key_matches(#[trigger] keys@[k], input[k]),
        decreases n - i,
    {
        let lowered = lowercase(notes[i].title.as_str());
        let key = SortKey {
            modified: notes[i].modified_at,
            title: chars_of(lowered.as_str()),
            file: components(notes[i].index_html_path.as_str()),
        };
        assert(input[i as int] == notes@[i as int]@);
        keys.push(key);
        i = i + 1;
    }
    let mut order: Vec<usize> = Vec::new();
    let mut m: usize = 0;
    while m < n
        invariant
            n == notes@.len(),
            input == notes_view(notes@),
            keys@.len() == n,
            forall|k: int| 0 <= k < n ==> key_matches(#[trigger] keys@[k], input[k]),
            m <= n,
            order@.len() == m,
            forall|a: int| 0 <= a < m ==> #[trigger] order@[a] < m,
            order@.no_duplicates(),
            forall|a: int, b: int|
                0 <= a < b < m ==> index_before(
                    input,
                    #[trigger] order@[a] as int,
                    #[trigger] order@[b] as int,
                ),
        decreases n - m,
    {
        let mut pos: usize = 0;
        while pos < m && !key_before(
            &keys[m],
            &keys[order[pos]],
            Ghost(input[m as int]),
            Ghost(input[order@[pos as int] as int]),
        )
            invariant
                pos <= m < n,
                order@.len() == m,
                keys@.len() == n,
                forall|k: int| 0 <= k < n ==> key_matches(#[trigger] keys@[k], input[k]),
                forall|a: int| 0 <= a < m ==> #[trigger] order@[a] < m,
                forall|a: int| 0 <= a < pos ==> !note_before(input[m as int], input[#[trigger] order@[a] as int]),
            decreases m - pos,
        {
            pos = pos + 1;
        }
        let ghost old_order = order@;
        proof {
            if pos < m {
                assert(note_before(input[m as int], input[order@[pos as int] as int]));
            }
        }
        order.insert(pos, m);
        proof {
            assert(order@ == old_order.insert(pos as int, m));
            assert forall|a: int| 0 <= a < m + 1 implies #[trigger] order@[a] < m + 1 by {
                if a < pos {
                    assert(order@[a] == old_order[a]);
                } else if a > pos {
                    assert(order@[a] == old_order[a - 1]);
                }
            }
            assert forall|a: int, b: int| 0 <= a < b < m + 1 && order@[a] == order@[b] implies false by {
                if a < pos {
                    assert(order@[a] == old_order[a]);
                } else if a > pos {
                    assert(order@[a] == old_order[a - 1]);
                }
                if b < pos {
                    assert(order@[b] == old_order[b]);
                } else if b > pos {
                    assert(order@[b] == old_order[b - 1]);
                }
            }
            assert forall|a: int, b: int| 0 <= a < b < m + 1 implies index_before(
                input,
                #[trigger] order@[a] as int,
                #[trigger] order@[b] as int,
            ) by {
                let x = order@[a] as int;
                let y = order@[b] as int;
                if b < pos {
                    assert(order@[a] == old_order[a] && order@[b] == old_order[b]);
                } else if b == pos {
                    assert(order@[a] == old_order[a]);
                    assert(!note_before(input[m as int], input[x]));
                    lemma_rank_order(input[x], input[m as int], input[x]);
                    assert(x < m);
                } else if a > pos {
                    assert(order@[a] == old_order[a - 1] && order@[b] == old_order[b - 1]);
                } else if a == pos {
                    assert(order@[b] == old_order[b - 1]);
                    let first = old_order[pos as int] as int;
                    assert(note_before(input[m as int], input[first]));
                    if b - 1 > pos {
                        assert(index_before(input, first, y));
                        lemma_index_before_transitive(input, m as int, first, y);
                    }
                } else {
                    assert(order@[a] == old_order[a] && order@[b] == old_order[b - 1]);
                    assert(index_before(input, x, old_order[pos as int] as int) || a == pos);
                    let first = old_order[pos as int] as int;
                    assert(index_before(input, x, first));
                    if b - 1 > pos {
                        assert(index_before(input, first, y));
                        lemma_index_before_transitive(input, x, first, y);
                    }
                }
            }
        }
        m = m + 1;
    }
    let mut out: Vec<NoteEntry> = Vec::new();
    let mut k: usize = 0;
    while k < n
        invariant
            n == notes@.len(),
            input == notes_view(notes@),
            order@.len() == n,
            forall|a: int| 0 <= a < n ==> #[trigger] order@[a] < n,
            k <= n,
            out@.len() == k,
            forall|a: int| 0 <= a < k ==> #[trigger] out@[a] == notes@[order@[a] as int],
        decreases n - k,
    {
        out.push(notes[order[k]].duplicate());
        k = k + 1;
    }
    let ghost perm = order@.map_values(|x: usize| x as int);
    proof {
        assert(perm.no_duplicates()) by {
            assert forall|a: int, b: int| 0 <= a < perm.len() && 0 <= b < perm.len() && a != b implies perm[a]
                != perm[b] by {
                assert(order@[a] != order@[b]);
            }
        }
        assert(is_newest_first_order(input, notes_view(out@), perm));
    }
    *notes = out;
}

/// One entry of a topic folder as listed from disk: an entry that could not
/// be read, or a path with whether it is a file and, for note files, what
/// reading it gave.
#[derive(Debug, Clone, PartialEq, Eq)]
pub enum TopicEntry {
    Unreadable { error: String },
    Listed { path: String, is_file: bool, contents: Option<Result<NoteFile, String>> },
}

/// A topic folder as listed from disk, entries in the order listed.
#[derive(Debug, Clone, PartialEq, Eq)]
pub enum TopicListing {
    Missing,
    Unreadable { error: String },
    Entries(Vec<TopicEntry>),
}

/// The notes (in listing order) and warnings that the entries give: an
/// unreadable entry is a warning on the topic folder; a note file gives a
/// note, or a warning on the file when it could not be read; other entries,
/// and note files listed without what reading them gave, are skipped.
pub open spec fn scan_entries(topic: TopicConfigView, entries: Seq<TopicEntry>) -> (
    Seq<NoteView>,
    Seq<WarningView>,
)
    decreases entries.len(),
{
    if entries.len() == 0 {
        (Seq::empty(), Seq::empty())
    } else {
        let (ns, ws) = scan_entries(topic, entries.drop_last());
        match entries.last() {
            TopicEntry::Unreadable { error } => (
                ns,
                ws.push(
                    WarningView { path: topic.path, message: "failed to read topic entry: "@ + error@ },
                ),
            ),
            TopicEntry::Listed { path, is_file, contents } => {
                if !spec_is_html_file(path@, is_file) || contents is None {
                    (ns, ws)
                } else {
                    match spec_build_note(topic, path@, is_file, contents->Some_0) {
                        Ok(note) => (ns.push(note), ws),
                        Err(m) => (
                            ns,
                            ws.push(WarningView { path: path@, message: "invalid note file: "@ + m }),
                        ),
                    }
                }
            },
        }
    }
}

/// `snapshot` is what scanning `topic` with listing `listing` gives: a
/// missing folder gives one warning and availability Missing; an unreadable
/// folder one warning; otherwise the notes of the entries sorted into
/// listing order, and their warnings.
pub open spec fn is_scan_of(topic: TopicConfig, listing: TopicListing, snapshot: TopicSnapshot) -> bool {
    &&& snapshot.topic == topic
    &&& match listing {
        TopicListing::Missing => {
            &&& snapshot.notes@.len() == 0
            &&& warnings_view(snapshot.scan_warnings@) == seq![
                WarningView { path: topic.path@, message: "topic folder is missing"@ },
            ]
            &&& snapshot.availability == TopicAvailability::Missing
        },
        TopicListing::Unreadable { error } => {
            &&& snapshot.notes@.len() == 0
            &&& warnings_view(snapshot.scan_warnings@) == seq![
                WarningView { path: topic.path@, message: "failed to scan topic folder: "@ + error@ },
            ]
            &&& snapshot.availability == TopicAvailability::Available
        },
        TopicListing::Entries(es) => {
            let (ns, ws) = scan_entries(topic@, es@);
            &&& sorted_newest_first(ns, notes_view(snapshot.notes@))
            &&& warnings_view(snapshot.scan_warnings@) == ws
            &&& snapshot.availability == TopicAvailability::Available
        },
    }
}

/// Scans topic folders; remembers where scan warnings are to be logged.
#[derive(Debug, Clone)]
pub struct TopicScanner {
    diagnostics_log_path: Option<String>,
}

fn warning(path: &str, prefix: &str, detail: &str) -> (r: ScanWarning)
    ensures
        r@ == (WarningView { path: path@, message: prefix@ + detail@ }),
{
    let mut message = to_string(prefix);
    append_str(&mut message, detail);
    ScanWarning { path: to_string(path), message }
}

impl TopicScanner {
    /// A scanner whose warnings go to the log at `diagnostics_log_path`, if
    /// any.
    pub fn new(diagnostics_log_path: Option<String>) -> (r: Self)
        ensures
            r.log_path() == diagnostics_log_path,
    {
        TopicScanner { diagnostics_log_path }
    }

    pub closed spec fn log_path(&self) -> Option<String> {
        self.diagnostics_log_path
    }

    /// Where scan warnings are to be logged.
    pub fn diagnostics_log_path(&self) -> (r: Option<String>)
        ensures
            r == self.log_path(),
    {
        crate::text::copy_opt(&self.diagnostics_log_path)
    }

    /// The snapshot of `topic` from its folder listing.
    pub fn scan_topic(&self, topic: &TopicConfig, listing: &TopicListing) -> (r: TopicSnapshot)
        ensures
            is_scan_of(*topic, *listing, r),
    {
        match listing {
            TopicListing::Missing => {
                let w = warning(topic.path.as_str(), "topic folder is missing", "");
                assert(w@.message == "topic folder is missing"@) by {
                    assert("topic folder is missing"@ + ""@ == "topic folder is missing"@) by {
                        reveal_strlit("");
                    }
                }
                let warnings = vec![w];
                assert(warnings_view(warnings@) =~= seq![w@]);
                TopicSnapshot {
                    topic: topic.duplicate(),
                    notes: Vec::new(),
                    scan_warnings: warnings,
                    availability: TopicAvailability::Missing,
                }
            },
            TopicListing::Unreadable { error } => {
                let w = warning(topic.path.as_str(), "failed to scan topic folder: ", error.as_str());
                let warnings = vec![w];
                assert(warnings_view(warnings@) =~= seq![w@]);
                TopicSnapshot {
                    topic: topic.duplicate(),
                    notes: Vec::new(),
                    scan_warnings: warnings,
                    availability: TopicAvailability::Available,
                }
            },
            TopicListing::Entries(entries) => {
                let mut notes: Vec<NoteEntry> = Vec::new();
                let mut warnings: Vec<ScanWarning> = Vec::new();
                let mut i: usize = 0;
                assert(entries@.take(0) =~= Seq::<TopicEntry>::empty());
                assert(notes_view(notes@) =~= Seq::<NoteView>::empty());
                assert(warnings_view(warnings@) =~= Seq::<WarningView>::empty());
                while i < entries.len()
                    invariant
                        i <= entries@.len(),
                        scan_entries(topic@, entries@.take(i as int)) == (
                            notes_view(notes@),
                            warnings_view(warnings@),
                        ),
                    decreases entries@.len() - i,
                {
                    assert(entries@.take(i + 1).drop_last() == entries@.take(i as int));
                    assert(entries@.take(i + 1).last() == entries@[i as int]);
                    let ghost ns0 = notes@;
                    let ghost ws0 = warnings@;
                    match &entries[i] {
                        TopicEntry::Unreadable { error } => {
                            warnings.push(
                                warning(topic.path.as_str(), "failed to read topic entry: ", error.as_str()),
                            );
                            assert(warnings_view(warnings@) == warnings_view(ws0).push(warnings@.last()@));
                        },
                        TopicEntry::Listed { path, is_file, contents } => {
                            if is_html_file(path.as_str(), *is_file) {
                                match contents {
                                    Some(read) => {
                                        match build_note_entry(topic, path.as_str(), *is_file, read) {
                                            Ok(note) => {
                                                notes.push(note);
                                                assert(notes_view(notes@) == notes_view(ns0).push(notes@.last()@));
                                            },
                                            Err(message) => {
                                                warnings.push(
                                                    warning(path.as_str(), "invalid note file: ", message.as_str()),
                                                );
                                                assert(warnings_view(warnings@) == warnings_view(ws0).push(
                                                    warnings@.last()@,
                                                ));
                                            },
                                        }
                                    },
                                    None => {},
                                }
                            }
                        },
                    }
                    i = i + 1;
                }
                assert(entries@.take(i as int) == entries@);
                sort_notes_newest_first(&mut notes);
                TopicSnapshot {
                    topic: topic.duplicate(),
                    notes,
                    scan_warnings: warnings,
                    availability: TopicAvailability::Available,
                }
            },
        }
    }

    /// The snapshots of `topics`, each from its folder listing (same
    /// position).
    pub fn scan_all(&self, topics: &Vec<TopicConfig>, listings: &Vec<TopicListing>) -> (r: Vec<
        TopicSnapshot,
    >)
        requires
            topics@.len() == listings@.len(),
        ensures
            r@.len() == topics@.len(),
            forall|i: int| 0 <= i < r@.len() ==> is_scan_of(topics@[i], listings@[i], #[trigger] r@[i]),
    {
        let mut r: Vec<TopicSnapshot> = Vec::new();
        let mut i: usize = 0;
        while i < topics.len()
            invariant
                i <= topics@.len() == listings@.len(),
                r@.len() == i,
                forall|k: int| 0 <= k < i ==> is_scan_of(topics@[k], listings@[k], #[trigger] r@[k]),
            decreases topics@.len() - i,
        {
            r.push(self.scan_topic(&topics[i], &listings[i]));
            i = i + 1;
        }
        r
    }
}

/// The `file:` URL of directory `dir`, as `url` writes it.
pub uninterp spec fn spec_directory_url(dir: Seq<char>) -> Seq<char>;

/// `url::Url::from_directory_path(dir)`, written out. On Unix it fails
/// exactly when `dir` is not absolute, and the URL it gives ends with `/`.
/// The text of the URL (percent-encoding of the path) is named, not
/// described: it is a function of `dir` alone.
#[verifier::external_body]
fn directory_url(dir: &str) -> (r: Option<String>)
    ensures
        r is Some <==> crate::path::is_rooted(dir@),
        r matches Some(u) ==> u@ == spec_directory_url(dir@) && u@.len() > 0 && u@.last() == '/',
{
    url::Url::from_directory_path(dir).ok().map(|u| u.to_string())
}

/// Whether `pat` occurs in `s` at position `i`.
pub open spec fn occurs_at(s: Seq<char>, pat: Seq<char>, i: int) -> bool {
    0 <= i && i + pat.len() <= s.len() && s.subrange(i, i + pat.len()) == pat
}

/// The first position, from `i` on, at which `pat` occurs in `s`, or -1.
pub open spec fn first_occurrence_from(s: Seq<char>, pat: Seq<char>, i: int) -> int
    decreases s.len() + 1 - i,
{
    if i < 0 || i + pat.len() > s.len() {
        -1
    } else if occurs_at(s, pat, i) {
        i
    } else {
        first_occurrence_from(s, pat, i + 1)
    }
}

/// The folder of a note file ("." when it has none).
pub open spec fn spec_base_dir(note_path: Seq<char>) -> Seq<char> {
    match spec_parent(note_path) {
        Some(p) => p,
        None => "."@,
    }
}

/// A note's HTML with a `<base href>` pointing at the note's folder, so
/// that relative assets load: placed right after the first `<head>`, or in
/// a new `<head>` in front when there is none.
pub open spec fn spec_inject_base_href(source: Seq<char>, note_path: Seq<char>) -> Seq<char> {
    let tag = "<base href=\""@ + spec_directory_url(spec_base_dir(note_path)) + "\">"@;
    let k = first_occurrence_from(source, "<head>"@, 0);
    if k >= 0 {
        let at = k + "<head>"@.len();
        source.take(at) + tag + source.skip(at)
    } else {
        "<head>"@ + tag + "</head>"@ + source
    }
}

/// `source` with a `<base href>` for the folder of `note_path`; the folder
/// must be absolute (a `file:` URL is made of it).
pub fn inject_base_href(source: &str, note_path: &str) -> (r: String)
    requires
        crate::path::is_rooted(spec_base_dir(note_path@)),
    ensures
        r@ == spec_inject_base_href(source@, note_path@),
{
    let base_dir = match parent(note_path) {
        Some(p) => p,
        None => to_string("."),
    };
    let url = match directory_url(base_dir.as_str()) {
        Some(u) => u,
        None => {
            assert(false);
            String::new()
        },
    };
    let mut tag = to_string("<base href=\"");
    append_str(&mut tag, url.as_str());
    append_str(&mut tag, "\">");
    let chars = chars_of(source);
    let pat = chars_of("<head>");
    proof {
        reveal_strlit("<head>");
    }
    let mut i: usize = 0;
    while i <= chars.len() && pat.len() <= chars.len() - i
        invariant
            i <= chars@.len() + 1,
            pat@.len() == 6,
            tag@ == "<base href=\""@ + spec_directory_url(spec_base_dir(note_path@)) + "\">"@,
            chars@ == source@,
            pat@ == "<head>"@,
            first_occurrence_from(chars@, pat@, 0) == first_occurrence_from(chars@, pat@, i as int),
        decreases chars@.len() - i,
    {
        let window = crate::path::name_slice(&chars, i, i + pat.len());
        if chars_eq(window.as_slice(), pat.as_slice()) {
            assert(occurs_at(chars@, pat@, i as int));
            assert(first_occurrence_from(chars@, pat@, i as int) == i);
            let at = i + pat.len();
            let head = crate::path::name_slice(&chars, 0, at);
            let rest = crate::path::name_slice(&chars, at, chars.len());
            let mut r = string_from_chars(head.as_slice());
            append_str(&mut r, tag.as_str());
            append_chars(&mut r, rest.as_slice());
            assert(head@ == source@.take(at as int));
            assert(rest@ == source@.skip(at as int));
            return r;
        }
        i = i + 1;
    }
    let mut r = to_string("<head>");
    append_str(&mut r, tag.as_str());
    append_str(&mut r, "</head>");
    append_str(&mut r, source);
    r
}

} // verus!
