//! Paths as text with `/` separators, read component by component the way
//! `std::path` reads them on Unix.
use vstd::prelude::*;

use crate::order::{lemma_lex_strict_total, lemma_text_order, lex_lt, strict_total_order, text_less, text_lt};
use crate::text::{append_chars, append_str, chars_of, push_char, string_from_chars};

verus! {

/// One component of a path.
pub enum Part {
    RootDir,
    CurDir,
    ParentDir,
    Normal(Seq<char>),
}

/// One component of a path, as executable data.
#[derive(Debug, PartialEq, Eq)]
pub enum PathComponent {
    RootDir,
    CurDir,
    ParentDir,
    Normal(Vec<char>),
}

impl View for PathComponent {
    type V = Part;

    open spec fn view(&self) -> Part {
        match self {
            PathComponent::RootDir => Part::RootDir,
            PathComponent::CurDir => Part::CurDir,
            PathComponent::ParentDir => Part::ParentDir,
            PathComponent::Normal(name) => Part::Normal(name@),
        }
    }
}

pub open spec fn parts_view(v: Seq<PathComponent>) -> Seq<Part> {
    v.map_values(|c: PathComponent| c@)
}

/// The text of `p` split at every `/`: always at least one (possibly empty)
/// segment.
pub open spec fn segments(p: Seq<char>) -> Seq<Seq<char>>
    decreases p.len(),
{
    if p.len() == 0 {
        seq![Seq::<char>::empty()]
    } else {
        let prev = segments(p.drop_last());
        if p.last() == '/' {
            prev.push(Seq::<char>::empty())
        } else {
            prev.update(prev.len() - 1, prev.last().push(p.last()))
        }
    }
}

pub proof fn lemma_segments_nonempty(p: Seq<char>)
    ensures
        segments(p).len() >= 1,
    decreases p.len(),
{
    if p.len() > 0 {
        lemma_segments_nonempty(p.drop_last());
    }
}

/// Whether a path begins at the root.
pub open spec fn is_rooted(p: Seq<char>) -> bool {
    p.len() > 0 && p[0] == '/'
}

/// The component that the segment at `index` contributes, if any: empty
/// segments and `.` (except a leading one) contribute nothing.
pub open spec fn segment_part(seg: Seq<char>, index: int) -> Option<Part> {
    if seg.len() == 0 {
        None
    } else if seg == seq!['.'] {
        if index == 0 {
            Some(Part::CurDir)
        } else {
            None
        }
    } else if seg == seq!['.', '.'] {
        Some(Part::ParentDir)
    } else {
        Some(Part::Normal(seg))
    }
}

pub open spec fn option_seq<A>(o: Option<A>) -> Seq<A> {
    match o {
        Some(a) => seq![a],
        None => Seq::empty(),
    }
}

pub open spec fn parts_of(segs: Seq<Seq<char>>) -> Seq<Part>
    decreases segs.len(),
{
    if segs.len() == 0 {
        Seq::empty()
    } else {
        parts_of(segs.drop_last()) + option_seq(segment_part(segs.last(), segs.len() - 1))
    }
}

/// The components of a path, in order.
pub open spec fn path_components(p: Seq<char>) -> Seq<Part> {
    (if is_rooted(p) {
        seq![Part::RootDir]
    } else {
        Seq::empty()
    }) + parts_of(segments(p))
}

fn classify_segment(seg: Vec<char>, index: usize) -> (r: Option<PathComponent>)
    ensures
        match r {
            Some(c) => segment_part(seg@, index as int) == Some(c@),
            None => segment_part(seg@, index as int) is None,
        },
{
    if seg.len() == 0 {
        None
    } else if seg.len() == 1 && seg[0] == '.' {
        assert(seg@ == seq!['.']);
        if index == 0 {
            Some(PathComponent::CurDir)
        } else {
            None
        }
    } else if seg.len() == 2 && seg[0] == '.' && seg[1] == '.' {
        assert(seg@ == seq!['.', '.']);
        Some(PathComponent::ParentDir)
    } else {
        assert(seg@ != seq!['.']);
        assert(seg@ != seq!['.', '.']);
        Some(PathComponent::Normal(seg))
    }
}

/// The components of `path`, in order.
pub fn components(path: &str) -> (r: Vec<PathComponent>)
    ensures
        parts_view(r@) == path_components(path@),
{
    let chars = chars_of(path);
    let mut out: Vec<PathComponent> = Vec::new();
    let rooted = chars.len() > 0 && chars[0] == '/';
    if rooted {
        out.push(PathComponent::RootDir);
    }
    let ghost head: Seq<Part> = parts_view(out@);
    let mut current: Vec<char> = Vec::new();
    let mut index: usize = 0;
    let ghost mut done: Seq<Seq<char>> = Seq::empty();
    let mut i: usize = 0;
    assert(chars@.take(0) == Seq::<char>::empty());
    assert(done.push(current@) == seq![Seq::<char>::empty()]);
    while i < chars.len()
        invariant
            i <= chars@.len(),
            chars@ == path@,
            head == (if is_rooted(path@) {
                seq![Part::RootDir]
            } else {
                Seq::empty()
            }),
            segments(chars@.take(i as int)) == done.push(current@),
            index as int == done.len(),
            index <= i,
            parts_view(out@) == head + parts_of(done),
        decreases chars@.len() - i,
    {
        let c = chars[i];
        assert(chars@.take(i + 1).drop_last() == chars@.take(i as int));
        if c == '/' {
            let seg = current;
            current = Vec::new();
            let part = classify_segment(seg, index);
            proof {
                let d2 = done.push(seg@);
                assert(d2.drop_last() == done);
                assert(parts_of(d2) == parts_of(done) + option_seq(segment_part(seg@, index as int)));
            }
            let ghost before = out@;
            match part {
                Some(p) => {
                    out.push(p);
                    assert(parts_view(out@) =~= parts_view(before) + seq![p@]);
                },
                None => {
                    assert(parts_view(out@) =~= parts_view(before) + Seq::<Part>::empty());
                },
            }
            proof {
                done = done.push(seg@);
                assert(parts_view(out@) == head + parts_of(done));
            }
            index = index + 1;
        } else {
            current.push(c);
        }
        i = i + 1;
    }
    assert(chars@.take(i as int) == chars@);
    let last = current;
    let part = classify_segment(last, index);
    proof {
        let d2 = done.push(last@);
        assert(d2.drop_last() == done);
        assert(parts_of(d2) == parts_of(done) + option_seq(segment_part(last@, index as int)));
    }
    let ghost before = out@;
    match part {
        Some(p) => {
            out.push(p);
            assert(parts_view(out@) =~= parts_view(before) + seq![p@]);
        },
        None => {
            assert(parts_view(out@) =~= parts_view(before) + Seq::<Part>::empty());
        },
    }
    assert(head + parts_of(done.push(last@)) == head + parts_of(done) + option_seq(segment_part(last@, index as int)));
    out
}

/// The last component of a path, when it is a normal name.
pub open spec fn spec_file_name(p: Seq<char>) -> Option<Seq<char>> {
    let parts = path_components(p);
    if parts.len() > 0 && parts.last() is Normal {
        Some(parts.last()->Normal_0)
    } else {
        None
    }
}

/// The index of the last `.` in `s`, or -1.
pub open spec fn last_dot(s: Seq<char>) -> int
    decreases s.len(),
{
    if s.len() == 0 {
        -1
    } else if s.last() == '.' {
        s.len() - 1
    } else {
        last_dot(s.drop_last())
    }
}

pub proof fn lemma_last_dot(s: Seq<char>)
    ensures
        -1 <= last_dot(s) < s.len(),
        last_dot(s) >= 0 ==> s[last_dot(s)] == '.',
        forall|j: int| last_dot(s) < j < s.len() ==> s[j] != '.',
    decreases s.len(),
{
    if s.len() > 0 && s.last() != '.' {
        lemma_last_dot(s.drop_last());
        assert forall|j: int| last_dot(s) < j < s.len() implies s[j] != '.' by {
            if j < s.len() - 1 {
                assert(s.drop_last()[j] == s[j]);
            }
        }
    }
}

/// A file name split at its last dot into (before, after), as
/// `std::path` does to find a stem and an extension.
pub open spec fn split_file_name(name: Seq<char>) -> (Option<Seq<char>>, Option<Seq<char>>) {
    if name == seq!['.', '.'] {
        (Some(name), None)
    } else {
        let k = last_dot(name);
        if k < 0 {
            (None, Some(name))
        } else if k == 0 {
            (Some(name), None)
        } else {
            (Some(name.take(k)), Some(name.skip(k + 1)))
        }
    }
}

/// The file name without its extension.
pub open spec fn spec_file_stem(p: Seq<char>) -> Option<Seq<char>> {
    match spec_file_name(p) {
        None => None,
        Some(name) => {
            let (before, after) = split_file_name(name);
            if before is Some {
                before
            } else {
                after
            }
        },
    }
}

/// The extension of the file name, without its dot.
pub open spec fn spec_extension(p: Seq<char>) -> Option<Seq<char>> {
    match spec_file_name(p) {
        None => None,
        Some(name) => {
            let (before, after) = split_file_name(name);
            if before is Some {
                after
            } else {
                None
            }
        },
    }
}

/// The last component of `path`, when it is a normal name.
pub fn file_name(path: &str) -> (r: Option<Vec<char>>)
    ensures
        match r {
            Some(name) => spec_file_name(path@) == Some(name@),
            None => spec_file_name(path@) is None,
        },
{
    let mut parts = components(path);
    let n = parts.len();
    if n == 0 {
        return None;
    }
    let ghost all = parts@;
    let last = parts.pop().unwrap();
    assert(parts_view(all).last() == last@) by {
        assert(all.last() == last);
    }
    match last {
        PathComponent::Normal(name) => Some(name),
        _ => None,
    }
}

fn last_dot_index(s: &Vec<char>) -> (r: Option<usize>)
    ensures
        match r {
            Some(k) => last_dot(s@) == k as int,
            None => last_dot(s@) == -1,
        },
{
    let mut i: usize = s.len();
    assert(s@.take(s@.len() as int) == s@);
    while i > 0
        invariant
            i <= s@.len(),
            last_dot(s@) == last_dot(s@.take(i as int)),
        decreases i,
    {
        assert(s@.take(i as int).drop_last() == s@.take(i - 1));
        if s[i - 1] == '.' {
            return Some(i - 1);
        }
        i = i - 1;
    }
    None
}

fn split_name(name: Vec<char>) -> (r: (Option<Vec<char>>, Option<Vec<char>>))
    ensures
        split_file_name(name@) == (
        match r.0 {
            Some(b) => Some(b@),
            None => None,
        },
        match r.1 {
            Some(a) => Some(a@),
            None => None,
        },
    ),
{
    if name.len() == 2 && name[0] == '.' && name[1] == '.' {
        assert(name@ == seq!['.', '.']);
        return (Some(name), None);
    }
    proof {
        if name@ == seq!['.', '.'] {
            assert(name@[0] == '.' && name@[1] == '.');
        }
    }
    proof {
        lemma_last_dot(name@);
    }
    match last_dot_index(&name) {
        None => (None, Some(name)),
        Some(k) => {
            if k == 0 {
                (Some(name), None)
            } else {
                let before = name_slice(&name, 0, k);
                let after = name_slice(&name, k + 1, name.len());
                assert(after@ == name@.skip(k + 1));
                (Some(before), Some(after))
            }
        },
    }
}

/// The characters of `s` from `from` up to `to`.
pub fn name_slice(s: &Vec<char>, from: usize, to: usize) -> (r: Vec<char>)
    requires
        from <= to <= s@.len(),
    ensures
        r@ == s@.subrange(from as int, to as int),
{
    let mut r: Vec<char> = Vec::new();
    let mut i = from;
    while i < to
        invariant
            from <= i <= to <= s@.len(),
            r@ == s@.subrange(from as int, i as int),
        decreases to - i,
    {
        r.push(s[i]);
        i = i + 1;
        assert(r@ == s@.subrange(from as int, i as int));
    }
    r
}

/// The file name of `path` without its extension.
pub fn file_stem(path: &str) -> (r: Option<Vec<char>>)
    ensures
        match r {
            Some(stem) => spec_file_stem(path@) == Some(stem@),
            None => spec_file_stem(path@) is None,
        },
{
    match file_name(path) {
        None => None,
        Some(name) => {
            let (before, after) = split_name(name);
            match before {
                Some(b) => Some(b),
                None => after,
            }
        },
    }
}

/// The extension of the file name of `path`, without its dot.
pub fn extension(path: &str) -> (r: Option<Vec<char>>)
    ensures
        match r {
            Some(ext) => spec_extension(path@) == Some(ext@),
            None => spec_extension(path@) is None,
        },
{
    match file_name(path) {
        None => None,
        Some(name) => {
            let (before, after) = split_name(name);
            match before {
                Some(_) => after,
                None => None,
            }
        },
    }
}

/// Where the components of `s` begin: after the root `/`, or after the
/// leading `.` of a relative path such as `./a`.
pub open spec fn body_start(s: Seq<char>) -> int {
    if is_rooted(s) {
        1
    } else if s.len() > 0 && s[0] == '.' && (s.len() == 1 || s[1] == '/') {
        1
    } else {
        0
    }
}

/// The position of the last `/` of `s` at or after `from`, or -1.
pub open spec fn last_slash_from(s: Seq<char>, from: int) -> int
    decreases s.len(),
{
    if s.len() == 0 || s.len() <= from {
        -1
    } else if s.last() == '/' {
        s.len() - 1
    } else {
        last_slash_from(s.drop_last(), from)
    }
}

pub proof fn lemma_last_slash_from(s: Seq<char>, from: int)
    requires
        0 <= from,
    ensures
        last_slash_from(s, from) == -1 || (from <= last_slash_from(s, from) < s.len()
            && s[last_slash_from(s, from)] == '/'),
    decreases s.len(),
{
    if s.len() > from && s.last() != '/' {
        lemma_last_slash_from(s.drop_last(), from);
    }
}

/// The last segment of the body of `s` (the text after its last `/`), and
/// how many chars it takes together with that `/`.
pub open spec fn back_segment(s: Seq<char>) -> (int, Seq<char>) {
    let i = last_slash_from(s, body_start(s));
    if i < 0 {
        (s.len() - body_start(s), s.skip(body_start(s)))
    } else {
        (s.len() - i, s.skip(i + 1))
    }
}

/// Whether a segment is a component: not empty and not `.`.
pub open spec fn is_component(seg: Seq<char>) -> bool {
    seg.len() > 0 && seg != seq!['.']
}

/// `s` without its trailing `/`s and `.` segments, as `std::path` trims a
/// path from its end.
pub open spec fn trim_back(s: Seq<char>) -> Seq<char>
    decreases s.len(),
{
    if s.len() > body_start(s) {
        let (size, seg) = back_segment(s);
        if is_component(seg) {
            s
        } else {
            proof {
                lemma_last_slash_from(s, body_start(s));
            }
            trim_back(s.take(s.len() - size))
        }
    } else {
        s
    }
}

/// The path without its last component, as `Path::parent` gives it: the
/// text before that component, with trailing `/`s and `.` segments
/// trimmed; the empty path for `.`; `None` for a path that is empty or
/// only the root.
pub open spec fn spec_parent(p: Seq<char>) -> Option<Seq<char>> {
    let t = trim_back(p);
    if t.len() > body_start(t) {
        Some(trim_back(t.take(t.len() - back_segment(t).0)))
    } else if t.len() > 0 && !is_rooted(t) {
        Some(Seq::empty())
    } else {
        None
    }
}

/// `base` extended by `other` as `PathBuf::push` extends it: a rooted
/// `other` replaces `base`; otherwise a `/` separates them unless `base` is
/// empty or already ends with one.
pub open spec fn spec_join(base: Seq<char>, other: Seq<char>) -> Seq<char> {
    if is_rooted(other) {
        other
    } else if base.len() > 0 && base.last() != '/' {
        base + seq!['/'] + other
    } else {
        base + other
    }
}

/// Whether two paths have the same components.
pub open spec fn spec_path_eq(a: Seq<char>, b: Seq<char>) -> bool {
    path_components(a) == path_components(b)
}

/// Whether the components of `base` begin the components of `p`.
pub open spec fn spec_starts_with(p: Seq<char>, base: Seq<char>) -> bool {
    let pc = path_components(p);
    let bc = path_components(base);
    bc.len() <= pc.len() && pc.take(bc.len() as int) == bc
}

fn body_start_exec(chars: &Vec<char>, len: usize) -> (r: usize)
    requires
        len <= chars@.len(),
    ensures
        r == body_start(chars@.take(len as int)),
        r <= len,
{
    if len > 0 && chars[0] == '/' {
        1
    } else if len > 0 && chars[0] == '.' && (len == 1 || chars[1] == '/') {
        1
    } else {
        0
    }
}

/// Where the last segment of the first `len` chars starts, and its size
/// together with its `/`.
fn back_segment_exec(chars: &Vec<char>, len: usize) -> (r: (usize, usize))
    requires
        len <= chars@.len(),
        len > body_start(chars@.take(len as int)),
    ensures
        r.0 == back_segment(chars@.take(len as int)).0,
        r.1 <= len,
        chars@.subrange(r.1 as int, len as int) == back_segment(chars@.take(len as int)).1,
        0 < r.0 <= len,
{
    let ghost s = chars@.take(len as int);
    let start = body_start_exec(chars, len);
    let mut j: usize = len;
    assert(s.take(len as int) == s);
    while j > start && chars[j - 1] != '/'
        invariant
            start <= j <= len <= chars@.len(),
            s == chars@.take(len as int),
            start == body_start(s),
            last_slash_from(s, start as int) == last_slash_from(s.take(j as int), start as int),
        decreases j,
    {
        assert(s.take(j as int).drop_last() == s.take(j - 1));
        j = j - 1;
    }
    if j > start {
        assert(s.take(j as int).last() == '/');
        assert(s.skip(j as int) == chars@.subrange(j as int, len as int));
        (len - (j - 1), j)
    } else {
        assert(s.skip(start as int) == chars@.subrange(start as int, len as int));
        (len - start, start)
    }
}

/// The length of `trim_back` of the first `len` chars.
fn trim_back_len(chars: &Vec<char>, len: usize) -> (r: usize)
    requires
        len <= chars@.len(),
    ensures
        r <= len,
        chars@.take(r as int) == trim_back(chars@.take(len as int)),
{
    let mut k: usize = len;
    while k > body_start_exec(chars, k)
        invariant
            k <= len <= chars@.len(),
            trim_back(chars@.take(k as int)) == trim_back(chars@.take(len as int)),
        decreases k,
    {
        let (size, seg_start) = back_segment_exec(chars, k);
        let seg_len = k - seg_start;
        let ghost s = chars@.take(k as int);
        let ghost seg = back_segment(s).1;
        assert(seg.len() == seg_len);
        let component = seg_len > 0 && !(seg_len == 1 && chars[seg_start] == '.');
        assert(component == is_component(seg)) by {
            if seg_len == 1 {
                assert(seg[0] == chars@[seg_start as int]);
                if seg[0] == '.' {
                    assert(seg =~= seq!['.']);
                }
            }
        }
        if component {
            return k;
        }
        assert(s.take(k - size) == chars@.take(k - size));
        k = k - size;
    }
    k
}

/// The path without its last component, as text.
pub fn parent(path: &str) -> (r: Option<String>)
    ensures
        opt_view_eq(r, spec_parent(path@)),
{
    let chars = chars_of(path);
    assert(chars@.take(chars@.len() as int) == path@);
    let t = trim_back_len(&chars, chars.len());
    let ghost tv = chars@.take(t as int);
    if t > body_start_exec(&chars, t) {
        let (size, _) = back_segment_exec(&chars, t);
        let k = trim_back_len(&chars, t - size);
        assert(tv.take(t - size) == chars@.take(t - size));
        let head = name_slice(&chars, 0, k);
        Some(string_from_chars(head.as_slice()))
    } else if t > 0 && chars[0] != '/' {
        assert(!is_rooted(tv));
        Some(String::new())
    } else {
        None
    }
}

pub open spec fn opt_view_eq(r: Option<String>, s: Option<Seq<char>>) -> bool {
    match r {
        Some(t) => s == Some(t@),
        None => s is None,
    }
}

/// `base` extended by `other`, as `PathBuf::push` does.
pub fn join(base: &str, other: &str) -> (r: String)
    ensures
        r@ == spec_join(base@, other@),
{
    let other_chars = chars_of(other);
    if other_chars.len() > 0 && other_chars[0] == '/' {
        return string_from_chars(other_chars.as_slice());
    }
    let base_chars = chars_of(base);
    let mut r = string_from_chars(base_chars.as_slice());
    let n = base_chars.len();
    if n > 0 && base_chars[n - 1] != '/' {
        push_char(&mut r, '/');
    }
    append_chars(&mut r, other_chars.as_slice());
    r
}

/// Whether the path begins at the root.
pub fn is_absolute(path: &str) -> (r: bool)
    ensures
        r == is_rooted(path@),
{
    let chars = chars_of(path);
    chars.len() > 0 && chars[0] == '/'
}

fn component_eq(a: &PathComponent, b: &PathComponent) -> (r: bool)
    ensures
        r == (a@ == b@),
{
    match (a, b) {
        (PathComponent::RootDir, PathComponent::RootDir) => true,
        (PathComponent::CurDir, PathComponent::CurDir) => true,
        (PathComponent::ParentDir, PathComponent::ParentDir) => true,
        (PathComponent::Normal(x), PathComponent::Normal(y)) => crate::text::chars_eq(
            x.as_slice(),
            y.as_slice(),
        ),
        _ => false,
    }
}

/// Whether the first `n` components of `a` equal those of `b`.
fn components_prefix_eq(a: &Vec<PathComponent>, b: &Vec<PathComponent>, n: usize) -> (r: bool)
    requires
        n <= a@.len(),
        n <= b@.len(),
    ensures
        r == (parts_view(a@).take(n as int) == parts_view(b@).take(n as int)),
{
    let mut i: usize = 0;
    while i < n
        invariant
            i <= n <= a@.len(),
            n <= b@.len(),
            forall|j: int| 0 <= j < i ==> a@[j]@ == b@[j]@,
        decreases n - i,
    {
        if !component_eq(&a[i], &b[i]) {
            assert(parts_view(a@).take(n as int)[i as int] == a@[i as int]@);
            assert(parts_view(b@).take(n as int)[i as int] == b@[i as int]@);
            return false;
        }
        i = i + 1;
    }
    assert(parts_view(a@).take(n as int) =~= parts_view(b@).take(n as int));
    true
}

/// Whether two paths have the same components, as `Path`'s `==` decides.
pub fn path_eq(a: &str, b: &str) -> (r: bool)
    ensures
        r == spec_path_eq(a@, b@),
{
    let ac = components(a);
    let bc = components(b);
    if ac.len() != bc.len() {
        return false;
    }
    let r = components_prefix_eq(&ac, &bc, ac.len());
    assert(parts_view(ac@).take(ac@.len() as int) == parts_view(ac@));
    assert(parts_view(bc@).take(bc@.len() as int) == parts_view(bc@));
    r
}

/// Whether the components of `base` begin those of `path`, as
/// `Path::starts_with` decides.
pub fn starts_with(path: &str, base: &str) -> (r: bool)
    ensures
        r == spec_starts_with(path@, base@),
{
    let pc = components(path);
    let bc = components(base);
    if bc.len() > pc.len() {
        return false;
    }
    let r = components_prefix_eq(&pc, &bc, bc.len());
    assert(parts_view(bc@).take(bc@.len() as int) == parts_view(bc@));
    r
}

/// The place of a component's kind in `std::path::Component`'s order.
pub open spec fn part_rank(p: Part) -> int {
    match p {
        Part::RootDir => 1,
        Part::CurDir => 2,
        Part::ParentDir => 3,
        Part::Normal(_) => 4,
    }
}

/// Order of components: by kind, then normal names in text order.
pub open spec fn part_lt(a: Part, b: Part) -> bool {
    if part_rank(a) != part_rank(b) {
        part_rank(a) < part_rank(b)
    } else {
        match (a, b) {
            (Part::Normal(x), Part::Normal(y)) => text_lt(x, y),
            _ => false,
        }
    }
}

/// Order of paths, as `Path`'s `Ord` orders them: component by component.
pub open spec fn path_lt(a: Seq<char>, b: Seq<char>) -> bool {
    parts_lt(path_components(a), path_components(b))
}

pub open spec fn parts_lt(a: Seq<Part>, b: Seq<Part>) -> bool {
    lex_lt(a, b, |x: Part, y: Part| part_lt(x, y))
}

/// Component order is a strict total order.
pub proof fn lemma_part_order()
    ensures
        strict_total_order(|x: Part, y: Part| part_lt(x, y)),
{
    lemma_text_order();
    let t = |x: Seq<char>, y: Seq<char>| text_lt(x, y);
    let l = |x: Part, y: Part| part_lt(x, y);
    assert forall|a: Part, b: Part, c: Part| #[trigger] l(a, b) && #[trigger] l(b, c) implies l(
        a,
        c,
    ) by {
        if a is Normal && b is Normal && c is Normal {
            assert(t(a->Normal_0, b->Normal_0) && t(b->Normal_0, c->Normal_0));
        }
    }
    assert forall|a: Part, b: Part| a != b implies #[trigger] l(a, b) || #[trigger] l(b, a) by {
        if a is Normal && b is Normal {
            assert(a->Normal_0 != b->Normal_0);
            assert(t(a->Normal_0, b->Normal_0) || t(b->Normal_0, a->Normal_0));
        }
    }
    assert forall|a: Part| !#[trigger] l(a, a) by {
        if a is Normal {
            assert(!t(a->Normal_0, a->Normal_0));
        }
    }
}

/// Path order is a strict total order on component sequences.
pub proof fn lemma_parts_order()
    ensures
        strict_total_order(|x: Seq<Part>, y: Seq<Part>| parts_lt(x, y)),
{
    lemma_part_order();
    lemma_lex_strict_total(|x: Part, y: Part| part_lt(x, y));
    let l1 = |x: Seq<Part>, y: Seq<Part>| lex_lt(x, y, |p: Part, q: Part| part_lt(p, q));
    let l2 = |x: Seq<Part>, y: Seq<Part>| parts_lt(x, y);
    assert(l1 == l2);
}

fn component_rank(c: &PathComponent) -> (r: u8)
    ensures
        r as int == part_rank(c@),
{
    match c {
        PathComponent::RootDir => 1,
        PathComponent::CurDir => 2,
        PathComponent::ParentDir => 3,
        PathComponent::Normal(_) => 4,
    }
}

fn component_less(a: &PathComponent, b: &PathComponent) -> (r: bool)
    ensures
        r == part_lt(a@, b@),
{
    let ra = component_rank(a);
    let rb = component_rank(b);
    if ra != rb {
        return ra < rb;
    }
    match (a, b) {
        (PathComponent::Normal(x), PathComponent::Normal(y)) => text_less(x.as_slice(), y.as_slice()),
        _ => false,
    }
}

/// Whether the components `a` come strictly before the components `b`.
pub fn components_less(a: &Vec<PathComponent>, b: &Vec<PathComponent>) -> (r: bool)
    ensures
        r == parts_lt(parts_view(a@), parts_view(b@)),
{
    let ghost av = parts_view(a@);
    let ghost bv = parts_view(b@);
    let mut i: usize = 0;
    assert(av.skip(0) == av);
    assert(bv.skip(0) == bv);
    while i < a.len() && i < b.len()
        invariant
            i <= a@.len(),
            i <= b@.len(),
            av == parts_view(a@),
            bv == parts_view(b@),
            parts_lt(av, bv) == parts_lt(av.skip(i as int), bv.skip(i as int)),
        decreases a@.len() - i,
    {
        assert(av.skip(i as int)[0] == a@[i as int]@);
        assert(bv.skip(i as int)[0] == b@[i as int]@);
        if component_less(&a[i], &b[i]) {
            return true;
        }
        if !component_eq(&a[i], &b[i]) {
            return false;
        }
        assert(av.skip(i as int).drop_first() == av.skip(i + 1));
        assert(bv.skip(i as int).drop_first() == bv.skip(i + 1));
        i = i + 1;
    }
    i == a.len() && i < b.len()
}

} // verus!
