//! Properties of note asset paths that hold for every request.
use vstd::prelude::*;

use crate::notes_laws::lower_extension;
use crate::server::spec_content_type;
use crate::path::{is_rooted, option_seq, parts_of, path_components, segment_part, segments, Part};
use crate::server::{
    escaped_char, first_index_of, has_escape, spec_escape_html, has_prefix, join_normals, spec_parse_note_route, spec_route,
    spec_safe_relative_asset_path, RequestRoute, RouteError,
};

verus! {

/// A name that reads back as itself: not empty, no `/`, not `.` or `..`.
pub open spec fn plain_name(n: Seq<char>) -> bool {
    &&& n.len() > 0
    &&& !n.contains('/')
    &&& n != seq!['.']
    &&& n != seq!['.', '.']
}

/// No component leaves the folder, and every name is plain.
pub open spec fn plain_parts(parts: Seq<Part>) -> bool {
    forall|i: int|
        0 <= i < parts.len() ==> match #[trigger] parts[i] {
            Part::Normal(n) => plain_name(n),
            Part::CurDir => true,
            _ => false,
        }
}

proof fn lemma_segments_have_no_slash(p: Seq<char>)
    ensures
        forall|i: int| 0 <= i < segments(p).len() ==> !(#[trigger] segments(p)[i]).contains('/'),
    decreases p.len(),
{
    if p.len() > 0 {
        let prev = segments(p.drop_last());
        lemma_segments_have_no_slash(p.drop_last());
        crate::path::lemma_segments_nonempty(p.drop_last());
        if p.last() != '/' {
            let grown = prev.last().push(p.last());
            assert forall|i: int| 0 <= i < segments(p).len() implies !(#[trigger] segments(p)[i]).contains(
                '/',
            ) by {
                if i == prev.len() - 1 {
                    assert(segments(p)[i] == grown);
                    if grown.contains('/') {
                        let k = choose|k: int| 0 <= k < grown.len() && grown[k] == '/';
                        assert(prev.last()[k] == '/');
                        assert(prev[prev.len() - 1].contains('/'));
                    }
                }
            }
        } else {
            assert forall|i: int| 0 <= i < segments(p).len() implies !(#[trigger] segments(p)[i]).contains(
                '/',
            ) by {
                if i == prev.len() {
                    assert(segments(p)[i] =~= Seq::<char>::empty());
                }
            }
        }
    }
}

proof fn lemma_parts_of_plain(segs: Seq<Seq<char>>)
    requires
        forall|i: int| 0 <= i < segs.len() ==> !(#[trigger] segs[i]).contains('/'),
    ensures
        forall|i: int|
            0 <= i < parts_of(segs).len() ==> match #[trigger] parts_of(segs)[i] {
                Part::Normal(n) => plain_name(n),
                Part::RootDir => false,
                _ => true,
            },
    decreases segs.len(),
{
    if segs.len() > 0 {
        let prev = parts_of(segs.drop_last());
        lemma_parts_of_plain(segs.drop_last());
        let tail = option_seq(segment_part(segs.last(), segs.len() - 1));
        assert(parts_of(segs) == prev + tail);
        assert forall|i: int| 0 <= i < parts_of(segs).len() implies match #[trigger] parts_of(segs)[i] {
            Part::Normal(n) => plain_name(n),
            Part::RootDir => false,
            _ => true,
        } by {
            if i >= prev.len() {
                assert(parts_of(segs)[i] == tail[i - prev.len()]);
                assert(!segs[segs.len() - 1].contains('/'));
            } else {
                assert(parts_of(segs)[i] == prev[i]);
            }
        }
    }
}

/// A name without `/` is one segment.
proof fn lemma_segments_of_name(n: Seq<char>)
    requires
        !n.contains('/'),
    ensures
        segments(n) == seq![n],
    decreases n.len(),
{
    if n.len() > 0 {
        assert(!n.drop_last().contains('/')) by {
            if n.drop_last().contains('/') {
                let k = choose|k: int| 0 <= k < n.drop_last().len() && n.drop_last()[k] == '/';
                assert(n[k] == '/');
            }
        }
        lemma_segments_of_name(n.drop_last());
        assert(n[n.len() - 1] != '/');
        assert(n.drop_last().push(n.last()) =~= n);
    } else {
        assert(n =~= Seq::<char>::empty());
    }
}

/// Appending `/` and a name adds one segment.
proof fn lemma_segments_after_slash(s: Seq<char>, n: Seq<char>)
    requires
        !n.contains('/'),
    ensures
        segments(s + seq!['/'] + n) == segments(s).push(n),
    decreases n.len(),
{
    let p = s + seq!['/'] + n;
    if n.len() == 0 {
        assert(p.drop_last() =~= s);
        assert(n =~= Seq::<char>::empty());
    } else {
        let m = n.drop_last();
        assert(!m.contains('/')) by {
            if m.contains('/') {
                let k = choose|k: int| 0 <= k < m.len() && m[k] == '/';
                assert(n[k] == '/');
            }
        }
        lemma_segments_after_slash(s, m);
        assert(p.drop_last() =~= s + seq!['/'] + m);
        assert(p.last() == n[n.len() - 1]);
        assert(n[n.len() - 1] != '/');
        let prev = segments(s).push(m);
        assert(segments(p) == prev.update(prev.len() - 1, prev.last().push(p.last())));
        assert(m.push(n.last()) =~= n);
        assert(segments(p) =~= segments(s).push(n));
    }
}

/// Plain names joined by `/` read back as a relative path of plain names.
proof fn lemma_join_normals_reads_back(parts: Seq<Part>)
    requires
        plain_parts(parts),
    ensures
        !is_rooted(join_normals(parts)),
        !has_escape(path_components(join_normals(parts))),
    decreases parts.len(),
{
    if parts.len() == 0 {
        let e = Seq::<char>::empty();
        assert(join_normals(parts) == e);
        assert(segments(e) == seq![e]);
        assert(seq![e].drop_last() =~= Seq::<Seq<char>>::empty());
        assert(parts_of(seq![e]) == parts_of(seq![e].drop_last()) + option_seq(segment_part(e, 0)));
        assert(path_components(e) =~= Seq::<Part>::empty());
    } else {
        let prev = join_normals(parts.drop_last());
        assert(plain_parts(parts.drop_last())) by {
            assert forall|i: int| 0 <= i < parts.drop_last().len() implies match #[trigger] parts.drop_last()[i] {
                Part::Normal(n) => plain_name(n),
                Part::CurDir => true,
                _ => false,
            } by {
                assert(parts.drop_last()[i] == parts[i]);
            }
        }
        lemma_join_normals_reads_back(parts.drop_last());
        let last = parts[parts.len() - 1];
        match last {
            Part::Normal(n) => {
                assert(plain_name(n));
                if prev.len() == 0 {
                    assert(join_normals(parts) == n);
                    lemma_segments_of_name(n);
                    assert(!is_rooted(n)) by {
                        if is_rooted(n) {
                            assert(n.contains('/'));
                        }
                    }
                    assert(parts_of(seq![n]) == parts_of(seq![n].drop_last()) + option_seq(
                        segment_part(n, 0),
                    ));
                    assert(seq![n].drop_last() =~= Seq::<Seq<char>>::empty());
                    assert(path_components(n) =~= seq![Part::Normal(n)]);
                } else {
                    let j = prev + seq!['/'] + n;
                    assert(join_normals(parts) == j);
                    assert(j[0] == prev[0]);
                    lemma_segments_after_slash(prev, n);
                    let segs = segments(prev).push(n);
                    assert(segs.drop_last() =~= segments(prev));
                    assert(parts_of(segs) == parts_of(segments(prev)) + option_seq(
                        segment_part(n, segs.len() - 1),
                    ));
                    assert(path_components(j) =~= path_components(prev).push(Part::Normal(n)));
                    assert(!has_escape(path_components(j))) by {
                        if has_escape(path_components(j)) {
                            let k = choose|k: int|
                                0 <= k < path_components(j).len() && (path_components(j)[k] is ParentDir
                                    || path_components(j)[k] is RootDir);
                            assert(path_components(j)[k] == path_components(prev)[k]);
                        }
                    }
                }
            },
            _ => {
                assert(join_normals(parts) == prev);
            },
        }
    }
}

/// An asset path that is accepted is turned into a relative path (never
/// one from the root) none of whose components is `..`: joined onto a
/// note's folder it names something inside that folder.
pub proof fn law_accepted_asset_paths_stay_inside(asset: Seq<char>)
    ensures
        spec_safe_relative_asset_path(asset) matches Ok(rel) ==> {
            &&& rel.len() > 0
            &&& !is_rooted(rel)
            &&& !has_escape(path_components(rel))
        },
{
    let parts = path_components(asset);
    if !is_rooted(asset) && !has_escape(parts) {
        lemma_segments_have_no_slash(asset);
        lemma_parts_of_plain(segments(asset));
        assert(parts == parts_of(segments(asset)));
        assert(plain_parts(parts)) by {
            assert forall|i: int| 0 <= i < parts.len() implies match #[trigger] parts[i] {
                Part::Normal(n) => plain_name(n),
                Part::CurDir => true,
                _ => false,
            } by {
                assert(!(parts[i] is ParentDir || parts[i] is RootDir));
            }
        }
        lemma_join_normals_reads_back(parts);
        if join_normals(parts).len() == 0 {
            let index = "index.html"@;
            let one = seq![Part::Normal(index)];
            reveal_strlit("index.html");
            assert(plain_name(index)) by {
                if index.contains('/') {
                    let k = choose|k: int| 0 <= k < index.len() && index[k] == '/';
                    assert(index[k] != '/');
                }
            }
            assert(plain_parts(one));
            lemma_join_normals_reads_back(one);
            assert(one.drop_last() =~= Seq::<Part>::empty());
            assert(join_normals(one.drop_last()).len() == 0);
            assert(join_normals(one) == index);
        }
    }
}

proof fn lemma_first_index_after(id: Seq<char>, c: char, rest: Seq<char>)
    requires
        !id.contains(c),
    ensures
        first_index_of(id + seq![c] + rest, c) == id.len(),
    decreases id.len(),
{
    let s = id + seq![c] + rest;
    if id.len() > 0 {
        assert(s[0] == id[0]);
        assert(id[0] != c);
        assert(!id.drop_first().contains(c)) by {
            if id.drop_first().contains(c) {
                let k = choose|k: int| 0 <= k < id.drop_first().len() && id.drop_first()[k] == c;
                assert(id[k + 1] == c);
            }
        }
        lemma_first_index_after(id.drop_first(), c, rest);
        assert(s.drop_first() =~= id.drop_first() + seq![c] + rest);
    } else {
        assert(s[0] == c);
    }
}

/// The route of a note asset reads back the note id and asset path it was
/// built from: `/notes/{id}/{asset}` is a note route giving `id` and
/// `asset` ("index.html" for an empty asset), for every non-empty id
/// without `/`.
pub proof fn law_note_route_reads_back(id: Seq<char>, asset: Seq<char>)
    requires
        id.len() > 0,
        !id.contains('/'),
    ensures
        spec_route("/notes/"@ + id + "/"@ + asset) == RequestRoute::Note,
        spec_parse_note_route("/notes/"@ + id + "/"@ + asset) == Ok::<(Seq<char>, Seq<char>), RouteError>(
            (id, if asset.len() == 0 { "index.html"@ } else { asset }),
        ),
{
    reveal_strlit("/notes/");
    reveal_strlit("/");
    reveal_strlit("/index.html");
    reveal_strlit("/app.js");
    reveal_strlit("/styles.css");
    reveal_strlit("/api/topics");
    reveal_strlit("/api/topics/snapshot");
    reveal_strlit("/api/topics/add");
    let prefix = "/notes/"@;
    let path = prefix + id + "/"@ + asset;
    let tail = id + seq!['/'] + asset;
    assert(path.take(prefix.len() as int) =~= prefix);
    assert(has_prefix(path, prefix));
    assert(path.skip(prefix.len() as int) =~= tail);
    assert(path =~= prefix + tail);
    lemma_first_index_after(id, '/', asset);
    assert(tail.take(id.len() as int) =~= id);
    assert(tail.skip(id.len() as int + 1) =~= asset);
    assert(path.len() >= 9);
    assert(path[1] == 'n');
    assert(path != "/index.html"@ && path != "/"@ && path != "/app.js"@ && path != "/styles.css"@) by {
        if path == "/index.html"@ {
            assert(path[1] == "/index.html"@[1]);
        }
        if path == "/app.js"@ {
            assert(path[1] == "/app.js"@[1]);
        }
        if path == "/styles.css"@ {
            assert(path[1] == "/styles.css"@[1]);
        }
    }
    assert(path != "/api/topics"@ && path != "/api/topics/snapshot"@ && path != "/api/topics/add"@) by {
        if path == "/api/topics"@ {
            assert(path[1] == "/api/topics"@[1]);
        }
        if path == "/api/topics/snapshot"@ {
            assert(path[1] == "/api/topics/snapshot"@[1]);
        }
        if path == "/api/topics/add"@ {
            assert(path[1] == "/api/topics/add"@[1]);
        }
    }
}

/// Escaped text holds no `<` or `>`: a message shown on the error page
/// cannot open or close a tag.
pub proof fn law_escaped_text_has_no_tags(message: Seq<char>)
    ensures
        !spec_escape_html(message).contains('<'),
        !spec_escape_html(message).contains('>'),
    decreases message.len(),
{
    if message.len() > 0 {
        law_escaped_text_has_no_tags(message.drop_last());
        let prev = spec_escape_html(message.drop_last());
        let tail = escaped_char(message.last());
        reveal_strlit("&amp;");
        reveal_strlit("&lt;");
        reveal_strlit("&gt;");
        assert(!tail.contains('<') && !tail.contains('>'));
        let all = prev + tail;
        assert(spec_escape_html(message) == all);
        assert forall|k: int| 0 <= k < all.len() implies all[k] != '<' && all[k] != '>' by {
            if k < prev.len() {
                assert(all[k] == prev[k]);
            } else {
                assert(all[k] == tail[k - prev.len()]);
            }
        }
    }
}

/// Each supported extension, in any ASCII case, gives its own content type:
/// HTML, CSS, JavaScript, JSON, PNG, JPEG, GIF, SVG, WebP, ICO, WOFF and
/// WOFF2; every other extension, and a file without one, is served as
/// `application/octet-stream`.
pub proof fn law_content_types_follow_extensions(path: Seq<char>)
    ensures
        ({
            let e = lower_extension(path);
            let t = spec_content_type(path);
            &&& (e == "html"@ || e == "htm"@) <==> t == "text/html"@
            &&& e == "css"@ <==> t == "text/css"@
            &&& e == "js"@ <==> t == "text/javascript"@
            &&& e == "json"@ <==> t == "application/json"@
            &&& e == "png"@ <==> t == "image/png"@
            &&& (e == "jpg"@ || e == "jpeg"@) <==> t == "image/jpeg"@
            &&& e == "gif"@ <==> t == "image/gif"@
            &&& e == "svg"@ <==> t == "image/svg+xml"@
            &&& e == "webp"@ <==> t == "image/webp"@
            &&& e == "ico"@ <==> t == "image/x-icon"@
            &&& e == "woff"@ <==> t == "font/woff"@
            &&& e == "woff2"@ <==> t == "font/woff2"@
        }),
{
    reveal_strlit("html");
    reveal_strlit("htm");
    reveal_strlit("css");
    reveal_strlit("js");
    reveal_strlit("json");
    reveal_strlit("png");
    reveal_strlit("jpg");
    reveal_strlit("jpeg");
    reveal_strlit("gif");
    reveal_strlit("svg");
    reveal_strlit("webp");
    reveal_strlit("ico");
    reveal_strlit("woff");
    reveal_strlit("woff2");
    reveal_strlit("text/html");
    reveal_strlit("text/css");
    reveal_strlit("text/javascript");
    reveal_strlit("application/json");
    reveal_strlit("image/png");
    reveal_strlit("image/jpeg");
    reveal_strlit("image/gif");
    reveal_strlit("image/svg+xml");
    reveal_strlit("image/webp");
    reveal_strlit("image/x-icon");
    reveal_strlit("font/woff");
    reveal_strlit("font/woff2");
    reveal_strlit("application/octet-stream");
    // The names are pairwise distinct.
    assert("html"@ != "htm"@) by { assert("html"@.len() != "htm"@.len()); }
    assert("html"@ != "css"@) by { assert("html"@.len() != "css"@.len()); }
    assert("html"@ != "js"@) by { assert("html"@.len() != "js"@.len()); }
    assert("html"@ != "json"@) by { assert("html"@[0] != "json"@[0]); }
    assert("html"@ != "png"@) by { assert("html"@.len() != "png"@.len()); }
    assert("html"@ != "jpg"@) by { assert("html"@.len() != "jpg"@.len()); }
    assert("html"@ != "jpeg"@) by { assert("html"@[0] != "jpeg"@[0]); }
    assert("html"@ != "gif"@) by { assert("html"@.len() != "gif"@.len()); }
    assert("html"@ != "svg"@) by { assert("html"@.len() != "svg"@.len()); }
    assert("html"@ != "webp"@) by { assert("html"@[0] != "webp"@[0]); }
    assert("html"@ != "ico"@) by { assert("html"@.len() != "ico"@.len()); }
    assert("html"@ != "woff"@) by { assert("html"@[0] != "woff"@[0]); }
    assert("html"@ != "woff2"@) by { assert("html"@.len() != "woff2"@.len()); }
    assert("htm"@ != "css"@) by { assert("htm"@[0] != "css"@[0]); }
    assert("htm"@ != "js"@) by { assert("htm"@.len() != "js"@.len()); }
    assert("htm"@ != "json"@) by { assert("htm"@.len() != "json"@.len()); }
    assert("htm"@ != "png"@) by { assert("htm"@[0] != "png"@[0]); }
    assert("htm"@ != "jpg"@) by { assert("htm"@[0] != "jpg"@[0]); }
    assert("htm"@ != "jpeg"@) by { assert("htm"@.len() != "jpeg"@.len()); }
    assert("htm"@ != "gif"@) by { assert("htm"@[0] != "gif"@[0]); }
    assert("htm"@ != "svg"@) by { assert("htm"@[0] != "svg"@[0]); }
    assert("htm"@ != "webp"@) by { assert("htm"@.len() != "webp"@.len()); }
    assert("htm"@ != "ico"@) by { assert("htm"@[0] != "ico"@[0]); }
    assert("htm"@ != "woff"@) by { assert("htm"@.len() != "woff"@.len()); }
    assert("htm"@ != "woff2"@) by { assert("htm"@.len() != "woff2"@.len()); }
    assert("css"@ != "js"@) by { assert("css"@.len() != "js"@.len()); }
    assert("css"@ != "json"@) by { assert("css"@.len() != "json"@.len()); }
    assert("css"@ != "png"@) by { assert("css"@[0] != "png"@[0]); }
    assert("css"@ != "jpg"@) by { assert("css"@[0] != "jpg"@[0]); }
    assert("css"@ != "jpeg"@) by { assert("css"@.len() != "jpeg"@.len()); }
    assert("css"@ != "gif"@) by { assert("css"@[0] != "gif"@[0]); }
    assert("css"@ != "svg"@) by { assert("css"@[0] != "svg"@[0]); }
    assert("css"@ != "webp"@) by { assert("css"@.len() != "webp"@.len()); }
    assert("css"@ != "ico"@) by { assert("css"@[0] != "ico"@[0]); }
    assert("css"@ != "woff"@) by { assert("css"@.len() != "woff"@.len()); }
    assert("css"@ != "woff2"@) by { assert("css"@.len() != "woff2"@.len()); }
    assert("js"@ != "json"@) by { assert("js"@.len() != "json"@.len()); }
    assert("js"@ != "png"@) by { assert("js"@.len() != "png"@.len()); }
    assert("js"@ != "jpg"@) by { assert("js"@.len() != "jpg"@.len()); }
    assert("js"@ != "jpeg"@) by { assert("js"@.len() != "jpeg"@.len()); }
    assert("js"@ != "gif"@) by { assert("js"@.len() != "gif"@.len()); }
    assert("js"@ != "svg"@) by { assert("js"@.len() != "svg"@.len()); }
    assert("js"@ != "webp"@) by { assert("js"@.len() != "webp"@.len()); }
    assert("js"@ != "ico"@) by { assert("js"@.len() != "ico"@.len()); }
    assert("js"@ != "woff"@) by { assert("js"@.len() != "woff"@.len()); }
    assert("js"@ != "woff2"@) by { assert("js"@.len() != "woff2"@.len()); }
    assert("json"@ != "png"@) by { assert("json"@.len() != "png"@.len()); }
    assert("json"@ != "jpg"@) by { assert("json"@.len() != "jpg"@.len()); }
    assert("json"@ != "jpeg"@) by { assert("json"@[1] != "jpeg"@[1]); }
    assert("json"@ != "gif"@) by { assert("json"@.len() != "gif"@.len()); }
    assert("json"@ != "svg"@) by { assert("json"@.len() != "svg"@.len()); }
    assert("json"@ != "webp"@) by { assert("json"@[0] != "webp"@[0]); }
    assert("json"@ != "ico"@) by { assert("json"@.len() != "ico"@.len()); }
    assert("json"@ != "woff"@) by { assert("json"@[0] != "woff"@[0]); }
    assert("json"@ != "woff2"@) by { assert("json"@.len() != "woff2"@.len()); }
    assert("png"@ != "jpg"@) by { assert("png"@[0] != "jpg"@[0]); }
    assert("png"@ != "jpeg"@) by { assert("png"@.len() != "jpeg"@.len()); }
    assert("png"@ != "gif"@) by { assert("png"@[0] != "gif"@[0]); }
    assert("png"@ != "svg"@) by { assert("png"@[0] != "svg"@[0]); }
    assert("png"@ != "webp"@) by { assert("png"@.len() != "webp"@.len()); }
    assert("png"@ != "ico"@) by { assert("png"@[0] != "ico"@[0]); }
    assert("png"@ != "woff"@) by { assert("png"@.len() != "woff"@.len()); }
    assert("png"@ != "woff2"@) by { assert("png"@.len() != "woff2"@.len()); }
    assert("jpg"@ != "jpeg"@) by { assert("jpg"@.len() != "jpeg"@.len()); }
    assert("jpg"@ != "gif"@) by { assert("jpg"@[0] != "gif"@[0]); }
    assert("jpg"@ != "svg"@) by { assert("jpg"@[0] != "svg"@[0]); }
    assert("jpg"@ != "webp"@) by { assert("jpg"@.len() != "webp"@.len()); }
    assert("jpg"@ != "ico"@) by { assert("jpg"@[0] != "ico"@[0]); }
    assert("jpg"@ != "woff"@) by { assert("jpg"@.len() != "woff"@.len()); }
    assert("jpg"@ != "woff2"@) by { assert("jpg"@.len() != "woff2"@.len()); }
    assert("jpeg"@ != "gif"@) by { assert("jpeg"@.len() != "gif"@.len()); }
    assert("jpeg"@ != "svg"@) by { assert("jpeg"@.len() != "svg"@.len()); }
    assert("jpeg"@ != "webp"@) by { assert("jpeg"@[0] != "webp"@[0]); }
    assert("jpeg"@ != "ico"@) by { assert("jpeg"@.len() != "ico"@.len()); }
    assert("jpeg"@ != "woff"@) by { assert("jpeg"@[0] != "woff"@[0]); }
    assert("jpeg"@ != "woff2"@) by { assert("jpeg"@.len() != "woff2"@.len()); }
    assert("gif"@ != "svg"@) by { assert("gif"@[0] != "svg"@[0]); }
    assert("gif"@ != "webp"@) by { assert("gif"@.len() != "webp"@.len()); }
    assert("gif"@ != "ico"@) by { assert("gif"@[0] != "ico"@[0]); }
    assert("gif"@ != "woff"@) by { assert("gif"@.len() != "woff"@.len()); }
    assert("gif"@ != "woff2"@) by { assert("gif"@.len() != "woff2"@.len()); }
    assert("svg"@ != "webp"@) by { assert("svg"@.len() != "webp"@.len()); }
    assert("svg"@ != "ico"@) by { assert("svg"@[0] != "ico"@[0]); }
    assert("svg"@ != "woff"@) by { assert("svg"@.len() != "woff"@.len()); }
    assert("svg"@ != "woff2"@) by { assert("svg"@.len() != "woff2"@.len()); }
    assert("webp"@ != "ico"@) by { assert("webp"@.len() != "ico"@.len()); }
    assert("webp"@ != "woff"@) by { assert("webp"@[1] != "woff"@[1]); }
    assert("webp"@ != "woff2"@) by { assert("webp"@.len() != "woff2"@.len()); }
    assert("ico"@ != "woff"@) by { assert("ico"@.len() != "woff"@.len()); }
    assert("ico"@ != "woff2"@) by { assert("ico"@.len() != "woff2"@.len()); }
    assert("woff"@ != "woff2"@) by { assert("woff"@.len() != "woff2"@.len()); }
    assert("text/html"@ != "text/css"@) by { assert("text/html"@.len() != "text/css"@.len()); }
    assert("text/html"@ != "text/javascript"@) by { assert("text/html"@.len() != "text/javascript"@.len()); }
    assert("text/html"@ != "application/json"@) by { assert("text/html"@.len() != "application/json"@.len()); }
    assert("text/html"@ != "image/png"@) by { assert("text/html"@[0] != "image/png"@[0]); }
    assert("text/html"@ != "image/jpeg"@) by { assert("text/html"@.len() != "image/jpeg"@.len()); }
    assert("text/html"@ != "image/gif"@) by { assert("text/html"@[0] != "image/gif"@[0]); }
    assert("text/html"@ != "image/svg+xml"@) by { assert("text/html"@.len() != "image/svg+xml"@.len()); }
    assert("text/html"@ != "image/webp"@) by { assert("text/html"@.len() != "image/webp"@.len()); }
    assert("text/html"@ != "image/x-icon"@) by { assert("text/html"@.len() != "image/x-icon"@.len()); }
    assert("text/html"@ != "font/woff"@) by { assert("text/html"@[0] != "font/woff"@[0]); }
    assert("text/html"@ != "font/woff2"@) by { assert("text/html"@.len() != "font/woff2"@.len()); }
    assert("text/html"@ != "application/octet-stream"@) by { assert("text/html"@.len() != "application/octet-stream"@.len()); }
    assert("text/css"@ != "text/javascript"@) by { assert("text/css"@.len() != "text/javascript"@.len()); }
    assert("text/css"@ != "application/json"@) by { assert("text/css"@.len() != "application/json"@.len()); }
    assert("text/css"@ != "image/png"@) by { assert("text/css"@.len() != "image/png"@.len()); }
    assert("text/css"@ != "image/jpeg"@) by { assert("text/css"@.len() != "image/jpeg"@.len()); }
    assert("text/css"@ != "image/gif"@) by { assert("text/css"@.len() != "image/gif"@.len()); }
    assert("text/css"@ != "image/svg+xml"@) by { assert("text/css"@.len() != "image/svg+xml"@.len()); }
    assert("text/css"@ != "image/webp"@) by { assert("text/css"@.len() != "image/webp"@.len()); }
    assert("text/css"@ != "image/x-icon"@) by { assert("text/css"@.len() != "image/x-icon"@.len()); }
    assert("text/css"@ != "font/woff"@) by { assert("text/css"@.len() != "font/woff"@.len()); }
    assert("text/css"@ != "font/woff2"@) by { assert("text/css"@.len() != "font/woff2"@.len()); }
    assert("text/css"@ != "application/octet-stream"@) by { assert("text/css"@.len() != "application/octet-stream"@.len()); }
    assert("text/javascript"@ != "application/json"@) by { assert("text/javascript"@.len() != "application/json"@.len()); }
    assert("text/javascript"@ != "image/png"@) by { assert("text/javascript"@.len() != "image/png"@.len()); }
    assert("text/javascript"@ != "image/jpeg"@) by { assert("text/javascript"@.len() != "image/jpeg"@.len()); }
    assert("text/javascript"@ != "image/gif"@) by { assert("text/javascript"@.len() != "image/gif"@.len()); }
    assert("text/javascript"@ != "image/svg+xml"@) by { assert("text/javascript"@.len() != "image/svg+xml"@.len()); }
    assert("text/javascript"@ != "image/webp"@) by { assert("text/javascript"@.len() != "image/webp"@.len()); }
    assert("text/javascript"@ != "image/x-icon"@) by { assert("text/javascript"@.len() != "image/x-icon"@.len()); }
    assert("text/javascript"@ != "font/woff"@) by { assert("text/javascript"@.len() != "font/woff"@.len()); }
    assert("text/javascript"@ != "font/woff2"@) by { assert("text/javascript"@.len() != "font/woff2"@.len()); }
    assert("text/javascript"@ != "application/octet-stream"@) by { assert("text/javascript"@.len() != "application/octet-stream"@.len()); }
    assert("application/json"@ != "image/png"@) by { assert("application/json"@.len() != "image/png"@.len()); }
    assert("application/json"@ != "image/jpeg"@) by { assert("application/json"@.len() != "image/jpeg"@.len()); }
    assert("application/json"@ != "image/gif"@) by { assert("application/json"@.len() != "image/gif"@.len()); }
    assert("application/json"@ != "image/svg+xml"@) by { assert("application/json"@.len() != "image/svg+xml"@.len()); }
    assert("application/json"@ != "image/webp"@) by { assert("application/json"@.len() != "image/webp"@.len()); }
    assert("application/json"@ != "image/x-icon"@) by { assert("application/json"@.len() != "image/x-icon"@.len()); }
    assert("application/json"@ != "font/woff"@) by { assert("application/json"@.len() != "font/woff"@.len()); }
    assert("application/json"@ != "font/woff2"@) by { assert("application/json"@.len() != "font/woff2"@.len()); }
    assert("application/json"@ != "application/octet-stream"@) by { assert("application/json"@.len() != "application/octet-stream"@.len()); }
    assert("image/png"@ != "image/jpeg"@) by { assert("image/png"@.len() != "image/jpeg"@.len()); }
    assert("image/png"@ != "image/gif"@) by { assert("image/png"@[6] != "image/gif"@[6]); }
    assert("image/png"@ != "image/svg+xml"@) by { assert("image/png"@.len() != "image/svg+xml"@.len()); }
    assert("image/png"@ != "image/webp"@) by { assert("image/png"@.len() != "image/webp"@.len()); }
    assert("image/png"@ != "image/x-icon"@) by { assert("image/png"@.len() != "image/x-icon"@.len()); }
    assert("image/png"@ != "font/woff"@) by { assert("image/png"@[0] != "font/woff"@[0]); }
    assert("image/png"@ != "font/woff2"@) by { assert("image/png"@.len() != "font/woff2"@.len()); }
    assert("image/png"@ != "application/octet-stream"@) by { assert("image/png"@.len() != "application/octet-stream"@.len()); }
    assert("image/jpeg"@ != "image/gif"@) by { assert("image/jpeg"@.len() != "image/gif"@.len()); }
    assert("image/jpeg"@ != "image/svg+xml"@) by { assert("image/jpeg"@.len() != "image/svg+xml"@.len()); }
    assert("image/jpeg"@ != "image/webp"@) by { assert("image/jpeg"@[6] != "image/webp"@[6]); }
    assert("image/jpeg"@ != "image/x-icon"@) by { assert("image/jpeg"@.len() != "image/x-icon"@.len()); }
    assert("image/jpeg"@ != "font/woff"@) by { assert("image/jpeg"@.len() != "font/woff"@.len()); }
    assert("image/jpeg"@ != "font/woff2"@) by { assert("image/jpeg"@[0] != "font/woff2"@[0]); }
    assert("image/jpeg"@ != "application/octet-stream"@) by { assert("image/jpeg"@.len() != "application/octet-stream"@.len()); }
    assert("image/gif"@ != "image/svg+xml"@) by { assert("image/gif"@.len() != "image/svg+xml"@.len()); }
    assert("image/gif"@ != "image/webp"@) by { assert("image/gif"@.len() != "image/webp"@.len()); }
    assert("image/gif"@ != "image/x-icon"@) by { assert("image/gif"@.len() != "image/x-icon"@.len()); }
    assert("image/gif"@ != "font/woff"@) by { assert("image/gif"@[0] != "font/woff"@[0]); }
    assert("image/gif"@ != "font/woff2"@) by { assert("image/gif"@.len() != "font/woff2"@.len()); }
    assert("image/gif"@ != "application/octet-stream"@) by { assert("image/gif"@.len() != "application/octet-stream"@.len()); }
    assert("image/svg+xml"@ != "image/webp"@) by { assert("image/svg+xml"@.len() != "image/webp"@.len()); }
    assert("image/svg+xml"@ != "image/x-icon"@) by { assert("image/svg+xml"@.len() != "image/x-icon"@.len()); }
    assert("image/svg+xml"@ != "font/woff"@) by { assert("image/svg+xml"@.len() != "font/woff"@.len()); }
    assert("image/svg+xml"@ != "font/woff2"@) by { assert("image/svg+xml"@.len() != "font/woff2"@.len()); }
    assert("image/svg+xml"@ != "application/octet-stream"@) by { assert("image/svg+xml"@.len() != "application/octet-stream"@.len()); }
    assert("image/webp"@ != "image/x-icon"@) by { assert("image/webp"@.len() != "image/x-icon"@.len()); }
    assert("image/webp"@ != "font/woff"@) by { assert("image/webp"@.len() != "font/woff"@.len()); }
    assert("image/webp"@ != "font/woff2"@) by { assert("image/webp"@[0] != "font/woff2"@[0]); }
    assert("image/webp"@ != "application/octet-stream"@) by { assert("image/webp"@.len() != "application/octet-stream"@.len()); }
    assert("image/x-icon"@ != "font/woff"@) by { assert("image/x-icon"@.len() != "font/woff"@.len()); }
    assert("image/x-icon"@ != "font/woff2"@) by { assert("image/x-icon"@.len() != "font/woff2"@.len()); }
    assert("image/x-icon"@ != "application/octet-stream"@) by { assert("image/x-icon"@.len() != "application/octet-stream"@.len()); }
    assert("font/woff"@ != "font/woff2"@) by { assert("font/woff"@.len() != "font/woff2"@.len()); }
    assert("font/woff"@ != "application/octet-stream"@) by { assert("font/woff"@.len() != "application/octet-stream"@.len()); }
    assert("font/woff2"@ != "application/octet-stream"@) by { assert("font/woff2"@.len() != "application/octet-stream"@.len()); }
}

/// A file whose extension is none of the supported ones is served as
/// `application/octet-stream`.
pub proof fn law_unknown_extensions_are_octet_streams(path: Seq<char>)
    requires
        !(seq!["html"@, "htm"@, "css"@, "js"@, "json"@, "png"@, "jpg"@, "jpeg"@, "gif"@, "svg"@, "webp"@,
            "ico"@, "woff"@, "woff2"@].contains(lower_extension(path))),
    ensures
        spec_content_type(path) == "application/octet-stream"@,
{
    let e = lower_extension(path);
    let known = seq!["html"@, "htm"@, "css"@, "js"@, "json"@, "png"@, "jpg"@, "jpeg"@, "gif"@, "svg"@, "webp"@,
        "ico"@, "woff"@, "woff2"@];
    assert(e != known[0] && e != known[1] && e != known[2] && e != known[3] && e != known[4]);
    assert(e != known[5] && e != known[6] && e != known[7] && e != known[8] && e != known[9]);
    assert(e != known[10] && e != known[11] && e != known[12] && e != known[13]);
}

} // verus!