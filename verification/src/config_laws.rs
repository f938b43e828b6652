//! Properties of the topic registry across its operations.
use vstd::prelude::*;

use crate::config::{
    ascii_lower, is_ascii_alnum, is_dash, lemma_choices_error_sticks, lemma_first_free_suffix, slug_char, slugify,
    spec_add_topic_folder, spec_added_topic, spec_apply_choices, spec_new_topic,
    spec_replace_topic_path, topic_ids, topic_with_id_from, topic_with_path_from, unique_id,
    MissingTopicChoice,
};
use crate::domain::TopicConfigView;
use crate::path::spec_path_eq;
use crate::text::{trim_both, trim_leading, trim_trailing};

verus! {

/// No two topics share an id.
pub open spec fn ids_distinct(ts: Seq<TopicConfigView>) -> bool {
    topic_ids(ts).no_duplicates()
}

/// The id made unique is not among the existing ids.
pub proof fn law_unique_id_is_fresh(base: Seq<char>, existing: Seq<Seq<char>>)
    ensures
        !existing.contains(unique_id(base, existing)),
{
    if existing.contains(base) {
        lemma_first_free_suffix(base, existing, 2);
    }
}

/// Adding a folder keeps topic ids distinct.
pub proof fn law_add_keeps_ids_distinct(ts: Seq<TopicConfigView>, path: Seq<char>)
    requires
        ids_distinct(ts),
    ensures
        ids_distinct(spec_add_topic_folder(ts, path).0),
{
    if topic_with_path_from(ts, path, 0) is None {
        let added = spec_added_topic(ts, path);
        law_unique_id_is_fresh(crate::config::spec_new_topic(path).id, topic_ids(ts));
        let after = ts.push(added);
        assert(topic_ids(after) == topic_ids(ts).push(added.id));
        assert forall|i: int, j: int|
            0 <= i < topic_ids(after).len() && 0 <= j < topic_ids(after).len() && i != j implies topic_ids(
            after,
        )[i] != topic_ids(after)[j] by {
            if i == ts.len() {
                assert(topic_ids(ts)[j] == topic_ids(after)[j]);
            } else if j == ts.len() {
                assert(topic_ids(ts)[i] == topic_ids(after)[i]);
            } else {
                assert(topic_ids(ts)[i] == topic_ids(after)[i]);
                assert(topic_ids(ts)[j] == topic_ids(after)[j]);
            }
        }
    }
}

proof fn lemma_path_search_found(ts: Seq<TopicConfigView>, path: Seq<char>, i: int)
    requires
        0 <= i,
        topic_with_path_from(ts, path, i) is Some,
    ensures
        i <= topic_with_path_from(ts, path, i)->Some_0 < ts.len(),
        spec_path_eq(ts[topic_with_path_from(ts, path, i)->Some_0].path, path),
    decreases ts.len() - i,
{
    if !spec_path_eq(ts[i].path, path) {
        lemma_path_search_found(ts, path, i + 1);
    }
}

proof fn lemma_path_search_push(ts: Seq<TopicConfigView>, x: TopicConfigView, path: Seq<char>, i: int)
    requires
        0 <= i <= ts.len(),
        topic_with_path_from(ts, path, i) is None,
        spec_path_eq(x.path, path),
    ensures
        topic_with_path_from(ts.push(x), path, i) == Some(ts.len() as int),
    decreases ts.len() - i,
{
    if i < ts.len() {
        assert(ts.push(x)[i] == ts[i]);
        lemma_path_search_push(ts, x, path, i + 1);
    }
}

/// The topic returned for a folder is a topic of that folder.
pub proof fn law_added_topic_has_folder(ts: Seq<TopicConfigView>, path: Seq<char>)
    ensures
        spec_path_eq(spec_add_topic_folder(ts, path).1.path, path),
        spec_add_topic_folder(ts, path).0.contains(spec_add_topic_folder(ts, path).1),
{
    match topic_with_path_from(ts, path, 0) {
        Some(i) => {
            lemma_path_search_found(ts, path, 0);
        },
        None => {
            let after = spec_add_topic_folder(ts, path).0;
            assert(after[ts.len() as int] == spec_added_topic(ts, path));
        },
    }
}

/// Adding the same folder twice is the same as adding it once.
pub proof fn law_add_twice_is_add_once(ts: Seq<TopicConfigView>, path: Seq<char>)
    ensures
        spec_add_topic_folder(spec_add_topic_folder(ts, path).0, path) == spec_add_topic_folder(
            ts,
            path,
        ),
{
    if topic_with_path_from(ts, path, 0) is None {
        let added = spec_added_topic(ts, path);
        lemma_path_search_push(ts, added, path, 0);
    }
}

proof fn lemma_id_search_found(ts: Seq<TopicConfigView>, id: Seq<char>, i: int)
    requires
        0 <= i,
        topic_with_id_from(ts, id, i) is Some,
    ensures
        i <= topic_with_id_from(ts, id, i)->Some_0 < ts.len(),
    decreases ts.len() - i,
{
    if ts[i].id != id {
        lemma_id_search_found(ts, id, i + 1);
    }
}

/// Pointing a topic at another folder keeps every topic id, in order.
pub proof fn law_replace_keeps_ids(ts: Seq<TopicConfigView>, id: Seq<char>, path: Seq<char>)
    requires
        spec_replace_topic_path(ts, id, path) is Some,
    ensures
        topic_ids(spec_replace_topic_path(ts, id, path)->Some_0) == topic_ids(ts),
{
    lemma_id_search_found(ts, id, 0);
    let i = topic_with_id_from(ts, id, 0)->Some_0;
    let after = spec_replace_topic_path(ts, id, path)->Some_0;
    assert(topic_ids(after) =~= topic_ids(ts));
}

/// Applying the choices for missing folders keeps every topic id, in order.
pub proof fn law_recovery_keeps_ids(ts: Seq<TopicConfigView>, choices: Seq<MissingTopicChoice>)
    ensures
        topic_ids(spec_apply_choices(ts, choices).0) == topic_ids(ts),
    decreases choices.len(),
{
    if choices.len() > 0 {
        law_recovery_keeps_ids(ts, choices.drop_last());
        let (t1, r1) = spec_apply_choices(ts, choices.drop_last());
        let c = choices.last();
        if r1 is Ok && c.replacement is Some && spec_replace_topic_path(
            t1,
            c.topic_id@,
            c.replacement->Some_0@,
        ) is Some {
            law_replace_keeps_ids(t1, c.topic_id@, c.replacement->Some_0@);
        }
    }
}

/// The slug char of each char of `t`.
pub open spec fn slug_chars(t: Seq<char>) -> Seq<char> {
    t.map_values(|c: char| slug_char(c))
}

/// A char that may stand in a slug: a lower-case ASCII letter, a digit or a
/// dash.
pub open spec fn is_slug_char(c: char) -> bool {
    ('a' <= c && c <= 'z') || ('0' <= c && c <= '9') || c == '-'
}

/// A slug: not empty, made of slug chars, with no dash at either end.
pub open spec fn is_slug(s: Seq<char>) -> bool {
    &&& s.len() > 0
    &&& forall|i: int| 0 <= i < s.len() ==> is_slug_char(#[trigger] s[i])
    &&& s[0] != '-'
    &&& s.last() != '-'
}

/// The ASCII letters and digits of `s`, lower-cased, in order.
pub open spec fn alnum_lower(s: Seq<char>) -> Seq<char>
    decreases s.len(),
{
    if s.len() == 0 {
        Seq::empty()
    } else if is_ascii_alnum(s.last()) {
        alnum_lower(s.drop_last()).push(ascii_lower(s.last()))
    } else {
        alnum_lower(s.drop_last())
    }
}

proof fn lemma_alnum_lower_concat(a: Seq<char>, b: Seq<char>)
    ensures
        alnum_lower(a + b) == alnum_lower(a) + alnum_lower(b),
    decreases b.len(),
{
    if b.len() == 0 {
        assert(a + b =~= a);
        assert(alnum_lower(b) =~= Seq::<char>::empty());
        assert(alnum_lower(a) + alnum_lower(b) =~= alnum_lower(a));
    } else {
        lemma_alnum_lower_concat(a, b.drop_last());
        assert((a + b).drop_last() =~= a + b.drop_last());
        assert((a + b).last() == b.last());
        if is_ascii_alnum(b.last()) {
            assert(alnum_lower(a) + alnum_lower(b) =~= (alnum_lower(a) + alnum_lower(b.drop_last())).push(
                ascii_lower(b.last()),
            ));
        }
    }
}

proof fn lemma_slug_char(c: char)
    ensures
        is_slug_char(slug_char(c)),
        is_ascii_alnum(slug_char(c)) == is_ascii_alnum(c),
        is_ascii_alnum(c) ==> ascii_lower(slug_char(c)) == ascii_lower(c),
        !is_ascii_alnum(c) ==> slug_char(c) == '-',
        is_slug_char(c) ==> slug_char(c) == c,
{
    if 'A' <= c && c <= 'Z' {
        let v = (c as int) + 32;
        assert(97 <= v <= 122);
        assert(('a' as int) == 97 && ('z' as int) == 122);
        assert((v as char) as int == v);
    }
}

proof fn lemma_mapped_slug_chars(t: Seq<char>)
    ensures
        forall|i: int| 0 <= i < t.len() ==> #[trigger] slug_chars(t)[i] == slug_char(t[i]),
        alnum_lower(slug_chars(t)) == alnum_lower(t),
    decreases t.len(),
{
    let m = slug_chars(t);
    if t.len() > 0 {
        lemma_mapped_slug_chars(t.drop_last());
        assert(m.drop_last() =~= slug_chars(t.drop_last()));
        lemma_slug_char(t.last());
        assert(m.last() == slug_char(t.last()));
        if is_ascii_alnum(t.last()) {
            let l = slug_char(t.last());
            assert(ascii_lower(l) == ascii_lower(t.last()));
        }
    } else {
        assert(m =~= Seq::<char>::empty());
    }
}

proof fn lemma_trim_leading_shape(s: Seq<char>, p: spec_fn(char) -> bool)
    ensures
        trim_leading(s, p).len() <= s.len(),
        trim_leading(s, p) == s.skip(s.len() - trim_leading(s, p).len()),
        forall|j: int| 0 <= j < s.len() - trim_leading(s, p).len() ==> p(#[trigger] s[j]),
        trim_leading(s, p).len() > 0 ==> !p(trim_leading(s, p)[0]),
    decreases s.len(),
{
    if s.len() > 0 && p(s[0]) {
        lemma_trim_leading_shape(s.drop_first(), p);
        let r = trim_leading(s.drop_first(), p);
        assert(s.drop_first().skip(s.drop_first().len() - r.len()) =~= s.skip(s.len() - r.len()));
        assert forall|j: int| 0 <= j < s.len() - r.len() implies p(#[trigger] s[j]) by {
            if j > 0 {
                assert(s[j] == s.drop_first()[j - 1]);
            }
        }
    } else {
        assert(s.skip(0) =~= s);
    }
}

proof fn lemma_trim_trailing_shape(s: Seq<char>, p: spec_fn(char) -> bool)
    ensures
        trim_trailing(s, p).len() <= s.len(),
        trim_trailing(s, p) == s.take(trim_trailing(s, p).len() as int),
        forall|j: int| trim_trailing(s, p).len() <= j < s.len() ==> p(#[trigger] s[j]),
        trim_trailing(s, p).len() > 0 ==> !p(trim_trailing(s, p).last()),
    decreases s.len(),
{
    if s.len() > 0 && p(s.last()) {
        lemma_trim_trailing_shape(s.drop_last(), p);
        let r = trim_trailing(s.drop_last(), p);
        assert(s.drop_last().take(r.len() as int) =~= s.take(r.len() as int));
        assert forall|j: int| r.len() <= j < s.len() implies p(#[trigger] s[j]) by {
            if j < s.len() - 1 {
                assert(s[j] == s.drop_last()[j]);
            }
        }
    } else {
        assert(s.take(s.len() as int) =~= s);
    }
}

/// The trimmed slug chars of `t`: a run of `m` with only dashes cut off
/// either end, and no dash left at either end.
proof fn lemma_trimmed(t: Seq<char>)
    ensures
        ({
            let m = slug_chars(t);
            let r = trim_both(m, |c: char| is_dash(c));
            &&& forall|i: int| 0 <= i < r.len() ==> is_slug_char(#[trigger] r[i])
            &&& r.len() > 0 ==> r[0] != '-' && r.last() != '-'
            &&& alnum_lower(r) == alnum_lower(t)
        }),
{
    let p = |c: char| is_dash(c);
    let m = slug_chars(t);
    lemma_mapped_slug_chars(t);
    assert forall|i: int| 0 <= i < m.len() implies is_slug_char(#[trigger] m[i]) by {
        lemma_slug_char(t[i]);
    }
    let l = trim_leading(m, p);
    lemma_trim_leading_shape(m, p);
    let k = m.len() - l.len();
    let r = trim_trailing(l, p);
    lemma_trim_trailing_shape(l, p);
    assert(r == trim_both(m, p));
    assert forall|i: int| 0 <= i < r.len() implies is_slug_char(#[trigger] r[i]) by {
        assert(r[i] == l[i]);
        assert(l[i] == m[i + k]);
    }
    if r.len() > 0 {
        assert(r[0] == l[0]);
        assert(!p(l[0]));
        assert(!p(r.last()));
    }
    // Only dashes were cut: the letters and digits are all kept.
    assert(m =~= m.take(k) + l);
    assert(l =~= r + l.skip(r.len() as int));
    assert(alnum_lower(m.take(k)) =~= Seq::<char>::empty()) by {
        lemma_no_alnum(m.take(k));
    }
    assert(alnum_lower(l.skip(r.len() as int)) =~= Seq::<char>::empty()) by {
        lemma_no_alnum(l.skip(r.len() as int));
    }
    lemma_alnum_lower_concat(m.take(k), l);
    lemma_alnum_lower_concat(r, l.skip(r.len() as int));
}

proof fn lemma_no_alnum(s: Seq<char>)
    requires
        forall|i: int| 0 <= i < s.len() ==> #[trigger] s[i] == '-',
    ensures
        alnum_lower(s) == Seq::<char>::empty(),
    decreases s.len(),
{
    if s.len() > 0 {
        assert(s.last() == s[s.len() - 1]);
        lemma_no_alnum(s.drop_last());
    }
}

proof fn lemma_slug_is_fixed(s: Seq<char>)
    requires
        is_slug(s),
    ensures
        slug_chars(s) == s,
        trim_both(s, |c: char| is_dash(c)) == s,
{
    assert forall|i: int| 0 <= i < s.len() implies #[trigger] slug_chars(s)[i]
        == s[i] by {
        lemma_slug_char(s[i]);
    }
    assert(slug_chars(s) =~= s);
    let p = |c: char| is_dash(c);
    assert(!p(s[0]));
    assert(trim_leading(s, p) == s);
    assert(!p(s.last()));
    assert(trim_trailing(s, p) == s);
}

/// Slugs keep to their form: whatever the text, its slug (with a slug as
/// the fallback) is a slug, i.e. non-empty, of lower-case ASCII letters,
/// digits and dashes, with no dash at either end; it holds the text's ASCII
/// letters and digits, lower-cased and in order, and is the fallback
/// exactly when the text has none; and the slug of a slug is itself.
pub proof fn law_slugs_keep_their_form(text: Seq<char>, fallback: Seq<char>)
    requires
        is_slug(fallback),
    ensures
        is_slug(slugify(text, fallback)),
        alnum_lower(text).len() > 0 ==> alnum_lower(slugify(text, fallback)) == alnum_lower(text),
        alnum_lower(text).len() == 0 ==> slugify(text, fallback) == fallback,
        slugify(slugify(text, fallback), fallback) == slugify(text, fallback),
{
    let m = slug_chars(text);
    let r = trim_both(m, |c: char| is_dash(c));
    lemma_trimmed(text);
    if r.len() == 0 {
        if alnum_lower(text).len() > 0 {
            assert(alnum_lower(r) =~= Seq::<char>::empty());
        }
    } else {
        assert(is_slug(r));
        if alnum_lower(text).len() == 0 {
            // A slug that is not empty and has no dash at its start has a
            // letter or digit.
            lemma_slug_char(r[0]);
            assert(r =~= seq![r[0]] + r.drop_first());
            lemma_alnum_lower_concat(seq![r[0]], r.drop_first());
            assert(seq![r[0]].drop_last() =~= Seq::<char>::empty());
            assert(alnum_lower(seq![r[0]]).len() == 1);
        }
    }
    lemma_slug_is_fixed(slugify(text, fallback));
}

/// Topic ids made from names are slugs, with "topic" as the fallback.
pub proof fn law_topic_ids_are_slugs(display_name: Seq<char>)
    ensures
        is_slug(slugify(display_name, "topic"@)),
        alnum_lower(display_name).len() == 0 ==> slugify(display_name, "topic"@) == "topic"@,
        alnum_lower(display_name).len() > 0 ==> alnum_lower(slugify(display_name, "topic"@))
            == alnum_lower(display_name),
        slugify(slugify(display_name, "topic"@), "topic"@) == slugify(display_name, "topic"@),
{
    reveal_strlit("topic");
    law_slugs_keep_their_form(display_name, "topic"@);
}

/// The folder of the last choice for topic `id` that picked one.
pub open spec fn last_replacement(choices: Seq<MissingTopicChoice>, id: Seq<char>) -> Option<Seq<char>>
    decreases choices.len(),
{
    if choices.len() == 0 {
        None
    } else {
        let c = choices.last();
        if c.topic_id@ == id && c.replacement is Some {
            Some(c.replacement->Some_0@)
        } else {
            last_replacement(choices.drop_last(), id)
        }
    }
}

/// The topic ids of the choices that picked no folder, in order.
pub open spec fn canceled_choice_ids(choices: Seq<MissingTopicChoice>) -> Seq<Seq<char>>
    decreases choices.len(),
{
    if choices.len() == 0 {
        Seq::empty()
    } else {
        let prev = canceled_choice_ids(choices.drop_last());
        if choices.last().replacement is None {
            prev.push(choices.last().topic_id@)
        } else {
            prev
        }
    }
}

proof fn lemma_topic_with_id_found(ts: Seq<TopicConfigView>, id: Seq<char>, i: int)
    requires
        0 <= i,
    ensures
        topic_with_id_from(ts, id, i) matches Some(j) ==> i <= j < ts.len() && ts[j].id == id && forall|
            k: int,
        | i <= k < j ==> #[trigger] ts[k].id != id,
        (exists|k: int| i <= k < ts.len() && #[trigger] ts[k].id == id) ==> topic_with_id_from(ts, id, i) is Some,
    decreases ts.len() - i,
{
    if i < ts.len() && ts[i].id != id {
        lemma_topic_with_id_found(ts, id, i + 1);
        if exists|k: int| i <= k < ts.len() && #[trigger] ts[k].id == id {
            let k = choose|k: int| i <= k < ts.len() && #[trigger] ts[k].id == id;
            assert(k != i);
        }
    }
}

proof fn lemma_topic_with_id_same_ids(a: Seq<TopicConfigView>, b: Seq<TopicConfigView>, id: Seq<char>, i: int)
    requires
        topic_ids(a) == topic_ids(b),
    ensures
        topic_with_id_from(a, id, i) == topic_with_id_from(b, id, i),
    decreases a.len() - i,
{
    assert(a.len() == topic_ids(a).len() && b.len() == topic_ids(b).len());
    if 0 <= i < a.len() {
        assert(topic_ids(a)[i] == a[i].id && topic_ids(b)[i] == b[i].id);
        lemma_topic_with_id_same_ids(a, b, id, i + 1);
    }
}

/// The topic at position `k` after the choices: the first topic with a
/// given id that some choice picked a folder for points at the folder last
/// picked for it, named after that folder, and keeps its id; every other
/// topic is unchanged.
pub open spec fn recovered_topic(
    ts: Seq<TopicConfigView>,
    choices: Seq<MissingTopicChoice>,
    k: int,
) -> TopicConfigView {
    let t = ts[k];
    if topic_with_id_from(ts, t.id, 0) == Some(k) && last_replacement(choices, t.id) is Some {
        let p = last_replacement(choices, t.id)->Some_0;
        TopicConfigView { display_name: spec_new_topic(p).display_name, path: p, ..t }
    } else {
        t
    }
}

/// When every choice that picked a folder names a configured topic,
/// applying the choices succeeds and re-points every topic that a folder was picked for (the
/// last pick for it wins), whatever the other choices are; it reports a
/// change exactly when some folder was picked, and the canceled topics in
/// order.
pub proof fn law_recovery_applies_every_pick(ts: Seq<TopicConfigView>, choices: Seq<MissingTopicChoice>)
    requires
        forall|i: int|
            0 <= i < choices.len() && #[trigger] choices[i].replacement is Some ==> topic_ids(ts).contains(
                choices[i].topic_id@,
            ),
    ensures
        ({
            let (after, result) = spec_apply_choices(ts, choices);
            &&& result is Ok
            &&& result->Ok_0.0 == exists|i: int| 0 <= i < choices.len() && #[trigger] choices[i].replacement is Some
            &&& result->Ok_0.1 == canceled_choice_ids(choices)
            &&& after.len() == ts.len()
            &&& forall|k: int| 0 <= k < ts.len() ==> #[trigger] after[k] == recovered_topic(ts, choices, k)
        }),
    decreases choices.len(),
{
    if choices.len() == 0 {
        let (after, result) = spec_apply_choices(ts, choices);
        assert forall|k: int| 0 <= k < ts.len() implies #[trigger] after[k] == recovered_topic(ts, choices, k) by {
        }
    } else {
        let prev = choices.drop_last();
        assert forall|i: int| 0 <= i < prev.len() && #[trigger] prev[i].replacement is Some implies topic_ids(
            ts,
        ).contains(prev[i].topic_id@) by {
            assert(prev[i] == choices[i]);
        }
        law_recovery_applies_every_pick(ts, prev);
        law_recovery_keeps_ids(ts, prev);
        let (t1, r1) = spec_apply_choices(ts, prev);
        let c = choices.last();
        assert(c == choices[choices.len() - 1]);
        let (after, result) = spec_apply_choices(ts, choices);
        assert((exists|i: int| 0 <= i < choices.len() && #[trigger] choices[i].replacement is Some) == (
        (exists|i: int| 0 <= i < prev.len() && #[trigger] prev[i].replacement is Some) || c.replacement is Some)) by {
            if exists|i: int| 0 <= i < choices.len() && #[trigger] choices[i].replacement is Some {
                let i = choose|i: int| 0 <= i < choices.len() && #[trigger] choices[i].replacement is Some;
                if i < prev.len() {
                    assert(prev[i] == choices[i]);
                }
            }
            if exists|i: int| 0 <= i < prev.len() && #[trigger] prev[i].replacement is Some {
                let i = choose|i: int| 0 <= i < prev.len() && #[trigger] prev[i].replacement is Some;
                assert(prev[i] == choices[i]);
            }
        }
        match c.replacement {
            None => {
                assert forall|k: int| 0 <= k < ts.len() implies #[trigger] after[k] == recovered_topic(ts, choices, k) by {
                    assert(last_replacement(choices, ts[k].id) == last_replacement(prev, ts[k].id));
                    assert(after[k] == t1[k]);
                    assert(t1[k] == recovered_topic(ts, prev, k));
                }
            },
            Some(p) => {
                assert(topic_ids(ts).contains(c.topic_id@));
                let id = c.topic_id@;
                let k0 = choose|k: int| 0 <= k < topic_ids(ts).len() && topic_ids(ts)[k] == id;
                assert(ts[k0].id == id);
                lemma_topic_with_id_found(ts, id, 0);
                lemma_topic_with_id_same_ids(t1, ts, id, 0);
                let j = topic_with_id_from(ts, id, 0)->Some_0;
                assert(t1.len() == topic_ids(t1).len());
                assert(spec_replace_topic_path(t1, id, p@) is Some);
                assert forall|k: int| 0 <= k < ts.len() implies #[trigger] after[k] == recovered_topic(ts, choices, k) by {
                    assert(t1[k] == recovered_topic(ts, prev, k));
                    assert(topic_ids(t1)[k] == t1[k].id && topic_ids(ts)[k] == ts[k].id);
                    if k == j {
                        assert(ts[k].id == id);
                        assert(last_replacement(choices, id) == Some(p@));
                    } else {
                        if ts[k].id == id {
                            assert(topic_with_id_from(ts, ts[k].id, 0) != Some(k));
                        } else {
                            assert(last_replacement(choices, ts[k].id) == last_replacement(prev, ts[k].id));
                        }
                    }
                }
            },
        }
    }
}

/// A folder picked for a topic that is not configured is refused: the
/// result is the error naming that topic (the first such pick), with the
/// choices before it applied.
pub proof fn law_recovery_refuses_unknown_topic(
    ts: Seq<TopicConfigView>,
    choices: Seq<MissingTopicChoice>,
    i: int,
)
    requires
        0 <= i < choices.len(),
        choices[i].replacement is Some,
        !topic_ids(ts).contains(choices[i].topic_id@),
        forall|j: int|
            0 <= j < i && #[trigger] choices[j].replacement is Some ==> topic_ids(ts).contains(
                choices[j].topic_id@,
            ),
    ensures
        spec_apply_choices(ts, choices).1 == Err::<(bool, Seq<Seq<char>>), Seq<char>>(choices[i].topic_id@),
        spec_apply_choices(ts, choices).0 == spec_apply_choices(ts, choices.take(i)).0,
{
    let before = choices.take(i);
    assert forall|j: int| 0 <= j < before.len() && #[trigger] before[j].replacement is Some implies topic_ids(
        ts,
    ).contains(before[j].topic_id@) by {
        assert(before[j] == choices[j]);
    }
    law_recovery_applies_every_pick(ts, before);
    law_recovery_keeps_ids(ts, before);
    let upto = choices.take(i + 1);
    assert(upto.drop_last() == before);
    assert(upto.last() == choices[i]);
    let t1 = spec_apply_choices(ts, before).0;
    let id = choices[i].topic_id@;
    lemma_topic_with_id_same_ids(t1, ts, id, 0);
    lemma_topic_with_id_found(ts, id, 0);
    if topic_with_id_from(ts, id, 0) is Some {
        let j = topic_with_id_from(ts, id, 0)->Some_0;
        assert(topic_ids(ts)[j] == id);
    }
    assert(spec_replace_topic_path(t1, id, choices[i].replacement->Some_0@) is None);
    lemma_choices_error_sticks(ts, choices, i + 1);
}

} // verus!