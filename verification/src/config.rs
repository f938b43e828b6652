//! The topic registry kept in the config file: topic ids made from folder
//! names, made unique with numeric suffixes.
use vstd::prelude::*;

use crate::domain::{TopicConfig, TopicConfigView};
use crate::path::{file_name, path_eq, spec_file_name, spec_path_eq};
use crate::text::{
    chars_of, lemma_trim_leading, lemma_trim_trailing, push_char, string_from_chars, strings_view,
    trim_both,
};

verus! {

/// ASCII letters and digits.
pub open spec fn is_ascii_alnum(c: char) -> bool {
    ('a' <= c && c <= 'z') || ('A' <= c && c <= 'Z') || ('0' <= c && c <= '9')
}

/// ASCII upper-case letters turned lower-case; any other char unchanged.
pub open spec fn ascii_lower(c: char) -> char {
    if 'A' <= c && c <= 'Z' {
        ((c as int) + 32) as char
    } else {
        c
    }
}

/// The char that stands for `c` in a slug.
pub open spec fn slug_char(c: char) -> char {
    if is_ascii_alnum(c) {
        ascii_lower(c)
    } else {
        '-'
    }
}

/// Whether `c` is a dash.
pub open spec fn is_dash(c: char) -> bool {
    c == '-'
}

/// `text` with ASCII letters and digits kept (lower-cased), every other char
/// turned into a dash, and dashes trimmed from both ends; `default` when
/// nothing is left.
pub open spec fn slugify(text: Seq<char>, default: Seq<char>) -> Seq<char> {
    let trimmed = trim_both(text.map_values(|c: char| slug_char(c)), |c: char| is_dash(c));
    if trimmed.len() == 0 {
        default
    } else {
        trimmed
    }
}

pub fn slug_char_exec(c: char) -> (r: char)
    ensures
        r == slug_char(c),
{
    if 'A' <= c && c <= 'Z' {
        let code = c as u8;
        assert(code as int == c as int);
        ((code + 32) as char)
    } else if ('a' <= c && c <= 'z') || ('0' <= c && c <= '9') {
        c
    } else {
        '-'
    }
}

/// The slug of `text`, or `default` when nothing is left of it.
pub fn slugify_exec(text: &str, default: &str) -> (r: String)
    ensures
        r@ == slugify(text@, default@),
{
    let chars = chars_of(text);
    let mut mapped: Vec<char> = Vec::new();
    let mut i: usize = 0;
    let ghost target = text@.map_values(|c: char| slug_char(c));
    while i < chars.len()
        invariant
            i <= chars@.len(),
            chars@ == text@,
            target == text@.map_values(|c: char| slug_char(c)),
            mapped@ == target.take(i as int),
        decreases chars@.len() - i,
    {
        mapped.push(slug_char_exec(chars[i]));
        i = i + 1;
        assert(mapped@ =~= target.take(i as int));
    }
    assert(target.take(i as int) == target);
    let n = mapped.len();
    let mut start: usize = 0;
    while start < n && mapped[start] == '-'
        invariant
            start <= n == mapped@.len(),
            forall|j: int| 0 <= j < start ==> mapped@[j] == '-',
        decreases n - start,
    {
        start = start + 1;
    }
    proof {
        lemma_trim_leading(mapped@, |c: char| is_dash(c), start as int);
    }
    let ghost lead = mapped@.skip(start as int);
    let mut end: usize = n;
    while end > start && mapped[end - 1] == '-'
        invariant
            start <= end <= n == mapped@.len(),
            forall|j: int| end <= j < n ==> mapped@[j] == '-',
        decreases end,
    {
        end = end - 1;
    }
    proof {
        assert forall|j: int| end - start <= j < lead.len() implies lead[j] == '-' by {
            assert(lead[j] == mapped@[j + start]);
        }
        if end > start {
            assert(lead[end - start - 1] == mapped@[end - 1]);
        }
        lemma_trim_trailing(lead, |c: char| is_dash(c), end - start);
        assert(lead.take(end - start) == mapped@.subrange(start as int, end as int));
    }
    if end == start {
        return chars_to_owned(default);
    }
    let slice = crate::path::name_slice(&mapped, start, end);
    string_from_chars(slice.as_slice())
}

fn chars_to_owned(s: &str) -> (r: String)
    ensures
        r@ == s@,
{
    s.to_owned()
}

/// The decimal digit for `d < 10`.
pub open spec fn digit(d: nat) -> char {
    seq!['0', '1', '2', '3', '4', '5', '6', '7', '8', '9'][d as int]
}

/// The decimal numeral of `n`, without leading zeros.
pub open spec fn decimal(n: nat) -> Seq<char>
    decreases n,
{
    if n < 10 {
        seq![digit(n)]
    } else {
        decimal(n / 10).push(digit(n % 10))
    }
}

proof fn lemma_decimal_len(n: nat)
    ensures
        decimal(n).len() >= 1,
        n >= 10 ==> decimal(n).len() >= 2,
    decreases n,
{
    if n >= 10 {
        lemma_decimal_len(n / 10);
    }
}

proof fn lemma_digit_injective(a: nat, b: nat)
    requires
        a < 10,
        b < 10,
        digit(a) == digit(b),
    ensures
        a == b,
{
}

/// Different numbers have different numerals.
pub proof fn lemma_decimal_injective(a: nat, b: nat)
    requires
        decimal(a) == decimal(b),
    ensures
        a == b,
    decreases a,
{
    lemma_decimal_len(a);
    lemma_decimal_len(b);
    if a < 10 && b < 10 {
        assert(decimal(a)[0] == digit(a));
        assert(decimal(b)[0] == digit(b));
        lemma_digit_injective(a, b);
    } else if a >= 10 && b >= 10 {
        assert(decimal(a).last() == digit(a % 10));
        assert(decimal(b).last() == digit(b % 10));
        lemma_digit_injective(a % 10, b % 10);
        assert(decimal(a / 10) == decimal(a).drop_last());
        assert(decimal(b / 10) == decimal(b).drop_last());
        lemma_decimal_injective(a / 10, b / 10);
    } else {
        assert(decimal(a).len() != decimal(b).len());
    }
}

fn digit_exec(d: u128) -> (r: char)
    requires
        d < 10,
    ensures
        r == digit(d as nat),
{
    match d {
        0 => '0',
        1 => '1',
        2 => '2',
        3 => '3',
        4 => '4',
        5 => '5',
        6 => '6',
        7 => '7',
        8 => '8',
        _ => '9',
    }
}

/// The decimal numeral of `n`.
pub fn decimal_exec(n: u128) -> (r: Vec<char>)
    ensures
        r@ == decimal(n as nat),
    decreases n,
{
    if n < 10 {
        vec![digit_exec(n)]
    } else {
        let mut r = decimal_exec(n / 10);
        r.push(digit_exec(n % 10));
        r
    }
}

/// `base` with the numeric suffix `k`: `base-k`.
pub open spec fn suffixed_id(base: Seq<char>, k: nat) -> Seq<char> {
    base + seq!['-'] + decimal(k)
}

proof fn lemma_suffixed_injective(base: Seq<char>, a: nat, b: nat)
    requires
        suffixed_id(base, a) == suffixed_id(base, b),
    ensures
        a == b,
{
    let n = base.len() + 1int;
    assert(suffixed_id(base, a).skip(n) == decimal(a));
    assert(suffixed_id(base, b).skip(n) == decimal(b));
    lemma_decimal_injective(a, b);
}

/// The first suffix from `k` on whose suffixed id is not in `existing`
/// (the search stops at `existing.len() + 2`, beyond which there is always
/// a free one).
pub open spec fn first_free_suffix(base: Seq<char>, existing: Seq<Seq<char>>, k: nat) -> nat
    decreases existing.len() + 2 - k,
{
    if k >= existing.len() + 2 || !existing.contains(suffixed_id(base, k)) {
        k
    } else {
        first_free_suffix(base, existing, k + 1)
    }
}

/// `base` if it is not among `existing`, else `base-k` for the least
/// `k >= 2` that is not.
pub open spec fn unique_id(base: Seq<char>, existing: Seq<Seq<char>>) -> Seq<char> {
    if !existing.contains(base) {
        base
    } else {
        suffixed_id(base, first_free_suffix(base, existing, 2))
    }
}

/// If the suffixed ids for `2..=k` are all in `existing`, there are at most
/// `existing.len()` of them.
proof fn lemma_suffix_pigeonhole(base: Seq<char>, existing: Seq<Seq<char>>, k: nat)
    requires
        k >= 2,
        forall|j: nat| 2 <= j <= k ==> existing.contains(#[trigger] suffixed_id(base, j)),
    ensures
        k - 1 <= existing.len(),
{
    let cands = Seq::new((k - 1) as nat, |i: int| suffixed_id(base, (i + 2) as nat));
    assert(cands.no_duplicates()) by {
        assert forall|i: int, j: int| 0 <= i < cands.len() && 0 <= j < cands.len() && i != j implies cands[i]
            != cands[j] by {
            if cands[i] == cands[j] {
                lemma_suffixed_injective(base, (i + 2) as nat, (j + 2) as nat);
            }
        }
    }
    cands.unique_seq_to_set();
    existing.lemma_cardinality_of_set();
    assert forall|x: Seq<char>| cands.to_set().contains(x) implies existing.to_set().contains(x) by {
        let i = choose|i: int| 0 <= i < cands.len() && cands[i] == x;
        assert(existing.contains(suffixed_id(base, (i + 2) as nat)));
    }
    vstd::set_lib::lemma_len_subset(cands.to_set(), existing.to_set());
}

/// The suffix search ends on a free suffix, and every suffix it passed over
/// is taken.
pub proof fn lemma_first_free_suffix(base: Seq<char>, existing: Seq<Seq<char>>, k: nat)
    requires
        2 <= k,
        forall|j: nat| 2 <= j < k ==> existing.contains(#[trigger] suffixed_id(base, j)),
    ensures
        k <= first_free_suffix(base, existing, k),
        !existing.contains(suffixed_id(base, first_free_suffix(base, existing, k))),
        forall|j: nat|
            2 <= j < first_free_suffix(base, existing, k) ==> existing.contains(
                #[trigger] suffixed_id(base, j),
            ),
    decreases existing.len() + 2 - k,
{
    if k >= existing.len() + 2 {
        if existing.contains(suffixed_id(base, k)) {
            lemma_suffix_pigeonhole(base, existing, k);
        }
    } else if existing.contains(suffixed_id(base, k)) {
        lemma_first_free_suffix(base, existing, k + 1);
    }
}

/// `base` if it is not among `existing`, else `base-k` for the least
/// `k >= 2` that is not.
pub fn unique_topic_id(base_id: &str, existing_ids: &Vec<String>) -> (r: String)
    ensures
        r@ == unique_id(base_id@, crate::text::strings_view(existing_ids@)),
{
    let ghost ex = crate::text::strings_view(existing_ids@);
    if !contains_id(existing_ids, base_id) {
        return chars_to_owned(base_id);
    }
    let base = chars_of(base_id);
    let count = existing_ids.len();
    let mut k: u128 = 2;
    loop
        invariant
            2 <= k <= ex.len() + 2,
            count == ex.len(),
            ex.contains(base_id@),
            ex == crate::text::strings_view(existing_ids@),
            base@ == base_id@,
            forall|j: nat| 2 <= j < k ==> ex.contains(#[trigger] suffixed_id(base_id@, j)),
            first_free_suffix(base_id@, ex, 2) == first_free_suffix(base_id@, ex, k as nat),
        decreases ex.len() + 2 - k,
    {
        let mut candidate = string_from_chars(base.as_slice());
        push_char(&mut candidate, '-');
        let digits = decimal_exec(k);
        crate::text::append_chars(&mut candidate, digits.as_slice());
        assert(candidate@ == suffixed_id(base_id@, k as nat));
        if !contains_id(existing_ids, candidate.as_str()) {
            assert(first_free_suffix(base_id@, ex, k as nat) == k);
            return candidate;
        }
        proof {
            if k >= ex.len() + 2 {
                lemma_suffix_pigeonhole(base_id@, ex, k as nat);
            }
        }
        k = k + 1;
    }
}

/// Whether `id` is among `ids`.
pub fn contains_id(ids: &Vec<String>, id: &str) -> (r: bool)
    ensures
        r == crate::text::strings_view(ids@).contains(id@),
{
    let mut i: usize = 0;
    while i < ids.len()
        invariant
            i <= ids@.len(),
            forall|j: int| 0 <= j < i ==> ids@[j]@ != id@,
        decreases ids@.len() - i,
    {
        if crate::text::str_eq(ids[i].as_str(), id) {
            assert(crate::text::strings_view(ids@)[i as int] == id@);
            return true;
        }
        i = i + 1;
    }
    assert(!crate::text::strings_view(ids@).contains(id@)) by {
        if crate::text::strings_view(ids@).contains(id@) {
            let k = choose|k: int| 0 <= k < ids@.len() && crate::text::strings_view(ids@)[k] == id@;
            assert(ids@[k]@ == id@);
        }
    }
    false
}

/// The topic registered for folder `path`: its display name is the folder's
/// name ("Imported Topic" when the path has none) and its id the slug of
/// that name ("topic" when the slug is empty).
pub open spec fn spec_new_topic(path: Seq<char>) -> TopicConfigView {
    let name = match spec_file_name(path) {
        Some(n) => n,
        None => "Imported Topic"@,
    };
    TopicConfigView { id: slugify(name, "topic"@), display_name: name, path }
}

/// The id derived from a topic's display name ("topic" when nothing is
/// left of it).
pub fn slugify_topic_id(display_name: &str) -> (r: String)
    ensures
        r@ == slugify(display_name@, "topic"@),
{
    slugify_exec(display_name, "topic")
}

impl TopicConfig {
    /// The topic for folder `path`, named after the folder.
    pub fn new(path: String) -> (r: Self)
        ensures
            r@ == spec_new_topic(path@),
    {
        let display_name = match file_name(path.as_str()) {
            Some(name) => string_from_chars(name.as_slice()),
            None => chars_to_owned("Imported Topic"),
        };
        let id = slugify_topic_id(display_name.as_str());
        TopicConfig { id, display_name, path }
    }
}

/// The configured topics, in order.
#[derive(Debug, Clone, PartialEq, Eq)]
pub struct AppConfig {
    pub topics: Vec<TopicConfig>,
}

pub open spec fn configs_view(v: Seq<TopicConfig>) -> Seq<TopicConfigView> {
    v.map_values(|t: TopicConfig| t@)
}

pub open spec fn topic_ids(ts: Seq<TopicConfigView>) -> Seq<Seq<char>> {
    ts.map_values(|t: TopicConfigView| t.id)
}

impl View for AppConfig {
    type V = Seq<TopicConfigView>;

    open spec fn view(&self) -> Seq<TopicConfigView> {
        configs_view(self.topics@)
    }
}

/// The position of the first topic, from `i` on, whose folder is `path`
/// (compared as paths).
pub open spec fn topic_with_path_from(ts: Seq<TopicConfigView>, path: Seq<char>, i: int) -> Option<
    int,
>
    decreases ts.len() - i,
{
    if i < 0 || i >= ts.len() {
        None
    } else if spec_path_eq(ts[i].path, path) {
        Some(i)
    } else {
        topic_with_path_from(ts, path, i + 1)
    }
}

/// The position of the first topic with id `id`, from `i` on.
pub open spec fn topic_with_id_from(ts: Seq<TopicConfigView>, id: Seq<char>, i: int) -> Option<int>
    decreases ts.len() - i,
{
    if i < 0 || i >= ts.len() {
        None
    } else if ts[i].id == id {
        Some(i)
    } else {
        topic_with_id_from(ts, id, i + 1)
    }
}

/// The topic added for folder `path` to topics `ts`: its id is made unique
/// among the ids of `ts`.
pub open spec fn spec_added_topic(ts: Seq<TopicConfigView>, path: Seq<char>) -> TopicConfigView {
    let t = spec_new_topic(path);
    TopicConfigView { id: unique_id(t.id, topic_ids(ts)), ..t }
}

/// Adding folder `path`: the topics afterwards and the topic returned. A
/// folder already configured is returned as it is.
pub open spec fn spec_add_topic_folder(ts: Seq<TopicConfigView>, path: Seq<char>) -> (
    Seq<TopicConfigView>,
    TopicConfigView,
) {
    match topic_with_path_from(ts, path, 0) {
        Some(i) => (ts, ts[i]),
        None => (ts.push(spec_added_topic(ts, path)), spec_added_topic(ts, path)),
    }
}

/// Pointing topic `id` at folder `path`: its display name follows the new
/// folder, its id stays; `None` when no topic has that id.
pub open spec fn spec_replace_topic_path(ts: Seq<TopicConfigView>, id: Seq<char>, path: Seq<char>) -> Option<
    Seq<TopicConfigView>,
> {
    match topic_with_id_from(ts, id, 0) {
        None => None,
        Some(i) => Some(
            ts.update(
                i,
                TopicConfigView { display_name: spec_new_topic(path).display_name, path, ..ts[i] },
            ),
        ),
    }
}

/// An error from the topic registry.
#[derive(Debug, Clone, PartialEq, Eq)]
pub enum ConfigError {
    TopicNotFound(String),
}

impl ConfigError {
    /// A message for the user.
    pub fn message(&self) -> (r: String)
        ensures
            match self {
                ConfigError::TopicNotFound(id) => r@ == "topic "@ + id@ + " was not found"@,
            },
    {
        match self {
            ConfigError::TopicNotFound(id) => {
                let mut r = chars_to_owned("topic ");
                crate::text::append_str(&mut r, id.as_str());
                crate::text::append_str(&mut r, " was not found");
                r
            },
        }
    }
}

impl AppConfig {
    /// A config with no topics.
    pub fn empty() -> (r: Self)
        ensures
            r@ == Seq::<TopicConfigView>::empty(),
    {
        let r = AppConfig { topics: Vec::new() };
        assert(r@ =~= Seq::<TopicConfigView>::empty());
        r
    }

    fn ids(&self) -> (r: Vec<String>)
        ensures
            strings_view(r@) == topic_ids(self@),
    {
        let mut r: Vec<String> = Vec::new();
        let mut i: usize = 0;
        while i < self.topics.len()
            invariant
                i <= self.topics@.len(),
                strings_view(r@) == topic_ids(self@).take(i as int),
            decreases self.topics@.len() - i,
        {
            let ghost prev = r@;
            r.push(self.topics[i].id.clone());
            assert(strings_view(r@) == strings_view(prev).push(self.topics@[i as int].id@));
            i = i + 1;
            assert(topic_ids(self@).take(i as int) == topic_ids(self@).take(i - 1).push(
                topic_ids(self@)[i - 1],
            ));
        }
        assert(topic_ids(self@).take(i as int) == topic_ids(self@));
        r
    }

    /// Adds the folder `path` as a topic with a unique id, unless a topic
    /// already has that folder; returns the topic of that folder.
    pub fn add_topic_folder(&mut self, path: String) -> (r: TopicConfig)
        ensures
            (final(self)@, r@) == spec_add_topic_folder(old(self)@, path@),
    {
        let ghost ts = self@;
        let mut i: usize = 0;
        while i < self.topics.len()
            invariant
                i <= self.topics@.len(),
                ts == self@,
                topic_with_path_from(ts, path@, 0) == topic_with_path_from(ts, path@, i as int),
            decreases self.topics@.len() - i,
        {
            if path_eq(self.topics[i].path.as_str(), path.as_str()) {
                return self.topics[i].duplicate();
            }
            i = i + 1;
        }
        let ids = self.ids();
        let mut topic = TopicConfig::new(path);
        topic.id = unique_topic_id(topic.id.as_str(), &ids);
        let ghost before = self.topics@;
        self.topics.push(topic.duplicate());
        assert(configs_view(self.topics@) == configs_view(before).push(topic@));
        topic
    }

    /// Points topic `topic_id` at folder `path`, keeping its id.
    pub fn replace_topic_path(&mut self, topic_id: &str, path: String) -> (r: Result<(), ConfigError>)
        ensures
            match spec_replace_topic_path(old(self)@, topic_id@, path@) {
                Some(ts) => r is Ok && final(self)@ == ts,
                None => final(self)@ == old(self)@ && match r {
                    Err(ConfigError::TopicNotFound(id)) => id@ == topic_id@,
                    Ok(_) => false,
                },
            },
    {
        let ghost ts = self@;
        let mut i: usize = 0;
        while i < self.topics.len()
            invariant
                i <= self.topics@.len(),
                ts == self@,
                ts == old(self)@,
                topic_with_id_from(ts, topic_id@, 0) == topic_with_id_from(ts, topic_id@, i as int),
            decreases self.topics@.len() - i,
        {
            if crate::text::str_eq(self.topics[i].id.as_str(), topic_id) {
                let replacement = TopicConfig::new(path);
                let ghost before = self.topics@;
                let mut updated = self.topics[i].duplicate();
                updated.display_name = replacement.display_name;
                updated.path = replacement.path;
                let ghost new_view = updated@;
                assert(new_view == TopicConfigView {
                    display_name: spec_new_topic(path@).display_name,
                    path: path@,
                    ..ts[i as int]
                });
                assert(topic_with_id_from(ts, topic_id@, i as int) == Some(i as int));
                self.topics.set(i, updated);
                assert(configs_view(self.topics@) =~= ts.update(i as int, new_view));
                return Ok(());
            }
            i = i + 1;
        }
        Err(ConfigError::TopicNotFound(chars_to_owned(topic_id)))
    }
}

/// Starting up: a loaded config with topics is used as it is; otherwise the
/// folder picked (if any) is added to the loaded config (or to an empty
/// one). The flag says whether the result must be saved.
pub open spec fn spec_load_or_create(
    loaded: Option<Seq<TopicConfigView>>,
    picked: Option<Seq<char>>,
) -> (Seq<TopicConfigView>, bool) {
    if loaded is Some && loaded->Some_0.len() > 0 {
        (loaded->Some_0, false)
    } else {
        let base = match loaded {
            Some(c) => c,
            None => Seq::empty(),
        };
        match picked {
            None => (base, false),
            Some(p) => (spec_add_topic_folder(base, p).0, true),
        }
    }
}

/// The choice made for one missing topic folder: a replacement folder, or
/// none when the user canceled.
#[derive(Debug, Clone, PartialEq, Eq)]
pub struct MissingTopicChoice {
    pub topic_id: String,
    pub replacement: Option<String>,
}

/// What applying the choices for missing topics did.
#[derive(Debug, Clone, PartialEq, Eq)]
pub struct RecoveryOutcome {
    /// Whether some topic got a new folder (and the config must be saved).
    pub changed: bool,
    /// The topics whose replacement was canceled, in order.
    pub canceled_topic_ids: Vec<String>,
}

/// Applying the choices in order: the topics afterwards, and either
/// (changed, canceled ids) or the id of a topic that was not found (the
/// choices before it stay applied).
pub open spec fn spec_apply_choices(ts: Seq<TopicConfigView>, choices: Seq<MissingTopicChoice>) -> (
    Seq<TopicConfigView>,
    Result<(bool, Seq<Seq<char>>), Seq<char>>,
)
    decreases choices.len(),
{
    if choices.len() == 0 {
        (ts, Ok((false, Seq::empty())))
    } else {
        let (t1, r1) = spec_apply_choices(ts, choices.drop_last());
        let c = choices.last();
        match r1 {
            Err(e) => (t1, Err(e)),
            Ok((changed, canceled)) => match c.replacement {
                Some(p) => match spec_replace_topic_path(t1, c.topic_id@, p@) {
                    None => (t1, Err(c.topic_id@)),
                    Some(t2) => (t2, Ok((true, canceled))),
                },
                None => (t1, Ok((changed, canceled.push(c.topic_id@)))),
            },
        }
    }
}

/// Once applying the choices has failed, later choices change nothing.
pub proof fn lemma_choices_error_sticks(
    ts: Seq<TopicConfigView>,
    choices: Seq<MissingTopicChoice>,
    k: int,
)
    requires
        0 <= k <= choices.len(),
        spec_apply_choices(ts, choices.take(k)).1 is Err,
    ensures
        spec_apply_choices(ts, choices) == spec_apply_choices(ts, choices.take(k)),
    decreases choices.len(),
{
    if k == choices.len() {
        assert(choices.take(k) == choices);
    } else {
        assert(choices.drop_last().take(k) == choices.take(k));
        lemma_choices_error_sticks(ts, choices.drop_last(), k);
    }
}

impl AppConfig {
    /// Whether the folder picker is to be shown at start-up: there is no
    /// config yet, or it has no topics.
    pub fn needs_initial_topic(loaded: &Option<AppConfig>) -> (r: bool)
        ensures
            r == (match loaded {
                Some(c) => c@.len() == 0,
                None => true,
            }),
    {
        match loaded {
            Some(c) => c.topics.len() == 0,
            None => true,
        }
    }

    /// The config to start with, from the config loaded from disk (if the
    /// file exists) and the folder picked by the user (asked only when
    /// `needs_initial_topic` says so; ignored otherwise); and whether it
    /// must be saved.
    pub fn load_or_create(loaded: Option<AppConfig>, picked: Option<String>) -> (r: (AppConfig, bool))
        ensures
            (r.0@, r.1) == spec_load_or_create(
                match loaded {
                    Some(c) => Some(c@),
                    None => None,
                },
                crate::text::opt_view(picked),
            ),
    {
        let mut config = match loaded {
            Some(c) => {
                if c.topics.len() > 0 {
                    return (c, false);
                }
                c
            },
            None => AppConfig::empty(),
        };
        match picked {
            None => (config, false),
            Some(folder) => {
                config.add_topic_folder(folder);
                (config, true)
            },
        }
    }

    /// Applies the choices made for missing topic folders, in order: a
    /// replacement folder re-points the topic (keeping its id); a cancel is
    /// recorded. Stops at the first topic id that is not configured.
    pub fn apply_missing_topic_choices(&mut self, choices: &Vec<MissingTopicChoice>) -> (r: Result<
        RecoveryOutcome,
        ConfigError,
    >)
        ensures
            final(self)@ == spec_apply_choices(old(self)@, choices@).0,
            match spec_apply_choices(old(self)@, choices@).1 {
                Ok((changed, canceled)) => r is Ok && r->Ok_0.changed == changed && strings_view(
                    r->Ok_0.canceled_topic_ids@,
                ) == canceled,
                Err(id) => match r {
                    Err(ConfigError::TopicNotFound(e)) => e@ == id,
                    Ok(_) => false,
                },
            },
    {
        let mut changed = false;
        let mut canceled: Vec<String> = Vec::new();
        let mut i: usize = 0;
        assert(choices@.take(0) =~= Seq::<MissingTopicChoice>::empty());
        assert(strings_view(canceled@) =~= Seq::<Seq<char>>::empty());
        while i < choices.len()
            invariant
                i <= choices@.len(),
                spec_apply_choices(old(self)@, choices@.take(i as int)) == (
                    self@,
                    Ok::<(bool, Seq<Seq<char>>), Seq<char>>((changed, strings_view(canceled@))),
                ),
            decreases choices@.len() - i,
        {
            let choice = &choices[i];
            assert(choices@.take(i + 1).drop_last() == choices@.take(i as int));
            assert(choices@.take(i + 1).last() == choices@[i as int]);
            match &choice.replacement {
                Some(folder) => {
                    match self.replace_topic_path(choice.topic_id.as_str(), folder.clone()) {
                        Ok(()) => {
                            changed = true;
                        },
                        Err(e) => {
                            proof {
                                lemma_choices_error_sticks(old(self)@, choices@, i + 1);
                            }
                            return Err(e);
                        },
                    }
                },
                None => {
                    let ghost prev = canceled@;
                    canceled.push(choice.topic_id.clone());
                    assert(strings_view(canceled@) == strings_view(prev).push(choice.topic_id@));
                },
            }
            i = i + 1;
        }
        assert(choices@.take(i as int) == choices@);
        Ok(RecoveryOutcome { changed, canceled_topic_ids: canceled })
    }
}

} // verus!
