use vstd::prelude::*;

verus! {

/// `lt` is a strict total order: irreflexive, transitive, and any two
/// distinct values are comparable.
pub open spec fn strict_total_order<T>(lt: spec_fn(T, T) -> bool) -> bool {
    &&& forall|a: T| !#[trigger] lt(a, a)
    &&& forall|a: T, b: T, c: T| #[trigger] lt(a, b) && #[trigger] lt(b, c) ==> lt(a, c)
    &&& forall|a: T, b: T| a != b ==> #[trigger] lt(a, b) || #[trigger] lt(b, a)
}

/// Lexicographic order of two sequences, element order `lt`; a proper
/// prefix comes first.
pub open spec fn lex_lt<T>(a: Seq<T>, b: Seq<T>, lt: spec_fn(T, T) -> bool) -> bool
    decreases a.len(),
{
    if a.len() == 0 {
        b.len() > 0
    } else if b.len() == 0 {
        false
    } else if lt(a[0], b[0]) {
        true
    } else if a[0] == b[0] {
        lex_lt(a.drop_first(), b.drop_first(), lt)
    } else {
        false
    }
}

/// Order of characters by code point (for UTF-8 text this is also the
/// order of their byte encodings).
pub open spec fn char_lt(a: char, b: char) -> bool {
    (a as int) < (b as int)
}

/// Lexicographic order of character sequences, as `Ord` orders `str`.
pub open spec fn text_lt(a: Seq<char>, b: Seq<char>) -> bool {
    lex_lt(a, b, |x: char, y: char| char_lt(x, y))
}

proof fn lemma_lex_irreflexive<T>(a: Seq<T>, lt: spec_fn(T, T) -> bool)
    requires
        strict_total_order(lt),
    ensures
        !lex_lt(a, a, lt),
    decreases a.len(),
{
    if a.len() > 0 {
        assert(!lt(a[0], a[0]));
        lemma_lex_irreflexive(a.drop_first(), lt);
    }
}

proof fn lemma_lex_transitive<T>(a: Seq<T>, b: Seq<T>, c: Seq<T>, lt: spec_fn(T, T) -> bool)
    requires
        strict_total_order(lt),
        lex_lt(a, b, lt),
        lex_lt(b, c, lt),
    ensures
        lex_lt(a, c, lt),
    decreases a.len(),
{
    if a.len() > 0 && b.len() > 0 && c.len() > 0 {
        if lt(a[0], b[0]) {
            if lt(b[0], c[0]) {
                assert(lt(a[0], c[0]));
            } else {
                assert(b[0] == c[0]);
            }
        } else {
            assert(a[0] == b[0]);
            if !lt(b[0], c[0]) {
                assert(b[0] == c[0]);
                lemma_lex_transitive(a.drop_first(), b.drop_first(), c.drop_first(), lt);
            }
        }
    }
}

proof fn lemma_lex_total<T>(a: Seq<T>, b: Seq<T>, lt: spec_fn(T, T) -> bool)
    requires
        strict_total_order(lt),
        a != b,
    ensures
        lex_lt(a, b, lt) || lex_lt(b, a, lt),
    decreases a.len(),
{
    if a.len() > 0 && b.len() > 0 {
        if a[0] == b[0] {
            if a.drop_first() == b.drop_first() {
                assert(a == seq![a[0]] + a.drop_first());
                assert(b == seq![b[0]] + b.drop_first());
            }
            lemma_lex_total(a.drop_first(), b.drop_first(), lt);
        } else {
            assert(lt(a[0], b[0]) || lt(b[0], a[0]));
        }
    } else if a.len() == 0 && b.len() == 0 {
        assert(a == b);
    }
}

/// Lexicographic order over a strict total order is itself a strict total order.
pub proof fn lemma_lex_strict_total<T>(lt: spec_fn(T, T) -> bool)
    requires
        strict_total_order(lt),
    ensures
        strict_total_order(|x: Seq<T>, y: Seq<T>| lex_lt(x, y, lt)),
{
    let l = |x: Seq<T>, y: Seq<T>| lex_lt(x, y, lt);
    assert forall|a: Seq<T>| !#[trigger] l(a, a) by {
        lemma_lex_irreflexive(a, lt);
    }
    assert forall|a: Seq<T>, b: Seq<T>, c: Seq<T>| #[trigger] l(a, b) && #[trigger] l(b, c) implies l(
        a,
        c,
    ) by {
        lemma_lex_transitive(a, b, c, lt);
    }
    assert forall|a: Seq<T>, b: Seq<T>| a != b implies #[trigger] l(a, b) || #[trigger] l(b, a) by {
        lemma_lex_total(a, b, lt);
    }
}

/// Code-point order of characters is a strict total order.
pub proof fn lemma_char_order()
    ensures
        strict_total_order(|x: char, y: char| char_lt(x, y)),
{
    let l = |x: char, y: char| char_lt(x, y);
    assert forall|a: char, b: char| a != b implies #[trigger] l(a, b) || #[trigger] l(b, a) by {
        assert((a as int) != (b as int));
    }
}

/// Text order is a strict total order.
pub proof fn lemma_text_order()
    ensures
        strict_total_order(|x: Seq<char>, y: Seq<char>| text_lt(x, y)),
{
    lemma_char_order();
    lemma_lex_strict_total(|x: char, y: char| char_lt(x, y));
    let l1 = |x: Seq<char>, y: Seq<char>| lex_lt(x, y, |p: char, q: char| char_lt(p, q));
    let l2 = |x: Seq<char>, y: Seq<char>| text_lt(x, y);
    assert(l1 == l2);
}

/// Exec: whether `a` comes strictly before `b` in text order.
pub fn text_less(a: &[char], b: &[char]) -> (r: bool)
    ensures
        r == text_lt(a@, b@),
{
    let mut i: usize = 0;
    assert(a@.skip(0) == a@);
    assert(b@.skip(0) == b@);
    while i < a.len() && i < b.len()
        invariant
            i <= a@.len(),
            i <= b@.len(),
            forall|j: int| 0 <= j < i ==> a@[j] == b@[j],
            text_lt(a@, b@) == text_lt(a@.skip(i as int), b@.skip(i as int)),
        decreases a@.len() - i,
    {
        if a[i] != b[i] {
            return a[i] < b[i];
        }
        assert(a@.skip(i as int).drop_first() == a@.skip(i + 1));
        assert(b@.skip(i as int).drop_first() == b@.skip(i + 1));
        i = i + 1;
    }
    i == a.len() && i < b.len()
}

} // verus!
