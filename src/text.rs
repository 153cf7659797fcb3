//! Text primitives on which answers are built: the lexicographic order of
//! strings, whitespace trimming, splitting on commas and sorting.
use vstd::prelude::*;
use vstd::relations::{sorted_by, total_ordering};
use vstd::seq_lib::lemma_sorted_unique;

verus! {

broadcast use vstd::seq_lib::group_to_multiset_ensures;

/// Lexicographic order on strings by Unicode scalar value (the order of `str`).
pub open spec fn text_le(a: Seq<char>, b: Seq<char>) -> bool
    decreases a.len(),
{
    if a.len() == 0 {
        true
    } else if b.len() == 0 {
        false
    } else if a[0] != b[0] {
        a[0] < b[0]
    } else {
        text_le(a.drop_first(), b.drop_first())
    }
}

/// The order `text_le` as a relation, as the sorting lemmas of vstd take it.
pub open spec fn text_order() -> spec_fn(Seq<char>, Seq<char>) -> bool {
    |a: Seq<char>, b: Seq<char>| text_le(a, b)
}

/// The values of `s` in ascending `text_le` order.
pub open spec fn sorted_texts(s: Seq<Seq<char>>) -> Seq<Seq<char>> {
    s.sort_by(text_order())
}

/// The views of a vector of strings.
pub open spec fn texts(v: Seq<String>) -> Seq<Seq<char>> {
    v.map_values(|s: String| s@)
}

proof fn lemma_text_le_reflexive(a: Seq<char>)
    ensures
        text_le(a, a),
    decreases a.len(),
{
    if a.len() > 0 {
        lemma_text_le_reflexive(a.drop_first());
    }
}

proof fn lemma_text_le_antisymmetric(a: Seq<char>, b: Seq<char>)
    requires
        text_le(a, b),
        text_le(b, a),
    ensures
        a == b,
    decreases a.len(),
{
    if a.len() > 0 && b.len() > 0 {
        if a[0] == b[0] {
            lemma_text_le_antisymmetric(a.drop_first(), b.drop_first());
            assert(a =~= seq![a[0]] + a.drop_first());
            assert(b =~= seq![b[0]] + b.drop_first());
        }
    } else {
        assert(a =~= b);
    }
}

proof fn lemma_text_le_transitive(a: Seq<char>, b: Seq<char>, c: Seq<char>)
    requires
        text_le(a, b),
        text_le(b, c),
    ensures
        text_le(a, c),
    decreases a.len(),
{
    if a.len() > 0 && b.len() > 0 && c.len() > 0 {
        if a[0] == b[0] && b[0] == c[0] {
            lemma_text_le_transitive(a.drop_first(), b.drop_first(), c.drop_first());
        }
    }
}

proof fn lemma_text_le_connected(a: Seq<char>, b: Seq<char>)
    ensures
        text_le(a, b) || text_le(b, a),
    decreases a.len(),
{
    if a.len() > 0 && b.len() > 0 && a[0] == b[0] {
        lemma_text_le_connected(a.drop_first(), b.drop_first());
    }
}

/// `text_le` is a total order.
pub proof fn lemma_text_order_total()
    ensures
        total_ordering(text_order()),
{
    assert forall|a: Seq<char>| #[trigger] text_order()(a, a) by {
        lemma_text_le_reflexive(a);
    }
    assert forall|a: Seq<char>, b: Seq<char>|
        #[trigger] text_order()(a, b) && #[trigger] text_order()(b, a) implies a == b by {
        lemma_text_le_antisymmetric(a, b);
    }
    assert forall|a: Seq<char>, b: Seq<char>, c: Seq<char>|
        #[trigger] text_order()(a, b) && #[trigger] text_order()(b, c) implies text_order()(
        a,
        c,
    ) by {
        lemma_text_le_transitive(a, b, c);
    }
    assert forall|a: Seq<char>, b: Seq<char>|
        #[trigger] text_order()(a, b) || #[trigger] text_order()(b, a) by {
        lemma_text_le_connected(a, b);
    }
}

/// A sorted arrangement of `s` is `sorted_texts(s)`, and two sequences have the
/// same sorted arrangement exactly when they hold the same values.
pub proof fn lemma_sorted_texts(s: Seq<Seq<char>>)
    ensures
        sorted_texts(s).to_multiset() == s.to_multiset(),
        sorted_by(sorted_texts(s), text_order()),
        sorted_texts(s).len() == s.len(),
{
    lemma_text_order_total();
    s.lemma_sort_by_ensures(text_order());
    vstd::seq_lib::to_multiset_len(s);
    vstd::seq_lib::to_multiset_len(sorted_texts(s));
}

/// Sorting is determined by the values alone.
pub proof fn lemma_sorted_texts_unique(s: Seq<Seq<char>>, t: Seq<Seq<char>>)
    requires
        sorted_by(t, text_order()),
        t.to_multiset() == s.to_multiset(),
    ensures
        t == sorted_texts(s),
{
    lemma_sorted_texts(s);
    lemma_text_order_total();
    lemma_sorted_unique(t, sorted_texts(s), text_order());
}

/// Two sequences sort to the same result exactly when they hold the same values.
pub proof fn lemma_sorted_texts_eq(s: Seq<Seq<char>>, t: Seq<Seq<char>>)
    ensures
        (sorted_texts(s) == sorted_texts(t)) == (s.to_multiset() == t.to_multiset()),
{
    lemma_sorted_texts(s);
    lemma_sorted_texts(t);
    if s.to_multiset() == t.to_multiset() {
        lemma_sorted_texts_unique(s, sorted_texts(t));
    }
}

/// Compares two strings in `text_le` order.
pub fn text_le_exec(a: &str, b: &str) -> (r: bool)
    ensures
        r == text_le(a@, b@),
{
    let la = a.unicode_len();
    let lb = b.unicode_len();
    let mut i: usize = 0;
    assert(a@.subrange(0, la as int) =~= a@);
    assert(b@.subrange(0, lb as int) =~= b@);
    while i < la && i < lb
        invariant
            la == a@.len(),
            lb == b@.len(),
            i <= la,
            i <= lb,
            text_le(a@, b@) == text_le(a@.subrange(i as int, la as int), b@.subrange(i as int, lb as int)),
        decreases la - i,
    {
        let ca = a.get_char(i);
        let cb = b.get_char(i);
        if ca != cb {
            return ca < cb;
        }
        assert(a@.subrange(i as int, la as int).drop_first() =~= a@.subrange(i + 1, la as int));
        assert(b@.subrange(i as int, lb as int).drop_first() =~= b@.subrange(i + 1, lb as int));
        i = i + 1;
    }
    la <= lb
}

/// The characters that Unicode marks `White_Space` (those of `char::is_whitespace`).
pub open spec fn is_space(c: char) -> bool {
    ('\u{9}' <= c && c <= '\u{D}') || c == ' ' || c == '\u{85}' || c == '\u{A0}' || c == '\u{1680}'
        || ('\u{2000}' <= c && c <= '\u{200A}') || c == '\u{2028}' || c == '\u{2029}' || c
        == '\u{202F}' || c == '\u{205F}' || c == '\u{3000}'
}

/// `s` without its leading whitespace.
pub open spec fn trim_start(s: Seq<char>) -> Seq<char>
    decreases s.len(),
{
    if s.len() > 0 && is_space(s[0]) {
        trim_start(s.drop_first())
    } else {
        s
    }
}

/// `s` without its trailing whitespace.
pub open spec fn trim_end(s: Seq<char>) -> Seq<char>
    decreases s.len(),
{
    if s.len() > 0 && is_space(s.last()) {
        trim_end(s.drop_last())
    } else {
        s
    }
}

/// `s` without leading and trailing whitespace.
pub open spec fn trim(s: Seq<char>) -> Seq<char> {
    trim_end(trim_start(s))
}

/// The pieces of `s` between commas, in order; a string without a comma is one piece.
pub open spec fn comma_split(s: Seq<char>) -> Seq<Seq<char>>
    decreases s.len(),
{
    if s.len() == 0 {
        seq![Seq::empty()]
    } else {
        let rest = comma_split(s.drop_last());
        if s.last() == ',' {
            rest.push(Seq::empty())
        } else {
            rest.update(rest.len() - 1, rest.last().push(s.last()))
        }
    }
}

/// Splitting yields at least one piece.
pub proof fn lemma_comma_split_nonempty(s: Seq<char>)
    ensures
        comma_split(s).len() >= 1,
    decreases s.len(),
{
    if s.len() > 0 {
        lemma_comma_split_nonempty(s.drop_last());
    }
}

/// Appending text without a comma extends the last piece.
pub proof fn lemma_comma_split_extend(p: Seq<char>, y: Seq<char>)
    requires
        !y.contains(','),
    ensures
        comma_split(p + y) == comma_split(p).update(
            comma_split(p).len() - 1,
            comma_split(p).last() + y,
        ),
    decreases y.len(),
{
    lemma_comma_split_nonempty(p);
    if y.len() == 0 {
        assert(p + y =~= p);
        assert(comma_split(p).last() + y =~= comma_split(p).last());
        assert(comma_split(p).update(comma_split(p).len() - 1, comma_split(p).last())
            =~= comma_split(p));
    } else {
        let y0 = y.drop_last();
        assert(!y0.contains(',')) by {
            if y0.contains(',') {
                let k = choose|k: int| 0 <= k < y0.len() && y0[k] == ',';
                assert(y[k] == ',');
            }
        }
        assert(y.last() != ',') by {
            assert(y[y.len() - 1] == y.last());
        }
        lemma_comma_split_extend(p, y0);
        assert((p + y).drop_last() =~= p + y0);
        assert((p + y).last() == y.last());
        assert(comma_split(p).last() + y0 + seq![y.last()] =~= comma_split(p).last() + y);
        let rest = comma_split(p + y0);
        let cp = comma_split(p);
        assert(comma_split(p + y) == rest.update(rest.len() - 1, rest.last().push(y.last())));
        assert(rest.len() == cp.len());
        assert(rest.last() == cp.last() + y0);
        assert((cp.last() + y0).push(y.last()) =~= cp.last() + y);
        assert(comma_split(p + y) =~= comma_split(p).update(
            comma_split(p).len() - 1,
            comma_split(p).last() + y,
        ));
    }
}

/// Tells whether `c` is whitespace.
pub fn is_space_exec(c: char) -> (r: bool)
    ensures
        r == is_space(c),
{
    ('\u{9}' <= c && c <= '\u{D}') || c == ' ' || c == '\u{85}' || c == '\u{A0}' || c == '\u{1680}'
        || ('\u{2000}' <= c && c <= '\u{200A}') || c == '\u{2028}' || c == '\u{2029}' || c
        == '\u{202F}' || c == '\u{205F}' || c == '\u{3000}'
}

/// Removes leading and trailing whitespace.
pub fn trim_text(s: &str) -> (r: String)
    ensures
        r@ == trim(s@),
{
    let n = s.unicode_len();
    let mut lo: usize = 0;
    assert(s@.subrange(0, n as int) =~= s@);
    while lo < n && is_space_exec(s.get_char(lo))
        invariant
            n == s@.len(),
            lo <= n,
            trim_start(s@) == trim_start(s@.subrange(lo as int, n as int)),
        decreases n - lo,
    {
        assert(s@.subrange(lo as int, n as int).drop_first() =~= s@.subrange(lo + 1, n as int));
        lo = lo + 1;
    }
    assert(trim_start(s@) == s@.subrange(lo as int, n as int));
    let mut hi: usize = n;
    while hi > lo && is_space_exec(s.get_char(hi - 1))
        invariant
            n == s@.len(),
            lo <= hi <= n,
            trim(s@) == trim_end(s@.subrange(lo as int, hi as int)),
        decreases hi,
    {
        assert(s@.subrange(lo as int, hi as int).drop_last() =~= s@.subrange(lo as int, hi - 1));
        hi = hi - 1;
    }
    String::from_str(s.substring_char(lo, hi))
}

/// Splits `s` at each comma.
pub fn split_on_commas(s: &str) -> (r: Vec<String>)
    ensures
        texts(r@) == comma_split(s@),
{
    let n = s.unicode_len();
    let mut parts: Vec<String> = Vec::new();
    let mut start: usize = 0;
    let mut i: usize = 0;
    assert(s@.subrange(0, 0) =~= Seq::<char>::empty());
    assert(texts(parts@) =~= Seq::<Seq<char>>::empty());
    assert(comma_split(s@.subrange(0, 0)) =~= texts(parts@).push(s@.subrange(0, 0)));
    while i < n
        invariant
            n == s@.len(),
            start <= i <= n,
            comma_split(s@.subrange(0, i as int)) == texts(parts@).push(
                s@.subrange(start as int, i as int),
            ),
        decreases n - i,
    {
        let c = s.get_char(i);
        assert(s@.subrange(0, i + 1).drop_last() =~= s@.subrange(0, i as int));
        let ghost before = texts(parts@);
        let ghost start0 = start;
        if c == ',' {
            parts.push(String::from_str(s.substring_char(start, i)));
            start = i + 1;
            assert(texts(parts@) =~= before.push(s@.subrange(start0 as int, i as int)));
            assert(s@.subrange(start as int, i + 1) =~= Seq::<char>::empty());
        } else {
            assert(s@.subrange(start as int, i as int).push(c) =~= s@.subrange(start as int, i + 1));
        }
        i = i + 1;
        assert(comma_split(s@.subrange(0, i as int)) =~= texts(parts@).push(
            s@.subrange(start as int, i as int),
        ));
    }
    assert(s@.subrange(0, n as int) =~= s@);
    let ghost before = texts(parts@);
    parts.push(String::from_str(s.substring_char(start, n)));
    assert(texts(parts@) =~= before.push(s@.subrange(start as int, n as int)));
    parts
}

proof fn lemma_insert_sorted(s: Seq<Seq<char>>, p: int, x: Seq<char>)
    requires
        sorted_by(s, text_order()),
        0 <= p <= s.len(),
        forall|k: int| 0 <= k < p ==> text_le(#[trigger] s[k], x),
        forall|k: int| p <= k < s.len() ==> text_le(x, #[trigger] s[k]),
    ensures
        sorted_by(s.insert(p, x), text_order()),
{
    lemma_text_order_total();
    let t = s.insert(p, x);
    assert forall|i: int, j: int| 0 <= i < j < t.len() implies #[trigger] text_order()(
        t[i],
        t[j],
    ) by {
        if j < p {
            assert(text_order()(s[i], s[j]));
        } else if j == p {
        } else if i < p {
            assert(text_le(s[i], x));
            assert(text_le(x, s[j - 1]));
            lemma_text_le_transitive(s[i], x, s[j - 1]);
        } else if i == p {
        } else {
            assert(text_order()(s[i - 1], s[j - 1]));
        }
    }
}

/// Sorts strings in ascending `text_le` order.
pub fn sort_texts(v: Vec<String>) -> (r: Vec<String>)
    ensures
        texts(r@) == sorted_texts(texts(v@)),
{
    let mut rest = v;
    let mut out: Vec<String> = Vec::new();
    assert(texts(out@).to_multiset().add(texts(rest@).to_multiset()) =~= texts(v@).to_multiset());
    while rest.len() > 0
        invariant
            texts(out@).to_multiset().add(texts(rest@).to_multiset()) == texts(v@).to_multiset(),
            sorted_by(texts(out@), text_order()),
        decreases rest.len(),
    {
        let ghost rest0 = texts(rest@);
        let x = rest.pop().unwrap();
        assert(rest0 =~= texts(rest@).push(x@));
        let mut p: usize = 0;
        while p < out.len() && !text_le_exec(x.as_str(), out[p].as_str())
            invariant
                p <= out.len(),
                forall|k: int| 0 <= k < p ==> !text_le(x@, #[trigger] texts(out@)[k]),
            decreases out.len() - p,
        {
            p = p + 1;
        }
        let ghost s = texts(out@);
        proof {
            assert forall|k: int| 0 <= k < p implies text_le(#[trigger] s[k], x@) by {
                lemma_text_le_connected(s[k], x@);
            }
            assert forall|k: int| p <= k < s.len() implies text_le(x@, #[trigger] s[k]) by {
                if k > p {
                    assert(text_order()(s[p as int], s[k]));
                    lemma_text_le_transitive(x@, s[p as int], s[k]);
                }
            }
            lemma_insert_sorted(s, p as int, x@);
        }
        out.insert(p, x);
        assert(texts(out@) =~= s.insert(p as int, x@));
    }
    proof {
        assert(texts(rest@) =~= Seq::empty());
        assert(texts(out@).to_multiset() =~= texts(v@).to_multiset());
        lemma_sorted_texts_unique(texts(v@), texts(out@));
    }
    out
}

} // verus!
