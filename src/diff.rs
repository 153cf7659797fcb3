//! Compares an answer with the expected record and renders the differences.
use vstd::prelude::*;
use crate::record::{copy_texts, values_of, FieldModel, Record, RecordModel};
use crate::text::{lemma_sorted_texts_eq, sort_texts, sorted_texts, texts};

verus! {

/// The differences found in one field: its name and the pairs of expected and
/// given values.
pub struct FieldDiff {
    pub field: String,
    pub pairs: Vec<(String, String)>,
}

/// A pair of expected and given values.
pub type PairModel = (Seq<char>, Seq<char>);

/// A field name with its pairs.
pub type EntryModel = (Seq<char>, Seq<PairModel>);

/// The views of a sequence of string pairs.
pub open spec fn pair_texts(v: Seq<(String, String)>) -> Seq<PairModel> {
    v.map_values(|p: (String, String)| (p.0@, p.1@))
}

impl View for FieldDiff {
    type V = EntryModel;

    open spec fn view(&self) -> EntryModel {
        (self.field@, pair_texts(self.pairs@))
    }
}

/// The views of a diff.
pub open spec fn entries(v: Seq<FieldDiff>) -> Seq<EntryModel> {
    v.map_values(|d: FieldDiff| d@)
}

/// The i-th value of `a` with the i-th value of `b`, as far as both reach.
pub open spec fn zipped(a: Seq<Seq<char>>, b: Seq<Seq<char>>) -> Seq<PairModel> {
    Seq::new(if a.len() <= b.len() { a.len() } else { b.len() }, |i: int| (a[i], b[i]))
}

/// The entries for the fields `fs` of the expected record: one for each field
/// whose values differ, as a multiset, from the answer's values for it; it pairs
/// the expected values with the given ones, both in ascending order.
pub open spec fn diff_fields(fs: Seq<FieldModel>, answer: RecordModel) -> Seq<EntryModel>
    decreases fs.len(),
{
    if fs.len() == 0 {
        Seq::empty()
    } else {
        let prev = diff_fields(fs.drop_last(), answer);
        let name = fs.last().0;
        let expected = fs.last().1;
        let given = values_of(answer, name);
        if expected.to_multiset() == given.to_multiset() {
            prev
        } else {
            prev.push((name, zipped(sorted_texts(expected), sorted_texts(given))))
        }
    }
}

/// The diff of `answer` against `expected`, in the expected record's field order.
pub open spec fn diff_of(expected: RecordModel, answer: RecordModel) -> Seq<EntryModel> {
    diff_fields(expected.fields, answer)
}

/// The text of the pairs, one line each.
pub open spec fn pair_lines(ps: Seq<PairModel>) -> Seq<char>
    decreases ps.len(),
{
    if ps.len() == 0 {
        Seq::empty()
    } else {
        pair_lines(ps.drop_last()) + "✅ "@ + ps.last().0 + ", ❌ "@ + ps.last().1 + "\n"@
    }
}

/// The text of the entries: each field name on a line, then its pairs.
pub open spec fn entry_lines(d: Seq<EntryModel>) -> Seq<char>
    decreases d.len(),
{
    if d.len() == 0 {
        Seq::empty()
    } else {
        entry_lines(d.drop_last()) + d.last().0 + ":\n"@ + pair_lines(d.last().1)
    }
}

/// The report on a diff: one line of praise when it is empty, else its entries.
pub open spec fn diff_text(d: Seq<EntryModel>) -> Seq<char> {
    if d.len() == 0 {
        "✅ Все правильно"@
    } else {
        entry_lines(d)
    }
}

/// Whether two vectors hold the same strings in the same order.
pub fn same_texts(a: &Vec<String>, b: &Vec<String>) -> (r: bool)
    ensures
        r == (texts(a@) == texts(b@)),
{
    if a.len() != b.len() {
        assert(texts(a@).len() != texts(b@).len());
        return false;
    }
    let mut i: usize = 0;
    while i < a.len()
        invariant
            a.len() == b.len(),
            i <= a.len(),
            forall|k: int| 0 <= k < i ==> #[trigger] texts(a@)[k] == texts(b@)[k],
        decreases a.len() - i,
    {
        if a[i] != b[i] {
            assert(texts(a@)[i as int] != texts(b@)[i as int]);
            return false;
        }
        i = i + 1;
    }
    assert(texts(a@) =~= texts(b@));
    true
}

/// Pairs the i-th strings of `a` and `b`, as far as both reach.
fn zip_texts(a: &Vec<String>, b: &Vec<String>) -> (r: Vec<(String, String)>)
    ensures
        pair_texts(r@) == zipped(texts(a@), texts(b@)),
{
    let n = if a.len() <= b.len() {
        a.len()
    } else {
        b.len()
    };
    let mut r: Vec<(String, String)> = Vec::new();
    let mut i: usize = 0;
    while i < n
        invariant
            n <= a.len(),
            n <= b.len(),
            n == zipped(texts(a@), texts(b@)).len(),
            i <= n,
            pair_texts(r@) == zipped(texts(a@), texts(b@)).subrange(0, i as int),
        decreases n - i,
    {
        let ghost r0 = pair_texts(r@);
        let x = a[i].clone();
        let y = b[i].clone();
        r.push((x, y));
        assert(pair_texts(r@) =~= r0.push(zipped(texts(a@), texts(b@))[i as int]));
        i = i + 1;
        assert(pair_texts(r@) =~= zipped(texts(a@), texts(b@)).subrange(0, i as int));
    }
    assert(zipped(texts(a@), texts(b@)).subrange(0, i as int) =~= zipped(texts(a@), texts(b@)));
    r
}

/// The differences between `answer` and the `expected` record: an entry for
/// each field of `expected` whose values, taken as a multiset, differ from the
/// answer's.
pub fn check_answer(expected: &Record, answer: &Record) -> (r: Vec<FieldDiff>)
    ensures
        entries(r@) == diff_of(expected@, answer@),
{
    let ghost fs = expected@.fields;
    let mut out: Vec<FieldDiff> = Vec::new();
    let mut i: usize = 0;
    assert(fs.subrange(0, 0) =~= Seq::<FieldModel>::empty());
    assert(entries(out@) =~= Seq::<EntryModel>::empty());
    while i < expected.fields.len()
        invariant
            fs == expected@.fields,
            i <= fs.len(),
            entries(out@) == diff_fields(fs.subrange(0, i as int), answer@),
        decreases expected.fields.len() - i,
    {
        let f = &expected.fields[i];
        assert(fs.subrange(0, i + 1).drop_last() =~= fs.subrange(0, i as int));
        assert(f@ == fs[i as int]);
        let given = match answer.find_field(f.name.as_str()) {
            Some(j) => copy_texts(&answer.fields[j].values),
            None => Vec::new(),
        };
        assert(texts(given@) =~= values_of(answer@, f.name@));
        let want = sort_texts(copy_texts(&f.values));
        let got = sort_texts(given);
        proof {
            lemma_sorted_texts_eq(texts(f.values@), values_of(answer@, f.name@));
        }
        if !same_texts(&want, &got) {
            let ghost o0 = entries(out@);
            let pairs = zip_texts(&want, &got);
            let name = f.name.clone();
            out.push(FieldDiff { field: name, pairs });
            assert(entries(out@) =~= o0.push(out@.last()@));
        }
        i = i + 1;
    }
    assert(fs.subrange(0, i as int) =~= fs);
    out
}

/// Renders a diff for the user.
pub fn print_diff(diff: &Vec<FieldDiff>) -> (r: String)
    ensures
        r@ == diff_text(entries(diff@)),
{
    let mut r = String::new();
    if diff.len() == 0 {
        r.append("✅ Все правильно");
        return r;
    }
    let ghost d = entries(diff@);
    let mut i: usize = 0;
    while i < diff.len()
        invariant
            d == entries(diff@),
            i <= diff.len(),
            r@ == entry_lines(d.subrange(0, i as int)),
        decreases diff.len() - i,
    {
        let e = &diff[i];
        r.append(e.field.as_str());
        r.append(":\n");
        let ghost base = r@;
        let ghost ps = pair_texts(e.pairs@);
        let mut j: usize = 0;
        while j < e.pairs.len()
            invariant
                ps == pair_texts(e.pairs@),
                j <= e.pairs.len(),
                r@ == base + pair_lines(ps.subrange(0, j as int)),
            decreases e.pairs.len() - j,
        {
            r.append("✅ ");
            r.append(e.pairs[j].0.as_str());
            r.append(", ❌ ");
            r.append(e.pairs[j].1.as_str());
            r.append("\n");
            assert(ps.subrange(0, j + 1).drop_last() =~= ps.subrange(0, j as int));
            j = j + 1;
        }
        assert(ps.subrange(0, j as int) =~= ps);
        assert(d.subrange(0, i + 1).drop_last() =~= d.subrange(0, i as int));
        i = i + 1;
    }
    assert(d.subrange(0, i as int) =~= d);
    r
}

} // verus!
