//! Turns a free-text answer into the values of one field.
use vstd::prelude::*;
use crate::record::blanks;
use crate::text::{comma_split, sort_texts, sorted_texts, split_on_commas, texts, trim, trim_text};

verus! {

/// The pieces of `text` between commas, each trimmed.
pub open spec fn tokens(text: Seq<char>) -> Seq<Seq<char>> {
    comma_split(text).map_values(|t: Seq<char>| trim(t))
}

/// `s` padded on the right with empty values up to length `n`; longer
/// sequences stay as they are.
pub open spec fn padded(s: Seq<Seq<char>>, n: nat) -> Seq<Seq<char>> {
    if s.len() < n {
        s + blanks((n - s.len()) as nat)
    } else {
        s
    }
}

/// The stored answer for `text` in a field of `arity` values: the trimmed
/// pieces, padded to the arity, in ascending order.
pub open spec fn normalized(text: Seq<char>, arity: nat) -> Seq<Seq<char>> {
    sorted_texts(padded(tokens(text), arity))
}

/// Splits `text` at commas, trims each piece, pads with empty values up to
/// `arity` and sorts the result.
pub fn normalize_answer(text: &str, arity: usize) -> (r: Vec<String>)
    ensures
        texts(r@) == normalized(text@, arity as nat),
{
    let pieces = split_on_commas(text);
    let mut values: Vec<String> = Vec::new();
    let mut i: usize = 0;
    while i < pieces.len()
        invariant
            i <= pieces.len(),
            texts(pieces@) == comma_split(text@),
            texts(values@) == tokens(text@).subrange(0, i as int),
        decreases pieces.len() - i,
    {
        let ghost v0 = texts(values@);
        let t = trim_text(pieces[i].as_str());
        values.push(t);
        assert(texts(values@) =~= v0.push(tokens(text@)[i as int]));
        i = i + 1;
        assert(texts(values@) =~= tokens(text@).subrange(0, i as int));
    }
    assert(tokens(text@).subrange(0, i as int) =~= tokens(text@));
    let ghost toks = tokens(text@);
    assert(padded(toks, toks.len()) =~= toks);
    while values.len() < arity
        invariant
            toks.len() <= values.len(),
            values.len() <= arity || values.len() == toks.len(),
            texts(values@) == padded(toks, values.len() as nat),
        decreases arity - values.len(),
    {
        let ghost v0 = texts(values@);
        values.push(String::new());
        assert(texts(values@) =~= v0.push(Seq::<char>::empty()));
        assert(texts(values@) =~= padded(toks, values.len() as nat));
    }
    assert(texts(values@) =~= padded(toks, arity as nat));
    sort_texts(values)
}

} // verus!
