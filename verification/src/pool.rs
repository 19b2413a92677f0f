//! The pools a generator draws from: for each category, the bytes of the
//! alphabet that belong to it.

use crate::category::{
    has_category, PatternChar, ASCII_LOWERCASE_END, ASCII_LOWERCASE_START, ASCII_NUMERAL_END,
    ASCII_NUMERAL_START, ASCII_UPPERCASE_END, ASCII_UPPERCASE_START,
};
use vstd::prelude::*;

verus! {

/// The bytes from `first` to `last`, both included, in ascending order.
pub open spec fn byte_range(first: u8, last: u8) -> Seq<u8> {
    Seq::new((last - first + 1) as nat, |i: int| (first + i) as u8)
}

/// The pool of one category. Letters and digits come in ascending order, each
/// once however often the alphabet repeats it; symbols come in the alphabet's
/// own order, as often as the alphabet holds them.
pub open spec fn pool_of(alphabet: Seq<u8>, category: PatternChar) -> Seq<u8> {
    match category {
        PatternChar::Lowercase => byte_range(ASCII_LOWERCASE_START, ASCII_LOWERCASE_END).filter(
            |b: u8| alphabet.contains(b),
        ),
        PatternChar::Uppercase => byte_range(ASCII_UPPERCASE_START, ASCII_UPPERCASE_END).filter(
            |b: u8| alphabet.contains(b),
        ),
        PatternChar::Numeric => byte_range(ASCII_NUMERAL_START, ASCII_NUMERAL_END).filter(
            |b: u8| alphabet.contains(b),
        ),
        PatternChar::Symbol => alphabet.filter(
            |b: u8| PatternChar::of_byte(b) == PatternChar::Symbol,
        ),
    }
}

/// A pool holds exactly the bytes of the alphabet that are of its category, so
/// it is empty exactly when the alphabet has none of them.
pub proof fn lemma_pool_members(alphabet: Seq<u8>, category: PatternChar)
    ensures
        forall|b: u8|
            pool_of(alphabet, category).contains(b) <==> alphabet.contains(b)
                && PatternChar::of_byte(b) == category,
        pool_of(alphabet, category).len() > 0 <==> has_category(alphabet, category),
{
    let pool = pool_of(alphabet, category);
    assert forall|b: u8|
        pool.contains(b) <==> alphabet.contains(b) && PatternChar::of_byte(b) == category by {
        match category {
            PatternChar::Symbol => {
                lemma_filter_members(
                    alphabet,
                    |b: u8| PatternChar::of_byte(b) == PatternChar::Symbol,
                    b,
                );
            },
            PatternChar::Lowercase => {
                lemma_range_members(ASCII_LOWERCASE_START, ASCII_LOWERCASE_END, alphabet, b);
            },
            PatternChar::Uppercase => {
                lemma_range_members(ASCII_UPPERCASE_START, ASCII_UPPERCASE_END, alphabet, b);
            },
            PatternChar::Numeric => {
                lemma_range_members(ASCII_NUMERAL_START, ASCII_NUMERAL_END, alphabet, b);
            },
        }
    }
    if pool.len() > 0 {
        assert(pool.contains(pool[0]));
        let i = choose|i: int| 0 <= i < alphabet.len() && alphabet[i] == pool[0];
        assert(PatternChar::of_byte(alphabet[i]) == category);
    }
    if has_category(alphabet, category) {
        let i = choose|i: int|
            0 <= i < alphabet.len() && PatternChar::of_byte(#[trigger] alphabet[i]) == category;
        assert(alphabet.contains(alphabet[i]));
        assert(pool.contains(alphabet[i]));
    }
}

/// An element is in a filtered sequence exactly when it is in the sequence and
/// passes the filter.
proof fn lemma_filter_members<A>(s: Seq<A>, pred: spec_fn(A) -> bool, x: A)
    ensures
        s.filter(pred).contains(x) <==> s.contains(x) && pred(x),
{
    broadcast use vstd::seq_lib::group_filter_ensures;

    if s.filter(pred).contains(x) {
        s.lemma_filter_contains_rev(pred, x);
        let i = choose|i: int| 0 <= i < s.filter(pred).len() && s.filter(pred)[i] == x;
        s.lemma_filter_pred(pred, i);
    }
    if s.contains(x) && pred(x) {
        let i = choose|i: int| 0 <= i < s.len() && s[i] == x;
        s.lemma_filter_contains(pred, i);
    }
}

/// The bytes of a range that occur in the alphabet are the bytes of the
/// alphabet that lie in the range.
proof fn lemma_range_members(first: u8, last: u8, alphabet: Seq<u8>, b: u8)
    requires
        first <= last,
    ensures
        byte_range(first, last).filter(|x: u8| alphabet.contains(x)).contains(b)
            <==> alphabet.contains(b) && first <= b <= last,
{
    let range = byte_range(first, last);
    lemma_filter_members(range, |x: u8| alphabet.contains(x), b);
    if first <= b <= last {
        assert(range[b - first] == b);
    }
}

/// Whether `bytes` holds `b`.
pub fn contains_byte(bytes: &[u8], b: u8) -> (found: bool)
    ensures
        found == bytes@.contains(b),
{
    let mut i: usize = 0;
    while i < bytes.len()
        invariant
            i <= bytes@.len(),
            forall|j: int| 0 <= j < i ==> bytes@[j] != b,
        decreases bytes@.len() - i,
    {
        if bytes[i] == b {
            return true;
        }
        i += 1;
    }
    false
}

/// Collects the bytes from `first` to `last` that occur in `char_set`.
fn present_in_range(char_set: &[u8], first: u8, last: u8) -> (pool: Vec<u8>)
    requires
        first <= last < 255,
    ensures
        pool@ == byte_range(first, last).filter(|b: u8| char_set@.contains(b)),
{
    let ghost range = byte_range(first, last);
    let ghost pred = |b: u8| char_set@.contains(b);
    let mut pool: Vec<u8> = Vec::new();
    let mut b: u8 = first;
    proof {
        reveal(Seq::filter);
        assert(range.take(0).filter(pred) =~= Seq::<u8>::empty());
    }
    while b <= last
        invariant
            first <= b <= last + 1,
            last < 255,
            range == byte_range(first, last),
            pred == |x: u8| char_set@.contains(x),
            pool@ == range.take(b - first).filter(pred),
        decreases last + 1 - b,
    {
        proof {
            assert(range.take(b - first + 1) =~= range.take(b - first).push(b));
            range.take(b - first).lemma_filter_push(b, pred);
        }
        if contains_byte(char_set, b) {
            pool.push(b);
        }
        b += 1;
    }
    proof {
        assert(range.take(last + 1 - first) =~= range);
    }
    pool
}

/// Collects the symbols of `char_set`, in its order.
fn symbols_in(char_set: &[u8]) -> (pool: Vec<u8>)
    ensures
        pool@ == char_set@.filter(|b: u8| PatternChar::of_byte(b) == PatternChar::Symbol),
{
    let ghost pred = |b: u8| PatternChar::of_byte(b) == PatternChar::Symbol;
    let mut pool: Vec<u8> = Vec::new();
    let mut i: usize = 0;
    proof {
        reveal(Seq::filter);
        assert(char_set@.take(0).filter(pred) =~= Seq::<u8>::empty());
    }
    while i < char_set.len()
        invariant
            i <= char_set@.len(),
            pred == |b: u8| PatternChar::of_byte(b) == PatternChar::Symbol,
            pool@ == char_set@.take(i as int).filter(pred),
        decreases char_set@.len() - i,
    {
        let b = char_set[i];
        proof {
            assert(char_set@.take(i + 1) =~= char_set@.take(i as int).push(b));
            char_set@.take(i as int).lemma_filter_push(b, pred);
        }
        match PatternChar::classify(b) {
            PatternChar::Symbol => {
                pool.push(b);
            },
            _ => {},
        }
        i += 1;
    }
    proof {
        assert(char_set@.take(char_set@.len() as int) =~= char_set@);
    }
    pool
}

/// Builds the pool of one category from the alphabet.
pub fn category_pool(char_set: &[u8], category: PatternChar) -> (pool: Vec<u8>)
    ensures
        pool@ == pool_of(char_set@, category),
{
    match category {
        PatternChar::Lowercase => present_in_range(
            char_set,
            ASCII_LOWERCASE_START,
            ASCII_LOWERCASE_END,
        ),
        PatternChar::Uppercase => present_in_range(
            char_set,
            ASCII_UPPERCASE_START,
            ASCII_UPPERCASE_END,
        ),
        PatternChar::Numeric => present_in_range(char_set, ASCII_NUMERAL_START, ASCII_NUMERAL_END),
        PatternChar::Symbol => symbols_in(char_set),
    }
}

} // verus!
