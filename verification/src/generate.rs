//! The generators: one password from a positional pattern, one password that
//! meets per-category minimums, and batches of either.

use crate::category::{alphabet_chars, has_category, PatternChar};
use crate::pool::{category_pool, lemma_pool_members, pool_of};
use crate::random::{random_index, shuffle_chars};
use rand::rngs::StdRng;
use vstd::prelude::*;

verus! {

/// Whether `c` may stand at a pattern position tagged `category`: it comes from
/// the alphabet, and it is of that category unless the alphabet has no byte of
/// it, in which case any character of the alphabet will do.
pub open spec fn fits_slot(alphabet: Seq<u8>, category: PatternChar, c: char) -> bool {
    &&& alphabet_chars(alphabet).contains(c)
    &&& has_category(alphabet, category) ==> PatternChar::of_char(c) == category
}

/// Whether `password` is a possible outcome of pattern mode: as long as the
/// pattern, with a fitting character at every position.
pub open spec fn follows_pattern(
    alphabet: Seq<u8>,
    pattern: Seq<PatternChar>,
    password: Seq<char>,
) -> bool {
    &&& password.len() == pattern.len()
    &&& forall|i: int|
        0 <= i < pattern.len() ==> fits_slot(alphabet, pattern[i], #[trigger] password[i])
}

/// A byte of the alphabet stands for a character of the alphabet, of the same
/// category.
proof fn lemma_byte_as_char(alphabet: Seq<u8>, b: u8)
    requires
        alphabet.contains(b),
    ensures
        alphabet_chars(alphabet).contains(b as char),
        PatternChar::of_char(b as char) == PatternChar::of_byte(b),
{
    let i = choose|i: int| 0 <= i < alphabet.len() && alphabet[i] == b;
    assert(alphabet_chars(alphabet)[i] == b as char);
}

/// Draws one byte from `pool`, or from the whole alphabet when the pool is
/// empty.
fn draw_or_fall_back(pool: &Vec<u8>, char_set: &[u8], rng: &mut StdRng) -> (b: u8)
    requires
        char_set@.len() > 0,
    ensures
        pool@.len() > 0 ==> pool@.contains(b),
        pool@.len() == 0 ==> char_set@.contains(b),
{
    if pool.is_empty() {
        char_set[random_index(rng, char_set.len())]
    } else {
        pool[random_index(rng, pool.len())]
    }
}

/// Generates one password that follows `pattern`: for each position one random
/// byte of the tagged category, or of the whole alphabet where the alphabet has
/// no byte of that category.
pub fn generate_password_from_pattern(
    char_set: &[u8],
    pattern: &[PatternChar],
    rng: &mut StdRng,
) -> (pass: String)
    requires
        char_set@.len() > 0,
    ensures
        follows_pattern(char_set@, pattern@, pass@),
{
    let mut pass = String::new();
    let lowercase = category_pool(char_set, PatternChar::Lowercase);
    let uppercase = category_pool(char_set, PatternChar::Uppercase);
    let numeric = category_pool(char_set, PatternChar::Numeric);
    let symbols = category_pool(char_set, PatternChar::Symbol);
    let mut i: usize = 0;
    while i < pattern.len()
        invariant
            i <= pattern@.len(),
            char_set@.len() > 0,
            lowercase@ == pool_of(char_set@, PatternChar::Lowercase),
            uppercase@ == pool_of(char_set@, PatternChar::Uppercase),
            numeric@ == pool_of(char_set@, PatternChar::Numeric),
            symbols@ == pool_of(char_set@, PatternChar::Symbol),
            follows_pattern(char_set@, pattern@.take(i as int), pass@),
        decreases pattern@.len() - i,
    {
        let category = pattern[i];
        let char_byte = match category {
            PatternChar::Lowercase => draw_or_fall_back(&lowercase, char_set, rng),
            PatternChar::Uppercase => draw_or_fall_back(&uppercase, char_set, rng),
            PatternChar::Numeric => draw_or_fall_back(&numeric, char_set, rng),
            PatternChar::Symbol => draw_or_fall_back(&symbols, char_set, rng),
        };
        proof {
            lemma_pool_members(char_set@, category);
            lemma_byte_as_char(char_set@, char_byte);
            assert(pattern@.take(i + 1) =~= pattern@.take(i as int).push(category));
        }
        pass.push(char_byte as char);
        i += 1;
    }
    proof {
        assert(pattern@.take(pattern@.len() as int) =~= pattern@);
    }
    pass
}

/// How many characters of `s` are of category `category`.
pub open spec fn count_of(s: Seq<char>, category: PatternChar) -> nat {
    s.filter(|c: char| PatternChar::of_char(c) == category).len()
}

/// The number a minimum stands for: zero where none is configured.
pub open spec fn configured(minimum: Option<u32>) -> nat {
    match minimum {
        Some(n) => n as nat,
        None => 0,
    }
}

/// How many characters a minimum puts into the password: as many as
/// configured, or none at all where the alphabet has no byte of the category.
pub open spec fn required(alphabet: Seq<u8>, category: PatternChar, minimum: Option<u32>) -> nat {
    if has_category(alphabet, category) {
        configured(minimum)
    } else {
        0
    }
}

/// The length of a password generated under minimums: the requested length,
/// or the number of characters that the minimums put in where that is more.
pub open spec fn minimums_length(
    alphabet: Seq<u8>,
    length: u32,
    min_capitals: Option<u32>,
    min_numerals: Option<u32>,
    min_symbols: Option<u32>,
) -> nat {
    let from_minimums = required(alphabet, PatternChar::Uppercase, min_capitals) + required(
        alphabet,
        PatternChar::Numeric,
        min_numerals,
    ) + required(alphabet, PatternChar::Symbol, min_symbols);
    if from_minimums > length {
        from_minimums
    } else {
        length as nat
    }
}

/// Whether `password` is a possible outcome of minimums mode: of the length
/// that the request gives, made of characters of the alphabet, and with at
/// least the required number of characters of each category.
pub open spec fn meets_minimums(
    alphabet: Seq<u8>,
    length: u32,
    min_capitals: Option<u32>,
    min_numerals: Option<u32>,
    min_symbols: Option<u32>,
    password: Seq<char>,
) -> bool {
    &&& password.len() == minimums_length(
        alphabet,
        length,
        min_capitals,
        min_numerals,
        min_symbols,
    )
    &&& forall|i: int|
        0 <= i < password.len() ==> alphabet_chars(alphabet).contains(#[trigger] password[i])
    &&& count_of(password, PatternChar::Uppercase) >= required(
        alphabet,
        PatternChar::Uppercase,
        min_capitals,
    )
    &&& count_of(password, PatternChar::Numeric) >= required(
        alphabet,
        PatternChar::Numeric,
        min_numerals,
    )
    &&& count_of(password, PatternChar::Symbol) >= required(
        alphabet,
        PatternChar::Symbol,
        min_symbols,
    )
}

/// Appending a character raises the count of its own category by one and
/// leaves the other counts as they were.
proof fn lemma_count_of_push(s: Seq<char>, c: char, category: PatternChar)
    ensures
        count_of(s.push(c), category) == count_of(s, category) + if PatternChar::of_char(c)
            == category {
            1nat
        } else {
            0nat
        },
{
    s.lemma_filter_len_push(|x: char| PatternChar::of_char(x) == category, c);
}

/// Taking one element out of a sequence lowers the number of elements that
/// pass a filter by one if the element passes, and not at all if it does not.
proof fn lemma_filter_len_remove<A>(s: Seq<A>, pred: spec_fn(A) -> bool, i: int)
    requires
        0 <= i < s.len(),
    ensures
        s.filter(pred).len() == s.remove(i).filter(pred).len() + if pred(s[i]) {
            1nat
        } else {
            0nat
        },
{
    let front = s.take(i);
    let back = s.skip(i + 1);
    assert(s =~= front.push(s[i]) + back);
    assert(s.remove(i) =~= front + back);
    Seq::filter_distributes_over_add(front.push(s[i]), back, pred);
    Seq::filter_distributes_over_add(front, back, pred);
    front.lemma_filter_len_push(pred, s[i]);
}

/// Two sequences that hold the same elements equally often have equally many
/// elements that pass a filter.
proof fn lemma_filter_len_of_permutation<A>(s: Seq<A>, t: Seq<A>, pred: spec_fn(A) -> bool)
    requires
        s.to_multiset() == t.to_multiset(),
    ensures
        s.filter(pred).len() == t.filter(pred).len(),
    decreases s.len(),
{
    broadcast use vstd::seq_lib::group_to_multiset_ensures;

    if s.len() == 0 {
        assert(t.len() == t.to_multiset().len() == s.to_multiset().len() == s.len());
        assert(s =~= t);
    } else {
        let x = s.last();
        let rest = s.drop_last();
        assert(s =~= rest.push(x));
        assert(s.contains(x));
        assert(t.to_multiset().count(x) > 0);
        assert(t.contains(x));
        let j = choose|j: int| 0 <= j < t.len() && t[j] == x;
        assert(rest.to_multiset() =~= s.to_multiset().remove(x));
        assert(t.remove(j).to_multiset() =~= rest.to_multiset());
        lemma_filter_len_of_permutation(rest, t.remove(j), pred);
        rest.lemma_filter_len_push(pred, x);
        lemma_filter_len_remove(t, pred, j);
    }
}

/// Draws `minimum` characters from `pool`, the pool of `category`, and appends
/// them; appends nothing where the pool is empty or no minimum is configured.
fn push_required(
    pass_vec: &mut Vec<char>,
    char_set: &[u8],
    category: PatternChar,
    pool: &Vec<u8>,
    minimum: Option<u32>,
    rng: &mut StdRng,
)
    requires
        pool@ == pool_of(char_set@, category),
        forall|i: int|
            0 <= i < old(pass_vec)@.len() ==> alphabet_chars(char_set@).contains(
                #[trigger] old(pass_vec)@[i],
            ),
    ensures
        final(pass_vec)@.len() == old(pass_vec)@.len() + required(char_set@, category, minimum),
        forall|i: int|
            0 <= i < final(pass_vec)@.len() ==> alphabet_chars(char_set@).contains(
                #[trigger] final(pass_vec)@[i],
            ),
        forall|other: PatternChar|
            #[trigger] count_of(final(pass_vec)@, other) == count_of(old(pass_vec)@, other)
                + if other == category {
                required(char_set@, category, minimum)
            } else {
                0
            },
{
    proof {
        lemma_pool_members(char_set@, category);
    }
    if let Some(min) = minimum {
        if !pool.is_empty() {
            let mut k: u32 = 0;
            while k < min
                invariant
                    k <= min,
                    pool@.len() > 0,
                    pool@ == pool_of(char_set@, category),
                    has_category(char_set@, category),
                    pass_vec@.len() == old(pass_vec)@.len() + k,
                    forall|i: int|
                        0 <= i < pass_vec@.len() ==> alphabet_chars(char_set@).contains(
                            #[trigger] pass_vec@[i],
                        ),
                    forall|other: PatternChar|
                        #[trigger] count_of(pass_vec@, other) == count_of(old(pass_vec)@, other)
                            + if other == category {
                            k as nat
                        } else {
                            0
                        },
                decreases min - k,
            {
                let idx = random_index(rng, pool.len());
                let b = pool[idx];
                proof {
                    lemma_pool_members(char_set@, category);
                    lemma_byte_as_char(char_set@, b);
                    assert forall|other: PatternChar|
                        #[trigger] count_of(pass_vec@.push(b as char), other) == count_of(
                            old(pass_vec)@,
                            other,
                        ) + if other == category {
                            (k + 1) as nat
                        } else {
                            0
                        } by {
                        lemma_count_of_push(pass_vec@, b as char, other);
                    }
                }
                pass_vec.push(b as char);
                k += 1;
            }
        }
    }
}

/// Copies the characters of `chars` into a string.
fn collect_string(chars: &Vec<char>) -> (text: String)
    ensures
        text@ == chars@,
{
    let mut text = String::new();
    let mut i: usize = 0;
    while i < chars.len()
        invariant
            i <= chars@.len(),
            text@ == chars@.take(i as int),
        decreases chars@.len() - i,
    {
        text.push(chars[i]);
        proof {
            assert(chars@.take(i + 1) =~= chars@.take(i as int).push(chars@[i as int]));
        }
        i += 1;
    }
    proof {
        assert(chars@.take(chars@.len() as int) =~= chars@);
    }
    text
}

/// Generates one password of at least `length` characters that holds, for each
/// configured minimum, at least that many characters of its category.
///
/// The required characters are drawn first, category by category; a category
/// that the alphabet lacks contributes nothing. The rest is filled from the
/// whole alphabet up to `length`, and the whole is shuffled. Where the minimums
/// ask for more than `length` characters, the password is as long as they ask.
pub fn generate_password_with_minimums(
    char_set: &[u8],
    length: u32,
    min_capitals: Option<u32>,
    min_numerals: Option<u32>,
    min_symbols: Option<u32>,
    rng: &mut StdRng,
) -> (pass: String)
    requires
        char_set@.len() > 0,
    ensures
        meets_minimums(char_set@, length, min_capitals, min_numerals, min_symbols, pass@),
{
    let mut pass_vec: Vec<char> = Vec::new();
    let capitals = category_pool(char_set, PatternChar::Uppercase);
    let numerals = category_pool(char_set, PatternChar::Numeric);
    let symbols = category_pool(char_set, PatternChar::Symbol);
    proof {
        reveal(Seq::filter);
        assert(forall|other: PatternChar| #[trigger] count_of(pass_vec@, other) == 0);
    }

    push_required(&mut pass_vec, char_set, PatternChar::Uppercase, &capitals, min_capitals, rng);
    push_required(&mut pass_vec, char_set, PatternChar::Numeric, &numerals, min_numerals, rng);
    push_required(&mut pass_vec, char_set, PatternChar::Symbol, &symbols, min_symbols, rng);

    let ghost from_minimums = pass_vec@.len();
    let ghost capitals_count = count_of(pass_vec@, PatternChar::Uppercase);
    let ghost numerals_count = count_of(pass_vec@, PatternChar::Numeric);
    let ghost symbols_count = count_of(pass_vec@, PatternChar::Symbol);
    while pass_vec.len() < length as usize
        invariant
            char_set@.len() > 0,
            from_minimums <= pass_vec@.len(),
            pass_vec@.len() <= from_minimums || pass_vec@.len() <= length,
            forall|i: int|
                0 <= i < pass_vec@.len() ==> alphabet_chars(char_set@).contains(
                    #[trigger] pass_vec@[i],
                ),
            count_of(pass_vec@, PatternChar::Uppercase) >= capitals_count,
            count_of(pass_vec@, PatternChar::Numeric) >= numerals_count,
            count_of(pass_vec@, PatternChar::Symbol) >= symbols_count,
        decreases length - pass_vec@.len(),
    {
        let c_byte = char_set[random_index(rng, char_set.len())];
        proof {
            lemma_byte_as_char(char_set@, c_byte);
            lemma_count_of_push(pass_vec@, c_byte as char, PatternChar::Uppercase);
            lemma_count_of_push(pass_vec@, c_byte as char, PatternChar::Numeric);
            lemma_count_of_push(pass_vec@, c_byte as char, PatternChar::Symbol);
        }
        pass_vec.push(c_byte as char);
    }

    let ghost filled = pass_vec@;
    shuffle_chars(&mut pass_vec, rng);
    proof {
        broadcast use vstd::seq_lib::group_to_multiset_ensures;

        assert(pass_vec@.len() == pass_vec@.to_multiset().len() == filled.to_multiset().len()
            == filled.len());
        assert forall|i: int| 0 <= i < pass_vec@.len() implies alphabet_chars(
            char_set@,
        ).contains(#[trigger] pass_vec@[i]) by {
            let c = pass_vec@[i];
            assert(pass_vec@.contains(c));
            assert(filled.to_multiset().count(c) > 0);
            assert(filled.contains(c));
        }
        lemma_filter_len_of_permutation(
            filled,
            pass_vec@,
            |c: char| PatternChar::of_char(c) == PatternChar::Uppercase,
        );
        lemma_filter_len_of_permutation(
            filled,
            pass_vec@,
            |c: char| PatternChar::of_char(c) == PatternChar::Numeric,
        );
        lemma_filter_len_of_permutation(
            filled,
            pass_vec@,
            |c: char| PatternChar::of_char(c) == PatternChar::Symbol,
        );
    }
    collect_string(&pass_vec)
}

/// Whether `password` is a possible outcome of one generation: of pattern mode
/// where a pattern is given, of minimums mode otherwise.
pub open spec fn is_outcome(
    alphabet: Seq<u8>,
    length: u32,
    min_capitals: Option<u32>,
    min_numerals: Option<u32>,
    min_symbols: Option<u32>,
    pattern: Option<Seq<PatternChar>>,
    password: Seq<char>,
) -> bool {
    match pattern {
        Some(tags) => follows_pattern(alphabet, tags, password),
        None => meets_minimums(
            alphabet,
            length,
            min_capitals,
            min_numerals,
            min_symbols,
            password,
        ),
    }
}

/// The pattern as a sequence of tags, where there is one.
pub open spec fn pattern_tags(pattern: Option<&[PatternChar]>) -> Option<Seq<PatternChar>> {
    match pattern {
        Some(tags) => Some(tags@),
        None => None,
    }
}

/// Generates `count` passwords, one after the other from the one random
/// source: each follows `pattern` where one is given, and otherwise meets the
/// minimums at the requested length.
pub fn generate_passwords(
    char_set: &[u8],
    length: u32,
    count: u32,
    min_capitals: Option<u32>,
    min_numerals: Option<u32>,
    min_symbols: Option<u32>,
    pattern: Option<&[PatternChar]>,
    rng: &mut StdRng,
) -> (passwords: Vec<String>)
    requires
        char_set@.len() > 0,
    ensures
        passwords@.len() == count,
        forall|k: int|
            0 <= k < passwords@.len() ==> is_outcome(
                char_set@,
                length,
                min_capitals,
                min_numerals,
                min_symbols,
                pattern_tags(pattern),
                (#[trigger] passwords@[k])@,
            ),
{
    let mut passwords: Vec<String> = Vec::new();
    let mut k: u32 = 0;
    while k < count
        invariant
            k <= count,
            char_set@.len() > 0,
            passwords@.len() == k,
            forall|j: int|
                0 <= j < passwords@.len() ==> is_outcome(
                    char_set@,
                    length,
                    min_capitals,
                    min_numerals,
                    min_symbols,
                    pattern_tags(pattern),
                    (#[trigger] passwords@[j])@,
                ),
        decreases count - k,
    {
        let pass = match pattern {
            Some(tags) => generate_password_from_pattern(char_set, tags, rng),
            None => generate_password_with_minimums(
                char_set,
                length,
                min_capitals,
                min_numerals,
                min_symbols,
                rng,
            ),
        };
        passwords.push(pass);
        k += 1;
    }
    passwords
}

/// With no minimum configured, a generated password is exactly as long as
/// requested, and each of its characters comes from the alphabet.
pub proof fn lemma_without_minimums(alphabet: Seq<u8>, length: u32, password: Seq<char>)
    requires
        meets_minimums(alphabet, length, None, None, None, password),
    ensures
        password.len() == length,
        forall|i: int|
            0 <= i < password.len() ==> alphabet_chars(alphabet).contains(#[trigger] password[i]),
{
}

/// Minimums take precedence over the requested length: a generated password is
/// as long as the minimums add up to where that is more than the requested
/// length, and as long as requested otherwise.
///
/// This holds where the alphabet has a byte of every category with a minimum
/// above zero, and also where the minimums add up to no more than the requested
/// length. A minimum for a category that the alphabet lacks puts no character
/// into the password, so elsewhere the password is shorter than the sum.
pub proof fn lemma_minimums_length(
    alphabet: Seq<u8>,
    length: u32,
    min_capitals: Option<u32>,
    min_numerals: Option<u32>,
    min_symbols: Option<u32>,
    password: Seq<char>,
)
    requires
        meets_minimums(alphabet, length, min_capitals, min_numerals, min_symbols, password),
        configured(min_capitals) + configured(min_numerals) + configured(min_symbols) <= length
            || {
            &&& configured(min_capitals) > 0 ==> has_category(alphabet, PatternChar::Uppercase)
            &&& configured(min_numerals) > 0 ==> has_category(alphabet, PatternChar::Numeric)
            &&& configured(min_symbols) > 0 ==> has_category(alphabet, PatternChar::Symbol)
        },
    ensures
        ({
            let sum = configured(min_capitals) + configured(min_numerals) + configured(
                min_symbols,
            );
            password.len() == if sum > length {
                sum
            } else {
                length as nat
            }
        }),
{
}

/// A generated password holds at least the configured number of characters of
/// every category that the alphabet has a byte of.
pub proof fn lemma_minimums_met(
    alphabet: Seq<u8>,
    length: u32,
    min_capitals: Option<u32>,
    min_numerals: Option<u32>,
    min_symbols: Option<u32>,
    password: Seq<char>,
)
    requires
        meets_minimums(alphabet, length, min_capitals, min_numerals, min_symbols, password),
    ensures
        has_category(alphabet, PatternChar::Uppercase) ==> count_of(
            password,
            PatternChar::Uppercase,
        ) >= configured(min_capitals),
        has_category(alphabet, PatternChar::Numeric) ==> count_of(password, PatternChar::Numeric)
            >= configured(min_numerals),
        has_category(alphabet, PatternChar::Symbol) ==> count_of(password, PatternChar::Symbol)
            >= configured(min_symbols),
{
}

/// Where the alphabet has a byte of every category that the pattern names, a
/// generated password is as long as the pattern and holds at each position a
/// character of the category tagged there.
pub proof fn lemma_pattern_followed(
    alphabet: Seq<u8>,
    pattern: Seq<PatternChar>,
    password: Seq<char>,
)
    requires
        follows_pattern(alphabet, pattern, password),
        forall|i: int| 0 <= i < pattern.len() ==> has_category(alphabet, #[trigger] pattern[i]),
    ensures
        password.len() == pattern.len(),
        forall|i: int|
            0 <= i < pattern.len() ==> PatternChar::of_char(#[trigger] password[i]) == pattern[i],
{
}

} // verus!
