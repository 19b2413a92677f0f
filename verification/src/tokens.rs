//! Exclusion and inclusion tokens: each is either a range such as `a-z` or a
//! string of literal characters, and together they name a set of characters.

use crate::text::code_point;
use vstd::prelude::*;
use vstd::string::{StrSliceExecFns, StringExecFns};

verus! {

/// The first printable character, the space.
pub const PRINTABLE_START: u32 = 32;

/// The last printable character, `~`.
pub const PRINTABLE_END: u32 = 126;

/// Whether the token is shaped like a range: three characters, the middle one
/// a dash, and each end a single byte.
pub open spec fn is_range_shaped(token: Seq<char>) -> bool {
    &&& token.len() == 3
    &&& token[1] == '-'
    &&& token[0] as int <= 127
    &&& token[2] as int <= 127
}

/// Whether the token is a range that runs backwards, which no token may be.
pub open spec fn is_reversed_range(token: Seq<char>) -> bool {
    is_range_shaped(token) && token[0] as int > token[2] as int
}

/// Whether the token is a range: shaped like one, both ends printable, and the
/// start not after the end.
pub open spec fn is_range(token: Seq<char>) -> bool {
    &&& is_range_shaped(token)
    &&& PRINTABLE_START <= token[0] as int <= token[2] as int <= PRINTABLE_END
}

/// The characters from `first` to `last`, both included, in ascending order.
pub open spec fn char_range(first: char, last: char) -> Seq<char> {
    Seq::new((last as int - first as int + 1) as nat, |i: int| (first as int + i) as char)
}

/// The characters that a token names: every character of the range where it
/// is one, and otherwise its own characters, the dash of a would-be range
/// included.
pub open spec fn token_chars(token: Seq<char>) -> Seq<char> {
    if is_range(token) {
        char_range(token[0], token[2])
    } else {
        token
    }
}

/// `seen` followed by those characters of `more` that occur neither in `seen`
/// nor earlier in `more`, in the order of `more`.
pub open spec fn append_new(seen: Seq<char>, more: Seq<char>) -> Seq<char> {
    more.remove_duplicates(seen)
}

/// The characters that a list of tokens names, each once, in the order in
/// which they are first seen.
pub open spec fn collect_tokens(tokens: Seq<Seq<char>>) -> Seq<char>
    decreases tokens.len(),
{
    if tokens.len() == 0 {
        Seq::empty()
    } else {
        append_new(collect_tokens(tokens.drop_last()), token_chars(tokens.last()))
    }
}

/// The tokens as sequences of characters.
pub open spec fn token_views(tokens: Seq<String>) -> Seq<Seq<char>> {
    tokens.map_values(|token: String| token@)
}

/// Whether token `k` is the first that is a reversed range.
pub open spec fn is_first_reversed(tokens: Seq<Seq<char>>, k: int) -> bool {
    &&& 0 <= k < tokens.len()
    &&& is_reversed_range(tokens[k])
    &&& forall|j: int| 0 <= j < k ==> !is_reversed_range(#[trigger] tokens[j])
}

/// The message for a token that is a reversed range: it quotes the token, its
/// start and its end.
pub open spec fn invalid_range_message(token: Seq<char>) -> Seq<char> {
    "Invalid range '"@ + token + "': start character '"@ + seq![token[0]]
        + "' is greater than end character '"@ + seq![token[2]] + "'"@
}

/// Appending one more character of `more` either changes nothing, where the
/// character was seen before, or puts it at the end.
proof fn lemma_append_new_step(seen: Seq<char>, more: Seq<char>, k: int)
    requires
        0 <= k < more.len(),
    ensures
        append_new(seen, more.take(k + 1)) == if append_new(seen, more.take(k)).contains(more[k]) {
            append_new(seen, more.take(k))
        } else {
            append_new(seen, more.take(k)).push(more[k])
        },
{
    let upto = more.take(k + 1);
    let before = append_new(seen, more.take(k));
    upto.lemma_remove_duplicates_append_index(k, seen);
    assert(upto.take(k) =~= more.take(k));
    assert(upto.skip(k) =~= seq![more[k]]);
    let single = seq![more[k]];
    assert(single.skip(1) =~= Seq::<char>::empty());
    reveal_with_fuel(Seq::remove_duplicates, 2);
    assert(before + single =~= before.push(more[k]));
}

/// A collected sequence holds no character twice, and it holds exactly the
/// characters that were seen or are new.
proof fn lemma_append_new_is_set(seen: Seq<char>, more: Seq<char>)
    requires
        seen.no_duplicates(),
    ensures
        append_new(seen, more).no_duplicates(),
        forall|c: char|
            #[trigger] append_new(seen, more).contains(c) <==> seen.contains(c) || more.contains(c),
    decreases more.len(),
{
    more.lemma_remove_duplicates_properties(seen);
    assert forall|c: char|
        #[trigger] append_new(seen, more).contains(c) <==> seen.contains(c) || more.contains(
            c,
        ) by {
        if (more + seen).contains(c) {
            let i = choose|i: int| 0 <= i < (more + seen).len() && (more + seen)[i] == c;
            if i < more.len() {
                assert(more[i] == c);
            } else {
                assert(seen[i - more.len()] == c);
            }
        }
        if seen.contains(c) {
            let i = choose|i: int| 0 <= i < seen.len() && seen[i] == c;
            assert((more + seen)[more.len() + i] == c);
        }
        if more.contains(c) {
            let i = choose|i: int| 0 <= i < more.len() && more[i] == c;
            assert((more + seen)[i] == c);
        }
    }
    if more.len() > 0 {
        if seen.contains(more[0]) {
            lemma_append_new_is_set(seen, more.skip(1));
        } else {
            let next = seen + seq![more[0]];
            assert(next.no_duplicates()) by {
                assert forall|i: int, j: int|
                    0 <= i < next.len() && 0 <= j < next.len() && i != j implies next[i]
                    != next[j] by {
                    if i < seen.len() && j < seen.len() {
                    } else if i < seen.len() {
                        assert(seen.contains(seen[i]));
                    } else {
                        assert(seen.contains(seen[j]));
                    }
                }
            }
            lemma_append_new_is_set(next, more.skip(1));
        }
    }
}

/// What a list of tokens names is a set written down in first-seen order: no
/// character occurs twice, and a character occurs exactly when one of the
/// tokens names it.
pub proof fn lemma_collect_tokens_is_set(tokens: Seq<Seq<char>>)
    ensures
        collect_tokens(tokens).no_duplicates(),
        forall|c: char|
            #[trigger] collect_tokens(tokens).contains(c) <==> exists|k: int|
                0 <= k < tokens.len() && #[trigger] token_chars(tokens[k]).contains(c),
    decreases tokens.len(),
{
    if tokens.len() > 0 {
        let front = tokens.drop_last();
        lemma_collect_tokens_is_set(front);
        lemma_append_new_is_set(collect_tokens(front), token_chars(tokens.last()));
        assert forall|c: char|
            #[trigger] collect_tokens(tokens).contains(c) <==> exists|k: int|
                0 <= k < tokens.len() && #[trigger] token_chars(tokens[k]).contains(c) by {
            if collect_tokens(front).contains(c) {
                let k = choose|k: int|
                    0 <= k < front.len() && #[trigger] token_chars(front[k]).contains(c);
                assert(token_chars(tokens[k]).contains(c));
            }
            if token_chars(tokens.last()).contains(c) {
                assert(token_chars(tokens[tokens.len() - 1]).contains(c));
            }
            if exists|k: int|
                0 <= k < tokens.len() && #[trigger] token_chars(tokens[k]).contains(c) {
                let k = choose|k: int|
                    0 <= k < tokens.len() && #[trigger] token_chars(tokens[k]).contains(c);
                if k < front.len() {
                    assert(token_chars(front[k]).contains(c));
                }
            }
        }
    }
}

/// Whether `chars` holds `c`.
fn contains_char(chars: &Vec<char>, c: char) -> (found: bool)
    ensures
        found == chars@.contains(c),
{
    let mut i: usize = 0;
    while i < chars.len()
        invariant
            i <= chars@.len(),
            forall|j: int| 0 <= j < i ==> chars@[j] != c,
        decreases chars@.len() - i,
    {
        if chars[i] == c {
            return true;
        }
        i += 1;
    }
    false
}

/// Appends `c` unless `chars` holds it already.
fn push_new(chars: &mut Vec<char>, c: char)
    ensures
        final(chars)@ == if old(chars)@.contains(c) {
            old(chars)@
        } else {
            old(chars)@.push(c)
        },
{
    if !contains_char(chars, c) {
        chars.push(c);
    }
}

/// Appends the new characters among those from code point `first` to code
/// point `last`.
fn append_new_range(chars: &mut Vec<char>, first: char, last: char)
    requires
        PRINTABLE_START <= first as int <= last as int <= PRINTABLE_END,
    ensures
        final(chars)@ == append_new(old(chars)@, char_range(first, last)),
{
    let start = code_point(first) as u8;
    let end = code_point(last) as u8;
    let ghost range = char_range(first, last);
    let mut byte: u8 = start;
    proof {
        reveal_with_fuel(Seq::remove_duplicates, 1);
        assert(range.take(0) =~= Seq::<char>::empty());
    }
    while byte <= end
        invariant
            start <= byte <= end + 1,
            end <= PRINTABLE_END,
            start as int == first as int,
            end as int == last as int,
            range == char_range(first, last),
            chars@ == append_new(old(chars)@, range.take(byte - start)),
        decreases end + 1 - byte,
    {
        proof {
            lemma_append_new_step(old(chars)@, range, byte - start);
            assert(range[byte - start] == byte as char);
        }
        push_new(chars, byte as char);
        byte += 1;
    }
    proof {
        assert(range.take(end + 1 - start) =~= range);
    }
}

/// Appends the new characters among those of `text`.
fn append_new_chars(chars: &mut Vec<char>, text: &str)
    ensures
        final(chars)@ == append_new(old(chars)@, text@),
{
    broadcast use vstd::string::group_string_axioms;

    proof {
        reveal_with_fuel(Seq::remove_duplicates, 1);
        assert(text@.take(0) =~= Seq::<char>::empty());
    }
    for c in it: text.chars()
        invariant
            it.seq() == text@,
            chars@ == append_new(old(chars)@, text@.take(it.index() as int)),
    {
        proof {
            lemma_append_new_step(old(chars)@, text@, it.index() as int);
        }
        push_new(chars, c);
    }
    proof {
        assert(text@.take(text@.len() as int) =~= text@);
    }
}

/// Builds the message for a token that is a reversed range.
fn invalid_range(token: &str) -> (message: String)
    requires
        token@.len() == 3,
    ensures
        message@ == invalid_range_message(token@),
{
    let mut message = String::from_str("Invalid range '");
    message.append(token);
    message.append("': start character '");
    message.push(token.get_char(0));
    message.append("' is greater than end character '");
    message.push(token.get_char(2));
    message.append("'");
    proof {
        assert(message@ =~= invalid_range_message(token@));
    }
    message
}

/// Parses exclusion or inclusion tokens into the characters they name, each
/// once and in first-seen order.
///
/// A token of three characters with a dash in the middle and single-byte ends
/// is shaped like a range. Where both ends are printable and the start is not
/// after the end, it names every character from start to end. Where the start
/// is after the end, parsing stops with an error that quotes the token. Any
/// other token names its own characters.
pub fn parse_exclude_chars(exclude_strings: Vec<String>) -> (result: Result<Vec<char>, String>)
    ensures
        match result {
            Ok(chars) => {
                &&& forall|k: int|
                    0 <= k < exclude_strings@.len() ==> !is_reversed_range(
                        (#[trigger] exclude_strings@[k])@,
                    )
                &&& chars@ == collect_tokens(token_views(exclude_strings@))
                &&& chars@.no_duplicates()
            },
            Err(message) => exists|k: int|
                #[trigger] is_first_reversed(token_views(exclude_strings@), k) && message@
                    == invalid_range_message(exclude_strings@[k]@),
        },
{
    let ghost tokens = token_views(exclude_strings@);
    let mut exclude_chars: Vec<char> = Vec::new();
    let mut i: usize = 0;
    proof {
        assert(tokens.take(0) =~= Seq::<Seq<char>>::empty());
    }
    while i < exclude_strings.len()
        invariant
            i <= exclude_strings@.len(),
            tokens == token_views(exclude_strings@),
            forall|j: int| 0 <= j < i ==> !is_reversed_range(#[trigger] tokens[j]),
            exclude_chars@ == collect_tokens(tokens.take(i as int)),
        decreases exclude_strings@.len() - i,
    {
        let token = exclude_strings[i].as_str();
        proof {
            assert(token@ == tokens[i as int]);
            assert(tokens.take(i + 1).drop_last() =~= tokens.take(i as int));
            assert(tokens.take(i + 1).last() == token@);
        }
        let mut expanded = false;
        if token.unicode_len() == 3 {
            let first = token.get_char(0);
            let last = token.get_char(2);
            let start = code_point(first);
            let end = code_point(last);
            if token.get_char(1) == '-' && start < 128 && end < 128 {
                if start <= end && start >= PRINTABLE_START && end <= PRINTABLE_END {
                    append_new_range(&mut exclude_chars, first, last);
                    expanded = true;
                } else if start > end {
                    proof {
                        assert(is_first_reversed(tokens, i as int));
                    }
                    return Err(invalid_range(token));
                }
            }
        }
        if !expanded {
            append_new_chars(&mut exclude_chars, token);
        }
        i += 1;
    }
    proof {
        assert(tokens.take(tokens.len() as int) =~= tokens);
        lemma_collect_tokens_is_set(tokens);
        assert forall|k: int| 0 <= k < exclude_strings@.len() implies !is_reversed_range(
            (#[trigger] exclude_strings@[k])@,
        ) by {
            assert(tokens[k] == exclude_strings@[k]@);
        }
    }
    Ok(exclude_chars)
}

} // verus!
