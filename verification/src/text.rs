//! Text primitives: character classes, whitespace tokens, splitting on a
//! pattern, joining with a separator, and small decimal numbers.
//!
//! Every executable function here is stated over `Seq<char>`, the view of
//! a string.

use vstd::prelude::*;

verus! {

/// The views of a sequence of strings.
pub open spec fn texts(v: Seq<String>) -> Seq<Seq<char>> {
    Seq::new(v.len(), |i: int| v[i]@)
}

/// Whether `c` has the Unicode property `White_Space`.
pub open spec fn is_space(c: char) -> bool {
    let u = c as u32;
    ||| 0x09 <= u <= 0x0D
    ||| u == 0x20
    ||| u == 0x85
    ||| u == 0xA0
    ||| u == 0x1680
    ||| 0x2000 <= u <= 0x200A
    ||| u == 0x2028
    ||| u == 0x2029
    ||| u == 0x202F
    ||| u == 0x205F
    ||| u == 0x3000
}

/// The first position at or after `i` that holds no white space, or the
/// length of `s` if there is none.
pub open spec fn skip_spaces(s: Seq<char>, i: int) -> int
    decreases s.len() - i,
{
    if 0 <= i < s.len() && is_space(s[i]) {
        skip_spaces(s, i + 1)
    } else {
        i
    }
}

/// The first position at or after `i` that holds white space, or the length
/// of `s` if there is none.
pub open spec fn skip_word(s: Seq<char>, i: int) -> int
    decreases s.len() - i,
{
    if 0 <= i < s.len() && !is_space(s[i]) {
        skip_word(s, i + 1)
    } else {
        i
    }
}

/// The maximal runs of characters without white space that begin at or
/// after position `i` of `s`, in order.
pub open spec fn tokens_from(s: Seq<char>, i: int) -> Seq<Seq<char>>
    decreases s.len() - i,
{
    let start = skip_spaces(s, i);
    let end = skip_word(s, start);
    if 0 <= i <= start < end <= s.len() {
        seq![s.subrange(start, end)] + tokens_from(s, end)
    } else {
        Seq::empty()
    }
}

/// The white-space separated tokens of `s`.
pub open spec fn tokens(s: Seq<char>) -> Seq<Seq<char>> {
    tokens_from(s, 0)
}

/// The token at position `i`, or the empty text where there is none.
pub open spec fn field(toks: Seq<Seq<char>>, i: int) -> Seq<char> {
    if 0 <= i < toks.len() {
        toks[i]
    } else {
        Seq::empty()
    }
}

/// `parts` written one after the other with `sep` between neighbours.
pub open spec fn join(parts: Seq<Seq<char>>, sep: Seq<char>) -> Seq<char>
    decreases parts.len(),
{
    if parts.len() == 0 {
        Seq::empty()
    } else if parts.len() == 1 {
        parts[0]
    } else {
        join(parts.drop_last(), sep) + sep + parts.last()
    }
}

/// Whether `pat` stands in `s` at position `i`.
pub open spec fn matches_at(s: Seq<char>, pat: Seq<char>, i: int) -> bool {
    &&& 0 <= i
    &&& i + pat.len() <= s.len()
    &&& s.subrange(i, i + pat.len()) == pat
}

/// The first position at or after `i` where `pat` stands in `s`, or the
/// length of `s` if there is none.
pub open spec fn next_match(s: Seq<char>, pat: Seq<char>, i: int) -> int
    decreases s.len() - i,
{
    if 0 <= i < s.len() && !matches_at(s, pat, i) {
        next_match(s, pat, i + 1)
    } else {
        i
    }
}

/// The pieces of `s` from position `i` on, cut at each occurrence of `pat`,
/// occurrences taken from the left and without overlap. There is always at
/// least one piece; pieces may be empty.
pub open spec fn split_from(s: Seq<char>, pat: Seq<char>, i: int) -> Seq<Seq<char>>
    decreases s.len() - i,
{
    let j = next_match(s, pat, i);
    if 0 <= i <= j && 0 < pat.len() && j + pat.len() <= s.len() {
        seq![s.subrange(i, j)] + split_from(s, pat, j + pat.len())
    } else {
        seq![s.subrange(i, s.len() as int)]
    }
}

/// The pieces of `s` between the occurrences of `pat`. The empty pattern
/// occurs nowhere: `s` is then the one piece.
pub open spec fn split(s: Seq<char>, pat: Seq<char>) -> Seq<Seq<char>> {
    split_from(s, pat, 0)
}

/// Whether `c` is a slash or a double quote.
pub open spec fn is_quoting(c: char) -> bool {
    c == '/' || c == '"'
}

/// The characters that `unquoted` keeps.
pub open spec fn not_quoting() -> spec_fn(char) -> bool {
    |c: char| !is_quoting(c)
}

/// `s` without its slashes and double quotes.
pub open spec fn unquoted(s: Seq<char>) -> Seq<char> {
    s.filter(not_quoting())
}

/// Whether `c` is one of the ten decimal digits.
pub open spec fn is_digit(c: char) -> bool {
    0x30 <= c as u32 <= 0x39
}

/// The number that the digit `c` stands for; 0 for any other character.
pub open spec fn digit_value(c: char) -> int {
    if is_digit(c) {
        (c as u32) - 0x30
    } else {
        0
    }
}

/// Whether `s` holds decimal digits only.
pub open spec fn all_digits(s: Seq<char>) -> bool {
    forall|i: int| 0 <= i < s.len() ==> is_digit(#[trigger] s[i])
}

/// The number that the digits of `s` write in base ten.
pub open spec fn decimal(s: Seq<char>) -> int
    decreases s.len(),
{
    if s.len() == 0 {
        0
    } else {
        decimal(s.drop_last()) * 10 + digit_value(s.last())
    }
}

/// The digits of a decimal number: `s` without one leading sign.
pub open spec fn unsigned_part(s: Seq<char>) -> Seq<char> {
    if s.len() > 0 && (s[0] == '-' || s[0] == '+') {
        s.drop_first()
    } else {
        s
    }
}

/// The number that `s` writes: an optional sign, `+` or `-`, then one or
/// more decimal digits.
pub open spec fn signed_decimal(s: Seq<char>) -> int {
    if s.len() > 0 && s[0] == '-' {
        -decimal(unsigned_part(s))
    } else {
        decimal(unsigned_part(s))
    }
}

/// The 8-bit signed number that `s` writes in decimal, where it writes one:
/// an optional sign, then one or more digits, the value within -128..=127.
pub open spec fn parse_i8(s: Seq<char>) -> Option<i8> {
    let digits = unsigned_part(s);
    let value = signed_decimal(s);
    if digits.len() > 0 && all_digits(digits) && -128 <= value <= 127 {
        Some(value as i8)
    } else {
        None
    }
}

/// A number written with more digits in front is no smaller.
pub proof fn lemma_decimal_prefix(s: Seq<char>, k: int)
    requires
        0 <= k <= s.len(),
    ensures
        0 <= decimal(s.take(k)) <= decimal(s),
    decreases s.len() - k,
{
    if k == s.len() {
        assert(s.take(k) =~= s);
        lemma_decimal_nonnegative(s);
    } else {
        lemma_decimal_prefix(s, k + 1);
        assert(s.take(k + 1).drop_last() =~= s.take(k));
    }
}

/// No digits write a negative number.
pub proof fn lemma_decimal_nonnegative(s: Seq<char>)
    ensures
        0 <= decimal(s),
    decreases s.len(),
{
    if s.len() > 0 {
        lemma_decimal_nonnegative(s.drop_last());
    }
}

/// The views of a sequence with one more string are the views of the
/// sequence with one more view.
pub proof fn lemma_texts_push(v: Seq<String>, x: String)
    ensures
        texts(v.push(x)) == texts(v).push(x@),
{
    assert(texts(v.push(x)) =~= texts(v).push(x@));
}

/// `skip_spaces` stops within `s`, at the first character from `i` on that
/// is no white space.
pub proof fn lemma_skip_spaces_bounds(s: Seq<char>, i: int)
    requires
        0 <= i <= s.len(),
    ensures
        i <= skip_spaces(s, i) <= s.len(),
        skip_spaces(s, i) < s.len() ==> !is_space(s[skip_spaces(s, i)]),
        forall|k: int| i <= k < skip_spaces(s, i) ==> is_space(#[trigger] s[k]),
    decreases s.len() - i,
{
    if i < s.len() && is_space(s[i]) {
        lemma_skip_spaces_bounds(s, i + 1);
    }
}

/// `skip_word` stops within `s`, at the first white space from `i` on.
pub proof fn lemma_skip_word_bounds(s: Seq<char>, i: int)
    requires
        0 <= i <= s.len(),
    ensures
        i <= skip_word(s, i) <= s.len(),
        skip_word(s, i) < s.len() ==> is_space(s[skip_word(s, i)]),
        forall|k: int| i <= k < skip_word(s, i) ==> !is_space(#[trigger] s[k]),
    decreases s.len() - i,
{
    if i < s.len() && !is_space(s[i]) {
        lemma_skip_word_bounds(s, i + 1);
    }
}

/// Every token has a character, and none of its characters is white
/// space.
pub proof fn tokens_are_words(s: Seq<char>, i: int)
    requires
        0 <= i <= s.len(),
    ensures
        forall|t: int|
            0 <= t < tokens_from(s, i).len() ==> (#[trigger] tokens_from(s, i)[t]).len() > 0,
        forall|t: int, k: int|
            0 <= t < tokens_from(s, i).len() && 0 <= k < tokens_from(s, i)[t].len() ==> !is_space(
                #[trigger] tokens_from(s, i)[t][k],
            ),
    decreases s.len() - i,
{
    let start = skip_spaces(s, i);
    lemma_skip_spaces_bounds(s, i);
    let end = skip_word(s, start);
    lemma_skip_word_bounds(s, start);
    let toks = tokens_from(s, i);
    if start < end {
        tokens_are_words(s, end);
        let rest = tokens_from(s, end);
        assert(toks == seq![s.subrange(start, end)] + rest);
        assert forall|t: int| 0 <= t < toks.len() implies (#[trigger] toks[t]).len() > 0 by {
            if t > 0 {
                assert(toks[t] == rest[t - 1]);
            }
        }
        assert forall|t: int, k: int|
            0 <= t < toks.len() && 0 <= k < toks[t].len() implies !is_space(
            #[trigger] toks[t][k],
        ) by {
            if t > 0 {
                assert(toks[t] == rest[t - 1]);
            } else {
                assert(toks[0][k] == s[start + k]);
            }
        }
    }
}

/// `next_match` stops within `s`, at the first occurrence of `pat` from `i`
/// on.
pub proof fn lemma_next_match_bounds(s: Seq<char>, pat: Seq<char>, i: int)
    requires
        0 <= i <= s.len(),
    ensures
        i <= next_match(s, pat, i) <= s.len(),
        next_match(s, pat, i) < s.len() ==> matches_at(s, pat, next_match(s, pat, i)),
        forall|k: int| i <= k < next_match(s, pat, i) ==> !matches_at(s, pat, k),
    decreases s.len() - i,
{
    if i < s.len() && !matches_at(s, pat, i) {
        lemma_next_match_bounds(s, pat, i + 1);
    }
}

/// Where nothing stands between `i` and `j` and `pat` stands at `j`, or
/// `j` is the end, the next occurrence from `i` on is at `j`.
pub proof fn lemma_next_match_at(s: Seq<char>, pat: Seq<char>, i: int, j: int)
    requires
        0 <= i <= j <= s.len(),
        forall|k: int| i <= k < j ==> !matches_at(s, pat, k),
        j == s.len() || matches_at(s, pat, j),
    ensures
        next_match(s, pat, i) == j,
    decreases j - i,
{
    if i < j {
        lemma_next_match_at(s, pat, i + 1, j);
    }
}

/// A pattern of one character stands where that character stands.
pub proof fn lemma_char_match(s: Seq<char>, c: char, k: int)
    requires
        0 <= k < s.len(),
    ensures
        matches_at(s, seq![c], k) <==> s[k] == c,
{
    if s[k] == c {
        assert(s.subrange(k, k + 1) =~= seq![c]);
    } else {
        assert(s.subrange(k, k + 1)[0] == s[k]);
    }
}

/// Joining two or more parts puts the first part and the separator in
/// front of the others joined.
pub proof fn lemma_join_front(parts: Seq<Seq<char>>, sep: Seq<char>)
    requires
        parts.len() >= 2,
    ensures
        join(parts, sep) == parts[0] + sep + join(parts.drop_first(), sep),
    decreases parts.len(),
{
    let rest = parts.drop_first();
    let front = parts.drop_last();
    assert(join(parts, sep) == join(front, sep) + sep + parts.last());
    if parts.len() == 2 {
        assert(front[0] == parts[0]);
        assert(join(front, sep) == parts[0]);
        assert(rest[0] == parts[1]);
        assert(join(rest, sep) == parts[1]);
    } else {
        lemma_join_front(front, sep);
        assert(front.drop_first() =~= rest.drop_last());
        assert(front[0] == parts[0]);
        assert(rest.last() == parts.last());
        assert(join(rest, sep) == join(rest.drop_last(), sep) + sep + rest.last());
        assert((parts[0] + sep + join(rest.drop_last(), sep)) + sep + parts.last() =~= parts[0]
            + sep + (join(rest.drop_last(), sep) + sep + rest.last()));
    }
}

/// Whether no part holds the character `c`.
pub open spec fn free_of(parts: Seq<Seq<char>>, c: char) -> bool {
    forall|p: int, k: int| 0 <= p < parts.len() && 0 <= k < parts[p].len() ==> parts[p][k] != c
}

/// Cutting at `c` what was joined with `c` gives the parts back, where no
/// part holds `c` and there is at least one part.
pub proof fn lemma_split_joined(s: Seq<char>, c: char, i: int, parts: Seq<Seq<char>>)
    requires
        0 <= i <= s.len(),
        parts.len() >= 1,
        free_of(parts, c),
        s.subrange(i, s.len() as int) == join(parts, seq![c]),
    ensures
        split_from(s, seq![c], i) == parts,
    decreases parts.len(),
{
    let first = parts[0];
    let tail = s.subrange(i, s.len() as int);
    let j = i + first.len();
    if parts.len() == 1 {
        assert forall|k: int| i <= k < j implies !matches_at(s, seq![c], k) by {
            assert(s[k] == tail[k - i]);
            lemma_char_match(s, c, k);
        }
        lemma_next_match_at(s, seq![c], i, j);
        assert(split_from(s, seq![c], i) =~= parts);
    } else {
        let rest = parts.drop_first();
        lemma_join_front(parts, seq![c]);
        assert(tail == first + seq![c] + join(rest, seq![c]));
        assert(j < s.len());
        assert forall|k: int| i <= k < j implies !matches_at(s, seq![c], k) by {
            assert(s[k] == tail[k - i]);
            assert(tail[k - i] == first[k - i]);
            lemma_char_match(s, c, k);
        }
        assert(s[j] == tail[j - i]);
        lemma_char_match(s, c, j);
        lemma_next_match_at(s, seq![c], i, j);
        assert(s.subrange(i, j) =~= first);
        assert(s.subrange(j + 1, s.len() as int) =~= tail.subrange(
            j + 1 - i,
            tail.len() as int,
        ));
        assert(tail.subrange(j + 1 - i, tail.len() as int) =~= join(rest, seq![c]));
        assert(free_of(rest, c)) by {
            assert forall|p: int, k: int|
                0 <= p < rest.len() && 0 <= k < rest[p].len() implies rest[p][k] != c by {
                assert(rest[p] == parts[p + 1]);
            }
        }
        lemma_split_joined(s, c, j + 1, rest);
        assert(split_from(s, seq![c], i) =~= seq![first] + rest);
        assert(seq![first] + rest =~= parts);
    }
}

/// No piece that was cut at `c` holds `c`.
pub proof fn lemma_split_free(s: Seq<char>, c: char, i: int)
    requires
        0 <= i <= s.len(),
    ensures
        free_of(split_from(s, seq![c], i), c),
        split_from(s, seq![c], i).len() >= 1,
    decreases s.len() - i,
{
    let pat = seq![c];
    let j = next_match(s, pat, i);
    lemma_next_match_bounds(s, pat, i);
    assert forall|k: int| i <= k < j implies s[k] != c by {
        lemma_char_match(s, c, k);
    }
    let pieces = split_from(s, pat, i);
    if j + 1 <= s.len() {
        lemma_split_free(s, c, j + 1);
        let rest = split_from(s, pat, j + 1);
        assert(pieces == seq![s.subrange(i, j)] + rest);
        assert forall|p: int, k: int|
            0 <= p < pieces.len() && 0 <= k < pieces[p].len() implies pieces[p][k] != c by {
            if p == 0 {
                assert(pieces[0][k] == s[i + k]);
            } else {
                assert(pieces[p] == rest[p - 1]);
            }
        }
    } else {
        assert(pieces == seq![s.subrange(i, s.len() as int)]);
        assert forall|p: int, k: int|
            0 <= p < pieces.len() && 0 <= k < pieces[p].len() implies pieces[p][k] != c by {
            assert(pieces[0][k] == s[i + k]);
        }
    }
}

/// Whether every one of `words` has a character and none has white space.
pub open spec fn are_words(words: Seq<Seq<char>>) -> bool {
    &&& forall|w: int| 0 <= w < words.len() ==> (#[trigger] words[w]).len() > 0
    &&& forall|w: int, k: int|
        0 <= w < words.len() && 0 <= k < words[w].len() ==> !is_space(#[trigger] words[w][k])
}

/// Where no white space stands between `i` and `j` and white space stands
/// at `j`, or `j` is the end, the word that begins at `i` ends at `j`.
pub proof fn lemma_skip_word_at(s: Seq<char>, i: int, j: int)
    requires
        0 <= i <= j <= s.len(),
        forall|k: int| i <= k < j ==> !is_space(#[trigger] s[k]),
        j == s.len() || is_space(s[j]),
    ensures
        skip_word(s, i) == j,
    decreases j - i,
{
    if i < j {
        lemma_skip_word_at(s, i + 1, j);
    }
}

/// Words that were joined with single spaces are found again as the
/// tokens.
pub proof fn lemma_tokens_joined(s: Seq<char>, i: int, words: Seq<Seq<char>>)
    requires
        0 <= i <= s.len(),
        are_words(words),
        s.subrange(i, s.len() as int) == join(words, seq![' ']),
    ensures
        tokens_from(s, i) == words,
    decreases words.len(),
{
    let tail = s.subrange(i, s.len() as int);
    if words.len() == 0 {
        assert(tail.len() == 0);
        assert(tokens_from(s, i) =~= words);
    } else {
        let first = words[0];
        let j = i + first.len();
        assert(first.len() > 0);
        if words.len() == 1 {
            assert(tail == first);
        } else {
            lemma_join_front(words, seq![' ']);
            assert(tail == first + seq![' '] + join(words.drop_first(), seq![' ']));
            assert(s[j] == tail[j - i]);
        }
        assert forall|k: int| i <= k < j implies !is_space(#[trigger] s[k]) by {
            assert(s[k] == tail[k - i]);
            assert(tail[k - i] == first[k - i]);
        }
        assert(skip_spaces(s, i) == i);
        lemma_skip_word_at(s, i, j);
        assert(s.subrange(i, j) =~= first);
        if words.len() == 1 {
            assert(tokens_from(s, j) =~= Seq::<Seq<char>>::empty());
            assert(tokens_from(s, i) =~= words);
        } else {
            let rest = words.drop_first();
            assert(are_words(rest)) by {
                assert forall|w: int| 0 <= w < rest.len() implies (#[trigger] rest[w]).len()
                    > 0 by {
                    assert(rest[w] == words[w + 1]);
                }
                assert forall|w: int, k: int|
                    0 <= w < rest.len() && 0 <= k < rest[w].len() implies !is_space(
                    #[trigger] rest[w][k],
                ) by {
                    assert(rest[w] == words[w + 1]);
                }
            }
            assert(s.subrange(j + 1, s.len() as int) =~= tail.subrange(
                j + 1 - i,
                tail.len() as int,
            ));
            assert(tail.subrange(j + 1 - i, tail.len() as int) =~= join(rest, seq![' ']));
            lemma_tokens_joined(s, j + 1, rest);
            assert(is_space(s[j]));
            assert(skip_spaces(s, j) == skip_spaces(s, j + 1));
            assert(tokens_from(s, j) == tokens_from(s, j + 1));
            assert(tokens_from(s, i) =~= seq![first] + rest);
            assert(seq![first] + rest =~= words);
        }
    }
}

/// The tokens of words joined with single spaces are the words.
pub proof fn tokens_of_joined_words(words: Seq<Seq<char>>)
    requires
        are_words(words),
    ensures
        tokens(join(words, seq![' '])) == words,
{
    let s = join(words, seq![' ']);
    assert(s.subrange(0, s.len() as int) =~= s);
    lemma_tokens_joined(s, 0, words);
}

/// Whether `c` stands at position `k` of `s` and again right behind it.
pub open spec fn doubled_at(s: Seq<char>, c: char, k: int) -> bool {
    0 <= k && k + 1 < s.len() && s[k] == c && s[k + 1] == c
}

/// Where every part has a character and none holds `c`, the parts joined
/// with `c` neither begin nor end with `c`, and `c` never stands twice in
/// a row.
pub proof fn lemma_join_no_double(parts: Seq<Seq<char>>, c: char)
    requires
        free_of(parts, c),
        forall|p: int| 0 <= p < parts.len() ==> (#[trigger] parts[p]).len() > 0,
    ensures
        parts.len() > 0 ==> join(parts, seq![c]).len() > 0 && join(parts, seq![c])[0] != c && join(
            parts,
            seq![c],
        ).last() != c,
        forall|k: int| !#[trigger] doubled_at(join(parts, seq![c]), c, k),
    decreases parts.len(),
{
    let joined = join(parts, seq![c]);
    if parts.len() == 0 {
    } else if parts.len() == 1 {
        assert(parts[0].len() > 0);
        assert forall|k: int| 0 <= k < joined.len() implies joined[k] != c by {
            assert(joined[k] == parts[0][k]);
        }
    } else {
        let front = parts.drop_last();
        let last = parts.last();
        let before = join(front, seq![c]);
        let n = before.len() as int;
        assert(free_of(front, c)) by {
            assert forall|p: int, k: int|
                0 <= p < front.len() && 0 <= k < front[p].len() implies front[p][k] != c by {
                assert(front[p] == parts[p]);
            }
        }
        assert forall|p: int| 0 <= p < front.len() implies (#[trigger] front[p]).len() > 0 by {
            assert(front[p] == parts[p]);
        }
        lemma_join_no_double(front, c);
        assert(last.len() > 0);
        assert(joined == before + seq![c] + last);
        assert(joined[n] == c);
        let m = parts.len() - 1;
        assert forall|k: int| !#[trigger] doubled_at(joined, c, k) by {
            if !(0 <= k && k + 1 < joined.len()) {
            } else if k + 1 < n {
                assert(!doubled_at(before, c, k));
                assert(joined[k] == before[k]);
                assert(joined[k + 1] == before[k + 1]);
            } else if k + 1 == n {
                assert(joined[k] == before.last());
            } else if k == n {
                assert(joined[k + 1] == parts[m][0]);
            } else {
                assert(joined[k] == parts[m][k - n - 1]);
            }
        }
        assert(joined.last() == parts[m][last.len() - 1]);
        assert(joined[0] == before[0]);
    }
}

/// Whether `c` has the Unicode property `White_Space`.
pub fn is_space_char(c: char) -> (b: bool)
    ensures
        b == is_space(c),
{
    let u: u32 = c as u32;
    (0x09 <= u && u <= 0x0D) || u == 0x20 || u == 0x85 || u == 0xA0 || u == 0x1680 || (0x2000 <= u
        && u <= 0x200A) || u == 0x2028 || u == 0x2029 || u == 0x202F || u == 0x205F || u == 0x3000
}

/// The characters of `s`, in order.
pub fn chars_of(s: &str) -> (out: Vec<char>)
    ensures
        out@ == s@,
{
    let mut out: Vec<char> = Vec::new();
    let n: usize = s.unicode_len();
    let mut i: usize = 0;
    while i < n
        invariant
            n == s@.len(),
            i <= n,
            out@ == s@.subrange(0, i as int),
        decreases n - i,
    {
        let c: char = s.get_char(i);
        out.push(c);
        i = i + 1;
    }
    out
}

/// Cuts `s` into its white-space separated tokens.
pub fn split_whitespace(s: &str) -> (out: Vec<String>)
    ensures
        texts(out@) == tokens(s@),
{
    let cs: Vec<char> = chars_of(s);
    let n: usize = cs.len();
    let mut out: Vec<String> = Vec::new();
    let mut i: usize = 0;
    while i < n
        invariant
            cs@ == s@,
            n == cs.len(),
            i <= n,
            tokens(s@) == texts(out@) + tokens_from(s@, i as int),
        decreases n - i,
    {
        let ghost from = i as int;
        while i < n && is_space_char(cs[i])
            invariant
                cs@ == s@,
                n == cs.len(),
                from <= i <= n,
                skip_spaces(s@, from) == skip_spaces(s@, i as int),
            decreases n - i,
        {
            i = i + 1;
        }
        let start: usize = i;
        while i < n && !is_space_char(cs[i])
            invariant
                cs@ == s@,
                n == cs.len(),
                start <= i <= n,
                skip_word(s@, start as int) == skip_word(s@, i as int),
            decreases n - i,
        {
            i = i + 1;
        }
        if start < i {
            let token: String = s.substring_char(start, i).to_owned();
            proof {
                assert(texts(out@.push(token)) =~= texts(out@) + seq![s@.subrange(
                    start as int,
                    i as int,
                )]);
            }
            out.push(token);
        } else {
            proof {
                assert(start == n);
            }
        }
    }
    proof {
        assert(tokens_from(s@, n as int) =~= Seq::<Seq<char>>::empty());
    }
    out
}

/// The token at position `i`, or the empty string where there is none.
pub fn token_at(toks: &Vec<String>, i: usize) -> (out: String)
    ensures
        out@ == field(texts(toks@), i as int),
{
    if i < toks.len() {
        toks[i].clone()
    } else {
        String::new()
    }
}

/// Writes `parts` one after the other, with `sep` between neighbours.
pub fn join_with(parts: &Vec<String>, sep: &str) -> (out: String)
    ensures
        out@ == join(texts(parts@), sep@),
{
    let mut out: String = String::new();
    let mut i: usize = 0;
    while i < parts.len()
        invariant
            i <= parts.len(),
            out@ == join(texts(parts@).take(i as int), sep@),
        decreases parts.len() - i,
    {
        proof {
            let next = texts(parts@).take(i + 1);
            assert(next.drop_last() =~= texts(parts@).take(i as int));
            assert(next.last() == parts@[i as int]@);
        }
        if i > 0 {
            out.append(sep);
        }
        out.append(parts[i].as_str());
        i = i + 1;
    }
    proof {
        assert(texts(parts@).take(parts.len() as int) =~= texts(parts@));
    }
    out
}

/// Whether `pat` stands in `cs` at position `i`.
fn matches_here(cs: &Vec<char>, pat: &Vec<char>, i: usize) -> (b: bool)
    requires
        i <= cs.len(),
    ensures
        b == matches_at(cs@, pat@, i as int),
{
    if pat.len() > cs.len() - i {
        return false;
    }
    let mut k: usize = 0;
    while k < pat.len()
        invariant
            i + pat.len() <= cs.len(),
            k <= pat.len(),
            forall|j: int| 0 <= j < k ==> cs@[i + j] == pat@[j],
        decreases pat.len() - k,
    {
        if cs[i + k] != pat[k] {
            proof {
                assert(cs@.subrange(i as int, i + pat.len())[k as int] == cs@[i + k]);
            }
            return false;
        }
        k = k + 1;
    }
    proof {
        assert(cs@.subrange(i as int, i + pat.len()) =~= pat@);
    }
    true
}

/// Cuts `s` at each occurrence of `pat`, occurrences taken from the left
/// and without overlap. The empty pattern occurs nowhere.
pub fn split_on(s: &str, pat: &str) -> (out: Vec<String>)
    ensures
        texts(out@) == split(s@, pat@),
        out.len() >= 1,
{
    let cs: Vec<char> = chars_of(s);
    let ps: Vec<char> = chars_of(pat);
    let n: usize = cs.len();
    let m: usize = ps.len();
    let mut out: Vec<String> = Vec::new();
    if m == 0 {
        let whole: String = s.to_owned();
        proof {
            lemma_texts_push(out@, whole);
            assert(s@.subrange(0, s@.len() as int) =~= s@);
            assert(texts(out@).push(whole@) =~= split(s@, pat@));
        }
        out.push(whole);
        return out;
    }
    let mut start: usize = 0;
    let mut i: usize = 0;
    while i < n
        invariant
            cs@ == s@,
            ps@ == pat@,
            n == cs.len(),
            m == ps.len(),
            m > 0,
            start <= i <= n,
            next_match(s@, pat@, start as int) == next_match(s@, pat@, i as int),
            split(s@, pat@) == texts(out@) + split_from(s@, pat@, start as int),
        decreases n - i,
    {
        if matches_here(&cs, &ps, i) {
            let piece: String = s.substring_char(start, i).to_owned();
            proof {
                assert(texts(out@.push(piece)) =~= texts(out@) + seq![s@.subrange(
                    start as int,
                    i as int,
                )]);
            }
            out.push(piece);
            i = i + m;
            start = i;
        } else {
            i = i + 1;
        }
    }
    let piece: String = s.substring_char(start, n).to_owned();
    proof {
        lemma_next_match_bounds(s@, pat@, start as int);
        assert(texts(out@.push(piece)) =~= texts(out@) + seq![s@.subrange(start as int, n as int)]);
    }
    out.push(piece);
    out
}

/// Removes every slash and every double quote from `s`.
pub fn strip_quoting(s: &str) -> (out: String)
    ensures
        out@ == unquoted(s@),
{
    let cs: Vec<char> = chars_of(s);
    let n: usize = cs.len();
    let mut out: String = String::new();
    let mut i: usize = 0;
    proof {
        reveal(Seq::filter);
    }
    while i < n
        invariant
            cs@ == s@,
            n == cs.len(),
            i <= n,
            out@ == unquoted(s@.take(i as int)),
        decreases n - i,
    {
        proof {
            reveal(Seq::filter);
            assert(s@.take(i + 1).drop_last() =~= s@.take(i as int));
        }
        let c: char = cs[i];
        if !(c == '/' || c == '"') {
            out.append(s.substring_char(i, i + 1));
            proof {
                assert(s@.subrange(i as int, i + 1) =~= seq![c]);
                assert(unquoted(s@.take(i as int)) + seq![c] =~= unquoted(s@.take(i as int)).push(
                    c,
                ));
            }
        }
        i = i + 1;
    }
    proof {
        assert(s@.take(n as int) =~= s@);
    }
    out
}

/// Reads `s` as an 8-bit signed decimal number: an optional sign, then one
/// or more digits. Anything else, and any value outside -128..=127, is
/// `None`.
pub fn parse_small(s: &str) -> (out: Option<i8>)
    ensures
        out == parse_i8(s@),
{
    let cs: Vec<char> = chars_of(s);
    let n: usize = cs.len();
    if n == 0 {
        return None;
    }
    let negative: bool = cs[0] == '-';
    let start: usize = if cs[0] == '-' || cs[0] == '+' {
        1
    } else {
        0
    };
    let ghost digits = unsigned_part(s@);
    proof {
        assert(digits =~= s@.subrange(start as int, n as int));
    }
    if start == n {
        return None;
    }
    let mut acc: u32 = 0;
    let mut i: usize = start;
    while i < n
        invariant
            cs@ == s@,
            n == cs.len(),
            start <= i <= n,
            digits == unsigned_part(s@),
            digits == s@.subrange(start as int, n as int),
            all_digits(digits.take(i - start)),
            acc == decimal(digits.take(i - start)),
            acc <= 128,
        decreases n - i,
    {
        let c: char = cs[i];
        let u: u32 = c as u32;
        if u < 0x30 || u > 0x39 {
            proof {
                assert(digits[i - start] == c);
                assert(!is_digit(c));
            }
            return None;
        }
        proof {
            assert(digits.take(i - start + 1).drop_last() =~= digits.take(i - start));
            assert(digits.take(i - start + 1).last() == c);
            assert(is_digit(c));
        }
        acc = acc * 10 + (u - 0x30);
        if acc > 128 {
            proof {
                lemma_decimal_prefix(digits, i - start + 1);
            }
            return None;
        }
        i = i + 1;
    }
    proof {
        assert(digits.take(n - start) =~= digits);
    }
    if negative {
        let v: i32 = 0 - (acc as i32);
        Some(v as i8)
    } else if acc <= 127 {
        Some(acc as i8)
    } else {
        None
    }
}

} // verus!
