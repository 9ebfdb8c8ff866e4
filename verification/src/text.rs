//! Characters, tokens and decimal numerals.

use vstd::prelude::*;
use vstd::string::*;

verus! {

/// Whether two string slices hold the same characters.
pub fn same_text(a: &str, b: &str) -> (r: bool)
    ensures
        r == (a@ == b@),
{
    a.to_owned() == b.to_owned()
}

/// The characters of a string slice, in order.
pub fn chars_of(s: &str) -> (v: Vec<char>)
    ensures
        v@ == s@,
{
    let mut v: Vec<char> = Vec::new();
    for c in it: s.chars()
        invariant
            it.seq() == s@,
            v@ =~= it.seq().take(it.index() as int),
    {
        v.push(c);
    }
    v
}

/// The characters with the Unicode property `White_Space`.
pub open spec fn is_blank(c: char) -> bool {
    let n = c as u32;
    ||| 0x09 <= n <= 0x0D
    ||| n == 0x20
    ||| n == 0x85
    ||| n == 0xA0
    ||| n == 0x1680
    ||| 0x2000 <= n <= 0x200A
    ||| n == 0x2028
    ||| n == 0x2029
    ||| n == 0x202F
    ||| n == 0x205F
    ||| n == 0x3000
}

/// Decides whether a character is white space.
pub fn blank(c: char) -> (r: bool)
    ensures
        r == is_blank(c),
{
    let n: u32 = c as u32;
    (0x09 <= n && n <= 0x0D) || n == 0x20 || n == 0x85 || n == 0xA0 || n == 0x1680 || (0x2000 <= n
        && n <= 0x200A) || n == 0x2028 || n == 0x2029 || n == 0x202F || n == 0x205F || n == 0x3000
}

/// How a list of values is cut into tokens.
#[derive(Clone, Copy, PartialEq, Eq, Structural, Debug)]
pub enum Separator {
    /// Every single space ends a token, so two spaces in a row enclose an
    /// empty token, and the empty text is one empty token.
    Space,
    /// Tokens are the maximal runs of characters that are not white space.
    Blank,
    /// Every line feed ends a token: the tokens are the lines of a text.
    Line,
    /// Every slash ends a token, so two slashes in a row enclose an empty
    /// token.
    Slash,
}

/// Whether `c` ends a token under `sep`.
pub open spec fn separates(sep: Separator, c: char) -> bool {
    match sep {
        Separator::Space => c == ' ',
        Separator::Blank => is_blank(c),
        Separator::Line => c == '\n',
        Separator::Slash => c == '/',
    }
}

/// Decides whether a character ends a token.
pub fn ends_token(sep: Separator, c: char) -> (r: bool)
    ensures
        r == separates(sep, c),
{
    match sep {
        Separator::Space => c == ' ',
        Separator::Blank => blank(c),
        Separator::Line => c == '\n',
        Separator::Slash => c == '/',
    }
}

/// The first index at or after `from` that holds a separator, or the length.
pub open spec fn token_end(sep: Separator, s: Seq<char>, from: int) -> int
    decreases s.len() - from,
{
    if from < 0 || from >= s.len() {
        s.len() as int
    } else if separates(sep, s[from]) {
        from
    } else {
        token_end(sep, s, from + 1)
    }
}

/// The first index at or after `from` that holds no white space, or the length.
pub open spec fn token_start(sep: Separator, s: Seq<char>, from: int) -> int
    decreases s.len() - from,
{
    if from < 0 || from >= s.len() {
        s.len() as int
    } else if sep == Separator::Blank && is_blank(s[from]) {
        token_start(sep, s, from + 1)
    } else {
        from
    }
}

/// The tokens of `s` from index `from` on.
pub open spec fn tokens_from(sep: Separator, s: Seq<char>, from: int) -> Seq<Seq<char>>
    decreases s.len() - from,
{
    if from < 0 || from > s.len() {
        Seq::empty()
    } else {
        let b = token_start(sep, s, from);
        let e = token_end(sep, s, b);
        if sep == Separator::Blank {
            if b >= s.len() || e <= from || e > s.len() {
                Seq::empty()
            } else {
                seq![s.subrange(b, e)] + tokens_from(sep, s, e)
            }
        } else {
            if e >= s.len() || e < from {
                seq![s.subrange(b, e)]
            } else {
                seq![s.subrange(b, e)] + tokens_from(sep, s, e + 1)
            }
        }
    }
}

/// The tokens of a text under a separator.
pub open spec fn tokens_of(sep: Separator, s: Seq<char>) -> Seq<Seq<char>> {
    tokens_from(sep, s, 0)
}

/// Where a token starts and ends: within the text, the start on a character
/// that is no white space, the end on a separator, and no separator between.
pub proof fn lemma_token_bounds(sep: Separator, s: Seq<char>, from: int)
    requires
        0 <= from <= s.len(),
    ensures
        from <= token_start(sep, s, from) <= s.len(),
        from <= token_end(sep, s, from) <= s.len(),
        token_start(sep, s, from) < s.len() ==> !(sep == Separator::Blank && is_blank(
            s[token_start(sep, s, from)],
        )),
        sep != Separator::Blank ==> token_start(sep, s, from) == from,
        token_end(sep, s, from) < s.len() ==> separates(sep, s[token_end(sep, s, from)]),
        forall|i: int| from <= i < token_end(sep, s, from) ==> !separates(sep, #[trigger] s[i]),
    decreases s.len() - from,
{
    if from < s.len() {
        lemma_token_bounds(sep, s, from + 1);
    }
}

/// Whether a text holds no separator.
pub open spec fn unbroken(sep: Separator, token: Seq<char>) -> bool {
    forall|i: int| 0 <= i < token.len() ==> !separates(sep, #[trigger] token[i])
}

/// No token holds a separator, and under [`Separator::Blank`] no token is
/// empty.
pub proof fn lemma_tokens_unbroken(sep: Separator, s: Seq<char>, from: int)
    requires
        0 <= from <= s.len(),
    ensures
        forall|k: int|
            0 <= k < tokens_from(sep, s, from).len() ==> unbroken(
                sep,
                #[trigger] tokens_from(sep, s, from)[k],
            ) && (sep == Separator::Blank ==> tokens_from(sep, s, from)[k].len() > 0),
    decreases s.len() - from,
{
    let b = token_start(sep, s, from);
    lemma_token_bounds(sep, s, from);
    lemma_token_bounds(sep, s, b);
    let e = token_end(sep, s, b);
    let first = s.subrange(b, e);
    assert(unbroken(sep, first)) by {
        assert forall|i: int| 0 <= i < first.len() implies !separates(
            sep,
            #[trigger] first[i],
        ) by {
            assert(first[i] == s[b + i]);
        }
    }
    let all = tokens_from(sep, s, from);
    if sep == Separator::Blank {
        if !(b >= s.len() || e <= from || e > s.len()) {
            lemma_tokens_unbroken(sep, s, e);
            let rest = tokens_from(sep, s, e);
            assert(all == seq![first] + rest);
            assert forall|k: int| 0 <= k < all.len() implies unbroken(sep, #[trigger] all[k])
                && all[k].len() > 0 by {
                if k > 0 {
                    assert(all[k] == rest[k - 1]);
                } else {
                    assert(all[k] == first);
                    assert(!is_blank(s[b]));
                }
            }
        }
    } else {
        if e >= s.len() || e < from {
            assert(all == seq![first]);
        } else {
            lemma_tokens_unbroken(sep, s, e + 1);
            let rest = tokens_from(sep, s, e + 1);
            assert(all == seq![first] + rest);
            assert forall|k: int| 0 <= k < all.len() implies unbroken(sep, #[trigger] all[k]) by {
                if k > 0 {
                    assert(all[k] == rest[k - 1]);
                } else {
                    assert(all[k] == first);
                }
            }
        }
    }
}

/// The number of single spaces in a text from an index on.
pub open spec fn spaces_from(s: Seq<char>, from: int) -> nat
    decreases s.len() - from,
{
    if from < 0 || from >= s.len() {
        0
    } else if s[from] == ' ' {
        1 + spaces_from(s, from + 1)
    } else {
        spaces_from(s, from + 1)
    }
}

/// Single spaces cut a text into one token more than it has spaces.
pub proof fn lemma_space_tokens_count(s: Seq<char>, from: int)
    requires
        0 <= from <= s.len(),
    ensures
        tokens_from(Separator::Space, s, from).len() == spaces_from(s, from) + 1,
    decreases s.len() - from,
{
    let sep = Separator::Space;
    lemma_token_bounds(sep, s, from);
    let e = token_end(sep, s, from);
    lemma_spaces_before(s, from, e);
    if e < s.len() {
        lemma_space_tokens_count(s, e + 1);
    }
}

/// A stretch without spaces adds nothing to the number of spaces.
pub proof fn lemma_spaces_before(s: Seq<char>, from: int, upto: int)
    requires
        0 <= from <= upto <= s.len(),
        forall|i: int| from <= i < upto ==> s[i] != ' ',
    ensures
        spaces_from(s, from) == spaces_from(s, upto),
    decreases upto - from,
{
    if from < upto {
        lemma_spaces_before(s, from + 1, upto);
    }
}

/// The views of a list of owned strings.
pub open spec fn texts(v: Seq<String>) -> Seq<Seq<char>> {
    Seq::new(v.len(), |i: int| v[i]@)
}

/// Cuts `s` into its tokens.
pub fn split(sep: Separator, s: &str) -> (out: Vec<String>)
    ensures
        texts(out@) == tokens_of(sep, s@),
{
    let chars = chars_of(s);
    let n = chars.len();
    let mut out: Vec<String> = Vec::new();
    let mut pos: usize = 0;
    let mut done = false;
    while !done
        invariant
            chars@ == s@,
            n == chars.len(),
            pos <= n,
            !done ==> texts(out@) + tokens_from(sep, s@, pos as int) =~= tokens_of(sep, s@),
            done ==> texts(out@) =~= tokens_of(sep, s@),
        decreases (if done { 0int } else { 1int }), n - pos,
    {
        proof {
            lemma_token_bounds(sep, s@, pos as int);
            lemma_token_bounds(sep, s@, token_start(sep, s@, pos as int));
        }
        let mut b: usize = pos;
        if sep == Separator::Blank {
            while b < n && blank(chars[b])
                invariant
                    chars@ == s@,
                    n == chars.len(),
                    pos <= b <= n,
                    sep == Separator::Blank,
                    token_start(sep, s@, b as int) == token_start(sep, s@, pos as int),
                decreases n - b,
            {
                b += 1;
            }
        }
        let mut e: usize = b;
        while e < n && !ends_token(sep, chars[e])
            invariant
                chars@ == s@,
                n == chars.len(),
                b <= e <= n,
                token_end(sep, s@, e as int) == token_end(sep, s@, b as int),
            decreases n - e,
        {
            e += 1;
        }
        assert(b == token_start(sep, s@, pos as int));
        assert(e == token_end(sep, s@, b as int));
        let ghost before = texts(out@);
        if sep == Separator::Blank && b >= n {
            done = true;
        } else {
            let piece = s.substring_char(b, e).to_owned();
            out.push(piece);
            assert(texts(out@) =~= before + seq![s@.subrange(b as int, e as int)]);
            if sep == Separator::Blank {
                pos = e;
            } else if e >= n {
                done = true;
            } else {
                pos = e + 1;
            }
        }
    }
    out
}

/// The decimal digits.
pub open spec fn is_digit(c: char) -> bool {
    '0' <= c <= '9'
}

/// The first index at or after `from` that holds no decimal digit, or the length.
pub open spec fn digits_end(s: Seq<char>, from: int) -> int
    decreases s.len() - from,
{
    if 0 <= from < s.len() && is_digit(s[from]) {
        digits_end(s, from + 1)
    } else {
        from
    }
}

/// 1 where a sign stands at index `at`, else 0.
pub open spec fn sign_len(s: Seq<char>, at: int) -> int {
    if 0 <= at < s.len() && (s[at] == '+' || s[at] == '-') {
        1
    } else {
        0
    }
}

/// Whether `s`, from `at` to its end, is an exponent: `e` or `E`, an optional
/// sign, and at least one digit.
pub open spec fn is_exponent(s: Seq<char>, at: int) -> bool {
    let d = at + 1 + sign_len(s, at + 1);
    &&& 0 <= at < s.len()
    &&& (s[at] == 'e' || s[at] == 'E')
    &&& d < s.len()
    &&& digits_end(s, d) == s.len()
}

/// Whether `s`, from `from` to its end, is digits with at most one point among
/// them, at least one digit in all, and then an optional exponent.
pub open spec fn is_decimal(s: Seq<char>, from: int) -> bool {
    let a = digits_end(s, from);
    let b = if a < s.len() && s[a] == '.' {
        digits_end(s, a + 1)
    } else {
        a
    };
    let digit_count = (a - from) + (if b > a {
        b - a - 1
    } else {
        0
    });
    digit_count > 0 && (b == s.len() || is_exponent(s, b))
}

/// Whether `c` is the letter `lower`, in either case.
pub open spec fn is_letter(c: char, lower: char) -> bool {
    c == lower || (c as u32) + 32 == (lower as u32)
}

/// Whether `s`, from `from` to its end, spells `word` in any mix of cases.
pub open spec fn spells(s: Seq<char>, from: int, word: Seq<char>) -> bool {
    &&& 0 <= from
    &&& s.len() - from == word.len()
    &&& forall|i: int| 0 <= i < word.len() ==> is_letter(#[trigger] s[from + i], word[i])
}

/// Whether `s`, from `from` to its end, names an infinity or a value that is
/// no number.
pub open spec fn is_special(s: Seq<char>, from: int) -> bool {
    spells(s, from, seq!['i', 'n', 'f']) || spells(s, from, seq!['n', 'a', 'n']) || spells(
        s,
        from,
        seq!['i', 'n', 'f', 'i', 'n', 'i', 't', 'y'],
    )
}

/// The numerals: an optional sign, then a decimal number or a special word.
/// There is no white space in a numeral.
pub open spec fn is_numeral(s: Seq<char>) -> bool {
    let from = sign_len(s, 0);
    is_special(s, from) || is_decimal(s, from)
}

/// A run of digits lies within the text, holds digits only, and ends before
/// a character that is no digit.
pub proof fn lemma_digits_end(s: Seq<char>, from: int)
    requires
        0 <= from <= s.len(),
    ensures
        from <= digits_end(s, from) <= s.len(),
        forall|i: int| from <= i < digits_end(s, from) ==> is_digit(#[trigger] s[i]),
        digits_end(s, from) < s.len() ==> !is_digit(s[digits_end(s, from)]),
    decreases s.len() - from,
{
    if from < s.len() && is_digit(s[from]) {
        lemma_digits_end(s, from + 1);
    }
}

/// The index behind the digits that start at an index.
fn skip_digits(chars: &Vec<char>, from: usize) -> (end: usize)
    requires
        from <= chars.len(),
    ensures
        end == digits_end(chars@, from as int),
        from <= end <= chars.len(),
{
    let mut end: usize = from;
    while end < chars.len() && '0' <= chars[end] && chars[end] <= '9'
        invariant
            from <= end <= chars.len(),
            digits_end(chars@, end as int) == digits_end(chars@, from as int),
        decreases chars.len() - end,
    {
        end += 1;
    }
    end
}

/// Decides whether a character is a letter, in either case.
fn letter(c: char, lower: char) -> (r: bool)
    requires
        (lower as u32) >= 32,
    ensures
        r == is_letter(c, lower),
{
    let n: u32 = c as u32;
    let m: u32 = lower as u32;
    c == lower || n == m - 32
}

/// Decides whether the rest of a text spells a word in any mix of cases.
fn spelled(chars: &Vec<char>, from: usize, word: &Vec<char>) -> (r: bool)
    requires
        from <= chars.len(),
        forall|i: int| 0 <= i < word.len() ==> (#[trigger] word[i] as u32) >= 32,
    ensures
        r == spells(chars@, from as int, word@),
{
    if chars.len() - from != word.len() {
        return false;
    }
    let mut i: usize = 0;
    while i < word.len()
        invariant
            from <= chars.len(),
            chars.len() - from == word.len(),
            i <= word.len(),
            forall|j: int| 0 <= j < word.len() ==> (#[trigger] word[j] as u32) >= 32,
            forall|j: int| 0 <= j < i ==> is_letter(#[trigger] chars@[from + j], word@[j]),
        decreases word.len() - i,
    {
        if !letter(chars[from + i], word[i]) {
            return false;
        }
        i += 1;
    }
    true
}

/// Decides whether a text is a numeral.
pub fn numeral(s: &str) -> (r: bool)
    ensures
        r == is_numeral(s@),
{
    let chars = chars_of(s);
    let n = chars.len();
    let from: usize = if n > 0 && (chars[0] == '+' || chars[0] == '-') {
        1
    } else {
        0
    };
    let inf: Vec<char> = vec!['i', 'n', 'f'];
    let nan: Vec<char> = vec!['n', 'a', 'n'];
    let infinity: Vec<char> = vec!['i', 'n', 'f', 'i', 'n', 'i', 't', 'y'];
    assert(inf@ =~= seq!['i', 'n', 'f']);
    assert(nan@ =~= seq!['n', 'a', 'n']);
    assert(infinity@ =~= seq!['i', 'n', 'f', 'i', 'n', 'i', 't', 'y']);
    if spelled(&chars, from, &inf) || spelled(&chars, from, &nan) || spelled(
        &chars,
        from,
        &infinity,
    ) {
        return true;
    }
    let a = skip_digits(&chars, from);
    let b = if a < n && chars[a] == '.' {
        skip_digits(&chars, a + 1)
    } else {
        a
    };
    let digit_count = (a - from) + (if b > a {
        b - a - 1
    } else {
        0
    });
    if digit_count == 0 {
        return false;
    }
    if b == n {
        return true;
    }
    if !(chars[b] == 'e' || chars[b] == 'E') {
        return false;
    }
    let d: usize = if b + 1 < n && (chars[b + 1] == '+' || chars[b + 1] == '-') {
        b + 2
    } else {
        b + 1
    };
    if d >= n {
        return false;
    }
    skip_digits(&chars, d) == n
}

/// Whether every character of a text is a decimal digit.
pub open spec fn all_digits(s: Seq<char>) -> bool {
    forall|i: int| 0 <= i < s.len() ==> is_digit(#[trigger] s[i])
}

/// The mantissa of a number: digits, or digits with one point before, among
/// or behind them.
pub open spec fn is_mantissa(s: Seq<char>) -> bool {
    ||| s.len() > 0 && all_digits(s)
    ||| exists|d: int|
        0 <= d < s.len() && s.len() > 1 && s[d] == '.' && all_digits(#[trigger] s.take(d))
            && all_digits(s.skip(d + 1))
}

/// The exponent of a number: `e` or `E`, an optional sign, and digits.
pub open spec fn is_exponent_text(s: Seq<char>) -> bool {
    &&& s.len() >= 1
    &&& (s[0] == 'e' || s[0] == 'E')
    &&& s.skip(1 + sign_len(s, 1)).len() > 0
    &&& all_digits(s.skip(1 + sign_len(s, 1)))
}

/// A number: a mantissa, and an exponent or nothing behind it.
pub open spec fn is_number_text(s: Seq<char>) -> bool {
    exists|m: int|
        0 <= m <= s.len() && is_mantissa(#[trigger] s.take(m)) && (m == s.len()
            || is_exponent_text(s.skip(m)))
}

/// The texts that are read as real numbers, as a grammar:
///
/// ```text
/// Float    ::= Sign? ( inf | infinity | nan | Number )     in any mix of cases
/// Number   ::= Mantissa Exponent?
/// Mantissa ::= Digit+ | Digit+ '.' Digit* | Digit* '.' Digit+
/// Exponent ::= ( 'e' | 'E' ) Sign? Digit+
/// ```
pub open spec fn is_float_text(s: Seq<char>) -> bool {
    let body = s.skip(sign_len(s, 0));
    is_special(body, 0) || is_number_text(body)
}

/// A run of digits ends where the first character that is no digit stands.
pub proof fn lemma_digits_run(s: Seq<char>, from: int, end: int)
    requires
        0 <= from <= end <= s.len(),
        forall|i: int| from <= i < end ==> is_digit(#[trigger] s[i]),
        end == s.len() || !is_digit(s[end]),
    ensures
        digits_end(s, from) == end,
    decreases end - from,
{
    if from < end {
        lemma_digits_run(s, from + 1, end);
    }
}

/// An exponent found by scanning is an exponent of the grammar, and the other
/// way round.
proof fn lemma_exponent_text(s: Seq<char>, at: int)
    requires
        0 <= at < s.len(),
    ensures
        is_exponent(s, at) <==> is_exponent_text(s.skip(at)),
{
    let t = s.skip(at);
    let d = at + 1 + sign_len(s, at + 1);
    assert(t[0] == s[at]);
    if at + 1 < s.len() {
        assert(t[1] == s[at + 1]);
    }
    assert(sign_len(t, 1) == sign_len(s, at + 1));
    let u = t.skip(1 + sign_len(t, 1));
    if d <= s.len() {
        assert(u =~= s.skip(d));
        assert forall|i: int| 0 <= i < u.len() implies u[i] == s[d + i] by {}
        if is_exponent(s, at) {
            lemma_digits_end(s, d);
            assert forall|i: int| 0 <= i < u.len() implies is_digit(#[trigger] u[i]) by {
                assert(u[i] == s[d + i]);
            }
        }
        if is_exponent_text(t) {
            assert forall|i: int| d <= i < s.len() implies is_digit(#[trigger] s[i]) by {
                assert(u[i - d] == s[i]);
            }
            lemma_digits_run(s, d, s.len() as int);
        }
    }
}

/// A decimal found by scanning is a number of the grammar.
proof fn lemma_decimal_is_number(s: Seq<char>, from: int)
    requires
        0 <= from <= s.len(),
        is_decimal(s, from),
    ensures
        is_number_text(s.skip(from)),
{
    let body = s.skip(from);
    lemma_digits_end(s, from);
    let a = digits_end(s, from);
    let dotted = a < s.len() && s[a] == '.';
    if dotted {
        lemma_digits_end(s, a + 1);
    }
    let b = if dotted {
        digits_end(s, a + 1)
    } else {
        a
    };
    let m = b - from;
    let mantissa = body.take(m);
    assert forall|i: int| 0 <= i < mantissa.len() implies mantissa[i] == s[from + i] by {}
    if dotted {
        let d = a - from;
        assert(mantissa[d] == '.');
        assert forall|i: int| 0 <= i < mantissa.take(d).len() implies is_digit(
            #[trigger] mantissa.take(d)[i],
        ) by {
            assert(mantissa.take(d)[i] == s[from + i]);
        }
        assert forall|i: int| 0 <= i < mantissa.skip(d + 1).len() implies is_digit(
            #[trigger] mantissa.skip(d + 1)[i],
        ) by {
            assert(mantissa.skip(d + 1)[i] == s[a + 1 + i]);
        }
        assert(all_digits(mantissa.take(d)));
        assert(all_digits(mantissa.skip(d + 1)));
        assert(mantissa.len() > 1);
        assert(0 <= d < mantissa.len());
        assert(is_mantissa(mantissa));
    } else {
        assert forall|i: int| 0 <= i < mantissa.len() implies is_digit(#[trigger] mantissa[i]) by {
            assert(mantissa[i] == s[from + i]);
        }
        assert(is_mantissa(mantissa));
    }
    if b < s.len() {
        lemma_exponent_text(s, b);
        assert(body.skip(m) =~= s.skip(b));
    }
    assert(is_mantissa(body.take(m)));
}

/// A number of the grammar is found by scanning.
proof fn lemma_number_is_decimal(s: Seq<char>, from: int)
    requires
        0 <= from <= s.len(),
        is_number_text(s.skip(from)),
    ensures
        is_decimal(s, from),
{
    let body = s.skip(from);
    let m = choose|m: int|
        0 <= m <= body.len() && is_mantissa(#[trigger] body.take(m)) && (m == body.len()
            || is_exponent_text(body.skip(m)));
    let mantissa = body.take(m);
    let b = from + m;
    assert forall|i: int| 0 <= i < mantissa.len() implies mantissa[i] == s[from + i] by {}
    if b < s.len() {
        assert(body.skip(m) =~= s.skip(b));
        lemma_exponent_text(s, b);
        assert(s.skip(b)[0] == s[b]);
        assert(!is_digit(s[b]) && s[b] != '.');
    }
    if mantissa.len() > 0 && all_digits(mantissa) {
        assert forall|i: int| from <= i < b implies is_digit(#[trigger] s[i]) by {
            assert(mantissa[i - from] == s[i]);
        }
        lemma_digits_run(s, from, b);
    } else {
        let d = choose|d: int|
            0 <= d < mantissa.len() && mantissa.len() > 1 && mantissa[d] == '.' && all_digits(
                #[trigger] mantissa.take(d),
            ) && all_digits(mantissa.skip(d + 1));
        let a = from + d;
        assert(s[a] == '.');
        assert forall|i: int| from <= i < a implies is_digit(#[trigger] s[i]) by {
            assert(mantissa.take(d)[i - from] == s[i]);
        }
        lemma_digits_run(s, from, a);
        assert forall|i: int| a + 1 <= i < b implies is_digit(#[trigger] s[i]) by {
            assert(mantissa.skip(d + 1)[i - a - 1] == s[i]);
        }
        lemma_digits_run(s, a + 1, b);
    }
}

/// A special word is the same word wherever the text is taken to start.
proof fn lemma_special_text(s: Seq<char>, from: int)
    requires
        0 <= from <= s.len(),
    ensures
        is_special(s, from) <==> is_special(s.skip(from), 0),
{
    let body = s.skip(from);
    assert forall|word: Seq<char>| spells(s, from, word) <==> spells(body, 0, word) by {
        if spells(s, from, word) {
            assert forall|i: int| 0 <= i < word.len() implies is_letter(
                #[trigger] body[0 + i],
                word[i],
            ) by {
                assert(body[i] == s[from + i]);
            }
        }
        if spells(body, 0, word) {
            assert forall|i: int| 0 <= i < word.len() implies is_letter(
                #[trigger] s[from + i],
                word[i],
            ) by {
                assert(body[0 + i] == s[from + i]);
            }
        }
    }
}

/// The numerals are the texts of the grammar of real numbers.
pub proof fn lemma_numeral_grammar(s: Seq<char>)
    ensures
        is_numeral(s) <==> is_float_text(s),
{
    let from = sign_len(s, 0);
    lemma_special_text(s, from);
    if is_decimal(s, from) {
        lemma_decimal_is_number(s, from);
    }
    if is_number_text(s.skip(from)) {
        lemma_number_is_decimal(s, from);
    }
}

} // verus!
