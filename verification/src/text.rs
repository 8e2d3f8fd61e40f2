//! Character-level utilities shared by the parser and the answer codec.

use vstd::prelude::*;

verus! {

broadcast use vstd::seq_lib::lemma_seq_skip_of_skip;

/// The Unicode `White_Space` code points, as `char::is_whitespace` sees them.
pub open spec fn is_ws(c: char) -> bool {
    ||| c == '\u{0009}'
    ||| c == '\u{000A}'
    ||| c == '\u{000B}'
    ||| c == '\u{000C}'
    ||| c == '\u{000D}'
    ||| c == ' '
    ||| c == '\u{0085}'
    ||| c == '\u{00A0}'
    ||| c == '\u{1680}'
    ||| ('\u{2000}' <= c && c <= '\u{200A}')
    ||| c == '\u{2028}'
    ||| c == '\u{2029}'
    ||| c == '\u{202F}'
    ||| c == '\u{205F}'
    ||| c == '\u{3000}'
}

/// Executable test for [`is_ws`].
#[verifier::when_used_as_spec(is_ws)]
pub fn is_ws_char(c: char) -> (r: bool)
    ensures
        r == is_ws(c),
{
    c == '\u{0009}' || c == '\u{000A}' || c == '\u{000B}' || c == '\u{000C}' || c == '\u{000D}'
        || c == ' ' || c == '\u{0085}' || c == '\u{00A0}' || c == '\u{1680}'
        || ('\u{2000}' <= c && c <= '\u{200A}') || c == '\u{2028}' || c == '\u{2029}'
        || c == '\u{202F}' || c == '\u{205F}' || c == '\u{3000}'
}

pub open spec fn is_digit(c: char) -> bool {
    '0' <= c && c <= '9'
}

/// Executable test for [`is_digit`].
#[verifier::when_used_as_spec(is_digit)]
pub fn is_digit_char(c: char) -> (r: bool)
    ensures
        r == is_digit(c),
{
    '0' <= c && c <= '9'
}

/// ASCII lowercasing of one character, as `char::to_ascii_lowercase` does it.
pub open spec fn lower(c: char) -> char {
    if 'A' <= c && c <= 'Z' {
        (c as u32 + 32) as char
    } else {
        c
    }
}

/// A sequence, ASCII-lowercased character by character.
pub open spec fn lower_seq(s: Seq<char>) -> Seq<char> {
    Seq::new(s.len(), |i: int| lower(s[i]))
}

/// Executable ASCII lowercasing of one character.
pub fn lower_char(c: char) -> (r: char)
    ensures
        r == lower(c),
{
    match c {
        'A' => 'a',
        'B' => 'b',
        'C' => 'c',
        'D' => 'd',
        'E' => 'e',
        'F' => 'f',
        'G' => 'g',
        'H' => 'h',
        'I' => 'i',
        'J' => 'j',
        'K' => 'k',
        'L' => 'l',
        'M' => 'm',
        'N' => 'n',
        'O' => 'o',
        'P' => 'p',
        'Q' => 'q',
        'R' => 'r',
        'S' => 's',
        'T' => 't',
        'U' => 'u',
        'V' => 'v',
        'W' => 'w',
        'X' => 'x',
        'Y' => 'y',
        'Z' => 'z',
        _ => c,
    }
}

/// The characters of a string slice, in order.
pub fn str_to_chars(s: &str) -> (v: Vec<char>)
    ensures
        v@ == s@,
{
    let n = s.unicode_len();
    let mut v: Vec<char> = Vec::new();
    let mut i: usize = 0;
    while i < n
        invariant
            i <= n,
            n == s@.len(),
            v@ == s@.take(i as int),
        decreases n - i,
    {
        let c = s.get_char(i);
        v.push(c);
        proof {
            assert(s@.take(i + 1 as int) =~= s@.take(i as int).push(s@[i as int]));
        }
        i += 1;
    }
    proof {
        assert(s@.take(n as int) =~= s@);
    }
    v
}

/// Relies on `String`'s `FromIterator` impl: collecting the characters of the
/// vector yields the string of exactly those characters, in order.
#[verifier::external_body]
pub fn chars_to_string(v: &Vec<char>) -> (s: String)
    ensures
        s@ == v@,
{
    v.iter().collect()
}

/// A copy of the characters of `v` between `from` and `to`.
pub fn sub_chars(v: &Vec<char>, from: usize, to: usize) -> (r: Vec<char>)
    requires
        from <= to <= v.len(),
    ensures
        r@ == v@.subrange(from as int, to as int),
{
    let mut r: Vec<char> = Vec::new();
    let mut i: usize = from;
    while i < to
        invariant
            from <= i <= to <= v.len(),
            r@ == v@.subrange(from as int, i as int),
        decreases to - i,
    {
        r.push(v[i]);
        proof {
            assert(v@.subrange(from as int, i + 1 as int) =~= v@.subrange(
                from as int,
                i as int,
            ).push(v@[i as int]));
        }
        i += 1;
    }
    r
}

/// A sequence without its leading whitespace.
pub open spec fn trim_start_ws(s: Seq<char>) -> Seq<char>
    decreases s.len(),
{
    if s.len() > 0 && is_ws(s[0]) {
        trim_start_ws(s.drop_first())
    } else {
        s
    }
}

/// A sequence without its trailing whitespace.
pub open spec fn trim_end_ws(s: Seq<char>) -> Seq<char>
    decreases s.len(),
{
    if s.len() > 0 && is_ws(s.last()) {
        trim_end_ws(s.drop_last())
    } else {
        s
    }
}

/// A sequence without leading and trailing whitespace.
pub open spec fn trim_ws(s: Seq<char>) -> Seq<char> {
    trim_end_ws(trim_start_ws(s))
}

/// Executable version of [`trim_start_ws`].
pub fn trim_start_chars(v: &Vec<char>) -> (r: Vec<char>)
    ensures
        r@ == trim_start_ws(v@),
{
    let n = v.len();
    let mut i: usize = 0;
    proof {
        assert(v@.skip(0) =~= v@);
    }
    while i < n && is_ws_char(v[i])
        invariant
            i <= n,
            n == v.len(),
            trim_start_ws(v@) == trim_start_ws(v@.skip(i as int)),
        decreases n - i,
    {
        proof {
            assert(v@.skip(i as int).drop_first() =~= v@.skip(i + 1 as int));
        }
        i += 1;
    }
    proof {
        assert(v@.skip(i as int).subrange(0, (n - i) as int) =~= v@.skip(i as int));
    }
    sub_chars(v, i, n)
}

/// Executable version of [`trim_end_ws`].
pub fn trim_end_chars(v: &Vec<char>) -> (r: Vec<char>)
    ensures
        r@ == trim_end_ws(v@),
{
    let mut j: usize = v.len();
    proof {
        assert(v@.take(v@.len() as int) =~= v@);
    }
    while j > 0 && is_ws_char(v[j - 1])
        invariant
            j <= v.len(),
            trim_end_ws(v@) == trim_end_ws(v@.take(j as int)),
        decreases j,
    {
        proof {
            assert(v@.take(j as int).drop_last() =~= v@.take(j - 1 as int));
        }
        j -= 1;
    }
    proof {
        assert(v@.take(j as int).subrange(0, j as int) =~= v@.take(j as int));
        assert(v@.subrange(0, j as int) =~= v@.take(j as int));
    }
    sub_chars(v, 0, j)
}

/// Executable version of [`trim_ws`].
pub fn trim_chars(v: &Vec<char>) -> (r: Vec<char>)
    ensures
        r@ == trim_ws(v@),
{
    let t = trim_start_chars(v);
    trim_end_chars(&t)
}

/// Whether `p` occurs in `s` starting at position `i`.
pub open spec fn matches_at(s: Seq<char>, p: Seq<char>, i: int) -> bool {
    0 <= i && i + p.len() <= s.len() && s.subrange(i, i + p.len()) == p
}

/// The position of the first occurrence of `p` in `s`, if any.
pub open spec fn find(s: Seq<char>, p: Seq<char>) -> Option<int>
    decreases s.len(),
{
    if p.len() > s.len() {
        None
    } else if p.len() == 0 {
        Some(0)
    } else if s.subrange(0, p.len() as int) == p {
        Some(0)
    } else {
        match find(s.drop_first(), p) {
            Some(i) => Some(i + 1),
            None => None,
        }
    }
}

/// Where `find` answers, it answers with the first match; where it does not,
/// there is no match.
pub proof fn lemma_find_props(s: Seq<char>, p: Seq<char>)
    ensures
        match find(s, p) {
            Some(i) => 0 <= i && i + p.len() <= s.len() && matches_at(s, p, i) && forall|j: int|
                0 <= j < i ==> !matches_at(s, p, j),
            None => forall|j: int| !matches_at(s, p, j),
        },
    decreases s.len(),
{
    if p.len() > s.len() {
        assert forall|j: int| !matches_at(s, p, j) by {
            assert(j + p.len() > s.len() || j < 0);
        }
    } else if p.len() == 0 {
        assert(s.subrange(0, 0) =~= p);
    } else if s.subrange(0, p.len() as int) == p {
    } else {
        lemma_find_props(s.drop_first(), p);
        assert forall|j: int| 1 <= j implies (matches_at(s, p, j) == matches_at(
            s.drop_first(),
            p,
            j - 1,
        )) by {
            if j + p.len() <= s.len() {
                assert(s.drop_first().subrange(j - 1, j - 1 + p.len()) =~= s.subrange(
                    j,
                    j + p.len(),
                ));
            }
        }
        assert(!matches_at(s, p, 0));
    }
}

/// An option shifted by an offset.
pub open spec fn opt_shift(o: Option<int>, d: int) -> Option<int> {
    match o {
        Some(i) => Some(i + d),
        None => None,
    }
}

/// Whether `p` occurs anywhere in `s`.
pub open spec fn contains_seq(s: Seq<char>, p: Seq<char>) -> bool {
    find(s, p) is Some
}

/// Whether `v` matches `p` at position `i`, executably.
fn matches_at_exec(v: &Vec<char>, p: &Vec<char>, i: usize) -> (r: bool)
    requires
        i + p.len() <= v.len(),
    ensures
        r == matches_at(v@, p@, i as int),
{
    let m = p.len();
    let mut j: usize = 0;
    while j < m
        invariant
            j <= m,
            m == p.len(),
            i + m <= v.len(),
            forall|k: int| 0 <= k < j ==> v@[i + k] == p@[k],
        decreases m - j,
    {
        if v[i + j] != p[j] {
            proof {
                assert(v@.subrange(i as int, i + m) != p@) by {
                    assert(v@.subrange(i as int, i + m)[j as int] == v@[i + j]);
                }
            }
            return false;
        }
        j += 1;
    }
    proof {
        assert(v@.subrange(i as int, i + m) =~= p@);
    }
    true
}

/// The position of the first occurrence of `p` at or after `start` in `v`.
pub fn find_sub_from(v: &Vec<char>, p: &Vec<char>, start: usize) -> (r: Option<usize>)
    requires
        start <= v.len(),
    ensures
        match r {
            Some(i) => opt_shift(find(v@.skip(start as int), p@), start as int) == Some(i as int),
            None => find(v@.skip(start as int), p@) is None,
        },
{
    if p.len() > v.len() - start {
        return None;
    }
    if p.len() == 0 {
        proof {
            assert(v@.skip(start as int).subrange(0, 0) =~= p@);
        }
        return Some(start);
    }
    let last_start = v.len() - p.len();
    let mut i: usize = start;
    loop
        invariant
            start <= i <= last_start + 1,
            i <= v.len(),
            1 <= p.len() <= v.len() - start,
            last_start == v.len() - p.len(),
            find(v@.skip(start as int), p@) == opt_shift(find(v@.skip(i as int), p@), i - start),
        decreases last_start + 1 - i,
    {
        if i > last_start {
            return None;
        }
        proof {
            assert(v@.skip(i as int).subrange(0, p@.len() as int) =~= v@.subrange(
                i as int,
                i + p@.len(),
            ));
        }
        if matches_at_exec(v, p, i) {
            return Some(i);
        }
        proof {
            assert(v@.skip(i as int).drop_first() =~= v@.skip(i + 1 as int));
        }
        i += 1;
    }
}

/// The position of the first occurrence of `p` in `v`.
pub fn find_sub(v: &Vec<char>, p: &Vec<char>) -> (r: Option<usize>)
    ensures
        match r {
            Some(i) => find(v@, p@) == Some(i as int),
            None => find(v@, p@) is None,
        },
{
    proof {
        assert(v@.skip(0) =~= v@);
    }
    find_sub_from(v, p, 0)
}

/// Whether `p` occurs anywhere in `v`, executably.
pub fn contains_chars(v: &Vec<char>, p: &Vec<char>) -> (r: bool)
    ensures
        r == contains_seq(v@, p@),
{
    find_sub(v, p).is_some()
}

/// Executable version of [`lower_seq`].
pub fn lower_chars(v: &Vec<char>) -> (r: Vec<char>)
    ensures
        r@ == lower_seq(v@),
{
    let n = v.len();
    let mut r: Vec<char> = Vec::new();
    let mut i: usize = 0;
    while i < n
        invariant
            i <= n,
            n == v.len(),
            r@ == lower_seq(v@).take(i as int),
        decreases n - i,
    {
        r.push(lower_char(v[i]));
        proof {
            assert(lower_seq(v@).take(i + 1 as int) =~= lower_seq(v@).take(i as int).push(
                lower_seq(v@)[i as int],
            ));
        }
        i += 1;
    }
    proof {
        assert(lower_seq(v@).take(n as int) =~= lower_seq(v@));
    }
    r
}

/// Whether two character vectors hold the same characters.
pub fn chars_eq(v: &Vec<char>, w: &Vec<char>) -> (r: bool)
    ensures
        r == (v@ == w@),
{
    let n = v.len();
    if n != w.len() {
        return false;
    }
    let mut i: usize = 0;
    while i < n
        invariant
            i <= n,
            n == v.len() == w.len(),
            forall|k: int| 0 <= k < i ==> v@[k] == w@[k],
        decreases n - i,
    {
        if v[i] != w[i] {
            return false;
        }
        i += 1;
    }
    proof {
        assert(v@ =~= w@);
    }
    true
}

/// Whether every character of `v` lowercases to the corresponding one of `w`.
pub fn eq_ignore_case(v: &Vec<char>, w: &Vec<char>) -> (r: bool)
    ensures
        r == (lower_seq(v@) == lower_seq(w@)),
{
    let n = v.len();
    if n != w.len() {
        proof {
            assert(lower_seq(v@).len() != lower_seq(w@).len());
        }
        return false;
    }
    let mut i: usize = 0;
    while i < n
        invariant
            i <= n,
            n == v.len() == w.len(),
            forall|k: int| 0 <= k < i ==> lower_seq(v@)[k] == lower_seq(w@)[k],
        decreases n - i,
    {
        if lower_char(v[i]) != lower_char(w[i]) {
            proof {
                assert(lower_seq(v@)[i as int] != lower_seq(w@)[i as int]);
            }
            return false;
        }
        i += 1;
    }
    proof {
        assert(lower_seq(v@) =~= lower_seq(w@));
    }
    true
}

/// Whether `s` begins with `p`.
pub open spec fn starts_with(s: Seq<char>, p: Seq<char>) -> bool {
    p.len() <= s.len() && s.subrange(0, p.len() as int) == p
}

/// Executable version of [`starts_with`].
pub fn starts_with_chars(v: &Vec<char>, p: &Vec<char>) -> (r: bool)
    ensures
        r == starts_with(v@, p@),
{
    if p.len() > v.len() {
        return false;
    }
    matches_at_exec(v, p, 0)
}

/// A sequence without its leading `#` characters.
pub open spec fn strip_hashes(s: Seq<char>) -> Seq<char>
    decreases s.len(),
{
    if s.len() > 0 && s[0] == '#' {
        strip_hashes(s.drop_first())
    } else {
        s
    }
}

/// Executable version of [`strip_hashes`].
pub fn strip_leading_hashes(v: &Vec<char>) -> (r: Vec<char>)
    ensures
        r@ == strip_hashes(v@),
{
    let n = v.len();
    let mut i: usize = 0;
    proof {
        assert(v@.skip(0) =~= v@);
    }
    while i < n && v[i] == '#'
        invariant
            i <= n,
            n == v.len(),
            strip_hashes(v@) == strip_hashes(v@.skip(i as int)),
        decreases n - i,
    {
        proof {
            assert(v@.skip(i as int).drop_first() =~= v@.skip(i + 1 as int));
        }
        i += 1;
    }
    proof {
        assert(v@.skip(i as int).subrange(0, (n - i) as int) =~= v@.skip(i as int));
    }
    sub_chars(v, i, n)
}

/// The punctuation stripped from the front of a question prompt.
pub open spec fn is_prompt_punct(c: char) -> bool {
    c == ':' || c == '-' || c == '\u{2014}'
}

/// A sequence without its leading prompt punctuation.
pub open spec fn strip_punct(s: Seq<char>) -> Seq<char>
    decreases s.len(),
{
    if s.len() > 0 && is_prompt_punct(s[0]) {
        strip_punct(s.drop_first())
    } else {
        s
    }
}

/// Executable version of [`strip_punct`].
pub fn strip_leading_punct(v: &Vec<char>) -> (r: Vec<char>)
    ensures
        r@ == strip_punct(v@),
{
    let n = v.len();
    let mut i: usize = 0;
    proof {
        assert(v@.skip(0) =~= v@);
    }
    while i < n && (v[i] == ':' || v[i] == '-' || v[i] == '\u{2014}')
        invariant
            i <= n,
            n == v.len(),
            strip_punct(v@) == strip_punct(v@.skip(i as int)),
        decreases n - i,
    {
        proof {
            assert(v@.skip(i as int).drop_first() =~= v@.skip(i + 1 as int));
        }
        i += 1;
    }
    proof {
        assert(v@.skip(i as int).subrange(0, (n - i) as int) =~= v@.skip(i as int));
    }
    sub_chars(v, i, n)
}

/// The numeric value of a decimal digit character.
pub open spec fn digit_val(c: char) -> int {
    c as u32 - 48
}

/// The value of a string of decimal digits.
pub open spec fn digits_val(s: Seq<char>) -> int
    decreases s.len(),
{
    if s.len() == 0 {
        0
    } else {
        digits_val(s.drop_last()) * 10 + digit_val(s.last())
    }
}

proof fn lemma_digits_val_bounds(s: Seq<char>)
    requires
        forall|i: int| 0 <= i < s.len() ==> is_digit(s[i]),
    ensures
        digits_val(s) >= 0,
        forall|i: int|
            0 <= i <= s.len() ==> digits_val(#[trigger] s.take(i)) <= digits_val(s),
    decreases s.len(),
{
    if s.len() > 0 {
        assert(forall|i: int| 0 <= i < s.drop_last().len() ==> is_digit(s.drop_last()[i]));
        lemma_digits_val_bounds(s.drop_last());
        assert forall|i: int| 0 <= i <= s.len() implies digits_val(#[trigger] s.take(i))
            <= digits_val(s) by {
            if i < s.len() {
                assert(s.drop_last().take(i) =~= s.take(i));
            } else {
                assert(s.take(i) =~= s);
            }
        }
    } else {
        assert forall|i: int| 0 <= i <= s.len() implies digits_val(#[trigger] s.take(i))
            <= digits_val(s) by {
            assert(s.take(i) =~= s);
        }
    }
}

/// The value of a vector of decimal digits, where it fits in `usize`.
pub fn parse_usize(v: &Vec<char>) -> (r: Option<usize>)
    requires
        forall|i: int| 0 <= i < v@.len() ==> is_digit(v@[i]),
    ensures
        match r {
            Some(n) => digits_val(v@) == n as int,
            None => digits_val(v@) > usize::MAX as int,
        },
{
    let n = v.len();
    let mut acc: usize = 0;
    let mut i: usize = 0;
    while i < n
        invariant
            i <= n,
            n == v.len(),
            forall|k: int| 0 <= k < v@.len() ==> is_digit(v@[k]),
            acc as int == digits_val(v@.take(i as int)),
        decreases n - i,
    {
        let c = v[i];
        let d = (c as u32 - 48) as usize;
        proof {
            assert(v@.take(i + 1 as int).drop_last() =~= v@.take(i as int));
            assert(v@.take(i + 1 as int).last() == v@[i as int]);
        }
        let shifted = match acc.checked_mul(10) {
            Some(s) => s,
            None => {
                proof {
                    lemma_digits_val_bounds(v@);
                    assert(digit_val(v@[i as int]) >= 0);
                    assert(v@.take(v@.len() as int) =~= v@);
                }
                return None;
            },
        };
        let next = match shifted.checked_add(d) {
            Some(s) => s,
            None => {
                proof {
                    lemma_digits_val_bounds(v@);
                    assert(v@.take(v@.len() as int) =~= v@);
                }
                return None;
            },
        };
        acc = next;
        i += 1;
    }
    proof {
        assert(v@.take(n as int) =~= v@);
    }
    Some(acc)
}

/// The decimal digit character for a value below ten.
pub open spec fn digit_char(d: int) -> char {
    if d == 0 {
        '0'
    } else if d == 1 {
        '1'
    } else if d == 2 {
        '2'
    } else if d == 3 {
        '3'
    } else if d == 4 {
        '4'
    } else if d == 5 {
        '5'
    } else if d == 6 {
        '6'
    } else if d == 7 {
        '7'
    } else if d == 8 {
        '8'
    } else {
        '9'
    }
}

/// The decimal digits of a non-negative number.
pub open spec fn dec_digits(n: int) -> Seq<char>
    decreases n,
{
    if n < 10 {
        seq![digit_char(n)]
    } else {
        dec_digits(n / 10).push(digit_char(n % 10))
    }
}

fn digit_char_exec(d: usize) -> (r: char)
    requires
        d < 10,
    ensures
        r == digit_char(d as int),
{
    match d {
        0 => '0',
        1 => '1',
        2 => '2',
        3 => '3',
        4 => '4',
        5 => '5',
        6 => '6',
        7 => '7',
        8 => '8',
        _ => '9',
    }
}

/// The decimal representation of `n`.
pub fn usize_to_chars(n: usize) -> (r: Vec<char>)
    ensures
        r@ == dec_digits(n as int),
    decreases n,
{
    if n < 10 {
        let mut v: Vec<char> = Vec::new();
        v.push(digit_char_exec(n));
        proof {
            assert(v@ =~= seq![digit_char(n as int)]);
        }
        v
    } else {
        let mut v = usize_to_chars(n / 10);
        v.push(digit_char_exec(n % 10));
        v
    }
}

/// The longest whitespace-free prefix of `s`.
pub open spec fn word_prefix(s: Seq<char>) -> Seq<char>
    decreases s.len(),
{
    if s.len() == 0 || is_ws(s[0]) {
        Seq::empty()
    } else {
        seq![s[0]] + word_prefix(s.drop_first())
    }
}

/// The whitespace-separated words of `s`, in order.
pub open spec fn words(s: Seq<char>) -> Seq<Seq<char>>
    decreases s.len() via words_decreases
{
    if s.len() == 0 {
        Seq::empty()
    } else if is_ws(s[0]) {
        words(s.drop_first())
    } else {
        seq![word_prefix(s)] + words(s.skip(word_prefix(s).len() as int))
    }
}

#[via_fn]
proof fn words_decreases(s: Seq<char>) {
    lemma_word_prefix_len(s);
}

/// A word prefix is never longer than the sequence, and is non-empty exactly
/// when the sequence opens with a non-whitespace character.
pub proof fn lemma_word_prefix_len(s: Seq<char>)
    ensures
        word_prefix(s).len() <= s.len(),
        s.len() > 0 && !is_ws(s[0]) ==> word_prefix(s).len() >= 1,
    decreases s.len(),
{
    if s.len() > 0 && !is_ws(s[0]) {
        lemma_word_prefix_len(s.drop_first());
    }
}

/// Words joined by single spaces.
pub open spec fn join_words(ws: Seq<Seq<char>>) -> Seq<char>
    decreases ws.len(),
{
    if ws.len() == 0 {
        Seq::empty()
    } else if ws.len() == 1 {
        ws[0]
    } else {
        ws[0] + seq![' '] + join_words(ws.drop_first())
    }
}

/// `s` with every whitespace run collapsed to one space and the ends trimmed.
pub open spec fn normalize_ws(s: Seq<char>) -> Seq<char> {
    join_words(words(s))
}

spec fn norm_rest(out: Seq<char>, glue: bool, rest: Seq<Seq<char>>) -> Seq<char> {
    if rest.len() == 0 {
        out
    } else if glue || out.len() == 0 {
        out + join_words(rest)
    } else {
        out + seq![' '] + join_words(rest)
    }
}

/// Executable version of [`normalize_ws`].
#[verifier::rlimit(50)]
pub fn normalize_chars(v: &Vec<char>) -> (r: Vec<char>)
    ensures
        r@ == normalize_ws(v@),
{
    let n = v.len();
    let mut out: Vec<char> = Vec::new();
    let mut in_word = false;
    let mut i: usize = 0;
    proof {
        assert(v@.skip(0) =~= v@);
    }
    while i < n
        invariant
            i <= n,
            n == v.len(),
            in_word ==> out@.len() > 0,
            normalize_ws(v@) == norm_rest(
                out@,
                in_word && i < v@.len() && !is_ws(v@[i as int]),
                words(v@.skip(i as int)),
            ),
        decreases n - i,
    {
        let c = v[i];
        proof {
            assert(v@.skip(i as int).drop_first() =~= v@.skip(i + 1 as int));
        }
        if is_ws_char(c) {
            in_word = false;
        } else {
            let ghost out0 = out@;
            let ghost glue0 = in_word;
            if !in_word && !out.is_empty() {
                out.push(' ');
            }
            out.push(c);
            in_word = true;
            proof {
                let su = v@.skip(i as int);
                let nx = v@.skip(i + 1 as int);
                let w = word_prefix(su);
                assert(su[0] == c);
                assert(w == seq![c] + word_prefix(nx));
                assert(w.len() >= 1);
                let glue1 = i + 1 < v@.len() && !is_ws(v@[i + 1]);
                let sep: Seq<char> = if glue0 || out0.len() == 0 {
                    Seq::empty()
                } else {
                    seq![' ']
                };
                assert(out@ =~= out0 + sep + seq![c]);
                if glue1 {
                    let wn = word_prefix(nx);
                    assert(nx.len() > 0 && !is_ws(nx[0]));
                    lemma_word_prefix_len(nx);
                    assert(wn.len() >= 1);
                    assert(su.skip(w.len() as int) =~= nx.skip(wn.len() as int));
                    let rest = words(su.skip(w.len() as int));
                    assert(words(su) == seq![w] + rest);
                    assert(words(nx) == seq![wn] + rest);
                    if rest.len() == 0 {
                        assert(join_words(words(su)) =~= seq![c] + join_words(words(nx)));
                    } else {
                        assert(words(su).drop_first() =~= rest);
                        assert(words(nx).drop_first() =~= rest);
                        assert(join_words(words(su)) == w + seq![' '] + join_words(rest));
                        assert(join_words(words(nx)) == wn + seq![' '] + join_words(rest));
                        assert(join_words(words(su)) =~= seq![c] + join_words(words(nx)));
                    }
                    assert(norm_rest(out@, true, words(nx)) =~= norm_rest(out0, glue0, words(su)));
                } else {
                    assert(word_prefix(nx) =~= Seq::<char>::empty());
                    assert(w =~= seq![c]);
                    assert(su.skip(w.len() as int) =~= nx);
                    let rest = words(nx);
                    assert(words(su) == seq![w] + rest);
                    if rest.len() == 0 {
                        assert(join_words(words(su)) =~= seq![c]);
                        assert(norm_rest(out@, false, rest) =~= norm_rest(out0, glue0, words(su)));
                    } else {
                        assert(words(su).drop_first() =~= rest);
                        assert(join_words(words(su)) == w + seq![' '] + join_words(rest));
                        assert(norm_rest(out@, false, rest) =~= norm_rest(out0, glue0, words(su)));
                    }
                }
            }
        }
        i += 1;
    }
    proof {
        assert(v@.skip(n as int) =~= Seq::<char>::empty());
    }
    out
}

/// A line with one trailing carriage return removed.
pub open spec fn strip_cr(s: Seq<char>) -> Seq<char> {
    if s.len() > 0 && s.last() == '\r' {
        s.drop_last()
    } else {
        s
    }
}

/// The lines of `s`, as `str::lines` yields them: split at `\n`, a carriage
/// return before the newline removed, no empty line after a trailing newline.
pub open spec fn split_lines_spec(s: Seq<char>) -> Seq<Seq<char>>
    decreases s.len() via split_lines_decreases
{
    if s.len() == 0 {
        Seq::empty()
    } else {
        match find(s, seq!['\n']) {
            None => seq![s],
            Some(i) => seq![strip_cr(s.take(i))] + split_lines_spec(s.skip(i + 1)),
        }
    }
}

#[via_fn]
proof fn split_lines_decreases(s: Seq<char>) {
    lemma_find_props(s, seq!['\n']);
}

/// Executable version of [`split_lines_spec`].
pub fn split_lines(v: &Vec<char>) -> (r: Vec<Vec<char>>)
    ensures
        r@.len() == split_lines_spec(v@).len(),
        forall|i: int| 0 <= i < r@.len() ==> r@[i]@ == split_lines_spec(v@)[i],
{
    let nl: Vec<char> = vec!['\n'];
    proof {
        assert(nl@ =~= seq!['\n']);
    }
    let mut lines: Vec<Vec<char>> = Vec::new();
    let ghost done: Seq<Seq<char>> = Seq::empty();
    let mut pos: usize = 0;
    let n = v.len();
    proof {
        assert(v@.skip(0) =~= v@);
        assert(done + split_lines_spec(v@.skip(0)) =~= split_lines_spec(v@));
    }
    while pos < n
        invariant
            pos <= n,
            n == v.len(),
            nl@ == seq!['\n'],
            lines@.len() == done.len(),
            forall|i: int| 0 <= i < lines@.len() ==> lines@[i]@ == done[i],
            split_lines_spec(v@) == done + split_lines_spec(v@.skip(pos as int)),
        decreases n - pos,
    {
        let ghost su = v@.skip(pos as int);
        proof {
            lemma_find_props(su, seq!['\n']);
        }
        match find_sub_from(v, &nl, pos) {
            Some(i) => {
                proof {
                    assert(su.take(i - pos) =~= v@.subrange(pos as int, i as int));
                    assert(su.skip(i - pos + 1) =~= v@.skip(i + 1 as int));
                }
                let mut line = sub_chars(v, pos, i);
                if line.len() > 0 && line[line.len() - 1] == '\r' {
                    proof {
                        assert(strip_cr(su.take(i - pos)) =~= line@.drop_last());
                    }
                    line.pop();
                } else {
                    proof {
                        assert(strip_cr(su.take(i - pos)) =~= line@);
                    }
                }
                proof {
                    assert(done.push(line@) + split_lines_spec(v@.skip(i + 1 as int))
                        =~= done + split_lines_spec(su));
                }
                lines.push(line);
                proof {
                    done = done.push(line@);
                }
                pos = i + 1;
            },
            None => {
                let line = sub_chars(v, pos, n);
                proof {
                    assert(line@ =~= su);
                    assert(done.push(line@) =~= done + split_lines_spec(su));
                    assert(v@.skip(n as int) =~= Seq::<char>::empty());
                    assert(done.push(line@) + split_lines_spec(v@.skip(n as int)) =~= done.push(
                        line@,
                    ));
                }
                lines.push(line);
                proof {
                    done = done.push(line@);
                }
                pos = n;
            },
        }
    }
    proof {
        assert(v@.skip(pos as int) =~= Seq::<char>::empty());
        assert(done + split_lines_spec(v@.skip(pos as int)) =~= done);
    }
    lines
}

} // verus!
