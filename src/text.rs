//! Characters, whitespace-separated tokens and numeric literals.
use vstd::prelude::*;

verus! {

broadcast use vstd::string::group_string_axioms;

/// Unicode `White_Space`, the set that `char::is_whitespace` tests.
pub open spec fn is_ws(c: char) -> bool {
    c == '\t' || c == '\n' || c == '\u{B}' || c == '\u{C}' || c == '\r' || c == ' '
        || c == '\u{85}' || c == '\u{A0}' || c == '\u{1680}' || ('\u{2000}' <= c && c
        <= '\u{200A}') || c == '\u{2028}' || c == '\u{2029}' || c == '\u{202F}' || c
        == '\u{205F}' || c == '\u{3000}'
}

/// Tests whether `c` separates fields on a line.
pub fn is_whitespace(c: char) -> (r: bool)
    ensures
        r == is_ws(c),
{
    c == '\t' || c == '\n' || c == '\u{B}' || c == '\u{C}' || c == '\r' || c == ' '
        || c == '\u{85}' || c == '\u{A0}' || c == '\u{1680}' || ('\u{2000}' <= c && c
        <= '\u{200A}') || c == '\u{2028}' || c == '\u{2029}' || c == '\u{202F}' || c
        == '\u{205F}' || c == '\u{3000}'
}

/// The characters of `s`, in order.
pub fn chars_of(s: &str) -> (r: Vec<char>)
    ensures
        r@ == s@,
{
    let mut out: Vec<char> = Vec::new();
    for c in it: s.chars()
        invariant
            out@ == it.seq().take(it.index() as int),
    {
        out.push(c);
    }
    out
}

/// Relies on `String::push`: appends one character at the end.
#[verifier::external_body]
fn push_char(s: &mut String, c: char)
    ensures
        final(s)@ == old(s)@.push(c),
{
    s.push(c)
}

/// The characters `v[from..to]` as a string.
pub fn string_of(v: &Vec<char>, from: usize, to: usize) -> (r: String)
    requires
        from <= to <= v.len(),
    ensures
        r@ == v@.subrange(from as int, to as int),
{
    let mut out = String::new();
    let mut i: usize = from;
    while i < to
        invariant
            from <= i <= to <= v.len(),
            out@ == v@.subrange(from as int, i as int),
        decreases to - i,
    {
        push_char(&mut out, v[i]);
        i = i + 1;
        assert(out@ =~= v@.subrange(from as int, i as int));
    }
    out
}

/// End of the run of non-whitespace characters that starts at `i`.
pub open spec fn word_end(l: Seq<char>, i: int) -> int
    decreases l.len() - i,
{
    if i < 0 || i >= l.len() || is_ws(l[i]) {
        i
    } else {
        word_end(l, i + 1)
    }
}

/// The whitespace-separated tokens of `l` from index `i` on.
pub open spec fn tokens_from(l: Seq<char>, i: int) -> Seq<Seq<char>>
    decreases l.len() - i,
{
    if i < 0 || i >= l.len() {
        seq![]
    } else if is_ws(l[i]) {
        tokens_from(l, i + 1)
    } else {
        proof {
            lemma_word_end_bounds(l, i);
        }
        seq![l.subrange(i, word_end(l, i))] + tokens_from(l, word_end(l, i))
    }
}

/// The whitespace-separated tokens of a line, in order.
pub open spec fn tokens(l: Seq<char>) -> Seq<Seq<char>> {
    tokens_from(l, 0)
}

/// A token that starts at `i` stays within the line and holds no whitespace.
pub proof fn lemma_word_end_bounds(l: Seq<char>, i: int)
    requires
        0 <= i <= l.len(),
    ensures
        i <= word_end(l, i) <= l.len(),
        i < l.len() && !is_ws(l[i]) ==> i < word_end(l, i),
        forall|k: int| i <= k < word_end(l, i) ==> !is_ws(#[trigger] l[k]),
    decreases l.len() - i,
{
    if i < l.len() && !is_ws(l[i]) {
        lemma_word_end_bounds(l, i + 1);
    }
}

/// Splits a line into its whitespace-separated tokens.
pub fn split_tokens(l: &Vec<char>) -> (r: Vec<Vec<char>>)
    ensures
        r@.map_values(|t: Vec<char>| t@) == tokens(l@),
{
    let mut out: Vec<Vec<char>> = Vec::new();
    let mut i: usize = 0;
    while i < l.len()
        invariant
            i <= l.len(),
            out@.map_values(|t: Vec<char>| t@) + tokens_from(l@, i as int) == tokens(l@),
        decreases l.len() - i,
    {
        if is_whitespace(l[i]) {
            i = i + 1;
        } else {
            let start = i;
            proof {
                lemma_word_end_bounds(l@, start as int);
            }
            let mut tok: Vec<char> = Vec::new();
            while i < l.len() && !is_whitespace(l[i])
                invariant
                    start <= i <= l.len(),
                    word_end(l@, start as int) == word_end(l@, i as int),
                    tok@ == l@.subrange(start as int, i as int),
                decreases l.len() - i,
            {
                tok.push(l[i]);
                i = i + 1;
                assert(tok@ =~= l@.subrange(start as int, i as int));
            }
            let ghost before = out@.map_values(|t: Vec<char>| t@);
            out.push(tok);
            assert(out@.map_values(|t: Vec<char>| t@) =~= before.push(l@.subrange(start as int, i as int)));
            assert(tokens_from(l@, start as int) == seq![l@.subrange(start as int, i as int)] + tokens_from(l@, i as int));
            assert(before.push(l@.subrange(start as int, i as int)) + tokens_from(l@, i as int)
                =~= before + (seq![l@.subrange(start as int, i as int)] + tokens_from(l@, i as int)));
        }
    }
    assert(out@.map_values(|t: Vec<char>| t@) + tokens_from(l@, i as int) =~= out@.map_values(|t: Vec<char>| t@));
    out
}

/// Index of the first non-whitespace character at or after `i` (or the end).
pub open spec fn trim_start(l: Seq<char>, i: int) -> int
    decreases l.len() - i,
{
    if i < 0 || i >= l.len() || !is_ws(l[i]) {
        i
    } else {
        trim_start(l, i + 1)
    }
}

/// One past the last non-whitespace character before `j` (or the start).
pub open spec fn trim_end(l: Seq<char>, j: int) -> int
    decreases j,
{
    if j <= 0 || j > l.len() || !is_ws(l[j - 1]) {
        j
    } else {
        trim_end(l, j - 1)
    }
}

/// `l` without leading and trailing whitespace.
pub open spec fn trim(l: Seq<char>) -> Seq<char> {
    let s = trim_start(l, 0);
    let e = trim_end(l, l.len() as int);
    if s < e {
        l.subrange(s, e)
    } else {
        seq![]
    }
}

/// A copy of `l` without leading and trailing whitespace.
pub fn trimmed(l: &Vec<char>) -> (r: Vec<char>)
    ensures
        r@ == trim(l@),
{
    let mut s: usize = 0;
    while s < l.len() && is_whitespace(l[s])
        invariant
            s <= l.len(),
            trim_start(l@, s as int) == trim_start(l@, 0),
        decreases l.len() - s,
    {
        s = s + 1;
    }
    let mut e: usize = l.len();
    while e > 0 && is_whitespace(l[e - 1])
        invariant
            e <= l.len(),
            trim_end(l@, e as int) == trim_end(l@, l.len() as int),
        decreases e,
    {
        e = e - 1;
    }
    let mut out: Vec<char> = Vec::new();
    if s < e {
        let mut i: usize = s;
        while i < e
            invariant
                s <= i <= e <= l.len(),
                out@ == l@.subrange(s as int, i as int),
            decreases e - i,
        {
            out.push(l[i]);
            i = i + 1;
            assert(out@ =~= l@.subrange(s as int, i as int));
        }
    }
    proof {
        if !(s < e) {
            assert(out@ =~= seq![]);
        }
    }
    out
}

/// Why a text is not an unsigned integer, as `str::parse` reports it.
#[derive(PartialEq, Eq, Structural, Clone, Copy, Debug)]
pub enum IntErrorKind {
    /// The text is empty.
    Empty,
    /// A character is not a decimal digit.
    InvalidDigit,
    /// The value does not fit the target type.
    PosOverflow,
}

pub open spec fn is_digit(c: char) -> bool {
    '0' <= c && c <= '9'
}

pub open spec fn digit_value(c: char) -> nat {
    (c as u32 - '0' as u32) as nat
}

/// Reads the decimal digits `s[i..]` onto `acc`, left to right, stopping at
/// the first character that is no digit or the first step past `usize::MAX`.
pub open spec fn digits_from(s: Seq<char>, i: int, acc: nat) -> Result<usize, IntErrorKind>
    decreases s.len() - i,
{
    if i < 0 || i >= s.len() {
        if acc <= usize::MAX {
            Ok(acc as usize)
        } else {
            Err(IntErrorKind::PosOverflow)
        }
    } else if !is_digit(s[i]) {
        Err(IntErrorKind::InvalidDigit)
    } else if acc * 10 + digit_value(s[i]) > usize::MAX {
        Err(IntErrorKind::PosOverflow)
    } else {
        digits_from(s, i + 1, acc * 10 + digit_value(s[i]))
    }
}

/// The unsigned integer that `s` writes: an optional `+` and decimal digits.
pub open spec fn parse_usize_spec(s: Seq<char>) -> Result<usize, IntErrorKind> {
    if s.len() == 0 {
        Err(IntErrorKind::Empty)
    } else if s[0] == '+' {
        if s.len() == 1 {
            Err(IntErrorKind::InvalidDigit)
        } else {
            digits_from(s, 1, 0)
        }
    } else {
        digits_from(s, 0, 0)
    }
}

/// Parses an unsigned decimal integer.
pub fn parse_usize(s: &Vec<char>) -> (r: Result<usize, IntErrorKind>)
    ensures
        r == parse_usize_spec(s@),
{
    if s.len() == 0 {
        return Err(IntErrorKind::Empty);
    }
    let mut i: usize = 0;
    if s[0] == '+' {
        if s.len() == 1 {
            return Err(IntErrorKind::InvalidDigit);
        }
        i = 1;
    }
    let mut acc: usize = 0;
    while i < s.len()
        invariant
            i <= s.len(),
            digits_from(s@, i as int, acc as nat) == parse_usize_spec(s@),
        decreases s.len() - i,
    {
        let c = s[i];
        if !('0' <= c && c <= '9') {
            return Err(IntErrorKind::InvalidDigit);
        }
        let d = (c as u32 - '0' as u32) as usize;
        match acc.checked_mul(10) {
            None => {
                assert(acc * 10 + digit_value(c) > usize::MAX);
                return Err(IntErrorKind::PosOverflow);
            },
            Some(m) => match m.checked_add(d) {
                None => {
                    return Err(IntErrorKind::PosOverflow);
                },
                Some(v) => {
                    acc = v;
                },
            },
        }
        i = i + 1;
    }
    Ok(acc)
}

/// End of the run of decimal digits that starts at `i`.
pub open spec fn digits_end(s: Seq<char>, i: int) -> int
    decreases s.len() - i,
{
    if i < 0 || i >= s.len() || !is_digit(s[i]) {
        i
    } else {
        digits_end(s, i + 1)
    }
}

/// Length of an optional `+` or `-` at `i`.
pub open spec fn sign_len(s: Seq<char>, i: int) -> int {
    if 0 <= i < s.len() && (s[i] == '+' || s[i] == '-') {
        1
    } else {
        0
    }
}

/// An exponent `e`/`E`, an optional sign and at least one digit fill `s[i..]`.
pub open spec fn is_exponent_from(s: Seq<char>, i: int) -> bool {
    let k = i + 1 + sign_len(s, i + 1);
    0 <= i < s.len() && (s[i] == 'e' || s[i] == 'E') && k < digits_end(s, k) && digits_end(s, k)
        == s.len()
}

/// `s[i..]` is a decimal number: digits with an optional fraction, at least
/// one digit in all, then an optional exponent.
pub open spec fn is_decimal_from(s: Seq<char>, i: int) -> bool {
    let a = digits_end(s, i);
    let has_point = a < s.len() && s[a] == '.';
    let b = if has_point {
        digits_end(s, a + 1)
    } else {
        a
    };
    let frac = if has_point {
        b - a - 1
    } else {
        0
    };
    (a - i) + frac > 0 && (b == s.len() || is_exponent_from(s, b))
}

/// `c` is `lower` or, for a lower-case ASCII letter, its upper-case form.
pub open spec fn ci_eq(c: char, lower: char) -> bool {
    c == lower || ('a' <= lower && lower <= 'z' && c as u32 == lower as u32 - 32)
}

/// `s[i..]` spells `w` without regard to ASCII case.
pub open spec fn is_word_from(s: Seq<char>, i: int, w: Seq<char>) -> bool {
    s.len() - i == w.len() && forall|k: int| 0 <= k < w.len() ==> ci_eq(#[trigger] s[i + k], w[k])
}

/// `s[i..]` names infinity or not-a-number.
pub open spec fn is_special_from(s: Seq<char>, i: int) -> bool {
    is_word_from(s, i, seq!['i', 'n', 'f']) || is_word_from(
        s,
        i,
        seq!['i', 'n', 'f', 'i', 'n', 'i', 't', 'y'],
    ) || is_word_from(s, i, seq!['n', 'a', 'n'])
}

/// `s` is a floating-point literal: an optional sign, then a decimal number
/// with optional exponent, or `inf`, `infinity` or `nan` in any case.
pub open spec fn is_float_literal(s: Seq<char>) -> bool {
    is_decimal_from(s, sign_len(s, 0)) || is_special_from(s, sign_len(s, 0))
}

/// Why a text is not a floating-point literal, as `str::parse` reports it.
#[derive(PartialEq, Eq, Structural, Clone, Copy, Debug)]
pub enum FloatErrorKind {
    /// The text is empty.
    Empty,
    /// The text is not a literal.
    Invalid,
}

/// What checking `s` as a floating-point literal gives.
pub open spec fn float_check_spec(s: Seq<char>) -> Result<(), FloatErrorKind> {
    if s.len() == 0 {
        Err(FloatErrorKind::Empty)
    } else if is_float_literal(s) {
        Ok(())
    } else {
        Err(FloatErrorKind::Invalid)
    }
}

proof fn lemma_digits_end_bounds(s: Seq<char>, i: int)
    requires
        0 <= i <= s.len(),
    ensures
        i <= digits_end(s, i) <= s.len(),
    decreases s.len() - i,
{
    if i < s.len() && is_digit(s[i]) {
        lemma_digits_end_bounds(s, i + 1);
    }
}

fn scan_digits(s: &Vec<char>, i: usize) -> (r: usize)
    requires
        i <= s.len(),
    ensures
        r == digits_end(s@, i as int),
        i <= r <= s.len(),
{
    proof {
        lemma_digits_end_bounds(s@, i as int);
    }
    let mut j: usize = i;
    while j < s.len() && '0' <= s[j] && s[j] <= '9'
        invariant
            i <= j <= s.len(),
            digits_end(s@, j as int) == digits_end(s@, i as int),
        decreases s.len() - j,
    {
        j = j + 1;
    }
    j
}

fn scan_sign(s: &Vec<char>, i: usize) -> (r: usize)
    requires
        i <= s.len(),
    ensures
        r == sign_len(s@, i as int),
{
    if i < s.len() && (s[i] == '+' || s[i] == '-') {
        1
    } else {
        0
    }
}

fn word_at(s: &Vec<char>, i: usize, w: &Vec<char>) -> (r: bool)
    requires
        i <= s.len(),
    ensures
        r == is_word_from(s@, i as int, w@),
{
    if s.len() - i != w.len() {
        return false;
    }
    let mut k: usize = 0;
    while k < w.len()
        invariant
            k <= w.len(),
            s.len() - i == w.len(),
            forall|m: int| 0 <= m < k ==> ci_eq(#[trigger] s@[i + m], w@[m]),
        decreases w.len() - k,
    {
        let c = s[i + k];
        let lo = w[k];
        if !(c == lo || ('a' <= lo && lo <= 'z' && c as u32 == lo as u32 - 32)) {
            assert(!ci_eq(s@[i + k], w@[k as int]));
            return false;
        }
        k = k + 1;
    }
    true
}

fn exponent_at(s: &Vec<char>, i: usize) -> (r: bool)
    requires
        i <= s.len(),
    ensures
        r == is_exponent_from(s@, i as int),
{
    if i < s.len() && (s[i] == 'e' || s[i] == 'E') {
        let k = i + 1 + scan_sign(s, i + 1);
        let m = scan_digits(s, k);
        k < m && m == s.len()
    } else {
        false
    }
}

/// Checks that `s` is a floating-point literal.
pub fn check_float(s: &Vec<char>) -> (r: Result<(), FloatErrorKind>)
    ensures
        r == float_check_spec(s@),
{
    if s.len() == 0 {
        return Err(FloatErrorKind::Empty);
    }
    let i = scan_sign(s, 0);
    let a = scan_digits(s, i);
    let has_point = a < s.len() && s[a] == '.';
    let b = if has_point {
        scan_digits(s, a + 1)
    } else {
        a
    };
    let frac = if has_point {
        b - a - 1
    } else {
        0
    };
    let decimal = (a - i) + frac > 0 && (b == s.len() || exponent_at(s, b));
    let w_inf = vec!['i', 'n', 'f'];
    let w_infinity = vec!['i', 'n', 'f', 'i', 'n', 'i', 't', 'y'];
    let w_nan = vec!['n', 'a', 'n'];
    proof {
        assert(w_inf@ =~= seq!['i', 'n', 'f']);
        assert(w_infinity@ =~= seq!['i', 'n', 'f', 'i', 'n', 'i', 't', 'y']);
        assert(w_nan@ =~= seq!['n', 'a', 'n']);
    }
    let special = word_at(s, i, &w_inf) || word_at(s, i, &w_infinity) || word_at(s, i, &w_nan);
    if decimal || special {
        Ok(())
    } else {
        Err(FloatErrorKind::Invalid)
    }
}

} // verus!
