//! Numeric values of a netlist: decimal literals with SPICE magnitude
//! suffixes, kept exactly as written.

use vstd::prelude::*;

use crate::error::Error;
use crate::syntax::ParseFailure;
use crate::text::{
    concat, digit, is_digit, is_lower_letter, lemma_run_end, matches_no_case, push_char, run_end, scan_run, slice_prefix, starts_exact,
    starts_no_case, starts_with_exact, starts_with_no_case, string_from, to_chars, CharClass,
};

verus! {

/// A numeric value as written in a netlist: a decimal floating-point literal
/// (in the grammar of Rust's `f64::from_str`) scaled by a power of ten that a
/// SPICE suffix contributed. Its magnitude is `literal × 10^power_of_ten`.
#[derive(Debug, Clone, PartialEq, Eq)]
pub struct Number {
    pub literal: String,
    pub power_of_ten: i32,
}

pub struct NumberView {
    pub literal: Seq<char>,
    pub power_of_ten: int,
}

impl View for Number {
    type V = NumberView;

    open spec fn view(&self) -> NumberView {
        NumberView { literal: self.literal@, power_of_ten: self.power_of_ten as int }
    }
}

impl Number {
    /// A copy of this value.
    pub fn duplicate(&self) -> (r: Number)
        ensures
            r@ == self@,
    {
        Number { literal: self.literal.clone(), power_of_ten: self.power_of_ten }
    }

    /// The unscaled value written with the characters `t`.
    pub fn from_literal(t: &[char]) -> (r: Number)
        ensures
            r@ == (NumberView { literal: t@, power_of_ten: 0 }),
    {
        let literal = string_from(t, 0, t.len());
        assert(t@.subrange(0, t@.len() as int) == t@);
        Number { literal, power_of_ten: 0 }
    }
}

// ---------------------------------------------------------------------------
// Decimal literals
// ---------------------------------------------------------------------------

pub open spec fn is_sign(c: char) -> bool {
    c == '+' || c == '-'
}

/// Length of the optional sign at `i`.
pub open spec fn sign_len(s: Seq<char>, i: int) -> int {
    if 0 <= i < s.len() && is_sign(s[i]) {
        1
    } else {
        0
    }
}

/// End of the mantissa `Digit+ ('.' Digit*)? | '.' Digit+` that starts at `i`.
pub open spec fn mantissa_end(s: Seq<char>, i: int) -> Option<int> {
    let d = run_end(s, i, CharClass::Digit);
    if d > i {
        if d < s.len() && s[d] == '.' {
            Some(run_end(s, d + 1, CharClass::Digit))
        } else {
            Some(d)
        }
    } else if 0 <= i < s.len() && s[i] == '.' && run_end(s, i + 1, CharClass::Digit) > i + 1 {
        Some(run_end(s, i + 1, CharClass::Digit))
    } else {
        None
    }
}

pub open spec fn is_exponent_mark(c: char) -> bool {
    c == 'e' || c == 'E'
}

/// Where the digits of an exponent that starts with a mark at `m` begin.
pub open spec fn exponent_digits_start(s: Seq<char>, m: int) -> int {
    m + 1 + sign_len(s, m + 1)
}

/// Whether `t` is a decimal floating-point literal in the grammar of Rust's
/// `f64::from_str`: an optional sign, then `inf`, `infinity`, `nan` (in any
/// case) or a mantissa with an optional exponent, and nothing else.
pub open spec fn is_float_literal(t: Seq<char>) -> bool {
    let i = sign_len(t, 0);
    ||| (t.len() == i + 3 && starts_no_case(t, i, seq!['i', 'n', 'f']))
    ||| (t.len() == i + 8 && starts_no_case(t, i, seq!['i', 'n', 'f', 'i', 'n', 'i', 't', 'y']))
    ||| (t.len() == i + 3 && starts_no_case(t, i, seq!['n', 'a', 'n']))
    ||| match mantissa_end(t, i) {
        Some(m) => m == t.len() || (is_exponent_mark(t[m]) && exponent_digits_start(t, m)
            < t.len() && run_end(t, exponent_digits_start(t, m), CharClass::Digit) == t.len()),
        None => false,
    }
}

/// The longest float at `i` as a `double` recognizer of SPICE values reads
/// it: a signed mantissa with an optional exponent, or else the
/// words `nan`, `infinity`, `inf` (unsigned, in any case). An exponent mark
/// that no digits follow is a committed failure.
pub open spec fn float_prefix(s: Seq<char>, i: int) -> Result<int, ParseFailure> {
    let j = i + sign_len(s, i);
    match mantissa_end(s, j) {
        Some(m) => if m < s.len() && is_exponent_mark(s[m]) {
            let k = exponent_digits_start(s, m);
            if run_end(s, k, CharClass::Digit) > k {
                Ok(run_end(s, k, CharClass::Digit))
            } else {
                Err(ParseFailure::Failure)
            }
        } else {
            Ok(m)
        },
        None => if starts_no_case(s, i, seq!['n', 'a', 'n']) {
            Ok(i + 3)
        } else if starts_no_case(s, i, seq!['i', 'n', 'f', 'i', 'n', 'i', 't', 'y']) {
            Ok(i + 8)
        } else if starts_no_case(s, i, seq!['i', 'n', 'f']) {
            Ok(i + 3)
        } else {
            Err(ParseFailure::Error)
        },
    }
}

fn sign_length(s: &[char], i: usize) -> (r: usize)
    requires
        i <= s@.len(),
    ensures
        r == sign_len(s@, i as int),
        i + r <= s@.len(),
{
    if i < s.len() && (s[i] == '+' || s[i] == '-') {
        1
    } else {
        0
    }
}

fn scan_mantissa(s: &[char], i: usize) -> (r: Option<usize>)
    requires
        i <= s@.len(),
    ensures
        match r {
            Some(m) => mantissa_end(s@, i as int) == Some(m as int) && i < m <= s@.len(),
            None => mantissa_end(s@, i as int) is None,
        },
{
    let n = s.len();
    let d = scan_run(s, i, CharClass::Digit);
    if d > i {
        if d < s.len() && s[d] == '.' {
            Some(scan_run(s, d + 1, CharClass::Digit))
        } else {
            Some(d)
        }
    } else if i < s.len() && s[i] == '.' {
        let e = scan_run(s, i + 1, CharClass::Digit);
        if e > i + 1 {
            Some(e)
        } else {
            None
        }
    } else {
        None
    }
}

/// Whether `t` is a literal that `f64::from_str` accepts.
pub fn float_literal(t: &[char]) -> (r: bool)
    ensures
        r == is_float_literal(t@),
{
    let n = t.len();
    let i = sign_length(t, 0);
    let inf: [char; 3] = ['i', 'n', 'f'];
    let infinity: [char; 8] = ['i', 'n', 'f', 'i', 'n', 'i', 't', 'y'];
    let nan: [char; 3] = ['n', 'a', 'n'];
    assert(inf@ == seq!['i', 'n', 'f']);
    assert(infinity@ == seq!['i', 'n', 'f', 'i', 'n', 'i', 't', 'y']);
    assert(nan@ == seq!['n', 'a', 'n']);
    if t.len() == i + 3 && starts_with_no_case(t, i, &inf) {
        return true;
    }
    if t.len() == i + 8 && starts_with_no_case(t, i, &infinity) {
        return true;
    }
    if t.len() == i + 3 && starts_with_no_case(t, i, &nan) {
        return true;
    }
    match scan_mantissa(t, i) {
        Some(m) => {
            if m == t.len() {
                true
            } else if t[m] == 'e' || t[m] == 'E' {
                let k = m + 1 + sign_length(t, m + 1);
                assert(k == exponent_digits_start(t@, m as int));
                k < t.len() && scan_run(t, k, CharClass::Digit) == t.len()
            } else {
                false
            }
        },
        None => false,
    }
}

/// The float recognized at `i`, by its end.
pub fn scan_float(s: &[char], i: usize) -> (r: Result<usize, ParseFailure>)
    requires
        i <= s@.len(),
    ensures
        match r {
            Ok(e) => float_prefix(s@, i as int) == Ok::<int, ParseFailure>(e as int) && i < e
                <= s@.len(),
            Err(f) => float_prefix(s@, i as int) == Err::<int, ParseFailure>(f),
        },
{
    let n = s.len();
    let j = i + sign_length(s, i);
    match scan_mantissa(s, j) {
        Some(m) => {
            if m < s.len() && (s[m] == 'e' || s[m] == 'E') {
                let k = m + 1 + sign_length(s, m + 1);
                let e = scan_run(s, k, CharClass::Digit);
                if e > k {
                    Ok(e)
                } else {
                    Err(ParseFailure::Failure)
                }
            } else {
                Ok(m)
            }
        },
        None => {
            let nan: [char; 3] = ['n', 'a', 'n'];
            let infinity: [char; 8] = ['i', 'n', 'f', 'i', 'n', 'i', 't', 'y'];
            let inf: [char; 3] = ['i', 'n', 'f'];
            assert(inf@ == seq!['i', 'n', 'f']);
            assert(infinity@ == seq!['i', 'n', 'f', 'i', 'n', 'i', 't', 'y']);
            assert(nan@ == seq!['n', 'a', 'n']);
            if starts_with_no_case(s, i, &nan) {
                Ok(i + 3)
            } else if starts_with_no_case(s, i, &infinity) {
                Ok(i + 8)
            } else if starts_with_no_case(s, i, &inf) {
                Ok(i + 3)
            } else {
                Err(ParseFailure::Error)
            }
        },
    }
}

/// The float written at `s[i..]` (the `double` rule): its text, unscaled.
pub open spec fn double_at(s: Seq<char>, i: int) -> Result<(int, NumberView), ParseFailure> {
    match float_prefix(s, i) {
        Ok(e) => Ok((e, NumberView { literal: s.subrange(i, e), power_of_ten: 0 })),
        Err(f) => Err(f),
    }
}

pub fn parse_double(s: &[char], i: usize) -> (r: Result<(usize, Number), ParseFailure>)
    requires
        i <= s@.len(),
    ensures
        match r {
            Ok((e, n)) => double_at(s@, i as int) == Ok::<_, ParseFailure>((e as int, n@)),
            Err(f) => double_at(s@, i as int) == Err::<(int, NumberView), _>(f),
        },
        r matches Ok((e, _)) ==> i < e <= s@.len(),
{
    match scan_float(s, i) {
        Ok(e) => Ok((e, Number { literal: string_from(s, i, e), power_of_ten: 0 })),
        Err(f) => Err(f),
    }
}

// ---------------------------------------------------------------------------
// SPICE values with magnitude suffixes
// ---------------------------------------------------------------------------

/// The power of ten that a one-letter suffix stands for (the letter taken in
/// uppercase): femto, pico, nano, micro, milli, kilo, giga, tera.
pub open spec fn suffix_power(c: char) -> Option<int> {
    if c == 'F' {
        Some(-15)
    } else if c == 'P' {
        Some(-12)
    } else if c == 'N' {
        Some(-9)
    } else if c == 'U' {
        Some(-6)
    } else if c == 'M' {
        Some(-3)
    } else if c == 'K' {
        Some(3)
    } else if c == 'G' {
        Some(9)
    } else if c == 'T' {
        Some(12)
    } else {
        None
    }
}

pub open spec fn ends_with_meg(u: Seq<char>) -> bool {
    u.len() >= 3 && u.subrange(u.len() - 3, u.len() as int) == seq!['M', 'E', 'G']
}

/// An uppercased value split into its numeric part and the power of ten of
/// its suffix: `MEG` (mega) first, then one of the one-letter suffixes, else
/// no suffix.
pub open spec fn split_suffix(u: Seq<char>) -> (Seq<char>, int) {
    if ends_with_meg(u) {
        (u.take(u.len() - 3), 6)
    } else if u.len() > 0 && suffix_power(u.last()) is Some {
        (u.take(u.len() - 1), suffix_power(u.last())->0)
    } else {
        (u, 0)
    }
}

/// The value that an uppercased token denotes, if its numeric part is a
/// float literal.
pub open spec fn uppercase_value(u: Seq<char>) -> Option<NumberView> {
    let (num, p) = split_suffix(u);
    if is_float_literal(num) {
        Some(NumberView { literal: num, power_of_ten: p })
    } else {
        None
    }
}

proof fn lemma_float_literal_last(t: Seq<char>)
    requires
        is_float_literal(t),
    ensures
        t.len() > 0,
        t.last() != 'E',
{
    let i = sign_len(t, 0);
    if t.len() == i + 3 && starts_no_case(t, i, seq!['i', 'n', 'f']) {
        assert(matches_no_case(t[i + 2], seq!['i', 'n', 'f'][2]));
    } else if t.len() == i + 8 && starts_no_case(t, i, seq!['i', 'n', 'f', 'i', 'n', 'i', 't', 'y']) {
        assert(matches_no_case(t[i + 7], seq!['i', 'n', 'f', 'i', 'n', 'i', 't', 'y'][7]));
    } else if t.len() == i + 3 && starts_no_case(t, i, seq!['n', 'a', 'n']) {
        assert(matches_no_case(t[i + 2], seq!['n', 'a', 'n'][2]));
    } else {
        lemma_run_end(t, i, CharClass::Digit);
        let d = run_end(t, i, CharClass::Digit);
        if d < t.len() && t[d] == '.' {
            lemma_run_end(t, d + 1, CharClass::Digit);
        }
        if d == i && i < t.len() && t[i] == '.' {
            lemma_run_end(t, i + 1, CharClass::Digit);
        }
        let m = mantissa_end(t, i)->0;
        if m < t.len() {
            let k = exponent_digits_start(t, m);
            lemma_run_end(t, k, CharClass::Digit);
        }
    }
}

/// A float literal followed by a SPICE suffix letter denotes the literal
/// scaled by the suffix's power of ten, and followed by `MEG` the literal
/// times a million; a literal whose last character is no suffix letter
/// denotes itself.
pub proof fn law_suffix_scales(t: Seq<char>, c: char)
    requires
        is_float_literal(t),
    ensures
        suffix_power(c) matches Some(p) ==> uppercase_value(t.push(c)) == Some(
            NumberView { literal: t, power_of_ten: p },
        ),
        uppercase_value(t + seq!['M', 'E', 'G']) == Some(NumberView { literal: t, power_of_ten: 6 }),
        suffix_power(t.last()) is None ==> uppercase_value(t) == Some(
            NumberView { literal: t, power_of_ten: 0 },
        ),
{
    lemma_float_literal_last(t);
    let u = t.push(c);
    if ends_with_meg(u) {
        assert(u[u.len() - 2] == t.last());
        assert(u.subrange(u.len() - 3, u.len() as int)[1] == u[u.len() - 2]);
    }
    assert(u.take(u.len() - 1) == t);
    let w = t + seq!['M', 'E', 'G'];
    assert(w.subrange(w.len() - 3, w.len() as int) =~= seq!['M', 'E', 'G']);
    assert(w.take(w.len() - 3) =~= t);
    if t.len() >= 3 && ends_with_meg(t) {
        assert(t.subrange(t.len() - 3, t.len() as int)[2] == t.last());
    }
}

/// The uppercase form of a string, as `str::to_uppercase` computes it by the
/// Unicode case mappings.
pub uninterp spec fn uppercase(s: Seq<char>) -> Seq<char>;

/// Whether every character of `s` is ASCII.
pub open spec fn ascii_text(s: Seq<char>) -> bool {
    forall|i: int| 0 <= i < s.len() ==> (#[trigger] s[i] as u32) < 128
}

/// The ASCII uppercase of a character: `a`..`z` become `A`..`Z`, every
/// other character stays.
pub open spec fn ascii_upper(c: char) -> char {
    if is_lower_letter(c) {
        ((c as u32) - 32) as char
    } else {
        c
    }
}

/// `s` with every character in ASCII uppercase.
pub open spec fn ascii_upper_text(s: Seq<char>) -> Seq<char> {
    s.map_values(|c: char| ascii_upper(c))
}

/// What `str::to_uppercase` gives for `s`: on ASCII text, its ASCII
/// uppercase; otherwise the Unicode mapping `uppercase`.
pub open spec fn uppercase_of(s: Seq<char>) -> Seq<char> {
    if ascii_text(s) {
        ascii_upper_text(s)
    } else {
        uppercase(s)
    }
}

/// `str::to_uppercase`: the string with every character replaced by its
/// Unicode uppercase mapping. The contract names the result and states one
/// fact of it that std documents: on ASCII text the Unicode mapping is the
/// ASCII one (`a`..`z` become `A`..`Z`, every other ASCII character stays).
#[verifier::external_body]
pub(crate) fn to_uppercase(s: &str) -> (r: String)
    ensures
        r@ == uppercase(s@),
        ascii_text(s@) ==> r@ == ascii_upper_text(s@),
{
    s.to_uppercase()
}

/// The value that a token denotes: its uppercase form read by
/// `uppercase_value`.
pub open spec fn token_value(s: Seq<char>) -> Option<NumberView> {
    uppercase_value(uppercase_of(s))
}

/// A suffix letter (and `MEG`) reads in either case: an ASCII float
/// literal followed by a suffix written in lowercase or uppercase denotes
/// the literal (in uppercase) scaled by the suffix's power of ten.
pub proof fn law_suffix_case(t: Seq<char>, c: char, m: Seq<char>)
    requires
        ascii_text(t),
        (c as u32) < 128,
        is_float_literal(ascii_upper_text(t)),
        ascii_text(m),
        ascii_upper_text(m) == seq!['M', 'E', 'G'],
    ensures
        token_value(t.push(c)) == token_value(t.push(ascii_upper(c))),
        suffix_power(ascii_upper(c)) matches Some(p) ==> token_value(t.push(c)) == Some(
            NumberView { literal: ascii_upper_text(t), power_of_ten: p },
        ),
        token_value(t + m) == Some(NumberView { literal: ascii_upper_text(t), power_of_ten: 6 }),
{
    let u = ascii_upper_text(t);
    let cu = ascii_upper(c);
    assert(ascii_text(t.push(c))) by {
        assert forall|i: int| 0 <= i < t.push(c).len() implies (#[trigger] t.push(c)[i] as u32)
            < 128 by {
            if i < t.len() {
                assert(t.push(c)[i] == t[i]);
            }
        }
    }
    assert((cu as u32) < 128);
    assert(ascii_text(t.push(cu))) by {
        assert forall|i: int| 0 <= i < t.push(cu).len() implies (#[trigger] t.push(cu)[i] as u32)
            < 128 by {
            if i < t.len() {
                assert(t.push(cu)[i] == t[i]);
            }
        }
    }
    assert(ascii_upper(cu) == cu);
    assert(ascii_upper_text(t.push(c)) =~= u.push(cu));
    assert(ascii_upper_text(t.push(cu)) =~= u.push(cu));
    assert(ascii_text(t + m)) by {
        assert forall|i: int| 0 <= i < (t + m).len() implies (#[trigger] (t + m)[i] as u32)
            < 128 by {
            if i < t.len() {
                assert((t + m)[i] == t[i]);
            } else {
                assert((t + m)[i] == m[i - t.len()]);
            }
        }
    }
    assert(ascii_upper_text(t + m) =~= u + ascii_upper_text(m));
    law_suffix_scales(u, cu);
}

fn suffix_of(c: char) -> (r: Option<i32>)
    ensures
        r == (match suffix_power(c) {
            Some(p) => Some(p as i32),
            None => None,
        }),
{
    if c == 'F' {
        Some(-15)
    } else if c == 'P' {
        Some(-12)
    } else if c == 'N' {
        Some(-9)
    } else if c == 'U' {
        Some(-6)
    } else if c == 'M' {
        Some(-3)
    } else if c == 'K' {
        Some(3)
    } else if c == 'G' {
        Some(9)
    } else if c == 'T' {
        Some(12)
    } else {
        None
    }
}

/// Reads an uppercased value token: a float literal with an optional
/// magnitude suffix (`F`, `P`, `N`, `U`, `M`, `K`, `MEG`, `G`, `T`).
pub fn read_uppercase_value(u: &[char]) -> (r: Option<Number>)
    ensures
        match r {
            Some(n) => uppercase_value(u@) == Some(n@),
            None => uppercase_value(u@) is None,
        },
{
    let len = u.len();
    let meg: [char; 3] = ['M', 'E', 'G'];
    let (cut, p): (usize, i32) = if len >= 3 && starts_with_exact(u, len - 3, &meg) {
        (len - 3, 6)
    } else if len > 0 {
        match suffix_of(u[len - 1]) {
            Some(p) => (len - 1, p),
            None => (len, 0),
        }
    } else {
        (len, 0)
    };
    proof {
        assert(meg@ == seq!['M', 'E', 'G']);
        if len >= 3 {
            assert(ends_with_meg(u@) == starts_exact(u@, len - 3, meg@));
        }
        assert(u@.take(len as int) == u@);
    }
    let num = slice_prefix(u, cut);
    assert(num@.subrange(0, cut as int) == num@);
    assert(split_suffix(u@) == (num@, p as int));
    if float_literal(num.as_slice()) {
        Some(Number { literal: string_from(num.as_slice(), 0, cut), power_of_ten: p })
    } else {
        None
    }
}

/// Reads a value token that is already in uppercase; the public form of the
/// rule that `parse_value` applies after uppercasing.
pub fn parse_uppercase_value(u: &str) -> (r: Result<Number, Error>)
    ensures
        match r {
            Ok(n) => uppercase_value(u@) == Some(n@),
            Err(e) => uppercase_value(u@) is None && e is InvalidFloatValue,
        },
{
    let chars = to_chars(u);
    match read_uppercase_value(chars.as_slice()) {
        Some(n) => Ok(n),
        None => Err(Error::InvalidFloatValue(invalid_value_message(u))),
    }
}

/// The message of a refused value: `Invalid numeric value '<s>'`.
fn invalid_value_message(s: &str) -> (r: String)
    ensures
        r@ == "Invalid numeric value '"@ + s@ + seq!['\''],
{
    let mut m = concat("Invalid numeric value '", s);
    push_char(&mut m, '\'');
    m
}

/// Parses a SPICE-style numeric value with an optional metric suffix,
/// case-insensitively: `1.5k`, `10u`, `3MEG`, `1e-6`.
///
/// The token is uppercased by Unicode rules first; `MEG` (mega) is checked
/// before the one-letter suffixes `F`, `P`, `N`, `U`, `M`, `K`, `G`, `T`; the
/// rest must be a literal that `f64::from_str` accepts.
pub fn parse_value(s: &str) -> (r: Result<Number, Error>)
    ensures
        match r {
            Ok(n) => token_value(s@) == Some(n@),
            Err(e) => token_value(s@) is None && e is InvalidFloatValue,
        },
{
    let u = to_uppercase(s);
    let chars = to_chars(u.as_str());
    match read_uppercase_value(chars.as_slice()) {
        Some(n) => Ok(n),
        None => Err(Error::InvalidFloatValue(invalid_value_message(s))),
    }
}

/// The value of the characters `s[from..to]`.
pub fn value_of_chars(s: &[char], from: usize, to: usize) -> (r: Option<Number>)
    requires
        from <= to <= s@.len(),
    ensures
        match r {
            Some(n) => token_value(s@.subrange(from as int, to as int)) == Some(n@),
            None => token_value(s@.subrange(from as int, to as int)) is None,
        },
{
    let token = string_from(s, from, to);
    match parse_value(token.as_str()) {
        Ok(n) => Some(n),
        Err(_) => None,
    }
}

// ---------------------------------------------------------------------------
// Sign of a value
// ---------------------------------------------------------------------------

/// Whether a float literal spells "not a number".
pub open spec fn is_nan_literal(t: Seq<char>) -> bool {
    let i = sign_len(t, 0);
    t.len() == i + 3 && starts_no_case(t, i, seq!['n', 'a', 'n'])
}

/// Whether the mantissa of a float literal has no nonzero digit.
pub open spec fn is_zero_literal(t: Seq<char>) -> bool {
    let i = sign_len(t, 0);
    match mantissa_end(t, i) {
        Some(m) => forall|k: int| i <= k < m ==> (#[trigger] t[k] == '0' || t[k] == '.'),
        None => false,
    }
}

/// Whether a value is zero or negative (a value that is not a number is
/// neither): zero in every scale, or with a minus sign.
pub open spec fn not_positive(n: NumberView) -> bool {
    !is_nan_literal(n.literal) && (is_zero_literal(n.literal) || (n.literal.len() > 0
        && n.literal[0] == '-'))
}

/// Which values are positive: a value with a minus sign is not (unless it
/// is not a number); a value whose mantissa has a nonzero digit anywhere,
/// before or after the point, and no minus sign is; a value whose mantissa
/// has only zeros is not.
pub proof fn law_not_positive(n: NumberView)
    ensures
        !is_nan_literal(n.literal) && n.literal.len() > 0 && n.literal[0] == '-' ==> not_positive(n),
        (mantissa_end(n.literal, sign_len(n.literal, 0)) matches Some(m) && exists|k: int|
            sign_len(n.literal, 0) <= k < m && is_digit(#[trigger] n.literal[k]) && n.literal[k]
                != '0') && !(n.literal.len() > 0 && n.literal[0] == '-') ==> !not_positive(n),
        (mantissa_end(n.literal, sign_len(n.literal, 0)) matches Some(m) && forall|k: int|
            sign_len(n.literal, 0) <= k < m ==> #[trigger] n.literal[k] == '0' || n.literal[k]
                == '.') && !is_nan_literal(n.literal) ==> not_positive(n),
{
}

/// Whether a value is zero or negative.
pub fn is_not_positive(n: &Number) -> (r: bool)
    ensures
        r == not_positive(n@),
{
    let t = to_chars(n.literal.as_str());
    let len = t.len();
    let i = sign_length(t.as_slice(), 0);
    let nan: [char; 3] = ['n', 'a', 'n'];
    assert(nan@ == seq!['n', 'a', 'n']);
    if len == i + 3 && starts_with_no_case(t.as_slice(), i, &nan) {
        return false;
    }
    let zero = match scan_mantissa(t.as_slice(), i) {
        Some(m) => {
            let mut k = i;
            let mut all_zero = true;
            while k < m
                invariant
                    i <= k <= m <= t@.len(),
                    all_zero == (forall|j: int| i <= j < k ==> (#[trigger] t@[j] == '0' || t@[j]
                        == '.')),
                decreases m - k,
            {
                if !(t[k] == '0' || t[k] == '.') {
                    all_zero = false;
                }
                k += 1;
            }
            all_zero
        },
        None => false,
    };
    zero || (len > 0 && t[0] == '-')
}

// ---------------------------------------------------------------------------
// Unsigned decimal integers
// ---------------------------------------------------------------------------

pub open spec fn digit_value(c: char) -> int {
    (c as u32) as int - ('0' as u32) as int
}

/// The number that a string of decimal digits denotes.
pub open spec fn decimal_value(t: Seq<char>) -> int
    decreases t.len(),
{
    if t.len() == 0 {
        0
    } else {
        decimal_value(t.drop_last()) * 10 + digit_value(t.last())
    }
}

pub open spec fn all_digits(t: Seq<char>) -> bool {
    forall|k: int| 0 <= k < t.len() ==> is_digit(#[trigger] t[k])
}

/// The `u32` that `u32::from_str` reads from a name: a nonempty string of
/// digits (an optional leading `+` aside, which names cannot hold) whose
/// value fits.
pub open spec fn u32_value(t: Seq<char>) -> Option<u32> {
    if t.len() > 0 && all_digits(t) && decimal_value(t) <= u32::MAX {
        Some(decimal_value(t) as u32)
    } else {
        None
    }
}

proof fn lemma_decimal_nonneg(t: Seq<char>)
    requires
        all_digits(t),
    ensures
        decimal_value(t) >= 0,
    decreases t.len(),
{
    if t.len() > 0 {
        assert(all_digits(t.drop_last()));
        lemma_decimal_nonneg(t.drop_last());
    }
}

proof fn lemma_decimal_grows(t: Seq<char>)
    requires
        all_digits(t),
        t.len() > 0,
    ensures
        decimal_value(t) >= decimal_value(t.drop_last()),
{
    assert(all_digits(t.drop_last()));
    lemma_decimal_nonneg(t.drop_last());
}

proof fn lemma_decimal_prefix_bound(t: Seq<char>, k: int)
    requires
        all_digits(t),
        0 <= k <= t.len(),
    ensures
        decimal_value(t.take(k)) <= decimal_value(t),
    decreases t.len() - k,
{
    if k < t.len() {
        lemma_decimal_prefix_bound(t, k + 1);
        assert(t.take(k + 1).drop_last() == t.take(k));
        assert(all_digits(t.take(k + 1)));
        lemma_decimal_grows(t.take(k + 1));
    } else {
        assert(t.take(k) == t);
    }
}

/// Reads `t` as `u32::from_str` does for a string of name characters.
pub fn parse_u32(t: &[char]) -> (r: Option<u32>)
    ensures
        r == u32_value(t@),
{
    if t.len() == 0 {
        return None;
    }
    let mut acc: u64 = 0;
    let mut i: usize = 0;
    while i < t.len()
        invariant
            i <= t@.len(),
            all_digits(t@.take(i as int)),
            acc == decimal_value(t@.take(i as int)),
            acc <= u32::MAX,
        decreases t@.len() - i,
    {
        if !digit(t[i]) {
            assert(!all_digits(t@));
            return None;
        }
        let d: u64 = (t[i] as u32 - '0' as u32) as u64;
        let next: u64 = acc * 10 + d;
        assert(t@.take(i + 1).drop_last() == t@.take(i as int));
        assert(all_digits(t@.take(i + 1)));
        if next > u32::MAX as u64 {
            proof {
                if all_digits(t@) {
                    lemma_decimal_prefix_bound(t@, i + 1);
                }
            }
            return None;
        }
        acc = next;
        i += 1;
    }
    assert(t@.take(t@.len() as int) == t@);
    Some(acc as u32)
}


/// The digit character for `d` in `0..10`.
pub open spec fn digit_char(d: int) -> char {
    if d == 0 {
        '0'
    } else if d == 1 {
        '1'
    } else if d == 2 {
        '2'
    } else if d == 3 {
        '3'
    } else if d == 4 {
        '4'
    } else if d == 5 {
        '5'
    } else if d == 6 {
        '6'
    } else if d == 7 {
        '7'
    } else if d == 8 {
        '8'
    } else {
        '9'
    }
}

/// The decimal digits of `n`, most significant first, without leading
/// zeros (`0` is written `0`).
pub open spec fn decimal_digits(n: nat) -> Seq<char>
    decreases n,
{
    if n < 10 {
        seq![digit_char(n as int)]
    } else {
        decimal_digits(n / 10).push(digit_char((n % 10) as int))
    }
}

fn digit_character(d: u64) -> (c: char)
    requires
        d < 10,
    ensures
        c == digit_char(d as int),
{
    if d == 0 {
        '0'
    } else if d == 1 {
        '1'
    } else if d == 2 {
        '2'
    } else if d == 3 {
        '3'
    } else if d == 4 {
        '4'
    } else if d == 5 {
        '5'
    } else if d == 6 {
        '6'
    } else if d == 7 {
        '7'
    } else if d == 8 {
        '8'
    } else {
        '9'
    }
}

/// `n` written in decimal, as the `Display` of an unsigned integer writes it.
pub fn decimal_string(n: u64) -> (s: String)
    ensures
        s@ == decimal_digits(n as nat),
    decreases n,
{
    if n < 10 {
        let mut s = String::new();
        push_char(&mut s, digit_character(n));
        s
    } else {
        let mut s = decimal_string(n / 10);
        push_char(&mut s, digit_character(n % 10));
        s
    }
}

proof fn lemma_digit_char(d: int)
    requires
        0 <= d < 10,
    ensures
        is_digit(digit_char(d)),
        digit_value(digit_char(d)) == d,
{
}

/// Reading the decimal form of `n` gives `n` back.
pub proof fn lemma_decimal_digits_value(n: nat)
    ensures
        all_digits(decimal_digits(n)),
        decimal_digits(n).len() > 0,
        decimal_value(decimal_digits(n)) == n,
    decreases n,
{
    if n < 10 {
        lemma_digit_char(n as int);
        let t = decimal_digits(n);
        assert(t.drop_last() =~= Seq::<char>::empty());
        assert(decimal_value(t.drop_last()) == 0);
        assert(decimal_value(t) == decimal_value(t.drop_last()) * 10 + digit_value(t.last()));
    } else {
        lemma_digit_char((n % 10) as int);
        lemma_decimal_digits_value(n / 10);
        let t = decimal_digits(n);
        assert(t.drop_last() == decimal_digits(n / 10));
        assert(decimal_value(t) == decimal_value(t.drop_last()) * 10 + digit_value(t.last()));
        assert((n / 10) * 10 + n % 10 == n) by (nonlinear_arith);
        assert forall|k: int| 0 <= k < t.len() implies is_digit(#[trigger] t[k]) by {
            if k < t.len() - 1 {
                assert(t[k] == decimal_digits(n / 10)[k]);
            }
        }
    }
}

/// Reading the decimal form of a `u32` as a `u32` gives it back.
pub proof fn lemma_u32_round_trip(n: u32)
    ensures
        u32_value(decimal_digits(n as nat)) == Some(n),
{
    lemma_decimal_digits_value(n as nat);
}

} // verus!
