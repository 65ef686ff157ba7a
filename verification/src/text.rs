//! Character classes and scanning over character sequences: the lexical
//! layer of the netlist grammar.

use vstd::prelude::*;

verus! {

/// Appends one character to a string (std's `String::push`).
#[verifier::external_body]
pub(crate) fn push_char(s: &mut String, c: char)
    ensures
        final(s)@ == old(s)@.push(c),
{
    s.push(c);
}

/// The characters of a string slice, in order.
pub fn to_chars(s: &str) -> (v: Vec<char>)
    ensures
        v@ == s@,
{
    let mut v: Vec<char> = Vec::new();
    for c in it: s.chars()
        invariant
            v@ == it.seq().take(it.index() as int),
            it.seq() == s@,
    {
        v.push(c);
    }
    v
}

/// A string made of the characters `chars[from..to]`.
pub fn string_from(chars: &[char], from: usize, to: usize) -> (s: String)
    requires
        from <= to <= chars@.len(),
    ensures
        s@ == chars@.subrange(from as int, to as int),
{
    let mut s = String::new();
    let mut i: usize = from;
    while i < to
        invariant
            from <= i <= to <= chars@.len(),
            s@ == chars@.subrange(from as int, i as int),
        decreases to - i,
    {
        push_char(&mut s, chars[i]);
        assert(chars@.subrange(from as int, i + 1) == chars@.subrange(from as int, i as int).push(
            chars@[i as int],
        ));
        i += 1;
    }
    s
}

/// A string with the characters of `prefix` followed by those of `suffix`.
pub fn concat(prefix: &str, suffix: &str) -> (s: String)
    ensures
        s@ == prefix@ + suffix@,
{
    let mut s = String::new();
    for c in it: prefix.chars()
        invariant
            s@ == it.seq().take(it.index() as int),
            it.seq() == prefix@,
    {
        push_char(&mut s, c);
    }
    assert(prefix@.take(prefix@.len() as int) == prefix@);
    for c in it: suffix.chars()
        invariant
            s@ == prefix@ + it.seq().take(it.index() as int),
            it.seq() == suffix@,
    {
        push_char(&mut s, c);
        assert(prefix@ + it.seq().take(it.index() + 1) == (prefix@ + it.seq().take(
            it.index() as int,
        )).push(c));
    }
    assert(suffix@.take(suffix@.len() as int) == suffix@);
    s
}

/// The string `head`, then `s`, then `tail`.
pub fn framed(head: &str, s: &str, tail: &str) -> (r: String)
    ensures
        r@ == head@ + s@ + tail@,
{
    let a = concat(head, s);
    concat(a.as_str(), tail)
}

/// The string `head`, then the characters of `card`, then `tail`.
pub fn card_message(head: &str, card: &[char], tail: &str) -> (r: String)
    ensures
        r@ == head@ + card@ + tail@,
{
    let text = string_from(card, 0, card.len());
    assert(card@.subrange(0, card@.len() as int) == card@);
    framed(head, text.as_str(), tail)
}

/// The string `c` followed by the characters of `s`.
pub fn prefixed(c: char, s: &str) -> (r: String)
    ensures
        r@ == seq![c] + s@,
{
    let mut r = String::new();
    push_char(&mut r, c);
    for x in it: s.chars()
        invariant
            r@ == seq![c] + it.seq().take(it.index() as int),
            it.seq() == s@,
    {
        push_char(&mut r, x);
        assert(seq![c] + it.seq().take(it.index() + 1) == (seq![c] + it.seq().take(
            it.index() as int,
        )).push(x));
    }
    assert(s@.take(s@.len() as int) == s@);
    r
}

/// Whether two character sequences are equal.
pub fn chars_equal(a: &[char], b: &[char]) -> (r: bool)
    ensures
        r == (a@ == b@),
{
    if a.len() != b.len() {
        return false;
    }
    let mut i: usize = 0;
    while i < a.len()
        invariant
            a@.len() == b@.len(),
            i <= a@.len(),
            forall|k: int| 0 <= k < i ==> a@[k] == b@[k],
        decreases a@.len() - i,
    {
        if a[i] != b[i] {
            return false;
        }
        i += 1;
    }
    assert(a@ =~= b@);
    true
}

/// Whether a string has exactly the given characters.
pub fn str_equals(a: &str, b: &[char]) -> (r: bool)
    ensures
        r == (a@ == b@),
{
    let v = to_chars(a);
    chars_equal(v.as_slice(), b)
}

/// The characters of each string.
pub open spec fn strings_view(v: Seq<String>) -> Seq<Seq<char>> {
    v.map_values(|x: String| x@)
}

/// `s` inside parentheses after the letter `c`: `c(s)`.
pub fn wrapped(c: char, s: &str) -> (r: String)
    ensures
        r@ == seq![c, '('] + s@ + seq![')'],
{
    let mut r = String::new();
    push_char(&mut r, c);
    push_char(&mut r, '(');
    let inner = concat(r.as_str(), s);
    let mut out = inner;
    push_char(&mut out, ')');
    assert(seq![c, '('] =~= Seq::<char>::empty().push(c).push('('));
    out
}

/// Whether one of the strings of `v` is `s`.
pub fn contains_string(v: &Vec<String>, s: &str) -> (r: bool)
    ensures
        r == strings_view(v@).contains(s@),
{
    let t = to_chars(s);
    let mut i: usize = 0;
    while i < v.len()
        invariant
            i <= v@.len(),
            t@ == s@,
            forall|j: int| 0 <= j < i ==> v@[j]@ != s@,
        decreases v@.len() - i,
    {
        if str_equals(v[i].as_str(), t.as_slice()) {
            assert(strings_view(v@)[i as int] == s@);
            return true;
        }
        i += 1;
    }
    assert forall|j: int| 0 <= j < strings_view(v@).len() implies strings_view(v@)[j] != s@ by {
        assert(strings_view(v@)[j] == v@[j]@);
    }
    false
}

/// The strings of a list of slices, as owned copies.
pub fn owned_strings(v: &Vec<&str>) -> (r: Vec<String>)
    ensures
        r@.len() == v@.len(),
        forall|i: int| 0 <= i < v@.len() ==> #[trigger] r@[i]@ == v@[i]@,
{
    let mut out: Vec<String> = Vec::new();
    let mut i: usize = 0;
    while i < v.len()
        invariant
            i <= v@.len(),
            out@.len() == i,
            forall|j: int| 0 <= j < i ==> #[trigger] out@[j]@ == v@[j]@,
        decreases v@.len() - i,
    {
        out.push(v[i].to_owned());
        i += 1;
    }
    out
}

// ---------------------------------------------------------------------------
// Character classes
// ---------------------------------------------------------------------------

pub open spec fn is_digit(c: char) -> bool {
    '0' as u32 <= c as u32 <= '9' as u32
}

pub open spec fn is_upper_letter(c: char) -> bool {
    'A' as u32 <= c as u32 <= 'Z' as u32
}

pub open spec fn is_lower_letter(c: char) -> bool {
    'a' as u32 <= c as u32 <= 'z' as u32
}

/// ASCII letters (`char::is_ascii_alphabetic`).
pub open spec fn is_letter(c: char) -> bool {
    is_upper_letter(c) || is_lower_letter(c)
}

/// ASCII letters and digits (`char::is_ascii_alphanumeric`).
pub open spec fn is_alnum(c: char) -> bool {
    is_letter(c) || is_digit(c)
}

/// The characters of names: ASCII letters, digits and `_`.
pub open spec fn is_name_char(c: char) -> bool {
    is_alnum(c) || c == '_'
}

/// Blanks that separate the fields of a card: space and tab.
pub open spec fn is_blank(c: char) -> bool {
    c == ' ' || c == '\t'
}

/// Blanks and line breaks: space, tab, carriage return, line feed.
pub open spec fn is_line_space(c: char) -> bool {
    c == ' ' || c == '\t' || c == '\r' || c == '\n'
}

/// Characters that may appear in a numeric token: anything but blanks,
/// line breaks and parentheses.
pub open spec fn is_token_char(c: char) -> bool {
    !(is_line_space(c) || c == '(' || c == ')')
}

/// Unicode `White_Space` characters (`char::is_whitespace`).
pub open spec fn is_white(c: char) -> bool {
    let u = c as u32;
    (0x09 <= u <= 0x0d) || u == 0x20 || u == 0x85 || u == 0xa0 || u == 0x1680 || (0x2000 <= u
        <= 0x200a) || u == 0x2028 || u == 0x2029 || u == 0x202f || u == 0x205f || u == 0x3000
}

/// ASCII lowercase of a character; other characters are unchanged.
pub open spec fn lower(c: char) -> char {
    if is_upper_letter(c) {
        ((c as u32) + 32) as char
    } else {
        c
    }
}

/// The KELVIN SIGN, the one character outside ASCII whose lowercase form is
/// a single ASCII character (`k`).
pub open spec fn kelvin() -> char {
    '\u{212A}'
}

/// Whether `c` matches the ASCII keyword character `k` when both are
/// lowercased by Unicode rules: equal ASCII letters up to case, or the
/// KELVIN SIGN for `k`.
pub open spec fn matches_no_case(c: char, k: char) -> bool {
    lower(c) == lower(k) || (c == kelvin() && lower(k) == 'k')
}

/// Whether `s[i..]` starts with keyword `t`, comparing by Unicode
/// lowercase forms.
pub open spec fn starts_no_case(s: Seq<char>, i: int, t: Seq<char>) -> bool {
    &&& 0 <= i
    &&& i + t.len() <= s.len()
    &&& forall|k: int| 0 <= k < t.len() ==> #[trigger] matches_no_case(s[i + k], t[k])
}

/// Whether `a` equals the keyword `w` up to case (Unicode lowercase forms).
pub open spec fn same_no_case(a: Seq<char>, w: Seq<char>) -> bool {
    a.len() == w.len() && starts_no_case(a, 0, w)
}

/// Whether `s[i..]` starts with exactly the characters of `t`.
pub open spec fn starts_exact(s: Seq<char>, i: int, t: Seq<char>) -> bool {
    &&& 0 <= i
    &&& i + t.len() <= s.len()
    &&& s.subrange(i, i + t.len()) == t
}

pub fn digit(c: char) -> (r: bool)
    ensures
        r == is_digit(c),
{
    '0' as u32 <= c as u32 && c as u32 <= '9' as u32
}

pub fn letter(c: char) -> (r: bool)
    ensures
        r == is_letter(c),
{
    ('A' as u32 <= c as u32 && c as u32 <= 'Z' as u32) || ('a' as u32 <= c as u32 && c as u32
        <= 'z' as u32)
}

pub fn to_lower(c: char) -> (r: char)
    ensures
        r == lower(c),
{
    if 'A' as u32 <= c as u32 && c as u32 <= 'Z' as u32 {
        let u: u32 = c as u32 + 32;
        assert('a' as u32 <= u <= 'z' as u32);
        char_from(u)
    } else {
        c
    }
}

/// The ASCII character with code `u`.
fn char_from(u: u32) -> (c: char)
    requires
        u < 128,
    ensures
        c == u as char,
        c as u32 == u,
{
    let b: u8 = u as u8;
    b as char
}

pub fn no_case_match(c: char, k: char) -> (r: bool)
    ensures
        r == matches_no_case(c, k),
{
    to_lower(c) == to_lower(k) || (c == '\u{212A}' && to_lower(k) == 'k')
}

/// Whether `s[i..]` starts with keyword `t`, up to case.
pub fn starts_with_no_case(s: &[char], i: usize, t: &[char]) -> (r: bool)
    ensures
        r == starts_no_case(s@, i as int, t@),
        r ==> i + t@.len() <= s.len(),
{
    if i > s.len() || s.len() - i < t.len() {
        return false;
    }
    let mut k: usize = 0;
    while k < t.len()
        invariant
            i + t@.len() <= s@.len(),
            s@.len() == s.len(),
            k <= t@.len(),
            forall|j: int| 0 <= j < k ==> #[trigger] matches_no_case(s@[i + j], t@[j]),
        decreases t@.len() - k,
    {
        if !no_case_match(s[i + k], t[k]) {
            return false;
        }
        k += 1;
    }
    true
}

/// Whether `a` equals the keyword `w` up to case.
pub fn equal_no_case(a: &[char], w: &[char]) -> (r: bool)
    ensures
        r == same_no_case(a@, w@),
{
    a.len() == w.len() && starts_with_no_case(a, 0, w)
}

/// Whether `s[i..]` starts with exactly the characters of `t`.
pub fn starts_with_exact(s: &[char], i: usize, t: &[char]) -> (r: bool)
    ensures
        r == starts_exact(s@, i as int, t@),
        r ==> i + t@.len() <= s.len(),
{
    if i > s.len() || s.len() - i < t.len() {
        return false;
    }
    let mut k: usize = 0;
    while k < t.len()
        invariant
            i + t@.len() <= s@.len(),
            s@.len() == s.len(),
            k <= t@.len(),
            forall|j: int| 0 <= j < k ==> s@[i + j] == t@[j],
        decreases t@.len() - k,
    {
        if s[i + k] != t[k] {
            assert(s@.subrange(i as int, i + t@.len())[k as int] != t@[k as int]);
            return false;
        }
        k += 1;
    }
    assert(s@.subrange(i as int, i + t@.len()) =~= t@);
    true
}

// ---------------------------------------------------------------------------
// Runs of characters of one class
// ---------------------------------------------------------------------------

/// The classes of characters that the grammar takes in runs.
#[derive(Clone, Copy, PartialEq, Eq, Debug)]
pub enum CharClass {
    Name,
    Blank,
    LineSpace,
    Token,
    Digit,
    Letter,
    Alnum,
}

pub open spec fn in_class(class: CharClass, c: char) -> bool {
    match class {
        CharClass::Name => is_name_char(c),
        CharClass::Blank => is_blank(c),
        CharClass::LineSpace => is_line_space(c),
        CharClass::Token => is_token_char(c),
        CharClass::Digit => is_digit(c),
        CharClass::Letter => is_letter(c),
        CharClass::Alnum => is_alnum(c),
    }
}

pub fn class_has(class: CharClass, c: char) -> (r: bool)
    ensures
        r == in_class(class, c),
{
    match class {
        CharClass::Name => letter(c) || digit(c) || c == '_',
        CharClass::Blank => c == ' ' || c == '\t',
        CharClass::LineSpace => c == ' ' || c == '\t' || c == '\r' || c == '\n',
        CharClass::Token => !(c == ' ' || c == '\t' || c == '\r' || c == '\n' || c == '(' || c
            == ')'),
        CharClass::Digit => digit(c),
        CharClass::Letter => letter(c),
        CharClass::Alnum => letter(c) || digit(c),
    }
}

/// The end of the longest run of `class` characters that starts at `i`.
pub open spec fn run_end(s: Seq<char>, i: int, class: CharClass) -> int
    decreases s.len() - i,
{
    if 0 <= i < s.len() && in_class(class, s[i]) {
        run_end(s, i + 1, class)
    } else {
        i
    }
}

pub proof fn lemma_run_end(s: Seq<char>, i: int, class: CharClass)
    requires
        0 <= i <= s.len(),
    ensures
        i <= run_end(s, i, class) <= s.len(),
        forall|k: int| i <= k < run_end(s, i, class) ==> in_class(class, #[trigger] s[k]),
        run_end(s, i, class) < s.len() ==> !in_class(class, s[run_end(s, i, class)]),
    decreases s.len() - i,
{
    if i < s.len() && in_class(class, s[i]) {
        lemma_run_end(s, i + 1, class);
    }
}

/// A run from `j` looks only at the characters from `j` on.
pub proof fn lemma_run_end_local(s: Seq<char>, s2: Seq<char>, i: int, j: int, class: CharClass)
    requires
        s.len() == s2.len(),
        0 <= i <= j,
        forall|k: int| i <= k < s.len() ==> s[k] == s2[k],
    ensures
        run_end(s, j, class) == run_end(s2, j, class),
    decreases s.len() - j,
{
    if 0 <= j < s.len() && in_class(class, s[j]) {
        lemma_run_end_local(s, s2, i, j + 1, class);
    }
}

/// `s` with one more space at position `k`.
pub open spec fn insert_blank(s: Seq<char>, k: int) -> Seq<char> {
    s.take(k) + seq![' '] + s.skip(k)
}

/// Where position `p` of `s` lands once a character is inserted at `k`.
pub open spec fn shifted(k: int, p: int) -> int {
    if p >= k {
        p + 1
    } else {
        p
    }
}

proof fn lemma_run_after_insert(s: Seq<char>, k: int, j: int, class: CharClass)
    requires
        0 <= k <= j <= s.len(),
    ensures
        run_end(insert_blank(s, k), j + 1, class) == run_end(s, j, class) + 1,
    decreases s.len() - j,
{
    let t = insert_blank(s, k);
    assert(t.len() == s.len() + 1);
    if j < s.len() {
        assert(t[j + 1] == s[j]);
        if in_class(class, s[j]) {
            lemma_run_after_insert(s, k, j + 1, class);
        }
    }
}

/// Inserting a space right after a blank moves every run by the insertion:
/// blank runs grow across it, and runs of a class without blanks never
/// reach it.
pub proof fn lemma_run_shift(s: Seq<char>, k: int, j: int, class: CharClass)
    requires
        1 <= k <= s.len(),
        is_blank(s[k - 1]),
        0 <= j <= s.len(),
        class == CharClass::Blank || (!in_class(class, ' ') && !in_class(class, '\t')),
    ensures
        run_end(insert_blank(s, k), shifted(k, j), class) == shifted(k, run_end(s, j, class)),
        run_end(s, j, class) >= j,
    decreases s.len() - j,
{
    let t = insert_blank(s, k);
    assert(t.len() == s.len() + 1);
    lemma_run_end(s, j, class);
    if j >= k {
        lemma_run_after_insert(s, k, j, class);
    } else {
        assert(t[j] == s[j]);
        if in_class(class, s[j]) {
            assert(run_end(t, j, class) == run_end(t, j + 1, class));
            assert(run_end(s, j, class) == run_end(s, j + 1, class));
            if j + 1 < k {
                lemma_run_shift(s, k, j + 1, class);
            } else {
                assert(j + 1 == k);
                assert(class == CharClass::Blank);
                assert(t[k] == ' ');
                assert(in_class(class, t[k]));
                assert(run_end(t, k, class) == run_end(t, k + 1, class));
                lemma_run_after_insert(s, k, k, class);
                lemma_run_end(s, k, class);
            }
        } else {
            assert(run_end(t, j, class) == j);
        }
    }
}

/// The characters of a run that does not cross the insertion point are
/// found again at their shifted place.
pub proof fn lemma_subrange_shift(s: Seq<char>, k: int, a: int, b: int)
    requires
        0 <= a <= b <= s.len(),
        0 <= k <= s.len(),
        b < k || a >= k,
    ensures
        insert_blank(s, k).subrange(shifted(k, a), shifted(k, b)) == s.subrange(a, b),
{
    let t = insert_blank(s, k);
    assert(t.subrange(shifted(k, a), shifted(k, b)) =~= s.subrange(a, b));
}

/// The run of at least one `class` character at `i`, by its end.
pub open spec fn run1(s: Seq<char>, i: int, class: CharClass) -> Option<int> {
    if run_end(s, i, class) > i {
        Some(run_end(s, i, class))
    } else {
        None
    }
}

pub fn scan_run(s: &[char], i: usize, class: CharClass) -> (e: usize)
    requires
        i <= s@.len(),
    ensures
        e == run_end(s@, i as int, class),
        i <= e <= s@.len(),
{
    let mut j = i;
    while j < s.len() && class_has(class, s[j])
        invariant
            i <= j <= s@.len(),
            run_end(s@, j as int, class) == run_end(s@, i as int, class),
        decreases s@.len() - j,
    {
        j += 1;
    }
    proof {
        lemma_run_end(s@, i as int, class);
    }
    j
}

/// A run of at least one `class` character at `i`.
pub fn scan_run1(s: &[char], i: usize, class: CharClass) -> (r: Option<usize>)
    requires
        i <= s@.len(),
    ensures
        match r {
            Some(e) => run1(s@, i as int, class) == Some(e as int) && i < e <= s@.len(),
            None => run1(s@, i as int, class) is None,
        },
{
    let e = scan_run(s, i, class);
    if e > i {
        Some(e)
    } else {
        None
    }
}

// ---------------------------------------------------------------------------
// Trimming, lines and comments
// ---------------------------------------------------------------------------

/// Number of leading white-space characters of `s`.
pub open spec fn lead_white(s: Seq<char>) -> int
    decreases s.len(),
{
    if s.len() > 0 && is_white(s[0]) {
        1 + lead_white(s.drop_first())
    } else {
        0
    }
}

/// Number of trailing white-space characters of `s`.
pub open spec fn trail_white(s: Seq<char>) -> int
    decreases s.len(),
{
    if s.len() > 0 && is_white(s.last()) {
        1 + trail_white(s.drop_last())
    } else {
        0
    }
}

/// `s` without leading and trailing white space (`str::trim`).
pub open spec fn trimmed(s: Seq<char>) -> Seq<char> {
    let a = s.skip(lead_white(s));
    a.take(a.len() - trail_white(a))
}



pub fn white(c: char) -> (r: bool)
    ensures
        r == is_white(c),
{
    let u = c as u32;
    (0x09 <= u && u <= 0x0d) || u == 0x20 || u == 0x85 || u == 0xa0 || u == 0x1680 || (0x2000
        <= u && u <= 0x200a) || u == 0x2028 || u == 0x2029 || u == 0x202f || u == 0x205f || u
        == 0x3000
}

/// `s` without leading and trailing white space.
pub fn trim_chars(s: &[char]) -> (r: Vec<char>)
    ensures
        r@ == trimmed(s@),
{
    let mut a: usize = 0;
    assert(s@.skip(0) == s@);
    while a < s.len() && white(s[a])
        invariant
            a <= s@.len(),
            lead_white(s@) == a + lead_white(s@.skip(a as int)),
        decreases s@.len() - a,
    {
        assert(s@.skip(a as int).drop_first() == s@.skip(a + 1));
        a += 1;
    }
    let ghost rest = s@.skip(a as int);
    assert(lead_white(rest) == 0);
    let mut b: usize = s.len();
    assert(rest.take(b - a) == rest);
    while b > a && white(s[b - 1])
        invariant
            a <= b <= s@.len(),
            rest == s@.skip(a as int),
            trail_white(rest) == (s@.len() - b) + trail_white(rest.take(b - a)),
        decreases b - a,
    {
        assert(rest.take(b - a).drop_last() == rest.take(b - 1 - a));
        assert(rest.take(b - a).last() == s@[b - 1]);
        b -= 1;
    }
    assert(trail_white(rest.take(b - a)) == 0);
    let mut out: Vec<char> = Vec::new();
    let mut k = a;
    while k < b
        invariant
            a <= k <= b <= s@.len(),
            out@ == s@.subrange(a as int, k as int),
        decreases b - k,
    {
        out.push(s[k]);
        assert(s@.subrange(a as int, k + 1) == s@.subrange(a as int, k as int).push(s@[k as int]));
        k += 1;
    }
    assert(out@ =~= trimmed(s@));
    out
}

pub open spec fn is_comment_mark(c: char, star: bool) -> bool {
    c == '%' || (star && c == '*')
}

/// Length of `s` up to its first comment mark: `%`, and `*` too when `star`.
pub open spec fn comment_start(s: Seq<char>, star: bool) -> int
    decreases s.len(),
{
    if s.len() == 0 || is_comment_mark(s[0], star) {
        0
    } else {
        1 + comment_start(s.drop_first(), star)
    }
}

pub proof fn lemma_comment_start(s: Seq<char>, star: bool)
    ensures
        0 <= comment_start(s, star) <= s.len(),
        forall|k: int| 0 <= k < comment_start(s, star) ==> !is_comment_mark(#[trigger] s[k], star),
        comment_start(s, star) < s.len() ==> is_comment_mark(s[comment_start(s, star)], star),
    decreases s.len(),
{
    if !(s.len() == 0 || is_comment_mark(s[0], star)) {
        lemma_comment_start(s.drop_first(), star);
        assert forall|k: int| 0 <= k < comment_start(s, star) implies !is_comment_mark(
            #[trigger] s[k],
            star,
        ) by {
            if k > 0 {
                assert(s[k] == s.drop_first()[k - 1]);
            }
        }
    }
}

proof fn lemma_comment_start_append(s: Seq<char>, t: Seq<char>, star: bool)
    ensures
        comment_start(s + t, star) == if comment_start(s, star) < s.len() {
            comment_start(s, star)
        } else {
            s.len() + comment_start(t, star)
        },
    decreases s.len(),
{
    if s.len() > 0 {
        assert((s + t)[0] == s[0]);
        if !is_comment_mark(s[0], star) {
            assert((s + t).drop_first() == s.drop_first() + t);
            lemma_comment_start_append(s.drop_first(), t, star);
        }
    } else {
        assert(s + t == t);
    }
}

/// What follows a comment mark is ignored: a card with `%` and any text
/// appended reads as the card alone.
pub proof fn law_comment_ignored(s: Seq<char>, t: Seq<char>, star: bool)
    ensures
        without_comment(s + seq!['%'] + t, star) == without_comment(s, star),
{
    let tail = seq!['%'] + t;
    assert(s + seq!['%'] + t == s + tail);
    lemma_comment_start_append(s, tail, star);
    lemma_comment_start(s, star);
    assert(comment_start(tail, star) == 0);
    let k = comment_start(s, star);
    assert((s + tail).take(k) == s.take(k));
}

/// A card with its comment removed: the text before the first comment mark,
/// trimmed. `star` says whether `*` starts a comment as `%` does.
pub open spec fn without_comment(s: Seq<char>, star: bool) -> Seq<char> {
    trimmed(s.take(comment_start(s, star)))
}

/// The text of a card before its comment, trimmed.
pub fn strip_comment(s: &[char], star: bool) -> (r: Vec<char>)
    ensures
        r@ == without_comment(s@, star),
{
    let mut n: usize = 0;
    assert(s@.skip(0) == s@);
    while n < s.len() && !(s[n] == '%' || (star && s[n] == '*'))
        invariant
            n <= s@.len(),
            comment_start(s@, star) == n + comment_start(s@.skip(n as int), star),
        decreases s@.len() - n,
    {
        assert(s@.skip(n as int).drop_first() == s@.skip(n + 1));
        n += 1;
    }
    assert(s@.skip(n as int).len() == 0 || s@.skip(n as int)[0] == s@[n as int]);
    let head = slice_prefix(s, n);
    trim_chars(head.as_slice())
}

/// The first `n` characters of `s`.
pub fn slice_prefix(s: &[char], n: usize) -> (r: Vec<char>)
    requires
        n <= s@.len(),
    ensures
        r@ == s@.take(n as int),
{
    let mut out: Vec<char> = Vec::new();
    let mut k: usize = 0;
    while k < n
        invariant
            k <= n <= s@.len(),
            out@ == s@.take(k as int),
        decreases n - k,
    {
        out.push(s[k]);
        assert(s@.take(k + 1) == s@.take(k as int).push(s@[k as int]));
        k += 1;
    }
    out
}

/// The characters `s[from..to]`.
pub fn slice_range(s: &[char], from: usize, to: usize) -> (r: Vec<char>)
    requires
        from <= to <= s@.len(),
    ensures
        r@ == s@.subrange(from as int, to as int),
{
    let mut out: Vec<char> = Vec::new();
    let mut k: usize = from;
    while k < to
        invariant
            from <= k <= to <= s@.len(),
            out@ == s@.subrange(from as int, k as int),
        decreases to - k,
    {
        out.push(s[k]);
        assert(s@.subrange(from as int, k + 1) == s@.subrange(from as int, k as int).push(
            s@[k as int],
        ));
        k += 1;
    }
    out
}


/// The lines of a text: the pieces between line feeds, in order (a text
/// without line feeds is one line; a final line feed is followed by an
/// empty line).
pub open spec fn split_lines(s: Seq<char>) -> Seq<Seq<char>>
    decreases s.len(),
{
    if s.len() == 0 {
        seq![Seq::empty()]
    } else {
        let p = split_lines(s.drop_last());
        if s.last() == '\n' {
            p.push(Seq::empty())
        } else {
            p.update(p.len() - 1, p.last().push(s.last()))
        }
    }
}


/// The lines of a list, by their characters.
pub open spec fn lines_view(v: Seq<Vec<char>>) -> Seq<Seq<char>> {
    v.map_values(|l: Vec<char>| l@)
}

/// The lines of `input` (see `split_lines`).
pub fn lines_of(input: &str) -> (r: Vec<Vec<char>>)
    ensures
        lines_view(r@) == split_lines(input@),
{
    let s = to_chars(input);
    let mut lines: Vec<Vec<char>> = Vec::new();
    let mut current: Vec<char> = Vec::new();
    let mut i: usize = 0;
    assert(s@.take(0) =~= Seq::<char>::empty());
    assert(lines_view(lines@).push(current@) =~= split_lines(s@.take(0)));
    while i < s.len()
        invariant
            i <= s@.len(),
            lines_view(lines@).push(current@) == split_lines(s@.take(i as int)),
        decreases s@.len() - i,
    {
        let c = s[i];
        proof {
            assert(s@.take(i + 1).drop_last() == s@.take(i as int));
            assert(s@.take(i + 1).last() == c);
        }
        if c == '\n' {
            let ghost before = lines@;
            let mut done: Vec<char> = Vec::new();
            std::mem::swap(&mut done, &mut current);
            lines.push(done);
            assert(lines_view(lines@) =~= lines_view(before).push(done@));
            assert(lines_view(lines@).push(current@) =~= split_lines(s@.take(i + 1)));
        } else {
            let ghost before = current@;
            current.push(c);
            assert(lines_view(lines@).push(current@) =~= split_lines(s@.take(i as int)).update(
                lines@.len() as int,
                before.push(c),
            ));
        }
        i += 1;
    }
    let ghost before = lines@;
    lines.push(current);
    assert(lines_view(lines@) =~= lines_view(before).push(current@));
    assert(s@.take(s@.len() as int) == s@);
    lines
}

} // verus!
