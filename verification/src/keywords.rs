//! Keywords read in any case: a line that starts with a line keyword
//! (`.model`, `.subckt`, `.ends`, `.control`, `.endc`, `.end`) reads the
//! same whatever the case of the keyword's letters, and so do the kind of a
//! `.model` card (`NMOS`, `PMOS`, `D`) and a voltage source's parameter
//! block (`DC`, `AC`, `PULSE`, `SIN`).

use vstd::prelude::*;

use crate::blank_kinds::{
    blank_eq, lemma_blanks_same, lemma_char_same, lemma_double_same,
    lemma_keys_blank_free, lemma_keyword_same, lemma_more_values_same, lemma_name_same,
    lemma_parameters_same, lemma_spaced_name_same, lemma_spaced_names_same, lemma_stretch_same,
    lemma_value_same, same_from,
};
use crate::elements::voltage_source::{
    ac_key, dc_key, keyed_double_at, keyed_values_at, more_values, param_at, pulse_key, sin_key,
};
use crate::elements::subcircuit::{
    ends_keyword, is_blank_line, subckt_header_at, subckt_keyword, subckt_scan, subckt_step,
    subcircuits_of, SubcircuitDefinitionView, SubcktScan, SubcktState,
};
use crate::elements::{element_at, element_line};
use crate::models::{dot_model, model_body_at, model_line, model_variant_at};
use crate::parser::{
    control_keyword, desc_scan, desc_step, describe, end_keyword, endc_keyword, model_keyword,
    DescScan, DescState,
};
use crate::spacing::{
    blank_free, lemma_comment_start_is, lemma_lead_white, lemma_lead_white_is, lemma_model_words_blank_free,
    lemma_trail_white, lemma_trail_white_is,
};
use crate::syntax::{blanks_at, name_at, skip_blanks, spaced_name, value_at, ParseFailure};
use crate::text::{
    comment_start, is_blank, is_comment_mark, is_white, kelvin, lead_white, lemma_comment_start,
    in_class, lemma_run_end, lower, run_end, CharClass,
    matches_no_case, same_no_case, split_lines, starts_no_case, trail_white, without_comment,
};

verus! {

/// Two texts of one length that differ at most in the case of their first
/// `n` characters, which are ASCII.
pub open spec fn case_alike_to(x: Seq<char>, y: Seq<char>, n: int) -> bool {
    &&& x.len() == y.len()
    &&& 0 <= n <= x.len()
    &&& forall|i: int|
        0 <= i < n ==> (#[trigger] x[i] as u32) < 128 && (y[i] as u32) < 128 && lower(x[i]) == lower(
            y[i],
        )
    &&& forall|i: int| n <= i < x.len() ==> #[trigger] x[i] == y[i]
}

/// The keywords that open a line of their own kind.
pub open spec fn line_keyword(w: Seq<char>) -> bool {
    ||| w == control_keyword()
    ||| w == endc_keyword()
    ||| w == model_keyword()
    ||| w == subckt_keyword()
    ||| w == ends_keyword()
    ||| w == end_keyword()
}

/// Whether every character of `w` is ASCII.
pub open spec fn ascii_word(w: Seq<char>) -> bool {
    forall|m: int| 0 <= m < w.len() ==> (#[trigger] w[m] as u32) < 128
}

proof fn lemma_char_alike(a: char, b: char, c: char)
    requires
        (a as u32) < 128,
        (b as u32) < 128,
        lower(a) == lower(b),
        (c as u32) < 128,
    ensures
        matches_no_case(a, c) == matches_no_case(b, c),
        is_white(a) == is_white(b),
        is_comment_mark(a, true) == is_comment_mark(b, true),
        is_comment_mark(a, false) == is_comment_mark(b, false),
        a != kelvin(),
        b != kelvin(),
        a == '.' <==> b == '.',
{
}

pub proof fn lemma_keyword_alike(x: Seq<char>, y: Seq<char>, n: int, j: int, w: Seq<char>)
    requires
        case_alike_to(x, y, n),
        ascii_word(w),
    ensures
        starts_no_case(y, j, w) == starts_no_case(x, j, w),
{
    if 0 <= j && j + w.len() <= x.len() {
        assert forall|m: int| 0 <= m < w.len() implies #[trigger] matches_no_case(y[j + m], w[m])
            == matches_no_case(x[j + m], w[m]) by {
            if j + m < n {
                lemma_char_alike(x[j + m], y[j + m], w[m]);
            } else {
                assert(x[j + m] == y[j + m]);
            }
        }
        if starts_no_case(x, j, w) {
            assert forall|m: int| 0 <= m < w.len() implies #[trigger] matches_no_case(
                y[j + m],
                w[m],
            ) by {
                assert(matches_no_case(x[j + m], w[m]));
            }
        }
        if starts_no_case(y, j, w) {
            assert forall|m: int| 0 <= m < w.len() implies #[trigger] matches_no_case(
                x[j + m],
                w[m],
            ) by {
                assert(matches_no_case(y[j + m], w[m]));
            }
        }
    }
}

proof fn lemma_keywords_ascii()
    ensures
        ascii_word(control_keyword()),
        ascii_word(endc_keyword()),
        ascii_word(model_keyword()),
        ascii_word(subckt_keyword()),
        ascii_word(ends_keyword()),
        ascii_word(end_keyword()),
        ascii_word(dot_model()),
{
    assert forall|m: int| 0 <= m < control_keyword().len() implies (#[trigger] control_keyword()[m]
        as u32) < 128 by {
    }
    assert forall|m: int| 0 <= m < endc_keyword().len() implies (#[trigger] endc_keyword()[m] as u32)
        < 128 by {
    }
    assert forall|m: int| 0 <= m < model_keyword().len() implies (#[trigger] model_keyword()[m]
        as u32) < 128 by {
    }
    assert forall|m: int| 0 <= m < subckt_keyword().len() implies (#[trigger] subckt_keyword()[m]
        as u32) < 128 by {
    }
    assert forall|m: int| 0 <= m < ends_keyword().len() implies (#[trigger] ends_keyword()[m] as u32)
        < 128 by {
    }
    assert forall|m: int| 0 <= m < end_keyword().len() implies (#[trigger] end_keyword()[m] as u32)
        < 128 by {
    }
    assert forall|m: int| 0 <= m < dot_model().len() implies (#[trigger] dot_model()[m] as u32)
        < 128 by {
    }
}

proof fn lemma_dot_starts(x: Seq<char>, t: Seq<char>)
    requires
        x.len() > 0,
        x[0] == '.',
        t.len() > 0,
        lower(t[0]) != '.',
    ensures
        !starts_no_case(x, 0, t),
{
    if starts_no_case(x, 0, t) {
        assert(matches_no_case(x[0int + 0int], t[0]));
    }
}

/// No card starts with a `.`.
proof fn lemma_dot_no_card(x: Seq<char>)
    requires
        x.len() > 0,
        x[0] == '.',
    ensures
        element_at(x) == Err::<(int, crate::elements::ElementView), ParseFailure>(ParseFailure::Error),
{
    lemma_dot_starts(x, seq!['R']);
    lemma_dot_starts(x, seq!['C']);
    lemma_dot_starts(x, seq!['L']);
    lemma_dot_starts(x, seq!['I']);
    lemma_dot_starts(x, seq!['d']);
    lemma_dot_starts(x, seq!['q']);
    lemma_dot_starts(x, seq!['m', 'n']);
    lemma_dot_starts(x, seq!['x']);
}

/// A line without its comment, trimmed, holds no comment mark, starts and
/// ends with a character that is not white space, and is its own text
/// before a `%`, trimmed.
pub proof fn lemma_clean_line(s: Seq<char>)
    ensures
        forall|i: int|
            0 <= i < without_comment(s, true).len() ==> !is_comment_mark(
                #[trigger] without_comment(s, true)[i],
                true,
            ),
        without_comment(s, true).len() > 0 ==> !is_white(without_comment(s, true)[0]),
        without_comment(without_comment(s, true), false) == without_comment(s, true),
{
    lemma_comment_start(s, true);
    let c = comment_start(s, true);
    let t = s.take(c);
    lemma_lead_white(t);
    let a = lead_white(t);
    let q = t.skip(a);
    lemma_trail_white(q);
    let z = trail_white(q);
    let u = q.take(q.len() - z);
    assert(u == without_comment(s, true));
    assert forall|i: int| 0 <= i < u.len() implies !is_comment_mark(#[trigger] u[i], true) by {
        assert(u[i] == s[a + i]);
    }
    assert forall|i: int| 0 <= i < u.len() implies !is_comment_mark(#[trigger] u[i], false) by {
        assert(!is_comment_mark(u[i], true));
    }
    if u.len() > 0 {
        assert(u[0] == q[0]);
        assert(u[u.len() - 1] == q[q.len() - z - 1]);
    }
    lemma_comment_start_is(u, false, u.len() as int);
    assert(u.take(u.len() as int) =~= u);
    lemma_lead_white_is(u, 0);
    assert(u.skip(0) =~= u);
    lemma_trail_white_is(u, 0);
}

proof fn lemma_model_variant_alike(x: Seq<char>, y: Seq<char>, n: int)
    requires
        case_alike_to(x, y, n),
        n <= 6,
    ensures
        model_variant_at(y, 0) == model_variant_at(x, 0),
{
    lemma_keywords_ascii();
    lemma_model_words_blank_free();
    lemma_keyword_alike(x, y, n, 0, dot_model());
    assert(same_from(x, y, 6)) by {
        assert forall|i: int| 6 <= i < x.len() implies #[trigger] blank_eq(x[i], y[i]) by {
            assert(x[i] == y[i]);
        }
    }
    if starts_no_case(x, 0, dot_model()) {
        lemma_blanks_same(x, y, 6, 6);
        if let Some(b) = blanks_at(x, 6) {
            lemma_name_same(x, y, 6, b);
            if let Some(e) = name_at(x, b) {
                lemma_stretch_same(x, y, 6, b, e);
                lemma_blanks_same(x, y, 6, e);
                if let Some(t) = blanks_at(x, e) {
                    let name = x.subrange(b, e);
                    lemma_keyword_same(x, y, 6, t, seq!['N', 'M', 'O', 'S']);
                    lemma_keyword_same(x, y, 6, t, seq!['P', 'M', 'O', 'S']);
                    lemma_keyword_same(x, y, 6, t, seq!['D']);
                    if t + 4 <= x.len() {
                        lemma_parameters_same(x, y, 6, t + 4);
                    }
                    if t + 1 <= x.len() {
                        lemma_parameters_same(x, y, 6, t + 1);
                    }
                    assert(model_body_at(y, t, name) == model_body_at(x, t, name));
                }
            }
        }
    }
}

proof fn lemma_header_alike(x: Seq<char>, y: Seq<char>, n: int)
    requires
        case_alike_to(x, y, n),
        n <= 7,
    ensures
        subckt_header_at(y) == subckt_header_at(x),
{
    lemma_keywords_ascii();
    lemma_keyword_alike(x, y, n, 0, subckt_keyword());
    assert(same_from(x, y, 7)) by {
        assert forall|i: int| 7 <= i < x.len() implies #[trigger] blank_eq(x[i], y[i]) by {
            assert(x[i] == y[i]);
        }
    }
    if starts_no_case(x, 0, subckt_keyword()) {
        lemma_spaced_name_same(x, y, 7, 7);
        if let Some((b, e)) = spaced_name(x, 7) {
            lemma_stretch_same(x, y, 7, b, e);
            lemma_spaced_names_same(x, y, 7, e);
        }
    }
}

/// How a line that starts with a keyword begins: a `.`, so neither blank nor
/// a card, and keywords are recognised in it alike in either case.
proof fn lemma_keyword_starts(u: Seq<char>, v: Seq<char>, w: Seq<char>)
    requires
        line_keyword(w),
        starts_no_case(u, 0, w),
        case_alike_to(u, v, w.len() as int),
    ensures
        !is_blank_line(u),
        !is_blank_line(v),
        starts_no_case(v, 0, control_keyword()) == starts_no_case(u, 0, control_keyword()),
        starts_no_case(v, 0, endc_keyword()) == starts_no_case(u, 0, endc_keyword()),
        starts_no_case(v, 0, model_keyword()) == starts_no_case(u, 0, model_keyword()),
        starts_no_case(v, 0, subckt_keyword()) == starts_no_case(u, 0, subckt_keyword()),
        starts_no_case(v, 0, ends_keyword()) == starts_no_case(u, 0, ends_keyword()),
        same_no_case(v, end_keyword()) == same_no_case(u, end_keyword()),
        element_line(v) == element_line(u),
{
    let n = w.len() as int;
    lemma_keywords_ascii();
    lemma_keyword_alike(u, v, n, 0, control_keyword());
    lemma_keyword_alike(u, v, n, 0, endc_keyword());
    lemma_keyword_alike(u, v, n, 0, model_keyword());
    lemma_keyword_alike(u, v, n, 0, subckt_keyword());
    lemma_keyword_alike(u, v, n, 0, ends_keyword());
    lemma_keyword_alike(u, v, n, 0, end_keyword());
    assert(matches_no_case(u[0int + 0int], w[0]));
    assert(w[0] == '.');
    assert(u[0] == '.');
    lemma_char_alike(u[0], v[0], '.');
    assert(v[0] == '.');
    lemma_dot_no_card(u);
    lemma_dot_no_card(v);
}

/// A `.model` line reads the same in either case of its keyword.
proof fn lemma_keyword_model(x: Seq<char>, y: Seq<char>, w: Seq<char>)
    requires
        line_keyword(w),
        starts_no_case(without_comment(x, true), 0, w),
        case_alike_to(without_comment(x, true), without_comment(y, true), w.len() as int),
        starts_no_case(without_comment(x, true), 0, model_keyword()),
    ensures
        model_line(without_comment(y, true)) == model_line(without_comment(x, true)),
{
    let u = without_comment(x, true);
    let v = without_comment(y, true);
    assert(w == model_keyword()) by {
        assert(matches_no_case(u[0int + 1int], w[1]));
        assert(matches_no_case(u[0int + 1int], model_keyword()[1]));
        if w.len() > 2 {
            assert(matches_no_case(u[0int + 2int], w[2]));
            assert(matches_no_case(u[0int + 2int], model_keyword()[2]));
        }
    }
    lemma_clean_line(x);
    lemma_clean_line(y);
    lemma_model_variant_alike(u, v, w.len() as int);
}

/// A `.subckt` line reads the same in either case of its keyword.
proof fn lemma_keyword_header(u: Seq<char>, v: Seq<char>, w: Seq<char>)
    requires
        line_keyword(w),
        starts_no_case(u, 0, w),
        case_alike_to(u, v, w.len() as int),
        starts_no_case(u, 0, subckt_keyword()),
    ensures
        subckt_header_at(v) == subckt_header_at(u),
        (v[5] == kelvin()) == (u[5] == kelvin()),
{
    let n = w.len() as int;
    assert(n <= 7) by {
        if n > 7 {
            assert(w == control_keyword());
            assert(matches_no_case(u[0int + 1int], w[1]));
            assert(matches_no_case(u[0int + 1int], subckt_keyword()[1]));
        }
    }
    lemma_header_alike(u, v, n);
    if n > 5 {
        assert((u[5] as u32) < 128 && (v[5] as u32) < 128);
    } else {
        assert(u[5] == v[5]);
    }
}

/// A line that starts with a keyword reads the same in the description
/// scan whatever the case of the keyword's letters.
pub proof fn lemma_desc_step_keyword(
    defs: Map<Seq<char>, SubcircuitDefinitionView>,
    st: DescState,
    x: Seq<char>,
    y: Seq<char>,
    w: Seq<char>,
    number: nat,
    fuel: nat,
)
    requires
        line_keyword(w),
        starts_no_case(without_comment(x, true), 0, w),
        case_alike_to(without_comment(x, true), without_comment(y, true), w.len() as int),
    ensures
        desc_step(defs, st, without_comment(y, true), number, fuel) == desc_step(
            defs,
            st,
            without_comment(x, true),
            number,
            fuel,
        ),
{
    let u = without_comment(x, true);
    let v = without_comment(y, true);
    lemma_keyword_starts(u, v, w);
    if starts_no_case(u, 0, model_keyword()) {
        lemma_keyword_model(x, y, w);
    }
}

/// A line that starts with a keyword reads the same in the definitions
/// scan whatever the case of the keyword's letters.
pub proof fn lemma_subckt_step_keyword(st: SubcktState, x: Seq<char>, y: Seq<char>, w: Seq<char>)
    requires
        line_keyword(w),
        starts_no_case(without_comment(x, true), 0, w),
        case_alike_to(without_comment(x, true), without_comment(y, true), w.len() as int),
    ensures
        subckt_step(st, without_comment(y, true)) == subckt_step(st, without_comment(x, true)),
{
    let u = without_comment(x, true);
    let v = without_comment(y, true);
    lemma_keyword_starts(u, v, w);
    if starts_no_case(u, 0, subckt_keyword()) {
        lemma_keyword_header(u, v, w);
    }
}

/// Whether the text `v` is `u`, which starts with keyword `w`, with the
/// case of the keyword's letters changed.
pub open spec fn recased_keyword(u: Seq<char>, v: Seq<char>, w: Seq<char>) -> bool {
    starts_no_case(u, 0, w) && case_alike_to(u, v, w.len() as int)
}

/// Two lines that read alike once their comments are removed and they are
/// trimmed: the same text, or the same text but for the case of the
/// line keyword that it starts with, or of the kind of its `.model` card.
pub open spec fn keyword_alike(x: Seq<char>, y: Seq<char>) -> bool {
    let u = without_comment(x, true);
    let v = without_comment(y, true);
    ||| u == v
    ||| recased_keyword(u, v, control_keyword())
    ||| recased_keyword(u, v, endc_keyword())
    ||| recased_keyword(u, v, model_keyword())
    ||| recased_keyword(u, v, subckt_keyword())
    ||| recased_keyword(u, v, ends_keyword())
    ||| recased_keyword(u, v, end_keyword())
    ||| recased_kind(u, v)
}

/// Two lists of lines, line by line alike in the sense of `keyword_alike`.
pub open spec fn keyword_alike_lines(a: Seq<Seq<char>>, b: Seq<Seq<char>>) -> bool {
    &&& a.len() == b.len()
    &&& forall|i: int| 0 <= i < a.len() ==> #[trigger] keyword_alike(a[i], b[i])
}

proof fn lemma_keyword_alike_prefix(a: Seq<Seq<char>>, b: Seq<Seq<char>>)
    requires
        keyword_alike_lines(a, b),
        a.len() > 0,
    ensures
        keyword_alike_lines(a.drop_last(), b.drop_last()),
        keyword_alike(a.last(), b.last()),
{
    assert forall|i: int| 0 <= i < a.drop_last().len() implies #[trigger] keyword_alike(
        a.drop_last()[i],
        b.drop_last()[i],
    ) by {
        assert(keyword_alike(a[i], b[i]));
    }
    assert(keyword_alike(a[a.len() - 1], b[a.len() - 1]));
}

/// The keyword of a line that `keyword_alike` relates by case.
proof fn lemma_alike_keyword(x: Seq<char>, y: Seq<char>) -> (w: Seq<char>)
    requires
        keyword_alike(x, y),
        without_comment(x, true) != without_comment(y, true),
        !recased_kind(without_comment(x, true), without_comment(y, true)),
    ensures
        line_keyword(w),
        recased_keyword(without_comment(x, true), without_comment(y, true), w),
{
    let u = without_comment(x, true);
    let v = without_comment(y, true);
    if recased_keyword(u, v, control_keyword()) {
        control_keyword()
    } else if recased_keyword(u, v, endc_keyword()) {
        endc_keyword()
    } else if recased_keyword(u, v, model_keyword()) {
        model_keyword()
    } else if recased_keyword(u, v, subckt_keyword()) {
        subckt_keyword()
    } else if recased_keyword(u, v, ends_keyword()) {
        ends_keyword()
    } else {
        end_keyword()
    }
}

proof fn lemma_subckt_scan_keywords(a: Seq<Seq<char>>, b: Seq<Seq<char>>)
    requires
        keyword_alike_lines(a, b),
    ensures
        subckt_scan(b) == subckt_scan(a),
    decreases a.len(),
{
    if a.len() > 0 {
        lemma_keyword_alike_prefix(a, b);
        lemma_subckt_scan_keywords(a.drop_last(), b.drop_last());
        if let SubcktScan::Reached(st) = subckt_scan(a.drop_last()) {
            if recased_kind(without_comment(a.last(), true), without_comment(b.last(), true)) {
                lemma_kind_steps(Map::empty(), st, DescState {
                    elements: Seq::empty(),
                    models: Map::empty(),
                    control: false,
                    subckt: false,
                }, a.last(), b.last(), 0, 0);
            } else if without_comment(a.last(), true) != without_comment(b.last(), true) {
                let w = lemma_alike_keyword(a.last(), b.last());
                lemma_subckt_step_keyword(st, a.last(), b.last(), w);
            }
        }
    }
}

proof fn lemma_desc_scan_keywords(
    defs: Map<Seq<char>, SubcircuitDefinitionView>,
    a: Seq<Seq<char>>,
    b: Seq<Seq<char>>,
    fuel: nat,
)
    requires
        keyword_alike_lines(a, b),
    ensures
        desc_scan(defs, b, fuel) == desc_scan(defs, a, fuel),
    decreases a.len(),
{
    if a.len() > 0 {
        lemma_keyword_alike_prefix(a, b);
        lemma_desc_scan_keywords(defs, a.drop_last(), b.drop_last(), fuel);
        if let DescScan::Reached(st) = desc_scan(defs, a.drop_last(), fuel) {
            if recased_kind(without_comment(a.last(), true), without_comment(b.last(), true)) {
                lemma_kind_steps(defs, SubcktState {
                    defs: Map::empty(),
                    inside: false,
                    current: Seq::empty(),
                }, st, a.last(), b.last(), a.len(), fuel);
            } else if without_comment(a.last(), true) != without_comment(b.last(), true) {
                let w = lemma_alike_keyword(a.last(), b.last());
                lemma_desc_step_keyword(defs, st, a.last(), b.last(), w, a.len(), fuel);
            }
        }
    }
}

/// The line keywords `.model`, `.subckt`, `.ends`, `.control`, `.endc` and
/// `.end`, and the kinds of `.model` cards (`NMOS`, `PMOS`, `D`), are read
/// in any case: two netlists whose lines differ at most in the case of the
/// keyword that lines start with, or of the kind of a `.model` card, read
/// the same, their definitions too.
#[verifier::spinoff_prover]
#[verifier::rlimit(40)]
pub proof fn law_keyword_case(input: Seq<char>, other: Seq<char>, fuel: nat)
    requires
        keyword_alike_lines(split_lines(input), split_lines(other)),
    ensures
        subcircuits_of(other) == subcircuits_of(input),
        describe(other, fuel) == describe(input, fuel),
{
    lemma_subckt_scan_keywords(split_lines(input), split_lines(other));
    if let SubcktScan::Reached(sub) = subcircuits_of(input) {
        lemma_desc_scan_keywords(sub.defs, split_lines(input), split_lines(other), fuel);
    }
}

/// Two texts of one length that differ at most in the case of the ASCII
/// characters of the span from `b`, `n` long.
pub open spec fn recased_span(s: Seq<char>, u: Seq<char>, b: int, n: int) -> bool {
    &&& s.len() == u.len()
    &&& 0 <= b
    &&& 0 <= n
    &&& b + n <= s.len()
    &&& forall|i: int|
        b <= i < b + n ==> (#[trigger] s[i] as u32) < 128 && (u[i] as u32) < 128 && lower(s[i])
            == lower(u[i])
    &&& forall|i: int| 0 <= i < s.len() && !(b <= i < b + n) ==> #[trigger] u[i] == s[i]
}

proof fn lemma_span_starts(s: Seq<char>, u: Seq<char>, b: int, n: int, j: int, w: Seq<char>)
    requires
        recased_span(s, u, b, n),
        ascii_word(w),
    ensures
        starts_no_case(u, j, w) == starts_no_case(s, j, w),
{
    if 0 <= j && j + w.len() <= s.len() {
        assert forall|m: int| 0 <= m < w.len() implies #[trigger] matches_no_case(u[j + m], w[m])
            == matches_no_case(s[j + m], w[m]) by {
            if b <= j + m < b + n {
                lemma_char_alike(s[j + m], u[j + m], w[m]);
            } else {
                assert(u[j + m] == s[j + m]);
            }
        }
        if starts_no_case(s, j, w) {
            assert forall|m: int| 0 <= m < w.len() implies #[trigger] matches_no_case(
                u[j + m],
                w[m],
            ) by {
                assert(matches_no_case(s[j + m], w[m]));
            }
        }
        if starts_no_case(u, j, w) {
            assert forall|m: int| 0 <= m < w.len() implies #[trigger] matches_no_case(
                s[j + m],
                w[m],
            ) by {
                assert(matches_no_case(u[j + m], w[m]));
            }
        }
    }
}

/// A run of blanks reads alike in two texts that agree up to a character
/// that is a blank in neither.
proof fn lemma_run_to(s: Seq<char>, u: Seq<char>, j: int, b: int, class: CharClass)
    requires
        s.len() == u.len(),
        0 <= j <= b < s.len(),
        forall|k: int| j <= k < b ==> #[trigger] u[k] == s[k],
        !in_class(class, s[b]),
        !in_class(class, u[b]),
    ensures
        run_end(u, j, class) == run_end(s, j, class),
    decreases b - j,
{
    if j < b {
        assert(u[j] == s[j]);
        lemma_run_to(s, u, j + 1, b, class);
    }
}

proof fn lemma_param_keys_ascii()
    ensures
        ascii_word(dc_key()),
        ascii_word(ac_key()),
        ascii_word(pulse_key()),
        ascii_word(sin_key()),
{
    assert forall|m: int| 0 <= m < dc_key().len() implies (#[trigger] dc_key()[m] as u32) < 128 by {
    }
    assert forall|m: int| 0 <= m < ac_key().len() implies (#[trigger] ac_key()[m] as u32) < 128 by {
    }
    assert forall|m: int| 0 <= m < pulse_key().len() implies (#[trigger] pulse_key()[m] as u32)
        < 128 by {
    }
    assert forall|m: int| 0 <= m < sin_key().len() implies (#[trigger] sin_key()[m] as u32) < 128 by {
    }
}

/// The keyed readings from the keyword's start: the keyword in any case,
/// and the same text after it.
proof fn lemma_keyed_after(s: Seq<char>, u: Seq<char>, b: int, w: Seq<char>, k: Seq<char>)
    requires
        recased_span(s, u, b, w.len() as int),
        ascii_word(k),
        blank_free(k),
        starts_no_case(s, b, k) ==> k == w,
    ensures
        keyed_double_at(u, b, k) == keyed_double_at(s, b, k),
        keyed_values_at(u, b, k, 7) == keyed_values_at(s, b, k, 7),
        keyed_values_at(u, b, k, 6) == keyed_values_at(s, b, k, 6),
{
    lemma_span_starts(s, u, b, w.len() as int, b, k);
    if starts_no_case(s, b, k) {
        let lo = b + w.len();
        assert(same_from(s, u, lo)) by {
            assert forall|i: int| lo <= i < s.len() implies #[trigger] blank_eq(s[i], u[i]) by {
                assert(u[i] == s[i]);
            }
        }
        lemma_blanks_same(s, u, lo, lo);
        if let Some(bb) = blanks_at(s, lo) {
            lemma_double_same(s, u, lo, bb);
        }
        let o = skip_blanks(s, lo);
        if o < s.len() {
            lemma_char_same(s, u, lo, o, '(');
        }
        if o < s.len() && s[o] == '(' {
            lemma_blanks_same(s, u, lo, o + 1);
            lemma_value_same(s, u, lo, skip_blanks(s, o + 1));
            if let Some((e1, v1)) = value_at(s, skip_blanks(s, o + 1)) {
                lemma_more_values_same(s, u, lo, e1, 6);
                lemma_more_values_same(s, u, lo, e1, 5);
                if let Some((e2, vs)) = more_values(s, e1, 6) {
                    lemma_blanks_same(s, u, lo, e2);
                    let c = skip_blanks(s, e2);
                    if c < s.len() {
                        lemma_char_same(s, u, lo, c, ')');
                    }
                }
                if let Some((e2, vs)) = more_values(s, e1, 5) {
                    lemma_blanks_same(s, u, lo, e2);
                    let c = skip_blanks(s, e2);
                    if c < s.len() {
                        lemma_char_same(s, u, lo, c, ')');
                    }
                }
            }
        }
    }
}

/// The keywords of a voltage source's parameter blocks (`DC`, `AC`,
/// `PULSE`, `SIN`) are read in any case: a block reads the same whatever
/// the case of its keyword's letters.
pub proof fn law_parameter_keyword_case(s: Seq<char>, u: Seq<char>, j: int, w: Seq<char>)
    requires
        w == dc_key() || w == ac_key() || w == pulse_key() || w == sin_key(),
        blanks_at(s, j) matches Some(b) && starts_no_case(s, b, w) && recased_span(
            s,
            u,
            b,
            w.len() as int,
        ),
    ensures
        param_at(u, j) == param_at(s, j),
{
    let b = blanks_at(s, j)->Some_0;
    let n = w.len() as int;
    lemma_param_keys_ascii();
    lemma_keys_blank_free();
    lemma_run_end(s, j, CharClass::Blank);
    assert(matches_no_case(s[b + 0], w[0]));
    assert(!is_blank(s[b]));
    assert(lower(u[b]) == lower(s[b]));
    assert(!is_blank(u[b]));
    assert forall|k: int| j <= k < b implies #[trigger] u[k] == s[k] by {
    }
    lemma_run_to(s, u, j, b, CharClass::Blank);
    assert(blanks_at(u, j) == Some(b));
    let keys = seq![dc_key(), ac_key(), pulse_key(), sin_key()];
    assert forall|q: int| 0 <= q < 4 implies (starts_no_case(s, b, #[trigger] keys[q]) ==> keys[q] == w) by {
        if starts_no_case(s, b, keys[q]) {
            assert(matches_no_case(s[b + 0], keys[q][0]));
        }
    }
    assert(keys[0] == dc_key() && keys[1] == ac_key() && keys[2] == pulse_key() && keys[3] == sin_key());
    lemma_keyed_after(s, u, b, w, dc_key());
    lemma_keyed_after(s, u, b, w, ac_key());
    lemma_keyed_after(s, u, b, w, pulse_key());
    lemma_keyed_after(s, u, b, w, sin_key());
}

/// Where the kind of a `.model` card stands: after the keyword, blanks,
/// the model's name and blanks.
pub open spec fn model_kind_at(s: Seq<char>) -> Option<int> {
    if !starts_no_case(s, 0, dot_model()) {
        None
    } else {
        match blanks_at(s, 6) {
            None => None,
            Some(b) => match name_at(s, b) {
                None => None,
                Some(n) => blanks_at(s, n),
            },
        }
    }
}

/// Whether `v` is the `.model` card `u` with the case of its kind (`NMOS`,
/// `PMOS` or `D`) changed.
pub open spec fn recased_kind(u: Seq<char>, v: Seq<char>) -> bool {
    &&& model_kind_at(u) matches Some(t)
    &&& {
        ||| starts_no_case(u, t, seq!['N', 'M', 'O', 'S']) && recased_span(u, v, t, 4)
        ||| starts_no_case(u, t, seq!['P', 'M', 'O', 'S']) && recased_span(u, v, t, 4)
        ||| starts_no_case(u, t, seq!['D']) && recased_span(u, v, t, 1)
    }
}

proof fn lemma_kind_words_ascii()
    ensures
        ascii_word(seq!['N', 'M', 'O', 'S']),
        ascii_word(seq!['P', 'M', 'O', 'S']),
        ascii_word(seq!['D']),
{
    let a = seq!['N', 'M', 'O', 'S'];
    let b = seq!['P', 'M', 'O', 'S'];
    let c = seq!['D'];
    assert forall|m: int| 0 <= m < a.len() implies (#[trigger] a[m] as u32) < 128 by {
    }
    assert forall|m: int| 0 <= m < b.len() implies (#[trigger] b[m] as u32) < 128 by {
    }
    assert forall|m: int| 0 <= m < c.len() implies (#[trigger] c[m] as u32) < 128 by {
    }
}

/// The kind of a `.model` card reads the same in any case, and the card's
/// text before its kind is unchanged.
#[verifier::spinoff_prover]
#[verifier::rlimit(40)]
proof fn lemma_kind_alike(u: Seq<char>, v: Seq<char>)
    requires
        recased_kind(u, v),
    ensures
        model_variant_at(v, 0) == model_variant_at(u, 0),
        model_kind_at(u) matches Some(t) && t >= 9 && forall|k: int| 0 <= k < t ==> #[trigger] v[k] == u[k],
{
    let t = model_kind_at(u)->Some_0;
    let (w, n) = if starts_no_case(u, t, seq!['N', 'M', 'O', 'S']) && recased_span(u, v, t, 4) {
        (seq!['N', 'M', 'O', 'S'], 4int)
    } else if starts_no_case(u, t, seq!['P', 'M', 'O', 'S']) && recased_span(u, v, t, 4) {
        (seq!['P', 'M', 'O', 'S'], 4int)
    } else {
        (seq!['D'], 1int)
    };
    assert(starts_no_case(u, t, w) && recased_span(u, v, t, n) && w.len() == n);
    lemma_keywords_ascii();
    lemma_kind_words_ascii();
    lemma_model_words_blank_free();
    lemma_span_starts(u, v, t, n, 0, dot_model());
    let b = blanks_at(u, 6)->Some_0;
    let e = name_at(u, b)->Some_0;
    lemma_run_end(u, 6, CharClass::Blank);
    lemma_run_end(u, b, CharClass::Name);
    lemma_run_end(u, e, CharClass::Blank);
    assert(matches_no_case(u[t + 0], w[0]));
    assert(t < u.len());
    assert forall|k: int| 0 <= k < t implies #[trigger] v[k] == u[k] by {
    }
    assert(v[b] == u[b] && v[e] == u[e]);
    assert(lower(v[t]) == lower(u[t]));
    assert(!is_blank(u[t]) && !is_blank(v[t]));
    lemma_run_to(u, v, 6, b, CharClass::Blank);
    lemma_run_to(u, v, b, e, CharClass::Name);
    lemma_run_to(u, v, e, t, CharClass::Blank);
    assert(v.subrange(b, e) =~= u.subrange(b, e));
    let words = seq![seq!['N', 'M', 'O', 'S'], seq!['P', 'M', 'O', 'S'], seq!['D']];
    assert forall|q: int| 0 <= q < 3 implies (starts_no_case(u, t, #[trigger] words[q]) ==> words[q] == w) by {
        if starts_no_case(u, t, words[q]) {
            assert(matches_no_case(u[t + 0], words[q][0]));
        }
    }
    assert(words[0] == seq!['N', 'M', 'O', 'S'] && words[1] == seq!['P', 'M', 'O', 'S'] && words[2] == seq!['D']);
    lemma_span_starts(u, v, t, n, t, seq!['N', 'M', 'O', 'S']);
    lemma_span_starts(u, v, t, n, t, seq!['P', 'M', 'O', 'S']);
    lemma_span_starts(u, v, t, n, t, seq!['D']);
    assert(same_from(u, v, t + n)) by {
        assert forall|i: int| t + n <= i < u.len() implies #[trigger] blank_eq(u[i], v[i]) by {
            assert(v[i] == u[i]);
        }
    }
    lemma_parameters_same(u, v, t + n, t + n);
}

proof fn lemma_prefix_starts(u: Seq<char>, v: Seq<char>, l: int, w: Seq<char>)
    requires
        u.len() == v.len(),
        0 <= l <= u.len(),
        forall|k: int| 0 <= k < l ==> #[trigger] v[k] == u[k],
        w.len() <= l,
    ensures
        starts_no_case(v, 0, w) == starts_no_case(u, 0, w),
{
    if starts_no_case(u, 0, w) {
        assert forall|m: int| 0 <= m < w.len() implies #[trigger] matches_no_case(v[0 + m], w[m]) by {
            assert(matches_no_case(u[0 + m], w[m]));
            assert(v[m] == u[m]);
        }
    }
    if starts_no_case(v, 0, w) {
        assert forall|m: int| 0 <= m < w.len() implies #[trigger] matches_no_case(u[0 + m], w[m]) by {
            assert(matches_no_case(v[0 + m], w[m]));
            assert(v[m] == u[m]);
        }
    }
}

/// The keywords and the first character of a `.model` line whose kind
/// changed case.
#[verifier::spinoff_prover]
proof fn lemma_kind_keys(u: Seq<char>, v: Seq<char>)
    requires
        recased_kind(u, v),
    ensures
        u.len() == v.len(),
        u.len() > 0 && u[0] == '.' && v[0] == '.',
        starts_no_case(v, 0, control_keyword()) == starts_no_case(u, 0, control_keyword()),
        starts_no_case(v, 0, endc_keyword()) == starts_no_case(u, 0, endc_keyword()),
        starts_no_case(v, 0, model_keyword()) == starts_no_case(u, 0, model_keyword()),
        !starts_no_case(u, 0, subckt_keyword()) && !starts_no_case(v, 0, subckt_keyword()),
        starts_no_case(v, 0, ends_keyword()) == starts_no_case(u, 0, ends_keyword()),
        same_no_case(v, end_keyword()) == same_no_case(u, end_keyword()),
{
    lemma_kind_alike(u, v);
    let t = model_kind_at(u)->Some_0;
    lemma_prefix_starts(u, v, t, control_keyword());
    lemma_prefix_starts(u, v, t, endc_keyword());
    lemma_prefix_starts(u, v, t, model_keyword());
    lemma_prefix_starts(u, v, t, subckt_keyword());
    lemma_prefix_starts(u, v, t, ends_keyword());
    lemma_prefix_starts(u, v, t, end_keyword());
    assert(matches_no_case(u[0int + 0int], dot_model()[0]));
    assert(u[0] == '.');
    assert(v[0] == u[0]);
    assert(!starts_no_case(u, 0, subckt_keyword())) by {
        if starts_no_case(u, 0, subckt_keyword()) {
            assert(matches_no_case(u[0int + 1int], subckt_keyword()[1]));
            assert(matches_no_case(u[0int + 1int], dot_model()[1]));
        }
    }
}

/// The model of a `.model` line whose kind changed case.
proof fn lemma_kind_model(x: Seq<char>, y: Seq<char>)
    requires
        recased_kind(without_comment(x, true), without_comment(y, true)),
    ensures
        model_line(without_comment(y, true)) == model_line(without_comment(x, true)),
{
    lemma_kind_alike(without_comment(x, true), without_comment(y, true));
    lemma_clean_line(x);
    lemma_clean_line(y);
}

/// What the scans look at in a `.model` line whose kind changed case.
proof fn lemma_kind_facts(x: Seq<char>, y: Seq<char>)
    requires
        recased_kind(without_comment(x, true), without_comment(y, true)),
    ensures
        ({
            let u = without_comment(x, true);
            let v = without_comment(y, true);
            &&& !is_blank_line(u) && !is_blank_line(v)
            &&& starts_no_case(v, 0, control_keyword()) == starts_no_case(u, 0, control_keyword())
            &&& starts_no_case(v, 0, endc_keyword()) == starts_no_case(u, 0, endc_keyword())
            &&& starts_no_case(v, 0, model_keyword()) == starts_no_case(u, 0, model_keyword())
            &&& !starts_no_case(u, 0, subckt_keyword()) && !starts_no_case(v, 0, subckt_keyword())
            &&& starts_no_case(v, 0, ends_keyword()) == starts_no_case(u, 0, ends_keyword())
            &&& same_no_case(v, end_keyword()) == same_no_case(u, end_keyword())
            &&& element_line(u) is None && element_line(v) is None
            &&& model_line(v) == model_line(u)
        }),
{
    let u = without_comment(x, true);
    let v = without_comment(y, true);
    lemma_kind_keys(u, v);
    lemma_dot_no_card(u);
    lemma_dot_no_card(v);
    lemma_kind_model(x, y);
}

/// A `.model` line reads the same in both scans whatever the case of its
/// kind.
proof fn lemma_kind_steps(
    defs: Map<Seq<char>, SubcircuitDefinitionView>,
    sst: SubcktState,
    st: DescState,
    x: Seq<char>,
    y: Seq<char>,
    number: nat,
    fuel: nat,
)
    requires
        recased_kind(without_comment(x, true), without_comment(y, true)),
    ensures
        desc_step(defs, st, without_comment(y, true), number, fuel) == desc_step(
            defs,
            st,
            without_comment(x, true),
            number,
            fuel,
        ),
        subckt_step(sst, without_comment(y, true)) == subckt_step(sst, without_comment(x, true)),
{
    lemma_kind_facts(x, y);
}

} // verus!
