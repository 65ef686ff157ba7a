//! Spaces and tabs are the same separator: two texts that differ only in
//! which blank stands at some places read alike, rule by rule, at the same
//! positions.

use vstd::prelude::*;

use crate::elements::bjt::{bjt_at, bjt_type_of};
use crate::elements::capacitor::{capacitor_at, group2_flag};
use crate::elements::current_source::current_source_at;
use crate::elements::diode::diode_at;
use crate::elements::inductor::inductor_at;
use crate::elements::nmosfet::nmosfet_at;
use crate::elements::resistor::resistor_at;
use crate::elements::subcircuit::{spaced_names, subckt_instance_at};
use crate::elements::voltage_source::{
    ac_key, dc_key, implicit_dc_at, keyed_double_at, keyed_values_at, more_values, param_at,
    params_from, pulse_key, sin_key, voltage_source_at,
};
use crate::elements::{element_at, spaced_key_values, two_terminal_at};
use crate::models::key_value_at;
use crate::number::{double_at, exponent_digits_start, float_prefix, mantissa_end, sign_len};
use crate::spacing::{
    blank_free, lemma_letters_blank_free, lemma_model_words_blank_free, no_blank,
};
use crate::models::{
    dot_model, key_values_from, model_body_at, model_variant_at, parameters_at,
};
use crate::elements::subcircuit::{
    ends_keyword, is_blank_line, subckt_header_at, subckt_keyword, subckt_scan, subckt_step,
    subcircuits_of, SubcircuitDefinitionView, SubcktScan, SubcktState,
};
use crate::elements::element_line;
use crate::models::model_line;
use crate::parser::{
    control_keyword, desc_scan, desc_step, describe, end_keyword, endc_keyword, model_keyword,
    DescScan, DescState,
};
use crate::spacing::{
    lemma_comment_start_is, lemma_lead_white, lemma_lead_white_is, lemma_line_keywords_blank_free,
    lemma_split_nonempty, lemma_trail_white, lemma_trail_white_is,
};
use crate::text::{
    comment_start, is_comment_mark, is_white, lead_white, lemma_comment_start, same_no_case,
    split_lines, trail_white, trimmed, without_comment,
};
use crate::syntax::{blanks_at, name_at, skip_blanks, spaced_name, spaced_value, value_at};
use crate::text::{
    in_class, is_blank, lemma_run_end, matches_no_case, run1, run_end,
    starts_no_case, CharClass,
};

verus! {

/// Two characters that are equal, or both blanks.
pub open spec fn blank_eq(a: char, b: char) -> bool {
    a == b || (is_blank(a) && is_blank(b))
}

/// Two texts of one length that differ, from position `lo` on, at most in
/// which blank stands where one stands.
pub open spec fn same_from(s: Seq<char>, u: Seq<char>, lo: int) -> bool {
    &&& s.len() == u.len()
    &&& forall|i: int| lo <= i < s.len() ==> #[trigger] blank_eq(s[i], u[i])
}

/// Two texts of one length that differ at most in which blank stands where
/// one stands.
pub open spec fn same_but_blanks(s: Seq<char>, u: Seq<char>) -> bool {
    &&& s.len() == u.len()
    &&& forall|i: int| 0 <= i < s.len() ==> #[trigger] blank_eq(s[i], u[i])
}

proof fn lemma_class_blind(class: CharClass, a: char, b: char)
    requires
        blank_eq(a, b),
    ensures
        in_class(class, a) == in_class(class, b),
{
}

pub proof fn lemma_run_same(s: Seq<char>, u: Seq<char>, lo: int, j: int, class: CharClass)
    requires
        same_from(s, u, lo),
        lo <= j,
    ensures
        run_end(u, j, class) == run_end(s, j, class),
        run1(u, j, class) == run1(s, j, class),
    decreases s.len() - j,
{
    if 0 <= j < s.len() {
        assert(blank_eq(s[j], u[j]));
        lemma_class_blind(class, s[j], u[j]);
        if in_class(class, s[j]) {
            lemma_run_same(s, u, lo, j + 1, class);
        }
    }
}

/// A stretch without blanks is the same in both texts.
pub proof fn lemma_stretch_same(s: Seq<char>, u: Seq<char>, lo: int, a: int, b: int)
    requires
        same_from(s, u, lo),
        lo <= a,
        0 <= a <= b <= s.len(),
        no_blank(s, a, b),
    ensures
        u.subrange(a, b) == s.subrange(a, b),
{
    assert forall|p: int| 0 <= p < b - a implies #[trigger] u.subrange(a, b)[p] == s.subrange(
        a,
        b,
    )[p] by {
        assert(blank_eq(s[a + p], u[a + p]));
    }
    assert(u.subrange(a, b) =~= s.subrange(a, b));
}

pub proof fn lemma_keyword_same(s: Seq<char>, u: Seq<char>, lo: int, j: int, w: Seq<char>)
    requires
        same_from(s, u, lo),
        lo <= j,
        blank_free(w),
    ensures
        starts_no_case(u, j, w) == starts_no_case(s, j, w),
{
    if 0 <= j && j + w.len() <= s.len() {
        assert forall|m: int| 0 <= m < w.len() implies #[trigger] matches_no_case(u[j + m], w[m])
            == matches_no_case(s[j + m], w[m]) by {
            assert(blank_eq(s[j + m], u[j + m]));
            assert(!is_blank(w[m]));
        }
        if starts_no_case(s, j, w) {
            assert forall|m: int| 0 <= m < w.len() implies #[trigger] matches_no_case(
                u[j + m],
                w[m],
            ) by {
                assert(matches_no_case(s[j + m], w[m]));
            }
        }
        if starts_no_case(u, j, w) {
            assert forall|m: int| 0 <= m < w.len() implies #[trigger] matches_no_case(
                s[j + m],
                w[m],
            ) by {
                assert(matches_no_case(u[j + m], w[m]));
            }
        }
    }
}

pub proof fn lemma_keyword_no_blank(s: Seq<char>, j: int, w: Seq<char>)
    requires
        blank_free(w),
        starts_no_case(s, j, w),
    ensures
        no_blank(s, j, j + w.len()),
{
    assert forall|p: int| j <= p < j + w.len() implies !is_blank(#[trigger] s[p]) by {
        assert(matches_no_case(s[j + (p - j)], w[p - j]));
        assert(!is_blank(w[p - j]));
    }
}

/// A character other than a blank stands at a place of one text exactly
/// where it stands in the other.
pub proof fn lemma_char_same(s: Seq<char>, u: Seq<char>, lo: int, i: int, c: char)
    requires
        same_from(s, u, lo),
        lo <= i,
        0 <= i < s.len(),
        !is_blank(c),
    ensures
        (u[i] == c) == (s[i] == c),
{
    assert(blank_eq(s[i], u[i]));
}

pub proof fn lemma_name_same(s: Seq<char>, u: Seq<char>, lo: int, j: int)
    requires
        same_from(s, u, lo),
        lo <= j,
        0 <= j <= s.len(),
    ensures
        name_at(u, j) == name_at(s, j),
        name_at(s, j) matches Some(e) ==> j < e <= s.len() && no_blank(s, j, e),
{
    lemma_run_same(s, u, lo, j, CharClass::Name);
    lemma_run_end(s, j, CharClass::Name);
    if let Some(e) = name_at(s, j) {
        assert forall|p: int| j <= p < e implies !is_blank(#[trigger] s[p]) by {
            assert(in_class(CharClass::Name, s[p]));
        }
    }
}

pub proof fn lemma_blanks_same(s: Seq<char>, u: Seq<char>, lo: int, j: int)
    requires
        same_from(s, u, lo),
        lo <= j,
        0 <= j <= s.len(),
    ensures
        blanks_at(u, j) == blanks_at(s, j),
        skip_blanks(u, j) == skip_blanks(s, j),
        j <= skip_blanks(s, j) <= s.len(),
        blanks_at(s, j) matches Some(e) ==> j < e <= s.len(),
{
    lemma_run_same(s, u, lo, j, CharClass::Blank);
    lemma_run_end(s, j, CharClass::Blank);
}

pub proof fn lemma_spaced_name_same(s: Seq<char>, u: Seq<char>, lo: int, j: int)
    requires
        same_from(s, u, lo),
        lo <= j,
        0 <= j <= s.len(),
    ensures
        spaced_name(u, j) == spaced_name(s, j),
        spaced_name(s, j) matches Some((b, e)) ==> j < b < e <= s.len() && no_blank(s, b, e),
{
    lemma_blanks_same(s, u, lo, j);
    if let Some(b) = blanks_at(s, j) {
        lemma_name_same(s, u, lo, b);
    }
}

pub proof fn lemma_value_same(s: Seq<char>, u: Seq<char>, lo: int, j: int)
    requires
        same_from(s, u, lo),
        lo <= j,
        0 <= j <= s.len(),
    ensures
        value_at(u, j) == value_at(s, j),
        value_at(s, j) matches Some((e, _)) ==> j < e <= s.len(),
{
    lemma_run_same(s, u, lo, j, CharClass::Token);
    lemma_run_end(s, j, CharClass::Token);
    let e = run_end(s, j, CharClass::Token);
    if e > j {
        assert forall|p: int| j <= p < e implies !is_blank(#[trigger] s[p]) by {
            assert(in_class(CharClass::Token, s[p]));
        }
        lemma_stretch_same(s, u, lo, j, e);
    }
}

pub proof fn lemma_spaced_value_same(s: Seq<char>, u: Seq<char>, lo: int, j: int)
    requires
        same_from(s, u, lo),
        lo <= j,
        0 <= j <= s.len(),
    ensures
        spaced_value(u, j) == spaced_value(s, j),
        spaced_value(s, j) matches Some((e, _)) ==> j < e <= s.len(),
{
    lemma_blanks_same(s, u, lo, j);
    if let Some(b) = blanks_at(s, j) {
        lemma_value_same(s, u, lo, b);
    }
}

pub proof fn lemma_sign_same(s: Seq<char>, u: Seq<char>, lo: int, j: int)
    requires
        same_from(s, u, lo),
        lo <= j,
        0 <= j <= s.len(),
    ensures
        sign_len(u, j) == sign_len(s, j),
        j + sign_len(s, j) <= s.len(),
        no_blank(s, j, j + sign_len(s, j)),
{
    if j < s.len() {
        assert(blank_eq(s[j], u[j]));
    }
}

pub proof fn lemma_mantissa_same(s: Seq<char>, u: Seq<char>, lo: int, j: int)
    requires
        same_from(s, u, lo),
        lo <= j,
        0 <= j <= s.len(),
    ensures
        mantissa_end(u, j) == mantissa_end(s, j),
        mantissa_end(s, j) matches Some(m) ==> j < m <= s.len() && no_blank(s, j, m),
{
    lemma_run_same(s, u, lo, j, CharClass::Digit);
    lemma_run_end(s, j, CharClass::Digit);
    let d = run_end(s, j, CharClass::Digit);
    assert forall|p: int| j <= p < d implies !is_blank(#[trigger] s[p]) by {
        assert(in_class(CharClass::Digit, s[p]));
    }
    if d < s.len() {
        lemma_char_same(s, u, lo, d, '.');
    }
    if j < s.len() {
        lemma_char_same(s, u, lo, j, '.');
    }
    if d > j {
        if d < s.len() && s[d] == '.' {
            lemma_run_same(s, u, lo, d + 1, CharClass::Digit);
            lemma_run_end(s, d + 1, CharClass::Digit);
            let m = run_end(s, d + 1, CharClass::Digit);
            assert forall|p: int| j <= p < m implies !is_blank(#[trigger] s[p]) by {
                if p > d {
                    assert(in_class(CharClass::Digit, s[p]));
                }
            }
        }
    } else if j < s.len() && s[j] == '.' {
        lemma_run_same(s, u, lo, j + 1, CharClass::Digit);
        lemma_run_end(s, j + 1, CharClass::Digit);
        let m = run_end(s, j + 1, CharClass::Digit);
        assert forall|p: int| j <= p < m implies !is_blank(#[trigger] s[p]) by {
            if p > j {
                assert(in_class(CharClass::Digit, s[p]));
            }
        }
    }
}

proof fn lemma_words_blank_free()
    ensures
        blank_free(seq!['n', 'a', 'n']),
        blank_free(seq!['i', 'n', 'f', 'i', 'n', 'i', 't', 'y']),
        blank_free(seq!['i', 'n', 'f']),
{
    let a = seq!['n', 'a', 'n'];
    let b = seq!['i', 'n', 'f', 'i', 'n', 'i', 't', 'y'];
    let c = seq!['i', 'n', 'f'];
    assert forall|m: int| 0 <= m < a.len() implies !is_blank(#[trigger] a[m]) by {
    }
    assert forall|m: int| 0 <= m < b.len() implies !is_blank(#[trigger] b[m]) by {
    }
    assert forall|m: int| 0 <= m < c.len() implies !is_blank(#[trigger] c[m]) by {
    }
}

pub proof fn lemma_float_same(s: Seq<char>, u: Seq<char>, lo: int, j: int)
    requires
        same_from(s, u, lo),
        lo <= j,
        0 <= j <= s.len(),
    ensures
        float_prefix(u, j) == float_prefix(s, j),
        float_prefix(s, j) matches Ok(e) ==> j < e <= s.len() && no_blank(s, j, e),
{
    lemma_sign_same(s, u, lo, j);
    let j1 = j + sign_len(s, j);
    lemma_mantissa_same(s, u, lo, j1);
    match mantissa_end(s, j1) {
        Some(m) => {
            if m < s.len() {
                assert(blank_eq(s[m], u[m]));
            }
            if m < s.len() && (s[m] == 'e' || s[m] == 'E') {
                lemma_sign_same(s, u, lo, m + 1);
                let kk = exponent_digits_start(s, m);
                lemma_run_same(s, u, lo, kk, CharClass::Digit);
                lemma_run_end(s, kk, CharClass::Digit);
                let e = run_end(s, kk, CharClass::Digit);
                if e > kk {
                    assert forall|p: int| j <= p < e implies !is_blank(#[trigger] s[p]) by {
                        if p < j1 {
                        } else if p < m {
                        } else if p == m {
                        } else if p < kk {
                        } else {
                            assert(in_class(CharClass::Digit, s[p]));
                        }
                    }
                }
            } else {
                assert forall|p: int| j <= p < m implies !is_blank(#[trigger] s[p]) by {
                    if p < j1 {
                    }
                }
            }
        },
        None => {
            lemma_words_blank_free();
            lemma_keyword_same(s, u, lo, j, seq!['n', 'a', 'n']);
            lemma_keyword_same(s, u, lo, j, seq!['i', 'n', 'f', 'i', 'n', 'i', 't', 'y']);
            lemma_keyword_same(s, u, lo, j, seq!['i', 'n', 'f']);
            if starts_no_case(s, j, seq!['n', 'a', 'n']) {
                lemma_keyword_no_blank(s, j, seq!['n', 'a', 'n']);
            } else if starts_no_case(s, j, seq!['i', 'n', 'f', 'i', 'n', 'i', 't', 'y']) {
                lemma_keyword_no_blank(s, j, seq!['i', 'n', 'f', 'i', 'n', 'i', 't', 'y']);
            } else if starts_no_case(s, j, seq!['i', 'n', 'f']) {
                lemma_keyword_no_blank(s, j, seq!['i', 'n', 'f']);
            }
        },
    }
}

pub proof fn lemma_double_same(s: Seq<char>, u: Seq<char>, lo: int, j: int)
    requires
        same_from(s, u, lo),
        lo <= j,
        0 <= j <= s.len(),
    ensures
        double_at(u, j) == double_at(s, j),
        double_at(s, j) matches Ok((e, _)) ==> j < e <= s.len(),
{
    lemma_float_same(s, u, lo, j);
    if let Ok(e) = float_prefix(s, j) {
        lemma_stretch_same(s, u, lo, j, e);
    }
}

pub proof fn lemma_two_terminal_same(s: Seq<char>, u: Seq<char>, letter: char)
    requires
        same_but_blanks(s, u),
        !is_blank(letter),
    ensures
        two_terminal_at(u, 0, letter) == two_terminal_at(s, 0, letter),
        two_terminal_at(s, 0, letter) matches Some((e, _)) ==> 0 < e <= s.len(),
{
    let w = seq![letter];
    assert(blank_free(w)) by {
        assert forall|m: int| 0 <= m < w.len() implies !is_blank(#[trigger] w[m]) by {
        }
    }
    lemma_keyword_same(s, u, 0, 0, w);
    if starts_no_case(s, 0, w) {
        lemma_name_same(s, u, 0, 1);
        if let Some(n) = name_at(s, 1) {
            lemma_stretch_same(s, u, 0, 1, n);
            lemma_spaced_name_same(s, u, 0, n);
            if let Some((pb, pe)) = spaced_name(s, n) {
                lemma_stretch_same(s, u, 0, pb, pe);
                lemma_spaced_name_same(s, u, 0, pe);
                if let Some((mb, me)) = spaced_name(s, pe) {
                    lemma_stretch_same(s, u, 0, mb, me);
                    lemma_spaced_value_same(s, u, 0, me);
                }
            }
        }
    }
}

pub proof fn lemma_group2_same(s: Seq<char>, u: Seq<char>, lo: int, e: int)
    requires
        same_from(s, u, lo),
        lo <= e,
        0 <= e <= s.len(),
    ensures
        group2_flag(u, e) == group2_flag(s, e),
{
    let w = seq!['G', '2'];
    assert(blank_free(w)) by {
        assert forall|m: int| 0 <= m < w.len() implies !is_blank(#[trigger] w[m]) by {
        }
    }
    lemma_blanks_same(s, u, lo, e);
    if let Some(b) = blanks_at(s, e) {
        lemma_keyword_same(s, u, lo, b, w);
    }
}

pub proof fn lemma_keys_blank_free()
    ensures
        blank_free(dc_key()),
        blank_free(ac_key()),
        blank_free(pulse_key()),
        blank_free(sin_key()),
{
    assert forall|m: int| 0 <= m < dc_key().len() implies !is_blank(#[trigger] dc_key()[m]) by {
    }
    assert forall|m: int| 0 <= m < ac_key().len() implies !is_blank(#[trigger] ac_key()[m]) by {
    }
    assert forall|m: int| 0 <= m < pulse_key().len() implies !is_blank(#[trigger] pulse_key()[m]) by {
    }
    assert forall|m: int| 0 <= m < sin_key().len() implies !is_blank(#[trigger] sin_key()[m]) by {
    }
}

pub proof fn lemma_keyed_double_same(s: Seq<char>, u: Seq<char>, lo: int, j: int, key: Seq<char>)
    requires
        same_from(s, u, lo),
        lo <= j,
        0 <= j <= s.len(),
        blank_free(key),
    ensures
        keyed_double_at(u, j, key) == keyed_double_at(s, j, key),
        keyed_double_at(s, j, key) matches Ok((e, _)) ==> j < e <= s.len(),
{
    lemma_keyword_same(s, u, lo, j, key);
    if starts_no_case(s, j, key) {
        lemma_blanks_same(s, u, lo, j + key.len());
        if let Some(b) = blanks_at(s, j + key.len()) {
            lemma_double_same(s, u, lo, b);
        }
    }
}

pub proof fn lemma_more_values_same(s: Seq<char>, u: Seq<char>, lo: int, j: int, n: nat)
    requires
        same_from(s, u, lo),
        lo <= j,
        0 <= j <= s.len(),
    ensures
        more_values(u, j, n) == more_values(s, j, n),
        more_values(s, j, n) matches Some((e, _)) ==> j <= e <= s.len(),
    decreases n,
{
    if n > 0 {
        lemma_spaced_value_same(s, u, lo, j);
        if let Some((e, v)) = spaced_value(s, j) {
            lemma_more_values_same(s, u, lo, e, (n - 1) as nat);
        }
    }
}

pub proof fn lemma_keyed_values_same(s: Seq<char>, u: Seq<char>, lo: int, j: int, key: Seq<char>, n: nat)
    requires
        same_from(s, u, lo),
        lo <= j,
        0 <= j <= s.len(),
        blank_free(key),
    ensures
        keyed_values_at(u, j, key, n) == keyed_values_at(s, j, key, n),
        keyed_values_at(s, j, key, n) matches Some((e, _)) ==> j < e <= s.len(),
{
    lemma_keyword_same(s, u, lo, j, key);
    if starts_no_case(s, j, key) {
        lemma_blanks_same(s, u, lo, j + key.len());
        let o = skip_blanks(s, j + key.len());
        if o < s.len() {
            lemma_char_same(s, u, lo, o, '(');
        }
        if o < s.len() && s[o] == '(' {
            lemma_blanks_same(s, u, lo, o + 1);
            lemma_value_same(s, u, lo, skip_blanks(s, o + 1));
            if let Some((e1, v1)) = value_at(s, skip_blanks(s, o + 1)) {
                lemma_more_values_same(s, u, lo, e1, (n - 1) as nat);
                if let Some((e2, vs)) = more_values(s, e1, (n - 1) as nat) {
                    lemma_blanks_same(s, u, lo, e2);
                    let c = skip_blanks(s, e2);
                    if c < s.len() {
                        lemma_char_same(s, u, lo, c, ')');
                    }
                }
            }
        }
    }
}

pub proof fn lemma_param_same(s: Seq<char>, u: Seq<char>, lo: int, j: int)
    requires
        same_from(s, u, lo),
        lo <= j,
        0 <= j <= s.len(),
    ensures
        param_at(u, j) == param_at(s, j),
        param_at(s, j) matches Ok((e, _)) ==> j < e <= s.len(),
{
    lemma_keys_blank_free();
    lemma_blanks_same(s, u, lo, j);
    if let Some(b) = blanks_at(s, j) {
        lemma_keyed_double_same(s, u, lo, b, dc_key());
        lemma_keyed_double_same(s, u, lo, b, ac_key());
        lemma_keyed_values_same(s, u, lo, b, pulse_key(), 7);
        lemma_keyed_values_same(s, u, lo, b, sin_key(), 6);
    }
}

pub proof fn lemma_params_same(s: Seq<char>, u: Seq<char>, lo: int, j: int)
    requires
        same_from(s, u, lo),
        lo <= j,
        0 <= j <= s.len(),
    ensures
        params_from(u, j) == params_from(s, j),
    decreases s.len() - j,
{
    lemma_param_same(s, u, lo, j);
    if let Ok((e, p)) = param_at(s, j) {
        if !(e <= j || e > s.len()) {
            lemma_params_same(s, u, lo, e);
        }
    }
}

pub proof fn lemma_voltage_source_same(s: Seq<char>, u: Seq<char>)
    requires
        same_but_blanks(s, u),
    ensures
        voltage_source_at(u, 0) == voltage_source_at(s, 0),
{
    if 0 < s.len() {
        lemma_char_same(s, u, 0, 0, 'V');
        lemma_char_same(s, u, 0, 0, 'v');
    }
    if 0 < s.len() && (s[0] == 'V' || s[0] == 'v') {
        lemma_name_same(s, u, 0, 1);
        if let Some(n) = name_at(s, 1) {
            lemma_stretch_same(s, u, 0, 1, n);
            lemma_spaced_name_same(s, u, 0, n);
            if let Some((pb, pe)) = spaced_name(s, n) {
                lemma_stretch_same(s, u, 0, pb, pe);
                lemma_spaced_name_same(s, u, 0, pe);
                if let Some((mb, me)) = spaced_name(s, pe) {
                    lemma_stretch_same(s, u, 0, mb, me);
                    lemma_blanks_same(s, u, 0, me);
                    if let Some(b) = blanks_at(s, me) {
                        lemma_double_same(s, u, 0, b);
                    }
                    if let Ok((d, implicit)) = implicit_dc_at(s, me) {
                        lemma_params_same(s, u, 0, d);
                    }
                }
            }
        }
    }
}

pub proof fn lemma_resistor_same(s: Seq<char>, u: Seq<char>)
    requires
        same_but_blanks(s, u),
    ensures
        resistor_at(u, 0) == resistor_at(s, 0),
{
    lemma_two_terminal_same(s, u, 'R');
}

pub proof fn lemma_capacitor_same(s: Seq<char>, u: Seq<char>)
    requires
        same_but_blanks(s, u),
    ensures
        capacitor_at(u, 0) == capacitor_at(s, 0),
{
    lemma_two_terminal_same(s, u, 'C');
    if let Some((e, _)) = two_terminal_at(s, 0, 'C') {
        lemma_group2_same(s, u, 0, e);
    }
}

pub proof fn lemma_inductor_same(s: Seq<char>, u: Seq<char>)
    requires
        same_but_blanks(s, u),
    ensures
        inductor_at(u, 0) == inductor_at(s, 0),
{
    lemma_two_terminal_same(s, u, 'L');
}

pub proof fn lemma_current_source_same(s: Seq<char>, u: Seq<char>)
    requires
        same_but_blanks(s, u),
    ensures
        current_source_at(u, 0) == current_source_at(s, 0),
{
    lemma_two_terminal_same(s, u, 'I');
}

pub proof fn lemma_key_value_same(s: Seq<char>, u: Seq<char>, lo: int, j: int)
    requires
        same_from(s, u, lo),
        lo <= j,
        0 <= j <= s.len(),
    ensures
        key_value_at(u, j) == key_value_at(s, j),
        key_value_at(s, j) matches Some((e, _)) ==> j < e <= s.len(),
{
    lemma_name_same(s, u, lo, j);
    if let Some(n) = name_at(s, j) {
        lemma_stretch_same(s, u, lo, j, n);
        lemma_blanks_same(s, u, lo, n);
        let q = skip_blanks(s, n);
        if q < s.len() {
            lemma_char_same(s, u, lo, q, '=');
        }
        if q < s.len() && s[q] == '=' {
            lemma_blanks_same(s, u, lo, q + 1);
            lemma_value_same(s, u, lo, skip_blanks(s, q + 1));
        }
    }
}

pub proof fn lemma_key_values_same(s: Seq<char>, u: Seq<char>, lo: int, j: int)
    requires
        same_from(s, u, lo),
        lo <= j,
        0 <= j <= s.len(),
    ensures
        spaced_key_values(u, j) == spaced_key_values(s, j),
        j <= spaced_key_values(s, j).0 <= s.len(),
    decreases s.len() - j,
{
    lemma_blanks_same(s, u, lo, j);
    if let Some(b) = blanks_at(s, j) {
        lemma_key_value_same(s, u, lo, b);
        if let Some((e, kv)) = key_value_at(s, b) {
            if !(e <= j || e > s.len()) {
                lemma_key_values_same(s, u, lo, e);
            }
        }
    }
}

pub proof fn lemma_spaced_names_same(s: Seq<char>, u: Seq<char>, lo: int, j: int)
    requires
        same_from(s, u, lo),
        lo <= j,
        0 <= j <= s.len(),
    ensures
        spaced_names(u, j) == spaced_names(s, j),
        j <= spaced_names(s, j).0 <= s.len(),
    decreases s.len() - j,
{
    lemma_spaced_name_same(s, u, lo, j);
    if let Some((b, e)) = spaced_name(s, j) {
        lemma_stretch_same(s, u, lo, b, e);
        if !(e <= j || e > s.len()) {
            lemma_spaced_names_same(s, u, lo, e);
        }
    }
}

pub proof fn lemma_diode_same(s: Seq<char>, u: Seq<char>)
    requires
        same_but_blanks(s, u),
    ensures
        diode_at(u, 0) == diode_at(s, 0),
{
    lemma_letters_blank_free();
    lemma_keyword_same(s, u, 0, 0, seq!['d']);
    if starts_no_case(s, 0, seq!['d']) {
        lemma_name_same(s, u, 0, 1);
        if let Some(n) = name_at(s, 1) {
            lemma_stretch_same(s, u, 0, 1, n);
            lemma_spaced_name_same(s, u, 0, n);
            if let Some((pb, pe)) = spaced_name(s, n) {
                lemma_stretch_same(s, u, 0, pb, pe);
                lemma_spaced_name_same(s, u, 0, pe);
                if let Some((mb, me)) = spaced_name(s, pe) {
                    lemma_stretch_same(s, u, 0, mb, me);
                    lemma_spaced_name_same(s, u, 0, me);
                    if let Some((b2, e2)) = spaced_name(s, me) {
                        lemma_stretch_same(s, u, 0, b2, e2);
                    }
                }
            }
        }
    }
}

pub proof fn lemma_bjt_same(s: Seq<char>, u: Seq<char>)
    requires
        same_but_blanks(s, u),
    ensures
        bjt_at(u, 0) == bjt_at(s, 0),
{
    lemma_letters_blank_free();
    lemma_keyword_same(s, u, 0, 0, seq!['q']);
    if starts_no_case(s, 0, seq!['q']) && 1 < s.len() {
        lemma_keyword_no_blank(s, 0, seq!['q']);
        assert(blank_eq(s[1], u[1]));
        if let Some(ty) = bjt_type_of(s[1]) {
            assert(u[1] == s[1]);
            lemma_run_same(s, u, 0, 2, CharClass::Alnum);
            lemma_run_end(s, 2, CharClass::Alnum);
            if let Some(n) = run1(s, 2, CharClass::Alnum) {
                assert forall|p: int| 2 <= p < n implies !is_blank(#[trigger] s[p]) by {
                    assert(in_class(CharClass::Alnum, s[p]));
                }
                lemma_stretch_same(s, u, 0, 2, n);
                lemma_spaced_name_same(s, u, 0, n);
                if let Some((cb, ce)) = spaced_name(s, n) {
                    lemma_stretch_same(s, u, 0, cb, ce);
                    lemma_spaced_name_same(s, u, 0, ce);
                    if let Some((bb, be)) = spaced_name(s, ce) {
                        lemma_stretch_same(s, u, 0, bb, be);
                        lemma_spaced_name_same(s, u, 0, be);
                        if let Some((eb, ee)) = spaced_name(s, be) {
                            lemma_stretch_same(s, u, 0, eb, ee);
                            lemma_spaced_value_same(s, u, 0, ee);
                        }
                    }
                }
            }
        } else {
            assert(bjt_type_of(u[1]) is None);
        }
    }
}

pub proof fn lemma_nmosfet_same(s: Seq<char>, u: Seq<char>)
    requires
        same_but_blanks(s, u),
    ensures
        nmosfet_at(u, 0) == nmosfet_at(s, 0),
{
    lemma_letters_blank_free();
    lemma_keyword_same(s, u, 0, 0, seq!['m', 'n']);
    if starts_no_case(s, 0, seq!['m', 'n']) {
        lemma_name_same(s, u, 0, 2);
        if let Some(n) = name_at(s, 2) {
            lemma_stretch_same(s, u, 0, 2, n);
            lemma_spaced_name_same(s, u, 0, n);
            if let Some((db, de)) = spaced_name(s, n) {
                lemma_stretch_same(s, u, 0, db, de);
                lemma_spaced_name_same(s, u, 0, de);
                if let Some((gb, ge)) = spaced_name(s, de) {
                    lemma_stretch_same(s, u, 0, gb, ge);
                    lemma_spaced_name_same(s, u, 0, ge);
                    if let Some((sb, se)) = spaced_name(s, ge) {
                        lemma_stretch_same(s, u, 0, sb, se);
                        lemma_spaced_name_same(s, u, 0, se);
                        if let Some((bb, be)) = spaced_name(s, se) {
                            lemma_stretch_same(s, u, 0, bb, be);
                            lemma_spaced_name_same(s, u, 0, be);
                            if let Some((mb, me)) = spaced_name(s, be) {
                                lemma_stretch_same(s, u, 0, mb, me);
                                lemma_key_values_same(s, u, 0, me);
                                lemma_blanks_same(s, u, 0, spaced_key_values(s, me).0);
                            }
                        }
                    }
                }
            }
        }
    }
}

pub proof fn lemma_instance_same(s: Seq<char>, u: Seq<char>)
    requires
        same_but_blanks(s, u),
    ensures
        subckt_instance_at(u, 0) == subckt_instance_at(s, 0),
{
    lemma_letters_blank_free();
    lemma_keyword_same(s, u, 0, 0, seq!['x']);
    if starts_no_case(s, 0, seq!['x']) {
        lemma_name_same(s, u, 0, 1);
        if let Some(n) = name_at(s, 1) {
            lemma_stretch_same(s, u, 0, 1, n);
            lemma_spaced_names_same(s, u, 0, n);
        }
    }
}

/// Spaces and tabs separate alike: two cards that differ only in which
/// blank stands at some places are the same element (or the same failure),
/// ending at the same place.
pub proof fn law_blank_kinds(s: Seq<char>, u: Seq<char>)
    requires
        same_but_blanks(s, u),
    ensures
        element_at(u) == element_at(s),
{
    lemma_resistor_same(s, u);
    lemma_capacitor_same(s, u);
    lemma_inductor_same(s, u);
    lemma_voltage_source_same(s, u);
    lemma_current_source_same(s, u);
    lemma_diode_same(s, u);
    lemma_bjt_same(s, u);
    lemma_nmosfet_same(s, u);
    lemma_instance_same(s, u);
}

pub proof fn lemma_key_values_from_same(s: Seq<char>, u: Seq<char>, lo: int, j: int)
    requires
        same_from(s, u, lo),
        lo <= j,
        0 <= j <= s.len(),
    ensures
        key_values_from(u, j) == key_values_from(s, j),
        key_values_from(s, j) matches Some((e, _)) ==> j <= e <= s.len(),
    decreases s.len() - j,
{
    lemma_blanks_same(s, u, lo, j);
    lemma_key_value_same(s, u, lo, skip_blanks(s, j));
    if let Some((e, kv)) = key_value_at(s, skip_blanks(s, j)) {
        if !(e <= j || e > s.len()) {
            lemma_key_values_from_same(s, u, lo, e);
        }
    }
}

pub proof fn lemma_parameters_same(s: Seq<char>, u: Seq<char>, lo: int, j: int)
    requires
        same_from(s, u, lo),
        lo <= j,
        0 <= j <= s.len(),
    ensures
        parameters_at(u, j) == parameters_at(s, j),
{
    lemma_blanks_same(s, u, lo, j);
    let o = skip_blanks(s, j);
    if o < s.len() {
        lemma_char_same(s, u, lo, o, '(');
    }
    if o < s.len() && s[o] == '(' {
        lemma_key_values_from_same(s, u, lo, o + 1);
        if let Some((e, kvs)) = key_values_from(s, o + 1) {
            lemma_blanks_same(s, u, lo, e);
            let c = skip_blanks(s, e);
            if c < s.len() {
                lemma_char_same(s, u, lo, c, ')');
            }
        }
    }
}

pub proof fn lemma_model_variant_same(s: Seq<char>, u: Seq<char>)
    requires
        same_but_blanks(s, u),
    ensures
        model_variant_at(u, 0) == model_variant_at(s, 0),
{
    lemma_model_words_blank_free();
    lemma_keyword_same(s, u, 0, 0, dot_model());
    if starts_no_case(s, 0, dot_model()) {
        lemma_blanks_same(s, u, 0, 6);
        if let Some(b) = blanks_at(s, 6) {
            lemma_name_same(s, u, 0, b);
            if let Some(n) = name_at(s, b) {
                lemma_stretch_same(s, u, 0, b, n);
                lemma_blanks_same(s, u, 0, n);
                if let Some(t) = blanks_at(s, n) {
                    let name = s.subrange(b, n);
                    lemma_keyword_same(s, u, 0, t, seq!['N', 'M', 'O', 'S']);
                    lemma_keyword_same(s, u, 0, t, seq!['P', 'M', 'O', 'S']);
                    lemma_keyword_same(s, u, 0, t, seq!['D']);
                    if t + 4 <= s.len() {
                        lemma_parameters_same(s, u, 0, t + 4);
                    }
                    if t + 1 <= s.len() {
                        lemma_parameters_same(s, u, 0, t + 1);
                    }
                    assert(model_body_at(u, t, name) == model_body_at(s, t, name));
                }
            }
        }
    }
}

pub proof fn lemma_header_same(s: Seq<char>, u: Seq<char>)
    requires
        same_but_blanks(s, u),
    ensures
        subckt_header_at(u) == subckt_header_at(s),
{
    lemma_model_words_blank_free();
    lemma_keyword_same(s, u, 0, 0, subckt_keyword());
    if starts_no_case(s, 0, subckt_keyword()) {
        lemma_spaced_name_same(s, u, 0, 7);
        if let Some((b, n)) = spaced_name(s, 7) {
            lemma_stretch_same(s, u, 0, b, n);
            lemma_spaced_names_same(s, u, 0, n);
        }
    }
}

proof fn lemma_white_same(s: Seq<char>, u: Seq<char>, star: bool)
    requires
        same_but_blanks(s, u),
    ensures
        forall|i: int| 0 <= i < s.len() ==> (is_white(#[trigger] u[i]) == is_white(s[i])),
        forall|i: int|
            0 <= i < s.len() ==> (is_comment_mark(#[trigger] u[i], star) == is_comment_mark(
                s[i],
                star,
            )),
{
    assert forall|i: int| 0 <= i < s.len() implies (is_white(#[trigger] u[i]) == is_white(s[i])) by {
        assert(blank_eq(s[i], u[i]));
    }
    assert forall|i: int| 0 <= i < s.len() implies (is_comment_mark(#[trigger] u[i], star)
        == is_comment_mark(s[i], star)) by {
        assert(blank_eq(s[i], u[i]));
    }
}

proof fn lemma_skip_take_same(s: Seq<char>, u: Seq<char>, a: int, b: int)
    requires
        same_but_blanks(s, u),
        0 <= a <= b <= s.len(),
    ensures
        same_but_blanks(s.subrange(a, b), u.subrange(a, b)),
{
    assert forall|i: int| 0 <= i < b - a implies #[trigger] blank_eq(
        s.subrange(a, b)[i],
        u.subrange(a, b)[i],
    ) by {
        assert(blank_eq(s[a + i], u[a + i]));
    }
}

pub proof fn lemma_trim_same(s: Seq<char>, u: Seq<char>)
    requires
        same_but_blanks(s, u),
    ensures
        same_but_blanks(trimmed(s), trimmed(u)),
{
    lemma_white_same(s, u, false);
    lemma_lead_white(s);
    let a = lead_white(s);
    lemma_lead_white_is(u, a);
    let y = s.skip(a);
    let yu = u.skip(a);
    assert(y =~= s.subrange(a, s.len() as int));
    assert(yu =~= u.subrange(a, s.len() as int));
    lemma_skip_take_same(s, u, a, s.len() as int);
    lemma_white_same(y, yu, false);
    lemma_trail_white(y);
    let z = trail_white(y);
    lemma_trail_white_is(yu, z);
    assert(y.take(y.len() - z) =~= y.subrange(0, y.len() - z));
    assert(yu.take(yu.len() - z) =~= yu.subrange(0, y.len() - z));
    lemma_skip_take_same(y, yu, 0, y.len() - z);
}

pub proof fn lemma_uncommented_same(s: Seq<char>, u: Seq<char>, star: bool)
    requires
        same_but_blanks(s, u),
    ensures
        same_but_blanks(without_comment(s, star), without_comment(u, star)),
{
    lemma_white_same(s, u, star);
    lemma_comment_start(s, star);
    let c = comment_start(s, star);
    lemma_comment_start_is(u, star, c);
    assert(s.take(c) =~= s.subrange(0, c));
    assert(u.take(c) =~= u.subrange(0, c));
    lemma_skip_take_same(s, u, 0, c);
    lemma_trim_same(s.take(c), u.take(c));
}

proof fn lemma_line_same(x: Seq<char>, y: Seq<char>)
    requires
        same_but_blanks(x, y),
    ensures
        is_blank_line(y) == is_blank_line(x),
        starts_no_case(y, 0, control_keyword()) == starts_no_case(x, 0, control_keyword()),
        starts_no_case(y, 0, endc_keyword()) == starts_no_case(x, 0, endc_keyword()),
        starts_no_case(y, 0, model_keyword()) == starts_no_case(x, 0, model_keyword()),
        starts_no_case(y, 0, subckt_keyword()) == starts_no_case(x, 0, subckt_keyword()),
        starts_no_case(y, 0, ends_keyword()) == starts_no_case(x, 0, ends_keyword()),
        same_no_case(y, end_keyword()) == same_no_case(x, end_keyword()),
        starts_no_case(x, 0, subckt_keyword()) ==> y[5] == x[5],
{
    if x.len() > 0 {
        assert(blank_eq(x[0], y[0]));
    }
    lemma_line_keywords_blank_free();
    lemma_keyword_same(x, y, 0, 0, control_keyword());
    lemma_keyword_same(x, y, 0, 0, endc_keyword());
    lemma_keyword_same(x, y, 0, 0, model_keyword());
    lemma_keyword_same(x, y, 0, 0, subckt_keyword());
    lemma_keyword_same(x, y, 0, 0, ends_keyword());
    lemma_keyword_same(x, y, 0, 0, end_keyword());
    if starts_no_case(x, 0, subckt_keyword()) {
        lemma_keyword_no_blank(x, 0, subckt_keyword());
        assert(blank_eq(x[5], y[5]));
    }
}

pub proof fn lemma_desc_step_same(
    defs: Map<Seq<char>, SubcircuitDefinitionView>,
    st: DescState,
    x: Seq<char>,
    y: Seq<char>,
    number: nat,
    fuel: nat,
)
    requires
        same_but_blanks(x, y),
    ensures
        desc_step(defs, st, y, number, fuel) == desc_step(defs, st, x, number, fuel),
{
    lemma_line_same(x, y);
    law_blank_kinds(x, y);
    lemma_uncommented_same(x, y, false);
    lemma_model_variant_same(without_comment(x, false), without_comment(y, false));
    assert(model_line(y) == model_line(x));
    assert(element_line(y) == element_line(x));
}

pub proof fn lemma_subckt_step_same(st: SubcktState, x: Seq<char>, y: Seq<char>)
    requires
        same_but_blanks(x, y),
    ensures
        subckt_step(st, y) == subckt_step(st, x),
{
    lemma_line_same(x, y);
    law_blank_kinds(x, y);
    lemma_header_same(x, y);
    assert(element_line(y) == element_line(x));
}

/// Two lists of lines, line by line the same but for blanks.
pub open spec fn lines_same(a: Seq<Seq<char>>, b: Seq<Seq<char>>) -> bool {
    &&& a.len() == b.len()
    &&& forall|i: int| 0 <= i < a.len() ==> #[trigger] same_but_blanks(a[i], b[i])
}

pub proof fn lemma_split_same(s: Seq<char>, u: Seq<char>)
    requires
        same_but_blanks(s, u),
    ensures
        lines_same(split_lines(s), split_lines(u)),
    decreases s.len(),
{
    if s.len() > 0 {
        let ds = s.drop_last();
        let du = u.drop_last();
        assert forall|i: int| 0 <= i < ds.len() implies #[trigger] blank_eq(ds[i], du[i]) by {
            assert(blank_eq(s[i], u[i]));
        }
        lemma_split_same(ds, du);
        lemma_split_nonempty(ds);
        let p = split_lines(ds);
        let q = split_lines(du);
        assert(blank_eq(s[s.len() - 1], u[s.len() - 1]));
        assert(s.last() == s[s.len() - 1]);
        assert(u.last() == u[s.len() - 1]);
        if s.last() == '\n' {
            assert(u.last() == '\n');
            assert forall|i: int| 0 <= i < p.len() + 1 implies #[trigger] same_but_blanks(
                split_lines(s)[i],
                split_lines(u)[i],
            ) by {
                if i < p.len() {
                    assert(same_but_blanks(p[i], q[i]));
                }
            }
        } else {
            assert(u.last() != '\n');
            let l = p.len() - 1;
            assert(same_but_blanks(p[l], q[l]));
            let a = p[l].push(s.last());
            let b = q[l].push(u.last());
            assert forall|i: int| 0 <= i < a.len() implies #[trigger] blank_eq(a[i], b[i]) by {
                if i < p[l].len() {
                    assert(blank_eq(p[l][i], q[l][i]));
                }
            }
            assert forall|i: int| 0 <= i < p.len() implies #[trigger] same_but_blanks(
                split_lines(s)[i],
                split_lines(u)[i],
            ) by {
                if i < l {
                    assert(same_but_blanks(p[i], q[i]));
                }
            }
        }
    }
}

pub proof fn lemma_subckt_scan_same(a: Seq<Seq<char>>, b: Seq<Seq<char>>)
    requires
        lines_same(a, b),
    ensures
        subckt_scan(b) == subckt_scan(a),
    decreases a.len(),
{
    if a.len() > 0 {
        assert forall|i: int| 0 <= i < a.drop_last().len() implies #[trigger] same_but_blanks(
            a.drop_last()[i],
            b.drop_last()[i],
        ) by {
            assert(same_but_blanks(a[i], b[i]));
        }
        lemma_subckt_scan_same(a.drop_last(), b.drop_last());
        if let SubcktScan::Reached(st) = subckt_scan(a.drop_last()) {
            assert(same_but_blanks(a[a.len() - 1], b[a.len() - 1]));
            lemma_uncommented_same(a.last(), b.last(), true);
            lemma_subckt_step_same(st, without_comment(a.last(), true), without_comment(b.last(), true));
        }
    }
}

pub proof fn lemma_desc_scan_same(
    defs: Map<Seq<char>, SubcircuitDefinitionView>,
    a: Seq<Seq<char>>,
    b: Seq<Seq<char>>,
    fuel: nat,
)
    requires
        lines_same(a, b),
    ensures
        desc_scan(defs, b, fuel) == desc_scan(defs, a, fuel),
    decreases a.len(),
{
    if a.len() > 0 {
        assert forall|i: int| 0 <= i < a.drop_last().len() implies #[trigger] same_but_blanks(
            a.drop_last()[i],
            b.drop_last()[i],
        ) by {
            assert(same_but_blanks(a[i], b[i]));
        }
        lemma_desc_scan_same(defs, a.drop_last(), b.drop_last(), fuel);
        if let DescScan::Reached(st) = desc_scan(defs, a.drop_last(), fuel) {
            assert(same_but_blanks(a[a.len() - 1], b[a.len() - 1]));
            lemma_uncommented_same(a.last(), b.last(), true);
            lemma_desc_step_same(
                defs,
                st,
                without_comment(a.last(), true),
                without_comment(b.last(), true),
                a.len(),
                fuel,
            );
        }
    }
}

proof fn lemma_subcircuits_same(input: Seq<char>, other: Seq<char>)
    requires
        same_but_blanks(input, other),
    ensures
        subcircuits_of(other) == subcircuits_of(input),
{
    lemma_split_same(input, other);
    lemma_subckt_scan_same(split_lines(input), split_lines(other));
}

proof fn lemma_scans_same(
    defs: Map<Seq<char>, SubcircuitDefinitionView>,
    input: Seq<char>,
    other: Seq<char>,
    fuel: nat,
)
    requires
        same_but_blanks(input, other),
    ensures
        desc_scan(defs, split_lines(other), fuel) == desc_scan(defs, split_lines(input), fuel),
{
    lemma_split_same(input, other);
    lemma_desc_scan_same(defs, split_lines(input), split_lines(other), fuel);
}

/// Spaces and tabs separate alike in the whole netlist: two netlists that
/// differ only in which blank stands at some places read the same.
pub proof fn law_netlist_blank_kinds(input: Seq<char>, other: Seq<char>, fuel: nat)
    requires
        same_but_blanks(input, other),
    ensures
        describe(other, fuel) == describe(input, fuel),
{
    lemma_subcircuits_same(input, other);
    if let SubcktScan::Reached(sub) = subcircuits_of(input) {
        lemma_scans_same(sub.defs, input, other, fuel);
    }
}

} // verus!
