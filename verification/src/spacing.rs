//! Runs of blanks read as one: a space written right after a blank changes
//! neither a card nor a netlist. Each rule of the grammar, read at a
//! position of a card, reads the same at the corresponding position of the
//! card with the space, and ends at the corresponding position; lines,
//! trimming and comments carry this to the whole netlist.

use vstd::prelude::*;

use crate::elements::bjt::{bjt_at, bjt_type_of};
use crate::elements::capacitor::{capacitor_at, group2_flag};
use crate::elements::current_source::current_source_at;
use crate::elements::diode::diode_at;
use crate::elements::inductor::inductor_at;
use crate::elements::nmosfet::nmosfet_at;
use crate::elements::resistor::resistor_at;
use crate::elements::subcircuit::{
    ends_keyword, is_blank_line, spaced_names, subckt_header_at, subckt_instance_at,
    subckt_keyword, subckt_scan, subckt_step, subcircuits_of, SubcircuitDefinitionView,
    SubcktScan, SubcktState,
};
use crate::elements::voltage_source::{
    ac_key, dc_key, implicit_dc_at, keyed_double_at, keyed_values_at, more_values, param_at,
    params_from, pulse_key, sin_key, voltage_source_at,
};
use crate::elements::{element_at, spaced_key_values, two_terminal_at};
use crate::models::{
    dot_model, key_value_at, key_values_from, model_body_at, model_line, model_variant_at,
    parameters_at,
};
use crate::number::{
    double_at, exponent_digits_start, float_prefix, is_exponent_mark, mantissa_end, sign_len,
};
use crate::parser::{
    control_keyword, desc_scan, desc_step, describe, end_keyword, endc_keyword, model_keyword,
    DescState,
};
use crate::syntax::{blanks_at, name_at, skip_blanks, spaced_name, spaced_value, value_at};
use crate::text::{
    comment_start, in_class, insert_blank, is_blank, is_comment_mark, is_white, lead_white,
    lemma_comment_start, lemma_run_end, lemma_run_shift, lemma_subrange_shift, matches_no_case,
    run1, run_end, same_no_case, shifted, split_lines, starts_no_case, trail_white,
    trimmed, without_comment, CharClass,
};

verus! {

/// Where a space may be inserted: `k` lies inside the text and right after
/// a blank.
pub open spec fn after_blank(s: Seq<char>, k: int) -> bool {
    1 <= k <= s.len() && is_blank(s[k - 1])
}

/// A position read in the text, carried to the text with the space.
pub open spec fn shift_end(k: int, r: Option<int>) -> Option<int> {
    match r {
        Some(e) => Some(shifted(k, e)),
        None => None,
    }
}

/// A reading (its end and what it read), carried to the text with the space.
pub open spec fn shift_read<X>(k: int, r: Option<(int, X)>) -> Option<(int, X)> {
    match r {
        Some((e, x)) => Some((shifted(k, e), x)),
        None => None,
    }
}

/// Whether `s[a..b]` holds no blank.
pub open spec fn no_blank(s: Seq<char>, a: int, b: int) -> bool {
    forall|p: int| a <= p < b ==> !is_blank(#[trigger] s[p])
}

/// Whether no character of `w` is a blank.
pub open spec fn blank_free(w: Seq<char>) -> bool {
    forall|m: int| 0 <= m < w.len() ==> !is_blank(#[trigger] w[m])
}

pub proof fn lemma_char_shift(s: Seq<char>, k: int)
    requires
        after_blank(s, k),
    ensures
        insert_blank(s, k).len() == s.len() + 1,
        forall|i: int| 0 <= i < s.len() ==> #[trigger] insert_blank(s, k)[shifted(k, i)] == s[i],
        insert_blank(s, k)[k] == ' ',
{
    let t = insert_blank(s, k);
    assert(t.len() == s.len() + 1);
    assert forall|i: int| 0 <= i < s.len() implies #[trigger] t[shifted(k, i)] == s[i] by {
        if i < k {
            assert(t[i] == s.take(k)[i]);
        } else {
            assert(t[i + 1] == s.skip(k)[i - k]);
        }
    }
}

/// A character other than a blank is never the one before the insertion,
/// so the position after it moves with it.
pub proof fn lemma_next_shift(s: Seq<char>, k: int, i: int)
    requires
        after_blank(s, k),
        0 <= i < s.len(),
        !is_blank(s[i]),
    ensures
        shifted(k, i + 1) == shifted(k, i) + 1,
{
}

/// A stretch without blanks is found again, unchanged, at its shifted place.
pub proof fn lemma_stretch_shift(s: Seq<char>, k: int, a: int, b: int)
    requires
        after_blank(s, k),
        0 <= a <= b <= s.len(),
        no_blank(s, a, b),
    ensures
        insert_blank(s, k).subrange(shifted(k, a), shifted(k, b)) == s.subrange(a, b),
        shifted(k, b) - shifted(k, a) == b - a,
{
    if a < k && b >= k {
        assert(!is_blank(s[k - 1]));
    }
    lemma_subrange_shift(s, k, a, b);
}

/// A keyword without blanks matches at a shifted position exactly where it
/// matched before, and its end moves with it.
pub proof fn lemma_keyword_shift(s: Seq<char>, k: int, j: int, w: Seq<char>)
    requires
        after_blank(s, k),
        0 <= j <= s.len(),
        blank_free(w),
    ensures
        starts_no_case(insert_blank(s, k), shifted(k, j), w) == starts_no_case(s, j, w),
        starts_no_case(s, j, w) ==> shifted(k, j + w.len()) == shifted(k, j) + w.len() && no_blank(
            s,
            j,
            j + w.len(),
        ),
{
    let t = insert_blank(s, k);
    lemma_char_shift(s, k);
    if starts_no_case(s, j, w) {
        assert forall|p: int| j <= p < j + w.len() implies !is_blank(#[trigger] s[p]) by {
            assert(matches_no_case(s[j + (p - j)], w[p - j]));
            assert(!is_blank(w[p - j]));
        }
        if j < k && j + w.len() >= k {
            assert(!is_blank(s[k - 1]));
        }
        assert forall|m: int| 0 <= m < w.len() implies #[trigger] matches_no_case(
            t[shifted(k, j) + m],
            w[m],
        ) by {
            assert(matches_no_case(s[j + m], w[m]));
            assert(shifted(k, j) + m == shifted(k, j + m));
        }
    } else if starts_no_case(t, shifted(k, j), w) {
        if j < k && j + w.len() >= k {
            let p = k - 1 - j;
            assert(t[k - 1] == s[k - 1]);
            assert(matches_no_case(t[shifted(k, j) + p], w[p]));
            assert(!is_blank(w[p]));
        } else {
            assert(j + w.len() <= s.len());
            let m = choose|m: int| 0 <= m < w.len() && !#[trigger] matches_no_case(s[j + m], w[m]);
            assert(matches_no_case(t[shifted(k, j) + m], w[m]));
            assert(shifted(k, j) + m == shifted(k, j + m));
        }
    }
}

/// A run of one class: of blanks, or of a class without blanks.
pub open spec fn shiftable(class: CharClass) -> bool {
    class == CharClass::Blank || (!in_class(class, ' ') && !in_class(class, '\t'))
}

pub proof fn lemma_run1_shift(s: Seq<char>, k: int, j: int, class: CharClass)
    requires
        after_blank(s, k),
        0 <= j <= s.len(),
        shiftable(class),
    ensures
        run1(insert_blank(s, k), shifted(k, j), class) == shift_end(k, run1(s, j, class)),
        run_end(insert_blank(s, k), shifted(k, j), class) == shifted(k, run_end(s, j, class)),
        j <= run_end(s, j, class) <= s.len(),
        class != CharClass::Blank ==> no_blank(s, j, run_end(s, j, class)),
{
    lemma_run_shift(s, k, j, class);
    lemma_run_end(s, j, class);
    if class != CharClass::Blank {
        assert forall|p: int| j <= p < run_end(s, j, class) implies !is_blank(#[trigger] s[p]) by {
            assert(in_class(class, s[p]));
        }
    }
}

pub proof fn lemma_name_shift(s: Seq<char>, k: int, j: int)
    requires
        after_blank(s, k),
        0 <= j <= s.len(),
    ensures
        name_at(insert_blank(s, k), shifted(k, j)) == shift_end(k, name_at(s, j)),
        name_at(s, j) matches Some(e) ==> j < e <= s.len() && no_blank(s, j, e),
{
    lemma_run1_shift(s, k, j, CharClass::Name);
}

pub proof fn lemma_blanks_shift(s: Seq<char>, k: int, j: int)
    requires
        after_blank(s, k),
        0 <= j <= s.len(),
    ensures
        blanks_at(insert_blank(s, k), shifted(k, j)) == shift_end(k, blanks_at(s, j)),
        skip_blanks(insert_blank(s, k), shifted(k, j)) == shifted(k, skip_blanks(s, j)),
        j <= skip_blanks(s, j) <= s.len(),
        blanks_at(s, j) matches Some(e) ==> j < e <= s.len(),
{
    lemma_run1_shift(s, k, j, CharClass::Blank);
}

pub proof fn lemma_spaced_name_shift(s: Seq<char>, k: int, j: int)
    requires
        after_blank(s, k),
        0 <= j <= s.len(),
    ensures
        spaced_name(insert_blank(s, k), shifted(k, j)) == (match spaced_name(s, j) {
            Some((b, e)) => Some((shifted(k, b), shifted(k, e))),
            None => None,
        }),
        spaced_name(s, j) matches Some((b, e)) ==> j < b < e <= s.len() && no_blank(s, b, e),
{
    lemma_blanks_shift(s, k, j);
    if let Some(b) = blanks_at(s, j) {
        lemma_name_shift(s, k, b);
    }
}

pub proof fn lemma_value_shift(s: Seq<char>, k: int, j: int)
    requires
        after_blank(s, k),
        0 <= j <= s.len(),
    ensures
        value_at(insert_blank(s, k), shifted(k, j)) == shift_read(k, value_at(s, j)),
        value_at(s, j) matches Some((e, _)) ==> j < e <= s.len(),
{
    lemma_run1_shift(s, k, j, CharClass::Token);
    let e = run_end(s, j, CharClass::Token);
    if e > j {
        lemma_stretch_shift(s, k, j, e);
    }
}

pub proof fn lemma_spaced_value_shift(s: Seq<char>, k: int, j: int)
    requires
        after_blank(s, k),
        0 <= j <= s.len(),
    ensures
        spaced_value(insert_blank(s, k), shifted(k, j)) == shift_read(k, spaced_value(s, j)),
        spaced_value(s, j) matches Some((e, _)) ==> j < e <= s.len(),
{
    lemma_blanks_shift(s, k, j);
    if let Some(b) = blanks_at(s, j) {
        lemma_value_shift(s, k, b);
    }
}

pub proof fn lemma_sign_shift(s: Seq<char>, k: int, j: int)
    requires
        after_blank(s, k),
        0 <= j <= s.len(),
    ensures
        sign_len(insert_blank(s, k), shifted(k, j)) == sign_len(s, j),
        shifted(k, j + sign_len(s, j)) == shifted(k, j) + sign_len(s, j),
        j + sign_len(s, j) <= s.len(),
        no_blank(s, j, j + sign_len(s, j)),
{
    lemma_char_shift(s, k);
    if j < s.len() {
        assert(insert_blank(s, k)[shifted(k, j)] == s[j]);
    }
}

pub proof fn lemma_mantissa_shift(s: Seq<char>, k: int, j: int)
    requires
        after_blank(s, k),
        0 <= j <= s.len(),
    ensures
        mantissa_end(insert_blank(s, k), shifted(k, j)) == shift_end(k, mantissa_end(s, j)),
        mantissa_end(s, j) matches Some(m) ==> j < m <= s.len() && no_blank(s, j, m),
{
    let t = insert_blank(s, k);
    lemma_char_shift(s, k);
    lemma_run1_shift(s, k, j, CharClass::Digit);
    let d = run_end(s, j, CharClass::Digit);
    if d > j {
        if d < s.len() && s[d] == '.' {
            assert(t[shifted(k, d)] == '.');
            lemma_next_shift(s, k, d);
            lemma_run1_shift(s, k, d + 1, CharClass::Digit);
            let m = run_end(s, d + 1, CharClass::Digit);
            assert forall|p: int| j <= p < m implies !is_blank(#[trigger] s[p]) by {
                if p < d {
                } else if p == d {
                } else {
                }
            }
        } else {
            if d < s.len() {
                assert(t[shifted(k, d)] == s[d]);
            }
        }
    } else if j < s.len() && s[j] == '.' {
        assert(t[shifted(k, j)] == '.');
        lemma_next_shift(s, k, j);
        lemma_run1_shift(s, k, j + 1, CharClass::Digit);
        let m = run_end(s, j + 1, CharClass::Digit);
        assert forall|p: int| j <= p < m implies !is_blank(#[trigger] s[p]) by {
            if p > j {
            }
        }
    } else {
        if j < s.len() {
            assert(t[shifted(k, j)] == s[j]);
        }
    }
}

proof fn lemma_word_blank_free()
    ensures
        blank_free(seq!['n', 'a', 'n']),
        blank_free(seq!['i', 'n', 'f', 'i', 'n', 'i', 't', 'y']),
        blank_free(seq!['i', 'n', 'f']),
{
    let a = seq!['n', 'a', 'n'];
    let b = seq!['i', 'n', 'f', 'i', 'n', 'i', 't', 'y'];
    let c = seq!['i', 'n', 'f'];
    assert forall|m: int| 0 <= m < a.len() implies !is_blank(#[trigger] a[m]) by {
    }
    assert forall|m: int| 0 <= m < b.len() implies !is_blank(#[trigger] b[m]) by {
    }
    assert forall|m: int| 0 <= m < c.len() implies !is_blank(#[trigger] c[m]) by {
    }
}

pub proof fn lemma_float_shift(s: Seq<char>, k: int, j: int)
    requires
        after_blank(s, k),
        0 <= j <= s.len(),
    ensures
        float_prefix(insert_blank(s, k), shifted(k, j)) == (match float_prefix(s, j) {
            Ok(e) => Ok(shifted(k, e)),
            Err(f) => Err(f),
        }),
        float_prefix(s, j) matches Ok(e) ==> j < e <= s.len() && no_blank(s, j, e),
{
    let t = insert_blank(s, k);
    lemma_char_shift(s, k);
    lemma_sign_shift(s, k, j);
    let j1 = j + sign_len(s, j);
    assert(shifted(k, j) + sign_len(t, shifted(k, j)) == shifted(k, j1));
    lemma_mantissa_shift(s, k, j1);
    match mantissa_end(s, j1) {
        Some(m) => {
            if m < s.len() && is_exponent_mark(s[m]) {
                assert(t[shifted(k, m)] == s[m]);
                lemma_next_shift(s, k, m);
                lemma_sign_shift(s, k, m + 1);
                let kk = exponent_digits_start(s, m);
                assert(exponent_digits_start(t, shifted(k, m)) == shifted(k, kk));
                lemma_run1_shift(s, k, kk, CharClass::Digit);
                let e = run_end(s, kk, CharClass::Digit);
                if e > kk {
                    assert forall|p: int| j <= p < e implies !is_blank(#[trigger] s[p]) by {
                        if p < j1 {
                        } else if p < m {
                        } else if p == m {
                        } else if p < kk {
                        } else {
                        }
                    }
                }
            } else {
                if m < s.len() {
                    assert(t[shifted(k, m)] == s[m]);
                }
                assert forall|p: int| j <= p < m implies !is_blank(#[trigger] s[p]) by {
                    if p < j1 {
                    }
                }
            }
        },
        None => {
            lemma_word_blank_free();
            lemma_keyword_shift(s, k, j, seq!['n', 'a', 'n']);
            lemma_keyword_shift(s, k, j, seq!['i', 'n', 'f', 'i', 'n', 'i', 't', 'y']);
            lemma_keyword_shift(s, k, j, seq!['i', 'n', 'f']);
        },
    }
}

pub proof fn lemma_double_shift(s: Seq<char>, k: int, j: int)
    requires
        after_blank(s, k),
        0 <= j <= s.len(),
    ensures
        double_at(insert_blank(s, k), shifted(k, j)) == (match double_at(s, j) {
            Ok((e, v)) => Ok((shifted(k, e), v)),
            Err(f) => Err(f),
        }),
        double_at(s, j) matches Ok((e, _)) ==> j < e <= s.len(),
{
    lemma_float_shift(s, k, j);
    if let Ok(e) = float_prefix(s, j) {
        lemma_stretch_shift(s, k, j, e);
    }
}

pub proof fn lemma_two_terminal_shift(s: Seq<char>, k: int, letter: char)
    requires
        after_blank(s, k),
        !is_blank(letter),
    ensures
        two_terminal_at(insert_blank(s, k), 0, letter) == shift_read(k, two_terminal_at(s, 0, letter)),
        two_terminal_at(s, 0, letter) matches Some((e, _)) ==> 0 < e <= s.len(),
{
    let t = insert_blank(s, k);
    let w = seq![letter];
    assert(blank_free(w)) by {
        assert forall|m: int| 0 <= m < w.len() implies !is_blank(#[trigger] w[m]) by {
        }
    }
    lemma_keyword_shift(s, k, 0, w);
    if starts_no_case(s, 0, w) {
        assert(shifted(k, 1) == shifted(k, 0) + 1);
        lemma_name_shift(s, k, 1);
        if let Some(n) = name_at(s, 1) {
            lemma_stretch_shift(s, k, 1, n);
            lemma_spaced_name_shift(s, k, n);
            if let Some((pb, pe)) = spaced_name(s, n) {
                lemma_stretch_shift(s, k, pb, pe);
                lemma_spaced_name_shift(s, k, pe);
                if let Some((mb, me)) = spaced_name(s, pe) {
                    lemma_stretch_shift(s, k, mb, me);
                    lemma_spaced_value_shift(s, k, me);
                }
            }
        }
    }
}

pub proof fn lemma_group2_shift(s: Seq<char>, k: int, e: int)
    requires
        after_blank(s, k),
        0 <= e <= s.len(),
    ensures
        group2_flag(insert_blank(s, k), shifted(k, e)) == (shifted(k, group2_flag(s, e).0), group2_flag(s, e).1),
        e <= group2_flag(s, e).0 <= s.len(),
{
    let w = seq!['G', '2'];
    assert(blank_free(w)) by {
        assert forall|m: int| 0 <= m < w.len() implies !is_blank(#[trigger] w[m]) by {
        }
    }
    lemma_blanks_shift(s, k, e);
    if let Some(b) = blanks_at(s, e) {
        lemma_keyword_shift(s, k, b, w);
    }
}

pub proof fn lemma_resistor_shift(s: Seq<char>, k: int)
    requires
        after_blank(s, k),
    ensures
        resistor_at(insert_blank(s, k), 0) == shift_read(k, resistor_at(s, 0)),
{
    lemma_two_terminal_shift(s, k, 'R');
}

pub proof fn lemma_capacitor_shift(s: Seq<char>, k: int)
    requires
        after_blank(s, k),
    ensures
        capacitor_at(insert_blank(s, k), 0) == shift_read(k, capacitor_at(s, 0)),
{
    lemma_two_terminal_shift(s, k, 'C');
    if let Some((e, _)) = two_terminal_at(s, 0, 'C') {
        lemma_group2_shift(s, k, e);
    }
}

pub proof fn lemma_inductor_shift(s: Seq<char>, k: int)
    requires
        after_blank(s, k),
    ensures
        inductor_at(insert_blank(s, k), 0) == shift_read(k, inductor_at(s, 0)),
{
    lemma_two_terminal_shift(s, k, 'L');
}

pub proof fn lemma_current_source_shift(s: Seq<char>, k: int)
    requires
        after_blank(s, k),
    ensures
        current_source_at(insert_blank(s, k), 0) == shift_read(k, current_source_at(s, 0)),
{
    lemma_two_terminal_shift(s, k, 'I');
}

proof fn lemma_keys_blank_free()
    ensures
        blank_free(dc_key()),
        blank_free(ac_key()),
        blank_free(pulse_key()),
        blank_free(sin_key()),
{
    assert forall|m: int| 0 <= m < dc_key().len() implies !is_blank(#[trigger] dc_key()[m]) by {
    }
    assert forall|m: int| 0 <= m < ac_key().len() implies !is_blank(#[trigger] ac_key()[m]) by {
    }
    assert forall|m: int| 0 <= m < pulse_key().len() implies !is_blank(#[trigger] pulse_key()[m]) by {
    }
    assert forall|m: int| 0 <= m < sin_key().len() implies !is_blank(#[trigger] sin_key()[m]) by {
    }
}

pub proof fn lemma_keyed_double_shift(s: Seq<char>, k: int, j: int, key: Seq<char>)
    requires
        after_blank(s, k),
        0 <= j <= s.len(),
        blank_free(key),
    ensures
        keyed_double_at(insert_blank(s, k), shifted(k, j), key) == (match keyed_double_at(s, j, key) {
            Ok((e, v)) => Ok((shifted(k, e), v)),
            Err(f) => Err(f),
        }),
        keyed_double_at(s, j, key) matches Ok((e, _)) ==> j < e <= s.len(),
{
    lemma_keyword_shift(s, k, j, key);
    if starts_no_case(s, j, key) {
        lemma_blanks_shift(s, k, j + key.len());
        if let Some(b) = blanks_at(s, j + key.len()) {
            lemma_double_shift(s, k, b);
        }
    }
}

pub proof fn lemma_more_values_shift(s: Seq<char>, k: int, j: int, n: nat)
    requires
        after_blank(s, k),
        0 <= j <= s.len(),
    ensures
        more_values(insert_blank(s, k), shifted(k, j), n) == shift_read(k, more_values(s, j, n)),
        more_values(s, j, n) matches Some((e, _)) ==> j <= e <= s.len(),
    decreases n,
{
    if n > 0 {
        lemma_spaced_value_shift(s, k, j);
        if let Some((e, v)) = spaced_value(s, j) {
            lemma_more_values_shift(s, k, e, (n - 1) as nat);
        }
    }
}

pub proof fn lemma_keyed_values_shift(s: Seq<char>, k: int, j: int, key: Seq<char>, n: nat)
    requires
        after_blank(s, k),
        0 <= j <= s.len(),
        blank_free(key),
    ensures
        keyed_values_at(insert_blank(s, k), shifted(k, j), key, n) == shift_read(
            k,
            keyed_values_at(s, j, key, n),
        ),
        keyed_values_at(s, j, key, n) matches Some((e, _)) ==> j < e <= s.len(),
{
    let t = insert_blank(s, k);
    lemma_char_shift(s, k);
    lemma_keyword_shift(s, k, j, key);
    if starts_no_case(s, j, key) {
        lemma_blanks_shift(s, k, j + key.len());
        let o = skip_blanks(s, j + key.len());
        if o < s.len() {
            assert(t[shifted(k, o)] == s[o]);
        }
        if o < s.len() && s[o] == '(' {
            lemma_next_shift(s, k, o);
            lemma_blanks_shift(s, k, o + 1);
            lemma_value_shift(s, k, skip_blanks(s, o + 1));
            if let Some((e1, v1)) = value_at(s, skip_blanks(s, o + 1)) {
                lemma_more_values_shift(s, k, e1, (n - 1) as nat);
                if let Some((e2, vs)) = more_values(s, e1, (n - 1) as nat) {
                    lemma_blanks_shift(s, k, e2);
                    let c = skip_blanks(s, e2);
                    if c < s.len() {
                        assert(t[shifted(k, c)] == s[c]);
                    }
                    if c < s.len() && s[c] == ')' {
                        lemma_next_shift(s, k, c);
                    }
                }
            }
        }
    }
}

pub proof fn lemma_param_shift(s: Seq<char>, k: int, j: int)
    requires
        after_blank(s, k),
        0 <= j <= s.len(),
    ensures
        param_at(insert_blank(s, k), shifted(k, j)) == (match param_at(s, j) {
            Ok((e, p)) => Ok((shifted(k, e), p)),
            Err(f) => Err(f),
        }),
        param_at(s, j) matches Ok((e, _)) ==> j < e <= s.len(),
{
    lemma_keys_blank_free();
    lemma_blanks_shift(s, k, j);
    if let Some(b) = blanks_at(s, j) {
        lemma_keyed_double_shift(s, k, b, dc_key());
        lemma_keyed_double_shift(s, k, b, ac_key());
        lemma_keyed_values_shift(s, k, b, pulse_key(), 7);
        lemma_keyed_values_shift(s, k, b, sin_key(), 6);
    }
}

pub proof fn lemma_params_shift(s: Seq<char>, k: int, j: int)
    requires
        after_blank(s, k),
        0 <= j <= s.len(),
    ensures
        params_from(insert_blank(s, k), shifted(k, j)) == (match params_from(s, j) {
            Ok((e, ps)) => Ok((shifted(k, e), ps)),
            Err(f) => Err(f),
        }),
        params_from(s, j) matches Ok((e, _)) ==> j <= e <= s.len(),
    decreases s.len() - j,
{
    lemma_param_shift(s, k, j);
    if let Ok((e, p)) = param_at(s, j) {
        if !(e <= j || e > s.len()) {
            lemma_params_shift(s, k, e);
        }
    }
}

pub proof fn lemma_implicit_dc_shift(s: Seq<char>, k: int, j: int)
    requires
        after_blank(s, k),
        0 <= j <= s.len(),
    ensures
        implicit_dc_at(insert_blank(s, k), shifted(k, j)) == (match implicit_dc_at(s, j) {
            Ok((e, v)) => Ok((shifted(k, e), v)),
            Err(f) => Err(f),
        }),
        implicit_dc_at(s, j) matches Ok((e, _)) ==> j <= e <= s.len(),
{
    lemma_blanks_shift(s, k, j);
    if let Some(b) = blanks_at(s, j) {
        lemma_double_shift(s, k, b);
    }
}

pub proof fn lemma_voltage_source_shift(s: Seq<char>, k: int)
    requires
        after_blank(s, k),
    ensures
        voltage_source_at(insert_blank(s, k), 0) == (match voltage_source_at(s, 0) {
            Ok((e, v)) => Ok((shifted(k, e), v)),
            Err(f) => Err(f),
        }),
{
    let t = insert_blank(s, k);
    lemma_char_shift(s, k);
    assert(t[0] == s[0]);
    if s[0] == 'V' || s[0] == 'v' {
        assert(k > 1);
        lemma_name_shift(s, k, 1);
        if let Some(n) = name_at(s, 1) {
            lemma_stretch_shift(s, k, 1, n);
            lemma_spaced_name_shift(s, k, n);
            if let Some((pb, pe)) = spaced_name(s, n) {
                lemma_stretch_shift(s, k, pb, pe);
                lemma_spaced_name_shift(s, k, pe);
                if let Some((mb, me)) = spaced_name(s, pe) {
                    lemma_stretch_shift(s, k, mb, me);
                    lemma_implicit_dc_shift(s, k, me);
                    if let Ok((d, implicit)) = implicit_dc_at(s, me) {
                        lemma_params_shift(s, k, d);
                    }
                }
            }
        }
    }
}

pub proof fn lemma_key_value_shift(s: Seq<char>, k: int, j: int)
    requires
        after_blank(s, k),
        0 <= j <= s.len(),
    ensures
        key_value_at(insert_blank(s, k), shifted(k, j)) == shift_read(k, key_value_at(s, j)),
        key_value_at(s, j) matches Some((e, _)) ==> j < e <= s.len(),
{
    let t = insert_blank(s, k);
    lemma_char_shift(s, k);
    lemma_name_shift(s, k, j);
    if let Some(n) = name_at(s, j) {
        lemma_stretch_shift(s, k, j, n);
        lemma_blanks_shift(s, k, n);
        let q = skip_blanks(s, n);
        if q < s.len() {
            assert(t[shifted(k, q)] == s[q]);
        }
        if q < s.len() && s[q] == '=' {
            lemma_next_shift(s, k, q);
            lemma_blanks_shift(s, k, q + 1);
            lemma_value_shift(s, k, skip_blanks(s, q + 1));
        }
    }
}

pub proof fn lemma_key_values_shift(s: Seq<char>, k: int, j: int)
    requires
        after_blank(s, k),
        0 <= j <= s.len(),
    ensures
        spaced_key_values(insert_blank(s, k), shifted(k, j)) == (
            shifted(k, spaced_key_values(s, j).0),
            spaced_key_values(s, j).1,
        ),
        j <= spaced_key_values(s, j).0 <= s.len(),
    decreases s.len() - j,
{
    lemma_blanks_shift(s, k, j);
    if let Some(b) = blanks_at(s, j) {
        lemma_key_value_shift(s, k, b);
        if let Some((e, kv)) = key_value_at(s, b) {
            if !(e <= j || e > s.len()) {
                lemma_key_values_shift(s, k, e);
            }
        }
    }
}

pub proof fn lemma_spaced_names_shift(s: Seq<char>, k: int, j: int)
    requires
        after_blank(s, k),
        0 <= j <= s.len(),
    ensures
        spaced_names(insert_blank(s, k), shifted(k, j)) == (
            shifted(k, spaced_names(s, j).0),
            spaced_names(s, j).1,
        ),
        j <= spaced_names(s, j).0 <= s.len(),
    decreases s.len() - j,
{
    lemma_spaced_name_shift(s, k, j);
    if let Some((b, e)) = spaced_name(s, j) {
        lemma_stretch_shift(s, k, b, e);
        if !(e <= j || e > s.len()) {
            lemma_spaced_names_shift(s, k, e);
        }
    }
}

pub proof fn lemma_letters_blank_free()
    ensures
        blank_free(seq!['d']),
        blank_free(seq!['q']),
        blank_free(seq!['x']),
        blank_free(seq!['m', 'n']),
{
    let d = seq!['d'];
    let q = seq!['q'];
    let x = seq!['x'];
    let mn = seq!['m', 'n'];
    assert forall|m: int| 0 <= m < d.len() implies !is_blank(#[trigger] d[m]) by {
    }
    assert forall|m: int| 0 <= m < q.len() implies !is_blank(#[trigger] q[m]) by {
    }
    assert forall|m: int| 0 <= m < x.len() implies !is_blank(#[trigger] x[m]) by {
    }
    assert forall|m: int| 0 <= m < mn.len() implies !is_blank(#[trigger] mn[m]) by {
    }
}

pub proof fn lemma_diode_shift(s: Seq<char>, k: int)
    requires
        after_blank(s, k),
    ensures
        diode_at(insert_blank(s, k), 0) == shift_read(k, diode_at(s, 0)),
{
    lemma_letters_blank_free();
    lemma_keyword_shift(s, k, 0, seq!['d']);
    if starts_no_case(s, 0, seq!['d']) {
        lemma_name_shift(s, k, 1);
        if let Some(n) = name_at(s, 1) {
            lemma_stretch_shift(s, k, 1, n);
            lemma_spaced_name_shift(s, k, n);
            if let Some((pb, pe)) = spaced_name(s, n) {
                lemma_stretch_shift(s, k, pb, pe);
                lemma_spaced_name_shift(s, k, pe);
                if let Some((mb, me)) = spaced_name(s, pe) {
                    lemma_stretch_shift(s, k, mb, me);
                    lemma_spaced_name_shift(s, k, me);
                    if let Some((b2, e2)) = spaced_name(s, me) {
                        lemma_stretch_shift(s, k, b2, e2);
                    }
                }
            }
        }
    }
}

pub proof fn lemma_bjt_shift(s: Seq<char>, k: int)
    requires
        after_blank(s, k),
    ensures
        bjt_at(insert_blank(s, k), 0) == shift_read(k, bjt_at(s, 0)),
{
    let t = insert_blank(s, k);
    lemma_char_shift(s, k);
    lemma_letters_blank_free();
    lemma_keyword_shift(s, k, 0, seq!['q']);
    if starts_no_case(s, 0, seq!['q']) {
        assert(k >= 2);
        assert(t[1] == s[1]);
        if let Some(ty) = bjt_type_of(s[1]) {
            lemma_next_shift(s, k, 1);
            lemma_run1_shift(s, k, 2, CharClass::Alnum);
            if let Some(n) = run1(s, 2, CharClass::Alnum) {
                lemma_stretch_shift(s, k, 2, n);
                lemma_spaced_name_shift(s, k, n);
                if let Some((cb, ce)) = spaced_name(s, n) {
                    lemma_stretch_shift(s, k, cb, ce);
                    lemma_spaced_name_shift(s, k, ce);
                    if let Some((bb, be)) = spaced_name(s, ce) {
                        lemma_stretch_shift(s, k, bb, be);
                        lemma_spaced_name_shift(s, k, be);
                        if let Some((eb, ee)) = spaced_name(s, be) {
                            lemma_stretch_shift(s, k, eb, ee);
                            lemma_spaced_value_shift(s, k, ee);
                        }
                    }
                }
            }
        }
    }
}

pub proof fn lemma_nmosfet_shift(s: Seq<char>, k: int)
    requires
        after_blank(s, k),
    ensures
        nmosfet_at(insert_blank(s, k), 0) == shift_read(k, nmosfet_at(s, 0)),
{
    lemma_letters_blank_free();
    lemma_keyword_shift(s, k, 0, seq!['m', 'n']);
    if starts_no_case(s, 0, seq!['m', 'n']) {
        lemma_name_shift(s, k, 2);
        if let Some(n) = name_at(s, 2) {
            lemma_stretch_shift(s, k, 2, n);
            lemma_spaced_name_shift(s, k, n);
            if let Some((db, de)) = spaced_name(s, n) {
                lemma_stretch_shift(s, k, db, de);
                lemma_spaced_name_shift(s, k, de);
                if let Some((gb, ge)) = spaced_name(s, de) {
                    lemma_stretch_shift(s, k, gb, ge);
                    lemma_spaced_name_shift(s, k, ge);
                    if let Some((sb, se)) = spaced_name(s, ge) {
                        lemma_stretch_shift(s, k, sb, se);
                        lemma_spaced_name_shift(s, k, se);
                        if let Some((bb, be)) = spaced_name(s, se) {
                            lemma_stretch_shift(s, k, bb, be);
                            lemma_spaced_name_shift(s, k, be);
                            if let Some((mb, me)) = spaced_name(s, be) {
                                lemma_stretch_shift(s, k, mb, me);
                                lemma_key_values_shift(s, k, me);
                                lemma_blanks_shift(s, k, spaced_key_values(s, me).0);
                            }
                        }
                    }
                }
            }
        }
    }
}

pub proof fn lemma_instance_shift(s: Seq<char>, k: int)
    requires
        after_blank(s, k),
    ensures
        subckt_instance_at(insert_blank(s, k), 0) == shift_read(k, subckt_instance_at(s, 0)),
{
    lemma_letters_blank_free();
    lemma_keyword_shift(s, k, 0, seq!['x']);
    if starts_no_case(s, 0, seq!['x']) {
        lemma_name_shift(s, k, 1);
        if let Some(n) = name_at(s, 1) {
            lemma_stretch_shift(s, k, 1, n);
            lemma_spaced_names_shift(s, k, n);
        }
    }
}

/// Fields may be separated by any number of blanks: a space written right
/// after a blank leaves every element card as it was (the same element, or
/// the same failure), and moves the end of the card by one where the end
/// lies after the insertion.
pub proof fn law_blank_runs(s: Seq<char>, k: int)
    requires
        after_blank(s, k),
    ensures
        element_at(insert_blank(s, k)) == (match element_at(s) {
            Ok((e, x)) => Ok((shifted(k, e), x)),
            Err(f) => Err(f),
        }),
{
    lemma_resistor_shift(s, k);
    lemma_capacitor_shift(s, k);
    lemma_inductor_shift(s, k);
    lemma_voltage_source_shift(s, k);
    lemma_current_source_shift(s, k);
    lemma_diode_shift(s, k);
    lemma_bjt_shift(s, k);
    lemma_nmosfet_shift(s, k);
    lemma_instance_shift(s, k);
}

pub proof fn lemma_key_values_from_shift(s: Seq<char>, k: int, j: int)
    requires
        after_blank(s, k),
        0 <= j <= s.len(),
    ensures
        key_values_from(insert_blank(s, k), shifted(k, j)) == shift_read(k, key_values_from(s, j)),
        key_values_from(s, j) matches Some((e, _)) ==> j <= e <= s.len(),
    decreases s.len() - j,
{
    lemma_blanks_shift(s, k, j);
    lemma_key_value_shift(s, k, skip_blanks(s, j));
    if let Some((e, kv)) = key_value_at(s, skip_blanks(s, j)) {
        if !(e <= j || e > s.len()) {
            lemma_key_values_from_shift(s, k, e);
        }
    }
}

pub proof fn lemma_parameters_shift(s: Seq<char>, k: int, j: int)
    requires
        after_blank(s, k),
        0 <= j <= s.len(),
    ensures
        parameters_at(insert_blank(s, k), shifted(k, j)) == shift_read(k, parameters_at(s, j)),
        parameters_at(s, j) matches Some((e, _)) ==> j < e <= s.len(),
{
    let t = insert_blank(s, k);
    lemma_char_shift(s, k);
    lemma_blanks_shift(s, k, j);
    let o = skip_blanks(s, j);
    if o < s.len() {
        assert(t[shifted(k, o)] == s[o]);
    }
    if o < s.len() && s[o] == '(' {
        lemma_next_shift(s, k, o);
        lemma_key_values_from_shift(s, k, o + 1);
        if let Some((e, kvs)) = key_values_from(s, o + 1) {
            lemma_blanks_shift(s, k, e);
            let c = skip_blanks(s, e);
            if c < s.len() {
                assert(t[shifted(k, c)] == s[c]);
            }
            if c < s.len() && s[c] == ')' {
                lemma_next_shift(s, k, c);
            }
        }
    }
}

pub proof fn lemma_model_words_blank_free()
    ensures
        blank_free(seq!['N', 'M', 'O', 'S']),
        blank_free(seq!['P', 'M', 'O', 'S']),
        blank_free(seq!['D']),
        blank_free(dot_model()),
        blank_free(subckt_keyword()),
{
    let a = seq!['N', 'M', 'O', 'S'];
    let b = seq!['P', 'M', 'O', 'S'];
    let c = seq!['D'];
    assert forall|m: int| 0 <= m < a.len() implies !is_blank(#[trigger] a[m]) by {
    }
    assert forall|m: int| 0 <= m < b.len() implies !is_blank(#[trigger] b[m]) by {
    }
    assert forall|m: int| 0 <= m < c.len() implies !is_blank(#[trigger] c[m]) by {
    }
    assert forall|m: int| 0 <= m < dot_model().len() implies !is_blank(#[trigger] dot_model()[m]) by {
    }
    assert forall|m: int| 0 <= m < subckt_keyword().len() implies !is_blank(
        #[trigger] subckt_keyword()[m],
    ) by {
    }
}

pub proof fn lemma_model_body_shift(s: Seq<char>, k: int, j: int, name: Seq<char>)
    requires
        after_blank(s, k),
        0 <= j <= s.len(),
    ensures
        model_body_at(insert_blank(s, k), shifted(k, j), name) == shift_read(
            k,
            model_body_at(s, j, name),
        ),
{
    lemma_model_words_blank_free();
    lemma_keyword_shift(s, k, j, seq!['N', 'M', 'O', 'S']);
    lemma_keyword_shift(s, k, j, seq!['P', 'M', 'O', 'S']);
    lemma_keyword_shift(s, k, j, seq!['D']);
    if starts_no_case(s, j, seq!['N', 'M', 'O', 'S']) || starts_no_case(s, j, seq!['P', 'M', 'O', 'S']) {
        lemma_parameters_shift(s, k, j + 4);
    } else if starts_no_case(s, j, seq!['D']) {
        lemma_parameters_shift(s, k, j + 1);
    }
}

pub proof fn lemma_model_variant_shift(s: Seq<char>, k: int)
    requires
        after_blank(s, k),
    ensures
        model_variant_at(insert_blank(s, k), 0) == shift_read(k, model_variant_at(s, 0)),
{
    lemma_model_words_blank_free();
    lemma_keyword_shift(s, k, 0, dot_model());
    if starts_no_case(s, 0, dot_model()) {
        lemma_blanks_shift(s, k, 6);
        if let Some(b) = blanks_at(s, 6) {
            lemma_name_shift(s, k, b);
            if let Some(n) = name_at(s, b) {
                lemma_stretch_shift(s, k, b, n);
                lemma_blanks_shift(s, k, n);
                if let Some(t) = blanks_at(s, n) {
                    lemma_model_body_shift(s, k, t, s.subrange(b, n));
                }
            }
        }
    }
}

pub proof fn lemma_header_shift(s: Seq<char>, k: int)
    requires
        after_blank(s, k),
    ensures
        subckt_header_at(insert_blank(s, k)) == shift_read(k, subckt_header_at(s)),
{
    lemma_model_words_blank_free();
    lemma_keyword_shift(s, k, 0, subckt_keyword());
    if starts_no_case(s, 0, subckt_keyword()) {
        lemma_spaced_name_shift(s, k, 7);
        if let Some((b, n)) = spaced_name(s, 7) {
            lemma_stretch_shift(s, k, b, n);
            lemma_spaced_names_shift(s, k, n);
        }
    }
}

pub proof fn lemma_lead_white(s: Seq<char>)
    ensures
        0 <= lead_white(s) <= s.len(),
        forall|i: int| 0 <= i < lead_white(s) ==> is_white(#[trigger] s[i]),
        lead_white(s) < s.len() ==> !is_white(s[lead_white(s)]),
    decreases s.len(),
{
    if s.len() > 0 && is_white(s[0]) {
        lemma_lead_white(s.drop_first());
        assert forall|i: int| 0 <= i < lead_white(s) implies is_white(#[trigger] s[i]) by {
            if i > 0 {
                assert(s[i] == s.drop_first()[i - 1]);
            }
        }
        if lead_white(s) < s.len() {
            assert(s[lead_white(s)] == s.drop_first()[lead_white(s) - 1]);
        }
    }
}

pub proof fn lemma_lead_white_is(s: Seq<char>, a: int)
    requires
        0 <= a <= s.len(),
        forall|i: int| 0 <= i < a ==> is_white(#[trigger] s[i]),
        a < s.len() ==> !is_white(s[a]),
    ensures
        lead_white(s) == a,
    decreases s.len(),
{
    if a > 0 {
        assert(is_white(s[0]));
        assert forall|i: int| 0 <= i < a - 1 implies is_white(#[trigger] s.drop_first()[i]) by {
            assert(s.drop_first()[i] == s[i + 1]);
        }
        if a - 1 < s.len() - 1 {
            assert(s.drop_first()[a - 1] == s[a]);
        }
        lemma_lead_white_is(s.drop_first(), a - 1);
    }
}

pub proof fn lemma_trail_white(s: Seq<char>)
    ensures
        0 <= trail_white(s) <= s.len(),
        forall|i: int| s.len() - trail_white(s) <= i < s.len() ==> is_white(#[trigger] s[i]),
        trail_white(s) < s.len() ==> !is_white(s[s.len() - trail_white(s) - 1]),
    decreases s.len(),
{
    if s.len() > 0 && is_white(s.last()) {
        lemma_trail_white(s.drop_last());
        assert forall|i: int| s.len() - trail_white(s) <= i < s.len() implies is_white(
            #[trigger] s[i],
        ) by {
            if i < s.len() - 1 {
                assert(s[i] == s.drop_last()[i]);
            }
        }
        if trail_white(s) < s.len() {
            assert(s[s.len() - trail_white(s) - 1] == s.drop_last()[s.len() - trail_white(s) - 1]);
        }
    }
}

pub proof fn lemma_trail_white_is(s: Seq<char>, z: int)
    requires
        0 <= z <= s.len(),
        forall|i: int| s.len() - z <= i < s.len() ==> is_white(#[trigger] s[i]),
        z < s.len() ==> !is_white(s[s.len() - z - 1]),
    ensures
        trail_white(s) == z,
    decreases s.len(),
{
    if z > 0 {
        assert(is_white(s[s.len() - 1]));
        let d = s.drop_last();
        assert forall|i: int| d.len() - (z - 1) <= i < d.len() implies is_white(#[trigger] d[i]) by {
            assert(d[i] == s[i]);
        }
        if z - 1 < d.len() {
            assert(d[d.len() - (z - 1) - 1] == s[s.len() - z - 1]);
        }
        lemma_trail_white_is(d, z - 1);
    }
}

/// Trimming a line with one more space: the space fell into the white
/// space that trimming drops (`None`), or it lies inside the trimmed text,
/// after a blank of it (`Some` of its place there).
pub proof fn lemma_trim_insert(x: Seq<char>, m: int) -> (r: Option<int>)
    requires
        after_blank(x, m),
    ensures
        match r {
            None => trimmed(insert_blank(x, m)) == trimmed(x),
            Some(m2) => after_blank(trimmed(x), m2) && trimmed(insert_blank(x, m)) == insert_blank(
                trimmed(x),
                m2,
            ),
        },
{
    let ins = insert_blank(x, m);
    lemma_char_shift(x, m);
    assert(ins.len() == x.len() + 1);
    assert forall|i: int| 0 <= i < m implies #[trigger] ins[i] == x[i] by {
        assert(shifted(m, i) == i);
    }
    assert forall|i: int| m < i <= x.len() implies #[trigger] ins[i] == x[i - 1] by {
        assert(shifted(m, i - 1) == i);
    }
    assert(is_white(x[m - 1]));
    lemma_lead_white(x);
    let a = lead_white(x);
    if m <= a {
        assert forall|i: int| 0 <= i < a + 1 implies is_white(#[trigger] ins[i]) by {
            if i < m {
            } else if i == m {
            } else {
                assert(ins[i] == x[i - 1]);
            }
        }
        if a + 1 < ins.len() {
            assert(ins[a + 1] == x[a]);
        }
        lemma_lead_white_is(ins, a + 1);
        assert(ins.skip(a + 1) =~= x.skip(a));
        None
    } else {
        assert(a < x.len());
        assert(ins[a] == x[a]);
        lemma_lead_white_is(ins, a);
        let y = x.skip(a);
        let y2 = ins.skip(a);
        let j = m - a;
        assert(y2 =~= insert_blank(y, j));
        lemma_trail_white(y);
        let z = trail_white(y);
        assert(y[j - 1] == x[m - 1]);
        lemma_char_shift(y, j);
        assert forall|i: int| 0 <= i < j implies #[trigger] y2[i] == y[i] by {
            assert(shifted(j, i) == i);
        }
        assert forall|i: int| j < i <= y.len() implies #[trigger] y2[i] == y[i - 1] by {
            assert(shifted(j, i - 1) == i);
        }
        if j - 1 >= y.len() - z {
            assert forall|i: int| y2.len() - (z + 1) <= i < y2.len() implies is_white(
                #[trigger] y2[i],
            ) by {
                if i < j {
                } else if i == j {
                } else {
                    assert(y2[i] == y[i - 1]);
                }
            }
            if z + 1 < y2.len() {
                assert(y2[y2.len() - (z + 1) - 1] == y[y.len() - z - 1]);
            }
            lemma_trail_white_is(y2, z + 1);
            assert(y2.take(y2.len() - (z + 1)) =~= y.take(y.len() - z));
            None
        } else {
            assert(z < y.len());
            assert(!is_white(y[y.len() - z - 1]));
            assert(j < y.len() - z);
            assert forall|i: int| y2.len() - z <= i < y2.len() implies is_white(#[trigger] y2[i]) by {
                assert(y2[i] == y[i - 1]);
            }
            assert(y2[y2.len() - z - 1] == y[y.len() - z - 1]);
            lemma_trail_white_is(y2, z);
            let tr = y.take(y.len() - z);
            assert(trimmed(x) == tr);
            assert(tr[j - 1] == y[j - 1]);
            assert(y2.take(y2.len() - z) =~= insert_blank(tr, j));
            Some(j)
        }
    }
}

pub proof fn lemma_comment_start_is(s: Seq<char>, star: bool, c: int)
    requires
        0 <= c <= s.len(),
        forall|i: int| 0 <= i < c ==> !is_comment_mark(#[trigger] s[i], star),
        c < s.len() ==> is_comment_mark(s[c], star),
    ensures
        comment_start(s, star) == c,
    decreases s.len(),
{
    if c > 0 {
        assert(!is_comment_mark(s[0], star));
        assert forall|i: int| 0 <= i < c - 1 implies !is_comment_mark(
            #[trigger] s.drop_first()[i],
            star,
        ) by {
            assert(s.drop_first()[i] == s[i + 1]);
        }
        if c - 1 < s.len() - 1 {
            assert(s.drop_first()[c - 1] == s[c]);
        }
        lemma_comment_start_is(s.drop_first(), star, c - 1);
    }
}

/// The text before the comment, trimmed, of a line with one more space:
/// unchanged (`None`), or with the space inside it after a blank.
pub proof fn lemma_uncommented_insert(x: Seq<char>, m: int, star: bool) -> (r: Option<int>)
    requires
        after_blank(x, m),
    ensures
        match r {
            None => without_comment(insert_blank(x, m), star) == without_comment(x, star),
            Some(m2) => after_blank(without_comment(x, star), m2) && without_comment(
                insert_blank(x, m),
                star,
            ) == insert_blank(without_comment(x, star), m2),
        },
{
    let ins = insert_blank(x, m);
    lemma_char_shift(x, m);
    lemma_comment_start(x, star);
    let cs = comment_start(x, star);
    assert forall|i: int| 0 <= i < m implies #[trigger] ins[i] == x[i] by {
        assert(shifted(m, i) == i);
    }
    assert forall|i: int| m < i <= x.len() implies #[trigger] ins[i] == x[i - 1] by {
        assert(shifted(m, i - 1) == i);
    }
    if m <= cs {
        assert forall|i: int| 0 <= i < cs + 1 implies !is_comment_mark(#[trigger] ins[i], star) by {
            if i < m {
            } else if i == m {
            } else {
                assert(ins[i] == x[i - 1]);
            }
        }
        if cs + 1 < ins.len() {
            assert(ins[cs + 1] == x[cs]);
        }
        lemma_comment_start_is(ins, star, cs + 1);
        let u = x.take(cs);
        assert(ins.take(cs + 1) =~= insert_blank(u, m));
        assert(u[m - 1] == x[m - 1]);
        lemma_trim_insert(u, m)
    } else {
        assert forall|i: int| 0 <= i < cs implies !is_comment_mark(#[trigger] ins[i], star) by {
        }
        lemma_comment_start_is(ins, star, cs);
        assert(ins.take(cs) =~= x.take(cs));
        None
    }
}

pub proof fn lemma_model_line_insert(x: Seq<char>, m: int)
    requires
        after_blank(x, m),
    ensures
        model_line(insert_blank(x, m)) == model_line(x),
{
    let r = lemma_uncommented_insert(x, m, false);
    if let Some(m2) = r {
        lemma_model_variant_shift(without_comment(x, false), m2);
    }
}

pub proof fn lemma_line_keywords_blank_free()
    ensures
        blank_free(control_keyword()),
        blank_free(endc_keyword()),
        blank_free(end_keyword()),
        blank_free(model_keyword()),
        blank_free(subckt_keyword()),
        blank_free(ends_keyword()),
{
    assert forall|m: int| 0 <= m < control_keyword().len() implies !is_blank(
        #[trigger] control_keyword()[m],
    ) by {
    }
    assert forall|m: int| 0 <= m < endc_keyword().len() implies !is_blank(
        #[trigger] endc_keyword()[m],
    ) by {
    }
    assert forall|m: int| 0 <= m < end_keyword().len() implies !is_blank(
        #[trigger] end_keyword()[m],
    ) by {
    }
    assert forall|m: int| 0 <= m < model_keyword().len() implies !is_blank(
        #[trigger] model_keyword()[m],
    ) by {
    }
    assert forall|m: int| 0 <= m < subckt_keyword().len() implies !is_blank(
        #[trigger] subckt_keyword()[m],
    ) by {
    }
    assert forall|m: int| 0 <= m < ends_keyword().len() implies !is_blank(
        #[trigger] ends_keyword()[m],
    ) by {
    }
}

proof fn lemma_keyword_line(x: Seq<char>, m: int, w: Seq<char>)
    requires
        after_blank(x, m),
        blank_free(w),
    ensures
        starts_no_case(insert_blank(x, m), 0, w) == starts_no_case(x, 0, w),
        !same_no_case(insert_blank(x, m), w),
        !same_no_case(x, w),
{
    let t = insert_blank(x, m);
    lemma_char_shift(x, m);
    lemma_keyword_shift(x, m, 0, w);
    if same_no_case(x, w) {
        assert(matches_no_case(x[0 + (m - 1)], w[m - 1]));
        assert(!is_blank(w[m - 1]));
    }
    if same_no_case(t, w) {
        assert(matches_no_case(t[0 + m], w[m]));
        assert(!is_blank(w[m]));
    }
}

/// What every reading of a line looks at is the same with one more space.
proof fn lemma_line_facts(x: Seq<char>, m: int)
    requires
        after_blank(x, m),
    ensures
        is_blank_line(insert_blank(x, m)) == is_blank_line(x),
        starts_no_case(insert_blank(x, m), 0, control_keyword()) == starts_no_case(x, 0, control_keyword()),
        starts_no_case(insert_blank(x, m), 0, endc_keyword()) == starts_no_case(x, 0, endc_keyword()),
        starts_no_case(insert_blank(x, m), 0, model_keyword()) == starts_no_case(x, 0, model_keyword()),
        starts_no_case(insert_blank(x, m), 0, subckt_keyword()) == starts_no_case(x, 0, subckt_keyword()),
        starts_no_case(insert_blank(x, m), 0, ends_keyword()) == starts_no_case(x, 0, ends_keyword()),
        same_no_case(insert_blank(x, m), end_keyword()) == same_no_case(x, end_keyword()),
        starts_no_case(x, 0, subckt_keyword()) ==> insert_blank(x, m)[5] == x[5],
{
    lemma_char_shift(x, m);
    assert(insert_blank(x, m)[shifted(m, 0)] == x[0]);
    lemma_line_keywords_blank_free();
    lemma_keyword_line(x, m, control_keyword());
    lemma_keyword_line(x, m, endc_keyword());
    lemma_keyword_line(x, m, model_keyword());
    lemma_keyword_line(x, m, subckt_keyword());
    lemma_keyword_line(x, m, ends_keyword());
    lemma_keyword_line(x, m, end_keyword());
    if starts_no_case(x, 0, subckt_keyword()) {
        lemma_keyword_shift(x, m, 0, subckt_keyword());
        assert(m - 1 >= 7);
        assert(insert_blank(x, m)[shifted(m, 5)] == x[5]);
    }
}

pub proof fn lemma_desc_step_insert(
    defs: Map<Seq<char>, SubcircuitDefinitionView>,
    st: DescState,
    x: Seq<char>,
    m: int,
    number: nat,
    fuel: nat,
)
    requires
        after_blank(x, m),
    ensures
        desc_step(defs, st, insert_blank(x, m), number, fuel) == desc_step(defs, st, x, number, fuel),
{
    lemma_line_facts(x, m);
    lemma_model_line_insert(x, m);
    law_blank_runs(x, m);
}

pub proof fn lemma_subckt_step_insert(st: SubcktState, x: Seq<char>, m: int)
    requires
        after_blank(x, m),
    ensures
        subckt_step(st, insert_blank(x, m)) == subckt_step(st, x),
{
    lemma_line_facts(x, m);
    law_blank_runs(x, m);
    lemma_header_shift(x, m);
}

pub proof fn lemma_split_nonempty(s: Seq<char>)
    ensures
        split_lines(s).len() >= 1,
    decreases s.len(),
{
    if s.len() > 0 {
        lemma_split_nonempty(s.drop_last());
    }
}

/// Splitting a text with one more space into lines: one line gets the
/// space, after a blank of its own.
pub proof fn lemma_split_insert(s: Seq<char>, k: int) -> (r: (int, int))
    requires
        after_blank(s, k),
    ensures
        0 <= r.0 < split_lines(s).len(),
        after_blank(split_lines(s)[r.0], r.1),
        split_lines(insert_blank(s, k)) == split_lines(s).update(
            r.0,
            insert_blank(split_lines(s)[r.0], r.1),
        ),
    decreases s.len(),
{
    let t = insert_blank(s, k);
    lemma_char_shift(s, k);
    let d = s.drop_last();
    lemma_split_nonempty(d);
    let p = split_lines(d);
    if k == s.len() {
        assert(t =~= s.push(' '));
        assert(t.drop_last() =~= s);
        assert(t.last() == ' ');
        lemma_split_nonempty(s);
        let q = split_lines(s);
        assert(s.last() == s[k - 1]);
        assert(s.last() != '\n');
        assert(q == p.update(p.len() - 1, p.last().push(s.last())));
        let line = q[q.len() - 1];
        assert(line == p.last().push(s.last()));
        assert(line[line.len() - 1] == s.last());
        assert(insert_blank(line, line.len() as int) =~= line.push(' '));
        (q.len() - 1, line.len() as int)
    } else {
        assert(k <= d.len());
        assert(d[k - 1] == s[k - 1]);
        let (l, m) = lemma_split_insert(d, k);
        let td = insert_blank(d, k);
        assert(t.drop_last() =~= td);
        assert(t.last() == s.last());
        let pd = split_lines(td);
        let c = s.last();
        assert(s.drop_last() == d);
        if c == '\n' {
            assert(split_lines(t) == pd.push(Seq::empty()));
            assert(split_lines(s) == p.push(Seq::empty()));
            assert(split_lines(t) =~= split_lines(s).update(l, insert_blank(split_lines(s)[l], m)));
            (l, m)
        } else {
            assert(split_lines(t) == pd.update(pd.len() - 1, pd.last().push(c)));
            assert(split_lines(s) == p.update(p.len() - 1, p.last().push(c)));
            if l == p.len() - 1 {
                let x = p[l];
                assert(pd.last() == insert_blank(x, m));
                assert(insert_blank(x, m).push(c) =~= insert_blank(x.push(c), m));
                assert(x.push(c)[m - 1] == x[m - 1]);
                assert(split_lines(t) =~= split_lines(s).update(
                    l,
                    insert_blank(split_lines(s)[l], m),
                ));
            } else {
                assert(split_lines(s)[l] == p[l]);
                assert(split_lines(t) =~= split_lines(s).update(
                    l,
                    insert_blank(split_lines(s)[l], m),
                ));
            }
            (l, m)
        }
    }
}

pub proof fn lemma_subckt_scan_insert(lines: Seq<Seq<char>>, l: int, m: int)
    requires
        0 <= l < lines.len(),
        after_blank(lines[l], m),
    ensures
        subckt_scan(lines.update(l, insert_blank(lines[l], m))) == subckt_scan(lines),
    decreases lines.len(),
{
    let u = lines.update(l, insert_blank(lines[l], m));
    if l == lines.len() - 1 {
        assert(u.drop_last() =~= lines.drop_last());
        if let SubcktScan::Reached(st) = subckt_scan(lines.drop_last()) {
            let r = lemma_uncommented_insert(lines[l], m, true);
            if let Some(m2) = r {
                lemma_subckt_step_insert(st, without_comment(lines[l], true), m2);
            }
        }
    } else {
        assert(u.drop_last() =~= lines.drop_last().update(l, insert_blank(lines[l], m)));
        assert(lines.drop_last()[l] == lines[l]);
        lemma_subckt_scan_insert(lines.drop_last(), l, m);
        assert(u.last() == lines.last());
    }
}

pub proof fn lemma_desc_scan_insert(
    defs: Map<Seq<char>, SubcircuitDefinitionView>,
    lines: Seq<Seq<char>>,
    l: int,
    m: int,
    fuel: nat,
)
    requires
        0 <= l < lines.len(),
        after_blank(lines[l], m),
    ensures
        desc_scan(defs, lines.update(l, insert_blank(lines[l], m)), fuel) == desc_scan(
            defs,
            lines,
            fuel,
        ),
    decreases lines.len(),
{
    let u = lines.update(l, insert_blank(lines[l], m));
    if l == lines.len() - 1 {
        assert(u.drop_last() =~= lines.drop_last());
        if let crate::parser::DescScan::Reached(st) = desc_scan(defs, lines.drop_last(), fuel) {
            let r = lemma_uncommented_insert(lines[l], m, true);
            if let Some(m2) = r {
                lemma_desc_step_insert(defs, st, without_comment(lines[l], true), m2, lines.len(), fuel);
            }
        }
    } else {
        assert(u.drop_last() =~= lines.drop_last().update(l, insert_blank(lines[l], m)));
        assert(lines.drop_last()[l] == lines[l]);
        lemma_desc_scan_insert(defs, lines.drop_last(), l, m, fuel);
        assert(u.last() == lines.last());
    }
}

/// The netlist reads the same wherever a space is written right after a
/// blank: any run of spaces and tabs counts as one separator, inside a
/// card, a keyword line, a model card or a subcircuit header alike.
pub proof fn law_netlist_blank_runs(input: Seq<char>, k: int, fuel: nat)
    requires
        after_blank(input, k),
    ensures
        describe(insert_blank(input, k), fuel) == describe(input, fuel),
{
    let (l, m) = lemma_split_insert(input, k);
    let lines = split_lines(input);
    lemma_subckt_scan_insert(lines, l, m);
    assert(subcircuits_of(insert_blank(input, k)) == subcircuits_of(input));
    if let SubcktScan::Reached(sub) = subcircuits_of(input) {
        lemma_desc_scan_insert(sub.defs, lines, l, m, fuel);
    }
}

} // verus!
