//! The letter that starts a card may be written in either case: two cards
//! that differ only in the case of that letter are the same element (or the
//! same failure).

use vstd::prelude::*;

use crate::blank_kinds::{
    blank_eq, lemma_blanks_same, lemma_double_same, lemma_group2_same, lemma_key_values_same,
    lemma_keyword_no_blank, lemma_name_same, lemma_params_same, lemma_run_same,
    lemma_spaced_name_same, lemma_spaced_names_same, lemma_spaced_value_same, lemma_stretch_same,
    same_from,
};
use crate::elements::bjt::{bjt_at, bjt_type_of};
use crate::elements::capacitor::capacitor_at;
use crate::elements::current_source::current_source_at;
use crate::elements::diode::diode_at;
use crate::elements::inductor::inductor_at;
use crate::elements::nmosfet::nmosfet_at;
use crate::elements::resistor::resistor_at;
use crate::elements::subcircuit::subckt_instance_at;
use crate::elements::voltage_source::{implicit_dc_at, voltage_source_at};
use crate::elements::{element_at, spaced_key_values, two_terminal_at};
use crate::spacing::{blank_free, lemma_letters_blank_free};
use crate::syntax::{blanks_at, name_at, spaced_name};
use crate::text::{
    in_class, is_blank, is_letter, lemma_run_end, lower, matches_no_case, run1, starts_no_case,
    CharClass,
};

verus! {

/// Two texts of one length that differ at most in the case of the letter
/// they start with.
pub open spec fn case_alike(s: Seq<char>, u: Seq<char>) -> bool {
    &&& s.len() == u.len()
    &&& s.len() > 0
    &&& is_letter(s[0])
    &&& is_letter(u[0])
    &&& lower(s[0]) == lower(u[0])
    &&& forall|i: int| 1 <= i < s.len() ==> #[trigger] s[i] == u[i]
}

proof fn lemma_case_from(s: Seq<char>, u: Seq<char>)
    requires
        case_alike(s, u),
    ensures
        same_from(s, u, 1),
{
    assert forall|i: int| 1 <= i < s.len() implies #[trigger] blank_eq(s[i], u[i]) by {
        assert(s[i] == u[i]);
    }
}

proof fn lemma_first_v(a: char, b: char)
    requires
        is_letter(a),
        is_letter(b),
        lower(a) == lower(b),
    ensures
        (a == 'V' || a == 'v') == (b == 'V' || b == 'v'),
{
}

proof fn lemma_keyword_case(s: Seq<char>, u: Seq<char>, w: Seq<char>)
    requires
        case_alike(s, u),
    ensures
        starts_no_case(u, 0, w) == starts_no_case(s, 0, w),
{
    if w.len() <= s.len() {
        assert forall|m: int| 0 <= m < w.len() implies #[trigger] matches_no_case(u[0 + m], w[m])
            == matches_no_case(s[0 + m], w[m]) by {
            if m > 0 {
                assert(s[m] == u[m]);
            }
        }
        if starts_no_case(s, 0, w) {
            assert forall|m: int| 0 <= m < w.len() implies #[trigger] matches_no_case(
                u[0 + m],
                w[m],
            ) by {
                assert(matches_no_case(s[0 + m], w[m]));
            }
        }
        if starts_no_case(u, 0, w) {
            assert forall|m: int| 0 <= m < w.len() implies #[trigger] matches_no_case(
                s[0 + m],
                w[m],
            ) by {
                assert(matches_no_case(u[0 + m], w[m]));
            }
        }
    }
}

pub proof fn lemma_two_terminal_case(s: Seq<char>, u: Seq<char>, letter: char)
    requires
        case_alike(s, u),
        !is_blank(letter),
    ensures
        two_terminal_at(u, 0, letter) == two_terminal_at(s, 0, letter),
        two_terminal_at(s, 0, letter) matches Some((e, _)) ==> 0 < e <= s.len(),
{
    lemma_case_from(s, u);
    let w = seq![letter];
    assert(blank_free(w)) by {
        assert forall|m: int| 0 <= m < w.len() implies !is_blank(#[trigger] w[m]) by {
        }
    }
    lemma_keyword_case(s, u, w);
    if starts_no_case(s, 0, w) {
        lemma_name_same(s, u, 1, 1);
        if let Some(n) = name_at(s, 1) {
            lemma_stretch_same(s, u, 1, 1, n);
            lemma_spaced_name_same(s, u, 1, n);
            if let Some((pb, pe)) = spaced_name(s, n) {
                lemma_stretch_same(s, u, 1, pb, pe);
                lemma_spaced_name_same(s, u, 1, pe);
                if let Some((mb, me)) = spaced_name(s, pe) {
                    lemma_stretch_same(s, u, 1, mb, me);
                    lemma_spaced_value_same(s, u, 1, me);
                }
            }
        }
    }
}

pub proof fn lemma_resistor_case(s: Seq<char>, u: Seq<char>)
    requires
        case_alike(s, u),
    ensures
        resistor_at(u, 0) == resistor_at(s, 0),
{
    lemma_case_from(s, u);
    lemma_two_terminal_case(s, u, 'R');
}

pub proof fn lemma_capacitor_case(s: Seq<char>, u: Seq<char>)
    requires
        case_alike(s, u),
    ensures
        capacitor_at(u, 0) == capacitor_at(s, 0),
{
    lemma_case_from(s, u);
    lemma_two_terminal_case(s, u, 'C');
    if let Some((e, _)) = two_terminal_at(s, 0, 'C') {
        lemma_group2_same(s, u, 1, e);
    }
}

pub proof fn lemma_inductor_case(s: Seq<char>, u: Seq<char>)
    requires
        case_alike(s, u),
    ensures
        inductor_at(u, 0) == inductor_at(s, 0),
{
    lemma_case_from(s, u);
    lemma_two_terminal_case(s, u, 'L');
}

pub proof fn lemma_current_source_case(s: Seq<char>, u: Seq<char>)
    requires
        case_alike(s, u),
    ensures
        current_source_at(u, 0) == current_source_at(s, 0),
{
    lemma_case_from(s, u);
    lemma_two_terminal_case(s, u, 'I');
}

pub proof fn lemma_voltage_source_case(s: Seq<char>, u: Seq<char>)
    requires
        case_alike(s, u),
    ensures
        voltage_source_at(u, 0) == voltage_source_at(s, 0),
{
    lemma_case_from(s, u);
    lemma_first_v(s[0], u[0]);
    if 0 < s.len() && (s[0] == 'V' || s[0] == 'v') {
        lemma_name_same(s, u, 1, 1);
        if let Some(n) = name_at(s, 1) {
            lemma_stretch_same(s, u, 1, 1, n);
            lemma_spaced_name_same(s, u, 1, n);
            if let Some((pb, pe)) = spaced_name(s, n) {
                lemma_stretch_same(s, u, 1, pb, pe);
                lemma_spaced_name_same(s, u, 1, pe);
                if let Some((mb, me)) = spaced_name(s, pe) {
                    lemma_stretch_same(s, u, 1, mb, me);
                    lemma_blanks_same(s, u, 1, me);
                    if let Some(b) = blanks_at(s, me) {
                        lemma_double_same(s, u, 1, b);
                    }
                    if let Ok((d, implicit)) = implicit_dc_at(s, me) {
                        lemma_params_same(s, u, 1, d);
                    }
                }
            }
        }
    }
}

pub proof fn lemma_diode_case(s: Seq<char>, u: Seq<char>)
    requires
        case_alike(s, u),
    ensures
        diode_at(u, 0) == diode_at(s, 0),
{
    lemma_case_from(s, u);
    lemma_letters_blank_free();
    lemma_keyword_case(s, u, seq!['d']);
    if starts_no_case(s, 0, seq!['d']) {
        lemma_name_same(s, u, 1, 1);
        if let Some(n) = name_at(s, 1) {
            lemma_stretch_same(s, u, 1, 1, n);
            lemma_spaced_name_same(s, u, 1, n);
            if let Some((pb, pe)) = spaced_name(s, n) {
                lemma_stretch_same(s, u, 1, pb, pe);
                lemma_spaced_name_same(s, u, 1, pe);
                if let Some((mb, me)) = spaced_name(s, pe) {
                    lemma_stretch_same(s, u, 1, mb, me);
                    lemma_spaced_name_same(s, u, 1, me);
                    if let Some((b2, e2)) = spaced_name(s, me) {
                        lemma_stretch_same(s, u, 1, b2, e2);
                    }
                }
            }
        }
    }
}

pub proof fn lemma_bjt_case(s: Seq<char>, u: Seq<char>)
    requires
        case_alike(s, u),
    ensures
        bjt_at(u, 0) == bjt_at(s, 0),
{
    lemma_case_from(s, u);
    lemma_letters_blank_free();
    lemma_keyword_case(s, u, seq!['q']);
    if starts_no_case(s, 0, seq!['q']) && 1 < s.len() {
        lemma_keyword_no_blank(s, 0, seq!['q']);
        assert(blank_eq(s[1], u[1]));
        if let Some(ty) = bjt_type_of(s[1]) {
            assert(u[1] == s[1]);
            lemma_run_same(s, u, 1, 2, CharClass::Alnum);
            lemma_run_end(s, 2, CharClass::Alnum);
            if let Some(n) = run1(s, 2, CharClass::Alnum) {
                assert forall|p: int| 2 <= p < n implies !is_blank(#[trigger] s[p]) by {
                    assert(in_class(CharClass::Alnum, s[p]));
                }
                lemma_stretch_same(s, u, 1, 2, n);
                lemma_spaced_name_same(s, u, 1, n);
                if let Some((cb, ce)) = spaced_name(s, n) {
                    lemma_stretch_same(s, u, 1, cb, ce);
                    lemma_spaced_name_same(s, u, 1, ce);
                    if let Some((bb, be)) = spaced_name(s, ce) {
                        lemma_stretch_same(s, u, 1, bb, be);
                        lemma_spaced_name_same(s, u, 1, be);
                        if let Some((eb, ee)) = spaced_name(s, be) {
                            lemma_stretch_same(s, u, 1, eb, ee);
                            lemma_spaced_value_same(s, u, 1, ee);
                        }
                    }
                }
            }
        } else {
            assert(bjt_type_of(u[1]) is None);
        }
    }
}

pub proof fn lemma_nmosfet_case(s: Seq<char>, u: Seq<char>)
    requires
        case_alike(s, u),
    ensures
        nmosfet_at(u, 0) == nmosfet_at(s, 0),
{
    lemma_case_from(s, u);
    lemma_letters_blank_free();
    lemma_keyword_case(s, u, seq!['m', 'n']);
    if starts_no_case(s, 0, seq!['m', 'n']) {
        lemma_name_same(s, u, 1, 2);
        if let Some(n) = name_at(s, 2) {
            lemma_stretch_same(s, u, 1, 2, n);
            lemma_spaced_name_same(s, u, 1, n);
            if let Some((db, de)) = spaced_name(s, n) {
                lemma_stretch_same(s, u, 1, db, de);
                lemma_spaced_name_same(s, u, 1, de);
                if let Some((gb, ge)) = spaced_name(s, de) {
                    lemma_stretch_same(s, u, 1, gb, ge);
                    lemma_spaced_name_same(s, u, 1, ge);
                    if let Some((sb, se)) = spaced_name(s, ge) {
                        lemma_stretch_same(s, u, 1, sb, se);
                        lemma_spaced_name_same(s, u, 1, se);
                        if let Some((bb, be)) = spaced_name(s, se) {
                            lemma_stretch_same(s, u, 1, bb, be);
                            lemma_spaced_name_same(s, u, 1, be);
                            if let Some((mb, me)) = spaced_name(s, be) {
                                lemma_stretch_same(s, u, 1, mb, me);
                                lemma_key_values_same(s, u, 1, me);
                                lemma_blanks_same(s, u, 1, spaced_key_values(s, me).0);
                            }
                        }
                    }
                }
            }
        }
    }
}

pub proof fn lemma_instance_case(s: Seq<char>, u: Seq<char>)
    requires
        case_alike(s, u),
    ensures
        subckt_instance_at(u, 0) == subckt_instance_at(s, 0),
{
    lemma_case_from(s, u);
    lemma_letters_blank_free();
    lemma_keyword_case(s, u, seq!['x']);
    if starts_no_case(s, 0, seq!['x']) {
        lemma_name_same(s, u, 1, 1);
        if let Some(n) = name_at(s, 1) {
            lemma_stretch_same(s, u, 1, 1, n);
            lemma_spaced_names_same(s, u, 1, n);
        }
    }
}


/// The letter that starts a card may be written in either case: writing
/// it in the other case leaves the card the same element (or the same
/// failure), ending at the same place.
pub proof fn law_letter_case(s: Seq<char>, c: char, d: char)
    requires
        s.len() > 0,
        is_letter(c),
        is_letter(d),
        lower(c) == lower(d),
    ensures
        element_at(s.update(0, d)) == element_at(s.update(0, c)),
{
    let a = s.update(0, c);
    let b = s.update(0, d);
    assert(case_alike(a, b));
    lemma_resistor_case(a, b);
    lemma_capacitor_case(a, b);
    lemma_inductor_case(a, b);
    lemma_voltage_source_case(a, b);
    lemma_current_source_case(a, b);
    lemma_diode_case(a, b);
    lemma_bjt_case(a, b);
    lemma_nmosfet_case(a, b);
    lemma_instance_case(a, b);
}

} // verus!
