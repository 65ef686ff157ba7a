//! Where each element's contribution ("stamp") lands in the system of the
//! modified nodal analysis.
//!
//! A stamp is a list of entries `(row, column, value)`; the right-hand side
//! is the single column 0. An entry is written only where both its row and
//! its column are unknowns of the circuit: ground, and any name that the
//! numbering left out, contributes nothing. The values themselves are the
//! caller's (they are real or complex numbers); this module places them.

use vstd::prelude::*;

use crate::name_map::NameMap;
use crate::parser::voltage_key;
use crate::text::wrapped;

verus! {

/// The position that `key` has among the unknowns, if it is one.
pub open spec fn position(index: Map<Seq<char>, usize>, key: Seq<char>) -> Option<usize> {
    if index.contains_key(key) {
        Some(index[key])
    } else {
        None
    }
}

/// The unknown for the current through the element `identifier`.
pub open spec fn branch_key(identifier: Seq<char>) -> Seq<char> {
    seq!['I', '('] + identifier + seq![')']
}

/// The position of the unknown named `key`.
pub fn position_of(index_map: &NameMap<usize>, key: &str) -> (r: Option<usize>)
    ensures
        r == position(index_map.map(), key@),
{
    match index_map.get(key) {
        Some(i) => Some(*i),
        None => None,
    }
}

/// The positions of a two-terminal element's unknowns: the voltages of its
/// two nodes and the current through it.
#[derive(Clone, Copy, Debug, PartialEq, Eq)]
pub struct Unknowns {
    pub plus: Option<usize>,
    pub minus: Option<usize>,
    pub current: Option<usize>,
}

/// The unknowns of the element `identifier` between the nodes `plus` and
/// `minus`: `V(plus)`, `V(minus)` and `I(identifier)`.
pub fn unknowns(index_map: &NameMap<usize>, plus: &str, minus: &str, identifier: &str) -> (u:
    Unknowns)
    ensures
        u.plus == position(index_map.map(), voltage_key(plus@)),
        u.minus == position(index_map.map(), voltage_key(minus@)),
        u.current == position(index_map.map(), branch_key(identifier@)),
{
    let plus_key = wrapped('V', plus);
    let minus_key = wrapped('V', minus);
    let current_key = wrapped('I', identifier);
    Unknowns {
        plus: position_of(index_map, plus_key.as_str()),
        minus: position_of(index_map, minus_key.as_str()),
        current: position_of(index_map, current_key.as_str()),
    }
}

/// The entry `v` at (`row`, `col`) where both are unknowns; nothing
/// otherwise.
pub open spec fn entry_at<T>(row: Option<usize>, col: Option<usize>, v: T) -> Seq<
    (usize, usize, T),
> {
    match (row, col) {
        (Some(r), Some(c)) => seq![(r, c, v)],
        _ => Seq::empty(),
    }
}

/// Appends the entry `v` at (`row`, `col`) where both are unknowns.
pub fn push_entry<T: Copy>(
    out: &mut Vec<(usize, usize, T)>,
    row: Option<usize>,
    col: Option<usize>,
    v: T,
)
    ensures
        final(out)@ == old(out)@ + entry_at(row, col, v),
{
    match (row, col) {
        (Some(r), Some(c)) => {
            out.push((r, c, v));
        },
        _ => {
            assert(entry_at(row, col, v) =~= Seq::<(usize, usize, T)>::empty());
            assert(old(out)@ + entry_at(row, col, v) =~= old(out)@);
        },
    }
}

/// An admittance `g` between two nodes: `g` on each node's diagonal and
/// `neg_g` (that is, `-g`) in the two cells across.
pub open spec fn admittance_entries<T>(plus: Option<usize>, minus: Option<usize>, g: T, neg_g: T) -> Seq<
    (usize, usize, T),
> {
    entry_at(plus, plus, g) + entry_at(minus, minus, g) + entry_at(plus, minus, neg_g) + entry_at(
        minus,
        plus,
        neg_g,
    )
}

pub fn admittance_stamp<T: Copy>(plus: Option<usize>, minus: Option<usize>, g: T, neg_g: T) -> (r:
    Vec<(usize, usize, T)>)
    ensures
        r@ == admittance_entries(plus, minus, g, neg_g),
{
    let mut r: Vec<(usize, usize, T)> = Vec::new();
    push_entry(&mut r, plus, plus, g);
    push_entry(&mut r, minus, minus, g);
    push_entry(&mut r, plus, minus, neg_g);
    push_entry(&mut r, minus, plus, neg_g);
    assert(r@ =~= admittance_entries(plus, minus, g, neg_g));
    r
}

/// The incidence of a branch current on its two nodes, in both the node
/// rows and the branch row: `one` at the plus node, `neg_one` (that is,
/// `-1`) at the minus node.
pub open spec fn incidence_entries<T>(u: Unknowns, one: T, neg_one: T) -> Seq<(usize, usize, T)> {
    entry_at(u.plus, u.current, one) + entry_at(u.current, u.plus, one) + entry_at(
        u.minus,
        u.current,
        neg_one,
    ) + entry_at(u.current, u.minus, neg_one)
}

pub fn incidence_stamp<T: Copy>(u: Unknowns, one: T, neg_one: T) -> (r: Vec<(usize, usize, T)>)
    ensures
        r@ == incidence_entries(u, one, neg_one),
{
    let mut r: Vec<(usize, usize, T)> = Vec::new();
    push_entry(&mut r, u.plus, u.current, one);
    push_entry(&mut r, u.current, u.plus, one);
    push_entry(&mut r, u.minus, u.current, neg_one);
    push_entry(&mut r, u.current, u.minus, neg_one);
    assert(r@ =~= incidence_entries(u, one, neg_one));
    r
}

/// A current injected into the two nodes: `into_plus` in the plus node's
/// row and `into_minus` in the minus node's row of the right-hand side.
pub open spec fn injection_entries<T>(
    plus: Option<usize>,
    minus: Option<usize>,
    into_plus: T,
    into_minus: T,
) -> Seq<(usize, usize, T)> {
    entry_at(plus, Some(0usize), into_plus) + entry_at(minus, Some(0usize), into_minus)
}

pub fn injection_stamp<T: Copy>(
    plus: Option<usize>,
    minus: Option<usize>,
    into_plus: T,
    into_minus: T,
) -> (r: Vec<(usize, usize, T)>)
    ensures
        r@ == injection_entries(plus, minus, into_plus, into_minus),
{
    let mut r: Vec<(usize, usize, T)> = Vec::new();
    push_entry(&mut r, plus, Some(0), into_plus);
    push_entry(&mut r, minus, Some(0), into_minus);
    assert(r@ =~= injection_entries(plus, minus, into_plus, into_minus));
    r
}

/// The linearised transistor with drain `d`, source `s` and gate `g`:
/// `g_ds` at (d, d); `sum` (`g_ds + g_m`) at (s, s) and (s, d); `neg_sum`
/// at (d, s); `g_m` at (s, g) and (d, g).
pub open spec fn transistor_entries<T>(
    d: Option<usize>,
    s: Option<usize>,
    g: Option<usize>,
    g_ds: T,
    sum: T,
    neg_sum: T,
    g_m: T,
) -> Seq<(usize, usize, T)> {
    entry_at(d, d, g_ds) + entry_at(s, s, sum) + entry_at(d, s, neg_sum) + entry_at(s, d, sum)
        + entry_at(s, g, g_m) + entry_at(d, g, g_m)
}

pub fn transistor_stamp<T: Copy>(
    d: Option<usize>,
    s: Option<usize>,
    g: Option<usize>,
    g_ds: T,
    sum: T,
    neg_sum: T,
    g_m: T,
) -> (r: Vec<(usize, usize, T)>)
    ensures
        r@ == transistor_entries(d, s, g, g_ds, sum, neg_sum, g_m),
{
    let mut r: Vec<(usize, usize, T)> = Vec::new();
    push_entry(&mut r, d, d, g_ds);
    push_entry(&mut r, s, s, sum);
    push_entry(&mut r, d, s, neg_sum);
    push_entry(&mut r, s, d, sum);
    push_entry(&mut r, s, g, g_m);
    push_entry(&mut r, d, g, g_m);
    assert(r@ =~= transistor_entries(d, s, g, g_ds, sum, neg_sum, g_m));
    r
}

/// What an admittance puts in the matrix: between two numbered nodes `p`
/// and `m`, `g` at (p, p) and (m, m) and `neg_g` at (p, m) and (m, p);
/// with one end at ground (unnumbered), only `g` on the other end's
/// diagonal; with both at ground, nothing.
pub proof fn law_admittance<T>(plus: Option<usize>, minus: Option<usize>, g: T, neg_g: T)
    ensures
        (plus, minus) matches (Some(p), Some(m)) ==> admittance_entries(plus, minus, g, neg_g)
            == seq![(p, p, g), (m, m, g), (p, m, neg_g), (m, p, neg_g)],
        (plus, minus) matches (None, Some(m)) ==> admittance_entries(plus, minus, g, neg_g) == seq![
            (m, m, g),
        ],
        (plus, minus) matches (Some(p), None) ==> admittance_entries(plus, minus, g, neg_g) == seq![
            (p, p, g),
        ],
        plus is None && minus is None ==> admittance_entries(plus, minus, g, neg_g).len() == 0,
{
    assert(admittance_entries(plus, minus, g, neg_g) =~= entry_at(plus, plus, g) + entry_at(minus, minus, g)
        + entry_at(plus, minus, neg_g) + entry_at(minus, plus, neg_g));
    if let (Some(p), Some(m)) = (plus, minus) {
        assert(admittance_entries(plus, minus, g, neg_g) =~= seq![(p, p, g), (m, m, g), (p, m, neg_g), (m, p, neg_g)]);
    }
    if let (None, Some(m)) = (plus, minus) {
        assert(admittance_entries(plus, minus, g, neg_g) =~= seq![(m, m, g)]);
    }
    if let (Some(p), None) = (plus, minus) {
        assert(admittance_entries(plus, minus, g, neg_g) =~= seq![(p, p, g)]);
    }
}

/// What a branch current puts in the matrix: with plus node `p`, minus
/// node `m` and current `k` all numbered, `one` at (p, k) and (k, p) and
/// `neg_one` at (m, k) and (k, m); a node at ground drops its two entries.
pub proof fn law_incidence<T>(u: Unknowns, one: T, neg_one: T)
    ensures
        (u.plus, u.minus, u.current) matches (Some(p), Some(m), Some(k)) ==> incidence_entries(
            u,
            one,
            neg_one,
        ) == seq![(p, k, one), (k, p, one), (m, k, neg_one), (k, m, neg_one)],
        (u.plus, u.minus, u.current) matches (None, Some(m), Some(k)) ==> incidence_entries(
            u,
            one,
            neg_one,
        ) == seq![(m, k, neg_one), (k, m, neg_one)],
        (u.plus, u.minus, u.current) matches (Some(p), None, Some(k)) ==> incidence_entries(
            u,
            one,
            neg_one,
        ) == seq![(p, k, one), (k, p, one)],
        u.current is None ==> incidence_entries(u, one, neg_one).len() == 0,
{
    if let (Some(p), Some(m), Some(k)) = (u.plus, u.minus, u.current) {
        assert(incidence_entries(u, one, neg_one) =~= seq![(p, k, one), (k, p, one), (m, k, neg_one), (k, m, neg_one)]);
    }
    if let (None, Some(m), Some(k)) = (u.plus, u.minus, u.current) {
        assert(incidence_entries(u, one, neg_one) =~= seq![(m, k, neg_one), (k, m, neg_one)]);
    }
    if let (Some(p), None, Some(k)) = (u.plus, u.minus, u.current) {
        assert(incidence_entries(u, one, neg_one) =~= seq![(p, k, one), (k, p, one)]);
    }
    if u.current is None {
        assert(incidence_entries(u, one, neg_one) =~= Seq::<(usize, usize, T)>::empty());
    }
}

/// What an injected current puts in the right-hand side: `into_plus` in
/// the plus node's row and `into_minus` in the minus node's row, both in
/// column 0; a node at ground takes nothing.
pub proof fn law_injection<T>(plus: Option<usize>, minus: Option<usize>, into_plus: T, into_minus: T)
    ensures
        (plus, minus) matches (Some(p), Some(m)) ==> injection_entries(plus, minus, into_plus, into_minus)
            == seq![(p, 0usize, into_plus), (m, 0usize, into_minus)],
        (plus, minus) matches (None, Some(m)) ==> injection_entries(plus, minus, into_plus, into_minus)
            == seq![(m, 0usize, into_minus)],
        (plus, minus) matches (Some(p), None) ==> injection_entries(plus, minus, into_plus, into_minus)
            == seq![(p, 0usize, into_plus)],
{
    if let (Some(p), Some(m)) = (plus, minus) {
        assert(injection_entries(plus, minus, into_plus, into_minus) =~= seq![(p, 0usize, into_plus), (m, 0usize, into_minus)]);
    }
    if let (None, Some(m)) = (plus, minus) {
        assert(injection_entries(plus, minus, into_plus, into_minus) =~= seq![(m, 0usize, into_minus)]);
    }
    if let (Some(p), None) = (plus, minus) {
        assert(injection_entries(plus, minus, into_plus, into_minus) =~= seq![(p, 0usize, into_plus)]);
    }
}

/// What a linearised transistor puts in the matrix when its drain `d`,
/// source `s` and gate `g` are all numbered: `g_ds` at (d, d), `sum` at
/// (s, s) and (s, d), `neg_sum` at (d, s), and `g_m` at (s, g) and (d, g).
pub proof fn law_transistor<T>(
    d: Option<usize>,
    s: Option<usize>,
    g: Option<usize>,
    g_ds: T,
    sum: T,
    neg_sum: T,
    g_m: T,
)
    ensures
        (d, s, g) matches (Some(dd), Some(ss), Some(gg)) ==> transistor_entries(
            d,
            s,
            g,
            g_ds,
            sum,
            neg_sum,
            g_m,
        ) == seq![(dd, dd, g_ds), (ss, ss, sum), (dd, ss, neg_sum), (ss, dd, sum), (ss, gg, g_m), (dd, gg, g_m)],
{
    if let (Some(dd), Some(ss), Some(gg)) = (d, s, g) {
        assert(transistor_entries(d, s, g, g_ds, sum, neg_sum, g_m) =~= seq![(dd, dd, g_ds), (ss, ss, sum), (dd, ss, neg_sum), (ss, dd, sum), (ss, gg, g_m), (dd, gg, g_m)]);
    }
}

} // verus!
