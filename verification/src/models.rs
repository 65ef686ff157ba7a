//! Device models given by `.model` cards, and the grammar of parameter
//! lists `( KEY=VALUE ... )`.

use vstd::prelude::*;

use crate::error::Error;
use crate::name_map::{inserted, key_index, keys_of, lemma_key_index_keys, NameMap};
use crate::number::{Number, NumberView};
use crate::syntax::{
    blanks_at, name_at, read_value, remainder, scan_blanks, scan_name, skip_blank_run, skip_blanks,
    value_at, ParseFailure,
};
use crate::text::{
    card_message, matches_no_case, same_no_case, starts_no_case, starts_with_no_case, strip_comment,
    string_from, to_chars, without_comment,
};

pub mod diode;
pub mod nmosfet;
pub mod pmosfet;

use diode::{DiodeModel, DiodeModelView};
use nmosfet::{NMosfetModel, NMosfetModelView};
use pmosfet::{PMosfetModel, PMosfetModelView};

verus! {

// ---------------------------------------------------------------------------
// Parameter lists
// ---------------------------------------------------------------------------

/// `KEY = VALUE` at `s[i..]` (blanks allowed around `=`): the key and the
/// value.
pub open spec fn key_value_at(s: Seq<char>, i: int) -> Option<(int, (Seq<char>, NumberView))> {
    match name_at(s, i) {
        None => None,
        Some(k) => {
            let q = skip_blanks(s, k);
            if q < s.len() && s[q] == '=' {
                match value_at(s, skip_blanks(s, q + 1)) {
                    Some((e, v)) => Some((e, (s.subrange(i, k), v))),
                    None => None,
                }
            } else {
                None
            }
        },
    }
}

/// Zero or more `KEY=VALUE` pairs from `j`, each after optional blanks.
pub open spec fn key_values_from(s: Seq<char>, j: int) -> Option<
    (int, Seq<(Seq<char>, NumberView)>),
>
    decreases s.len() - j,
{
    match key_value_at(s, skip_blanks(s, j)) {
        None => Some((j, Seq::empty())),
        Some((e, kv)) => if e <= j || e > s.len() {
            None
        } else {
            match key_values_from(s, e) {
                Some((e2, kvs)) => Some((e2, seq![kv] + kvs)),
                None => None,
            }
        },
    }
}

/// `( KEY=VALUE ... )` at `s[i..]`, blanks allowed before each part.
pub open spec fn parameters_at(s: Seq<char>, i: int) -> Option<
    (int, Seq<(Seq<char>, NumberView)>),
> {
    let o = skip_blanks(s, i);
    if o < s.len() && s[o] == '(' {
        match key_values_from(s, o + 1) {
            Some((e, kvs)) => {
                let c = skip_blanks(s, e);
                if c < s.len() && s[c] == ')' {
                    Some((c + 1, kvs))
                } else {
                    None
                }
            },
            None => None,
        }
    } else {
        None
    }
}

/// The (key, value) pairs that collecting `kvs` into a map leaves: a later
/// pair with a key already present replaces its value.
pub open spec fn pairs_of<V>(kvs: Seq<(Seq<char>, V)>) -> Seq<(Seq<char>, V)>
    decreases kvs.len(),
{
    if kvs.len() == 0 {
        Seq::empty()
    } else {
        inserted(pairs_of(kvs.drop_last()), kvs.last().0, kvs.last().1)
    }
}

/// The value of the last parameter whose key is `key` up to case, or `d`
/// where no parameter has that key.
pub open spec fn last_value(ps: Seq<(Seq<char>, NumberView)>, key: Seq<char>, d: NumberView) -> NumberView
    decreases ps.len(),
{
    if ps.len() == 0 {
        d
    } else if same_no_case(ps.last().0, key) {
        ps.last().1
    } else {
        last_value(ps.drop_last(), key, d)
    }
}

/// The pairs of a map of numbers, with the numbers by their views.
pub open spec fn number_pairs(m: NameMap<Number>) -> Seq<(Seq<char>, NumberView)> {
    m.pairs().map_values(|e: (Seq<char>, Number)| (e.0, e.1@))
}

proof fn lemma_number_pairs_insert(
    p: Seq<(Seq<char>, Number)>,
    q: Seq<(Seq<char>, Number)>,
    k: Seq<char>,
    v: Number,
)
    requires
        q == inserted(p, k, v),
    ensures
        q.map_values(|e: (Seq<char>, Number)| (e.0, e.1@)) == inserted(
            p.map_values(|e: (Seq<char>, Number)| (e.0, e.1@)),
            k,
            v@,
        ),
{
    let pv = p.map_values(|e: (Seq<char>, Number)| (e.0, e.1@));
    assert(keys_of(p) =~= keys_of(pv));
    lemma_key_index_keys(p, pv, k);
    let qv = q.map_values(|e: (Seq<char>, Number)| (e.0, e.1@));
    crate::name_map::lemma_key_index(p, k);
    match key_index(p, k) {
        Some(i) => {
            assert(qv =~= pv.update(i, (k, v@)));
        },
        None => {
            assert(qv =~= pv.push((k, v@)));
        },
    }
}

pub(crate) fn read_key_value(s: &[char], i: usize) -> (r: Option<(usize, String, Number)>)
    requires
        i <= s@.len(),
    ensures
        match r {
            Some((e, k, v)) => key_value_at(s@, i as int) == Some((e as int, (k@, v@))) && i < e
                <= s@.len(),
            None => key_value_at(s@, i as int) is None,
        },
{
    let k = match scan_name(s, i) {
        Some(k) => k,
        None => return None,
    };
    let q = skip_blank_run(s, k);
    if q < s.len() && s[q] == '=' {
        match read_value(s, skip_blank_run(s, q + 1)) {
            Some((e, v)) => Some((e, string_from(s, i, k), v)),
            None => None,
        }
    } else {
        None
    }
}

/// Reads `KEY = VALUE` at the start of `input` (see `key_value_at`);
/// returns the rest of the input, the key and the value.
pub fn parse_key_value(input: &str) -> (r: Result<(&str, (String, Number)), ParseFailure>)
    ensures
        match r {
            Ok((rest, (k, v))) => key_value_at(input@, 0) == Some(
                (input@.len() - rest@.len(), (k@, v@)),
            ) && rest@ == input@.skip(input@.len() - rest@.len()),
            Err(f) => key_value_at(input@, 0) is None && f == ParseFailure::Error,
        },
{
    let s = to_chars(input);
    match read_key_value(s.as_slice(), 0) {
        Some((e, k, v)) => Ok((remainder(input, e), (k, v))),
        None => Err(ParseFailure::Error),
    }
}

/// Reads `( KEY=VALUE ... )` at `s[i..]` into a map.
pub fn read_parameters(s: &[char], i: usize) -> (r: Option<(usize, NameMap<Number>)>)
    requires
        i <= s@.len(),
    ensures
        match r {
            Some((e, m)) => parameters_at(s@, i as int) matches Some((e2, kvs)) && e2 == e
                && number_pairs(m) == pairs_of(kvs) && i < e <= s@.len(),
            None => parameters_at(s@, i as int) is None,
        },
{
    let o = skip_blank_run(s, i);
    if !(o < s.len() && s[o] == '(') {
        return None;
    }
    let mut m: NameMap<Number> = NameMap::new();
    let ghost mut done: Seq<(Seq<char>, NumberView)> = Seq::empty();
    let mut j = o + 1;
    assert(number_pairs(m) =~= pairs_of(done));
    loop
        invariant
            o + 1 <= j <= s@.len(),
            number_pairs(m) == pairs_of(done),
            key_values_from(s@, o + 1) == (match key_values_from(s@, j as int) {
                Some((e, rest)) => Some((e, done + rest)),
                None => None,
            }),
        ensures
            o + 1 <= j <= s@.len(),
            number_pairs(m) == pairs_of(done),
            key_values_from(s@, o + 1) == Some((j as int, done)),
        decreases s@.len() - j,
    {
        let b = skip_blank_run(s, j);
        match read_key_value(s, b) {
            None => {
                assert(done + Seq::<(Seq<char>, NumberView)>::empty() == done);
                break ;
            },
            Some((e, k, v)) => {
                let ghost kv = (k@, v@);
                let ghost before = m.pairs();
                m.insert(k, v);
                proof {
                    lemma_number_pairs_insert(before, m.pairs(), kv.0, v);
                    assert(done.push(kv).drop_last() == done);
                    match key_values_from(s@, e as int) {
                        Some((e2, rest)) => {
                            assert(done + (seq![kv] + rest) == done.push(kv) + rest);
                        },
                        None => {},
                    }
                    done = done.push(kv);
                }
                j = e;
            },
        }
    }
    let c = skip_blank_run(s, j);
    if c < s.len() && s[c] == ')' {
        Some((c + 1, m))
    } else {
        None
    }
}

// ---------------------------------------------------------------------------
// Models
// ---------------------------------------------------------------------------

/// A device model defined by a `.model` card.
#[derive(Debug, Clone)]
pub enum Model {
    Diode(DiodeModel),
    NMosfet(NMosfetModel),
    PMosfet(PMosfetModel),
}

pub enum ModelView {
    Diode(DiodeModelView),
    NMosfet(NMosfetModelView),
    PMosfet(PMosfetModelView),
}

impl View for Model {
    type V = ModelView;

    open spec fn view(&self) -> ModelView {
        match self {
            Model::Diode(m) => ModelView::Diode(m@),
            Model::NMosfet(m) => ModelView::NMosfet(m@),
            Model::PMosfet(m) => ModelView::PMosfet(m@),
        }
    }
}

pub open spec fn model_name(m: ModelView) -> Seq<char> {
    match m {
        ModelView::Diode(d) => d.name,
        ModelView::NMosfet(d) => d.name,
        ModelView::PMosfet(d) => d.name,
    }
}

impl Model {
    /// The name that the `.model` card gave.
    pub fn name(&self) -> (r: &str)
        ensures
            r@ == model_name(self@),
    {
        match self {
            Model::Diode(m) => m.name.as_str(),
            Model::NMosfet(m) => m.name.as_str(),
            Model::PMosfet(m) => m.name.as_str(),
        }
    }

    /// A copy of this model.
    pub fn duplicate(&self) -> (r: Model)
        ensures
            r@ == self@,
    {
        match self {
            Model::Diode(m) => Model::Diode(m.duplicate()),
            Model::NMosfet(m) => Model::NMosfet(m.duplicate()),
            Model::PMosfet(m) => Model::PMosfet(m.duplicate()),
        }
    }
}

/// Models that take their parameters from a `.model` card.
pub trait ModelTrait {
    /// Sets the fields that the named parameters stand for, in the order of
    /// the map; parameters that the model does not have are ignored.
    fn apply_model_parameters(&mut self, parameters: &NameMap<Number>);
}

pub open spec fn dot_model() -> Seq<char> {
    seq!['.', 'm', 'o', 'd', 'e', 'l']
}

/// The kind of model and its parameters, after the model's name.
pub open spec fn model_body_at(s: Seq<char>, t: int, name: Seq<char>) -> Option<(int, ModelView)> {
    if starts_no_case(s, t, seq!['N', 'M', 'O', 'S']) {
        match parameters_at(s, t + 4) {
            Some((e, kvs)) => Some(
                (
                    e,
                    ModelView::NMosfet(
                        nmosfet::apply_nmosfet_parameters(
                            nmosfet::named_nmosfet_model(name),
                            pairs_of(kvs),
                        ),
                    ),
                ),
            ),
            None => None,
        }
    } else if starts_no_case(s, t, seq!['P', 'M', 'O', 'S']) {
        match parameters_at(s, t + 4) {
            Some((e, kvs)) => Some(
                (
                    e,
                    ModelView::PMosfet(
                        pmosfet::apply_pmosfet_parameters(
                            pmosfet::named_pmosfet_model(name),
                            pairs_of(kvs),
                        ),
                    ),
                ),
            ),
            None => None,
        }
    } else if starts_no_case(s, t, seq!['D']) {
        match parameters_at(s, t + 1) {
            Some((e, kvs)) => Some(
                (
                    e,
                    ModelView::Diode(
                        diode::apply_diode_parameters(diode::named_diode_model(name), pairs_of(kvs)),
                    ),
                ),
            ),
            None => None,
        }
    } else {
        None
    }
}

/// The card `.model <name> <kind>(<parameters>)` at `s[i..]`, where the kind
/// is `NMOS`, `PMOS` or `D`; the keyword and the kind read in any case.
pub open spec fn model_variant_at(s: Seq<char>, i: int) -> Option<(int, ModelView)> {
    if !starts_no_case(s, i, dot_model()) {
        None
    } else {
        match blanks_at(s, i + 6) {
            None => None,
            Some(b) => match name_at(s, b) {
                None => None,
                Some(n) => match blanks_at(s, n) {
                    None => None,
                    Some(t) => model_body_at(s, t, s.subrange(b, n)),
                },
            },
        }
    }
}

/// The model that a line defines: the text before `%`, trimmed, must start
/// with a model card (anything may follow it).
pub open spec fn model_line(s: Seq<char>) -> Option<ModelView> {
    match model_variant_at(without_comment(s, false), 0) {
        Some((_, m)) => Some(m),
        None => None,
    }
}

fn read_model_body(s: &[char], t: usize, name: String) -> (r: Option<(usize, Model)>)
    requires
        t <= s@.len(),
    ensures
        match r {
            Some((e, m)) => model_body_at(s@, t as int, name@) == Some((e as int, m@)) && t < e
                <= s@.len(),
            None => model_body_at(s@, t as int, name@) is None,
        },
{
    let nmos: [char; 4] = ['N', 'M', 'O', 'S'];
    let pmos: [char; 4] = ['P', 'M', 'O', 'S'];
    let d: [char; 1] = ['D'];
    assert(nmos@ == seq!['N', 'M', 'O', 'S']);
    assert(pmos@ == seq!['P', 'M', 'O', 'S']);
    assert(d@ == seq!['D']);
    if starts_with_no_case(s, t, &nmos) {
        match read_parameters(s, t + 4) {
            Some((e, params)) => {
                let mut m = NMosfetModel::named(name);
                m.apply_model_parameters(&params);
                Some((e, Model::NMosfet(m)))
            },
            None => None,
        }
    } else if starts_with_no_case(s, t, &pmos) {
        match read_parameters(s, t + 4) {
            Some((e, params)) => {
                let mut m = PMosfetModel::named(name);
                m.apply_model_parameters(&params);
                Some((e, Model::PMosfet(m)))
            },
            None => None,
        }
    } else if starts_with_no_case(s, t, &d) {
        match read_parameters(s, t + 1) {
            Some((e, params)) => {
                let mut m = DiodeModel::named(name);
                m.apply_model_parameters(&params);
                Some((e, Model::Diode(m)))
            },
            None => None,
        }
    } else {
        None
    }
}

fn read_model_variant(s: &[char], i: usize) -> (r: Option<(usize, Model)>)
    requires
        i <= s@.len(),
    ensures
        match r {
            Some((e, m)) => model_variant_at(s@, i as int) == Some((e as int, m@)) && i < e
                <= s@.len(),
            None => model_variant_at(s@, i as int) is None,
        },
{
    let key: [char; 6] = ['.', 'm', 'o', 'd', 'e', 'l'];
    assert(key@ == dot_model());
    if !starts_with_no_case(s, i, &key) {
        return None;
    }
    let b = match scan_blanks(s, i + 6) {
        Some(b) => b,
        None => return None,
    };
    let n = match scan_name(s, b) {
        Some(n) => n,
        None => return None,
    };
    let t = match scan_blanks(s, n) {
        Some(t) => t,
        None => return None,
    };
    read_model_body(s, t, string_from(s, b, n))
}

/// Reads a `.model` card at the start of `input`; returns the rest of the
/// input and the model.
pub fn parse_model_variant(input: &str) -> (r: Result<(&str, Model), ParseFailure>)
    ensures
        match r {
            Ok((rest, m)) => model_variant_at(input@, 0) == Some((input@.len() - rest@.len(), m@))
                && rest@ == input@.skip(input@.len() - rest@.len()),
            Err(f) => model_variant_at(input@, 0) is None && f == ParseFailure::Error,
        },
{
    let s = to_chars(input);
    match read_model_variant(s.as_slice(), 0) {
        Some((e, m)) => Ok((remainder(input, e), m)),
        None => Err(ParseFailure::Error),
    }
}

/// Reads the model that a `.model` line defines; the text after a `%` is a
/// comment.
pub fn parse_model(input: &str) -> (r: Result<Model, Error>)
    ensures
        match r {
            Ok(m) => model_line(input@) == Some(m@),
            Err(e) => model_line(input@) is None && e is InvalidFormat,
        },
{
    let all = to_chars(input);
    let c = strip_comment(all.as_slice(), false);
    match read_model_variant(c.as_slice(), 0) {
        Some((_, m)) => Ok(m),
        None => Err(Error::InvalidFormat(card_message("Parsing Error: '", c.as_slice(), "'"))),
    }
}

/// A model's view is of its own kind and carries its name.
pub proof fn law_model_view(m: Model)
    ensures
        (m is Diode) == (m@ is Diode),
        (m is NMosfet) == (m@ is NMosfet),
        (m is PMosfet) == (m@ is PMosfet),
        m matches Model::Diode(d) ==> model_name(m@) == d.name@,
        m matches Model::NMosfet(d) ==> model_name(m@) == d.name@,
        m matches Model::PMosfet(d) ==> model_name(m@) == d.name@,
{
}

/// The kind of a `.model` card picks the model: `NMOS` an N-channel MOSFET
/// model, `PMOS` a P-channel one and `D` a diode model, each under the
/// card's name, starting from that kind's defaults with the card's
/// parameters applied.
pub proof fn law_model_kinds(s: Seq<char>, t: int, name: Seq<char>)
    ensures
        model_body_at(s, t, name) matches Some((_, m)) ==> model_name(m) == name,
        model_body_at(s, t, name) matches Some((_, m)) ==> ((m is NMosfet) == starts_no_case(
            s,
            t,
            seq!['N', 'M', 'O', 'S'],
        ) && (m is PMosfet) == starts_no_case(s, t, seq!['P', 'M', 'O', 'S']) && (m is Diode)
            == starts_no_case(s, t, seq!['D'])),
        model_body_at(s, t, name) matches Some((_, ModelView::NMosfet(x))) ==> (exists|kvs: Seq<
            (Seq<char>, NumberView),
        >| x == nmosfet::apply_nmosfet_parameters(nmosfet::named_nmosfet_model(name), kvs)),
        model_body_at(s, t, name) matches Some((_, ModelView::PMosfet(x))) ==> (exists|kvs: Seq<
            (Seq<char>, NumberView),
        >| x == pmosfet::apply_pmosfet_parameters(pmosfet::named_pmosfet_model(name), kvs)),
        model_body_at(s, t, name) matches Some((_, ModelView::Diode(x))) ==> (exists|kvs: Seq<
            (Seq<char>, NumberView),
        >| x == diode::apply_diode_parameters(diode::named_diode_model(name), kvs)),
{
    if starts_no_case(s, t, seq!['N', 'M', 'O', 'S']) {
        assert(matches_no_case(s[t + 0], seq!['N', 'M', 'O', 'S'][0]));
        if starts_no_case(s, t, seq!['P', 'M', 'O', 'S']) {
            assert(matches_no_case(s[t + 0], seq!['P', 'M', 'O', 'S'][0]));
        }
        if starts_no_case(s, t, seq!['D']) {
            assert(matches_no_case(s[t + 0], seq!['D'][0]));
        }
    }
    if starts_no_case(s, t, seq!['P', 'M', 'O', 'S']) {
        assert(matches_no_case(s[t + 0], seq!['P', 'M', 'O', 'S'][0]));
        if starts_no_case(s, t, seq!['D']) {
            assert(matches_no_case(s[t + 0], seq!['D'][0]));
        }
    }
    if let Some((e, m)) = model_body_at(s, t, name) {
        let n = if starts_no_case(s, t, seq!['D']) && !starts_no_case(s, t, seq!['N', 'M', 'O', 'S'])
            && !starts_no_case(s, t, seq!['P', 'M', 'O', 'S']) {
            1int
        } else {
            4int
        };
        let kvs = parameters_at(s, t + n)->Some_0.1;
        let ps = pairs_of(kvs);
        assert(m == ModelView::NMosfet(nmosfet::apply_nmosfet_parameters(nmosfet::named_nmosfet_model(name), ps))
            || m == ModelView::PMosfet(pmosfet::apply_pmosfet_parameters(pmosfet::named_pmosfet_model(name), ps))
            || m == ModelView::Diode(diode::apply_diode_parameters(diode::named_diode_model(name), ps)));
        nmosfet::law_nmosfet_parameters(nmosfet::named_nmosfet_model(name), ps);
        pmosfet::law_pmosfet_parameters(pmosfet::named_pmosfet_model(name), ps);
        diode::law_diode_parameters(diode::named_diode_model(name), ps);
    }
}

} // verus!
