//! The order of the lines of a netlist: where every line is blank, an
//! element card, a `.model` card or `.end` (no definitions and no blocks),
//! and no two `.model` cards give one name two models, the lines may come
//! in any order; only the numbering of the unknowns follows it.

use vstd::multiset::Multiset;
use vstd::prelude::*;

use crate::circuit::CircuitView;
use crate::elements::subcircuit::{
    ends_keyword, expand, is_blank_line, subckt_keyword, subckt_scan, subcircuits_of,
    SubcircuitDefinitionView, SubcktScan, SubcktState,
};
use crate::elements::{element_is_g2, element_line, element_nodes, ElementView};
use crate::models::{model_line, model_name, ModelView};
use crate::parser::{
    g2_count, ground, index_elements, lemma_counter_of, control_keyword, current_of, desc_scan, desc_step, describe, end_keyword, endc_keyword,
    law_numbering, law_numbering_exact, model_keyword, models_complete, node_of, voltage_of,
    with_model, with_models, DescScan, DescState, Description,
};
use crate::text::{lower, matches_no_case, same_no_case, split_lines, starts_no_case, without_comment};

verus! {

/// Whether line `l`, without its comment and trimmed, starts with a `.`.
pub open spec fn dot_line(l: Seq<char>) -> bool {
    let u = without_comment(l, true);
    u.len() > 0 && u[0] == '.'
}

/// Whether line `l` reads the same wherever it stands: it does not start
/// with a `.`, or it is a `.model` card or `.end`.
pub open spec fn movable_line(l: Seq<char>) -> bool {
    let u = without_comment(l, true);
    ||| !dot_line(l)
    ||| starts_no_case(u, 0, model_keyword())
    ||| same_no_case(u, end_keyword())
}

/// The element card of a line, if it is one.
pub open spec fn card_of_line(l: Seq<char>) -> Option<ElementView> {
    let u = without_comment(l, true);
    if is_blank_line(u) || dot_line(l) {
        None
    } else {
        element_line(u)
    }
}

/// The model of a `.model` line, if it reads as one.
pub open spec fn model_of_line(l: Seq<char>) -> Option<ModelView> {
    let u = without_comment(l, true);
    if !is_blank_line(u) && starts_no_case(u, 0, model_keyword()) {
        model_line(u)
    } else {
        None
    }
}

/// Whether a line is accepted: blank, `.end`, a `.model` card that reads,
/// or an element card other than a subcircuit instance.
pub open spec fn line_ok(l: Seq<char>) -> bool {
    let u = without_comment(l, true);
    if is_blank_line(u) || same_no_case(u, end_keyword()) {
        true
    } else if starts_no_case(u, 0, model_keyword()) {
        model_line(u) is Some
    } else {
        card_of_line(l) matches Some(e) && !(e is SubcktInstance)
    }
}

/// The element cards of the lines, in order.
pub open spec fn cards_of(lines: Seq<Seq<char>>) -> Seq<ElementView>
    decreases lines.len(),
{
    if lines.len() == 0 {
        Seq::empty()
    } else {
        match card_of_line(lines.last()) {
            Some(e) => cards_of(lines.drop_last()).push(e),
            None => cards_of(lines.drop_last()),
        }
    }
}

/// The models of the `.model` lines, a later one replacing an earlier one
/// of the same name.
pub open spec fn models_of(lines: Seq<Seq<char>>) -> Map<Seq<char>, ModelView>
    decreases lines.len(),
{
    if lines.len() == 0 {
        Map::empty()
    } else {
        match model_of_line(lines.last()) {
            Some(m) => models_of(lines.drop_last()).insert(model_name(m), m),
            None => models_of(lines.drop_last()),
        }
    }
}

/// No two `.model` lines give one name two different models.
pub open spec fn models_agree(lines: Seq<Seq<char>>) -> bool {
    forall|i: int, j: int|
        0 <= i < lines.len() && 0 <= j < lines.len() ==> match (
            #[trigger] model_of_line(lines[i]),
            #[trigger] model_of_line(lines[j]),
        ) {
            (Some(m1), Some(m2)) => model_name(m1) == model_name(m2) ==> m1 == m2,
            _ => true,
        }
}

/// A text that starts with `w` (which starts with a `.`) starts with a `.`.
proof fn lemma_dot_key(u: Seq<char>, w: Seq<char>)
    requires
        w.len() > 0,
        w[0] == '.',
        starts_no_case(u, 0, w),
    ensures
        u.len() > 0 && u[0] == '.',
{
    assert(matches_no_case(u[0int + 0int], w[0]));
    assert(lower('.') == '.');
}

/// What a movable line is not: a `.control`, `.endc`, `.subckt` or `.ends`
/// line; and a `.model` line is not `.end`.
proof fn lemma_movable_keys(u: Seq<char>)
    requires
        !(u.len() > 0 && u[0] == '.') || starts_no_case(u, 0, model_keyword()) || same_no_case(
            u,
            end_keyword(),
        ),
    ensures
        !starts_no_case(u, 0, control_keyword()),
        !starts_no_case(u, 0, endc_keyword()),
        !starts_no_case(u, 0, subckt_keyword()),
        !starts_no_case(u, 0, ends_keyword()),
        starts_no_case(u, 0, model_keyword()) ==> !same_no_case(u, end_keyword()),
        !(u.len() > 0 && u[0] == '.') ==> !starts_no_case(u, 0, model_keyword()) && !same_no_case(
            u,
            end_keyword(),
        ),
{
    if starts_no_case(u, 0, control_keyword()) {
        lemma_dot_key(u, control_keyword());
    }
    if starts_no_case(u, 0, endc_keyword()) {
        lemma_dot_key(u, endc_keyword());
    }
    if starts_no_case(u, 0, subckt_keyword()) {
        lemma_dot_key(u, subckt_keyword());
    }
    if starts_no_case(u, 0, ends_keyword()) {
        lemma_dot_key(u, ends_keyword());
    }
    if starts_no_case(u, 0, model_keyword()) {
        lemma_dot_key(u, model_keyword());
        assert(matches_no_case(u[0int + 1int], model_keyword()[1]));
        if starts_no_case(u, 0, control_keyword()) {
            assert(matches_no_case(u[0int + 1int], control_keyword()[1]));
        }
        if starts_no_case(u, 0, endc_keyword()) {
            assert(matches_no_case(u[0int + 1int], endc_keyword()[1]));
        }
        if starts_no_case(u, 0, subckt_keyword()) {
            assert(matches_no_case(u[0int + 1int], subckt_keyword()[1]));
        }
        if starts_no_case(u, 0, ends_keyword()) {
            assert(matches_no_case(u[0int + 1int], ends_keyword()[1]));
        }
        if same_no_case(u, end_keyword()) {
            assert(matches_no_case(u[0int + 1int], end_keyword()[1]));
        }
    }
    if same_no_case(u, end_keyword()) {
        lemma_dot_key(u, end_keyword());
    }
    if !(u.len() > 0 && u[0] == '.') {
        if starts_no_case(u, 0, model_keyword()) {
            lemma_dot_key(u, model_keyword());
        }
    }
}

/// Without definitions or blocks, movable lines leave no definitions.
proof fn lemma_subckt_movable(lines: Seq<Seq<char>>)
    requires
        forall|i: int| 0 <= i < lines.len() ==> movable_line(#[trigger] lines[i]),
    ensures
        subckt_scan(lines) == SubcktScan::Reached(
            SubcktState { defs: Map::empty(), inside: false, current: Seq::empty() },
        ),
    decreases lines.len(),
{
    if lines.len() > 0 {
        let d = lines.drop_last();
        assert forall|i: int| 0 <= i < d.len() implies movable_line(#[trigger] d[i]) by {
            assert(d[i] == lines[i]);
        }
        lemma_subckt_movable(d);
        assert(movable_line(lines[lines.len() - 1]));
        lemma_movable_keys(without_comment(lines.last(), true));
    }
}

/// The state after a movable line that is accepted.
pub open spec fn next_state(st: DescState, l: Seq<char>) -> DescState {
    DescState {
        elements: match card_of_line(l) {
            Some(e) => st.elements.push(e),
            None => st.elements,
        },
        models: match model_of_line(l) {
            Some(m) => st.models.insert(model_name(m), m),
            None => st.models,
        },
        ..st
    }
}

/// One movable line, read outside any block and definition, with no
/// definitions.
proof fn lemma_step_movable(st: DescState, l: Seq<char>, number: nat, fuel: nat)
    requires
        fuel > 0,
        !st.control,
        !st.subckt,
        movable_line(l),
    ensures
        line_ok(l) ==> desc_step(Map::empty(), st, without_comment(l, true), number, fuel)
            == DescScan::Reached(next_state(st, l)),
        !line_ok(l) ==> desc_step(Map::empty(), st, without_comment(l, true), number, fuel)
            is Failed,
{
    let u = without_comment(l, true);
    lemma_movable_keys(u);
    if !is_blank_line(u) && !dot_line(l) {
        if let Some(ElementView::SubcktInstance(inst)) = element_line(u) {
            assert(expand(Map::empty(), inst, fuel) == Some(Err::<Seq<ElementView>, ()>(())));
        }
    }
}

proof fn lemma_ok_lines_last(lines: Seq<Seq<char>>)
    requires
        lines.len() > 0,
    ensures
        (forall|i: int| 0 <= i < lines.len() ==> line_ok(#[trigger] lines[i])) <==> (forall|i: int|
            0 <= i < lines.drop_last().len() ==> line_ok(#[trigger] lines.drop_last()[i]))
            && line_ok(lines.last()),
{
    let d = lines.drop_last();
    let n = lines.len() - 1;
    assert(lines[n] == lines.last());
    if (forall|i: int| 0 <= i < d.len() ==> line_ok(#[trigger] d[i])) && line_ok(lines.last()) {
        assert forall|i: int| 0 <= i < lines.len() implies line_ok(#[trigger] lines[i]) by {
            if i < n {
                assert(d[i] == lines[i]);
            }
        }
    }
    if forall|i: int| 0 <= i < lines.len() ==> line_ok(#[trigger] lines[i]) {
        assert forall|i: int| 0 <= i < d.len() implies line_ok(#[trigger] d[i]) by {
            assert(d[i] == lines[i]);
        }
        assert(line_ok(lines[n]));
    }
}

/// The description scan of movable lines, with no definitions: it reaches
/// a state exactly when every line is accepted, and that state holds the
/// lines' cards and models.
#[verifier::spinoff_prover]
#[verifier::rlimit(40)]
proof fn lemma_desc_movable(lines: Seq<Seq<char>>, fuel: nat)
    requires
        fuel > 0,
        forall|i: int| 0 <= i < lines.len() ==> movable_line(#[trigger] lines[i]),
    ensures
        (desc_scan(Map::empty(), lines, fuel) is Reached) <==> (forall|i: int|
            0 <= i < lines.len() ==> line_ok(#[trigger] lines[i])),
        !(desc_scan(Map::empty(), lines, fuel) is Reached) ==> desc_scan(Map::empty(), lines, fuel)
            is Failed,
        desc_scan(Map::empty(), lines, fuel) matches DescScan::Reached(st) ==> {
            &&& !st.control
            &&& !st.subckt
            &&& st.elements == cards_of(lines)
            &&& st.models == models_of(lines)
        },
    decreases lines.len(),
{
    if lines.len() > 0 {
        let d = lines.drop_last();
        let n = lines.len() - 1;
        assert forall|i: int| 0 <= i < d.len() implies movable_line(#[trigger] d[i]) by {
            assert(d[i] == lines[i]);
        }
        lemma_desc_movable(d, fuel);
        assert(lines[n] == lines.last());
        assert(movable_line(lines[n]));
        lemma_ok_lines_last(lines);
        if let DescScan::Reached(st) = desc_scan(Map::empty(), d, fuel) {
            lemma_step_movable(st, lines.last(), lines.len(), fuel);
        }
    }
}

/// A multiset with an optional item more.
pub open spec fn with_card(m: Multiset<ElementView>, o: Option<ElementView>) -> Multiset<ElementView> {
    match o {
        Some(e) => m.insert(e),
        None => m,
    }
}

/// The cards of a list of lines, counted, are those of the list without
/// one line and that line's card.
proof fn lemma_cards_remove(b: Seq<Seq<char>>, k: int)
    requires
        0 <= k < b.len(),
    ensures
        cards_of(b).to_multiset() =~= with_card(cards_of(b.remove(k)).to_multiset(), card_of_line(b[k])),
    decreases b.len(),
{
    broadcast use vstd::seq_lib::group_to_multiset_ensures;

    let n = b.len() - 1;
    if k == n {
        assert(b.remove(k) =~= b.drop_last());
    } else {
        let r = b.remove(k);
        assert(b.drop_last().remove(k) =~= r.drop_last());
        assert(r.last() == b.last());
        assert(b.drop_last()[k] == b[k]);
        lemma_cards_remove(b.drop_last(), k);
    }
}

/// Lines that are the same, each as many times, have the same cards, each
/// as many times.
proof fn lemma_cards_perm(a: Seq<Seq<char>>, b: Seq<Seq<char>>)
    requires
        a.to_multiset() == b.to_multiset(),
    ensures
        cards_of(a).to_multiset() == cards_of(b).to_multiset(),
    decreases a.len(),
{
    broadcast use vstd::seq_lib::group_to_multiset_ensures;

    a.to_multiset_ensures();
    b.to_multiset_ensures();
    if a.len() == 0 {
        assert(b.len() == 0);
        assert(b =~= Seq::<Seq<char>>::empty());
        assert(a =~= Seq::<Seq<char>>::empty());
    } else {
        let x = a.last();
        assert(a.contains(a[a.len() - 1]));
        assert(b.to_multiset().count(x) > 0);
        let k = choose|k: int| 0 <= k < b.len() && b[k] == x;
        assert(a.drop_last() =~= a.remove(a.len() - 1));
        assert(b.remove(k).to_multiset() =~= b.to_multiset().remove(x));
        assert(a.drop_last().to_multiset() =~= a.to_multiset().remove(x));
        lemma_cards_perm(a.drop_last(), b.remove(k));
        lemma_cards_remove(b, k);
        assert(cards_of(a).to_multiset() =~= with_card(cards_of(a.drop_last()).to_multiset(), card_of_line(x)));
    }
}

/// Elements that are the same, each as many times, stay so with their
/// models.
proof fn lemma_with_models_perm(a: Seq<ElementView>, b: Seq<ElementView>, m: Map<Seq<char>, ModelView>)
    requires
        a.to_multiset() == b.to_multiset(),
    ensures
        with_models(a, m).to_multiset() == with_models(b, m).to_multiset(),
    decreases a.len(),
{
    broadcast use vstd::seq_lib::group_to_multiset_ensures;

    a.to_multiset_ensures();
    b.to_multiset_ensures();
    if a.len() == 0 {
        assert(b.len() == 0);
        assert(with_models(a, m) =~= Seq::<ElementView>::empty());
        assert(with_models(b, m) =~= Seq::<ElementView>::empty());
    } else {
        let x = a.last();
        assert(a.contains(a[a.len() - 1]));
        assert(b.to_multiset().count(x) > 0);
        let k = choose|k: int| 0 <= k < b.len() && b[k] == x;
        assert(a.drop_last() =~= a.remove(a.len() - 1));
        assert(b.remove(k).to_multiset() =~= b.to_multiset().remove(x));
        assert(a.drop_last().to_multiset() =~= a.to_multiset().remove(x));
        lemma_with_models_perm(a.drop_last(), b.remove(k), m);
        let wb = with_models(b, m);
        assert(wb.remove(k) =~= with_models(b.remove(k), m));
        wb.to_multiset_ensures();
        assert(wb.remove(k).to_multiset() =~= wb.to_multiset().remove(wb[k]));
        assert(wb.contains(wb[k]));
        assert(with_models(a, m) =~= with_models(a.drop_last(), m).push(with_model(x, m)));
        assert(with_models(a, m).to_multiset() =~= with_models(a.drop_last(), m).to_multiset().insert(
            with_model(x, m),
        ));
    }
}

/// Whether some `.model` line of `lines` gives a model named `n`.
pub open spec fn model_named(lines: Seq<Seq<char>>, n: Seq<char>) -> bool {
    exists|i: int|
        0 <= i < lines.len() && (#[trigger] model_of_line(lines[i]) matches Some(m) && model_name(m) == n)
}

proof fn lemma_agree_prefix(lines: Seq<Seq<char>>)
    requires
        lines.len() > 0,
        models_agree(lines),
    ensures
        models_agree(lines.drop_last()),
{
    let d = lines.drop_last();
    assert forall|i: int, j: int| 0 <= i < d.len() && 0 <= j < d.len() implies match (
        #[trigger] model_of_line(d[i]),
        #[trigger] model_of_line(d[j]),
    ) {
        (Some(m1), Some(m2)) => model_name(m1) == model_name(m2) ==> m1 == m2,
        _ => true,
    } by {
        assert(d[i] == lines[i] && d[j] == lines[j]);
        assert(model_of_line(lines[i]) == model_of_line(d[i]));
        assert(model_of_line(lines[j]) == model_of_line(d[j]));
    }
}

proof fn lemma_named_last(lines: Seq<Seq<char>>, k: Seq<char>)
    requires
        lines.len() > 0,
    ensures
        model_named(lines, k) <==> model_named(lines.drop_last(), k) || (model_of_line(lines.last()) matches Some(
            m,
        ) && model_name(m) == k),
{
    let d = lines.drop_last();
    let n = lines.len() - 1;
    assert(lines[n] == lines.last());
    if model_named(d, k) {
        let i = choose|i: int|
            0 <= i < d.len() && (#[trigger] model_of_line(d[i]) matches Some(m) && model_name(m) == k);
        assert(d[i] == lines[i]);
        assert(model_of_line(lines[i]) == model_of_line(d[i]));
    }
    if model_named(lines, k) {
        let i = choose|i: int|
            0 <= i < lines.len() && (#[trigger] model_of_line(lines[i]) matches Some(m) && model_name(m) == k);
        if i < n {
            assert(d[i] == lines[i]);
            assert(model_of_line(lines[i]) == model_of_line(d[i]));
        }
    }
    if model_of_line(lines.last()) matches Some(m) && model_name(m) == k {
        assert(model_of_line(lines[n]) == model_of_line(lines.last()));
    }
}

/// The models of lines whose `.model` cards agree: a name is defined
/// exactly when some line gives it, and by that line's model.
#[verifier::spinoff_prover]
proof fn lemma_models_of_lines(lines: Seq<Seq<char>>)
    requires
        models_agree(lines),
    ensures
        forall|n: Seq<char>| #[trigger] models_of(lines).contains_key(n) <==> model_named(lines, n),
        forall|i: int|
            0 <= i < lines.len() ==> (#[trigger] model_of_line(lines[i]) matches Some(m) ==> models_of(
                lines,
            )[model_name(m)] == m),
    decreases lines.len(),
{
    if lines.len() > 0 {
        let d = lines.drop_last();
        let n = lines.len() - 1;
        assert(lines[n] == lines.last());
        lemma_agree_prefix(lines);
        lemma_models_of_lines(d);
        assert forall|k: Seq<char>| #[trigger] models_of(lines).contains_key(k) <==> model_named(lines, k) by {
            lemma_named_last(lines, k);
        }
        assert forall|i: int|
            0 <= i < lines.len() implies (#[trigger] model_of_line(lines[i]) matches Some(m) ==> models_of(
                lines,
            )[model_name(m)] == m) by {
            if let Some(m) = model_of_line(lines[i]) {
                if i < n {
                    assert(d[i] == lines[i]);
                    assert(model_of_line(d[i]) == Some(m));
                    if let Some(ml) = model_of_line(lines[n]) {
                        if model_name(ml) == model_name(m) {
                            assert(ml == m);
                        }
                    }
                }
            }
        }
    }
}

/// Lines with the same members whose `.model` cards agree give the same
/// models.
proof fn lemma_models_perm(a: Seq<Seq<char>>, b: Seq<Seq<char>>)
    requires
        models_agree(a),
        forall|l: Seq<char>| #![trigger a.contains(l)] #![trigger b.contains(l)] a.contains(l) <==> b.contains(l),
    ensures
        models_agree(b),
        models_of(a) == models_of(b),
{
    assert forall|i: int, j: int| 0 <= i < b.len() && 0 <= j < b.len() implies match (
        #[trigger] model_of_line(b[i]),
        #[trigger] model_of_line(b[j]),
    ) {
        (Some(m1), Some(m2)) => model_name(m1) == model_name(m2) ==> m1 == m2,
        _ => true,
    } by {
        assert(b.contains(b[i]) && b.contains(b[j]));
        let i2 = choose|i2: int| 0 <= i2 < a.len() && a[i2] == b[i];
        let j2 = choose|j2: int| 0 <= j2 < a.len() && a[j2] == b[j];
        assert(model_of_line(a[i2]) == model_of_line(b[i]));
        assert(model_of_line(a[j2]) == model_of_line(b[j]));
    }
    lemma_models_of_lines(a);
    lemma_models_of_lines(b);
    assert forall|k: Seq<char>| model_named(a, k) <==> model_named(b, k) by {
        if model_named(a, k) {
            let i = choose|i: int|
                0 <= i < a.len() && (#[trigger] model_of_line(a[i]) matches Some(m) && model_name(m) == k);
            assert(a.contains(a[i]));
            let j = choose|j: int| 0 <= j < b.len() && b[j] == a[i];
            assert(model_of_line(b[j]) == model_of_line(a[i]));
        }
        if model_named(b, k) {
            let i = choose|i: int|
                0 <= i < b.len() && (#[trigger] model_of_line(b[i]) matches Some(m) && model_name(m) == k);
            assert(b.contains(b[i]));
            let j = choose|j: int| 0 <= j < a.len() && a[j] == b[i];
            assert(model_of_line(a[j]) == model_of_line(b[i]));
        }
    }
    assert forall|k: Seq<char>| #[trigger] models_of(a).contains_key(k) implies models_of(a)[k] == models_of(b)[k] by {
        let i = choose|i: int|
            0 <= i < a.len() && (#[trigger] model_of_line(a[i]) matches Some(m) && model_name(m) == k);
        assert(a.contains(a[i]));
        let j = choose|j: int| 0 <= j < b.len() && b[j] == a[i];
        assert(model_of_line(b[j]) == model_of_line(a[i]));
    }
    assert(models_of(a) =~= models_of(b));
}

/// Two circuits that read alike but for numbering: the same elements,
/// each as many times, the same models, and the same nodes and unknowns,
/// as sets.
pub open spec fn same_reading(c1: CircuitView, c2: CircuitView) -> bool {
    &&& c1.elements.to_multiset() == c2.elements.to_multiset()
    &&& c1.models == c2.models
    &&& forall|n: Seq<char>| #[trigger] c1.nodes.contains(n) <==> c2.nodes.contains(n)
    &&& forall|k: Seq<char>| #[trigger] c1.index_map.contains_key(k) <==> c2.index_map.contains_key(k)
}

/// Two lists of elements with the same members.
pub open spec fn same_members(a: Seq<ElementView>, b: Seq<ElementView>) -> bool {
    forall|e: ElementView| #![trigger a.contains(e)] #![trigger b.contains(e)] a.contains(e) <==> b.contains(e)
}

proof fn lemma_members_complete(a: Seq<ElementView>, b: Seq<ElementView>, m: Map<Seq<char>, ModelView>)
    requires
        same_members(a, b),
    ensures
        models_complete(a, m) == models_complete(b, m),
        a.len() == 0 <==> b.len() == 0,
{
    if models_complete(a, m) {
        assert forall|i: int| 0 <= i < b.len() implies match #[trigger] b[i] {
            ElementView::Diode(d) => m.contains_key(d.model_name) && m[d.model_name] is Diode,
            ElementView::NMOSFET(x) => m.contains_key(x.model_name) && m[x.model_name] is NMosfet,
            _ => true,
        } by {
            assert(b.contains(b[i]));
            let j = choose|j: int| 0 <= j < a.len() && a[j] == b[i];
            assert(a[j] == b[i]);
        }
    }
    if models_complete(b, m) {
        assert forall|i: int| 0 <= i < a.len() implies match #[trigger] a[i] {
            ElementView::Diode(d) => m.contains_key(d.model_name) && m[d.model_name] is Diode,
            ElementView::NMOSFET(x) => m.contains_key(x.model_name) && m[x.model_name] is NMosfet,
            _ => true,
        } by {
            assert(a.contains(a[i]));
            let j = choose|j: int| 0 <= j < b.len() && b[j] == a[i];
            assert(b[j] == a[i]);
        }
    }
    if a.len() > 0 {
        assert(a.contains(a[0]));
    }
    if b.len() > 0 {
        assert(b.contains(b[0]));
    }
}

/// The nodes and unknowns of a parsed circuit, as sets, given by its
/// elements.
proof fn lemma_reading_of(input: Seq<char>, fuel: nat, c: CircuitView)
    requires
        describe(input, fuel) == Some(Description::Parsed(c)),
    ensures
        forall|n: Seq<char>| #[trigger] c.nodes.contains(n) <==> node_of(c.elements, n),
        forall|k: Seq<char>|
            #[trigger] c.index_map.contains_key(k) <==> voltage_of(c.nodes, k) || current_of(c.elements, k),
{
    law_numbering(input, fuel, c);
    law_numbering_exact(input, fuel, c);
    assert forall|n: Seq<char>| node_of(c.elements, n) implies #[trigger] c.nodes.contains(n) by {
        let (i, j) = choose|i: int, j: int|
            0 <= i < c.elements.len() && 0 <= j < element_nodes(c.elements[i]).len()
                && #[trigger] element_nodes(c.elements[i])[j] == n;
        assert(c.nodes.contains(element_nodes(c.elements[i])[j]));
    }
    assert forall|k: Seq<char>| voltage_of(c.nodes, k) || current_of(c.elements, k) implies
        #[trigger] c.index_map.contains_key(k) by {
        if voltage_of(c.nodes, k) {
            let n = choose|n: Seq<char>| #[trigger] c.nodes.contains(n) && n != crate::parser::ground()
                && k == crate::parser::voltage_key(n);
            let i = choose|i: int| 0 <= i < c.nodes.len() && c.nodes[i] == n;
            assert(c.nodes[i] != crate::parser::ground());
        } else {
            let i = choose|i: int|
                0 <= i < c.elements.len() && element_is_g2(c.elements[i])
                    && #[trigger] crate::parser::current_key(c.elements[i]) == k;
            assert(element_is_g2(c.elements[i]));
        }
    }
}

proof fn lemma_same_reading(c1: CircuitView, c2: CircuitView)
    requires
        same_members(c1.elements, c2.elements),
        forall|n: Seq<char>| #[trigger] c1.nodes.contains(n) <==> node_of(c1.elements, n),
        forall|k: Seq<char>|
            #[trigger] c1.index_map.contains_key(k) <==> voltage_of(c1.nodes, k) || current_of(c1.elements, k),
        forall|n: Seq<char>| #[trigger] c2.nodes.contains(n) <==> node_of(c2.elements, n),
        forall|k: Seq<char>|
            #[trigger] c2.index_map.contains_key(k) <==> voltage_of(c2.nodes, k) || current_of(c2.elements, k),
    ensures
        forall|n: Seq<char>| #[trigger] c1.nodes.contains(n) <==> c2.nodes.contains(n),
        forall|k: Seq<char>| #[trigger] c1.index_map.contains_key(k) <==> c2.index_map.contains_key(k),
{
    let (a, b) = (c1.elements, c2.elements);
    assert forall|n: Seq<char>| node_of(a, n) implies #[trigger] node_of(b, n) by {
        let (i, j) = choose|i: int, j: int|
            0 <= i < a.len() && 0 <= j < element_nodes(a[i]).len()
                && #[trigger] element_nodes(a[i])[j] == n;
        assert(a.contains(a[i]));
        let i2 = choose|i2: int| 0 <= i2 < b.len() && b[i2] == a[i];
        assert(element_nodes(b[i2])[j] == n);
    }
    assert forall|n: Seq<char>| node_of(b, n) implies #[trigger] node_of(a, n) by {
        let (i, j) = choose|i: int, j: int|
            0 <= i < b.len() && 0 <= j < element_nodes(b[i]).len()
                && #[trigger] element_nodes(b[i])[j] == n;
        assert(b.contains(b[i]));
        let i2 = choose|i2: int| 0 <= i2 < a.len() && a[i2] == b[i];
        assert(element_nodes(a[i2])[j] == n);
    }
    assert forall|k: Seq<char>| current_of(a, k) implies #[trigger] current_of(b, k) by {
        let i = choose|i: int|
            0 <= i < a.len() && element_is_g2(a[i])
                && #[trigger] crate::parser::current_key(a[i]) == k;
        assert(a.contains(a[i]));
        let i2 = choose|i2: int| 0 <= i2 < b.len() && b[i2] == a[i];
        assert(crate::parser::current_key(b[i2]) == k);
    }
    assert forall|k: Seq<char>| current_of(b, k) implies #[trigger] current_of(a, k) by {
        let i = choose|i: int|
            0 <= i < b.len() && element_is_g2(b[i])
                && #[trigger] crate::parser::current_key(b[i]) == k;
        assert(b.contains(b[i]));
        let i2 = choose|i2: int| 0 <= i2 < a.len() && a[i2] == b[i];
        assert(crate::parser::current_key(a[i2]) == k);
    }
    assert forall|k: Seq<char>| voltage_of(c1.nodes, k) implies #[trigger] voltage_of(c2.nodes, k) by {
        let n = choose|n: Seq<char>| #[trigger] c1.nodes.contains(n) && n != crate::parser::ground()
            && k == crate::parser::voltage_key(n);
        assert(c2.nodes.contains(n));
    }
    assert forall|k: Seq<char>| voltage_of(c2.nodes, k) implies #[trigger] voltage_of(c1.nodes, k) by {
        let n = choose|n: Seq<char>| #[trigger] c2.nodes.contains(n) && n != crate::parser::ground()
            && k == crate::parser::voltage_key(n);
        assert(c1.nodes.contains(n));
    }
}

proof fn lemma_same_lines(a: Seq<Seq<char>>, b: Seq<Seq<char>>)
    requires
        b.to_multiset() == a.to_multiset(),
    ensures
        forall|l: Seq<char>| #![trigger a.contains(l)] #![trigger b.contains(l)] a.contains(l) <==> b.contains(l),
{
    a.to_multiset_ensures();
    b.to_multiset_ensures();
    assert forall|l: Seq<char>| #![trigger a.contains(l)] #![trigger b.contains(l)] a.contains(l) <==> b.contains(l) by {
        assert(a.contains(l) <==> a.to_multiset().count(l) > 0);
        assert(b.contains(l) <==> b.to_multiset().count(l) > 0);
    }
}

/// Lists with the same elements, each as many times, have the same members.
proof fn lemma_members_of_multiset(a: Seq<ElementView>, b: Seq<ElementView>)
    requires
        a.to_multiset() == b.to_multiset(),
    ensures
        same_members(a, b),
{
    a.to_multiset_ensures();
    b.to_multiset_ensures();
    assert forall|e: ElementView| #![trigger a.contains(e)] #![trigger b.contains(e)] a.contains(e)
        <==> b.contains(e) by {
        assert(a.contains(e) <==> a.to_multiset().count(e) > 0);
        assert(b.contains(e) <==> b.to_multiset().count(e) > 0);
    }
}

proof fn lemma_movable_perm(a: Seq<Seq<char>>, b: Seq<Seq<char>>)
    requires
        forall|l: Seq<char>| #![trigger a.contains(l)] #![trigger b.contains(l)] a.contains(l) <==> b.contains(l),
        forall|i: int| 0 <= i < a.len() ==> movable_line(#[trigger] a[i]),
    ensures
        forall|i: int| 0 <= i < b.len() ==> movable_line(#[trigger] b[i]),
{
    assert forall|i: int| 0 <= i < b.len() implies movable_line(#[trigger] b[i]) by {
        assert(b.contains(b[i]));
        let j = choose|j: int| 0 <= j < a.len() && a[j] == b[i];
        assert(movable_line(a[j]));
    }
}

proof fn lemma_ok_perm(a: Seq<Seq<char>>, b: Seq<Seq<char>>)
    requires
        forall|l: Seq<char>| #![trigger a.contains(l)] #![trigger b.contains(l)] a.contains(l) <==> b.contains(l),
        forall|i: int| 0 <= i < a.len() ==> line_ok(#[trigger] a[i]),
    ensures
        forall|i: int| 0 <= i < b.len() ==> line_ok(#[trigger] b[i]),
{
    assert forall|i: int| 0 <= i < b.len() implies line_ok(#[trigger] b[i]) by {
        assert(b.contains(b[i]));
        let j = choose|j: int| 0 <= j < a.len() && a[j] == b[i];
        assert(line_ok(a[j]));
    }
}

proof fn lemma_g2_remove(b: Seq<ElementView>, k: int)
    requires
        0 <= k < b.len(),
    ensures
        g2_count(b) == g2_count(b.remove(k)) + if element_is_g2(b[k]) {
            1nat
        } else {
            0nat
        },
    decreases b.len(),
{
    let n = b.len() - 1;
    if k == n {
        assert(b.remove(k) =~= b.drop_last());
    } else {
        let r = b.remove(k);
        assert(b.drop_last().remove(k) =~= r.drop_last());
        assert(r.last() == b.last());
        assert(b.drop_last()[k] == b[k]);
        lemma_g2_remove(b.drop_last(), k);
    }
}

proof fn lemma_g2_perm(a: Seq<ElementView>, b: Seq<ElementView>)
    requires
        a.to_multiset() == b.to_multiset(),
    ensures
        g2_count(a) == g2_count(b),
    decreases a.len(),
{
    broadcast use vstd::seq_lib::group_to_multiset_ensures;

    a.to_multiset_ensures();
    b.to_multiset_ensures();
    if a.len() == 0 {
        assert(b.len() == 0);
    } else {
        let x = a.last();
        assert(a.contains(a[a.len() - 1]));
        assert(b.to_multiset().count(x) > 0);
        let k = choose|k: int| 0 <= k < b.len() && b[k] == x;
        assert(a.drop_last() =~= a.remove(a.len() - 1));
        assert(b.remove(k).to_multiset() =~= b.to_multiset().remove(x));
        assert(a.drop_last().to_multiset() =~= a.to_multiset().remove(x));
        lemma_g2_perm(a.drop_last(), b.remove(k));
        lemma_g2_remove(b, k);
    }
}

/// Elements that are the same, each as many times, give as many unknowns.
proof fn lemma_counter_perm(a: Seq<ElementView>, b: Seq<ElementView>)
    requires
        a.to_multiset() == b.to_multiset(),
    ensures
        index_elements(a).counter == index_elements(b).counter,
{
    lemma_g2_perm(a, b);
    lemma_counter_of(a);
    lemma_counter_of(b);
    lemma_members_of_multiset(a, b);
    let na = index_elements(a).nodes;
    let nb = index_elements(b).nodes;
    assert forall|n: Seq<char>| node_of(a, n) implies #[trigger] node_of(b, n) by {
        let (i, j) = choose|i: int, j: int|
            0 <= i < a.len() && 0 <= j < element_nodes(a[i]).len() && #[trigger] element_nodes(a[i])[j] == n;
        assert(a.contains(a[i]));
        let i2 = choose|i2: int| 0 <= i2 < b.len() && b[i2] == a[i];
        assert(element_nodes(b[i2])[j] == n);
    }
    assert forall|n: Seq<char>| node_of(b, n) implies #[trigger] node_of(a, n) by {
        let (i, j) = choose|i: int, j: int|
            0 <= i < b.len() && 0 <= j < element_nodes(b[i]).len() && #[trigger] element_nodes(b[i])[j] == n;
        assert(b.contains(b[i]));
        let i2 = choose|i2: int| 0 <= i2 < a.len() && a[i2] == b[i];
        assert(element_nodes(a[i2])[j] == n);
    }
    assert(na.to_set() =~= nb.to_set()) by {
        assert forall|n: Seq<char>| #[trigger] na.to_set().contains(n) <==> nb.to_set().contains(n) by {
            assert(na.contains(n) <==> node_of(a, n));
            assert(nb.contains(n) <==> node_of(b, n));
        }
    }
    na.unique_seq_to_set();
    nb.unique_seq_to_set();
    assert(na.contains(ground()) <==> nb.contains(ground())) by {
        assert(na.contains(ground()) <==> node_of(a, ground()));
        assert(nb.contains(ground()) <==> node_of(b, ground()));
    }
}

/// The order of the lines does not matter where every line is blank, an
/// element card, a `.model` card or `.end`, and no two `.model` cards give
/// one name two models: two such netlists whose lines are the same, each
/// as many times, are both read, both refused or both stopped; and when
/// both are read, they have the same elements, each as many times, the
/// same models, and the same nodes and unknowns (only the numbering of the
/// unknowns follows the order).
#[verifier::spinoff_prover]
#[verifier::rlimit(60)]
pub proof fn law_line_order(input: Seq<char>, other: Seq<char>, fuel: nat)
    requires
        fuel > 0,
        forall|i: int| 0 <= i < split_lines(input).len() ==> movable_line(#[trigger] split_lines(input)[i]),
        models_agree(split_lines(input)),
        split_lines(other).to_multiset() == split_lines(input).to_multiset(),
    ensures
        describe(input, fuel) is Some,
        describe(other, fuel) is Some,
        describe(input, fuel) matches Some(Description::Failed(_)) <==> describe(other, fuel) matches Some(
            Description::Failed(_),
        ),
        describe(input, fuel) matches Some(Description::Parsed(_)) <==> describe(other, fuel) matches Some(
            Description::Parsed(_),
        ),
        describe(input, fuel) == Some(Description::Aborted) <==> describe(other, fuel) == Some(
            Description::Aborted,
        ),
        describe(input, fuel) matches Some(Description::Parsed(c1)) ==> (describe(other, fuel) matches Some(
            Description::Parsed(c2),
        ) ==> same_reading(c1, c2)),
{
    let a = split_lines(input);
    let b = split_lines(other);
    lemma_same_lines(a, b);
    lemma_movable_perm(a, b);
    if forall|i: int| 0 <= i < a.len() ==> line_ok(#[trigger] a[i]) {
        lemma_ok_perm(a, b);
    }
    if forall|i: int| 0 <= i < b.len() ==> line_ok(#[trigger] b[i]) {
        lemma_ok_perm(b, a);
    }
    lemma_models_perm(a, b);
    lemma_subckt_movable(a);
    lemma_subckt_movable(b);
    lemma_desc_movable(a, fuel);
    lemma_desc_movable(b, fuel);
    let defs = Map::<Seq<char>, SubcircuitDefinitionView>::empty();
    if let DescScan::Reached(s1) = desc_scan(defs, a, fuel) {
        let s2 = desc_scan(defs, b, fuel)->Reached_0;
        lemma_cards_perm(a, b);
        lemma_members_of_multiset(s1.elements, s2.elements);
        lemma_members_complete(s1.elements, s2.elements, s1.models);
        lemma_counter_perm(s1.elements, s2.elements);
        if let Some(Description::Parsed(c1)) = describe(input, fuel) {
            if let Some(Description::Parsed(c2)) = describe(other, fuel) {
                lemma_with_models_perm(s1.elements, s2.elements, s1.models);
                lemma_members_of_multiset(c1.elements, c2.elements);
                lemma_reading_of(input, fuel, c1);
                lemma_reading_of(other, fuel, c2);
                lemma_same_reading(c1, c2);
            }
        }
    }
}

} // verus!
