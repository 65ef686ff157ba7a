//! Comments in a netlist: on any line, the text from a `%` on is ignored.

use vstd::prelude::*;

use crate::elements::subcircuit::{
    subckt_scan, subckt_step, subcircuits_of, SubcircuitDefinitionView, SubcktScan, SubcktState,
};
use crate::parser::{desc_scan, desc_step, describe, DescFailure, DescScan, DescState, Description};
use crate::text::{law_comment_ignored, split_lines, without_comment};

verus! {

/// Two lists of lines that read alike: as many lines, and each line the
/// same once its comment is removed and it is trimmed.
pub open spec fn same_cards(a: Seq<Seq<char>>, b: Seq<Seq<char>>) -> bool {
    &&& a.len() == b.len()
    &&& forall|i: int|
        0 <= i < a.len() ==> #[trigger] without_comment(a[i], true) == without_comment(b[i], true)
}

proof fn lemma_same_cards_prefix(a: Seq<Seq<char>>, b: Seq<Seq<char>>)
    requires
        same_cards(a, b),
        a.len() > 0,
    ensures
        same_cards(a.drop_last(), b.drop_last()),
        without_comment(a.last(), true) == without_comment(b.last(), true),
{
    assert forall|i: int| 0 <= i < a.drop_last().len() implies #[trigger] without_comment(
        a.drop_last()[i],
        true,
    ) == without_comment(b.drop_last()[i], true) by {
        assert(without_comment(a[i], true) == without_comment(b[i], true));
    }
    assert(without_comment(a[a.len() - 1], true) == without_comment(b[a.len() - 1], true));
}

pub proof fn lemma_subckt_scan_cards(a: Seq<Seq<char>>, b: Seq<Seq<char>>)
    requires
        same_cards(a, b),
    ensures
        subckt_scan(b) == subckt_scan(a),
    decreases a.len(),
{
    if a.len() > 0 {
        lemma_same_cards_prefix(a, b);
        lemma_subckt_scan_cards(a.drop_last(), b.drop_last());
    }
}

pub proof fn lemma_desc_scan_cards(
    defs: Map<Seq<char>, SubcircuitDefinitionView>,
    a: Seq<Seq<char>>,
    b: Seq<Seq<char>>,
    fuel: nat,
)
    requires
        same_cards(a, b),
    ensures
        desc_scan(defs, b, fuel) == desc_scan(defs, a, fuel),
    decreases a.len(),
{
    if a.len() > 0 {
        lemma_same_cards_prefix(a, b);
        lemma_desc_scan_cards(defs, a.drop_last(), b.drop_last(), fuel);
    }
}

/// Two netlists whose lines read alike read the same.
pub proof fn lemma_describe_cards(input: Seq<char>, other: Seq<char>, fuel: nat)
    requires
        same_cards(split_lines(input), split_lines(other)),
    ensures
        describe(other, fuel) == describe(input, fuel),
{
    lemma_subckt_scan_cards(split_lines(input), split_lines(other));
    assert(subcircuits_of(other) == subcircuits_of(input));
    if let SubcktScan::Reached(sub) = subcircuits_of(input) {
        lemma_desc_scan_cards(sub.defs, split_lines(input), split_lines(other), fuel);
    }
}

/// Whether `w` holds no line feed.
pub open spec fn one_line(w: Seq<char>) -> bool {
    forall|i: int| 0 <= i < w.len() ==> #[trigger] w[i] != '\n'
}

pub proof fn lemma_split_nonempty(s: Seq<char>)
    ensures
        split_lines(s).len() >= 1,
    decreases s.len(),
{
    if s.len() > 0 {
        lemma_split_nonempty(s.drop_last());
    }
}

/// Text without line feeds written at the end of a text extends its last
/// line.
proof fn lemma_split_extend(s: Seq<char>, w: Seq<char>)
    requires
        one_line(w),
    ensures
        split_lines(s + w) == split_lines(s).update(
            split_lines(s).len() - 1,
            split_lines(s).last() + w,
        ),
    decreases w.len(),
{
    lemma_split_nonempty(s);
    if w.len() == 0 {
        assert(s + w =~= s);
        assert(split_lines(s).last() + w =~= split_lines(s).last());
        assert(split_lines(s).update(split_lines(s).len() - 1, split_lines(s).last())
            =~= split_lines(s));
    } else {
        let v = w.drop_last();
        assert forall|i: int| 0 <= i < v.len() implies #[trigger] v[i] != '\n' by {
            assert(v[i] == w[i]);
        }
        lemma_split_extend(s, v);
        assert((s + w).drop_last() =~= s + v);
        assert((s + w).last() == w.last());
        assert(w.last() == w[w.len() - 1]);
        let p = split_lines(s);
        let q = split_lines(s + v);
        assert(w.last() != '\n');
        assert(q.len() == p.len());
        assert(q.last() == p.last() + v);
        assert(split_lines(s + w) == q.update(q.len() - 1, q.last().push(w.last())));
        assert((p.last() + v).push(w.last()) =~= p.last() + w);
        assert(q.update(q.len() - 1, q.last().push(w.last())) =~= p.update(
            p.len() - 1,
            p.last() + w,
        ));
    }
}

/// Text without line feeds written at the end of a line of a text extends
/// that line and changes no other.
pub proof fn lemma_split_append(s: Seq<char>, k: int, w: Seq<char>) -> (l: int)
    requires
        0 <= k <= s.len(),
        k == s.len() || s[k] == '\n',
        one_line(w),
    ensures
        0 <= l < split_lines(s).len(),
        k < s.len() ==> l < split_lines(s).len() - 1,
        split_lines(s.take(k) + w + s.skip(k)) == split_lines(s).update(l, split_lines(s)[l] + w),
    decreases s.len(),
{
    lemma_split_nonempty(s);
    let t = s.take(k) + w + s.skip(k);
    if k == s.len() {
        assert(t =~= s + w);
        lemma_split_extend(s, w);
        split_lines(s).len() - 1
    } else {
        let d = s.drop_last();
        let c = s.last();
        if k < d.len() {
            assert(d[k] == s[k]);
        }
        let l = lemma_split_append(d, k, w);
        lemma_split_nonempty(d);
        let td = d.take(k) + w + d.skip(k);
        assert(t.drop_last() =~= td);
        assert(t.last() == c);
        let p = split_lines(d);
        if c == '\n' {
            assert(split_lines(t) =~= split_lines(s).update(l, split_lines(s)[l] + w));
        } else {
            assert(k < d.len());
            assert(l < p.len() - 1);
            assert(split_lines(s)[l] == p[l]);
            assert(split_lines(t) =~= split_lines(s).update(l, split_lines(s)[l] + w));
        }
        l
    }
}

/// Text after a `%` is a comment, on any line of a netlist: writing `%` and
/// any text without a line feed at the end of a line leaves the reading of
/// the netlist as it was.
pub proof fn law_netlist_comment(input: Seq<char>, k: int, t: Seq<char>, fuel: nat)
    requires
        0 <= k <= input.len(),
        k == input.len() || input[k] == '\n',
        one_line(t),
    ensures
        describe(input.take(k) + (seq!['%'] + t) + input.skip(k), fuel) == describe(input, fuel),
{
    let w = seq!['%'] + t;
    assert forall|i: int| 0 <= i < w.len() implies #[trigger] w[i] != '\n' by {
        if i > 0 {
            assert(w[i] == t[i - 1]);
        }
    }
    let l = lemma_split_append(input, k, w);
    let a = split_lines(input);
    let b = a.update(l, a[l] + w);
    law_comment_ignored(a[l], t, true);
    assert(a[l] + w == a[l] + seq!['%'] + t);
    assert forall|i: int| 0 <= i < a.len() implies #[trigger] without_comment(a[i], true)
        == without_comment(b[i], true) by {
    }
    lemma_describe_cards(input, input.take(k) + w + input.skip(k), fuel);
}

/// A line that carries nothing: empty, or only blanks and a comment.
pub open spec fn quiet_line(l: Seq<char>) -> bool {
    one_line(l) && without_comment(l, true).len() == 0
}

/// An outcome with the number of a refused line left out.
pub open spec fn unnumbered(d: Option<Description>) -> Option<Description> {
    match d {
        Some(Description::Failed(DescFailure::ParseError(_))) => Some(
            Description::Failed(DescFailure::ParseError(0)),
        ),
        other => other,
    }
}

/// A scan's outcome with the number of a refused line left out.
pub open spec fn scan_unnumbered(d: DescScan) -> DescScan {
    match d {
        DescScan::Failed(DescFailure::ParseError(_)) => DescScan::Failed(DescFailure::ParseError(0)),
        other => other,
    }
}

proof fn lemma_subckt_scan_quiet(lines: Seq<Seq<char>>, i: int, l: Seq<char>)
    requires
        0 <= i <= lines.len(),
        quiet_line(l),
    ensures
        subckt_scan(lines.insert(i, l)) == subckt_scan(lines),
    decreases lines.len(),
{
    let u = lines.insert(i, l);
    if i == lines.len() {
        assert(u.drop_last() =~= lines);
        assert(u.last() == l);
    } else {
        assert(u.drop_last() =~= lines.drop_last().insert(i, l));
        assert(u.last() == lines.last());
        lemma_subckt_scan_quiet(lines.drop_last(), i, l);
    }
}

proof fn lemma_desc_scan_quiet(
    defs: Map<Seq<char>, SubcircuitDefinitionView>,
    lines: Seq<Seq<char>>,
    i: int,
    l: Seq<char>,
    fuel: nat,
)
    requires
        0 <= i <= lines.len(),
        quiet_line(l),
    ensures
        scan_unnumbered(desc_scan(defs, lines.insert(i, l), fuel)) == scan_unnumbered(
            desc_scan(defs, lines, fuel),
        ),
        desc_scan(defs, lines, fuel) is Reached ==> desc_scan(defs, lines.insert(i, l), fuel)
            == desc_scan(defs, lines, fuel),
        desc_scan(defs, lines.insert(i, l), fuel) is Reached ==> desc_scan(defs, lines, fuel)
            is Reached,
    decreases lines.len(),
{
    let u = lines.insert(i, l);
    if i == lines.len() {
        assert(u.drop_last() =~= lines);
        assert(u.last() == l);
    } else {
        assert(u.drop_last() =~= lines.drop_last().insert(i, l));
        assert(u.last() == lines.last());
        lemma_desc_scan_quiet(defs, lines.drop_last(), i, l, fuel);
    }
}

proof fn lemma_split_ends_empty(s: Seq<char>)
    requires
        s.len() == 0 || s.last() == '\n',
    ensures
        split_lines(s).last() == Seq::<char>::empty(),
{
    lemma_split_nonempty(s);
}

/// A line written at the start of a line of a text comes in as a line of
/// its own.
pub proof fn lemma_split_insert_line(s: Seq<char>, k: int, l: Seq<char>) -> (idx: int)
    requires
        0 <= k <= s.len(),
        k == 0 || s[k - 1] == '\n',
        one_line(l),
    ensures
        0 <= idx < split_lines(s).len(),
        split_lines(s.take(k) + (l + seq!['\n']) + s.skip(k)) == split_lines(s).insert(idx, l),
    decreases s.len(),
{
    lemma_split_nonempty(s);
    let t = s.take(k) + (l + seq!['\n']) + s.skip(k);
    if k == s.len() {
        assert(t =~= (s + l).push('\n'));
        if s.len() > 0 {
            assert(s.last() == s[k - 1]);
        }
        lemma_split_ends_empty(s);
        lemma_split_extend(s, l);
        let p = split_lines(s);
        assert((s + l).push('\n').drop_last() =~= s + l);
        assert(split_lines(t) == split_lines(s + l).push(Seq::empty()));
        assert(p.last() + l =~= l);
        assert(split_lines(t) =~= p.insert(p.len() - 1, l));
        p.len() - 1
    } else {
        let d = s.drop_last();
        let c = s.last();
        if k > 0 {
            assert(d[k - 1] == s[k - 1]);
        }
        let idx = lemma_split_insert_line(d, k, l);
        lemma_split_nonempty(d);
        let td = d.take(k) + (l + seq!['\n']) + d.skip(k);
        assert(t.drop_last() =~= td);
        assert(t.last() == c);
        let p = split_lines(d);
        let q = p.insert(idx, l);
        if c == '\n' {
            assert(split_lines(t) == q.push(Seq::empty()));
            assert(split_lines(t) =~= split_lines(s).insert(idx, l));
        } else {
            assert(split_lines(t) == q.update(q.len() - 1, q.last().push(c)));
            assert(split_lines(s) == p.update(p.len() - 1, p.last().push(c)));
            assert(split_lines(t) =~= split_lines(s).insert(idx, l));
        }
        idx
    }
}

/// Lines that carry nothing change nothing: writing a line that is empty,
/// blank or only a comment anywhere a line may start leaves the reading of
/// the netlist as it was, up to the number of a refused line.
pub proof fn law_netlist_quiet_line(input: Seq<char>, k: int, l: Seq<char>, fuel: nat)
    requires
        0 <= k <= input.len(),
        k == 0 || input[k - 1] == '\n',
        quiet_line(l),
    ensures
        unnumbered(describe(input.take(k) + (l + seq!['\n']) + input.skip(k), fuel)) == unnumbered(
            describe(input, fuel),
        ),
{
    let other = input.take(k) + (l + seq!['\n']) + input.skip(k);
    let idx = lemma_split_insert_line(input, k, l);
    let lines = split_lines(input);
    lemma_subckt_scan_quiet(lines, idx, l);
    assert(subcircuits_of(other) == subcircuits_of(input));
    if let SubcktScan::Reached(sub) = subcircuits_of(input) {
        lemma_desc_scan_quiet(sub.defs, lines, idx, l, fuel);
    }
}

} // verus!
