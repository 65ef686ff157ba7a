//! When the definitions of a netlist are refused: exactly when a header
//! line is not a header, or a line inside a definition that carries
//! something is not an element card.

use vstd::prelude::*;

use crate::control::opens_with;
use crate::elements::element_line;
use crate::elements::subcircuit::{
    ends_keyword, is_blank_line, subckt_header_at, subckt_keyword, subckt_scan, subcircuits_of,
    SubcktScan,
};
use crate::text::{kelvin, matches_no_case, split_lines, starts_no_case, without_comment};

verus! {

/// Whether line `i` of `lines` stands inside a definition: some line
/// before it opens one, and no line between them closes it.
pub open spec fn inside_at(lines: Seq<Seq<char>>, i: int) -> bool {
    exists|j: int|
        0 <= j < i && #[trigger] opens_with(lines[j], subckt_keyword()) && forall|k: int|
            j < k < i ==> !opens_with(#[trigger] lines[k], ends_keyword())
}

/// Whether line `i` stops the definitions scan: a `.subckt` line that is
/// not a header (or whose keyword cannot be cut), or, inside a definition,
/// a line that carries something, opens and closes nothing, and is not an
/// element card.
pub open spec fn stops_at(lines: Seq<Seq<char>>, i: int) -> bool {
    let u = without_comment(lines[i], true);
    &&& !is_blank_line(u)
    &&& if starts_no_case(u, 0, subckt_keyword()) {
        u[5] == kelvin() || subckt_header_at(u) is None
    } else {
        !starts_no_case(u, 0, ends_keyword()) && inside_at(lines, i) && element_line(u) is None
    }
}

/// A line is not both a `.subckt` and an `.ends` line.
proof fn lemma_subckt_not_ends(u: Seq<char>)
    ensures
        starts_no_case(u, 0, subckt_keyword()) ==> !starts_no_case(u, 0, ends_keyword()),
{
    if starts_no_case(u, 0, subckt_keyword()) && starts_no_case(u, 0, ends_keyword()) {
        assert(matches_no_case(u[0int + 1int], subckt_keyword()[1]));
        assert(matches_no_case(u[0int + 1int], ends_keyword()[1]));
    }
}

/// A blank or comment line starts with no keyword that starts with `.`.
proof fn lemma_blank_opens_nothing(u: Seq<char>, w: Seq<char>)
    requires
        is_blank_line(u),
        w.len() > 0,
        w[0] == '.',
    ensures
        !starts_no_case(u, 0, w),
{
    if starts_no_case(u, 0, w) {
        assert(matches_no_case(u[0int + 0int], w[0]));
    }
}

/// Whether a line stands inside a definition, from the line before it.
proof fn lemma_inside_next(lines: Seq<Seq<char>>, i: int)
    requires
        0 <= i < lines.len(),
    ensures
        inside_at(lines, i + 1) <==> opens_with(lines[i], subckt_keyword()) || (inside_at(lines, i)
            && !opens_with(lines[i], ends_keyword())),
{
    if inside_at(lines, i + 1) && !opens_with(lines[i], subckt_keyword()) {
        let j = choose|j: int|
            0 <= j < i + 1 && #[trigger] opens_with(lines[j], subckt_keyword()) && forall|k: int|
                j < k < i + 1 ==> !opens_with(#[trigger] lines[k], ends_keyword());
        assert(j < i);
        assert(!opens_with(lines[i], ends_keyword()));
        assert(inside_at(lines, i));
    }
    if opens_with(lines[i], subckt_keyword()) {
        assert(forall|k: int| i < k < i + 1 ==> !opens_with(#[trigger] lines[k], ends_keyword()));
        assert(inside_at(lines, i + 1));
    }
    if inside_at(lines, i) && !opens_with(lines[i], ends_keyword()) {
        let j = choose|j: int|
            0 <= j < i && #[trigger] opens_with(lines[j], subckt_keyword()) && forall|k: int|
                j < k < i ==> !opens_with(#[trigger] lines[k], ends_keyword());
        assert forall|k: int| j < k < i + 1 implies !opens_with(#[trigger] lines[k], ends_keyword()) by {
        }
        assert(inside_at(lines, i + 1));
    }
}

/// The prefix of `lines` before `n` reads, for its own lines, as `lines`
/// does.
proof fn lemma_prefix_alike(lines: Seq<Seq<char>>, n: int)
    requires
        0 <= n <= lines.len(),
    ensures
        forall|i: int| 0 <= i <= n ==> (#[trigger] inside_at(lines.take(n), i) <==> inside_at(lines, i)),
        forall|i: int| 0 <= i < n ==> (#[trigger] stops_at(lines.take(n), i) <==> stops_at(lines, i)),
{
    let p = lines.take(n);
    assert forall|i: int| 0 <= i <= n implies (#[trigger] inside_at(p, i) <==> inside_at(lines, i)) by {
        if inside_at(p, i) {
            let j = choose|j: int|
                0 <= j < i && #[trigger] opens_with(p[j], subckt_keyword()) && forall|k: int|
                    j < k < i ==> !opens_with(#[trigger] p[k], ends_keyword());
            assert(p[j] == lines[j]);
            assert forall|k: int| j < k < i implies !opens_with(#[trigger] lines[k], ends_keyword()) by {
                assert(p[k] == lines[k]);
            }
        }
        if inside_at(lines, i) {
            let j = choose|j: int|
                0 <= j < i && #[trigger] opens_with(lines[j], subckt_keyword()) && forall|k: int|
                    j < k < i ==> !opens_with(#[trigger] lines[k], ends_keyword());
            assert(p[j] == lines[j]);
            assert forall|k: int| j < k < i implies !opens_with(#[trigger] p[k], ends_keyword()) by {
                assert(p[k] == lines[k]);
            }
        }
    }
    assert forall|i: int| 0 <= i < n implies (#[trigger] stops_at(p, i) <==> stops_at(lines, i)) by {
        assert(p[i] == lines[i]);
        assert(inside_at(p, i) <==> inside_at(lines, i));
    }
}

/// The definitions scan reaches a state exactly when no line stops it; the
/// state then says whether the end stands inside a definition.
#[verifier::spinoff_prover]
#[verifier::rlimit(60)]
proof fn lemma_scan_stops(lines: Seq<Seq<char>>)
    ensures
        subckt_scan(lines) is Reached <==> forall|i: int| 0 <= i < lines.len() ==> !#[trigger] stops_at(
            lines,
            i,
        ),
        subckt_scan(lines) matches SubcktScan::Reached(st) ==> (st.inside <==> inside_at(
            lines,
            lines.len() as int,
        )),
    decreases lines.len(),
{
    if lines.len() > 0 {
        let n = lines.len() - 1;
        let d = lines.drop_last();
        assert(d == lines.take(n));
        lemma_scan_stops(d);
        lemma_prefix_alike(lines, n);
        lemma_inside_next(lines, n);
        let u = without_comment(lines[n], true);
        assert(lines.last() == lines[n]);
        lemma_subckt_not_ends(u);
        if is_blank_line(u) {
            lemma_blank_opens_nothing(u, subckt_keyword());
            lemma_blank_opens_nothing(u, ends_keyword());
        }
        assert((forall|i: int| 0 <= i < lines.len() ==> !#[trigger] stops_at(lines, i)) <==> (
        forall|i: int| 0 <= i < n ==> !#[trigger] stops_at(d, i)) && !stops_at(lines, n)) by {
            if forall|i: int| 0 <= i < n ==> !#[trigger] stops_at(d, i) {
                assert forall|i: int| 0 <= i < n implies !#[trigger] stops_at(lines, i) by {
                    assert(stops_at(d, i) <==> stops_at(lines, i));
                }
            }
            if forall|i: int| 0 <= i < lines.len() ==> !#[trigger] stops_at(lines, i) {
                assert forall|i: int| 0 <= i < n implies !#[trigger] stops_at(d, i) by {
                    assert(stops_at(d, i) <==> stops_at(lines, i));
                }
            }
        }
    }
}

/// The definitions of a netlist are refused (or aborted) exactly when some
/// line is a `.subckt` line that is not a header, or stands inside a
/// definition and is neither blank, a comment, a `.subckt` or `.ends` line
/// nor an element card.
pub proof fn law_definitions_refused(input: Seq<char>)
    ensures
        !(subcircuits_of(input) is Reached) <==> exists|i: int|
            0 <= i < split_lines(input).len() && #[trigger] stops_at(split_lines(input), i),
{
    lemma_scan_stops(split_lines(input));
}

} // verus!
