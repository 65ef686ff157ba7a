//! `.control` blocks: a block from a `.control` line to an `.endc` line,
//! written outside any definition and outside another such block, leaves
//! the reading of the netlist as it was, up to the numbers of the lines
//! after it.

use vstd::prelude::*;

use crate::comments::{scan_unnumbered, unnumbered};
use crate::elements::subcircuit::{
    ends_keyword, is_blank_line, subckt_keyword, subckt_scan, subckt_step, subcircuits_of,
    SubcircuitDefinitionView, SubcktScan, SubcktState,
};
use crate::parser::{
    control_keyword, desc_scan, desc_step, describe, endc_keyword, DescFailure, DescScan,
    DescState,
};
use crate::text::{matches_no_case, split_lines, starts_no_case, without_comment};

verus! {

/// Whether line `l`, without its comment and trimmed, starts with keyword
/// `w` (in any case).
pub open spec fn opens_with(l: Seq<char>, w: Seq<char>) -> bool {
    starts_no_case(without_comment(l, true), 0, w)
}

/// A `.control` block: a `.control` line, lines that open no definition,
/// close none and close no block, and an `.endc` line.
pub open spec fn control_block(b: Seq<Seq<char>>) -> bool {
    &&& b.len() >= 2
    &&& opens_with(b[0], control_keyword())
    &&& opens_with(b.last(), endc_keyword())
    &&& forall|j: int|
        0 < j < b.len() - 1 ==> !opens_with(#[trigger] b[j], subckt_keyword()) && !opens_with(
            b[j],
            ends_keyword(),
        ) && !opens_with(b[j], endc_keyword())
}

/// Where a block may stand in `lines`: before line `i`, the scans are, if
/// they got that far, outside any definition and outside any block.
pub open spec fn block_place(
    defs: Map<Seq<char>, SubcircuitDefinitionView>,
    lines: Seq<Seq<char>>,
    i: int,
    fuel: nat,
) -> bool {
    &&& 0 <= i <= lines.len()
    &&& (desc_scan(defs, lines.take(i), fuel) matches DescScan::Reached(st) ==> !st.control)
    &&& (subckt_scan(lines.take(i)) matches SubcktScan::Reached(ss) ==> !ss.inside)
}

/// `lines` with the block `b` written before line `i`.
pub open spec fn with_block(lines: Seq<Seq<char>>, i: int, b: Seq<Seq<char>>) -> Seq<Seq<char>> {
    lines.take(i) + b + lines.skip(i)
}

/// The keywords of the two scans that a `.control` or `.endc` line is not.
proof fn lemma_block_keywords(u: Seq<char>)
    ensures
        starts_no_case(u, 0, control_keyword()) ==> !starts_no_case(u, 0, subckt_keyword())
            && !starts_no_case(u, 0, ends_keyword()) && !starts_no_case(u, 0, endc_keyword()),
        starts_no_case(u, 0, endc_keyword()) ==> !starts_no_case(u, 0, subckt_keyword())
            && !starts_no_case(u, 0, control_keyword()) && !starts_no_case(u, 0, ends_keyword()),
        starts_no_case(u, 0, control_keyword()) || starts_no_case(u, 0, endc_keyword())
            ==> !is_blank_line(u),
{
    if starts_no_case(u, 0, control_keyword()) {
        assert(matches_no_case(u[0int + 0int], control_keyword()[0]));
        assert(matches_no_case(u[0int + 1int], control_keyword()[1]));
        assert(matches_no_case(u[0int + 2int], control_keyword()[2]));
        if starts_no_case(u, 0, subckt_keyword()) {
            assert(matches_no_case(u[0int + 1int], subckt_keyword()[1]));
        }
        if starts_no_case(u, 0, ends_keyword()) {
            assert(matches_no_case(u[0int + 1int], ends_keyword()[1]));
        }
        if starts_no_case(u, 0, endc_keyword()) {
            assert(matches_no_case(u[0int + 1int], endc_keyword()[1]));
        }
    }
    if starts_no_case(u, 0, endc_keyword()) {
        assert(matches_no_case(u[0int + 0int], endc_keyword()[0]));
        assert(matches_no_case(u[0int + 1int], endc_keyword()[1]));
        if starts_no_case(u, 0, subckt_keyword()) {
            assert(matches_no_case(u[0int + 1int], subckt_keyword()[1]));
        }
        if starts_no_case(u, 0, control_keyword()) {
            assert(matches_no_case(u[0int + 1int], control_keyword()[1]));
        }
        if starts_no_case(u, 0, ends_keyword()) {
            assert(matches_no_case(u[0int + 4int], endc_keyword()[4]));
            assert(matches_no_case(u[0int + 4int], ends_keyword()[4]));
        }
    }
}

/// Within the block, after its first line, the description scan stands in
/// the block with the state it entered with.
proof fn lemma_desc_block_prefix(
    defs: Map<Seq<char>, SubcircuitDefinitionView>,
    lines: Seq<Seq<char>>,
    b: Seq<Seq<char>>,
    m: int,
    st: DescState,
    fuel: nat,
)
    requires
        control_block(b),
        1 <= m < b.len(),
        desc_scan(defs, lines, fuel) == DescScan::Reached(st),
    ensures
        desc_scan(defs, lines + b.take(m), fuel) == DescScan::Reached(
            DescState { control: true, ..st },
        ),
    decreases m,
{
    let t = lines + b.take(m);
    assert(t.drop_last() =~= lines + b.take(m - 1));
    assert(t.last() == b[m - 1]);
    if m == 1 {
        assert(lines + b.take(0) =~= lines);
        lemma_block_keywords(without_comment(b[0], true));
    } else {
        lemma_desc_block_prefix(defs, lines, b, m - 1, st, fuel);
        assert(!opens_with(b[m - 1], endc_keyword()));
    }
}

/// A whole block leaves the description scan where it was.
proof fn lemma_desc_block(
    defs: Map<Seq<char>, SubcircuitDefinitionView>,
    lines: Seq<Seq<char>>,
    b: Seq<Seq<char>>,
    fuel: nat,
)
    requires
        control_block(b),
        desc_scan(defs, lines, fuel) matches DescScan::Reached(st) && !st.control,
    ensures
        desc_scan(defs, lines + b, fuel) == desc_scan(defs, lines, fuel),
{
    let st = desc_scan(defs, lines, fuel)->Reached_0;
    let n = b.len() as int;
    lemma_desc_block_prefix(defs, lines, b, n - 1, st, fuel);
    let t = lines + b;
    assert(t.drop_last() =~= lines + b.take(n - 1));
    assert(t.last() == b.last());
    lemma_block_keywords(without_comment(b.last(), true));
    assert(DescState { control: false, ..DescState { control: true, ..st } } == st);
}

/// A line outside any definition that opens or closes none leaves the
/// definitions scan where it was.
proof fn lemma_subckt_step_outside(ss: SubcktState, u: Seq<char>)
    requires
        !ss.inside,
        !starts_no_case(u, 0, subckt_keyword()),
        !starts_no_case(u, 0, ends_keyword()),
    ensures
        subckt_step(ss, u) == SubcktScan::Reached(ss),
{
}

/// Two scans that agree before their last line, which they share, agree.
proof fn lemma_subckt_scan_last(a: Seq<Seq<char>>, b: Seq<Seq<char>>)
    requires
        a.len() > 0,
        b.len() > 0,
        subckt_scan(a.drop_last()) == subckt_scan(b.drop_last()),
        a.last() == b.last(),
    ensures
        subckt_scan(a) == subckt_scan(b),
{
}

/// Two description scans that agree before their last line, which they
/// share, agree but for the number of a refused line.
proof fn lemma_desc_scan_last(
    defs: Map<Seq<char>, SubcircuitDefinitionView>,
    a: Seq<Seq<char>>,
    b: Seq<Seq<char>>,
    fuel: nat,
)
    requires
        a.len() > 0,
        b.len() > 0,
        scan_unnumbered(desc_scan(defs, a.drop_last(), fuel)) == scan_unnumbered(
            desc_scan(defs, b.drop_last(), fuel),
        ),
        desc_scan(defs, b.drop_last(), fuel) is Reached ==> desc_scan(defs, a.drop_last(), fuel)
            == desc_scan(defs, b.drop_last(), fuel),
        desc_scan(defs, a.drop_last(), fuel) is Reached ==> desc_scan(defs, b.drop_last(), fuel)
            is Reached,
        a.last() == b.last(),
    ensures
        scan_unnumbered(desc_scan(defs, a, fuel)) == scan_unnumbered(desc_scan(defs, b, fuel)),
        desc_scan(defs, b, fuel) is Reached ==> desc_scan(defs, a, fuel) == desc_scan(defs, b, fuel),
        desc_scan(defs, a, fuel) is Reached ==> desc_scan(defs, b, fuel) is Reached,
{
}

/// A block, line by line, leaves the definitions scan where it was.
#[verifier::spinoff_prover]
#[verifier::rlimit(60)]
proof fn lemma_subckt_block_prefix(lines: Seq<Seq<char>>, b: Seq<Seq<char>>, m: int)
    requires
        control_block(b),
        0 <= m <= b.len(),
        subckt_scan(lines) matches SubcktScan::Reached(ss) && !ss.inside,
    ensures
        subckt_scan(lines + b.take(m)) == subckt_scan(lines),
    decreases m,
{
    if m == 0 {
        assert(lines + b.take(0) =~= lines);
    } else {
        let t = lines + b.take(m);
        assert(t.drop_last() =~= lines + b.take(m - 1));
        assert(t.last() == b[m - 1]);
        lemma_subckt_block_prefix(lines, b, m - 1);
        let u = without_comment(b[m - 1], true);
        lemma_block_keywords(u);
        if 0 < m - 1 < b.len() - 1 {
            assert(!opens_with(b[m - 1], subckt_keyword()) && !opens_with(b[m - 1], ends_keyword()));
        }
        let ss = subckt_scan(lines)->Reached_0;
        lemma_subckt_step_outside(ss, u);
    }
}

#[verifier::spinoff_prover]
#[verifier::rlimit(60)]
proof fn lemma_subckt_with_block(lines: Seq<Seq<char>>, i: int, b: Seq<Seq<char>>)
    requires
        control_block(b),
        0 <= i <= lines.len(),
        subckt_scan(lines.take(i)) matches SubcktScan::Reached(ss) ==> !ss.inside,
    ensures
        subckt_scan(with_block(lines, i, b)) == subckt_scan(lines),
    decreases lines.len(),
{
    let g = with_block(lines, i, b);
    if i == lines.len() {
        assert(lines.take(i) =~= lines);
        assert(g =~= lines + b.take(b.len() as int));
        if subckt_scan(lines) is Reached {
            lemma_subckt_block_prefix(lines, b, b.len() as int);
        } else {
            lemma_subckt_scan_stuck(lines, b, b.len() as int);
        }
    } else {
        assert(g.drop_last() =~= with_block(lines.drop_last(), i, b));
        assert(g.last() == lines.last());
        assert(lines.drop_last().take(i) =~= lines.take(i));
        lemma_subckt_with_block(lines.drop_last(), i, b);
        lemma_subckt_scan_last(g, lines);
    }
}

/// A scan that stopped stays stopped.
proof fn lemma_subckt_scan_stuck(lines: Seq<Seq<char>>, b: Seq<Seq<char>>, m: int)
    requires
        0 <= m <= b.len(),
        !(subckt_scan(lines) is Reached),
    ensures
        subckt_scan(lines + b.take(m)) == subckt_scan(lines),
    decreases m,
{
    if m == 0 {
        assert(lines + b.take(0) =~= lines);
    } else {
        let t = lines + b.take(m);
        assert(t.drop_last() =~= lines + b.take(m - 1));
        lemma_subckt_scan_stuck(lines, b, m - 1);
    }
}

proof fn lemma_desc_scan_stuck(
    defs: Map<Seq<char>, SubcircuitDefinitionView>,
    lines: Seq<Seq<char>>,
    b: Seq<Seq<char>>,
    m: int,
    fuel: nat,
)
    requires
        0 <= m <= b.len(),
        !(desc_scan(defs, lines, fuel) is Reached),
    ensures
        desc_scan(defs, lines + b.take(m), fuel) == desc_scan(defs, lines, fuel),
    decreases m,
{
    if m == 0 {
        assert(lines + b.take(0) =~= lines);
    } else {
        let t = lines + b.take(m);
        assert(t.drop_last() =~= lines + b.take(m - 1));
        lemma_desc_scan_stuck(defs, lines, b, m - 1, fuel);
    }
}

#[verifier::spinoff_prover]
#[verifier::rlimit(60)]
proof fn lemma_desc_with_block(
    defs: Map<Seq<char>, SubcircuitDefinitionView>,
    lines: Seq<Seq<char>>,
    i: int,
    b: Seq<Seq<char>>,
    fuel: nat,
)
    requires
        control_block(b),
        0 <= i <= lines.len(),
        desc_scan(defs, lines.take(i), fuel) matches DescScan::Reached(st) ==> !st.control,
    ensures
        scan_unnumbered(desc_scan(defs, with_block(lines, i, b), fuel)) == scan_unnumbered(
            desc_scan(defs, lines, fuel),
        ),
        desc_scan(defs, lines, fuel) is Reached ==> desc_scan(defs, with_block(lines, i, b), fuel)
            == desc_scan(defs, lines, fuel),
        desc_scan(defs, with_block(lines, i, b), fuel) is Reached ==> desc_scan(defs, lines, fuel)
            is Reached,
    decreases lines.len(),
{
    let g = with_block(lines, i, b);
    if i == lines.len() {
        assert(lines.take(i) =~= lines);
        assert(g =~= lines + b.take(b.len() as int));
        if desc_scan(defs, lines, fuel) is Reached {
            assert(b.take(b.len() as int) =~= b);
            lemma_desc_block(defs, lines, b, fuel);
        } else {
            lemma_desc_scan_stuck(defs, lines, b, b.len() as int, fuel);
        }
    } else {
        assert(g.drop_last() =~= with_block(lines.drop_last(), i, b));
        assert(g.last() == lines.last());
        assert(lines.drop_last().take(i) =~= lines.take(i));
        lemma_desc_with_block(defs, lines.drop_last(), i, b, fuel);
        lemma_desc_scan_last(defs, g, lines, fuel);
    }
}

/// A `.control` block changes nothing: written between the lines of a
/// netlist, outside any definition and outside any other block, it leaves
/// the reading as it was, up to the number of a refused line.
pub proof fn law_control_block(input: Seq<char>, other: Seq<char>, i: int, b: Seq<Seq<char>>, fuel: nat)
    requires
        control_block(b),
        0 <= i <= split_lines(input).len(),
        split_lines(other) == with_block(split_lines(input), i, b),
        subckt_scan(split_lines(input).take(i)) matches SubcktScan::Reached(ss) ==> !ss.inside,
        subcircuits_of(input) matches SubcktScan::Reached(sub) ==> (desc_scan(
            sub.defs,
            split_lines(input).take(i),
            fuel,
        ) matches DescScan::Reached(st) ==> !st.control),
    ensures
        subcircuits_of(other) == subcircuits_of(input),
        unnumbered(describe(other, fuel)) == unnumbered(describe(input, fuel)),
{
    let lines = split_lines(input);
    lemma_subckt_with_block(lines, i, b);
    if let SubcktScan::Reached(sub) = subcircuits_of(input) {
        lemma_desc_with_block(sub.defs, lines, i, b, fuel);
    }
}

} // verus!
