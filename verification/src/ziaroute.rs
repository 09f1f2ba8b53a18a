//! Routing of the inputs that a function block needs through its ZIA.
//!
//! Every input that a product term of the block reads needs a ZIA row of
//! its own, and the row must be one that offers the signal. Which signal
//! an input is depends on where its macrocell sits and on what kind of
//! macrocell it is.

use vstd::prelude::*;
use crate::andterms::block_refs_ok;
use crate::andterms::ce_pterm;
use crate::andterms::clk_pterm;
use crate::andterms::lemma_special_refs;
use crate::andterms::logic_mc;
use crate::andterms::oe_pterm;
use crate::andterms::or_inputs;
use crate::andterms::reset_pterm;
use crate::andterms::set_pterm;
use crate::andterms::xor_pterm;
use crate::device::fb_mc_num_to_iob_num;
use crate::device::spec_fb_mc_num_to_iob_num;
use crate::device::DeviceSpec;
use crate::mc::MCS_PER_FB;
use crate::netlist::InputGraph;
use crate::netlist::InputGraphMacrocell;
use crate::netlist::InputGraphMacrocellType;
use crate::netlist::InputGraphPTerm;
use crate::netlist::InputGraphPTermInput;
use crate::netlist::InputGraphPTermInputType;
use crate::netlist::NUM_LOC_FBS;
use crate::outgraph::OutputGraph;
use crate::outgraph::OutputGraphMacrocell;
use crate::outgraph::OutputGraphPTerm;
use crate::outgraph::PARFBAssignment;
use crate::outgraph::PARMCAssignment;
use crate::outgraph::PARZIAAssignment;
use crate::zia::is_routed_input;
use crate::zia::lemma_row_find;
use crate::zia::row_wf;
use crate::zia::XC2ZIAInput;
use crate::zia::ZIATable;
use crate::zia::INPUTS_PER_ANDTERM;

verus! {

/// The list of `p`, if there is one.
pub open spec fn opt_seq(p: Option<usize>) -> Seq<usize> {
    match p {
        Some(p) => seq![p],
        None => Seq::empty(),
    }
}

/// The product terms that `mc` uses when it sits in the logic half of a
/// site: for its output enable, its XOR gate, its OR term, its clock
/// enable, its clock, its set and its reset, in this order.
pub open spec fn mc_pterms(mc: &InputGraphMacrocell) -> Seq<usize> {
    opt_seq(oe_pterm(mc)) + opt_seq(xor_pterm(mc)) + or_inputs(mc) + opt_seq(ce_pterm(mc))
        + opt_seq(clk_pterm(mc)) + opt_seq(set_pterm(mc)) + opt_seq(reset_pterm(mc))
}

/// The product terms that the macrocells in the logic halves of the first
/// `n` sites of a block use, site by site.
pub open spec fn fb_pterms(g: &InputGraph, a: Seq<(PARMCAssignment, PARMCAssignment)>, n: int) -> Seq<
    usize,
>
    decreases n,
{
    if n <= 0 {
        Seq::empty()
    } else {
        fb_pterms(g, a, n - 1) + (match logic_mc(a, n - 1) {
            Some(m) => mc_pterms(&g.mcs@[m as int]),
            None => Seq::empty(),
        })
    }
}

/// `acc`, followed by those of the first `n` of `xs` that occur neither
/// in `acc` nor earlier in `xs`.
pub open spec fn add_inputs(
    acc: Seq<InputGraphPTermInput>,
    xs: Seq<InputGraphPTermInput>,
    n: int,
) -> Seq<InputGraphPTermInput>
    decreases n,
{
    if n <= 0 {
        acc
    } else {
        let r = add_inputs(acc, xs, n - 1);
        if r.contains(xs[n - 1]) {
            r
        } else {
            r.push(xs[n - 1])
        }
    }
}

/// `acc`, followed by the inputs of `pt` that are new: the true ones,
/// then the complemented ones.
pub open spec fn add_pterm_inputs(acc: Seq<InputGraphPTermInput>, pt: &InputGraphPTerm) -> Seq<
    InputGraphPTermInput,
> {
    add_inputs(
        add_inputs(acc, pt.inputs_true@, pt.inputs_true@.len() as int),
        pt.inputs_comp@,
        pt.inputs_comp@.len() as int,
    )
}

/// The distinct inputs of the first `n` of the product terms `pts`, in
/// the order in which they are first read.
pub open spec fn collect_inputs(g: &InputGraph, pts: Seq<usize>, n: int) -> Seq<InputGraphPTermInput>
    decreases n,
{
    if n <= 0 {
        Seq::empty()
    } else {
        add_pterm_inputs(collect_inputs(g, pts, n - 1), &g.pterms@[pts[n - 1] as int])
    }
}

/// The distinct inputs that a block needs.
pub open spec fn fb_inputs(g: &InputGraph, a: Seq<(PARMCAssignment, PARMCAssignment)>) -> Seq<
    InputGraphPTermInput,
> {
    let pts = fb_pterms(g, a, MCS_PER_FB as int);
    collect_inputs(g, pts, pts.len() as int)
}

/// Every macrocell has a location that names a site.
pub open spec fn mcs_placed(g: &InputGraph, mcs: Seq<OutputGraphMacrocell>) -> bool {
    &&& mcs.len() == g.mcs@.len()
    &&& forall|i: int|
        0 <= i < mcs.len() ==> ((#[trigger] mcs[i]).loc matches Some(l) && l.fb < NUM_LOC_FBS
            && l.i < MCS_PER_FB)
}

/// The signal that reaches the ZIA from the pad of site `(fb, mc)`: the
/// dedicated input for the site that stands for it, else the input
/// buffer of the pad, if the site has one.
pub open spec fn pad_signal(fb: u32, mc: u32) -> Option<XC2ZIAInput> {
    if fb == 2 && mc == 0 {
        Some(XC2ZIAInput::DedicatedInput)
    } else {
        ibuf_signal(fb, mc)
    }
}

/// The input buffer of the pad of site `(fb, mc)`, if the site has one.
pub open spec fn ibuf_signal(fb: u32, mc: u32) -> Option<XC2ZIAInput> {
    match spec_fb_mc_num_to_iob_num(fb, mc) {
        Some(iob) => Some(XC2ZIAInput::IBuf { ibuf: iob as u16 }),
        None => None,
    }
}

/// The signal that an input of a product term needs from the ZIA, given
/// where its macrocell `mc` sits. A pin input comes from the pad. An XOR
/// input is the feedback of the macrocell. A register input is the
/// feedback of the macrocell too, unless the register is that of a
/// registered pin input or the feedback path is taken by the XOR output:
/// then it comes through the input buffer of the pad. `None` if the
/// device has no such signal.
pub open spec fn zia_choice(
    mc: &InputGraphMacrocell,
    fb: u32,
    i: u32,
    kind: InputGraphPTermInputType,
) -> Option<XC2ZIAInput> {
    match kind {
        InputGraphPTermInputType::Pin => pad_signal(fb, i),
        InputGraphPTermInputType::Xor => Some(XC2ZIAInput::Macrocell { fb: fb as u8, mc: i as u8 }),
        InputGraphPTermInputType::Reg => if mc.xor_feedback_used || mc.spec_get_type()
            == InputGraphMacrocellType::PinInputReg {
            ibuf_signal(fb, i)
        } else {
            Some(XC2ZIAInput::Macrocell { fb: fb as u8, mc: i as u8 })
        },
    }
}

/// The signal that input `x` needs, with the macrocells placed as `mcs`
/// says.
pub open spec fn input_choice(
    g: &InputGraph,
    mcs: Seq<OutputGraphMacrocell>,
    x: InputGraphPTermInput,
) -> Option<XC2ZIAInput> {
    let l = mcs[x.mc as int].loc.unwrap();
    zia_choice(&g.mcs@[x.mc as int], l.fb, l.i, x.kind)
}

/// The signals that the inputs `inputs` need.
pub open spec fn input_choices(
    g: &InputGraph,
    mcs: Seq<OutputGraphMacrocell>,
    inputs: Seq<InputGraphPTermInput>,
) -> Seq<Option<XC2ZIAInput>> {
    Seq::new(inputs.len(), |k: int| input_choice(g, mcs, inputs[k]))
}

/// Whether the rows `rows` route the first signals of `choices`: each
/// signal exists, its row offers it, and no two signals share a row.
pub open spec fn rows_valid(table: &ZIATable, choices: Seq<Option<XC2ZIAInput>>, rows: Seq<u32>) -> bool {
    &&& rows.len() <= choices.len()
    &&& forall|k: int|
        0 <= k < rows.len() ==> ((#[trigger] choices[k]) matches Some(c) && table.offers(
            rows[k] as int,
            c,
        ))
    &&& forall|j: int, k: int| 0 <= j < k < rows.len() ==> #[trigger] rows[j] != #[trigger] rows[k]
}

/// Whether `full` routes the first `n` signals validly and begins with
/// `prefix`.
pub open spec fn routes(
    table: &ZIATable,
    choices: Seq<Option<XC2ZIAInput>>,
    n: int,
    prefix: Seq<u32>,
    full: Seq<u32>,
) -> bool {
    &&& full.len() == n
    &&& prefix.len() <= n
    &&& rows_valid(table, choices, full)
    &&& full.subrange(0, prefix.len() as int) == prefix
}

/// Whether all of the signals `choices` can be routed.
pub open spec fn routable(table: &ZIATable, choices: Seq<Option<XC2ZIAInput>>) -> bool {
    exists|full: Seq<u32>| #[trigger] routes(table, choices, choices.len() as int, Seq::empty(), full)
}

/// Most distinct inputs that a netlist can hold: three for each of its
/// macrocells.
pub const MAX_FB_INPUTS: usize = 196605;

/// What an attempt to route the inputs of a block ended in.
#[derive(Copy, Clone, Debug)]
pub enum ZIAAssignmentResult {
    Success(PARZIAAssignment),
    /// The block needs this many inputs more than it has rows.
    FailureTooManyInputs(u32),
    /// This many inputs were left without a row.
    FailureUnroutable(u32),
}

/// An input with the signal it needs and the rows that offer it.
#[derive(Debug)]
pub struct ZIACandidate {
    pub input: InputGraphPTermInput,
    pub choice: Option<XC2ZIAInput>,
    pub rows: Vec<usize>,
}

/// Whether `cand` lists exactly the rows that offer its signal.
pub open spec fn candidate_ok(table: &ZIATable, cand: &ZIACandidate) -> bool {
    &&& forall|c: int|
        0 <= c < cand.rows@.len() ==> (#[trigger] cand.rows@[c]) < INPUTS_PER_ANDTERM && (
        cand.choice matches Some(x) && table.offers(cand.rows@[c] as int, x))
    &&& forall|r: int|
        0 <= r < INPUTS_PER_ANDTERM && cand.choice is Some && #[trigger] table.offers(
            r,
            cand.choice.unwrap(),
        ) ==> cand.rows@.contains(r as usize)
    &&& forall|c: int, d: int|
        0 <= c < d < cand.rows@.len() ==> #[trigger] cand.rows@[c] < #[trigger] cand.rows@[d]
}

/// Whether `a` comes before `b` in the order of the search: where the two
/// first differ, `a` has the lower row.
pub open spec fn routed_before(a: Seq<u32>, b: Seq<u32>) -> bool {
    exists|k: int|
        0 <= k < a.len() && k < b.len() && a.subrange(0, k) == b.subrange(0, k) && #[trigger] a[k]
            < b[k]
}

/// Whether `full` is the first of the routings of the first `n` signals
/// that begin with `prefix`, in the order of the search.
pub open spec fn first_routing(
    table: &ZIATable,
    choices: Seq<Option<XC2ZIAInput>>,
    n: int,
    prefix: Seq<u32>,
    full: Seq<u32>,
) -> bool {
    &&& routes(table, choices, n, prefix, full)
    &&& forall|other: Seq<u32>| #[trigger]
        routes(table, choices, n, prefix, other) ==> other == full || routed_before(full, other)
}

/// There is only one first routing.
pub proof fn lemma_first_routing_unique(
    table: &ZIATable,
    choices: Seq<Option<XC2ZIAInput>>,
    n: int,
    a: Seq<u32>,
    b: Seq<u32>,
)
    requires
        first_routing(table, choices, n, Seq::empty(), a),
        first_routing(table, choices, n, Seq::empty(), b),
    ensures
        a == b,
{
    if a != b {
        assert(routed_before(a, b));
        assert(routed_before(b, a));
        let k = choose|k: int|
            0 <= k < a.len() && k < b.len() && a.subrange(0, k) == b.subrange(0, k) && #[trigger] a[k]
                < b[k];
        let j = choose|j: int|
            0 <= j < b.len() && j < a.len() && b.subrange(0, j) == a.subrange(0, j) && #[trigger] b[j]
                < a[j];
        if k < j {
            assert(b.subrange(0, j)[k] == a.subrange(0, j)[k]);
        } else if j < k {
            assert(a.subrange(0, k)[j] == b.subrange(0, k)[j]);
        }
    }
}

/// The signals of the candidates.
pub open spec fn candidate_choices(cands: Seq<ZIACandidate>) -> Seq<Option<XC2ZIAInput>> {
    Seq::new(cands.len(), |k: int| cands[k].choice)
}

/// The state of the search: the rows taken so far hold the signals of
/// the inputs that took them, and every other row holds `One`.
pub open spec fn routing_inv(
    table: &ZIATable,
    choices: Seq<Option<XC2ZIAInput>>,
    chosen: Seq<u32>,
    zia: Seq<XC2ZIAInput>,
) -> bool {
    &&& zia.len() == INPUTS_PER_ANDTERM
    &&& rows_valid(table, choices, chosen)
    &&& forall|k: int|
        0 <= k < chosen.len() ==> (#[trigger] chosen[k]) < INPUTS_PER_ANDTERM && choices[k] == Some(
            zia[chosen[k] as int],
        )
    &&& forall|r: int|
        0 <= r < INPUTS_PER_ANDTERM && (forall|k: int|
            0 <= k < chosen.len() ==> #[trigger] chosen[k] != r) ==> #[trigger] zia[r]
            == XC2ZIAInput::One
}

/// A signal that a row of a well-formed table offers is not a constant.
pub proof fn lemma_offered_is_routed(table: &ZIATable, r: int, c: XC2ZIAInput)
    requires
        table.wf(),
        table.offers(r, c),
    ensures
        is_routed_input(c),
{
    let row = table.rows@[r]@;
    assert(row_wf(row, table.one_bits@, table.zero_bits@));
    lemma_row_find(row, c);
}

/// Whether signal `k` may take row `r` next to the rows `chosen`: the row
/// offers the signal and none of the signals before took it.
pub open spec fn row_free_for(
    table: &ZIATable,
    choices: Seq<Option<XC2ZIAInput>>,
    chosen: Seq<u32>,
    k: int,
    r: int,
) -> bool {
    &&& choices[k] matches Some(c) && table.offers(r, c)
    &&& forall|j: int| 0 <= j < chosen.len() ==> #[trigger] chosen[j] != r
}

/// The last of the rows below `upto` that signal `k` may take next to the
/// rows `chosen`; -1 where it may take none of them.
pub open spec fn last_row(
    table: &ZIATable,
    choices: Seq<Option<XC2ZIAInput>>,
    chosen: Seq<u32>,
    k: int,
    upto: int,
) -> int
    decreases upto,
{
    if upto <= 0 {
        -1
    } else if row_free_for(table, choices, chosen, k, upto - 1) {
        upto - 1
    } else {
        last_row(table, choices, chosen, k, upto - 1)
    }
}

/// How many of the first `n` signals have a row when each signal after
/// those of `chosen` takes the last row that it may take, until a signal
/// finds none. A search that tries the rows in order and fails makes its
/// last placement at the end of this chain.
pub open spec fn last_routed(
    table: &ZIATable,
    choices: Seq<Option<XC2ZIAInput>>,
    n: int,
    chosen: Seq<u32>,
) -> int
    decreases n - chosen.len(),
{
    let k = chosen.len() as int;
    if k >= n {
        k
    } else {
        let r = last_row(table, choices, chosen, k, INPUTS_PER_ANDTERM as int);
        if r < 0 {
            k
        } else {
            last_routed(table, choices, n, chosen.push(r as u32))
        }
    }
}

/// Rows that the signal may not take do not change which row is the last
/// that it may take.
proof fn lemma_last_row_skip(
    table: &ZIATable,
    choices: Seq<Option<XC2ZIAInput>>,
    chosen: Seq<u32>,
    k: int,
    a: int,
    b: int,
)
    requires
        0 <= a <= b,
        forall|r: int| a <= r < b ==> !#[trigger] row_free_for(table, choices, chosen, k, r),
    ensures
        last_row(table, choices, chosen, k, b) == last_row(table, choices, chosen, k, a),
    decreases b - a,
{
    if a < b {
        assert(!row_free_for(table, choices, chosen, k, b - 1));
        lemma_last_row_skip(table, choices, chosen, k, a, b - 1);
    }
}

/// Depth-first search for rows for the inputs, each trying its rows in
/// order. On success `chosen` holds a row for every input and `ret` the
/// signals; on failure both are as before, and no routing that begins
/// with `chosen` exists.
fn backtrack_zia(
    table: &ZIATable,
    cands: &Vec<ZIACandidate>,
    Ghost(choices): Ghost<Seq<Option<XC2ZIAInput>>>,
    ret: &mut PARZIAAssignment,
    chosen: &mut Vec<u32>,
    most_routed: &mut u32,
) -> (r: bool)
    requires
        table.wf(),
        choices == candidate_choices(cands@),
        cands@.len() <= INPUTS_PER_ANDTERM,
        forall|k: int| 0 <= k < cands@.len() ==> candidate_ok(table, #[trigger] &cands@[k]),
        routing_inv(table, choices, old(chosen)@, old(ret)@),
        old(chosen)@.len() <= cands@.len(),
        *old(most_routed) == old(chosen)@.len(),
    ensures
        r ==> first_routing(table, choices, cands@.len() as int, old(chosen)@, final(chosen)@),
        r ==> routing_inv(table, choices, final(chosen)@, final(ret)@),
        r ==> *final(most_routed) == cands@.len(),
        !r ==> final(chosen)@ == old(chosen)@ && final(ret)@ == old(ret)@ && *final(most_routed)
            < cands@.len(),
        !r ==> *final(most_routed) == last_routed(
            table,
            choices,
            cands@.len() as int,
            old(chosen)@,
        ),
        !r ==> forall|full: Seq<u32>|
            !#[trigger] routes(table, choices, cands@.len() as int, old(chosen)@, full),
    decreases cands@.len() - old(chosen)@.len(),
{
    let idx = chosen.len();
    let n = cands.len();
    if idx == n {
        proof {
            assert(chosen@.subrange(0, chosen@.len() as int) == chosen@);
            assert forall|other: Seq<u32>| #[trigger]
                routes(table, choices, n as int, chosen@, other) implies other == chosen@ by {
                assert(other.subrange(0, n as int) =~= other);
            }
        }
        return true;
    }
    let cand = &cands[idx];
    assert(candidate_ok(table, &cands@[idx as int]));
    assert(choices[idx as int] == cand.choice);
    let choice = match cand.choice {
        Some(c) => c,
        None => {
            // the device has no such signal: nothing routes this input
            proof {
                lemma_last_row_skip(table, choices, chosen@, idx as int, 0, INPUTS_PER_ANDTERM as int);
            }
            return false;
        },
    };
    let rows = &cand.rows;
    let mut ci: usize = 0;
    let ghost lo: int = 0;
    while ci < rows.len()
        invariant
            ci <= rows@.len(),
            0 <= lo <= INPUTS_PER_ANDTERM,
            forall|c: int| 0 <= c < ci ==> #[trigger] rows@[c] < lo,
            forall|c: int| ci <= c < rows@.len() ==> #[trigger] rows@[c] >= lo,
            *most_routed == (if last_row(table, choices, chosen@, idx as int, lo) < 0 {
                idx as int
            } else {
                last_routed(
                    table,
                    choices,
                    n as int,
                    chosen@.push(last_row(table, choices, chosen@, idx as int, lo) as u32),
                )
            }),
            idx < n,
            n == cands@.len(),
            n <= INPUTS_PER_ANDTERM,
            idx == old(chosen)@.len(),
            table.wf(),
            choices == candidate_choices(cands@),
            forall|k: int| 0 <= k < cands@.len() ==> candidate_ok(table, #[trigger] &cands@[k]),
            cand == &cands@[idx as int],
            rows@ == cand.rows@,
            cand.choice == Some(choice),
            chosen@ == old(chosen)@,
            ret@ == old(ret)@,
            routing_inv(table, choices, chosen@, ret@),
            *most_routed < n,
            forall|c: int, full: Seq<u32>|
                0 <= c < ci && #[trigger] routes(table, choices, n as int, old(chosen)@, full)
                    ==> full[idx as int] != #[trigger] rows@[c],
        decreases rows@.len() - ci,
    {
        let row = rows[ci];
        assert(candidate_ok(table, cand));
        assert(cand.rows@[ci as int] < INPUTS_PER_ANDTERM);
        proof {
            // no row between the last one tried and this one offers the signal
            assert forall|r: int| lo <= r < row implies !#[trigger] row_free_for(
                table,
                choices,
                chosen@,
                idx as int,
                r,
            ) by {
                if table.offers(r, choice) {
                    assert(rows@.contains(r as usize));
                    let c = choose|c: int| 0 <= c < rows@.len() && rows@[c] == r as usize;
                    assert(rows@[c] < lo || rows@[c] >= rows@[ci as int]);
                }
            }
            lemma_last_row_skip(table, choices, chosen@, idx as int, lo, row as int);
        }
        if ret.get(row) == XC2ZIAInput::One {
            let ghost zia0 = ret@;
            proof {
                lemma_offered_is_routed(table, row as int, choice);
                // the row is free: no input has taken it
                assert forall|k: int| 0 <= k < chosen@.len() implies #[trigger] chosen@[k]
                    != row by {
                    if chosen@[k] == row {
                        assert(choices[k] == Some(zia0[chosen@[k] as int]));
                        let c = choices[k].unwrap();
                        assert(table.offers(chosen@[k] as int, c));
                        lemma_offered_is_routed(table, chosen@[k] as int, c);
                    }
                }
            }
            ret.set(row, choice);
            chosen.push(row as u32);
            *most_routed = idx as u32 + 1;
            let ghost pushed = chosen@;
            proof {
                lemma_push_row(table, choices, old(chosen)@, zia0, row as u32, choice);
            }
            if backtrack_zia(table, cands, Ghost(choices), ret, chosen, most_routed) {
                proof {
                    let fin = chosen@;
                    assert(fin.subrange(0, idx as int) =~= old(chosen)@) by {
                        assert(fin.subrange(0, pushed.len() as int) == pushed);
                        assert forall|i: int| 0 <= i < idx implies fin[i] == old(chosen)@[i] by {
                            assert(fin.subrange(0, pushed.len() as int)[i] == pushed[i]);
                        }
                    }
                    assert(fin[idx as int] == row) by {
                        assert(fin.subrange(0, pushed.len() as int)[idx as int] == pushed[idx as int]);
                    }
                    assert forall|other: Seq<u32>| #[trigger]
                        routes(table, choices, n as int, old(chosen)@, other) implies other == fin
                        || routed_before(fin, other) by {
                        lemma_later_routing(
                            table,
                            choices,
                            n as int,
                            old(chosen)@,
                            fin,
                            other,
                            cand,
                            ci as int,
                        );
                    }
                }
                return true;
            }
            ret.set(row, XC2ZIAInput::One);
            chosen.pop();
            proof {
                assert(chosen@ =~= old(chosen)@);
                assert(ret@ =~= old(ret)@);
                assert(row_free_for(table, choices, chosen@, idx as int, row as int));
                assert(last_row(table, choices, chosen@, idx as int, row + 1) == row);
                assert(pushed == chosen@.push(row as u32));
                assert forall|full: Seq<u32>| #[trigger]
                    routes(table, choices, n as int, old(chosen)@, full) implies full[idx as int]
                    != row by {
                    if full[idx as int] == row {
                        assert(full.subrange(0, idx as int + 1) =~= old(chosen)@.push(row as u32)) by {
                            assert forall|i: int| 0 <= i < idx implies full[i] == old(chosen)@[i] by {
                                assert(full.subrange(0, idx as int)[i] == old(chosen)@[i]);
                            }
                        }
                        assert(routes(table, choices, n as int, pushed, full));
                    }
                }
            }
        } else {
            proof {
                assert(!row_free_for(table, choices, chosen@, idx as int, row as int)) by {
                    if forall|k: int| 0 <= k < chosen@.len() ==> #[trigger] chosen@[k] != row {
                        assert(ret@[row as int] == XC2ZIAInput::One);
                    }
                }
                assert(last_row(table, choices, chosen@, idx as int, row + 1) == last_row(
                    table,
                    choices,
                    chosen@,
                    idx as int,
                    row as int,
                ));
                // the row is taken by an earlier input
                assert forall|full: Seq<u32>| #[trigger]
                    routes(table, choices, n as int, old(chosen)@, full) implies full[idx as int]
                    != row by {
                    if full[idx as int] == row {
                        if forall|k: int| 0 <= k < chosen@.len() ==> #[trigger] chosen@[k] != row {
                            assert(ret@[row as int] == XC2ZIAInput::One);
                        } else {
                            let k = choose|k: int| 0 <= k < chosen@.len() && chosen@[k] == row;
                            assert(full.subrange(0, idx as int)[k] == chosen@[k]);
                            assert(full[k] == full[idx as int]);
                        }
                    }
                }
            }
        }
        proof {
            assert forall|c: int| ci < c < rows@.len() implies #[trigger] rows@[c] >= row + 1 by {
                assert(rows@[ci as int] < rows@[c]);
            }
            lo = row + 1;
        }
        ci += 1;
    }
    proof {
        assert forall|r: int| lo <= r < INPUTS_PER_ANDTERM implies !#[trigger] row_free_for(
            table,
            choices,
            chosen@,
            idx as int,
            r,
        ) by {
            if table.offers(r, choice) {
                assert(rows@.contains(r as usize));
                let c = choose|c: int| 0 <= c < rows@.len() && rows@[c] == r as usize;
                assert(rows@[c] < lo);
            }
        }
        lemma_last_row_skip(table, choices, chosen@, idx as int, lo, INPUTS_PER_ANDTERM as int);
        assert forall|full: Seq<u32>| !#[trigger] routes(
            table,
            choices,
            n as int,
            old(chosen)@,
            full,
        ) by {
            if routes(table, choices, n as int, old(chosen)@, full) {
                let r = full[idx as int];
                assert(choices[idx as int] matches Some(c) && table.offers(r as int, c));
                assert(table.offers(r as int, choice));
                assert(rows@.contains(r as usize));
                let c = choose|c: int| 0 <= c < rows@.len() && rows@[c] == r as usize;
                assert(full[idx as int] != rows@[c]);
            }
        }
    }
    false
}

/// A routing that begins like the routing `fin` that the search found,
/// and whose next row none of the rows tried before is, is `fin` or comes
/// after it.
proof fn lemma_later_routing(
    table: &ZIATable,
    choices: Seq<Option<XC2ZIAInput>>,
    n: int,
    prefix: Seq<u32>,
    fin: Seq<u32>,
    other: Seq<u32>,
    cand: &ZIACandidate,
    ci: int,
)
    requires
        table.wf(),
        candidate_ok(table, cand),
        prefix.len() < n,
        n <= choices.len(),
        choices[prefix.len() as int] == cand.choice,
        0 <= ci < cand.rows@.len(),
        fin.len() == n,
        fin.subrange(0, prefix.len() as int) == prefix,
        fin[prefix.len() as int] == cand.rows@[ci],
        routes(table, choices, n, prefix, other),
        forall|c: int| 0 <= c < ci ==> other[prefix.len() as int] != #[trigger] cand.rows@[c],
        forall|x: Seq<u32>| #[trigger]
            routes(table, choices, n, prefix.push(cand.rows@[ci] as u32), x) ==> x == fin
                || routed_before(fin, x),
    ensures
        other == fin || routed_before(fin, other),
{
    let idx = prefix.len() as int;
    let r = other[idx];
    assert(choices[idx] matches Some(c) && table.offers(r as int, c));
    assert(table.offers(r as int, cand.choice.unwrap()));
    assert(0 <= r < INPUTS_PER_ANDTERM);
    assert(cand.rows@.contains(r as usize));
    let c = choose|c: int| 0 <= c < cand.rows@.len() && cand.rows@[c] == r as usize;
    if c == ci {
        assert(other.subrange(0, idx + 1) =~= prefix.push(cand.rows@[ci] as u32)) by {
            assert forall|i: int| 0 <= i < idx implies other[i] == prefix[i] by {
                assert(other.subrange(0, idx)[i] == prefix[i]);
            }
        }
        assert(routes(table, choices, n, prefix.push(cand.rows@[ci] as u32), other));
    } else {
        assert(c > ci);
        assert(cand.rows@[ci] < cand.rows@[c]);
        assert(fin.subrange(0, idx) == other.subrange(0, idx));
        assert(fin[idx] < other[idx]);
    }
}

/// Giving the next input a free row that offers its signal keeps the
/// state of the search.
proof fn lemma_push_row(
    table: &ZIATable,
    choices: Seq<Option<XC2ZIAInput>>,
    chosen: Seq<u32>,
    zia: Seq<XC2ZIAInput>,
    row: u32,
    choice: XC2ZIAInput,
)
    requires
        routing_inv(table, choices, chosen, zia),
        chosen.len() < choices.len(),
        choices[chosen.len() as int] == Some(choice),
        row < INPUTS_PER_ANDTERM,
        table.offers(row as int, choice),
        forall|k: int| 0 <= k < chosen.len() ==> #[trigger] chosen[k] != row,
    ensures
        routing_inv(table, choices, chosen.push(row), zia.update(row as int, choice)),
{
    let next = chosen.push(row);
    let zia2 = zia.update(row as int, choice);
    assert forall|k: int| 0 <= k < next.len() implies ((#[trigger] choices[k]) matches Some(c)
        && table.offers(next[k] as int, c)) by {
        if k < chosen.len() {
            assert(next[k] == chosen[k]);
        }
    }
    assert forall|j: int, k: int| 0 <= j < k < next.len() implies #[trigger] next[j]
        != #[trigger] next[k] by {
        if k < chosen.len() {
            assert(chosen[j] != chosen[k]);
        } else {
            assert(chosen[j] != row);
        }
    }
    assert forall|k: int| 0 <= k < next.len() implies (#[trigger] next[k]) < INPUTS_PER_ANDTERM
        && choices[k] == Some(zia2[next[k] as int]) by {
        if k < chosen.len() {
            assert(next[k] == chosen[k]);
            assert(chosen[k] != row);
        }
    }
    assert forall|r: int|
        0 <= r < INPUTS_PER_ANDTERM && (forall|k: int|
            0 <= k < next.len() ==> #[trigger] next[k] != r) implies #[trigger] zia2[r]
        == XC2ZIAInput::One by {
        assert(next[chosen.len() as int] == row);
        assert(r != row);
        assert forall|k: int| 0 <= k < chosen.len() implies #[trigger] chosen[k] != r by {
            assert(next[k] == chosen[k]);
        }
    }
}

/// What `add_inputs` keeps and adds: the result begins with `acc`, holds
/// exactly what `acc` or the first `n` of `xs` hold, and repeats nothing
/// if `acc` repeats nothing.
pub proof fn lemma_add_inputs(
    acc: Seq<InputGraphPTermInput>,
    xs: Seq<InputGraphPTermInput>,
    n: int,
)
    requires
        0 <= n <= xs.len(),
    ensures
        add_inputs(acc, xs, n).len() >= acc.len(),
        add_inputs(acc, xs, n).len() <= acc.len() + n,
        forall|x: InputGraphPTermInput| #[trigger]
            add_inputs(acc, xs, n).contains(x) <==> acc.contains(x) || exists|j: int|
                0 <= j < n && xs[j] == x,
        acc.no_duplicates() ==> add_inputs(acc, xs, n).no_duplicates(),
    decreases n,
{
    if n > 0 {
        lemma_add_inputs(acc, xs, n - 1);
        let r = add_inputs(acc, xs, n - 1);
        let r2 = add_inputs(acc, xs, n);
        assert forall|x: InputGraphPTermInput| #[trigger]
            r2.contains(x) <==> acc.contains(x) || exists|j: int| 0 <= j < n && xs[j] == x by {
            if r2.contains(x) {
                if !r.contains(x) {
                    let i = choose|i: int| 0 <= i < r2.len() && r2[i] == x;
                    if i < r.len() {
                        assert(r[i] == x);
                    }
                    assert(x == xs[n - 1]);
                }
            }
            if acc.contains(x) || exists|j: int| 0 <= j < n && xs[j] == x {
                if r.contains(x) {
                    let i = choose|i: int| 0 <= i < r.len() && r[i] == x;
                    assert(r2[i] == x);
                } else {
                    assert(x == xs[n - 1]);
                    assert(r2[r.len() as int] == x);
                }
            }
        }
        if acc.no_duplicates() && !r.contains(xs[n - 1]) {
            assert forall|i: int, j: int| 0 <= i < r2.len() && 0 <= j < r2.len() && i != j
                implies r2[i] != r2[j] by {
                if i < r.len() && j < r.len() {
                    assert(r[i] != r[j]);
                } else if i < r.len() {
                    assert(r.contains(r[i]));
                } else {
                    assert(r.contains(r[j]));
                }
            }
        }
    }
}

/// The inputs collected from product terms repeat nothing, and hold
/// every input of every product term they were collected from.
pub proof fn lemma_collect_inputs(g: &InputGraph, pts: Seq<usize>, n: int)
    requires
        0 <= n <= pts.len(),
    ensures
        collect_inputs(g, pts, n).no_duplicates(),
        forall|m: int, j: int|
            #![trigger g.pterms@[pts[m] as int].inputs_true@[j]]
            0 <= m < n && 0 <= j < g.pterms@[pts[m] as int].inputs_true@.len() ==> collect_inputs(
                g,
                pts,
                n,
            ).contains(g.pterms@[pts[m] as int].inputs_true@[j]),
        forall|m: int, j: int|
            #![trigger g.pterms@[pts[m] as int].inputs_comp@[j]]
            0 <= m < n && 0 <= j < g.pterms@[pts[m] as int].inputs_comp@.len() ==> collect_inputs(
                g,
                pts,
                n,
            ).contains(g.pterms@[pts[m] as int].inputs_comp@[j]),
        forall|x: InputGraphPTermInput| #[trigger]
            collect_inputs(g, pts, n).contains(x) ==> exists|m: int|
                0 <= m < n && (g.pterms@[pts[m] as int].inputs_true@.contains(x)
                    || g.pterms@[pts[m] as int].inputs_comp@.contains(x)),
    decreases n,
{
    if n > 0 {
        lemma_collect_inputs(g, pts, n - 1);
        let acc = collect_inputs(g, pts, n - 1);
        let pt = &g.pterms@[pts[n - 1] as int];
        let mid = add_inputs(acc, pt.inputs_true@, pt.inputs_true@.len() as int);
        let fin = add_inputs(mid, pt.inputs_comp@, pt.inputs_comp@.len() as int);
        lemma_add_inputs(acc, pt.inputs_true@, pt.inputs_true@.len() as int);
        lemma_add_inputs(mid, pt.inputs_comp@, pt.inputs_comp@.len() as int);
        assert(fin == collect_inputs(g, pts, n));
        assert forall|m: int, j: int|
            #![trigger g.pterms@[pts[m] as int].inputs_true@[j]]
            0 <= m < n && 0 <= j < g.pterms@[pts[m] as int].inputs_true@.len()
            implies fin.contains(g.pterms@[pts[m] as int].inputs_true@[j]) by {
            let x = g.pterms@[pts[m] as int].inputs_true@[j];
            if m < n - 1 {
                assert(acc.contains(x));
            }
            assert(mid.contains(x));
        }
        assert forall|m: int, j: int|
            #![trigger g.pterms@[pts[m] as int].inputs_comp@[j]]
            0 <= m < n && 0 <= j < g.pterms@[pts[m] as int].inputs_comp@.len()
            implies fin.contains(g.pterms@[pts[m] as int].inputs_comp@[j]) by {
            let x = g.pterms@[pts[m] as int].inputs_comp@[j];
            if m < n - 1 {
                assert(acc.contains(x));
                assert(mid.contains(x));
            }
        }
        assert forall|x: InputGraphPTermInput| #[trigger] fin.contains(x) implies exists|m: int|
            0 <= m < n && (g.pterms@[pts[m] as int].inputs_true@.contains(x)
                || g.pterms@[pts[m] as int].inputs_comp@.contains(x)) by {
            if mid.contains(x) {
                if acc.contains(x) {
                    let m = choose|m: int|
                        0 <= m < n - 1 && (g.pterms@[pts[m] as int].inputs_true@.contains(x)
                            || g.pterms@[pts[m] as int].inputs_comp@.contains(x));
                    assert(0 <= m < n);
                } else {
                    assert(pt.inputs_true@.contains(x));
                }
            } else {
                assert(pt.inputs_comp@.contains(x));
            }
        }
    }
}

/// Whether the rows `rows` carry the signals of the inputs `xs`, one row
/// per input, in order.
pub open spec fn rows_carry(
    g: &InputGraph,
    mcs: Seq<OutputGraphMacrocell>,
    xs: Seq<InputGraphPTermInput>,
    rows: Seq<u32>,
    zia: Seq<XC2ZIAInput>,
) -> bool {
    &&& rows.len() == xs.len()
    &&& forall|j: int|
        0 <= j < xs.len() ==> (#[trigger] rows[j]) < INPUTS_PER_ANDTERM && Some(zia[rows[j] as int])
            == input_choice(g, mcs, xs[j])
}

/// Whether the rows recorded for a product term carry the signals of its
/// true and of its complemented inputs.
pub open spec fn pterm_rows_ok(
    g: &InputGraph,
    mcs: Seq<OutputGraphMacrocell>,
    pt: &InputGraphPTerm,
    out: &OutputGraphPTerm,
    zia: Seq<XC2ZIAInput>,
) -> bool {
    &&& rows_carry(g, mcs, pt.inputs_true@, out.inputs_true_zia@, zia)
    &&& rows_carry(g, mcs, pt.inputs_comp@, out.inputs_comp_zia@, zia)
}

/// What a successful routing leaves: every product term of the block has
/// rows that carry its inputs, no other product term changed, and every
/// row that is not `One` is offered by the table and carries an input of
/// the block.
pub open spec fn zia_routed(
    g: &InputGraph,
    table: &ZIATable,
    mcs: Seq<OutputGraphMacrocell>,
    before: Seq<OutputGraphPTerm>,
    after: Seq<OutputGraphPTerm>,
    pts: Seq<usize>,
    inputs: Seq<InputGraphPTermInput>,
    zia: Seq<XC2ZIAInput>,
) -> bool {
    &&& zia.len() == INPUTS_PER_ANDTERM
    &&& after.len() == before.len()
    &&& forall|m: int|
        0 <= m < pts.len() ==> pterm_rows_ok(
            g,
            mcs,
            &g.pterms@[(#[trigger] pts[m]) as int],
            &after[pts[m] as int],
            zia,
        )
    &&& forall|q: int|
        0 <= q < before.len() && (forall|m: int| 0 <= m < pts.len() ==> #[trigger] pts[m] != q)
            ==> #[trigger] after[q] == before[q]
    &&& forall|r: int|
        0 <= r < INPUTS_PER_ANDTERM && #[trigger] zia[r] != XC2ZIAInput::One ==> table.offers(
            r,
            zia[r],
        ) && exists|k: int|
            0 <= k < inputs.len() && Some(zia[r]) == input_choice(g, mcs, #[trigger] inputs[k])
}

/// Whether `out` holds, for each of the inputs `xs` in order, the row
/// that the routing `rows` gives it.
pub open spec fn recorded(
    inputs: Seq<InputGraphPTermInput>,
    rows: Seq<u32>,
    xs: Seq<InputGraphPTermInput>,
    out: Seq<u32>,
) -> bool {
    &&& out.len() == xs.len()
    &&& forall|j: int| 0 <= j < xs.len() ==> row_of_input(inputs, rows, xs[j], #[trigger] out[j])
}

/// Whether the ZIA assignment `zia` and the rows of the product terms
/// `pts` are those of the routing `rows` of the inputs `inputs`: a row
/// that the routing gives to an input holds the signal of the input, every
/// other row holds `One`, and every product term has the rows of its
/// inputs.
pub open spec fn routed_by(
    g: &InputGraph,
    table: &ZIATable,
    mcs: Seq<OutputGraphMacrocell>,
    after: Seq<OutputGraphPTerm>,
    pts: Seq<usize>,
    inputs: Seq<InputGraphPTermInput>,
    zia: Seq<XC2ZIAInput>,
    rows: Seq<u32>,
) -> bool {
    &&& rows.len() == inputs.len()
    &&& routing_inv(table, input_choices(g, mcs, inputs), rows, zia)
    &&& forall|m: int|
        0 <= m < pts.len() ==> recorded(
            inputs,
            rows,
            g.pterms@[(#[trigger] pts[m]) as int].inputs_true@,
            after[pts[m] as int].inputs_true_zia@,
        ) && recorded(
            inputs,
            rows,
            g.pterms@[pts[m] as int].inputs_comp@,
            after[pts[m] as int].inputs_comp_zia@,
        )
}

/// Everything in the output graph but the ZIA rows of product terms is
/// as before.
pub open spec fn only_pterm_rows_differ(before: &OutputGraph, after: &OutputGraph) -> bool {
    &&& after.mcs == before.mcs
    &&& after.bufg_clks == before.bufg_clks
    &&& after.bufg_gts == before.bufg_gts
    &&& after.bufg_gsr == before.bufg_gsr
    &&& after.zia == before.zia
    &&& after.pterms@.len() == before.pterms@.len()
    &&& forall|q: int|
        0 <= q < before.pterms@.len() ==> (#[trigger] after.pterms@[q]).loc == before.pterms@[q].loc
}

/// Appends `p` to `pts` if there is one.
fn push_opt(pts: &mut Vec<usize>, p: Option<usize>)
    ensures
        final(pts)@ == old(pts)@ + opt_seq(p),
{
    match p {
        Some(x) => {
            pts.push(x);
            assert(pts@ =~= old(pts)@ + opt_seq(p));
        },
        None => {
            assert(pts@ =~= old(pts)@ + opt_seq(p));
        },
    }
}

/// Appends `more` to `pts`.
fn push_all(pts: &mut Vec<usize>, more: &Vec<usize>)
    ensures
        final(pts)@ == old(pts)@ + more@,
{
    let mut j: usize = 0;
    while j < more.len()
        invariant
            j <= more@.len(),
            pts@ == old(pts)@ + more@.subrange(0, j as int),
        decreases more@.len() - j,
    {
        pts.push(more[j]);
        assert(more@.subrange(0, j as int + 1) =~= more@.subrange(0, j as int).push(more@[j as int]));
        j += 1;
    }
    assert(more@.subrange(0, j as int) =~= more@);
}

/// Appends the product terms that feed the OR term of `mc`.
fn push_or_inputs(pts: &mut Vec<usize>, mc: &InputGraphMacrocell)
    ensures
        final(pts)@ == old(pts)@ + or_inputs(mc),
{
    match &mc.xor_bits {
        Some(x) => {
            push_all(pts, &x.orterm_inputs);
        },
        None => {
            assert(pts@ =~= old(pts)@ + or_inputs(mc));
        },
    }
}

/// Appends the product terms that `mc` uses.
fn push_mc_pterms(pts: &mut Vec<usize>, mc: &InputGraphMacrocell)
    ensures
        final(pts)@ == old(pts)@ + mc_pterms(mc),
{
    let ghost before = pts@;
    push_opt(pts, crate::andterms::oe_pterm_exec(mc));
    push_opt(pts, crate::andterms::xor_pterm_exec(mc));
    push_or_inputs(pts, mc);
    push_opt(pts, crate::andterms::ce_pterm_exec(mc));
    push_opt(pts, crate::andterms::clk_pterm_exec(mc));
    push_opt(pts, crate::andterms::set_pterm_exec(mc));
    push_opt(pts, crate::andterms::reset_pterm_exec(mc));
    assert(pts@ =~= before + mc_pterms(mc));
}

/// Whether every product term of `s` exists.
pub open spec fn pterms_exist(g: &InputGraph, s: Seq<usize>) -> bool {
    forall|m: int| 0 <= m < s.len() ==> #[trigger] s[m] < g.pterms@.len()
}

/// Two lists of product terms that exist make one such list.
proof fn lemma_exist_concat(g: &InputGraph, a: Seq<usize>, b: Seq<usize>)
    requires
        pterms_exist(g, a),
        pterms_exist(g, b),
    ensures
        pterms_exist(g, a + b),
{
    assert forall|m: int| 0 <= m < (a + b).len() implies #[trigger] (a + b)[m] < g.pterms@.len() by {
        if m < a.len() {
            assert((a + b)[m] == a[m]);
        } else {
            assert((a + b)[m] == b[m - a.len()]);
        }
    }
}

/// The product terms that a macrocell uses exist.
proof fn lemma_mc_pterms_ok(g: &InputGraph, mc: &InputGraphMacrocell)
    requires
        g.mc_refs_ok(mc),
    ensures
        pterms_exist(g, mc_pterms(mc)),
{
    lemma_special_refs(g, mc);
    let a1 = opt_seq(oe_pterm(mc));
    let a2 = a1 + opt_seq(xor_pterm(mc));
    let a3 = a2 + or_inputs(mc);
    let a4 = a3 + opt_seq(ce_pterm(mc));
    let a5 = a4 + opt_seq(clk_pterm(mc));
    let a6 = a5 + opt_seq(set_pterm(mc));
    lemma_exist_concat(g, a1, opt_seq(xor_pterm(mc)));
    lemma_exist_concat(g, a2, or_inputs(mc));
    lemma_exist_concat(g, a3, opt_seq(ce_pterm(mc)));
    lemma_exist_concat(g, a4, opt_seq(clk_pterm(mc)));
    lemma_exist_concat(g, a5, opt_seq(set_pterm(mc)));
    lemma_exist_concat(g, a6, opt_seq(reset_pterm(mc)));
}

/// The product terms of a block exist.
pub proof fn lemma_fb_pterms_ok(g: &InputGraph, a: Seq<(PARMCAssignment, PARMCAssignment)>, n: int)
    requires
        g.wf(),
        block_refs_ok(g, a),
        0 <= n <= MCS_PER_FB,
    ensures
        pterms_exist(g, fb_pterms(g, a, n)),
    decreases n,
{
    if n > 0 {
        lemma_fb_pterms_ok(g, a, n - 1);
        match logic_mc(a, n - 1) {
            Some(m) => {
                let mc = &g.mcs@[m as int];
                assert(g.mc_refs_ok(mc));
                lemma_mc_pterms_ok(g, mc);
                lemma_exist_concat(g, fb_pterms(g, a, n - 1), mc_pterms(mc));
            },
            None => {
                assert(fb_pterms(g, a, n) =~= fb_pterms(g, a, n - 1));
            },
        }
    }
}

/// Collects the product terms that a block uses.
fn gather_pterms(g: &InputGraph, mc_assignment: &PARFBAssignment) -> (r: Vec<usize>)
    requires
        g.wf(),
        block_refs_ok(g, mc_assignment@),
    ensures
        r@ == fb_pterms(g, mc_assignment@, MCS_PER_FB as int),
        pterms_exist(g, r@),
{
    let mut pts: Vec<usize> = Vec::new();
    let mut mc_i: usize = 0;
    while mc_i < MCS_PER_FB
        invariant
            mc_i <= MCS_PER_FB,
            block_refs_ok(g, mc_assignment@),
            pts@ == fb_pterms(g, mc_assignment@, mc_i as int),
        decreases MCS_PER_FB - mc_i,
    {
        assert(logic_mc(mc_assignment@, mc_i as int) is Some ==> logic_mc(
            mc_assignment@,
            mc_i as int,
        ).unwrap() < g.mcs@.len());
        if let PARMCAssignment::MC(mc_g_idx) = mc_assignment[mc_i].0 {
            push_mc_pterms(&mut pts, &g.mcs[mc_g_idx]);
        } else {
            assert(pts@ =~= fb_pterms(g, mc_assignment@, mc_i as int + 1));
        }
        mc_i += 1;
    }
    proof {
        lemma_fb_pterms_ok(g, mc_assignment@, MCS_PER_FB as int);
    }
    pts
}

/// Appends to `acc` the inputs of `xs` that it does not hold yet.
fn add_inputs_exec(acc: &mut Vec<InputGraphPTermInput>, xs: &Vec<InputGraphPTermInput>)
    ensures
        final(acc)@ == add_inputs(old(acc)@, xs@, xs@.len() as int),
{
    let mut j: usize = 0;
    while j < xs.len()
        invariant
            j <= xs@.len(),
            acc@ == add_inputs(old(acc)@, xs@, j as int),
        decreases xs@.len() - j,
    {
        if !crate::netlist::inputs_contain(acc, xs[j]) {
            acc.push(xs[j]);
        }
        j += 1;
    }
}

/// Collects the distinct inputs of the product terms `pts`.
fn gather_inputs(g: &InputGraph, pts: &Vec<usize>) -> (r: Vec<InputGraphPTermInput>)
    requires
        pterms_exist(g, pts@),
    ensures
        r@ == collect_inputs(g, pts@, pts@.len() as int),
{
    let mut acc: Vec<InputGraphPTermInput> = Vec::new();
    let mut m: usize = 0;
    while m < pts.len()
        invariant
            m <= pts@.len(),
            pterms_exist(g, pts@),
            acc@ == collect_inputs(g, pts@, m as int),
        decreases pts@.len() - m,
    {
        let pt = &g.pterms[pts[m]];
        add_inputs_exec(&mut acc, &pt.inputs_true);
        add_inputs_exec(&mut acc, &pt.inputs_comp);
        m += 1;
    }
    acc
}

/// The signal that an input of kind `kind` of macrocell `mc` needs when
/// the macrocell sits on site `(fb, i)`.
fn zia_choice_exec(mc: &InputGraphMacrocell, fb: u32, i: u32, kind: InputGraphPTermInputType) -> (r:
    Option<XC2ZIAInput>)
    requires
        fb < NUM_LOC_FBS,
        i < MCS_PER_FB,
    ensures
        r == zia_choice(mc, fb, i, kind),
{
    let ibuf = match fb_mc_num_to_iob_num(fb, i) {
        Some(iob) => Some(XC2ZIAInput::IBuf { ibuf: iob as u16 }),
        None => None,
    };
    match kind {
        InputGraphPTermInputType::Pin => {
            if fb == 2 && i == 0 {
                Some(XC2ZIAInput::DedicatedInput)
            } else {
                ibuf
            }
        },
        InputGraphPTermInputType::Xor => Some(XC2ZIAInput::Macrocell { fb: fb as u8, mc: i as u8 }),
        InputGraphPTermInputType::Reg => {
            if mc.xor_feedback_used || mc.get_type() == InputGraphMacrocellType::PinInputReg {
                ibuf
            } else {
                Some(XC2ZIAInput::Macrocell { fb: fb as u8, mc: i as u8 })
            }
        },
    }
}

/// Finds where `x` stands in `inputs`.
fn index_of(inputs: &Vec<InputGraphPTermInput>, x: InputGraphPTermInput) -> (r: usize)
    requires
        inputs@.contains(x),
    ensures
        r < inputs@.len(),
        inputs@[r as int] == x,
{
    let mut k: usize = 0;
    while k < inputs.len()
        invariant
            k <= inputs@.len(),
            forall|j: int| 0 <= j < k ==> inputs@[j] != x,
        decreases inputs@.len() - k,
    {
        if inputs[k] == x {
            return k;
        }
        k += 1;
    }
    proof {
        let j = choose|j: int| 0 <= j < inputs@.len() && inputs@[j] == x;
        assert(inputs@[j] != x);
    }
    0
}

/// Whether `row` is the row chosen for input `x`.
pub open spec fn row_of_input(
    inputs: Seq<InputGraphPTermInput>,
    chosen: Seq<u32>,
    x: InputGraphPTermInput,
    row: u32,
) -> bool {
    exists|k: int| 0 <= k < inputs.len() && #[trigger] inputs[k] == x && chosen[k] == row
}

/// The rows of the inputs `xs`, in order.
fn rows_for(
    inputs: &Vec<InputGraphPTermInput>,
    chosen: &Vec<u32>,
    xs: &Vec<InputGraphPTermInput>,
) -> (r: Vec<u32>)
    requires
        chosen@.len() == inputs@.len(),
        forall|j: int| 0 <= j < xs@.len() ==> inputs@.contains(#[trigger] xs@[j]),
    ensures
        r@.len() == xs@.len(),
        forall|j: int|
            0 <= j < xs@.len() ==> row_of_input(inputs@, chosen@, xs@[j], #[trigger] r@[j]),
{
    let mut r: Vec<u32> = Vec::new();
    let mut j: usize = 0;
    while j < xs.len()
        invariant
            j <= xs@.len(),
            chosen@.len() == inputs@.len(),
            forall|j: int| 0 <= j < xs@.len() ==> inputs@.contains(#[trigger] xs@[j]),
            r@.len() == j,
            forall|i: int| 0 <= i < j ==> row_of_input(inputs@, chosen@, xs@[i], #[trigger] r@[i]),
        decreases xs@.len() - j,
    {
        assert(inputs@.contains(xs@[j as int]));
        let k = index_of(inputs, xs[j]);
        r.push(chosen[k]);
        assert(inputs@[k as int] == xs@[j as int] && chosen@[k as int] == r@[j as int]);
        j += 1;
    }
    r
}

/// The inputs of a block refer to macrocells that exist.
proof fn lemma_inputs_exist(g: &InputGraph, pts: Seq<usize>)
    requires
        g.wf(),
        pterms_exist(g, pts),
    ensures
        forall|k: int|
            0 <= k < collect_inputs(g, pts, pts.len() as int).len() ==> (#[trigger] collect_inputs(
                g,
                pts,
                pts.len() as int,
            )[k]).mc < g.mcs@.len(),
{
    let inputs = collect_inputs(g, pts, pts.len() as int);
    lemma_collect_inputs(g, pts, pts.len() as int);
    assert forall|k: int| 0 <= k < inputs.len() implies (#[trigger] inputs[k]).mc < g.mcs@.len() by {
        let x = inputs[k];
        assert(inputs.contains(x));
        let m = choose|m: int|
            0 <= m < pts.len() && (g.pterms@[pts[m] as int].inputs_true@.contains(x)
                || g.pterms@[pts[m] as int].inputs_comp@.contains(x));
        let pt = &g.pterms@[pts[m] as int];
        assert(g.pterm_refs_ok(pt));
        if pt.inputs_true@.contains(x) {
            let j = choose|j: int| 0 <= j < pt.inputs_true@.len() && pt.inputs_true@[j] == x;
            assert(pt.inputs_true@[j].mc < g.mcs@.len());
        } else {
            let j = choose|j: int| 0 <= j < pt.inputs_comp@.len() && pt.inputs_comp@[j] == x;
            assert(pt.inputs_comp@[j].mc < g.mcs@.len());
        }
    }
}

/// The rows that offer `choice`, in ascending order.
fn rows_offering(table: &ZIATable, choice: Option<XC2ZIAInput>) -> (r: Vec<usize>)
    requires
        table.wf(),
    ensures
        forall|c: int|
            0 <= c < r@.len() ==> (#[trigger] r@[c]) < INPUTS_PER_ANDTERM && (choice matches Some(x)
                && table.offers(r@[c] as int, x)),
        forall|row: int|
            0 <= row < INPUTS_PER_ANDTERM && choice is Some && #[trigger] table.offers(
                row,
                choice.unwrap(),
            ) ==> r@.contains(row as usize),
        forall|c: int, d: int| 0 <= c < d < r@.len() ==> #[trigger] r@[c] < #[trigger] r@[d],
{
    let mut rows: Vec<usize> = Vec::new();
    if let Some(x) = choice {
        let mut zia_i: usize = 0;
        while zia_i < INPUTS_PER_ANDTERM
            invariant
                zia_i <= INPUTS_PER_ANDTERM,
                table.wf(),
                choice == Some(x),
                forall|c: int|
                    0 <= c < rows@.len() ==> (#[trigger] rows@[c]) < INPUTS_PER_ANDTERM
                        && table.offers(rows@[c] as int, x),
                forall|c: int| 0 <= c < rows@.len() ==> (#[trigger] rows@[c]) < zia_i,
                forall|c: int, d: int|
                    0 <= c < d < rows@.len() ==> #[trigger] rows@[c] < #[trigger] rows@[d],
                forall|row: int|
                    0 <= row < zia_i && #[trigger] table.offers(row, x) ==> rows@.contains(
                        row as usize,
                    ),
            decreases INPUTS_PER_ANDTERM - zia_i,
        {
            if table.row_offers(zia_i, x) {
                let ghost rows0 = rows@;
                rows.push(zia_i);
                proof {
                    assert(rows@[rows0.len() as int] == zia_i);
                    assert forall|row: int| 0 <= row < zia_i + 1 && #[trigger] table.offers(row, x)
                        implies rows@.contains(row as usize) by {
                        if row < zia_i {
                            let c = choose|c: int| 0 <= c < rows0.len() && rows0[c] == row as usize;
                            assert(rows@[c] == row as usize);
                        }
                    }
                }
            }
            zia_i += 1;
        }
    }
    rows
}

/// From the state of a finished search to what `zia_routed` says of the
/// rows.
proof fn lemma_rows_carry(
    g: &InputGraph,
    table: &ZIATable,
    mcs: Seq<OutputGraphMacrocell>,
    inputs: Seq<InputGraphPTermInput>,
    chosen: Seq<u32>,
    zia: Seq<XC2ZIAInput>,
    xs: Seq<InputGraphPTermInput>,
    rows: Seq<u32>,
)
    requires
        routing_inv(table, input_choices(g, mcs, inputs), chosen, zia),
        chosen.len() == inputs.len(),
        rows.len() == xs.len(),
        forall|j: int| 0 <= j < xs.len() ==> row_of_input(inputs, chosen, xs[j], #[trigger] rows[j]),
    ensures
        rows_carry(g, mcs, xs, rows, zia),
{
    let choices = input_choices(g, mcs, inputs);
    assert forall|j: int| 0 <= j < xs.len() implies (#[trigger] rows[j]) < INPUTS_PER_ANDTERM
        && Some(zia[rows[j] as int]) == input_choice(g, mcs, xs[j]) by {
        assert(row_of_input(inputs, chosen, xs[j], rows[j]));
        let k = choose|k: int|
            0 <= k < inputs.len() && #[trigger] inputs[k] == xs[j] && chosen[k] == rows[j];
        assert(chosen[k] < INPUTS_PER_ANDTERM && choices[k] == Some(zia[chosen[k] as int]));
    }
}

/// In a finished search every row that is not `One` is offered by the
/// table and carries one of the inputs.
proof fn lemma_rows_used(
    g: &InputGraph,
    table: &ZIATable,
    mcs: Seq<OutputGraphMacrocell>,
    inputs: Seq<InputGraphPTermInput>,
    chosen: Seq<u32>,
    zia: Seq<XC2ZIAInput>,
)
    requires
        routing_inv(table, input_choices(g, mcs, inputs), chosen, zia),
        chosen.len() == inputs.len(),
    ensures
        forall|r: int|
            0 <= r < INPUTS_PER_ANDTERM && #[trigger] zia[r] != XC2ZIAInput::One ==> table.offers(
                r,
                zia[r],
            ) && exists|k: int|
                0 <= k < inputs.len() && Some(zia[r]) == input_choice(g, mcs, #[trigger] inputs[k]),
{
    let choices = input_choices(g, mcs, inputs);
    assert forall|r: int|
        0 <= r < INPUTS_PER_ANDTERM && #[trigger] zia[r] != XC2ZIAInput::One implies table.offers(
        r,
        zia[r],
    ) && exists|k: int|
        0 <= k < inputs.len() && Some(zia[r]) == input_choice(g, mcs, #[trigger] inputs[k]) by {
        if forall|k: int| 0 <= k < chosen.len() ==> #[trigger] chosen[k] != r {
            assert(zia[r] == XC2ZIAInput::One);
        }
        let k = choose|k: int| 0 <= k < chosen.len() && #[trigger] chosen[k] == r;
        assert(choices[k] == Some(zia[chosen[k] as int]));
        assert(choices[k] matches Some(c) && table.offers(chosen[k] as int, c));
        assert(Some(zia[r]) == input_choice(g, mcs, inputs[k]));
    }
}

/// What a successful attempt to route the inputs of block `a` leaves:
/// the inputs are no more than the rows and can be routed; the ZIA
/// assignment `zia` and the rows of the product terms of the block are
/// those of the first routing in the order of the search; and so every
/// row carries the signal of its input, as `zia_routed` says.
pub open spec fn zia_succeeded(
    g: &InputGraph,
    device: &DeviceSpec,
    before: &OutputGraph,
    after: &OutputGraph,
    a: Seq<(PARMCAssignment, PARMCAssignment)>,
    zia: Seq<XC2ZIAInput>,
) -> bool {
    &&& fb_inputs(g, a).len() <= INPUTS_PER_ANDTERM
    &&& routable(&device.zia, input_choices(g, before.mcs@, fb_inputs(g, a)))
    &&& zia_routed(
        g,
        &device.zia,
        before.mcs@,
        before.pterms@,
        after.pterms@,
        fb_pterms(g, a, MCS_PER_FB as int),
        fb_inputs(g, a),
        zia,
    )
    &&& exists|rows: Seq<u32>|
        first_routing(
            &device.zia,
            input_choices(g, before.mcs@, fb_inputs(g, a)),
            fb_inputs(g, a).len() as int,
            Seq::empty(),
            rows,
        ) && #[trigger] routed_by(
            g,
            &device.zia,
            before.mcs@,
            after.pterms@,
            fb_pterms(g, a, MCS_PER_FB as int),
            fb_inputs(g, a),
            zia,
            rows,
        )
}

/// The score of the attempt to route the inputs of block `a`: the inputs
/// that the block has more than rows, or else the inputs that are left
/// without a row, counted from the last placement that the search made;
/// 0 where the attempt succeeds.
pub open spec fn zia_score(
    g: &InputGraph,
    device: &DeviceSpec,
    mcs: Seq<OutputGraphMacrocell>,
    a: Seq<(PARMCAssignment, PARMCAssignment)>,
) -> int {
    let inputs = fb_inputs(g, a);
    let choices = input_choices(g, mcs, inputs);
    if inputs.len() > INPUTS_PER_ANDTERM {
        inputs.len() - INPUTS_PER_ANDTERM
    } else if routable(&device.zia, choices) {
        0
    } else {
        inputs.len() - last_routed(&device.zia, choices, inputs.len() as int, Seq::empty())
    }
}

impl ZIAAssignmentResult {
    /// The score that the result stands for.
    pub open spec fn score(&self) -> int {
        match *self {
            ZIAAssignmentResult::Success(_) => 0,
            ZIAAssignmentResult::FailureTooManyInputs(z) => z as int,
            ZIAAssignmentResult::FailureUnroutable(w) => w as int,
        }
    }
}

/// Routes the inputs that a block needs, given the macrocells in it,
/// through its ZIA, and records in `go` the rows that carry the inputs of
/// each product term of the block.
///
/// Fails with `FailureTooManyInputs` and the excess if the block needs
/// more distinct inputs than it has rows, and with `FailureUnroutable` if
/// no choice of rows gives every input a row of its own that offers its
/// signal. A failed attempt leaves `go` unchanged.
pub fn try_assign_zia(
    g: &InputGraph,
    go: &mut OutputGraph,
    mc_assignment: &PARFBAssignment,
    device_type: &DeviceSpec,
) -> (r: ZIAAssignmentResult)
    requires
        g.wf(),
        device_type.wf(),
        block_refs_ok(g, mc_assignment@),
        mcs_placed(g, old(go).mcs@),
        old(go).pterms@.len() == g.pterms@.len(),
    ensures
        only_pterm_rows_differ(old(go), final(go)),
        match r {
            ZIAAssignmentResult::FailureTooManyInputs(z) => {
                &&& fb_inputs(g, mc_assignment@).len() > INPUTS_PER_ANDTERM
                &&& z == fb_inputs(g, mc_assignment@).len() - INPUTS_PER_ANDTERM
                &&& z <= MAX_FB_INPUTS
                &&& final(go).pterms@ == old(go).pterms@
            },
            ZIAAssignmentResult::FailureUnroutable(w) => {
                &&& fb_inputs(g, mc_assignment@).len() <= INPUTS_PER_ANDTERM
                &&& !routable(
                    &device_type.zia,
                    input_choices(g, old(go).mcs@, fb_inputs(g, mc_assignment@)),
                )
                &&& 1 <= w <= fb_inputs(g, mc_assignment@).len()
                &&& w == fb_inputs(g, mc_assignment@).len() - last_routed(
                    &device_type.zia,
                    input_choices(g, old(go).mcs@, fb_inputs(g, mc_assignment@)),
                    fb_inputs(g, mc_assignment@).len() as int,
                    Seq::empty(),
                )
                &&& final(go).pterms@ == old(go).pterms@
            },
            ZIAAssignmentResult::Success(zia) => zia_succeeded(
                g,
                device_type,
                old(go),
                final(go),
                mc_assignment@,
                zia@,
            ),
        },
        r.score() == zia_score(g, device_type, old(go).mcs@, mc_assignment@),
{
    let table = &device_type.zia;
    let pts = gather_pterms(g, mc_assignment);
    let inputs = gather_inputs(g, &pts);
    proof {
        lemma_collect_inputs(g, pts@, pts@.len() as int);
        lemma_inputs_exist(g, pts@);
        assert(inputs@ == fb_inputs(g, mc_assignment@));
    }

    if inputs.len() > 40 {
        proof {
            lemma_inputs_bound(g, inputs@);
        }
        return ZIAAssignmentResult::FailureTooManyInputs((inputs.len() - 40) as u32);
    }
    let n = inputs.len();
    let ghost choices = input_choices(g, go.mcs@, inputs@);

    // The signal of every input and the rows that offer it.
    let mut cands: Vec<ZIACandidate> = Vec::new();
    let mut k: usize = 0;
    while k < n
        invariant
            k <= n,
            n == inputs@.len(),
            n <= INPUTS_PER_ANDTERM,
            table.wf(),
            mcs_placed(g, go.mcs@),
            *go == *old(go),
            choices == input_choices(g, go.mcs@, inputs@),
            forall|j: int| 0 <= j < inputs@.len() ==> (#[trigger] inputs@[j]).mc < g.mcs@.len(),
            cands@.len() == k,
            forall|j: int| 0 <= j < k ==> candidate_ok(table, #[trigger] &cands@[j]),
            forall|j: int| 0 <= j < k ==> (#[trigger] cands@[j]).choice == choices[j],
        decreases n - k,
    {
        let input = inputs[k];
        assert(inputs@[k as int].mc < g.mcs@.len());
        let choice = match go.mcs[input.mc].loc {
            Some(l) => zia_choice_exec(&g.mcs[input.mc], l.fb, l.i, input.kind),
            None => None,
        };
        let rows = rows_offering(table, choice);
        cands.push(ZIACandidate { input, choice, rows });
        k += 1;
    }
    proof {
        assert(candidate_choices(cands@) =~= choices);
    }

    // Search for rows.
    let mut ret_zia = PARZIAAssignment::new();
    let mut chosen: Vec<u32> = Vec::new();
    let mut most_routed: u32 = 0;
    proof {
        ret_zia.lemma_len();
    }
    if !backtrack_zia(table, &cands, Ghost(choices), &mut ret_zia, &mut chosen, &mut most_routed) {
        return ZIAAssignmentResult::FailureUnroutable(n as u32 - most_routed);
    }
    proof {
        assert(first_routing(table, choices, choices.len() as int, Seq::empty(), chosen@));
        assert(routes(table, choices, choices.len() as int, Seq::empty(), chosen@));
    }

    // Record for every product term the rows of its inputs.
    let ghost before = go.pterms@;
    let mut m: usize = 0;
    while m < pts.len()
        invariant
            m <= pts@.len(),
            pterms_exist(g, pts@),
            pts@ == fb_pterms(g, mc_assignment@, MCS_PER_FB as int),
            inputs@ == collect_inputs(g, pts@, pts@.len() as int),
            chosen@.len() == inputs@.len(),
            choices == input_choices(g, go.mcs@, inputs@),
            routing_inv(table, choices, chosen@, ret_zia@),
            before == old(go).pterms@,
            before.len() == g.pterms@.len(),
            only_pterm_rows_differ(old(go), go),
            forall|j: int|
                0 <= j < m ==> pterm_rows_ok(
                    g,
                    go.mcs@,
                    &g.pterms@[(#[trigger] pts@[j]) as int],
                    &go.pterms@[pts@[j] as int],
                    ret_zia@,
                ),
            forall|j: int|
                0 <= j < m ==> recorded(
                    inputs@,
                    chosen@,
                    g.pterms@[(#[trigger] pts@[j]) as int].inputs_true@,
                    go.pterms@[pts@[j] as int].inputs_true_zia@,
                ) && recorded(
                    inputs@,
                    chosen@,
                    g.pterms@[pts@[j] as int].inputs_comp@,
                    go.pterms@[pts@[j] as int].inputs_comp_zia@,
                ),
            forall|q: int|
                0 <= q < before.len() && (forall|j: int| 0 <= j < m ==> #[trigger] pts@[j] != q)
                    ==> #[trigger] go.pterms@[q] == before[q],
        decreases pts@.len() - m,
    {
        let p = pts[m];
        assert(pts@[m as int] < g.pterms@.len());
        let pt = &g.pterms[p];
        proof {
            lemma_collect_inputs(g, pts@, pts@.len() as int);
            assert forall|j: int| 0 <= j < pt.inputs_true@.len() implies inputs@.contains(
                #[trigger] pt.inputs_true@[j],
            ) by {
                assert(inputs@.contains(g.pterms@[pts@[m as int] as int].inputs_true@[j]));
            }
            assert forall|j: int| 0 <= j < pt.inputs_comp@.len() implies inputs@.contains(
                #[trigger] pt.inputs_comp@[j],
            ) by {
                assert(inputs@.contains(g.pterms@[pts@[m as int] as int].inputs_comp@[j]));
            }
        }
        let true_rows = rows_for(&inputs, &chosen, &pt.inputs_true);
        let comp_rows = rows_for(&inputs, &chosen, &pt.inputs_comp);
        proof {
            lemma_rows_carry(
                g,
                table,
                go.mcs@,
                inputs@,
                chosen@,
                ret_zia@,
                pt.inputs_true@,
                true_rows@,
            );
            lemma_rows_carry(
                g,
                table,
                go.mcs@,
                inputs@,
                chosen@,
                ret_zia@,
                pt.inputs_comp@,
                comp_rows@,
            );
        }
        let ghost mid = go.pterms@;
        go.pterms[p].inputs_true_zia = true_rows;
        go.pterms[p].inputs_comp_zia = comp_rows;
        proof {
            assert forall|j: int| 0 <= j < m + 1 implies pterm_rows_ok(
                g,
                go.mcs@,
                &g.pterms@[(#[trigger] pts@[j]) as int],
                &go.pterms@[pts@[j] as int],
                ret_zia@,
            ) by {
                if pts@[j] != p {
                    assert(go.pterms@[pts@[j] as int] == mid[pts@[j] as int]);
                }
            }
            assert forall|j: int| 0 <= j < m + 1 implies recorded(
                inputs@,
                chosen@,
                g.pterms@[(#[trigger] pts@[j]) as int].inputs_true@,
                go.pterms@[pts@[j] as int].inputs_true_zia@,
            ) && recorded(
                inputs@,
                chosen@,
                g.pterms@[pts@[j] as int].inputs_comp@,
                go.pterms@[pts@[j] as int].inputs_comp_zia@,
            ) by {
                if pts@[j] != p {
                    assert(go.pterms@[pts@[j] as int] == mid[pts@[j] as int]);
                }
            }
        }
        m += 1;
    }
    proof {
        lemma_rows_used(g, table, go.mcs@, inputs@, chosen@, ret_zia@);
        assert(go.mcs@ == old(go).mcs@);
        assert(zia_routed(
            g,
            &device_type.zia,
            old(go).mcs@,
            old(go).pterms@,
            go.pterms@,
            fb_pterms(g, mc_assignment@, MCS_PER_FB as int),
            fb_inputs(g, mc_assignment@),
            ret_zia@,
        ));
        assert(routable(
            &device_type.zia,
            input_choices(g, old(go).mcs@, fb_inputs(g, mc_assignment@)),
        ));
        assert(fb_inputs(g, mc_assignment@).len() <= INPUTS_PER_ANDTERM);
        assert(inputs@ == fb_inputs(g, mc_assignment@));
        assert(choices == input_choices(g, old(go).mcs@, fb_inputs(g, mc_assignment@)));
        assert(choices.len() == fb_inputs(g, mc_assignment@).len());
        assert(first_routing(
            &device_type.zia,
            input_choices(g, old(go).mcs@, fb_inputs(g, mc_assignment@)),
            fb_inputs(g, mc_assignment@).len() as int,
            Seq::empty(),
            chosen@,
        ));
        assert(routed_by(
            g,
            &device_type.zia,
            old(go).mcs@,
            go.pterms@,
            fb_pterms(g, mc_assignment@, MCS_PER_FB as int),
            fb_inputs(g, mc_assignment@),
            ret_zia@,
            chosen@,
        ));
        assert(zia_succeeded(g, device_type, old(go), go, mc_assignment@, ret_zia@));
    }
    ZIAAssignmentResult::Success(ret_zia)
}

/// Numbers below `m` that all differ are at most `m` many.
pub proof fn lemma_distinct_bound(s: Seq<int>, m: nat)
    requires
        s.no_duplicates(),
        forall|i: int| 0 <= i < s.len() ==> 0 <= #[trigger] s[i] < m,
    ensures
        s.len() <= m,
    decreases m,
{
    if m == 0 {
        if s.len() > 0 {
            let x = s[0];
            assert(0 <= x < m);
        }
    } else if exists|i: int| 0 <= i < s.len() && s[i] == m - 1 {
        let i = choose|i: int| 0 <= i < s.len() && s[i] == m - 1;
        let rest = s.remove(i);
        assert forall|j: int| 0 <= j < rest.len() implies 0 <= #[trigger] rest[j] < m - 1 by {
            let js = if j < i { j } else { j + 1 };
            assert(rest[j] == s[js]);
            assert(s[js] != s[i]);
        }
        assert forall|a: int, b: int| 0 <= a < rest.len() && 0 <= b < rest.len() && a != b
            implies rest[a] != rest[b] by {
            let a_s = if a < i { a } else { a + 1 };
            let b_s = if b < i { b } else { b + 1 };
            assert(rest[a] == s[a_s] && rest[b] == s[b_s]);
        }
        lemma_distinct_bound(rest, (m - 1) as nat);
    } else {
        lemma_distinct_bound(s, (m - 1) as nat);
    }
}

/// A number that tells an input from every other input.
pub open spec fn input_code(x: InputGraphPTermInput) -> int {
    x.mc * 3 + (match x.kind {
        InputGraphPTermInputType::Reg => 0int,
        InputGraphPTermInputType::Xor => 1int,
        InputGraphPTermInputType::Pin => 2int,
    })
}

/// Inputs that all differ and refer to macrocells of `g` are at most
/// three per macrocell.
proof fn lemma_inputs_bound(g: &InputGraph, inputs: Seq<InputGraphPTermInput>)
    requires
        inputs.no_duplicates(),
        forall|k: int| 0 <= k < inputs.len() ==> (#[trigger] inputs[k]).mc < g.mcs@.len(),
    ensures
        inputs.len() <= 3 * g.mcs@.len(),
{
    let codes = Seq::new(inputs.len(), |k: int| input_code(inputs[k]));
    assert forall|a: int, b: int| 0 <= a < codes.len() && 0 <= b < codes.len() && a != b
        implies codes[a] != codes[b] by {
        assert(inputs[a] != inputs[b]);
    }
    assert forall|i: int| 0 <= i < codes.len() implies 0 <= #[trigger] codes[i] < 3
        * g.mcs@.len() by {
        assert(inputs[i].mc < g.mcs@.len());
    }
    lemma_distinct_bound(codes, (3 * g.mcs@.len()) as nat);
}

/// A list joined from two holds what either holds.
pub proof fn lemma_contains_concat(a: Seq<usize>, b: Seq<usize>, x: usize)
    ensures
        (a + b).contains(x) <==> a.contains(x) || b.contains(x),
{
    if a.contains(x) {
        let k = choose|k: int| 0 <= k < a.len() && a[k] == x;
        assert((a + b)[k] == x);
    }
    if b.contains(x) {
        let k = choose|k: int| 0 <= k < b.len() && b[k] == x;
        assert((a + b)[a.len() + k] == x);
    }
    if (a + b).contains(x) {
        let k = choose|k: int| 0 <= k < (a + b).len() && (a + b)[k] == x;
        if k < a.len() {
            assert(a[k] == x);
        } else {
            assert(b[k - a.len()] == x);
        }
    }
}

/// The list of a product term, if there is one, holds that product term
/// and nothing else.
pub proof fn lemma_opt_seq_contains(p: Option<usize>, x: usize)
    ensures
        opt_seq(p).contains(x) <==> p == Some(x),
{
    if p == Some(x) {
        assert(opt_seq(p)[0] == x);
    }
}

/// The product terms that a macrocell uses are those of its special
/// functions and those that feed its OR term.
pub proof fn lemma_mc_pterms_contains(mc: &InputGraphMacrocell, x: usize)
    ensures
        mc_pterms(mc).contains(x) <==> (oe_pterm(mc) == Some(x) || xor_pterm(mc) == Some(x)
            || ce_pterm(mc) == Some(x) || clk_pterm(mc) == Some(x) || set_pterm(mc) == Some(x)
            || reset_pterm(mc) == Some(x) || or_inputs(mc).contains(x)),
{
    let oe = opt_seq(oe_pterm(mc));
    let xor = opt_seq(xor_pterm(mc));
    let ors = or_inputs(mc);
    let ce = opt_seq(ce_pterm(mc));
    let clk = opt_seq(clk_pterm(mc));
    let set = opt_seq(set_pterm(mc));
    let reset = opt_seq(reset_pterm(mc));
    lemma_opt_seq_contains(oe_pterm(mc), x);
    lemma_opt_seq_contains(xor_pterm(mc), x);
    lemma_opt_seq_contains(ce_pterm(mc), x);
    lemma_opt_seq_contains(clk_pterm(mc), x);
    lemma_opt_seq_contains(set_pterm(mc), x);
    lemma_opt_seq_contains(reset_pterm(mc), x);
    lemma_contains_concat(oe, xor, x);
    lemma_contains_concat(oe + xor, ors, x);
    lemma_contains_concat(oe + xor + ors, ce, x);
    lemma_contains_concat(oe + xor + ors + ce, clk, x);
    lemma_contains_concat(oe + xor + ors + ce + clk, set, x);
    lemma_contains_concat(oe + xor + ors + ce + clk + set, reset, x);
}

/// If no use of a block asks for a site it cannot have, every product
/// term that the macrocells of the block use is mentioned among the uses
/// of the block.
pub proof fn lemma_pterms_mentioned(
    g: &InputGraph,
    a: Seq<(PARMCAssignment, PARMCAssignment)>,
    n: int,
    x: usize,
)
    requires
        0 <= n <= MCS_PER_FB,
        crate::andterms::fb_or_misses(g, a, n) == 0,
        fb_pterms(g, a, n).contains(x),
    ensures
        crate::andterms::mentions(crate::andterms::fb_special_uses(g, a, n), x)
            || crate::andterms::mentions(crate::andterms::fb_or_locked_uses(g, a, n), x)
            || crate::andterms::mentions(crate::andterms::fb_or_free_uses(g, a, n), x),
    decreases n,
{
    if n > 0 {
        crate::andterms::lemma_misses_nonneg(g, a, n - 1);
        let prev = fb_pterms(g, a, n - 1);
        let sp0 = crate::andterms::fb_special_uses(g, a, n - 1);
        let ol0 = crate::andterms::fb_or_locked_uses(g, a, n - 1);
        let of0 = crate::andterms::fb_or_free_uses(g, a, n - 1);
        match logic_mc(a, n - 1) {
            Some(m) => {
                let mc = &g.mcs@[m as int];
                let ins = or_inputs(mc);
                crate::andterms::lemma_or_bounds(g, ins, ins.len() as int);
                let sp = crate::andterms::special_uses(g, mc, n - 1);
                let ol = crate::andterms::or_locked_uses(g, ins, ins.len() as int);
                let of = crate::andterms::or_free_uses(g, ins, ins.len() as int);
                lemma_contains_concat(prev, mc_pterms(mc), x);
                crate::andterms::lemma_mentions_concat(sp0, sp, x);
                crate::andterms::lemma_mentions_concat(ol0, ol, x);
                crate::andterms::lemma_mentions_concat(of0, of, x);
                if prev.contains(x) {
                    lemma_pterms_mentioned(g, a, n - 1, x);
                } else {
                    lemma_mc_pterms_contains(mc, x);
                    crate::andterms::lemma_special_mentions(g, mc, n - 1, x);
                    if ins.contains(x) {
                        let j = choose|j: int| 0 <= j < ins.len() && ins[j] == x;
                        crate::andterms::lemma_or_mentions(g, ins, ins.len() as int, j);
                    }
                }
            },
            None => {
                assert(fb_pterms(g, a, n) =~= prev);
                lemma_pterms_mentioned(g, a, n - 1, x);
                assert(crate::andterms::fb_special_uses(g, a, n) =~= sp0);
                assert(crate::andterms::fb_or_locked_uses(g, a, n) =~= ol0);
                assert(crate::andterms::fb_or_free_uses(g, a, n) =~= of0);
            },
        }
    }
}

/// If no use of a block asks for a site it cannot have, every product
/// term that the block uses is mentioned among its uses.
pub proof fn lemma_fb_pterms_mentioned(
    g: &InputGraph,
    a: Seq<(PARMCAssignment, PARMCAssignment)>,
    m: int,
)
    requires
        crate::andterms::fb_misses(g, a) == 0,
        0 <= m < fb_pterms(g, a, MCS_PER_FB as int).len(),
    ensures
        crate::andterms::mentions(crate::andterms::fb_uses(g, a), fb_pterms(g, a, MCS_PER_FB as int)[m]),
{
    let n = MCS_PER_FB as int;
    let x = fb_pterms(g, a, n)[m];
    crate::andterms::lemma_misses_nonneg(g, a, n);
    assert(fb_pterms(g, a, n).contains(x));
    lemma_pterms_mentioned(g, a, n, x);
    let sp = crate::andterms::fb_special_uses(g, a, n);
    let ol = crate::andterms::fb_or_locked_uses(g, a, n);
    let of = crate::andterms::fb_or_free_uses(g, a, n);
    crate::andterms::lemma_mentions_concat(sp, ol, x);
    crate::andterms::lemma_mentions_concat(sp + ol, of, x);
}

} // verus!
