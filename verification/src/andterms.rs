//! Assignment of the product terms that a function block needs to its
//! AND terms.
//!
//! A product term that serves a special function of a macrocell may sit
//! only on the AND term wired to that function or on the shared control
//! term for it; a product term that feeds an OR term may sit anywhere. A
//! location request narrows the choice to the one site it names. Several
//! product terms share an AND term only if they are structurally equal.

use vstd::prelude::*;
use crate::mc::get_pta;
use crate::mc::get_ptb;
use crate::mc::get_ptc;
use crate::mc::spec_pta;
use crate::mc::spec_ptb;
use crate::mc::spec_ptc;
use crate::mc::ANDTERMS_PER_FB;
use crate::mc::CTC;
use crate::mc::CTE;
use crate::mc::CTR;
use crate::mc::CTS;
use crate::mc::MCS_PER_FB;
use crate::netlist::AssignedLocation;
use crate::netlist::InputGraph;
use crate::netlist::InputGraphIOOEType;
use crate::netlist::InputGraphMacrocell;
use crate::netlist::InputGraphRegClockType;
use crate::netlist::InputGraphRegRSType;
use crate::outgraph::OutputGraph;
use crate::outgraph::OutputGraphPTerm;
use crate::outgraph::PARFBAssignment;
use crate::outgraph::PARMCAssignment;

verus! {

/// A product term together with the AND terms it may sit on.
#[derive(Debug)]
pub struct PTermUse {
    pub pterm: usize,
    pub sites: Vec<u32>,
}

/// A use of a product term as contracts see it: the index of the product
/// term and the AND terms it may sit on.
pub type SiteUse = (usize, Seq<u32>);

/// The uses in `us` as contracts see them.
pub open spec fn uses_view(us: Seq<PTermUse>) -> Seq<SiteUse> {
    Seq::new(us.len(), |k: int| (us[k].pterm, us[k].sites@))
}

/// The AND-term index that a product term asks for, if it asks.
pub open spec fn pterm_loc(g: &InputGraph, p: usize) -> Option<u32> {
    match g.pterms@[p as int].requested_loc {
        Some(l) => l.i,
        None => None,
    }
}

/// The sites left to a use once the location request `loc` of its product
/// term is taken into account: the requested site alone if it is among
/// `sites`, else `sites` unchanged (the request then cannot be met).
pub open spec fn restrict(loc: Option<u32>, sites: Seq<u32>) -> Seq<u32> {
    match loc {
        Some(l) => if sites.contains(l) {
            seq![l]
        } else {
            sites
        },
        None => sites,
    }
}

/// Whether the location request `loc` cannot be met on `sites`.
pub open spec fn loc_misses(loc: Option<u32>, sites: Seq<u32>) -> bool {
    loc matches Some(l) && !sites.contains(l)
}

/// The use, if any, of the product term `p` on `sites`.
#[verifier::opaque]
pub open spec fn opt_use(g: &InputGraph, p: Option<usize>, sites: Seq<u32>) -> Seq<SiteUse> {
    match p {
        Some(p) => seq![(p, restrict(pterm_loc(g, p), sites))],
        None => Seq::empty(),
    }
}

/// 1 if the product term `p` exists and asks for a site not among
/// `sites`, else 0.
#[verifier::opaque]
pub open spec fn opt_miss(g: &InputGraph, p: Option<usize>, sites: Seq<u32>) -> int {
    match p {
        Some(p) => if loc_misses(pterm_loc(g, p), sites) {
            1
        } else {
            0
        },
        None => 0,
    }
}

/// The product term that enables the output of `mc`, if one does.
pub open spec fn oe_pterm(mc: &InputGraphMacrocell) -> Option<usize> {
    match mc.io_bits {
        Some(io) => match io.oe {
            Some(InputGraphIOOEType::PTerm(p)) => Some(p),
            _ => None,
        },
        None => None,
    }
}

/// The product term that feeds the XOR gate of `mc`, if one does.
pub open spec fn xor_pterm(mc: &InputGraphMacrocell) -> Option<usize> {
    match mc.xor_bits {
        Some(x) => x.andterm_input,
        None => None,
    }
}

/// The product term that enables the clock of `mc`, if one does.
pub open spec fn ce_pterm(mc: &InputGraphMacrocell) -> Option<usize> {
    match mc.reg_bits {
        Some(r) => r.ce_input,
        None => None,
    }
}

/// The product term that clocks the register of `mc`, if one does.
pub open spec fn clk_pterm(mc: &InputGraphMacrocell) -> Option<usize> {
    match mc.reg_bits {
        Some(r) => match r.clk_input {
            InputGraphRegClockType::PTerm(p) => Some(p),
            _ => None,
        },
        None => None,
    }
}

/// The product term that sets the register of `mc`, if one does.
pub open spec fn set_pterm(mc: &InputGraphMacrocell) -> Option<usize> {
    match mc.reg_bits {
        Some(r) => match r.set_input {
            Some(InputGraphRegRSType::PTerm(p)) => Some(p),
            _ => None,
        },
        None => None,
    }
}

/// The product term that resets the register of `mc`, if one does.
pub open spec fn reset_pterm(mc: &InputGraphMacrocell) -> Option<usize> {
    match mc.reg_bits {
        Some(r) => match r.reset_input {
            Some(InputGraphRegRSType::PTerm(p)) => Some(p),
            _ => None,
        },
        None => None,
    }
}

/// The product terms that feed the OR term of `mc`.
pub open spec fn or_inputs(mc: &InputGraphMacrocell) -> Seq<usize> {
    match mc.xor_bits {
        Some(x) => x.orterm_inputs@,
        None => Seq::empty(),
    }
}

/// The sites of the output enable of macrocell `i`: its product term B or
/// the shared control term.
pub open spec fn oe_sites(i: int) -> Seq<u32> {
    seq![spec_ptb(i) as u32, CTE]
}

/// The one site of the XOR input and of the clock enable of macrocell
/// `i`: its product term C.
pub open spec fn ptc_sites(i: int) -> Seq<u32> {
    seq![spec_ptc(i) as u32]
}

/// The sites of the clock of macrocell `i`: its product term C or the
/// shared control term.
pub open spec fn clk_sites(i: int) -> Seq<u32> {
    seq![spec_ptc(i) as u32, CTC]
}

/// The sites of the set of macrocell `i`: its product term A or the
/// shared control term.
pub open spec fn set_sites(i: int) -> Seq<u32> {
    seq![spec_pta(i) as u32, CTS]
}

/// The sites of the reset of macrocell `i`: its product term A or the
/// shared control term.
pub open spec fn reset_sites(i: int) -> Seq<u32> {
    seq![spec_pta(i) as u32, CTR]
}

/// The uses of product terms for the special functions of `mc`, placed
/// as macrocell `i` of its block: output enable, XOR input, clock enable,
/// clock, set, reset, in this order.
pub open spec fn special_uses(g: &InputGraph, mc: &InputGraphMacrocell, i: int) -> Seq<SiteUse> {
    opt_use(g, oe_pterm(mc), oe_sites(i)) + opt_use(g, xor_pterm(mc), ptc_sites(i)) + opt_use(
        g,
        ce_pterm(mc),
        ptc_sites(i),
    ) + opt_use(g, clk_pterm(mc), clk_sites(i)) + opt_use(g, set_pterm(mc), set_sites(i))
        + opt_use(g, reset_pterm(mc), reset_sites(i))
}

/// How many special functions of `mc`, placed as macrocell `i`, use a
/// product term that asks for a site the function cannot use.
pub open spec fn special_misses(g: &InputGraph, mc: &InputGraphMacrocell, i: int) -> int {
    opt_miss(g, oe_pterm(mc), oe_sites(i)) + opt_miss(g, xor_pterm(mc), ptc_sites(i)) + opt_miss(
        g,
        ce_pterm(mc),
        ptc_sites(i),
    ) + opt_miss(g, clk_pterm(mc), clk_sites(i)) + opt_miss(g, set_pterm(mc), set_sites(i))
        + opt_miss(g, reset_pterm(mc), reset_sites(i))
}

/// Every AND term of a function block.
pub open spec fn all_sites() -> Seq<u32> {
    Seq::new(ANDTERMS_PER_FB as nat, |t: int| t as u32)
}

/// Among the first `n` of the OR-term inputs `ins`: the uses of those
/// that ask for an AND term that exists.
pub open spec fn or_locked_uses(g: &InputGraph, ins: Seq<usize>, n: int) -> Seq<SiteUse>
    decreases n,
{
    if n <= 0 {
        Seq::empty()
    } else {
        let rest = or_locked_uses(g, ins, n - 1);
        match pterm_loc(g, ins[n - 1]) {
            Some(l) => if l < ANDTERMS_PER_FB {
                rest.push((ins[n - 1], seq![l]))
            } else {
                rest
            },
            None => rest,
        }
    }
}

/// Among the first `n` of the OR-term inputs `ins`: those that ask for
/// no site.
pub open spec fn or_free_uses(g: &InputGraph, ins: Seq<usize>, n: int) -> Seq<SiteUse>
    decreases n,
{
    if n <= 0 {
        Seq::empty()
    } else {
        let rest = or_free_uses(g, ins, n - 1);
        match pterm_loc(g, ins[n - 1]) {
            Some(l) => rest,
            None => rest.push((ins[n - 1], all_sites())),
        }
    }
}

/// Among the first `n` of the OR-term inputs `ins`: how many ask for an
/// AND term that does not exist.
pub open spec fn or_misses(g: &InputGraph, ins: Seq<usize>, n: int) -> int
    decreases n,
{
    if n <= 0 {
        0
    } else {
        or_misses(g, ins, n - 1) + (match pterm_loc(g, ins[n - 1]) {
            Some(l) => if l < ANDTERMS_PER_FB {
                0int
            } else {
                1int
            },
            None => 0int,
        })
    }
}

/// The macrocell in the logic half of site `i` of the block, if any.
pub open spec fn logic_mc(a: Seq<(PARMCAssignment, PARMCAssignment)>, i: int) -> Option<usize> {
    match a[i].0 {
        PARMCAssignment::MC(m) => Some(m),
        _ => None,
    }
}

/// The uses for special functions by the macrocells in the logic halves
/// of the first `n` sites of a block, site by site.
pub open spec fn fb_special_uses(
    g: &InputGraph,
    a: Seq<(PARMCAssignment, PARMCAssignment)>,
    n: int,
) -> Seq<SiteUse>
    decreases n,
{
    if n <= 0 {
        Seq::empty()
    } else {
        fb_special_uses(g, a, n - 1) + (match logic_mc(a, n - 1) {
            Some(m) => special_uses(g, &g.mcs@[m as int], n - 1),
            None => Seq::empty(),
        })
    }
}

/// The uses by OR-term inputs that ask for a site, over the first `n`
/// sites of a block.
pub open spec fn fb_or_locked_uses(
    g: &InputGraph,
    a: Seq<(PARMCAssignment, PARMCAssignment)>,
    n: int,
) -> Seq<SiteUse>
    decreases n,
{
    if n <= 0 {
        Seq::empty()
    } else {
        fb_or_locked_uses(g, a, n - 1) + (match logic_mc(a, n - 1) {
            Some(m) => or_locked_uses(
                g,
                or_inputs(&g.mcs@[m as int]),
                or_inputs(&g.mcs@[m as int]).len() as int,
            ),
            None => Seq::empty(),
        })
    }
}

/// The uses by OR-term inputs that ask for no site, over the first `n`
/// sites of a block.
pub open spec fn fb_or_free_uses(
    g: &InputGraph,
    a: Seq<(PARMCAssignment, PARMCAssignment)>,
    n: int,
) -> Seq<SiteUse>
    decreases n,
{
    if n <= 0 {
        Seq::empty()
    } else {
        fb_or_free_uses(g, a, n - 1) + (match logic_mc(a, n - 1) {
            Some(m) => or_free_uses(
                g,
                or_inputs(&g.mcs@[m as int]),
                or_inputs(&g.mcs@[m as int]).len() as int,
            ),
            None => Seq::empty(),
        })
    }
}

/// How many special functions of the macrocells in the first `n` sites
/// of a block use a product term that asks for a site the function cannot
/// use.
pub open spec fn fb_special_misses(
    g: &InputGraph,
    a: Seq<(PARMCAssignment, PARMCAssignment)>,
    n: int,
) -> int
    decreases n,
{
    if n <= 0 {
        0
    } else {
        fb_special_misses(g, a, n - 1) + (match logic_mc(a, n - 1) {
            Some(m) => special_misses(g, &g.mcs@[m as int], n - 1),
            None => 0,
        })
    }
}

/// How many OR-term inputs of the macrocells in the first `n` sites of a
/// block ask for an AND term that does not exist.
pub open spec fn fb_or_misses(g: &InputGraph, a: Seq<(PARMCAssignment, PARMCAssignment)>, n: int) -> int
    decreases n,
{
    if n <= 0 {
        0
    } else {
        fb_or_misses(g, a, n - 1) + (match logic_mc(a, n - 1) {
            Some(m) => or_misses(
                g,
                or_inputs(&g.mcs@[m as int]),
                or_inputs(&g.mcs@[m as int]).len() as int,
            ),
            None => 0,
        })
    }
}

/// How many uses of product terms by a block ask for a site that the
/// use cannot have.
pub open spec fn fb_misses(g: &InputGraph, a: Seq<(PARMCAssignment, PARMCAssignment)>) -> int {
    fb_special_misses(g, a, MCS_PER_FB as int) + fb_or_misses(g, a, MCS_PER_FB as int)
}

/// The uses of a block that are searched by backtracking: those for
/// special functions, then the OR-term inputs that ask for a site.
pub open spec fn constrained_uses(g: &InputGraph, a: Seq<(PARMCAssignment, PARMCAssignment)>) -> Seq<
    SiteUse,
> {
    fb_special_uses(g, a, MCS_PER_FB as int) + fb_or_locked_uses(g, a, MCS_PER_FB as int)
}

/// All uses of product terms by a block, in the order in which they are
/// placed: the constrained ones, then the OR-term inputs that ask for
/// no site.
pub open spec fn fb_uses(g: &InputGraph, a: Seq<(PARMCAssignment, PARMCAssignment)>) -> Seq<SiteUse> {
    constrained_uses(g, a) + fb_or_free_uses(g, a, MCS_PER_FB as int)
}

/// Whether the sites `chosen` for the first uses of `uses` are allowed:
/// each is among the sites of its use, and uses that share a site are of
/// structurally equal product terms.
pub open spec fn sites_valid(g: &InputGraph, uses: Seq<SiteUse>, chosen: Seq<u32>) -> bool {
    &&& chosen.len() <= uses.len()
    &&& forall|k: int| 0 <= k < chosen.len() ==> (#[trigger] uses[k]).1.contains(chosen[k])
    &&& forall|j: int, k: int|
        0 <= j < k < chosen.len() && #[trigger] chosen[j] == #[trigger] chosen[k]
            ==> g.pterms@[uses[j].0 as int].spec_equals(&g.pterms@[uses[k].0 as int])
}

/// Whether the uses refer to product terms of `g` and to AND terms that
/// exist.
pub open spec fn uses_ok(g: &InputGraph, uses: Seq<SiteUse>) -> bool {
    forall|k: int|
        0 <= k < uses.len() ==> (#[trigger] uses[k]).0 < g.pterms@.len() && forall|c: int|
            0 <= c < uses[k].1.len() ==> #[trigger] uses[k].1[c] < ANDTERMS_PER_FB
}

/// Whether use `k` may take site `t` next to the sites `chosen` so far.
pub open spec fn site_free_for(
    g: &InputGraph,
    uses: Seq<SiteUse>,
    chosen: Seq<u32>,
    k: int,
    t: u32,
) -> bool {
    forall|j: int|
        0 <= j < chosen.len() && #[trigger] chosen[j] == t ==> g.pterms@[uses[j].0 as int].spec_equals(
            &g.pterms@[uses[k].0 as int],
        )
}

/// What an attempt to assign the product terms of a block ended in.
#[derive(Copy, Clone, PartialEq, Eq, Structural, Debug)]
pub enum AndTermAssignmentResult {
    Success,
    /// This many uses ask for a site they cannot have.
    FailurePtermLOCUnsatisfiable(u32),
    /// This many uses were left without a site.
    FailurePtermExceeded(u32),
}

/// Whether the logic halves of the block hold macrocells of `g`.
pub open spec fn block_refs_ok(g: &InputGraph, a: Seq<(PARMCAssignment, PARMCAssignment)>) -> bool {
    a.len() == MCS_PER_FB && forall|i: int|
        0 <= i < MCS_PER_FB ==> (#[trigger] logic_mc(a, i) matches Some(m) ==> m < g.mcs@.len())
}

/// Whether `l` occurs in `sites`.
fn sites_contain(sites: &Vec<u32>, l: u32) -> (r: bool)
    ensures
        r == sites@.contains(l),
{
    let mut i: usize = 0;
    while i < sites.len()
        invariant
            i <= sites@.len(),
            forall|k: int| 0 <= k < i ==> sites@[k] != l,
        decreases sites@.len() - i,
    {
        if sites[i] == l {
            return true;
        }
        i += 1;
    }
    false
}

/// The AND-term index that product term `p` asks for, if it asks.
fn pterm_loc_exec(g: &InputGraph, p: usize) -> (r: Option<u32>)
    requires
        p < g.pterms@.len(),
    ensures
        r == pterm_loc(g, p),
{
    match g.pterms[p].requested_loc {
        Some(l) => l.i,
        None => None,
    }
}

/// Records the use of `p` on `sites`, narrowed by the location request
/// of `p`, and counts a request that cannot be met.
fn push_use(g: &InputGraph, uses: &mut Vec<PTermUse>, misses: &mut u32, p: Option<usize>, sites: Vec<u32>)
    requires
        p matches Some(x) ==> x < g.pterms@.len(),
        *old(misses) < u32::MAX,
    ensures
        uses_view(final(uses)@) == uses_view(old(uses)@) + opt_use(g, p, sites@),
        *final(misses) == *old(misses) + opt_miss(g, p, sites@),
        0 <= opt_miss(g, p, sites@) <= 1,
{
    reveal(opt_use);
    reveal(opt_miss);
    if let Some(p) = p {
        let mut sites = sites;
        let ghost sites0 = sites@;
        if let Some(l) = pterm_loc_exec(g, p) {
            if sites_contain(&sites, l) {
                let mut one: Vec<u32> = Vec::new();
                one.push(l);
                assert(one@ =~= seq![l]);
                sites = one;
            } else {
                *misses = *misses + 1;
            }
        }
        uses.push(PTermUse { pterm: p, sites });
        assert(uses_view(uses@) =~= uses_view(old(uses)@) + opt_use(g, Some(p), sites0));
    } else {
        assert(uses_view(uses@) =~= uses_view(old(uses)@) + opt_use(g, p, sites@));
    }
}

/// The list `[a]`.
fn sites1(a: u32) -> (r: Vec<u32>)
    ensures
        r@ == seq![a],
{
    let mut v: Vec<u32> = Vec::new();
    v.push(a);
    assert(v@ =~= seq![a]);
    v
}

/// The list `[a, b]`.
fn sites2(a: u32, b: u32) -> (r: Vec<u32>)
    ensures
        r@ == seq![a, b],
{
    let mut v: Vec<u32> = Vec::new();
    v.push(a);
    v.push(b);
    assert(v@ =~= seq![a, b]);
    v
}

/// The product term that enables the output of `mc`, if one does.
pub(crate) fn oe_pterm_exec(mc: &InputGraphMacrocell) -> (r: Option<usize>)
    ensures
        r == oe_pterm(mc),
{
    match &mc.io_bits {
        Some(io) => match io.oe {
            Some(InputGraphIOOEType::PTerm(p)) => Some(p),
            _ => None,
        },
        None => None,
    }
}

/// The product term that feeds the XOR gate of `mc`, if one does.
pub(crate) fn xor_pterm_exec(mc: &InputGraphMacrocell) -> (r: Option<usize>)
    ensures
        r == xor_pterm(mc),
{
    match &mc.xor_bits {
        Some(x) => x.andterm_input,
        None => None,
    }
}

/// The product term that enables the clock of `mc`, if one does.
pub(crate) fn ce_pterm_exec(mc: &InputGraphMacrocell) -> (r: Option<usize>)
    ensures
        r == ce_pterm(mc),
{
    match &mc.reg_bits {
        Some(r) => r.ce_input,
        None => None,
    }
}

/// The product term that clocks the register of `mc`, if one does.
pub(crate) fn clk_pterm_exec(mc: &InputGraphMacrocell) -> (r: Option<usize>)
    ensures
        r == clk_pterm(mc),
{
    match &mc.reg_bits {
        Some(r) => match r.clk_input {
            InputGraphRegClockType::PTerm(p) => Some(p),
            _ => None,
        },
        None => None,
    }
}

/// The product term that sets the register of `mc`, if one does.
pub(crate) fn set_pterm_exec(mc: &InputGraphMacrocell) -> (r: Option<usize>)
    ensures
        r == set_pterm(mc),
{
    match &mc.reg_bits {
        Some(r) => match r.set_input {
            Some(InputGraphRegRSType::PTerm(p)) => Some(p),
            _ => None,
        },
        None => None,
    }
}

/// The product term that resets the register of `mc`, if one does.
pub(crate) fn reset_pterm_exec(mc: &InputGraphMacrocell) -> (r: Option<usize>)
    ensures
        r == reset_pterm(mc),
{
    match &mc.reg_bits {
        Some(r) => match r.reset_input {
            Some(InputGraphRegRSType::PTerm(p)) => Some(p),
            _ => None,
        },
        None => None,
    }
}

/// Most uses that one macrocell can have: six special functions and the
/// inputs of its OR term.
pub const MAX_USES_PER_MC: usize = 65541;

/// Most uses that the macrocells of one function block can have.
pub const MAX_FB_USES: usize = 1048656;

/// Whether the product terms for the special functions of `mc` exist.
pub open spec fn special_refs_ok(g: &InputGraph, mc: &InputGraphMacrocell) -> bool {
    &&& (oe_pterm(mc) matches Some(p) ==> p < g.pterms@.len())
    &&& (xor_pterm(mc) matches Some(p) ==> p < g.pterms@.len())
    &&& (ce_pterm(mc) matches Some(p) ==> p < g.pterms@.len())
    &&& (clk_pterm(mc) matches Some(p) ==> p < g.pterms@.len())
    &&& (set_pterm(mc) matches Some(p) ==> p < g.pterms@.len())
    &&& (reset_pterm(mc) matches Some(p) ==> p < g.pterms@.len())
}

/// A macrocell whose references are in range refers to product terms
/// that exist.
pub proof fn lemma_special_refs(g: &InputGraph, mc: &InputGraphMacrocell)
    requires
        g.mc_refs_ok(mc),
    ensures
        special_refs_ok(g, mc),
        forall|k: int| 0 <= k < or_inputs(mc).len() ==> #[trigger] or_inputs(mc)[k] < g.pterms@.len(),
        or_inputs(mc).len() <= u16::MAX,
{
}

/// Records the uses for the special functions of `mc`, placed as
/// macrocell `mc_i`.
fn push_special_uses(
    g: &InputGraph,
    uses: &mut Vec<PTermUse>,
    misses: &mut u32,
    mc: &InputGraphMacrocell,
    mc_i: u32,
)
    requires
        special_refs_ok(g, mc),
        mc_i < MCS_PER_FB,
        *old(misses) + 6 < u32::MAX,
    ensures
        uses_view(final(uses)@) == uses_view(old(uses)@) + special_uses(g, mc, mc_i as int),
        *final(misses) == *old(misses) + special_misses(g, mc, mc_i as int),
{
    let ghost i = mc_i as int;
    let ghost u0 = uses_view(uses@);
    let ghost m0 = *misses as int;
    let oe = oe_pterm_exec(mc);
    push_use(g, uses, misses, oe, sites2(get_ptb(mc_i), CTE));
    let ghost u1 = uses_view(uses@);
    assert(u1 == u0 + opt_use(g, oe_pterm(mc), oe_sites(i)));
    let xor = xor_pterm_exec(mc);
    push_use(g, uses, misses, xor, sites1(get_ptc(mc_i)));
    let ghost u2 = uses_view(uses@);
    assert(u2 == u1 + opt_use(g, xor_pterm(mc), ptc_sites(i)));
    let ce = ce_pterm_exec(mc);
    push_use(g, uses, misses, ce, sites1(get_ptc(mc_i)));
    let ghost u3 = uses_view(uses@);
    assert(u3 == u2 + opt_use(g, ce_pterm(mc), ptc_sites(i)));
    let clk = clk_pterm_exec(mc);
    push_use(g, uses, misses, clk, sites2(get_ptc(mc_i), CTC));
    let ghost u4 = uses_view(uses@);
    assert(u4 == u3 + opt_use(g, clk_pterm(mc), clk_sites(i)));
    let set = set_pterm_exec(mc);
    push_use(g, uses, misses, set, sites2(get_pta(mc_i), CTS));
    let ghost u5 = uses_view(uses@);
    assert(u5 == u4 + opt_use(g, set_pterm(mc), set_sites(i)));
    let reset = reset_pterm_exec(mc);
    push_use(g, uses, misses, reset, sites2(get_pta(mc_i), CTR));
    let ghost u6 = uses_view(uses@);
    assert(u6 == u5 + opt_use(g, reset_pterm(mc), reset_sites(i)));
    assert(u6 =~= u0 + special_uses(g, mc, i));
}

/// Records the uses by the OR-term inputs of `mc`: those that ask for a
/// site among the constrained uses, the others among the free ones.
fn push_or_uses(
    g: &InputGraph,
    uses: &mut Vec<PTermUse>,
    free: &mut Vec<usize>,
    misses: &mut u32,
    mc: &InputGraphMacrocell,
)
    requires
        forall|k: int| 0 <= k < or_inputs(mc).len() ==> #[trigger] or_inputs(mc)[k] < g.pterms@.len(),
        *old(misses) + or_inputs(mc).len() < u32::MAX,
    ensures
        uses_view(final(uses)@) == uses_view(old(uses)@) + or_locked_uses(
            g,
            or_inputs(mc),
            or_inputs(mc).len() as int,
        ),
        free_view(final(free)@) == free_view(old(free)@) + or_free_uses(
            g,
            or_inputs(mc),
            or_inputs(mc).len() as int,
        ),
        *final(misses) == *old(misses) + or_misses(g, or_inputs(mc), or_inputs(mc).len() as int),
        or_misses(g, or_inputs(mc), or_inputs(mc).len() as int) <= or_inputs(mc).len(),
{
    match &mc.xor_bits {
        Some(x) => {
            let ins = &x.orterm_inputs;
            let n = ins.len();
            let mut j: usize = 0;
            while j < n
                invariant
                    j <= n,
                    n == ins@.len(),
                    ins@ == or_inputs(mc),
                    forall|k: int| 0 <= k < ins@.len() ==> #[trigger] ins@[k] < g.pterms@.len(),
                    *old(misses) + n < u32::MAX,
                    uses_view(uses@) == uses_view(old(uses)@) + or_locked_uses(g, ins@, j as int),
                    free_view(free@) == free_view(old(free)@) + or_free_uses(g, ins@, j as int),
                    *misses == *old(misses) + or_misses(g, ins@, j as int),
                    0 <= or_misses(g, ins@, j as int) <= j,
                decreases n - j,
            {
                let pt = ins[j];
                let ghost u0 = uses_view(uses@);
                let ghost f0 = free_view(free@);
                match pterm_loc_exec(g, pt) {
                    Some(l) => {
                        if l < 56 {
                            uses.push(PTermUse { pterm: pt, sites: sites1(l) });
                            assert(uses_view(uses@) =~= u0.push((pt, seq![l])));
                        } else {
                            *misses = *misses + 1;
                        }
                    },
                    None => {
                        free.push(pt);
                        assert(free_view(free@) =~= f0.push((pt, all_sites())));
                    },
                }
                assert(uses_view(uses@) =~= uses_view(old(uses)@) + or_locked_uses(
                    g,
                    ins@,
                    j as int + 1,
                ));
                assert(free_view(free@) =~= free_view(old(free)@) + or_free_uses(
                    g,
                    ins@,
                    j as int + 1,
                ));
                j += 1;
            }
        },
        None => {
            assert(uses_view(uses@) =~= uses_view(old(uses)@) + or_locked_uses(g, or_inputs(mc), 0));
            assert(free_view(free@) =~= free_view(old(free)@) + or_free_uses(g, or_inputs(mc), 0));
        },
    }
}

/// The free uses as contracts see them: each may sit on any AND term.
pub open spec fn free_view(free: Seq<usize>) -> Seq<SiteUse> {
    Seq::new(free.len(), |k: int| (free[k], all_sites()))
}

/// Collects the uses of product terms by a block: the constrained uses,
/// the product terms of the free uses, and the number of location
/// requests that cannot be met.
fn gather_uses(g: &InputGraph, mc_assignment: &PARFBAssignment) -> (r: (Vec<PTermUse>, Vec<usize>, u32))
    requires
        g.wf(),
        block_refs_ok(g, mc_assignment@),
    ensures
        uses_view(r.0@) == constrained_uses(g, mc_assignment@),
        free_view(r.1@) == fb_or_free_uses(g, mc_assignment@, MCS_PER_FB as int),
        r.2 == fb_misses(g, mc_assignment@),
        r.0@.len() + r.1@.len() <= MAX_FB_USES,
        r.2 <= MAX_FB_USES,
{
    let mut uses: Vec<PTermUse> = Vec::new();
    let mut free: Vec<usize> = Vec::new();
    let mut misses: u32 = 0;
    let ghost a = mc_assignment@;

    let mut mc_i: usize = 0;
    while mc_i < MCS_PER_FB
        invariant
            mc_i <= MCS_PER_FB,
            a == mc_assignment@,
            g.wf(),
            block_refs_ok(g, a),
            uses_view(uses@) == fb_special_uses(g, a, mc_i as int),
            misses == fb_special_misses(g, a, mc_i as int),
            0 <= misses <= 6 * mc_i,
            uses@.len() <= 6 * mc_i,
        decreases MCS_PER_FB - mc_i,
    {
        assert(logic_mc(a, mc_i as int) is Some ==> logic_mc(a, mc_i as int).unwrap() < g.mcs@.len());
        if let PARMCAssignment::MC(mc_g_idx) = mc_assignment[mc_i].0 {
            let this_mc = &g.mcs[mc_g_idx];
            assert(g.mc_refs_ok(&g.mcs@[mc_g_idx as int]));
            proof {
                lemma_special_refs(g, this_mc);
            }
            push_special_uses(g, &mut uses, &mut misses, this_mc, mc_i as u32);
            proof {
                lemma_special_bounds(g, this_mc, mc_i as int);
                assert(uses_view(uses@).len() == uses@.len());
            }
        } else {
            assert(uses_view(uses@) =~= fb_special_uses(g, a, mc_i as int + 1));
        }
        mc_i += 1;
    }
    let ghost special = uses_view(uses@);
    let ghost special_miss = misses;

    let mut mc_i: usize = 0;
    while mc_i < MCS_PER_FB
        invariant
            mc_i <= MCS_PER_FB,
            a == mc_assignment@,
            g.wf(),
            block_refs_ok(g, a),
            special == fb_special_uses(g, a, MCS_PER_FB as int),
            special_miss == fb_special_misses(g, a, MCS_PER_FB as int),
            special.len() <= 96,
            special_miss <= 96,
            uses_view(uses@) == special + fb_or_locked_uses(g, a, mc_i as int),
            free_view(free@) == fb_or_free_uses(g, a, mc_i as int),
            misses == special_miss + fb_or_misses(g, a, mc_i as int),
            0 <= fb_or_misses(g, a, mc_i as int) <= 65535 * mc_i,
            uses@.len() + free@.len() <= 96 + 65535 * mc_i,
        decreases MCS_PER_FB - mc_i,
    {
        assert(logic_mc(a, mc_i as int) is Some ==> logic_mc(a, mc_i as int).unwrap() < g.mcs@.len());
        if let PARMCAssignment::MC(mc_g_idx) = mc_assignment[mc_i].0 {
            let this_mc = &g.mcs[mc_g_idx];
            assert(g.mc_refs_ok(&g.mcs@[mc_g_idx as int]));
            let ghost u0 = uses_view(uses@);
            let ghost f0 = free_view(free@);
            proof {
                lemma_special_refs(g, this_mc);
            }
            push_or_uses(g, &mut uses, &mut free, &mut misses, this_mc);
            proof {
                let ins = or_inputs(this_mc);
                lemma_or_bounds(g, ins, ins.len() as int);
                assert(uses_view(uses@).len() == uses@.len());
                assert(free_view(free@).len() == free@.len());
                assert(uses_view(uses@) =~= special + fb_or_locked_uses(g, a, mc_i as int + 1));
            }
        } else {
            assert(uses_view(uses@) =~= special + fb_or_locked_uses(g, a, mc_i as int + 1));
            assert(free_view(free@) =~= fb_or_free_uses(g, a, mc_i as int + 1));
        }
        mc_i += 1;
    }
    (uses, free, misses)
}

/// A macrocell has at most six special uses, and as many misses.
pub proof fn lemma_special_bounds(g: &InputGraph, mc: &InputGraphMacrocell, i: int)
    ensures
        special_uses(g, mc, i).len() <= 6,
        0 <= special_misses(g, mc, i) <= 6,
{
    reveal(opt_use);
    reveal(opt_miss);
}

/// The OR-term inputs of a macrocell give as many uses as there are
/// inputs, no more.
pub proof fn lemma_or_bounds(g: &InputGraph, ins: Seq<usize>, n: int)
    requires
        0 <= n <= ins.len(),
    ensures
        or_locked_uses(g, ins, n).len() + or_free_uses(g, ins, n).len() + or_misses(g, ins, n)
            == n,
        or_misses(g, ins, n) >= 0,
    decreases n,
{
    if n > 0 {
        lemma_or_bounds(g, ins, n - 1);
    }
}

/// Whether `full` gives a site to each of the first `n` uses, validly,
/// and begins with `prefix`.
pub open spec fn completes(g: &InputGraph, uses: Seq<SiteUse>, n: int, prefix: Seq<u32>, full: Seq<u32>) -> bool {
    &&& full.len() == n
    &&& prefix.len() <= n
    &&& sites_valid(g, uses, full)
    &&& full.subrange(0, prefix.len() as int) == prefix
}

/// Whether the first `n` uses can be given sites validly.
pub open spec fn satisfiable(g: &InputGraph, uses: Seq<SiteUse>, n: int) -> bool {
    exists|full: Seq<u32>| #[trigger] completes(g, uses, n, Seq::empty(), full)
}

/// Finds the first use that sits on site `t`.
fn first_on_site(chosen: &Vec<u32>, t: u32) -> (r: Option<usize>)
    ensures
        match r {
            Some(j) => j < chosen@.len() && chosen@[j as int] == t && forall|i: int|
                0 <= i < j ==> chosen@[i] != t,
            None => forall|i: int| 0 <= i < chosen@.len() ==> chosen@[i] != t,
        },
{
    let mut j: usize = 0;
    while j < chosen.len()
        invariant
            j <= chosen@.len(),
            forall|i: int| 0 <= i < j ==> chosen@[i] != t,
        decreases chosen@.len() - j,
    {
        if chosen[j] == t {
            return Some(j);
        }
        j += 1;
    }
    None
}

/// The product terms of the uses `all`, use by use.
pub open spec fn pterms_of(all: Seq<SiteUse>, pts: Seq<usize>) -> bool {
    pts.len() == all.len() && forall|k: int| 0 <= k < all.len() ==> pts[k] == (#[trigger] all[k]).0
}

/// Whether use `k` may take site `t` next to the sites chosen so far: the
/// site is empty, or what sits there is structurally equal.
fn can_take(
    g: &InputGraph,
    pts: &Vec<usize>,
    chosen: &Vec<u32>,
    k: usize,
    t: u32,
    Ghost(all): Ghost<Seq<SiteUse>>,
) -> (r: bool)
    requires
        uses_ok(g, all),
        pterms_of(all, pts@),
        k < all.len(),
        chosen@.len() <= k,
        sites_valid(g, all, chosen@),
    ensures
        r == site_free_for(g, all, chosen@, k as int, t),
{
    match first_on_site(chosen, t) {
        None => true,
        Some(j) => {
            assert(all[j as int].0 < g.pterms@.len());
            assert(all[k as int].0 < g.pterms@.len());
            let r = g.pterms[pts[j]].equals(&g.pterms[pts[k]]);
            proof {
                if r {
                    assert forall|i: int|
                        0 <= i < chosen@.len() && #[trigger] chosen@[i]
                            == t implies g.pterms@[all[i].0 as int].spec_equals(
                        &g.pterms@[all[k as int].0 as int],
                    ) by {
                        if i != j {
                            assert(chosen@[j as int] == chosen@[i]);
                            crate::netlist::lemma_pterm_equals_equivalence(
                                &g.pterms@[all[i].0 as int],
                                &g.pterms@[all[j as int].0 as int],
                                &g.pterms@[all[k as int].0 as int],
                            );
                            crate::netlist::lemma_pterm_equals_equivalence(
                                &g.pterms@[all[j as int].0 as int],
                                &g.pterms@[all[i].0 as int],
                                &g.pterms@[all[k as int].0 as int],
                            );
                        }
                    }
                } else {
                    assert(chosen@[j as int] == t);
                }
            }
            r
        },
    }
}

/// Giving use `k` a site that is free for it keeps the sites valid.
proof fn lemma_push_valid(g: &InputGraph, all: Seq<SiteUse>, chosen: Seq<u32>, t: u32)
    requires
        sites_valid(g, all, chosen),
        chosen.len() < all.len(),
        all[chosen.len() as int].1.contains(t),
        site_free_for(g, all, chosen, chosen.len() as int, t),
    ensures
        sites_valid(g, all, chosen.push(t)),
{
    let next = chosen.push(t);
    assert forall|k: int| 0 <= k < next.len() implies (#[trigger] all[k]).1.contains(next[k]) by {
        if k < chosen.len() {
            assert(next[k] == chosen[k]);
        }
    }
    assert forall|j: int, k: int|
        0 <= j < k < next.len() && #[trigger] next[j] == #[trigger] next[k]
        implies g.pterms@[all[j].0 as int].spec_equals(&g.pterms@[all[k].0 as int]) by {
        if k < chosen.len() {
            assert(chosen[j] == chosen[k]);
        } else {
            assert(chosen[j] == t);
        }
    }
}

/// A valid choice of sites, cut short, is still valid, and its next site
/// was free for the use that took it.
proof fn lemma_prefix_valid(g: &InputGraph, all: Seq<SiteUse>, full: Seq<u32>, n: int)
    requires
        sites_valid(g, all, full),
        0 <= n < full.len(),
    ensures
        sites_valid(g, all, full.subrange(0, n)),
        site_free_for(g, all, full.subrange(0, n), n, full[n]),
        all[n].1.contains(full[n]),
{
    let pre = full.subrange(0, n);
    assert forall|j: int, k: int|
        0 <= j < k < pre.len() && #[trigger] pre[j] == #[trigger] pre[k]
        implies g.pterms@[all[j].0 as int].spec_equals(&g.pterms@[all[k].0 as int]) by {
        assert(full[j] == full[k]);
    }
    assert forall|j: int| 0 <= j < pre.len() && #[trigger] pre[j] == full[n]
        implies g.pterms@[all[j].0 as int].spec_equals(&g.pterms@[all[n].0 as int]) by {
        assert(full[j] == full[n]);
    }
}

/// Where `t` stands in `sites`: the least index that holds it, or the
/// length of `sites` if none does.
pub open spec fn site_pos(sites: Seq<u32>, t: u32) -> int
    decreases sites.len(),
{
    if sites.len() == 0 {
        0
    } else if sites[0] == t {
        0
    } else {
        1 + site_pos(sites.drop_first(), t)
    }
}

/// `site_pos` is the least index that holds the site.
pub proof fn lemma_site_pos(sites: Seq<u32>, t: u32)
    ensures
        0 <= site_pos(sites, t) <= sites.len(),
        forall|c: int| 0 <= c < site_pos(sites, t) ==> sites[c] != t,
        site_pos(sites, t) < sites.len() ==> sites[site_pos(sites, t)] == t,
    decreases sites.len(),
{
    if sites.len() > 0 && sites[0] != t {
        let rest = sites.drop_first();
        lemma_site_pos(rest, t);
        assert forall|c: int| 0 <= c < site_pos(sites, t) implies sites[c] != t by {
            if c > 0 {
                assert(rest[c - 1] == sites[c]);
            }
        }
        if site_pos(sites, t) < sites.len() {
            assert(rest[site_pos(rest, t)] == sites[site_pos(sites, t)]);
        }
    }
}

/// Whether the choice of sites `a` comes before `b` in the order of the
/// search: where the two first differ, the site of `a` stands earlier
/// among the sites of the use.
pub open spec fn sited_before(uses: Seq<SiteUse>, a: Seq<u32>, b: Seq<u32>) -> bool {
    exists|k: int|
        0 <= k < a.len() && k < b.len() && k < uses.len() && a.subrange(0, k) == b.subrange(0, k)
            && site_pos(uses[k].1, #[trigger] a[k]) < site_pos(uses[k].1, b[k])
}

/// Whether `full` is the first of the valid choices of sites for the
/// first `n` uses that begin with `prefix`, in the order of the search.
pub open spec fn first_sites(
    g: &InputGraph,
    uses: Seq<SiteUse>,
    n: int,
    prefix: Seq<u32>,
    full: Seq<u32>,
) -> bool {
    &&& completes(g, uses, n, prefix, full)
    &&& forall|other: Seq<u32>| #[trigger]
        completes(g, uses, n, prefix, other) ==> other == full || sited_before(uses, full, other)
}

/// The place, among the first `upto` sites of use `k`, of the last one
/// that the use may take next to the sites `chosen`; -1 where it may take
/// none of them.
pub open spec fn last_fit(g: &InputGraph, uses: Seq<SiteUse>, chosen: Seq<u32>, k: int, upto: int) -> int
    decreases upto,
{
    if upto <= 0 {
        -1
    } else if site_free_for(g, uses, chosen, k, uses[k].1[upto - 1]) {
        upto - 1
    } else {
        last_fit(g, uses, chosen, k, upto - 1)
    }
}

/// How many of the first `n` uses have a site when each use after those
/// of `chosen` takes the last of its sites that it may take, until a use
/// finds none. A search that tries the sites in order and fails makes its
/// last placement at the end of this chain.
pub open spec fn last_chain(g: &InputGraph, uses: Seq<SiteUse>, n: int, chosen: Seq<u32>) -> int
    decreases n - chosen.len(),
{
    let k = chosen.len() as int;
    if k >= n {
        k
    } else {
        let c = last_fit(g, uses, chosen, k, uses[k].1.len() as int);
        if c < 0 {
            k
        } else {
            last_chain(g, uses, n, chosen.push(uses[k].1[c]))
        }
    }
}

/// A valid choice of sites that begins like the choice `fin` that the
/// search found, and whose next site none of the sites tried before is,
/// is `fin` or comes after it.
proof fn lemma_later_sites(
    g: &InputGraph,
    all: Seq<SiteUse>,
    n: int,
    prefix: Seq<u32>,
    fin: Seq<u32>,
    other: Seq<u32>,
    ci: int,
)
    requires
        prefix.len() < n <= all.len(),
        0 <= ci < all[prefix.len() as int].1.len(),
        fin.len() == n,
        fin.subrange(0, prefix.len() as int) == prefix,
        fin[prefix.len() as int] == all[prefix.len() as int].1[ci],
        completes(g, all, n, prefix, other),
        forall|c: int|
            0 <= c < ci ==> other[prefix.len() as int] != #[trigger] all[prefix.len() as int].1[c],
        forall|x: Seq<u32>| #[trigger]
            completes(g, all, n, prefix.push(all[prefix.len() as int].1[ci]), x) ==> x == fin
                || sited_before(all, fin, x),
    ensures
        other == fin || sited_before(all, fin, other),
{
    let idx = prefix.len() as int;
    let sites = all[idx].1;
    let t = sites[ci];
    if other[idx] == t {
        assert(other.subrange(0, idx + 1) =~= prefix.push(t)) by {
            assert forall|i: int| 0 <= i < idx implies other[i] == prefix[i] by {
                assert(other.subrange(0, idx)[i] == prefix[i]);
            }
        }
        assert(completes(g, all, n, prefix.push(t), other));
    } else {
        // the site of `fin` stands at `ci` or before; that of `other` behind
        lemma_site_pos(sites, t);
        lemma_site_pos(sites, other[idx]);
        assert(sites.contains(other[idx]));
        assert(site_pos(sites, t) < site_pos(sites, other[idx]));
        assert(fin.subrange(0, idx) == other.subrange(0, idx));
    }
}

/// Depth-first search for sites for the constrained uses, each use
/// trying its sites in order. On success `chosen` holds a site for every
/// constrained use; on failure it is as before, and no valid choice that
/// begins with it exists.
fn backtrack_andterms(
    g: &InputGraph,
    uses: &Vec<PTermUse>,
    pts: &Vec<usize>,
    Ghost(all): Ghost<Seq<SiteUse>>,
    chosen: &mut Vec<u32>,
    most_placed: &mut u32,
) -> (r: bool)
    requires
        uses_ok(g, all),
        pterms_of(all, pts@),
        uses@.len() <= all.len(),
        all.len() < u32::MAX,
        uses_view(uses@) == all.subrange(0, uses@.len() as int),
        sites_valid(g, all, old(chosen)@),
        old(chosen)@.len() <= uses@.len(),
        *old(most_placed) == old(chosen)@.len(),
    ensures
        r ==> first_sites(g, all, uses@.len() as int, old(chosen)@, final(chosen)@),
        r ==> *final(most_placed) == uses@.len(),
        !r ==> final(chosen)@ == old(chosen)@ && *final(most_placed) < uses@.len(),
        !r ==> *final(most_placed) == last_chain(g, all, uses@.len() as int, old(chosen)@),
        !r ==> forall|full: Seq<u32>|
            !#[trigger] completes(g, all, uses@.len() as int, old(chosen)@, full),
    decreases uses@.len() - old(chosen)@.len(),
{
    let idx = chosen.len();
    let nc = uses.len();
    if idx == nc {
        proof {
            assert(chosen@.subrange(0, chosen@.len() as int) == chosen@);
            assert forall|other: Seq<u32>| #[trigger]
                completes(g, all, nc as int, chosen@, other) implies other == chosen@ by {
                assert(other.subrange(0, nc as int) =~= other);
            }
        }
        return true;
    }
    let sites = &uses[idx].sites;
    assert(uses_view(uses@)[idx as int] == all[idx as int]);
    assert(sites@ == all[idx as int].1);
    let mut ci: usize = 0;
    while ci < sites.len()
        invariant
            ci <= sites@.len(),
            idx < nc,
            nc == uses@.len(),
            idx == old(chosen)@.len(),
            sites@ == all[idx as int].1,
            uses_ok(g, all),
            pterms_of(all, pts@),
            nc <= all.len(),
            all.len() < u32::MAX,
            uses_view(uses@) == all.subrange(0, uses@.len() as int),
            chosen@ == old(chosen)@,
            sites_valid(g, all, chosen@),
            *most_placed < nc,
            *most_placed == (if last_fit(g, all, chosen@, idx as int, ci as int) < 0 {
                idx as int
            } else {
                last_chain(
                    g,
                    all,
                    nc as int,
                    chosen@.push(sites@[last_fit(g, all, chosen@, idx as int, ci as int)]),
                )
            }),
            forall|c: int, full: Seq<u32>|
                0 <= c < ci && #[trigger] completes(g, all, nc as int, old(chosen)@, full)
                    ==> full[idx as int] != #[trigger] sites@[c],
        decreases sites@.len() - ci,
    {
        let t = sites[ci];
        if can_take(g, pts, chosen, idx, t, Ghost(all)) {
            proof {
                assert(all[idx as int].1[ci as int] == t);
                lemma_push_valid(g, all, chosen@, t);
            }
            chosen.push(t);
            *most_placed = idx as u32 + 1;
            let ghost pushed = chosen@;
            if backtrack_andterms(g, uses, pts, Ghost(all), chosen, most_placed) {
                proof {
                    let fin = chosen@;
                    assert(fin.subrange(0, idx as int) =~= pushed.subrange(0, idx as int)) by {
                        assert(fin.subrange(0, pushed.len() as int) == pushed);
                        assert forall|i: int| 0 <= i < idx implies fin.subrange(0, idx as int)[i]
                            == pushed.subrange(0, idx as int)[i] by {
                            assert(fin.subrange(0, pushed.len() as int)[i] == pushed[i]);
                        }
                    }
                    assert(pushed.subrange(0, idx as int) =~= old(chosen)@);
                    assert(fin[idx as int] == t) by {
                        assert(fin.subrange(0, pushed.len() as int)[idx as int] == pushed[idx as int]);
                    }
                    assert forall|other: Seq<u32>| #[trigger]
                        completes(g, all, nc as int, old(chosen)@, other) implies other == fin
                        || sited_before(all, fin, other) by {
                        lemma_later_sites(g, all, nc as int, old(chosen)@, fin, other, ci as int);
                    }
                }
                return true;
            }
            chosen.pop();
            proof {
                assert(chosen@ =~= old(chosen)@);
                assert(last_fit(g, all, chosen@, idx as int, ci + 1) == ci);
                assert(pushed == chosen@.push(sites@[ci as int]));
                assert forall|full: Seq<u32>| #[trigger]
                    completes(g, all, nc as int, old(chosen)@, full) implies full[idx as int]
                    != t by {
                    if full[idx as int] == t {
                        assert(full.subrange(0, idx as int + 1) =~= old(chosen)@.push(t)) by {
                            assert forall|i: int| 0 <= i < idx implies full[i] == old(chosen)@[i] by {
                                assert(full.subrange(0, idx as int)[i] == old(chosen)@[i]);
                            }
                        }
                        assert(completes(g, all, nc as int, pushed, full));
                    }
                }
            }
        } else {
            proof {
                assert(last_fit(g, all, chosen@, idx as int, ci + 1) == last_fit(
                    g,
                    all,
                    chosen@,
                    idx as int,
                    ci as int,
                ));
                assert forall|full: Seq<u32>| #[trigger]
                    completes(g, all, nc as int, old(chosen)@, full) implies full[idx as int]
                    != t by {
                    if full[idx as int] == t {
                        lemma_prefix_valid(g, all, full, idx as int);
                        assert(full.subrange(0, idx as int) == chosen@);
                    }
                }
            }
        }
        ci += 1;
    }
    proof {
        assert forall|full: Seq<u32>| !#[trigger] completes(
            g,
            all,
            nc as int,
            old(chosen)@,
            full,
        ) by {
            if completes(g, all, nc as int, old(chosen)@, full) {
                assert(all[idx as int].1.contains(full[idx as int]));
                let c = choose|c: int| 0 <= c < sites@.len() && sites@[c] == full[idx as int];
                assert(full[idx as int] != sites@[c]);
            }
        }
    }
    false
}

/// Fewer than `m` numbers leave one of `0..m` out.
pub proof fn lemma_some_site_unused(s: Seq<u32>, m: nat)
    requires
        s.len() < m,
        m <= u32::MAX,
    ensures
        exists|t: u32| t < m && !s.contains(t),
    decreases m,
{
    let top = (m - 1) as u32;
    if !s.contains(top) {
        assert(top < m && !s.contains(top));
    } else {
        let i = choose|i: int| 0 <= i < s.len() && s[i] == top;
        // drop one occurrence of the top number and rename the others to 0
        let rest = s.remove(i);
        let renamed = Seq::new(rest.len(), |j: int| if rest[j] == top { 0u32 } else { rest[j] });
        assert(m >= 2);
        lemma_some_site_unused(renamed, (m - 1) as nat);
        let t = choose|t: u32| t < m - 1 && !renamed.contains(t);
        assert forall|j: int| 0 <= j < s.len() implies s[j] != t by {
            if j != i {
                let jr = if j < i { j } else { j - 1 };
                assert(rest[jr] == s[j]);
                assert(renamed[jr] == (if rest[jr] == top { 0u32 } else { rest[jr] }));
                assert(renamed.contains(renamed[jr]));
            }
        }
        assert(t < m && !s.contains(t));
    }
}

/// Whether one of the uses of product term `p` allows site `t`.
pub open spec fn site_allowed(uses: Seq<SiteUse>, p: usize, t: u32) -> bool {
    exists|k: int| 0 <= k < uses.len() && (#[trigger] uses[k]).0 == p && uses[k].1.contains(t)
}

/// Whether product term `p` has a location in block `fb_i`, on a site
/// that one of its uses allows.
pub open spec fn pterm_sited(uses: Seq<SiteUse>, out: Seq<OutputGraphPTerm>, fb_i: u32, p: usize) -> bool {
    out[p as int].loc matches Some(l) && l.fb == fb_i && site_allowed(uses, p, l.i)
}

/// What a successful assignment leaves in the output graph, for the uses
/// `uses` of block `fb_i`: every product term in use has a location in the
/// block, on a site allowed to one of its uses; product terms on the same
/// site are structurally equal; and no other location changed.
pub open spec fn andterms_assigned(
    g: &InputGraph,
    before: Seq<OutputGraphPTerm>,
    after: Seq<OutputGraphPTerm>,
    uses: Seq<SiteUse>,
    fb_i: u32,
) -> bool {
    &&& forall|k: int| 0 <= k < uses.len() ==> pterm_sited(uses, after, fb_i, (#[trigger] uses[k]).0)
    &&& forall|j: int, k: int|
        0 <= j < uses.len() && 0 <= k < uses.len() && after[(#[trigger] uses[j]).0 as int].loc
            == after[(#[trigger] uses[k]).0 as int].loc ==> g.pterms@[uses[j].0 as int].spec_equals(
            &g.pterms@[uses[k].0 as int],
        )
    &&& forall|q: int|
        0 <= q < before.len() && unused(uses, q) ==> (#[trigger] after[q]).loc == before[q].loc
}

/// Whether no use is of product term `q`.
pub open spec fn unused(uses: Seq<SiteUse>, q: int) -> bool {
    forall|k: int| 0 <= k < uses.len() ==> (#[trigger] uses[k]).0 != q
}

/// The two lists of product terms and what all of the output graph except
/// the locations of product terms holds are as before.
pub open spec fn only_pterm_locs_differ(before: &OutputGraph, after: &OutputGraph) -> bool {
    &&& after.mcs == before.mcs
    &&& after.bufg_clks == before.bufg_clks
    &&& after.bufg_gts == before.bufg_gts
    &&& after.bufg_gsr == before.bufg_gsr
    &&& after.zia == before.zia
    &&& after.pterms@.len() == before.pterms@.len()
    &&& forall|q: int|
        0 <= q < before.pterms@.len() ==> (#[trigger] after.pterms@[q]).inputs_true_zia
            == before.pterms@[q].inputs_true_zia && after.pterms@[q].inputs_comp_zia
            == before.pterms@[q].inputs_comp_zia
}

/// The uses of a block refer to product terms that exist.
pub proof fn lemma_fb_uses_refs(g: &InputGraph, a: Seq<(PARMCAssignment, PARMCAssignment)>)
    requires
        g.wf(),
        block_refs_ok(g, a),
    ensures
        forall|k: int|
            0 <= k < fb_uses(g, a).len() ==> (#[trigger] fb_uses(g, a)[k]).0 < g.pterms@.len(),
{
    lemma_fb_uses_ok(g, a);
}

/// The uses of a block refer to product terms and AND terms that exist.
pub proof fn lemma_fb_uses_ok(g: &InputGraph, a: Seq<(PARMCAssignment, PARMCAssignment)>)
    requires
        g.wf(),
        block_refs_ok(g, a),
    ensures
        uses_ok(g, fb_uses(g, a)),
{
    lemma_special_ok(g, a, MCS_PER_FB as int);
    lemma_or_ok(g, a, MCS_PER_FB as int);
}

/// The special uses of a block refer to product terms and AND terms that
/// exist.
proof fn lemma_special_ok(g: &InputGraph, a: Seq<(PARMCAssignment, PARMCAssignment)>, n: int)
    requires
        g.wf(),
        block_refs_ok(g, a),
        0 <= n <= MCS_PER_FB,
    ensures
        uses_ok(g, fb_special_uses(g, a, n)),
    decreases n,
{
    if n > 0 {
        lemma_special_ok(g, a, n - 1);
        match logic_mc(a, n - 1) {
            Some(m) => {
                let mc = &g.mcs@[m as int];
                assert(g.mc_refs_ok(mc));
                lemma_special_refs(g, mc);
                lemma_mc_special_ok(g, mc, n - 1);
            },
            None => {},
        }
    }
}

/// The use of an existing product term on sites that exist, narrowed by
/// its location request, is on sites that exist.
proof fn lemma_opt_use_ok(g: &InputGraph, p: Option<usize>, sites: Seq<u32>)
    requires
        p matches Some(x) ==> x < g.pterms@.len(),
        forall|c: int| 0 <= c < sites.len() ==> #[trigger] sites[c] < ANDTERMS_PER_FB,
    ensures
        uses_ok(g, opt_use(g, p, sites)),
{
    reveal(opt_use);
}

/// The special uses of a macrocell refer to product terms and AND terms
/// that exist.
proof fn lemma_mc_special_ok(g: &InputGraph, mc: &InputGraphMacrocell, i: int)
    requires
        special_refs_ok(g, mc),
        0 <= i < MCS_PER_FB,
    ensures
        uses_ok(g, special_uses(g, mc, i)),
{
    lemma_opt_use_ok(g, oe_pterm(mc), oe_sites(i));
    lemma_opt_use_ok(g, xor_pterm(mc), ptc_sites(i));
    lemma_opt_use_ok(g, ce_pterm(mc), ptc_sites(i));
    lemma_opt_use_ok(g, clk_pterm(mc), clk_sites(i));
    lemma_opt_use_ok(g, set_pterm(mc), set_sites(i));
    lemma_opt_use_ok(g, reset_pterm(mc), reset_sites(i));
}

/// The uses by OR-term inputs refer to product terms and AND terms that
/// exist.
proof fn lemma_or_ok(g: &InputGraph, a: Seq<(PARMCAssignment, PARMCAssignment)>, n: int)
    requires
        g.wf(),
        block_refs_ok(g, a),
        0 <= n <= MCS_PER_FB,
    ensures
        uses_ok(g, fb_or_locked_uses(g, a, n)),
        uses_ok(g, fb_or_free_uses(g, a, n)),
    decreases n,
{
    if n > 0 {
        lemma_or_ok(g, a, n - 1);
        match logic_mc(a, n - 1) {
            Some(m) => {
                let mc = &g.mcs@[m as int];
                assert(g.mc_refs_ok(mc));
                lemma_special_refs(g, mc);
                lemma_mc_or_ok(g, or_inputs(mc), or_inputs(mc).len() as int);
            },
            None => {},
        }
    }
}

/// The uses by the OR-term inputs of one macrocell refer to product
/// terms and AND terms that exist.
proof fn lemma_mc_or_ok(g: &InputGraph, ins: Seq<usize>, n: int)
    requires
        forall|k: int| 0 <= k < ins.len() ==> #[trigger] ins[k] < g.pterms@.len(),
        0 <= n <= ins.len(),
    ensures
        uses_ok(g, or_locked_uses(g, ins, n)),
        uses_ok(g, or_free_uses(g, ins, n)),
    decreases n,
{
    if n > 0 {
        lemma_mc_or_ok(g, ins, n - 1);
    }
}

/// Whether use `k` sits on the first site that was free for it when its
/// turn came: the lowest AND term that was empty or held an equal product
/// term.
pub open spec fn first_fit(g: &InputGraph, all: Seq<SiteUse>, chosen: Seq<u32>, k: int) -> bool {
    &&& chosen[k] < ANDTERMS_PER_FB
    &&& site_free_for(g, all, chosen.subrange(0, k), k, chosen[k])
    &&& forall|s: u32|
        s < chosen[k] ==> !#[trigger] site_free_for(g, all, chosen.subrange(0, k), k, s)
}

/// Whether `chosen` is the choice of sites that the assignment makes for
/// the uses `all`, of which the first `nc` are constrained: for the
/// constrained uses the first valid choice in the order of the search, and
/// for every other use the first site that is free for it.
pub open spec fn sites_chosen(g: &InputGraph, all: Seq<SiteUse>, nc: int, chosen: Seq<u32>) -> bool {
    &&& chosen.len() == all.len()
    &&& 0 <= nc <= all.len()
    &&& first_sites(g, all, nc, Seq::empty(), chosen.subrange(0, nc))
    &&& forall|k: int| nc <= k < all.len() ==> #[trigger] first_fit(g, all, chosen, k)
}

/// Whether the uses `all` can be given sites as the assignment gives
/// them.
pub open spec fn choosable(g: &InputGraph, all: Seq<SiteUse>, nc: int) -> bool {
    exists|chosen: Seq<u32>| #[trigger] sites_chosen(g, all, nc, chosen)
}

/// There is only one first choice of sites.
pub proof fn lemma_first_sites_unique(
    g: &InputGraph,
    uses: Seq<SiteUse>,
    n: int,
    a: Seq<u32>,
    b: Seq<u32>,
)
    requires
        first_sites(g, uses, n, Seq::empty(), a),
        first_sites(g, uses, n, Seq::empty(), b),
    ensures
        a == b,
{
    if a != b {
        assert(sited_before(uses, a, b));
        assert(sited_before(uses, b, a));
        let k = choose|k: int|
            0 <= k < a.len() && k < b.len() && k < uses.len() && a.subrange(0, k) == b.subrange(0, k)
                && site_pos(uses[k].1, #[trigger] a[k]) < site_pos(uses[k].1, b[k]);
        let j = choose|j: int|
            0 <= j < b.len() && j < a.len() && j < uses.len() && b.subrange(0, j) == a.subrange(0, j)
                && site_pos(uses[j].1, #[trigger] b[j]) < site_pos(uses[j].1, a[j]);
        if k < j {
            assert(b.subrange(0, j)[k] == a.subrange(0, j)[k]);
        } else if j < k {
            assert(a.subrange(0, k)[j] == b.subrange(0, k)[j]);
        }
    }
}

/// Whether `sofar` gives sites to the uses before one for which none is
/// left: it holds the first choice for the `nc` constrained uses, then a
/// first fit for each use that follows, and the use after those can take
/// no AND term at all.
pub open spec fn stuck_at(g: &InputGraph, all: Seq<SiteUse>, nc: int, sofar: Seq<u32>) -> bool {
    &&& 0 <= nc <= sofar.len() < all.len()
    &&& first_sites(g, all, nc, Seq::empty(), sofar.subrange(0, nc))
    &&& forall|j: int| nc <= j < sofar.len() ==> #[trigger] first_fit(g, all, sofar, j)
    &&& forall|s: u32|
        s < ANDTERMS_PER_FB ==> !#[trigger] site_free_for(g, all, sofar, sofar.len() as int, s)
}

/// Whether `x` uses are counted as left without a site when the uses
/// `all` cannot all be sited. Where the constrained uses cannot be sited
/// together, the count goes from the last placement that the search
/// made; else from the first use for which no AND term is left.
pub open spec fn uses_left(g: &InputGraph, all: Seq<SiteUse>, nc: int, x: int) -> bool {
    ||| !satisfiable(g, all, nc) && x == all.len() - last_chain(g, all, nc, Seq::empty())
    ||| exists|sofar: Seq<u32>| #[trigger] stuck_at(g, all, nc, sofar) && x == all.len() - sofar.len()
}

/// Two choices that both begin with the first choice for the constrained
/// uses and go on with first fits agree as far as both go.
proof fn lemma_fits_agree(
    g: &InputGraph,
    all: Seq<SiteUse>,
    nc: int,
    x: Seq<u32>,
    y: Seq<u32>,
    k: int,
)
    requires
        0 <= nc <= k,
        k <= x.len(),
        k <= y.len(),
        first_sites(g, all, nc, Seq::empty(), x.subrange(0, nc)),
        first_sites(g, all, nc, Seq::empty(), y.subrange(0, nc)),
        forall|j: int| nc <= j < k ==> #[trigger] first_fit(g, all, x, j),
        forall|j: int| nc <= j < k ==> #[trigger] first_fit(g, all, y, j),
    ensures
        x.subrange(0, k) == y.subrange(0, k),
    decreases k - nc,
{
    if k == nc {
        lemma_first_sites_unique(g, all, nc, x.subrange(0, nc), y.subrange(0, nc));
    } else {
        lemma_fits_agree(g, all, nc, x, y, k - 1);
        assert(first_fit(g, all, x, k - 1));
        assert(first_fit(g, all, y, k - 1));
        // the first fit is the same for the same state
        if x[k - 1] < y[k - 1] {
            assert(!site_free_for(g, all, y.subrange(0, k - 1), k - 1, x[k - 1]));
        }
        if y[k - 1] < x[k - 1] {
            assert(!site_free_for(g, all, x.subrange(0, k - 1), k - 1, y[k - 1]));
        }
        assert forall|i: int| 0 <= i < k implies x.subrange(0, k)[i] == y.subrange(0, k)[i] by {
            if i < k - 1 {
                assert(x.subrange(0, k - 1)[i] == y.subrange(0, k - 1)[i]);
            }
        }
        assert(x.subrange(0, k) =~= y.subrange(0, k));
    }
}

/// The count of the uses that are left without a site is one number,
/// and there is none where the uses can be sited as the assignment sites
/// them.
pub proof fn lemma_uses_left_unique(g: &InputGraph, all: Seq<SiteUse>, nc: int, x: int, y: int)
    requires
        uses_left(g, all, nc, x),
    ensures
        uses_left(g, all, nc, y) ==> x == y,
        !choosable(g, all, nc),
{
    if !satisfiable(g, all, nc) {
        assert forall|c: Seq<u32>| !#[trigger] sites_chosen(g, all, nc, c) by {
            if sites_chosen(g, all, nc, c) {
                assert(completes(g, all, nc, Seq::empty(), c.subrange(0, nc)));
            }
        }
        if uses_left(g, all, nc, y) && x != y {
            let t = choose|t: Seq<u32>| #[trigger] stuck_at(g, all, nc, t);
            assert(completes(g, all, nc, Seq::empty(), t.subrange(0, nc)));
        }
    } else {
        let sx = choose|sofar: Seq<u32>| #[trigger]
            stuck_at(g, all, nc, sofar) && x == all.len() - sofar.len();
        let kx = sx.len() as int;
        assert forall|c: Seq<u32>| !#[trigger] sites_chosen(g, all, nc, c) by {
            if sites_chosen(g, all, nc, c) {
                lemma_fits_agree(g, all, nc, c, sx, kx);
                assert(sx.subrange(0, kx) =~= sx);
                assert(first_fit(g, all, c, kx));
            }
        }
        if uses_left(g, all, nc, y) && x != y {
            let sy = choose|sofar: Seq<u32>| #[trigger]
                stuck_at(g, all, nc, sofar) && y == all.len() - sofar.len();
            let ky = sy.len() as int;
            if kx < ky {
                lemma_fits_agree(g, all, nc, sy, sx, kx);
                assert(sx.subrange(0, kx) =~= sx);
                assert(first_fit(g, all, sy, kx));
            } else {
                lemma_fits_agree(g, all, nc, sx, sy, ky);
                assert(sy.subrange(0, ky) =~= sy);
                assert(first_fit(g, all, sx, ky));
            }
        }
    }
}

/// The score of the attempt to assign the AND terms of block `a`: the
/// uses that ask for a site they cannot have, or else the uses that are
/// left without a site; 0 where the attempt succeeds.
pub open spec fn andterm_score(g: &InputGraph, a: Seq<(PARMCAssignment, PARMCAssignment)>) -> int {
    let all = fb_uses(g, a);
    let nc = constrained_uses(g, a).len() as int;
    if fb_misses(g, a) != 0 {
        fb_misses(g, a)
    } else if choosable(g, all, nc) {
        0
    } else {
        choose|x: int| uses_left(g, all, nc, x)
    }
}

impl AndTermAssignmentResult {
    /// The score that the result stands for.
    pub open spec fn score(&self) -> int {
        match *self {
            AndTermAssignmentResult::Success => 0,
            AndTermAssignmentResult::FailurePtermLOCUnsatisfiable(c) => c as int,
            AndTermAssignmentResult::FailurePtermExceeded(x) => x as int,
        }
    }
}

/// What a successful assignment of the AND terms of block `a` leaves:
/// no use asks for a site it cannot have; the locations of the product
/// terms in use are those of the sites that the assignment chooses; and
/// so they are as `andterms_assigned` says.
pub open spec fn andterms_succeeded(
    g: &InputGraph,
    before: Seq<OutputGraphPTerm>,
    after: Seq<OutputGraphPTerm>,
    a: Seq<(PARMCAssignment, PARMCAssignment)>,
    fb_i: u32,
) -> bool {
    &&& fb_misses(g, a) == 0
    &&& andterms_assigned(g, before, after, fb_uses(g, a), fb_i)
    &&& exists|chosen: Seq<u32>|
        sites_chosen(g, fb_uses(g, a), constrained_uses(g, a).len() as int, chosen)
            && #[trigger] located_by(fb_uses(g, a), chosen, after, fb_i)
}

/// Assigns the product terms that block `fb_i` needs, given the
/// macrocells in it, to its AND terms, and records the location of each
/// in `go`.
///
/// Fails with `FailurePtermLOCUnsatisfiable` and the number of uses whose
/// location request cannot be met, if there is one. Else the constrained
/// uses are searched depth first, each trying its sites in order, and the
/// other uses then take the first site that is empty or holds an equal
/// product term; a use that finds no site fails the attempt with
/// `FailurePtermExceeded`. A failed attempt leaves `go` unchanged.
pub fn try_assign_andterms(
    g: &InputGraph,
    go: &mut OutputGraph,
    mc_assignment: &PARFBAssignment,
    fb_i: u32,
) -> (r: AndTermAssignmentResult)
    requires
        g.wf(),
        block_refs_ok(g, mc_assignment@),
        old(go).pterms@.len() == g.pterms@.len(),
    ensures
        only_pterm_locs_differ(old(go), final(go)),
        match r {
            AndTermAssignmentResult::Success => andterms_succeeded(
                g,
                old(go).pterms@,
                final(go).pterms@,
                mc_assignment@,
                fb_i,
            ),
            AndTermAssignmentResult::FailurePtermLOCUnsatisfiable(c) => {
                &&& c == fb_misses(g, mc_assignment@)
                &&& 0 < c <= MAX_FB_USES
                &&& final(go).pterms@ == old(go).pterms@
            },
            AndTermAssignmentResult::FailurePtermExceeded(x) => {
                &&& fb_misses(g, mc_assignment@) == 0
                &&& 1 <= x <= fb_uses(g, mc_assignment@).len()
                &&& x <= MAX_FB_USES
                &&& uses_left(
                    g,
                    fb_uses(g, mc_assignment@),
                    constrained_uses(g, mc_assignment@).len() as int,
                    x as int,
                )
                &&& final(go).pterms@ == old(go).pterms@
            },
        },
        r is Success <==> fb_misses(g, mc_assignment@) == 0 && choosable(
            g,
            fb_uses(g, mc_assignment@),
            constrained_uses(g, mc_assignment@).len() as int,
        ),
        r.score() == andterm_score(g, mc_assignment@),
        fb_misses(g, mc_assignment@) == 0 && !satisfiable(
            g,
            constrained_uses(g, mc_assignment@),
            constrained_uses(g, mc_assignment@).len() as int,
        ) ==> r is FailurePtermExceeded,
        fb_misses(g, mc_assignment@) == 0 && satisfiable(
            g,
            constrained_uses(g, mc_assignment@),
            constrained_uses(g, mc_assignment@).len() as int,
        ) && fb_uses(g, mc_assignment@).len() <= ANDTERMS_PER_FB ==> r is Success,
{
    let (uses, free, misses) = gather_uses(g, mc_assignment);
    if misses > 0 {
        return AndTermAssignmentResult::FailurePtermLOCUnsatisfiable(misses);
    }
    let ghost cu = constrained_uses(g, mc_assignment@);
    let ghost all = fb_uses(g, mc_assignment@);
    let nc = uses.len();
    let n = nc + free.len();
    proof {
        lemma_fb_uses_ok(g, mc_assignment@);
        assert(uses_view(uses@).len() == nc);
        assert(free_view(free@).len() == free@.len());
        assert(all.len() == n);
        assert(all.subrange(0, nc as int) =~= cu);
    }

    // the product term of every use
    let mut pts: Vec<usize> = Vec::new();
    let mut k: usize = 0;
    while k < nc
        invariant
            k <= nc,
            nc == uses@.len(),
            pts@.len() == k,
            uses_view(uses@) == all.subrange(0, nc as int),
            nc <= all.len(),
            forall|j: int| 0 <= j < k ==> pts@[j] == (#[trigger] all[j]).0,
        decreases nc - k,
    {
        assert(uses_view(uses@)[k as int] == all[k as int]);
        pts.push(uses[k].pterm);
        k += 1;
    }
    let mut f: usize = 0;
    while f < free.len()
        invariant
            f <= free@.len(),
            nc == uses@.len(),
            n == nc + free@.len(),
            all.len() == n,
            pts@.len() == nc + f,
            all == cu + free_view(free@),
            cu.len() == nc,
            forall|j: int| 0 <= j < nc + f ==> pts@[j] == (#[trigger] all[j]).0,
        decreases free@.len() - f,
    {
        assert(all[nc + f] == free_view(free@)[f as int]);
        pts.push(free[f]);
        f += 1;
    }

    proof {
        assert(pterms_of(all, pts@));
    }
    let mut chosen: Vec<u32> = Vec::new();
    let mut most_placed: u32 = 0;
    if !backtrack_andterms(g, &uses, &pts, Ghost(all), &mut chosen, &mut most_placed) {
        proof {
            assert forall|full: Seq<u32>| !#[trigger] completes(
                g,
                cu,
                nc as int,
                Seq::empty(),
                full,
            ) by {
                if completes(g, cu, nc as int, Seq::empty(), full) {
                    lemma_valid_on_prefix(g, cu, all, full);
                    assert(completes(g, all, nc as int, Seq::empty(), full));
                }
            }
            assert forall|x: Seq<u32>| !#[trigger] sites_chosen(g, all, nc as int, x) by {
                if sites_chosen(g, all, nc as int, x) {
                    assert(completes(g, all, nc as int, Seq::empty(), x.subrange(0, nc as int)));
                }
            }
            assert(!satisfiable(g, all, nc as int));
            let x = n - most_placed;
            assert(uses_left(g, all, nc as int, x));
            lemma_uses_left_unique(g, all, nc as int, x, choose|y: int| uses_left(g, all, nc as int, y));
        }
        return AndTermAssignmentResult::FailurePtermExceeded(n as u32 - most_placed);
    }
    let ghost pre = chosen@;
    proof {
        lemma_valid_on_prefix(g, all, cu, chosen@);
        assert(completes(g, cu, nc as int, Seq::empty(), chosen@)) by {
            assert(chosen@.subrange(0, 0) =~= Seq::<u32>::empty());
        }
        assert(chosen@.subrange(0, nc as int) =~= pre);
    }

    // The uses that may sit anywhere take the first site that is empty or
    // holds an equal product term.
    let mut f: usize = 0;
    while f < free.len()
        invariant
            f <= free@.len(),
            nc == uses@.len(),
            n == nc + free@.len(),
            all.len() == n,
            n < u32::MAX,
            n <= MAX_FB_USES,
            all == cu + free_view(free@),
            cu.len() == nc,
            cu == constrained_uses(g, mc_assignment@),
            uses_ok(g, all),
            pterms_of(all, pts@),
            chosen@.len() == nc + f,
            most_placed == nc + f,
            sites_valid(g, all, chosen@),
            fb_misses(g, mc_assignment@) == 0,
            all == fb_uses(g, mc_assignment@),
            *go == *old(go),
            first_sites(g, all, nc as int, Seq::empty(), pre),
            chosen@.subrange(0, nc as int) == pre,
            forall|j: int| nc <= j < nc + f ==> #[trigger] first_fit(g, all, chosen@, j),
        decreases free@.len() - f,
    {
        let k = nc + f;
        let ghost sofar = chosen@;
        let mut found = false;
        let mut t: u32 = 0;
        while t < 56 && !found
            invariant
                t <= 56,
                k == nc + f,
                k < n,
                all.len() == n,
                uses_ok(g, all),
                pterms_of(all, pts@),
                sites_valid(g, all, chosen@),
                sofar.len() == k,
                !found ==> chosen@ == sofar,
                !found ==> forall|s: u32| s < t ==> !site_free_for(g, all, sofar, k as int, s),
                found ==> chosen@ == sofar.push(t) && t < 56 && site_free_for(
                    g,
                    all,
                    sofar,
                    k as int,
                    t,
                ) && forall|s: u32| s < t ==> !site_free_for(g, all, sofar, k as int, s),
                !found ==> chosen@.len() == k,
                found ==> chosen@.len() == k + 1,
                f < free@.len(),
                all[k as int] == free_view(free@)[f as int],
            decreases 56 - t + (if found { 0int } else { 1int }),
        {
            if can_take(g, &pts, &chosen, k, t, Ghost(all)) {
                proof {
                    assert(all[k as int].1 == all_sites());
                    assert(all_sites()[t as int] == t);
                    lemma_push_valid(g, all, chosen@, t);
                }
                chosen.push(t);
                found = true;
            } else {
                t += 1;
            }
        }
        if !found {
            proof {
                assert forall|x: Seq<u32>| !#[trigger] sites_chosen(g, all, nc as int, x) by {
                    if sites_chosen(g, all, nc as int, x) {
                        assert(sofar.subrange(0, nc as int) == pre);
                        lemma_fits_agree(g, all, nc as int, x, sofar, k as int);
                        assert(sofar.subrange(0, k as int) =~= sofar);
                        assert(first_fit(g, all, x, k as int));
                        assert(!site_free_for(g, all, sofar, k as int, x[k as int]));
                    }
                }
                assert(stuck_at(g, all, nc as int, sofar));
                let x = n - most_placed;
                assert(uses_left(g, all, nc as int, x));
                lemma_uses_left_unique(g, all, nc as int, x, choose|y: int| uses_left(g, all, nc as int, y));
                if n <= ANDTERMS_PER_FB {
                    lemma_some_site_unused(chosen@, ANDTERMS_PER_FB as nat);
                    let s = choose|s: u32| s < ANDTERMS_PER_FB && !chosen@.contains(s);
                    assert(site_free_for(g, all, chosen@, k as int, s));
                    assert(false);
                }
            }
            return AndTermAssignmentResult::FailurePtermExceeded(n as u32 - most_placed);
        }
        proof {
            assert(chosen@.subrange(0, k as int) =~= sofar);
            assert(first_fit(g, all, chosen@, k as int));
            assert(chosen@.subrange(0, nc as int) =~= sofar.subrange(0, nc as int));
            assert forall|j: int| nc <= j < nc + f + 1 implies #[trigger] first_fit(
                g,
                all,
                chosen@,
                j,
            ) by {
                if j < k {
                    assert(first_fit(g, all, sofar, j));
                    assert(chosen@.subrange(0, j) =~= sofar.subrange(0, j));
                    assert(chosen@[j] == sofar[j]);
                }
            }
        }
        most_placed = most_placed + 1;
        f += 1;
    }
    proof {
        assert(sites_chosen(g, all, nc as int, chosen@));
    }

    // Record the location of every product term in use, site by site.
    let ghost before = go.pterms@;
    proof {
        lemma_locs_start(g, all, chosen@, before, fb_i);
    }
    let mut t: u32 = 0;
    while t < 56
        invariant
            t <= 56,
            all.len() == n,
            chosen@.len() == n,
            pterms_of(all, pts@),
            before == old(go).pterms@,
            before.len() == g.pterms@.len(),
            forall|j: int| 0 <= j < all.len() ==> (#[trigger] all[j]).0 < before.len(),
            only_pterm_locs_differ(old(go), go),
            locs_written(all, chosen@, before, go.pterms@, fb_i, t, 0),
        decreases 56 - t,
    {
        let mut k: usize = 0;
        while k < n
            invariant
                k <= n,
                t < 56,
                all.len() == n,
                chosen@.len() == n,
                pterms_of(all, pts@),
                before == old(go).pterms@,
                before.len() == g.pterms@.len(),
                forall|j: int| 0 <= j < all.len() ==> (#[trigger] all[j]).0 < before.len(),
                only_pterm_locs_differ(old(go), go),
                locs_written(all, chosen@, before, go.pterms@, fb_i, t, k as int),
            decreases n - k,
        {
            if chosen[k] == t {
                let pt = pts[k];
                assert(all[k as int].0 < before.len());
                let ghost mid = go.pterms@;
                go.pterms[pt].loc = Some(AssignedLocation { fb: fb_i, i: t });
                proof {
                    lemma_loc_written(all, chosen@, before, mid, go.pterms@, fb_i, t, k as int);
                }
            } else {
                proof {
                    lemma_same_written(
                        all,
                        chosen@,
                        before,
                        go.pterms@,
                        fb_i,
                        t,
                        k as int,
                        t,
                        k as int + 1,
                    );
                }
            }
            k += 1;
        }
        proof {
            lemma_same_written(
                all,
                chosen@,
                before,
                go.pterms@,
                fb_i,
                t,
                n as int,
                (t + 1) as u32,
                0,
            );
        }
        t += 1;
    }
    proof {
        lemma_assigned(g, all, chosen@, before, go.pterms@, fb_i);
        lemma_located(g, all, chosen@, before, go.pterms@, fb_i);
        assert(cu.len() == nc);
        assert(located_by(fb_uses(g, mc_assignment@), chosen@, go.pterms@, fb_i));
        assert(sites_chosen(
            g,
            fb_uses(g, mc_assignment@),
            constrained_uses(g, mc_assignment@).len() as int,
            chosen@,
        ));
        assert(andterms_succeeded(g, old(go).pterms@, go.pterms@, mc_assignment@, fb_i));
    }
    AndTermAssignmentResult::Success
}

/// Whether use `k` has been written when the pass over the sites stands
/// at use `upto` of site `t`: its site comes before `t`, or is `t` and the
/// use comes before `upto`.
pub open spec fn written(chosen: Seq<u32>, t: u32, upto: int, k: int) -> bool {
    chosen[k] < t || (chosen[k] == t && k < upto)
}

/// Whether the location of product term `p` is the site of one of its
/// uses that have been written.
pub open spec fn on_written_site(
    all: Seq<SiteUse>,
    chosen: Seq<u32>,
    now: Seq<OutputGraphPTerm>,
    fb_i: u32,
    t: u32,
    upto: int,
    p: usize,
) -> bool {
    exists|k2: int|
        0 <= k2 < all.len() && written(chosen, t, upto, k2) && (#[trigger] all[k2]).0 == p
            && now[p as int].loc == Some(AssignedLocation { fb: fb_i, i: chosen[k2] })
}

/// Whether no use of product term `q` has been written.
pub open spec fn unwritten(all: Seq<SiteUse>, chosen: Seq<u32>, t: u32, upto: int, q: int) -> bool {
    forall|k: int| 0 <= k < all.len() && written(chosen, t, upto, k) ==> (#[trigger] all[k]).0 != q
}

/// The state of the locations while they are recorded: a product term
/// with a use that has been written has the site of one of its written
/// uses, and every other product term has the location it had.
#[verifier::opaque]
pub open spec fn locs_written(
    all: Seq<SiteUse>,
    chosen: Seq<u32>,
    before: Seq<OutputGraphPTerm>,
    now: Seq<OutputGraphPTerm>,
    fb_i: u32,
    t: u32,
    upto: int,
) -> bool {
    &&& now.len() == before.len()
    &&& chosen.len() == all.len()
    &&& forall|k: int| 0 <= k < all.len() ==> (#[trigger] all[k]).0 < before.len()
    &&& forall|k: int|
        0 <= k < all.len() && written(chosen, t, upto, k) ==> on_written_site(
            all,
            chosen,
            now,
            fb_i,
            t,
            upto,
            (#[trigger] all[k]).0,
        )
    &&& forall|k: int|
        0 <= k < all.len() && written(chosen, t, upto, k) ==> not_above(
            now,
            (#[trigger] all[k]).0,
            chosen[k],
        )
    &&& forall|q: int|
        0 <= q < before.len() && unwritten(all, chosen, t, upto, q) ==> (#[trigger] now[q]).loc
            == before[q].loc
}

/// Whether site `t` is not above the location of product term `p`.
pub open spec fn not_above(now: Seq<OutputGraphPTerm>, p: usize, t: u32) -> bool {
    now[p as int].loc matches Some(l) && t <= l.i
}

/// Before anything is written, the locations are as they were.
proof fn lemma_locs_start(
    g: &InputGraph,
    all: Seq<SiteUse>,
    chosen: Seq<u32>,
    before: Seq<OutputGraphPTerm>,
    fb_i: u32,
)
    requires
        chosen.len() == all.len(),
        uses_ok(g, all),
        before.len() == g.pterms@.len(),
    ensures
        locs_written(all, chosen, before, before, fb_i, 0, 0),
{
    reveal(locs_written);
}

/// Writing the location of use `k` on site `t` moves the pass one use on.
proof fn lemma_loc_written(
    all: Seq<SiteUse>,
    chosen: Seq<u32>,
    before: Seq<OutputGraphPTerm>,
    mid: Seq<OutputGraphPTerm>,
    now: Seq<OutputGraphPTerm>,
    fb_i: u32,
    t: u32,
    k: int,
)
    requires
        0 <= k < all.len(),
        chosen[k] == t,
        locs_written(all, chosen, before, mid, fb_i, t, k),
        now.len() == mid.len(),
        now[all[k].0 as int].loc == Some(AssignedLocation { fb: fb_i, i: t }),
        forall|q: int| 0 <= q < mid.len() && q != all[k].0 ==> (#[trigger] now[q]).loc == mid[q].loc,
    ensures
        locs_written(all, chosen, before, now, fb_i, t, k + 1),
{
    reveal(locs_written);
    assert forall|j: int| 0 <= j < all.len() && written(chosen, t, k + 1, j) implies on_written_site(
        all,
        chosen,
        now,
        fb_i,
        t,
        k + 1,
        (#[trigger] all[j]).0,
    ) by {
        if all[j].0 == all[k].0 {
            assert(written(chosen, t, k + 1, k) && all[k].0 == all[j].0);
        } else {
            assert(written(chosen, t, k, j));
            assert(on_written_site(all, chosen, mid, fb_i, t, k, all[j].0));
            let k2 = choose|k2: int|
                0 <= k2 < all.len() && written(chosen, t, k, k2) && (#[trigger] all[k2]).0
                    == all[j].0 && mid[all[j].0 as int].loc == Some(
                    AssignedLocation { fb: fb_i, i: chosen[k2] },
                );
            assert(now[all[j].0 as int].loc == mid[all[j].0 as int].loc);
            assert(written(chosen, t, k + 1, k2) && all[k2].0 == all[j].0);
        }
    }
    assert forall|j: int| 0 <= j < all.len() && written(chosen, t, k + 1, j) implies not_above(
        now,
        (#[trigger] all[j]).0,
        chosen[j],
    ) by {
        if all[j].0 != all[k].0 {
            assert(written(chosen, t, k, j));
            assert(not_above(mid, all[j].0, chosen[j]));
            assert(now[all[j].0 as int].loc == mid[all[j].0 as int].loc);
        }
    }
    assert forall|q: int| 0 <= q < before.len() && unwritten(all, chosen, t, k + 1, q) implies (
    #[trigger] now[q]).loc == before[q].loc by {
        assert(written(chosen, t, k + 1, k));
        assert(all[k].0 != q);
        assert forall|j: int| 0 <= j < all.len() && written(chosen, t, k, j) implies (
        #[trigger] all[j]).0 != q by {
            assert(written(chosen, t, k + 1, j));
        }
        assert(unwritten(all, chosen, t, k, q));
    }
}

/// Moving the pass on without writing keeps the state, as long as the
/// same uses count as written.
proof fn lemma_same_written(
    all: Seq<SiteUse>,
    chosen: Seq<u32>,
    before: Seq<OutputGraphPTerm>,
    now: Seq<OutputGraphPTerm>,
    fb_i: u32,
    t: u32,
    upto: int,
    t2: u32,
    upto2: int,
)
    requires
        locs_written(all, chosen, before, now, fb_i, t, upto),
        forall|j: int|
            0 <= j < all.len() ==> written(chosen, t, upto, j) == written(chosen, t2, upto2, j),
    ensures
        locs_written(all, chosen, before, now, fb_i, t2, upto2),
{
    reveal(locs_written);
    assert forall|j: int| 0 <= j < all.len() && written(chosen, t2, upto2, j) implies on_written_site(
        all,
        chosen,
        now,
        fb_i,
        t2,
        upto2,
        (#[trigger] all[j]).0,
    ) by {
        assert(written(chosen, t, upto, j));
        assert(on_written_site(all, chosen, now, fb_i, t, upto, all[j].0));
        let k2 = choose|k2: int|
            0 <= k2 < all.len() && written(chosen, t, upto, k2) && (#[trigger] all[k2]).0
                == all[j].0 && now[all[j].0 as int].loc == Some(
                AssignedLocation { fb: fb_i, i: chosen[k2] },
            );
        assert(written(chosen, t2, upto2, k2) && all[k2].0 == all[j].0);
    }
    assert forall|j: int| 0 <= j < all.len() && written(chosen, t2, upto2, j) implies not_above(
        now,
        (#[trigger] all[j]).0,
        chosen[j],
    ) by {
        assert(written(chosen, t, upto, j));
    }
    assert forall|q: int| 0 <= q < before.len() && unwritten(all, chosen, t2, upto2, q) implies (
    #[trigger] now[q]).loc == before[q].loc by {
        assert forall|j: int| 0 <= j < all.len() && written(chosen, t, upto, j) implies (
        #[trigger] all[j]).0 != q by {
            assert(written(chosen, t2, upto2, j));
        }
        assert(unwritten(all, chosen, t, upto, q));
    }
}

/// Whether one of the uses of product term `p` has site `t`.
pub open spec fn holds_site(all: Seq<SiteUse>, chosen: Seq<u32>, p: usize, t: u32) -> bool {
    exists|k: int| 0 <= k < all.len() && (#[trigger] all[k]).0 == p && chosen[k] == t
}

/// Whether the locations are those of the sites `chosen`: the location
/// of every product term in use is in block `fb_i`, on the highest of the
/// sites of its uses.
pub open spec fn located_by(
    all: Seq<SiteUse>,
    chosen: Seq<u32>,
    out: Seq<OutputGraphPTerm>,
    fb_i: u32,
) -> bool {
    &&& chosen.len() == all.len()
    &&& forall|k: int|
        0 <= k < all.len() ==> (out[(#[trigger] all[k]).0 as int].loc matches Some(l) && l.fb == fb_i
            && chosen[k] <= l.i && holds_site(all, chosen, all[k].0, l.i))
}

/// Once every site has been passed, the locations are those of the
/// sites that were chosen.
proof fn lemma_located(
    g: &InputGraph,
    all: Seq<SiteUse>,
    chosen: Seq<u32>,
    before: Seq<OutputGraphPTerm>,
    now: Seq<OutputGraphPTerm>,
    fb_i: u32,
)
    requires
        uses_ok(g, all),
        sites_valid(g, all, chosen),
        locs_written(all, chosen, before, now, fb_i, ANDTERMS_PER_FB as u32, 0),
    ensures
        located_by(all, chosen, now, fb_i),
{
    reveal(locs_written);
    let t = ANDTERMS_PER_FB as u32;
    assert forall|k: int| 0 <= k < all.len() implies (now[(#[trigger] all[k]).0 as int].loc
        matches Some(l) && l.fb == fb_i && chosen[k] <= l.i && holds_site(
        all,
        chosen,
        all[k].0,
        l.i,
    )) by {
        assert(all[k].1.contains(chosen[k]));
        assert(written(chosen, t, 0, k));
        assert(not_above(now, all[k].0, chosen[k]));
        assert(on_written_site(all, chosen, now, fb_i, t, 0, all[k].0));
        let k2 = choose|k2: int|
            0 <= k2 < all.len() && written(chosen, t, 0, k2) && (#[trigger] all[k2]).0 == all[k].0
                && now[all[k].0 as int].loc == Some(AssignedLocation { fb: fb_i, i: chosen[k2] });
        assert(all[k2].0 == all[k].0 && chosen[k2] == chosen[k2]);
    }
}

/// Once every site has been passed, the locations are as
/// `andterms_assigned` says.
proof fn lemma_assigned(
    g: &InputGraph,
    all: Seq<SiteUse>,
    chosen: Seq<u32>,
    before: Seq<OutputGraphPTerm>,
    now: Seq<OutputGraphPTerm>,
    fb_i: u32,
)
    requires
        uses_ok(g, all),
        sites_valid(g, all, chosen),
        locs_written(all, chosen, before, now, fb_i, ANDTERMS_PER_FB as u32, 0),
    ensures
        andterms_assigned(g, before, now, all, fb_i),
{
    reveal(locs_written);
    let t = ANDTERMS_PER_FB as u32;
    assert forall|k: int| 0 <= k < all.len() implies written(chosen, t, 0, k) by {
        assert(all[k].1.contains(chosen[k]));
    }
    assert forall|k: int| 0 <= k < all.len() implies pterm_sited(
        all,
        now,
        fb_i,
        (#[trigger] all[k]).0,
    ) by {
        lemma_site_of(all, chosen, now, fb_i, t, k);
    }
    assert forall|j: int, k: int|
        0 <= j < all.len() && 0 <= k < all.len() && now[(#[trigger] all[j]).0 as int].loc == now[(
        #[trigger] all[k]).0 as int].loc implies g.pterms@[all[j].0 as int].spec_equals(
        &g.pterms@[all[k].0 as int],
    ) by {
        lemma_same_site_equal(g, all, chosen, now, fb_i, t, j, k);
    }
    assert forall|q: int| 0 <= q < before.len() && unused(all, q) implies (#[trigger] now[q]).loc
        == before[q].loc by {
        assert(unwritten(all, chosen, t, 0, q));
    }
}

/// A product term whose location is a written site sits on a site that
/// one of its uses allows.
proof fn lemma_site_of(
    all: Seq<SiteUse>,
    chosen: Seq<u32>,
    now: Seq<OutputGraphPTerm>,
    fb_i: u32,
    t: u32,
    k: int,
)
    requires
        0 <= k < all.len(),
        chosen.len() == all.len(),
        forall|j: int| 0 <= j < all.len() ==> (#[trigger] all[j]).1.contains(chosen[j]),
        on_written_site(all, chosen, now, fb_i, t, 0, all[k].0),
    ensures
        pterm_sited(all, now, fb_i, all[k].0),
{
    let k2 = choose|k2: int|
        0 <= k2 < all.len() && written(chosen, t, 0, k2) && (#[trigger] all[k2]).0 == all[k].0
            && now[all[k].0 as int].loc == Some(AssignedLocation { fb: fb_i, i: chosen[k2] });
    assert(all[k2].1.contains(chosen[k2]));
    assert(all[k2].0 == all[k].0 && all[k2].1.contains(chosen[k2]));
}

/// Product terms whose locations are the same written site are
/// structurally equal.
proof fn lemma_same_site_equal(
    g: &InputGraph,
    all: Seq<SiteUse>,
    chosen: Seq<u32>,
    now: Seq<OutputGraphPTerm>,
    fb_i: u32,
    t: u32,
    j: int,
    k: int,
)
    requires
        0 <= j < all.len(),
        0 <= k < all.len(),
        sites_valid(g, all, chosen),
        chosen.len() == all.len(),
        on_written_site(all, chosen, now, fb_i, t, 0, all[j].0),
        on_written_site(all, chosen, now, fb_i, t, 0, all[k].0),
        now[all[j].0 as int].loc == now[all[k].0 as int].loc,
    ensures
        g.pterms@[all[j].0 as int].spec_equals(&g.pterms@[all[k].0 as int]),
{
    let j2 = choose|k2: int|
        0 <= k2 < all.len() && written(chosen, t, 0, k2) && (#[trigger] all[k2]).0 == all[j].0
            && now[all[j].0 as int].loc == Some(AssignedLocation { fb: fb_i, i: chosen[k2] });
    let k2 = choose|k2: int|
        0 <= k2 < all.len() && written(chosen, t, 0, k2) && (#[trigger] all[k2]).0 == all[k].0
            && now[all[k].0 as int].loc == Some(AssignedLocation { fb: fb_i, i: chosen[k2] });
    assert(chosen[j2] == chosen[k2]);
    if j2 < k2 {
        assert(g.pterms@[all[j2].0 as int].spec_equals(&g.pterms@[all[k2].0 as int]));
    } else if k2 < j2 {
        assert(g.pterms@[all[k2].0 as int].spec_equals(&g.pterms@[all[j2].0 as int]));
    }
}

/// Whether a choice of sites is valid depends only on the uses it gives
/// sites to.
proof fn lemma_valid_on_prefix(g: &InputGraph, a: Seq<SiteUse>, b: Seq<SiteUse>, chosen: Seq<u32>)
    requires
        sites_valid(g, a, chosen),
        chosen.len() <= b.len(),
        forall|k: int| 0 <= k < chosen.len() ==> a[k] == b[k],
    ensures
        sites_valid(g, b, chosen),
{
    assert forall|k: int| 0 <= k < chosen.len() implies (#[trigger] b[k]).1.contains(chosen[k]) by {
        assert(a[k].1.contains(chosen[k]));
    }
}

/// Whether one of the uses is of product term `x`.
pub open spec fn mentions(uses: Seq<SiteUse>, x: usize) -> bool {
    exists|k: int| 0 <= k < uses.len() && (#[trigger] uses[k]).0 == x
}

/// A list of uses joined from two mentions what either mentions.
pub proof fn lemma_mentions_concat(a: Seq<SiteUse>, b: Seq<SiteUse>, x: usize)
    ensures
        mentions(a + b, x) <==> mentions(a, x) || mentions(b, x),
{
    if mentions(a, x) {
        let k = choose|k: int| 0 <= k < a.len() && (#[trigger] a[k]).0 == x;
        assert((a + b)[k] == a[k]);
    }
    if mentions(b, x) {
        let k = choose|k: int| 0 <= k < b.len() && (#[trigger] b[k]).0 == x;
        assert((a + b)[a.len() + k] == b[k]);
    }
    if mentions(a + b, x) {
        let k = choose|k: int| 0 <= k < (a + b).len() && (#[trigger] (a + b)[k]).0 == x;
        if k < a.len() {
            assert(a[k].0 == x);
        } else {
            assert(b[k - a.len()].0 == x);
        }
    }
}

/// The use of a product term mentions it.
pub proof fn lemma_opt_use_mentions(g: &InputGraph, p: Option<usize>, sites: Seq<u32>, x: usize)
    ensures
        mentions(opt_use(g, p, sites), x) <==> p == Some(x),
{
    reveal(opt_use);
    if p == Some(x) {
        assert(opt_use(g, p, sites)[0].0 == x);
    }
}

/// The special uses of a macrocell mention exactly the product terms of
/// its special functions.
pub proof fn lemma_special_mentions(g: &InputGraph, mc: &InputGraphMacrocell, i: int, x: usize)
    ensures
        mentions(special_uses(g, mc, i), x) <==> (oe_pterm(mc) == Some(x) || xor_pterm(mc) == Some(x)
            || ce_pterm(mc) == Some(x) || clk_pterm(mc) == Some(x) || set_pterm(mc) == Some(x)
            || reset_pterm(mc) == Some(x)),
{
    let u1 = opt_use(g, oe_pterm(mc), oe_sites(i));
    let u2 = opt_use(g, xor_pterm(mc), ptc_sites(i));
    let u3 = opt_use(g, ce_pterm(mc), ptc_sites(i));
    let u4 = opt_use(g, clk_pterm(mc), clk_sites(i));
    let u5 = opt_use(g, set_pterm(mc), set_sites(i));
    let u6 = opt_use(g, reset_pterm(mc), reset_sites(i));
    lemma_opt_use_mentions(g, oe_pterm(mc), oe_sites(i), x);
    lemma_opt_use_mentions(g, xor_pterm(mc), ptc_sites(i), x);
    lemma_opt_use_mentions(g, ce_pterm(mc), ptc_sites(i), x);
    lemma_opt_use_mentions(g, clk_pterm(mc), clk_sites(i), x);
    lemma_opt_use_mentions(g, set_pterm(mc), set_sites(i), x);
    lemma_opt_use_mentions(g, reset_pterm(mc), reset_sites(i), x);
    lemma_mentions_concat(u1, u2, x);
    lemma_mentions_concat(u1 + u2, u3, x);
    lemma_mentions_concat(u1 + u2 + u3, u4, x);
    lemma_mentions_concat(u1 + u2 + u3 + u4, u5, x);
    lemma_mentions_concat(u1 + u2 + u3 + u4 + u5, u6, x);
}

/// The uses by the OR-term inputs of a macrocell mention every input
/// that asks for no site or for a site that exists.
pub proof fn lemma_or_mentions(g: &InputGraph, ins: Seq<usize>, n: int, j: int)
    requires
        0 <= j < n <= ins.len(),
        or_misses(g, ins, n) == 0,
    ensures
        mentions(or_locked_uses(g, ins, n), ins[j]) || mentions(or_free_uses(g, ins, n), ins[j]),
    decreases n,
{
    lemma_or_bounds(g, ins, n - 1);
    let l0 = or_locked_uses(g, ins, n - 1);
    let f0 = or_free_uses(g, ins, n - 1);
    let l1 = or_locked_uses(g, ins, n);
    let f1 = or_free_uses(g, ins, n);
    if j < n - 1 {
        lemma_or_mentions(g, ins, n - 1, j);
        if mentions(l0, ins[j]) {
            let k = choose|k: int| 0 <= k < l0.len() && (#[trigger] l0[k]).0 == ins[j];
            assert(l1[k] == l0[k]);
        } else {
            let k = choose|k: int| 0 <= k < f0.len() && (#[trigger] f0[k]).0 == ins[j];
            assert(f1[k] == f0[k]);
        }
    } else {
        match pterm_loc(g, ins[n - 1]) {
            Some(l) => {
                assert(l1[l0.len() as int].0 == ins[j]);
            },
            None => {
                assert(f1[f0.len() as int].0 == ins[j]);
            },
        }
    }
}

/// The misses counted over a block are not below zero.
pub proof fn lemma_misses_nonneg(g: &InputGraph, a: Seq<(PARMCAssignment, PARMCAssignment)>, n: int)
    ensures
        fb_special_misses(g, a, n) >= 0,
        fb_or_misses(g, a, n) >= 0,
    decreases n,
{
    if n > 0 {
        lemma_misses_nonneg(g, a, n - 1);
        match logic_mc(a, n - 1) {
            Some(m) => {
                lemma_special_bounds(g, &g.mcs@[m as int], n - 1);
                lemma_or_bounds(
                    g,
                    or_inputs(&g.mcs@[m as int]),
                    or_inputs(&g.mcs@[m as int]).len() as int,
                );
            },
            None => {},
        }
    }
}

/// Whether a use of a product term that asks for a site has that site
/// as its only site.
pub open spec fn respects_loc(g: &InputGraph, u: SiteUse) -> bool {
    pterm_loc(g, u.0) matches Some(l) ==> u.1 == seq![l]
}

/// Whether every use respects the location request of its product term.
pub open spec fn all_respect_loc(g: &InputGraph, uses: Seq<SiteUse>) -> bool {
    forall|k: int| 0 <= k < uses.len() ==> respects_loc(g, #[trigger] uses[k])
}

/// Uses that respect location requests, joined, respect them.
proof fn lemma_respect_concat(g: &InputGraph, a: Seq<SiteUse>, b: Seq<SiteUse>)
    requires
        all_respect_loc(g, a),
        all_respect_loc(g, b),
    ensures
        all_respect_loc(g, a + b),
{
    assert forall|k: int| 0 <= k < (a + b).len() implies respects_loc(g, #[trigger] (a + b)[k]) by {
        if k < a.len() {
            assert((a + b)[k] == a[k]);
        } else {
            assert((a + b)[k] == b[k - a.len()]);
        }
    }
}

/// The use of a product term whose location request can be met respects
/// the request.
proof fn lemma_opt_use_respects(g: &InputGraph, p: Option<usize>, sites: Seq<u32>)
    requires
        opt_miss(g, p, sites) == 0,
    ensures
        all_respect_loc(g, opt_use(g, p, sites)),
        opt_miss(g, p, sites) >= 0,
{
    reveal(opt_use);
    reveal(opt_miss);
}

/// A miss counts one or nothing.
proof fn lemma_opt_miss_nonneg(g: &InputGraph, p: Option<usize>, sites: Seq<u32>)
    ensures
        opt_miss(g, p, sites) >= 0,
{
    reveal(opt_miss);
}

/// The special uses of a macrocell whose location requests can all be
/// met respect the requests.
proof fn lemma_special_respects(g: &InputGraph, mc: &InputGraphMacrocell, i: int)
    requires
        special_misses(g, mc, i) == 0,
    ensures
        all_respect_loc(g, special_uses(g, mc, i)),
{
    lemma_opt_miss_nonneg(g, oe_pterm(mc), oe_sites(i));
    lemma_opt_miss_nonneg(g, xor_pterm(mc), ptc_sites(i));
    lemma_opt_miss_nonneg(g, ce_pterm(mc), ptc_sites(i));
    lemma_opt_miss_nonneg(g, clk_pterm(mc), clk_sites(i));
    lemma_opt_miss_nonneg(g, set_pterm(mc), set_sites(i));
    lemma_opt_miss_nonneg(g, reset_pterm(mc), reset_sites(i));
    let u1 = opt_use(g, oe_pterm(mc), oe_sites(i));
    let u2 = opt_use(g, xor_pterm(mc), ptc_sites(i));
    let u3 = opt_use(g, ce_pterm(mc), ptc_sites(i));
    let u4 = opt_use(g, clk_pterm(mc), clk_sites(i));
    let u5 = opt_use(g, set_pterm(mc), set_sites(i));
    let u6 = opt_use(g, reset_pterm(mc), reset_sites(i));
    lemma_opt_use_respects(g, oe_pterm(mc), oe_sites(i));
    lemma_opt_use_respects(g, xor_pterm(mc), ptc_sites(i));
    lemma_opt_use_respects(g, ce_pterm(mc), ptc_sites(i));
    lemma_opt_use_respects(g, clk_pterm(mc), clk_sites(i));
    lemma_opt_use_respects(g, set_pterm(mc), set_sites(i));
    lemma_opt_use_respects(g, reset_pterm(mc), reset_sites(i));
    lemma_respect_concat(g, u1, u2);
    lemma_respect_concat(g, u1 + u2, u3);
    lemma_respect_concat(g, u1 + u2 + u3, u4);
    lemma_respect_concat(g, u1 + u2 + u3 + u4, u5);
    lemma_respect_concat(g, u1 + u2 + u3 + u4 + u5, u6);
}

/// The uses by the OR-term inputs of a macrocell respect location
/// requests.
proof fn lemma_or_respects(g: &InputGraph, ins: Seq<usize>, n: int)
    requires
        0 <= n <= ins.len(),
    ensures
        all_respect_loc(g, or_locked_uses(g, ins, n)),
        all_respect_loc(g, or_free_uses(g, ins, n)),
    decreases n,
{
    if n > 0 {
        lemma_or_respects(g, ins, n - 1);
    }
}

/// If no use of a block asks for a site it cannot have, every use of the
/// block whose product term asks for a site has that site as its only
/// site.
pub proof fn lemma_fb_uses_respect(g: &InputGraph, a: Seq<(PARMCAssignment, PARMCAssignment)>)
    requires
        fb_misses(g, a) == 0,
    ensures
        all_respect_loc(g, fb_uses(g, a)),
{
    let n = MCS_PER_FB as int;
    lemma_misses_nonneg(g, a, n);
    lemma_fb_special_respects(g, a, n);
    lemma_fb_or_respects(g, a, n);
    lemma_respect_concat(g, fb_special_uses(g, a, n), fb_or_locked_uses(g, a, n));
    lemma_respect_concat(g, constrained_uses(g, a), fb_or_free_uses(g, a, n));
}

/// The special uses of a block whose location requests can all be met
/// respect the requests.
proof fn lemma_fb_special_respects(g: &InputGraph, a: Seq<(PARMCAssignment, PARMCAssignment)>, n: int)
    requires
        fb_special_misses(g, a, n) == 0,
    ensures
        all_respect_loc(g, fb_special_uses(g, a, n)),
    decreases n,
{
    if n > 0 {
        lemma_misses_nonneg(g, a, n - 1);
        match logic_mc(a, n - 1) {
            Some(m) => {
                lemma_special_bounds(g, &g.mcs@[m as int], n - 1);
                lemma_fb_special_respects(g, a, n - 1);
                lemma_special_respects(g, &g.mcs@[m as int], n - 1);
                lemma_respect_concat(
                    g,
                    fb_special_uses(g, a, n - 1),
                    special_uses(g, &g.mcs@[m as int], n - 1),
                );
            },
            None => {
                lemma_fb_special_respects(g, a, n - 1);
                assert(fb_special_uses(g, a, n) =~= fb_special_uses(g, a, n - 1));
            },
        }
    }
}

/// The uses by OR-term inputs of a block respect location requests.
proof fn lemma_fb_or_respects(g: &InputGraph, a: Seq<(PARMCAssignment, PARMCAssignment)>, n: int)
    ensures
        all_respect_loc(g, fb_or_locked_uses(g, a, n)),
        all_respect_loc(g, fb_or_free_uses(g, a, n)),
    decreases n,
{
    if n > 0 {
        lemma_fb_or_respects(g, a, n - 1);
        match logic_mc(a, n - 1) {
            Some(m) => {
                let ins = or_inputs(&g.mcs@[m as int]);
                lemma_or_respects(g, ins, ins.len() as int);
                lemma_respect_concat(
                    g,
                    fb_or_locked_uses(g, a, n - 1),
                    or_locked_uses(g, ins, ins.len() as int),
                );
                lemma_respect_concat(
                    g,
                    fb_or_free_uses(g, a, n - 1),
                    or_free_uses(g, ins, ins.len() as int),
                );
            },
            None => {
                assert(fb_or_locked_uses(g, a, n) =~= fb_or_locked_uses(g, a, n - 1));
                assert(fb_or_free_uses(g, a, n) =~= fb_or_free_uses(g, a, n - 1));
            },
        }
    }
}

} // verus!
