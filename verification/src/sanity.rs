//! The checks that come before placement: whether the netlist can fit the
//! device at all, and whether the location requests of global buffers
//! and of the macrocells that drive them agree.

use vstd::prelude::*;
use crate::andterms::ce_pterm;
use crate::andterms::xor_pterm;
use crate::bufplace::mcs_refine;
use crate::bufplace::pad_suits;
use crate::bufplace::pad_suits_exec;
use crate::bufplace::pinned_to;
use crate::bufplace::requests_ok;
use crate::bufplace::BufferRequest;
use crate::device::pad_in_range;
use crate::device::DeviceSpec;
use crate::greedy::clk_requests;
use crate::greedy::driver_pinned;
use crate::greedy::gsr_requests;
use crate::greedy::gts_requests;
use crate::mc::ANDTERMS_PER_FB;
use crate::mc::MCS_PER_FB;
use crate::netlist::mc_loc_in_range;
use crate::netlist::InputGraph;
use crate::netlist::InputGraphMacrocell;
use crate::netlist::InputGraphPTerm;
use crate::netlist::RequestedLocation;
use crate::netlist::NUM_BUFG_CLK;
use crate::netlist::NUM_BUFG_GSR;
use crate::netlist::NUM_BUFG_GTS;

verus! {

/// What the checks before placement found.
#[derive(Copy, Clone, PartialEq, Eq, Structural, Hash, Debug)]
pub enum PARSanityResult {
    Passed,
    FailurePTCNeverSatisfiable,
    FailureGlobalNetWrongLoc,
    FailureTooManyMCs,
    FailureTooManyPTerms,
    FailureTooManyBufgClk,
    FailureTooManyBufgGTS,
    FailureTooManyBufgGSR,
}

/// Most macrocells that the device can hold: two to a site.
pub const MAX_MCS: usize = 64;

/// Most distinct product terms that the device can hold.
pub const MAX_PTERMS: usize = 112;

/// Whether product term `k` is structurally equal to none before it.
pub open spec fn is_first_of_kind(pterms: Seq<InputGraphPTerm>, k: int) -> bool {
    forall|j: int| 0 <= j < k ==> !(#[trigger] pterms[j]).spec_equals(&pterms[k])
}

/// How many of the first `n` product terms are structurally equal to
/// none before them: the number of distinct product terms among them.
pub open spec fn unique_pterms(pterms: Seq<InputGraphPTerm>, n: int) -> int
    decreases n,
{
    if n <= 0 {
        0
    } else {
        unique_pterms(pterms, n - 1) + (if is_first_of_kind(pterms, n - 1) {
            1int
        } else {
            0int
        })
    }
}

/// Whether `mc` uses its product term C both to enable its clock and to
/// feed its XOR gate, with product terms that differ.
pub open spec fn ptc_conflict(g: &InputGraph, mc: &InputGraphMacrocell) -> bool {
    match (ce_pterm(mc), xor_pterm(mc)) {
        (Some(a), Some(b)) => !g.pterms@[a as int].spec_equals(&g.pterms@[b as int]),
        _ => false,
    }
}

/// The location requests of the macrocells.
pub open spec fn locs_of(mcs: Seq<InputGraphMacrocell>) -> Seq<Option<RequestedLocation>> {
    Seq::new(mcs.len(), |i: int| mcs[i].requested_loc)
}

/// The location requests of the macrocells after the first `n` of the
/// buffers `reqs` have pinned their macrocells: a buffer that names a
/// site pins the macrocell that drives it to the pad of that site. `None`
/// if one of these macrocells asks for another place.
pub open spec fn propagate(
    locs: Seq<Option<RequestedLocation>>,
    reqs: Seq<BufferRequest>,
    pads: Seq<(u32, u32)>,
    n: int,
) -> Option<Seq<Option<RequestedLocation>>>
    decreases n,
{
    if n <= 0 {
        Some(locs)
    } else {
        match propagate(locs, reqs, pads, n - 1) {
            Some(l) => match reqs[n - 1].index {
                Some(i) => if pad_suits(l[reqs[n - 1].input as int], pads[i as int]) {
                    Some(l.update(reqs[n - 1].input as int, pinned_to(pads[i as int])))
                } else {
                    None
                },
                None => Some(l),
            },
            None => None,
        }
    }
}

/// The location requests of the macrocells after every global buffer
/// that names a site has pinned its macrocell: the clock buffers first,
/// then the tristate buffers, then the set/reset buffers.
pub open spec fn propagate_all(g: &InputGraph, device: &DeviceSpec) -> Option<
    Seq<Option<RequestedLocation>>,
> {
    match propagate(
        locs_of(g.mcs@),
        clk_requests(g.bufg_clks@),
        device.gck@,
        g.bufg_clks@.len() as int,
    ) {
        Some(l1) => match propagate(
            l1,
            gts_requests(g.bufg_gts@),
            device.gts@,
            g.bufg_gts@.len() as int,
        ) {
            Some(l2) => propagate(
                l2,
                gsr_requests(g.bufg_gsr@),
                seq![device.gsr],
                g.bufg_gsr@.len() as int,
            ),
            None => None,
        },
        None => None,
    }
}

/// What the checks before placement find, in the order in which they are
/// made.
pub open spec fn spec_sanity(g: &InputGraph, device: &DeviceSpec) -> PARSanityResult {
    if g.mcs@.len() > MAX_MCS {
        PARSanityResult::FailureTooManyMCs
    } else if unique_pterms(g.pterms@, g.pterms@.len() as int) > MAX_PTERMS {
        PARSanityResult::FailureTooManyPTerms
    } else if g.bufg_clks@.len() > NUM_BUFG_CLK {
        PARSanityResult::FailureTooManyBufgClk
    } else if g.bufg_gts@.len() > NUM_BUFG_GTS {
        PARSanityResult::FailureTooManyBufgGTS
    } else if g.bufg_gsr@.len() > NUM_BUFG_GSR {
        PARSanityResult::FailureTooManyBufgGSR
    } else if exists|i: int| 0 <= i < g.mcs@.len() && ptc_conflict(g, #[trigger] &g.mcs@[i]) {
        PARSanityResult::FailurePTCNeverSatisfiable
    } else if propagate_all(g, device) is None {
        PARSanityResult::FailureGlobalNetWrongLoc
    } else {
        PARSanityResult::Passed
    }
}

/// Counts the distinct product terms.
fn count_unique_pterms(pterms: &Vec<InputGraphPTerm>) -> (r: usize)
    ensures
        r == unique_pterms(pterms@, pterms@.len() as int),
{
    let n = pterms.len();
    let mut count: usize = 0;
    let mut k: usize = 0;
    while k < n
        invariant
            k <= n,
            n == pterms@.len(),
            count == unique_pterms(pterms@, k as int),
            count <= k,
        decreases n - k,
    {
        let mut first = true;
        let mut j: usize = 0;
        while j < k && first
            invariant
                j <= k,
                k < n,
                n == pterms@.len(),
                first ==> forall|i: int|
                    0 <= i < j ==> !(#[trigger] pterms@[i]).spec_equals(&pterms@[k as int]),
                !first ==> !is_first_of_kind(pterms@, k as int),
            decreases k - j + (if first { 1int } else { 0int }),
        {
            if pterms[j].equals(&pterms[k]) {
                first = false;
            } else {
                j += 1;
            }
        }
        if first {
            count += 1;
        }
        k += 1;
    }
    count
}

/// Whether `mc` uses its product term C for two product terms that
/// differ.
fn has_ptc_conflict(g: &InputGraph, mc: &InputGraphMacrocell) -> (r: bool)
    requires
        g.mc_refs_ok(mc),
    ensures
        r == ptc_conflict(g, mc),
{
    proof {
        crate::andterms::lemma_special_refs(g, mc);
    }
    match (crate::andterms::ce_pterm_exec(mc), crate::andterms::xor_pterm_exec(mc)) {
        (Some(a), Some(b)) => !g.pterms[a].equals(&g.pterms[b]),
        _ => false,
    }
}

/// Lets every buffer of one net that names a site pin the macrocell that
/// drives it to the pad of the site. Returns `false` as soon as such a
/// macrocell asks for another place.
fn pin_drivers(mcs: &mut Vec<InputGraphMacrocell>, reqs: &Vec<BufferRequest>, pads: &Vec<(u32, u32)>) -> (r:
    bool)
    requires
        requests_ok(reqs@, old(mcs)@.len() as int, pads@.len() as int),
        forall|i: int| 0 <= i < pads@.len() ==> pad_in_range(#[trigger] pads@[i]),
    ensures
        mcs_refine(old(mcs)@, final(mcs)@),
        r == (propagate(locs_of(old(mcs)@), reqs@, pads@, reqs@.len() as int) is Some),
        r ==> locs_of(final(mcs)@) == propagate(
            locs_of(old(mcs)@),
            reqs@,
            pads@,
            reqs@.len() as int,
        ).unwrap(),
        r ==> forall|k: int|
            0 <= k < reqs@.len() ==> driver_pinned(#[trigger] reqs@[k], pads@, final(mcs)@),
{
    let n = reqs.len();
    let mut k: usize = 0;
    while k < n
        invariant
            k <= n,
            n == reqs@.len(),
            requests_ok(reqs@, mcs@.len() as int, pads@.len() as int),
            forall|i: int| 0 <= i < pads@.len() ==> pad_in_range(#[trigger] pads@[i]),
            mcs_refine(old(mcs)@, mcs@),
            propagate(locs_of(old(mcs)@), reqs@, pads@, k as int) == Some(locs_of(mcs@)),
            forall|j: int| 0 <= j < k ==> driver_pinned(#[trigger] reqs@[j], pads@, mcs@),
        decreases n - k,
    {
        let req = reqs[k];
        if let Some(i) = req.index {
            let pad = pads[i as usize];
            if !pad_suits_exec(mcs[req.input].requested_loc, pad) {
                proof {
                    assert(propagate(locs_of(old(mcs)@), reqs@, pads@, k as int + 1) is None);
                    lemma_propagate_fails(locs_of(old(mcs)@), reqs@, pads@, k as int + 1, n as int);
                }
                return false;
            }
            let ghost mcs0 = mcs@;
            mcs[req.input].requested_loc = Some(RequestedLocation { fb: pad.0, i: Some(pad.1) });
            proof {
                assert(pad_in_range(pads@[i as int]));
                assert(locs_of(mcs@) =~= locs_of(mcs0).update(req.input as int, pinned_to(pad)));
                assert forall|x: int| 0 <= x < old(mcs)@.len() implies {
                    &&& (#[trigger] mcs@[x]).same_logic(&old(mcs)@[x])
                    &&& crate::bufplace::loc_refines(old(mcs)@[x].requested_loc, mcs@[x].requested_loc)
                    &&& (mc_loc_in_range(old(mcs)@[x].requested_loc) ==> mc_loc_in_range(
                        mcs@[x].requested_loc,
                    ))
                } by {
                    assert(mcs0[x].same_logic(&old(mcs)@[x]));
                }
                assert forall|j: int| 0 <= j < k + 1 implies driver_pinned(
                    #[trigger] reqs@[j],
                    pads@,
                    mcs@,
                ) by {
                    if j < k {
                        assert(driver_pinned(reqs@[j], pads@, mcs0));
                    }
                }
            }
        }
        k += 1;
    }
    true
}

/// Once a macrocell asks for another place than its buffer, the rest of
/// the buffers cannot mend it.
proof fn lemma_propagate_fails(
    locs: Seq<Option<RequestedLocation>>,
    reqs: Seq<BufferRequest>,
    pads: Seq<(u32, u32)>,
    k: int,
    n: int,
)
    requires
        0 <= k <= n,
        propagate(locs, reqs, pads, k) is None,
    ensures
        propagate(locs, reqs, pads, n) is None,
    decreases n - k,
{
    if k < n {
        lemma_propagate_fails(locs, reqs, pads, k + 1, n);
    }
}

/// Every global buffer that names a site is driven by a macrocell that is
/// pinned to the pad of that site.
pub open spec fn drivers_pinned(g: &InputGraph, device: &DeviceSpec) -> bool {
    &&& forall|k: int|
        0 <= k < g.bufg_clks@.len() ==> driver_pinned(
            #[trigger] clk_requests(g.bufg_clks@)[k],
            device.gck@,
            g.mcs@,
        )
    &&& forall|k: int|
        0 <= k < g.bufg_gts@.len() ==> driver_pinned(
            #[trigger] gts_requests(g.bufg_gts@)[k],
            device.gts@,
            g.mcs@,
        )
    &&& forall|k: int|
        0 <= k < g.bufg_gsr@.len() ==> driver_pinned(
            #[trigger] gsr_requests(g.bufg_gsr@)[k],
            seq![device.gsr],
            g.mcs@,
        )
}

/// A macrocell that is pinned stays pinned when location requests are
/// refined.
proof fn lemma_pinned_kept(
    reqs: Seq<BufferRequest>,
    pads: Seq<(u32, u32)>,
    before: Seq<InputGraphMacrocell>,
    after: Seq<InputGraphMacrocell>,
)
    requires
        mcs_refine(before, after),
        forall|k: int| 0 <= k < reqs.len() ==> (#[trigger] reqs[k]).input < before.len(),
        forall|k: int| 0 <= k < reqs.len() ==> driver_pinned(#[trigger] reqs[k], pads, before),
    ensures
        forall|k: int| 0 <= k < reqs.len() ==> driver_pinned(#[trigger] reqs[k], pads, after),
{
    assert forall|k: int| 0 <= k < reqs.len() implies driver_pinned(
        #[trigger] reqs[k],
        pads,
        after,
    ) by {
        assert(driver_pinned(reqs[k], pads, before));
        let m = reqs[k].input as int;
        assert(after[m].same_logic(&before[m]));
    }
}

/// Checks before placement.
///
/// In this order: the netlist has no more macrocells than the device has
/// halves of sites, no more distinct product terms than the device has
/// AND terms, and no more global buffers of a kind than the device has;
/// no macrocell needs its product term C for two product terms that
/// differ; and no macrocell that drives a global buffer with a site asks
/// for another place than the pad of that site. The first check that
/// fails gives the result.
///
/// Along the way every global buffer that names a site pins the macrocell
/// that drives it to the pad of the site, in `g`.
pub fn do_par_sanity_check(g: &mut InputGraph, device_type: &DeviceSpec) -> (r: PARSanityResult)
    requires
        old(g).wf(),
        device_type.wf(),
    ensures
        r == spec_sanity(old(g), device_type),
        final(g).wf(),
        mcs_refine(old(g).mcs@, final(g).mcs@),
        final(g).pterms == old(g).pterms,
        final(g).bufg_clks == old(g).bufg_clks,
        final(g).bufg_gts == old(g).bufg_gts,
        final(g).bufg_gsr == old(g).bufg_gsr,
        r == PARSanityResult::Passed ==> Some(locs_of(final(g).mcs@)) == propagate_all(
            old(g),
            device_type,
        ),
        r == PARSanityResult::Passed ==> drivers_pinned(final(g), device_type),
{
    proof {
        crate::greedy::lemma_mcs_refine_refl(g.mcs@);
    }
    if g.mcs.len() > 2 * (device_type.num_fbs() * MCS_PER_FB) {
        return PARSanityResult::FailureTooManyMCs;
    }
    let unique = count_unique_pterms(&g.pterms);
    if unique > device_type.num_fbs() * ANDTERMS_PER_FB {
        return PARSanityResult::FailureTooManyPTerms;
    }
    if g.bufg_clks.len() > NUM_BUFG_CLK {
        return PARSanityResult::FailureTooManyBufgClk;
    }
    if g.bufg_gts.len() > NUM_BUFG_GTS {
        return PARSanityResult::FailureTooManyBufgGTS;
    }
    if g.bufg_gsr.len() > NUM_BUFG_GSR {
        return PARSanityResult::FailureTooManyBufgGSR;
    }

    let mut i: usize = 0;
    while i < g.mcs.len()
        invariant
            i <= g.mcs@.len(),
            *g == *old(g),
            g.wf(),
            g.mcs@.len() <= MAX_MCS,
            unique_pterms(g.pterms@, g.pterms@.len() as int) <= MAX_PTERMS,
            g.bufg_clks@.len() <= NUM_BUFG_CLK,
            g.bufg_gts@.len() <= NUM_BUFG_GTS,
            g.bufg_gsr@.len() <= NUM_BUFG_GSR,
            forall|j: int| 0 <= j < i ==> !ptc_conflict(g, #[trigger] &g.mcs@[j]),
        decreases g.mcs@.len() - i,
    {
        assert(g.mc_refs_ok(&g.mcs@[i as int]));
        if has_ptc_conflict(g, &g.mcs[i]) {
            return PARSanityResult::FailurePTCNeverSatisfiable;
        }
        i += 1;
    }

    let gck = crate::greedy::gck_pads(device_type);
    let gts = crate::greedy::gts_pads(device_type);
    let gsr = crate::greedy::gsr_pads(device_type);
    let clk_reqs = crate::greedy::clk_requests_exec(&g.bufg_clks);
    let gts_reqs = crate::greedy::gts_requests_exec(&g.bufg_gts);
    let gsr_reqs = crate::greedy::gsr_requests_exec(&g.bufg_gsr);
    let ghost mcs0 = g.mcs@;
    proof {
        assert forall|k: int| 0 <= k < clk_reqs@.len() implies (#[trigger] clk_reqs@[k]).input
            < g.mcs@.len() && (clk_reqs@[k].index matches Some(i) ==> i < gck@.len()) by {
            assert(g.bufg_clks@[k].input < g.mcs@.len());
        }
        assert forall|k: int| 0 <= k < gts_reqs@.len() implies (#[trigger] gts_reqs@[k]).input
            < g.mcs@.len() && (gts_reqs@[k].index matches Some(i) ==> i < gts@.len()) by {
            assert(g.bufg_gts@[k].input < g.mcs@.len());
        }
        assert forall|k: int| 0 <= k < gsr_reqs@.len() implies (#[trigger] gsr_reqs@[k]).input
            < g.mcs@.len() && (gsr_reqs@[k].index matches Some(i) ==> i < gsr@.len()) by {
            assert(g.bufg_gsr@[k].input < g.mcs@.len());
        }
    }

    if !pin_drivers(&mut g.mcs, &clk_reqs, &gck) {
        proof {
            crate::greedy::lemma_refine_keeps_wf(old(g), g);
        }
        return PARSanityResult::FailureGlobalNetWrongLoc;
    }
    let ghost mcs1 = g.mcs@;
    if !pin_drivers(&mut g.mcs, &gts_reqs, &gts) {
        proof {
            crate::greedy::lemma_mcs_refine_trans(mcs0, mcs1, g.mcs@);
            crate::greedy::lemma_refine_keeps_wf(old(g), g);
        }
        return PARSanityResult::FailureGlobalNetWrongLoc;
    }
    let ghost mcs2 = g.mcs@;
    proof {
        crate::greedy::lemma_mcs_refine_trans(mcs0, mcs1, mcs2);
    }
    if !pin_drivers(&mut g.mcs, &gsr_reqs, &gsr) {
        proof {
            crate::greedy::lemma_mcs_refine_trans(mcs0, mcs2, g.mcs@);
            crate::greedy::lemma_refine_keeps_wf(old(g), g);
        }
        return PARSanityResult::FailureGlobalNetWrongLoc;
    }
    proof {
        let mcs3 = g.mcs@;
        crate::greedy::lemma_mcs_refine_trans(mcs0, mcs2, mcs3);
        crate::greedy::lemma_mcs_refine_trans(mcs1, mcs2, mcs3);
        crate::greedy::lemma_refine_keeps_wf(old(g), g);
        lemma_pinned_kept(clk_reqs@, gck@, mcs1, mcs3);
        lemma_pinned_kept(gts_reqs@, gts@, mcs2, mcs3);
    }
    PARSanityResult::Passed
}

} // verus!
