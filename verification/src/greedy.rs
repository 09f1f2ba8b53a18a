//! Greedy initial placement: global buffers first, then macrocells, each
//! into the first site that can take it.

use vstd::prelude::*;
use crate::bufplace::assign_buffer_sites;
use crate::bufplace::lemma_handed_unique;
use crate::bufplace::lemma_pinned_unique;
use crate::bufplace::lemma_resolved_unique;
use crate::bufplace::mcs_pinned;
use crate::bufplace::requests_resolved;
use crate::bufplace::sites_handed;
use crate::bufplace::loc_refines;
use crate::bufplace::mcs_refine;
use crate::bufplace::pinned_to;
use crate::bufplace::requests_ok;
use crate::bufplace::resolve_buffer_indices;
use crate::bufplace::resolved;
use crate::bufplace::sites_place;
use crate::bufplace::BufferRequest;
use crate::device::DeviceSpec;
use crate::mc::MCS_PER_FB;
use crate::netlist::buf_loc_in_range;
use crate::netlist::mc_loc_in_range;
use crate::netlist::AssignedLocation;
use crate::netlist::NUM_BUFG_CLK;
use crate::netlist::NUM_BUFG_GSR;
use crate::netlist::NUM_BUFG_GTS;
use crate::netlist::InputGraph;
use crate::netlist::InputGraphBufgClk;
use crate::netlist::InputGraphBufgGSR;
use crate::netlist::InputGraphBufgGTS;
use crate::netlist::InputGraphMacrocell;
use crate::netlist::RequestedLocation;
use crate::netlist::NUM_LOC_FBS;
use crate::outgraph::can_pair;
use crate::outgraph::mc_locs_honored;
use crate::outgraph::mcs_can_be_paired;
use crate::outgraph::placement_matches;
use crate::outgraph::placement_shape;
use crate::outgraph::slot;
use crate::outgraph::OutputGraph;
use crate::outgraph::OutputGraphBufgClk;
use crate::outgraph::OutputGraphBufgGSR;
use crate::outgraph::OutputGraphBufgGTS;
use crate::outgraph::OutputGraphMacrocell;
use crate::outgraph::PARFBAssignment;
use crate::outgraph::PARMCAssignment;

verus! {

/// Reads one half of a site.
pub fn get_slot(pl: &Vec<PARFBAssignment>, fb: usize, mc: usize, pin: bool) -> (r: PARMCAssignment)
    requires
        fb < pl@.len(),
        mc < MCS_PER_FB,
    ensures
        r == slot(pl@, fb as int, mc as int, pin),
{
    if pin {
        pl[fb][mc].1
    } else {
        pl[fb][mc].0
    }
}

/// Writes one half of a site and leaves every other half as it was.
pub fn set_slot(pl: &mut Vec<PARFBAssignment>, fb: usize, mc: usize, pin: bool, v: PARMCAssignment)
    requires
        fb < old(pl)@.len(),
        mc < MCS_PER_FB,
    ensures
        final(pl)@.len() == old(pl)@.len(),
        slot(final(pl)@, fb as int, mc as int, pin) == v,
        forall|f: int, m: int, p: bool|
            0 <= f < old(pl)@.len() && 0 <= m < MCS_PER_FB && !(f == fb && m == mc && p == pin)
                ==> #[trigger] slot(final(pl)@, f, m, p) == slot(old(pl)@, f, m, p),
{
    let mut site = pl[fb][mc];
    if pin {
        site.1 = v;
    } else {
        site.0 = v;
    }
    let mut block = pl[fb];
    block[mc] = site;
    pl[fb] = block;
}

/// A chip placement in which no macrocell is placed yet.
pub fn empty_placement() -> (r: Vec<PARFBAssignment>)
    ensures
        placement_shape(r@),
        forall|fb: int, mc: int, pin: bool|
            0 <= fb < NUM_LOC_FBS && 0 <= mc < MCS_PER_FB ==> !(#[trigger] slot(r@, fb, mc, pin)
                is MC),
{
    let mut ret: Vec<PARFBAssignment> = Vec::new();
    ret.push([(PARMCAssignment::Empty, PARMCAssignment::Empty); 16]);
    ret.push([(PARMCAssignment::Empty, PARMCAssignment::Empty); 16]);
    let mut pin_block = [(PARMCAssignment::Banned, PARMCAssignment::Banned); 16];
    pin_block[0] = (PARMCAssignment::Banned, PARMCAssignment::Empty);
    ret.push(pin_block);
    ret
}

/// The order in which macrocells are placed: those that name a site
/// first, then those that name a function block, then the rest.
pub open spec fn loc_class(mc: &InputGraphMacrocell) -> int {
    match mc.requested_loc {
        Some(l) => if l.i is Some {
            0
        } else {
            1
        },
        None => 2,
    }
}

/// Whether macrocell `i` has been placed once the pass for class `stage`
/// has reached index `k`.
pub open spec fn placed_by(g: &InputGraph, stage: int, k: int, i: int) -> bool {
    loc_class(&g.mcs@[i]) < stage || (loc_class(&g.mcs@[i]) == stage && i < k)
}

/// Whether site `(fb, mc)` is one that macrocell `m` asked for.
pub open spec fn site_honors(m: &InputGraphMacrocell, fb: int, mc: int) -> bool {
    m.requested_loc matches Some(r) ==> r.fb == fb && (r.i matches Some(ri) ==> ri == mc)
}

/// The state of the placement while macrocells are being placed:
/// `place` records for every macrocell placed so far the site that holds
/// it, and every occupied half holds a macrocell of the right kind that
/// asked for nothing else.
pub open spec fn placing_inv(
    g: &InputGraph,
    pl: Seq<PARFBAssignment>,
    place: Seq<Option<(int, int)>>,
    stage: int,
    k: int,
) -> bool {
    &&& placement_shape(pl)
    &&& place.len() == g.mcs@.len()
    &&& forall|fb: int, mc: int, pin: bool|
        0 <= fb < NUM_LOC_FBS && 0 <= mc < MCS_PER_FB ==> (#[trigger] slot(pl, fb, mc, pin)
            matches PARMCAssignment::MC(i) ==> {
            &&& i < g.mcs@.len()
            &&& placed_by(g, stage, k, i as int)
            &&& g.mcs@[i as int].is_pin() == pin
            &&& place[i as int] == Some((fb, mc))
            &&& site_honors(&g.mcs@[i as int], fb, mc)
        })
    &&& forall|i: int|
        0 <= i < g.mcs@.len() && placed_by(g, stage, k, i) ==> (#[trigger] place[i] matches Some(
            s,
        ) && 0 <= s.0 < NUM_LOC_FBS && 0 <= s.1 < MCS_PER_FB && slot(
            pl,
            s.0,
            s.1,
            g.mcs@[i].is_pin(),
        ) == PARMCAssignment::MC(i as usize))
}

/// Whether the pin-input macrocell `m` may take the pin half of a site
/// whose logic half holds `logic`.
pub open spec fn pin_fits(g: &InputGraph, logic: PARMCAssignment, m: &InputGraphMacrocell) -> bool {
    logic matches PARMCAssignment::MC(a) ==> a < g.mcs@.len() ==> can_pair(&g.mcs@[a as int], m)
}

/// Whether macrocell `i` can be put into site `mc` of block `fb` as the
/// placement stands: its half is empty and, for a pin input, the logic
/// half holds nothing it cannot pair with.
pub open spec fn site_takes(g: &InputGraph, pl: Seq<PARFBAssignment>, fb: int, mc: int, i: int) -> bool {
    let m = &g.mcs@[i];
    &&& slot(pl, fb, mc, m.is_pin()) == PARMCAssignment::Empty
    &&& (m.is_pin() ==> pin_fits(g, slot(pl, fb, mc, false), m))
}

/// What a half of the placement `pl` held when macrocell `k` of class
/// `stage` had its turn: a macrocell that was placed by then, or else
/// nothing.
pub open spec fn slot_before(
    g: &InputGraph,
    pl: Seq<PARFBAssignment>,
    stage: int,
    k: int,
    fb: int,
    mc: int,
    pin: bool,
) -> PARMCAssignment {
    match slot(pl, fb, mc, pin) {
        PARMCAssignment::MC(j) => if j < g.mcs@.len() && placed_by(g, stage, k, j as int) {
            PARMCAssignment::MC(j)
        } else {
            PARMCAssignment::Empty
        },
        other => other,
    }
}

/// Whether macrocell `i` could be put into site `mc` of block `fb` when
/// its turn came, in the placement `pl` that holds every macrocell.
pub open spec fn site_took(g: &InputGraph, pl: Seq<PARFBAssignment>, fb: int, mc: int, i: int) -> bool {
    let m = &g.mcs@[i];
    let c = loc_class(m);
    &&& slot_before(g, pl, c, i, fb, mc, m.is_pin()) == PARMCAssignment::Empty
    &&& (m.is_pin() ==> pin_fits(g, slot_before(g, pl, c, i, fb, mc, false), m))
}

/// Whether site `(fb, mc)` is tried before site `(fb2, mc2)`.
pub open spec fn site_precedes(fb: int, mc: int, fb2: int, mc2: int) -> bool {
    fb < fb2 || (fb == fb2 && mc < mc2)
}

/// Whether macrocell `i` sits in site `(fb, mc)` of the placement `pl` as
/// the greedy placement puts it: the site is one that the macrocell
/// asked for, and unless it named the site, it is the first such site
/// that could take the macrocell when its turn came.
pub open spec fn sits_first(g: &InputGraph, pl: Seq<PARFBAssignment>, i: int, fb: int, mc: int) -> bool {
    let m = &g.mcs@[i];
    &&& 0 <= fb < NUM_LOC_FBS
    &&& 0 <= mc < MCS_PER_FB
    &&& slot(pl, fb, mc, m.is_pin()) == PARMCAssignment::MC(i as usize)
    &&& site_honors(m, fb, mc)
    &&& (!m.fully_locked() ==> site_took(g, pl, fb, mc, i) && forall|f: int, x: int|
        0 <= f < NUM_LOC_FBS && 0 <= x < MCS_PER_FB && site_honors(m, f, x) && site_precedes(
            f,
            x,
            fb,
            mc,
        ) ==> !#[trigger] site_took(g, pl, f, x, i))
}

/// Whether macrocell `j` sits somewhere in `pl` as the greedy placement
/// puts it.
pub open spec fn is_placed(g: &InputGraph, pl: Seq<PARFBAssignment>, j: int) -> bool {
    exists|fb: int, mc: int| #[trigger] sits_first(g, pl, j, fb, mc)
}

/// Whether `pl` is the greedy placement of the macrocells of `g`: it
/// holds every macrocell, each where `sits_first` says, and macrocells
/// that share a site that both named obey the pairing rule.
pub open spec fn greedy_placed(g: &InputGraph, pl: Seq<PARFBAssignment>) -> bool {
    &&& placement_shape(pl)
    &&& forall|fb: int, mc: int, pin: bool|
        0 <= fb < NUM_LOC_FBS && 0 <= mc < MCS_PER_FB ==> (#[trigger] slot(pl, fb, mc, pin)
            matches PARMCAssignment::MC(j) ==> {
            &&& j < g.mcs@.len()
            &&& g.mcs@[j as int].is_pin() == pin
            &&& sits_first(g, pl, j as int, fb, mc)
        })
    &&& forall|j: int| 0 <= j < g.mcs@.len() ==> #[trigger] is_placed(g, pl, j)
    &&& locked_pairs_fit(g, pl)
}

/// Whether the macrocells of `g` can be placed greedily.
pub open spec fn can_place(g: &InputGraph) -> bool {
    exists|pl: Seq<PARFBAssignment>| #[trigger] greedy_placed(g, pl)
}

/// Whether the placement `now`, which is still being filled, holds what
/// the full placement `pl` held when macrocell `k` of class `stage` had
/// its turn.
pub open spec fn agrees_before(
    g: &InputGraph,
    now: Seq<PARFBAssignment>,
    pl: Seq<PARFBAssignment>,
    stage: int,
    k: int,
) -> bool {
    forall|fb: int, mc: int, pin: bool|
        #![trigger slot(now, fb, mc, pin)]
        #![trigger slot_before(g, pl, stage, k, fb, mc, pin)]
        0 <= fb < NUM_LOC_FBS && 0 <= mc < MCS_PER_FB ==> slot(now, fb, mc, pin) == slot_before(
            g,
            pl,
            stage,
            k,
            fb,
            mc,
            pin,
        )
}

/// Whether every greedy placement of `g` agrees with the placement `now`
/// on the macrocells placed so far.
pub open spec fn all_agree(g: &InputGraph, now: Seq<PARFBAssignment>, stage: int, k: int) -> bool {
    forall|pl: Seq<PARFBAssignment>| #[trigger] greedy_placed(g, pl) ==> agrees_before(g, now, pl, stage, k)
}

/// Whether every macrocell placed so far sits in `pl` where `place` says
/// and as `sits_first` says.
pub open spec fn placed_first(
    g: &InputGraph,
    pl: Seq<PARFBAssignment>,
    place: Seq<Option<(int, int)>>,
    stage: int,
    k: int,
) -> bool {
    forall|j: int|
        0 <= j < g.mcs@.len() && placed_by(g, stage, k, j) ==> ((#[trigger] place[j]) matches Some(s)
            && sits_first(g, pl, j, s.0, s.1))
}

/// Whether site `(fb, mc)` is the site that the greedy placement picks
/// for macrocell `i` in the placement `now`: one that the macrocell asked
/// for, with the half for it empty, and unless the macrocell named the
/// site, the first such site that can take it.
pub open spec fn picks_site(g: &InputGraph, now: Seq<PARFBAssignment>, i: int, fb: int, mc: int) -> bool {
    let m = &g.mcs@[i];
    &&& 0 <= fb < NUM_LOC_FBS
    &&& 0 <= mc < MCS_PER_FB
    &&& slot(now, fb, mc, m.is_pin()) == PARMCAssignment::Empty
    &&& site_honors(m, fb, mc)
    &&& (!m.fully_locked() ==> site_takes(g, now, fb, mc, i) && forall|f: int, x: int|
        0 <= f < NUM_LOC_FBS && 0 <= x < MCS_PER_FB && site_honors(m, f, x) && site_precedes(
            f,
            x,
            fb,
            mc,
        ) ==> !#[trigger] site_takes(g, now, f, x, i))
}

/// Whether `after` is `before` with macrocell `i` put into site
/// `(fb, mc)`.
pub open spec fn put_into(
    g: &InputGraph,
    before: Seq<PARFBAssignment>,
    after: Seq<PARFBAssignment>,
    i: int,
    fb: int,
    mc: int,
) -> bool {
    &&& slot(after, fb, mc, g.mcs@[i].is_pin()) == PARMCAssignment::MC(i as usize)
    &&& forall|f: int, m: int, p: bool|
        0 <= f < NUM_LOC_FBS && 0 <= m < MCS_PER_FB && !(f == fb && m == mc && p
            == g.mcs@[i].is_pin()) ==> #[trigger] slot(after, f, m, p) == slot(before, f, m, p)
}

/// A macrocell sits in one site only as `sits_first` says.
pub proof fn lemma_sits_first_unique(
    g: &InputGraph,
    pl: Seq<PARFBAssignment>,
    i: int,
    fb: int,
    mc: int,
    fb2: int,
    mc2: int,
)
    requires
        sits_first(g, pl, i, fb, mc),
        sits_first(g, pl, i, fb2, mc2),
    ensures
        fb == fb2,
        mc == mc2,
{
    if !g.mcs@[i].fully_locked() {
        if site_precedes(fb, mc, fb2, mc2) {
            assert(!site_took(g, pl, fb, mc, i));
        }
        if site_precedes(fb2, mc2, fb, mc) {
            assert(!site_took(g, pl, fb2, mc2, i));
        }
    }
}

/// Where the placement that is being filled agrees with a full placement
/// on what was placed before macrocell `i`, a site can take the
/// macrocell in the one exactly if it could in the other.
proof fn lemma_took_is_takes(
    g: &InputGraph,
    now: Seq<PARFBAssignment>,
    pl: Seq<PARFBAssignment>,
    i: int,
    fb: int,
    mc: int,
)
    requires
        0 <= i < g.mcs@.len(),
        0 <= fb < NUM_LOC_FBS,
        0 <= mc < MCS_PER_FB,
        agrees_before(g, now, pl, loc_class(&g.mcs@[i]), i),
    ensures
        site_took(g, pl, fb, mc, i) == site_takes(g, now, fb, mc, i),
{
    let c = loc_class(&g.mcs@[i]);
    assert(slot(now, fb, mc, true) == slot_before(g, pl, c, i, fb, mc, true));
    assert(slot(now, fb, mc, false) == slot_before(g, pl, c, i, fb, mc, false));
}

/// Every greedy placement puts macrocell `i` where the placement that is
/// being filled puts it.
proof fn lemma_agree_step(
    g: &InputGraph,
    before: Seq<PARFBAssignment>,
    after: Seq<PARFBAssignment>,
    pl: Seq<PARFBAssignment>,
    stage: int,
    i: int,
    fb: int,
    mc: int,
)
    requires
        g.wf(),
        0 <= i < g.mcs@.len(),
        loc_class(&g.mcs@[i]) == stage,
        greedy_placed(g, pl),
        agrees_before(g, before, pl, stage, i),
        picks_site(g, before, i, fb, mc),
        put_into(g, before, after, i, fb, mc),
    ensures
        agrees_before(g, after, pl, stage, i + 1),
{
    let m = &g.mcs@[i];
    assert(is_placed(g, pl, i));
    let (f2, m2) = choose|f2: int, m2: int| #[trigger] sits_first(g, pl, i, f2, m2);
    if !m.fully_locked() {
        lemma_took_is_takes(g, before, pl, i, fb, mc);
        lemma_took_is_takes(g, before, pl, i, f2, m2);
        if site_precedes(fb, mc, f2, m2) {
            assert(!site_took(g, pl, fb, mc, i));
        }
        if site_precedes(f2, m2, fb, mc) {
            assert(!site_takes(g, before, f2, m2, i));
        }
    }
    assert(f2 == fb && m2 == mc);
    assert forall|f: int, x: int, p: bool|
        #![trigger slot(after, f, x, p)]
        #![trigger slot_before(g, pl, stage, i + 1, f, x, p)]
        0 <= f < NUM_LOC_FBS && 0 <= x < MCS_PER_FB implies slot(after, f, x, p) == slot_before(
        g,
        pl,
        stage,
        i + 1,
        f,
        x,
        p,
    ) by {
        if !(f == fb && x == mc && p == m.is_pin()) {
            assert(slot(after, f, x, p) == slot(before, f, x, p));
            assert(slot(before, f, x, p) == slot_before(g, pl, stage, i, f, x, p));
            if let PARMCAssignment::MC(j) = slot(pl, f, x, p) {
                if j == i {
                    // a macrocell sits in one site only
                    lemma_sits_first_unique(g, pl, i, f, x, fb, mc);
                }
            }
        }
    }
}

/// Putting macrocell `i` into the site that the greedy placement picks
/// for it leaves every macrocell placed so far where `sits_first` says.
proof fn lemma_first_step(
    g: &InputGraph,
    before: Seq<PARFBAssignment>,
    after: Seq<PARFBAssignment>,
    place: Seq<Option<(int, int)>>,
    stage: int,
    i: int,
    fb: int,
    mc: int,
)
    requires
        g.wf(),
        0 <= i < g.mcs@.len(),
        loc_class(&g.mcs@[i]) == stage,
        placing_inv(g, before, place, stage, i),
        placed_first(g, before, place, stage, i),
        picks_site(g, before, i, fb, mc),
        put_into(g, before, after, i, fb, mc),
    ensures
        placed_first(g, after, place.update(i, Some((fb, mc))), stage, i + 1),
{
    let m = &g.mcs@[i];
    let place2 = place.update(i, Some((fb, mc)));
    assert forall|j: int| 0 <= j < g.mcs@.len() && placed_by(g, stage, i + 1, j) implies ((
    #[trigger] place2[j]) matches Some(s) && sits_first(g, after, j, s.0, s.1)) by {
        let mj = &g.mcs@[j];
        let cj = loc_class(mj);
        // what was there when `j` had its turn is the same in both
        assert forall|f: int, x: int, p: bool|
            0 <= f < NUM_LOC_FBS && 0 <= x < MCS_PER_FB implies #[trigger] slot_before(
            g,
            after,
            cj,
            j,
            f,
            x,
            p,
        ) == (if j == i {
            slot(before, f, x, p)
        } else {
            slot_before(g, before, cj, j, f, x, p)
        }) by {
            if f == fb && x == mc && p == m.is_pin() {
            } else {
                assert(slot(after, f, x, p) == slot(before, f, x, p));
                if j == i {
                    if let PARMCAssignment::MC(q) = slot(before, f, x, p) {
                        assert(placed_by(g, stage, i, q as int));
                    }
                }
            }
        }
        if j == i {
            assert forall|f: int, x: int|
                0 <= f < NUM_LOC_FBS && 0 <= x < MCS_PER_FB implies #[trigger] site_took(
                g,
                after,
                f,
                x,
                i,
            ) == site_takes(g, before, f, x, i) by {
                assert(slot_before(g, after, cj, j, f, x, true) == slot(before, f, x, true));
                assert(slot_before(g, after, cj, j, f, x, false) == slot(before, f, x, false));
            }
        } else {
            assert(placed_by(g, stage, i, j));
            let s = place[j].unwrap();
            assert(sits_first(g, before, j, s.0, s.1));
            assert(slot(after, s.0, s.1, mj.is_pin()) == slot(before, s.0, s.1, mj.is_pin()));
            assert forall|f: int, x: int|
                0 <= f < NUM_LOC_FBS && 0 <= x < MCS_PER_FB implies #[trigger] site_took(
                g,
                after,
                f,
                x,
                j,
            ) == site_took(g, before, f, x, j) by {
                assert(slot_before(g, after, cj, j, f, x, true) == slot_before(
                    g,
                    before,
                    cj,
                    j,
                    f,
                    x,
                    true,
                ));
                assert(slot_before(g, after, cj, j, f, x, false) == slot_before(
                    g,
                    before,
                    cj,
                    j,
                    f,
                    x,
                    false,
                ));
            }
        }
    }
}

/// Whether macrocell `mc_idx` can be put into site `mc` of block `fb`.
fn site_can_take(g: &InputGraph, pl: &Vec<PARFBAssignment>, fb: usize, mc: usize, mc_idx: usize) -> (r: bool)
    requires
        pl@.len() == NUM_LOC_FBS,
        fb < NUM_LOC_FBS,
        mc < MCS_PER_FB,
        mc_idx < g.mcs@.len(),
        forall|f: int, m: int, p: bool|
            0 <= f < NUM_LOC_FBS && 0 <= m < MCS_PER_FB ==> (#[trigger] slot(pl@, f, m, p)
                matches PARMCAssignment::MC(i) ==> i < g.mcs@.len()),
    ensures
        r == site_takes(g, pl@, fb as int, mc as int, mc_idx as int),
{
    let m = &g.mcs[mc_idx];
    let is_pininput = m.get_type().is_pininput();
    if get_slot(pl, fb, mc, is_pininput) != PARMCAssignment::Empty {
        return false;
    }
    if is_pininput {
        if let PARMCAssignment::MC(mc_idx_0) = get_slot(pl, fb, mc, false) {
            if !mcs_can_be_paired(&g.mcs[mc_idx_0], m) {
                return false;
            }
        }
    }
    true
}

/// Finds the first site of block `fb` that can take macrocell `mc_idx`.
fn first_site_in_fb(g: &InputGraph, pl: &Vec<PARFBAssignment>, fb: usize, mc_idx: usize) -> (r: Option<
    usize,
>)
    requires
        pl@.len() == NUM_LOC_FBS,
        fb < NUM_LOC_FBS,
        mc_idx < g.mcs@.len(),
        forall|f: int, m: int, p: bool|
            0 <= f < NUM_LOC_FBS && 0 <= m < MCS_PER_FB ==> (#[trigger] slot(pl@, f, m, p)
                matches PARMCAssignment::MC(i) ==> i < g.mcs@.len()),
    ensures
        match r {
            Some(mc) => mc < MCS_PER_FB && site_takes(g, pl@, fb as int, mc as int, mc_idx as int)
                && forall|m: int| 0 <= m < mc ==> !site_takes(g, pl@, fb as int, m, mc_idx as int),
            None => forall|m: int|
                0 <= m < MCS_PER_FB ==> !site_takes(g, pl@, fb as int, m, mc_idx as int),
        },
{
    let mut i: usize = 0;
    while i < MCS_PER_FB
        invariant
            i <= MCS_PER_FB,
            pl@.len() == NUM_LOC_FBS,
            fb < NUM_LOC_FBS,
            mc_idx < g.mcs@.len(),
            forall|f: int, m: int, p: bool|
                0 <= f < NUM_LOC_FBS && 0 <= m < MCS_PER_FB ==> (#[trigger] slot(pl@, f, m, p)
                    matches PARMCAssignment::MC(i) ==> i < g.mcs@.len()),
            forall|m: int| 0 <= m < i ==> !site_takes(g, pl@, fb as int, m, mc_idx as int),
        decreases MCS_PER_FB - i,
    {
        if site_can_take(g, pl, fb, i, mc_idx) {
            return Some(i);
        }
        i += 1;
    }
    None
}

/// Puts macrocell `i` into the half for its kind of site `(fb, mc)`.
fn place_mc(
    g: &InputGraph,
    pl: &mut Vec<PARFBAssignment>,
    Ghost(place): Ghost<Seq<Option<(int, int)>>>,
    Ghost(stage): Ghost<int>,
    fb: usize,
    mc: usize,
    i: usize,
) -> (r: Ghost<Seq<Option<(int, int)>>>)
    requires
        placing_inv(g, old(pl)@, place, stage, i as int),
        i < g.mcs@.len(),
        fb < NUM_LOC_FBS,
        mc < MCS_PER_FB,
        loc_class(&g.mcs@[i as int]) == stage,
        slot(old(pl)@, fb as int, mc as int, g.mcs@[i as int].is_pin()) == PARMCAssignment::Empty,
        site_honors(&g.mcs@[i as int], fb as int, mc as int),
    ensures
        placing_inv(g, final(pl)@, r@, stage, i + 1),
        slot(final(pl)@, fb as int, mc as int, g.mcs@[i as int].is_pin()) == PARMCAssignment::MC(i),
        forall|f: int, m: int, p: bool|
            0 <= f < NUM_LOC_FBS && 0 <= m < MCS_PER_FB && !(f == fb && m == mc && p
                == g.mcs@[i as int].is_pin()) ==> #[trigger] slot(final(pl)@, f, m, p) == slot(
                old(pl)@,
                f,
                m,
                p,
            ),
{
    let is_pininput = g.mcs[i].get_type().is_pininput();
    set_slot(pl, fb, mc, is_pininput, PARMCAssignment::MC(i));
    let ghost new_place = place.update(i as int, Some((fb as int, mc as int)));
    proof {
        assert forall|f: int, m: int, p: bool|
            0 <= f < NUM_LOC_FBS && 0 <= m < MCS_PER_FB implies (#[trigger] slot(pl@, f, m, p)
            matches PARMCAssignment::MC(j) ==> {
            &&& j < g.mcs@.len()
            &&& placed_by(g, stage, i + 1, j as int)
            &&& g.mcs@[j as int].is_pin() == p
            &&& new_place[j as int] == Some((f, m))
            &&& site_honors(&g.mcs@[j as int], f, m)
        }) by {
            if !(f == fb && m == mc && p == is_pininput) {
                assert(slot(pl@, f, m, p) == slot(old(pl)@, f, m, p));
            }
        }
        assert forall|j: int|
            0 <= j < g.mcs@.len() && placed_by(g, stage, i + 1, j) implies (
        #[trigger] new_place[j] matches Some(s) && 0 <= s.0 < NUM_LOC_FBS && 0 <= s.1 < MCS_PER_FB
            && slot(pl@, s.0, s.1, g.mcs@[j].is_pin()) == PARMCAssignment::MC(j as usize)) by {
            if j != i {
                assert(placed_by(g, stage, i as int, j));
                let s = place[j].unwrap();
                assert(slot(old(pl)@, s.0, s.1, g.mcs@[j].is_pin()) == PARMCAssignment::MC(
                    j as usize,
                ));
            }
        }
        assert(placement_shape(pl@)) by {
            assert forall|f: int, m: int, p: bool|
                0 <= f < NUM_LOC_FBS && 0 <= m < MCS_PER_FB implies ((#[trigger] slot(pl@, f, m, p))
                == PARMCAssignment::Banned <==> f == 2 && !(m == 0 && p)) by {
                if !(f == fb && m == mc && p == is_pininput) {
                    assert(slot(pl@, f, m, p) == slot(old(pl)@, f, m, p));
                } else {
                    assert(slot(old(pl)@, f, m, p) == PARMCAssignment::Empty);
                }
            }
        }
    }
    Ghost(new_place)
}

/// Every pair of macrocells that share a site and both named that site
/// obeys the pairing rule.
pub open spec fn locked_pairs_fit(g: &InputGraph, pl: Seq<PARFBAssignment>) -> bool {
    forall|fb: int, mc: int|
        #![trigger slot(pl, fb, mc, false)]
        #![trigger slot(pl, fb, mc, true)]
        0 <= fb < NUM_LOC_FBS && 0 <= mc < MCS_PER_FB ==> (slot(pl, fb, mc, false)
            matches PARMCAssignment::MC(a) ==> (slot(pl, fb, mc, true)
            matches PARMCAssignment::MC(b) ==> (a < g.mcs@.len() && b < g.mcs@.len()
            && g.mcs@[a as int].fully_locked() && g.mcs@[b as int].fully_locked() ==> can_pair(
            &g.mcs@[a as int],
            &g.mcs@[b as int],
        ))))
}

/// Checks the pairing rule on every site whose two halves are occupied.
fn all_pairs_fit(g: &InputGraph, pl: &Vec<PARFBAssignment>) -> (r: bool)
    requires
        pl@.len() == NUM_LOC_FBS,
        forall|f: int, m: int, p: bool|
            0 <= f < NUM_LOC_FBS && 0 <= m < MCS_PER_FB ==> (#[trigger] slot(pl@, f, m, p)
                matches PARMCAssignment::MC(i) ==> i < g.mcs@.len()),
    ensures
        r == (forall|fb: int, mc: int|
            #![trigger slot(pl@, fb, mc, false)]
            #![trigger slot(pl@, fb, mc, true)]
            0 <= fb < NUM_LOC_FBS && 0 <= mc < MCS_PER_FB ==> (slot(pl@, fb, mc, false)
                matches PARMCAssignment::MC(a) ==> (slot(pl@, fb, mc, true)
                matches PARMCAssignment::MC(b) ==> can_pair(
                &g.mcs@[a as int],
                &g.mcs@[b as int],
            )))),
{
    let mut fb_i: usize = 0;
    while fb_i < NUM_LOC_FBS
        invariant
            fb_i <= NUM_LOC_FBS,
            pl@.len() == NUM_LOC_FBS,
            forall|f: int, m: int, p: bool|
                0 <= f < NUM_LOC_FBS && 0 <= m < MCS_PER_FB ==> (#[trigger] slot(pl@, f, m, p)
                    matches PARMCAssignment::MC(i) ==> i < g.mcs@.len()),
            forall|fb: int, mc: int|
                #![trigger slot(pl@, fb, mc, false)]
                #![trigger slot(pl@, fb, mc, true)]
                0 <= fb < fb_i && 0 <= mc < MCS_PER_FB ==> (slot(pl@, fb, mc, false)
                    matches PARMCAssignment::MC(a) ==> (slot(pl@, fb, mc, true)
                    matches PARMCAssignment::MC(b) ==> can_pair(
                    &g.mcs@[a as int],
                    &g.mcs@[b as int],
                ))),
        decreases NUM_LOC_FBS - fb_i,
    {
        let mut mc_i: usize = 0;
        while mc_i < MCS_PER_FB
            invariant
                fb_i < NUM_LOC_FBS,
                mc_i <= MCS_PER_FB,
                pl@.len() == NUM_LOC_FBS,
                forall|f: int, m: int, p: bool|
                    0 <= f < NUM_LOC_FBS && 0 <= m < MCS_PER_FB ==> (#[trigger] slot(pl@, f, m, p)
                        matches PARMCAssignment::MC(i) ==> i < g.mcs@.len()),
                forall|fb: int, mc: int|
                    #![trigger slot(pl@, fb, mc, false)]
                    #![trigger slot(pl@, fb, mc, true)]
                    0 <= fb < NUM_LOC_FBS && 0 <= mc < MCS_PER_FB && (fb < fb_i || (fb == fb_i
                        && mc < mc_i)) ==> (slot(pl@, fb, mc, false)
                        matches PARMCAssignment::MC(a) ==> (slot(pl@, fb, mc, true)
                        matches PARMCAssignment::MC(b) ==> can_pair(
                        &g.mcs@[a as int],
                        &g.mcs@[b as int],
                    ))),
            decreases MCS_PER_FB - mc_i,
        {
            if let PARMCAssignment::MC(mc_idx_0) = get_slot(pl, fb_i, mc_i, false) {
                if let PARMCAssignment::MC(mc_idx_1) = get_slot(pl, fb_i, mc_i, true) {
                    if !mcs_can_be_paired(&g.mcs[mc_idx_0], &g.mcs[mc_idx_1]) {
                        return false;
                    }
                }
            }
            mc_i += 1;
        }
        fb_i += 1;
    }
    true
}

/// Whether the macrocells are sure to find sites: none asks for a place,
/// none is a pin input, and they are no more than the function blocks
/// have sites.
pub open spec fn fits_easily(g: &InputGraph) -> bool {
    &&& g.mcs@.len() <= 32
    &&& forall|i: int|
        0 <= i < g.mcs@.len() ==> (#[trigger] g.mcs@[i]).requested_loc is None && !g.mcs@[i].is_pin()
}

/// If no site of the two function blocks can take one more macrocell of
/// a netlist that fits easily, 32 macrocells have been placed.
proof fn lemma_blocks_full(
    g: &InputGraph,
    pl: Seq<PARFBAssignment>,
    place: Seq<Option<(int, int)>>,
    i: int,
)
    requires
        fits_easily(g),
        0 <= i < g.mcs@.len(),
        placing_inv(g, pl, place, 2, i),
        forall|f: int, m: int|
            0 <= f < 2 && 0 <= m < MCS_PER_FB ==> !#[trigger] site_takes(g, pl, f, m, i),
    ensures
        i >= 32,
{
    let held = Seq::new(
        32,
        |q: int|
            match slot(pl, q / 16, q % 16, false) {
                PARMCAssignment::MC(j) => j as int,
                _ => -1,
            },
    );
    assert forall|q: int| 0 <= q < 32 implies 0 <= #[trigger] held[q] < i && slot(
        pl,
        q / 16,
        q % 16,
        false,
    ) == PARMCAssignment::MC(held[q] as usize) by {
        assert(!site_takes(g, pl, q / 16, q % 16, i));
        assert(!g.mcs@[i].is_pin());
        let s = slot(pl, q / 16, q % 16, false);
        assert(s != PARMCAssignment::Empty);
        assert(s != PARMCAssignment::Banned);
        let j = s->MC_0;
        assert(placed_by(g, 2, i, j as int));
        assert(loc_class(&g.mcs@[j as int]) == 2);
    }
    assert forall|a: int, b: int| 0 <= a < held.len() && 0 <= b < held.len() && a != b
        implies held[a] != held[b] by {
        if held[a] == held[b] {
            let j = held[a] as usize;
            assert(slot(pl, a / 16, a % 16, false) == PARMCAssignment::MC(j));
            assert(slot(pl, b / 16, b % 16, false) == PARMCAssignment::MC(j));
            assert(place[j as int] == Some((a / 16, a % 16)));
            assert(place[j as int] == Some((b / 16, b % 16)));
        }
    }
    crate::ziaroute::lemma_distinct_bound(held, i as nat);
}

/// A macrocell of another class is passed over: nothing changes.
proof fn lemma_passed_over(
    g: &InputGraph,
    now: Seq<PARFBAssignment>,
    place: Seq<Option<(int, int)>>,
    stage: int,
    i: int,
)
    requires
        0 <= i < g.mcs@.len(),
        loc_class(&g.mcs@[i]) != stage,
        all_agree(g, now, stage, i),
        placed_first(g, now, place, stage, i),
    ensures
        all_agree(g, now, stage, i + 1),
        placed_first(g, now, place, stage, i + 1),
{
    assert forall|j: int| 0 <= j < g.mcs@.len() implies placed_by(g, stage, i + 1, j) == placed_by(
        g,
        stage,
        i,
        j,
    ) by {}
    assert forall|pl: Seq<PARFBAssignment>| #[trigger] greedy_placed(g, pl) implies agrees_before(
        g,
        now,
        pl,
        stage,
        i + 1,
    ) by {
        assert(agrees_before(g, now, pl, stage, i));
        assert forall|f: int, x: int, p: bool|
            #![trigger slot(now, f, x, p)]
            #![trigger slot_before(g, pl, stage, i + 1, f, x, p)]
            0 <= f < NUM_LOC_FBS && 0 <= x < MCS_PER_FB implies slot(now, f, x, p) == slot_before(
            g,
            pl,
            stage,
            i + 1,
            f,
            x,
            p,
        ) by {
            assert(slot(now, f, x, p) == slot_before(g, pl, stage, i, f, x, p));
        }
    }
}

/// When one class of macrocells is through, the next begins where it
/// ended.
proof fn lemma_next_class(
    g: &InputGraph,
    now: Seq<PARFBAssignment>,
    place: Seq<Option<(int, int)>>,
    stage: int,
)
    requires
        all_agree(g, now, stage, g.mcs@.len() as int),
        placed_first(g, now, place, stage, g.mcs@.len() as int),
    ensures
        all_agree(g, now, stage + 1, 0),
        placed_first(g, now, place, stage + 1, 0),
{
    let n = g.mcs@.len() as int;
    assert forall|j: int| 0 <= j < n implies placed_by(g, stage + 1, 0, j) == placed_by(
        g,
        stage,
        n,
        j,
    ) by {}
    assert forall|pl: Seq<PARFBAssignment>| #[trigger] greedy_placed(g, pl) implies agrees_before(
        g,
        now,
        pl,
        stage + 1,
        0,
    ) by {
        assert(agrees_before(g, now, pl, stage, n));
        assert forall|f: int, x: int, p: bool|
            #![trigger slot(now, f, x, p)]
            #![trigger slot_before(g, pl, stage + 1, 0, f, x, p)]
            0 <= f < NUM_LOC_FBS && 0 <= x < MCS_PER_FB implies slot(now, f, x, p) == slot_before(
            g,
            pl,
            stage + 1,
            0,
            f,
            x,
            p,
        ) by {
            assert(slot(now, f, x, p) == slot_before(g, pl, stage, n, f, x, p));
        }
    }
}

/// No greedy placement exists where the placement that is being filled
/// has no site for macrocell `i`.
proof fn lemma_no_site(g: &InputGraph, now: Seq<PARFBAssignment>, stage: int, i: int)
    requires
        g.wf(),
        0 <= i < g.mcs@.len(),
        loc_class(&g.mcs@[i]) == stage,
        all_agree(g, now, stage, i),
        g.mcs@[i].fully_locked() ==> forall|f: int, x: int|
            0 <= f < NUM_LOC_FBS && 0 <= x < MCS_PER_FB && site_honors(&g.mcs@[i], f, x)
                ==> #[trigger] slot(now, f, x, g.mcs@[i].is_pin()) != PARMCAssignment::Empty,
        !g.mcs@[i].fully_locked() ==> forall|f: int, x: int|
            0 <= f < NUM_LOC_FBS && 0 <= x < MCS_PER_FB && site_honors(&g.mcs@[i], f, x)
                ==> !#[trigger] site_takes(g, now, f, x, i),
    ensures
        !can_place(g),
{
    let m = &g.mcs@[i];
    assert forall|pl: Seq<PARFBAssignment>| !#[trigger] greedy_placed(g, pl) by {
        if greedy_placed(g, pl) {
            assert(agrees_before(g, now, pl, stage, i));
            assert(is_placed(g, pl, i));
            let (f2, m2) = choose|f2: int, m2: int| #[trigger] sits_first(g, pl, i, f2, m2);
            if m.fully_locked() {
                assert(slot(now, f2, m2, m.is_pin()) == slot_before(
                    g,
                    pl,
                    stage,
                    i,
                    f2,
                    m2,
                    m.is_pin(),
                ));
            } else {
                lemma_took_is_takes(g, now, pl, i, f2, m2);
            }
        }
    }
}

/// What putting macrocell `i` into the site picked for it keeps: every
/// macrocell placed so far sits as `sits_first` says, and every greedy
/// placement agrees with the placement that is being filled.
proof fn lemma_placed(
    g: &InputGraph,
    before: Seq<PARFBAssignment>,
    after: Seq<PARFBAssignment>,
    place0: Seq<Option<(int, int)>>,
    place: Seq<Option<(int, int)>>,
    stage: int,
    i: int,
    fb: int,
    mc: int,
)
    requires
        g.wf(),
        0 <= i < g.mcs@.len(),
        loc_class(&g.mcs@[i]) == stage,
        placing_inv(g, before, place0, stage, i),
        placing_inv(g, after, place, stage, i + 1),
        placed_first(g, before, place0, stage, i),
        all_agree(g, before, stage, i),
        picks_site(g, before, i, fb, mc),
        put_into(g, before, after, i, fb, mc),
    ensures
        placed_first(g, after, place, stage, i + 1),
        all_agree(g, after, stage, i + 1),
{
    lemma_first_step(g, before, after, place0, stage, i, fb, mc);
    let place2 = place0.update(i, Some((fb, mc)));
    assert forall|j: int| 0 <= j < g.mcs@.len() && placed_by(g, stage, i + 1, j) implies ((
    #[trigger] place[j]) matches Some(s) && sits_first(g, after, j, s.0, s.1)) by {
        let spot = place2[j].unwrap();
        assert(sits_first(g, after, j, spot.0, spot.1));
        let s = place[j].unwrap();
        assert(slot(after, s.0, s.1, g.mcs@[j].is_pin()) == PARMCAssignment::MC(j as usize));
        assert(place[j] == Some((s.0, s.1)));
        // the half that holds `j` records where `j` is
        assert(slot(after, spot.0, spot.1, g.mcs@[j].is_pin()) == PARMCAssignment::MC(j as usize));
    }
    assert forall|pl: Seq<PARFBAssignment>| #[trigger] greedy_placed(g, pl) implies agrees_before(
        g,
        after,
        pl,
        stage,
        i + 1,
    ) by {
        lemma_agree_step(g, before, after, pl, stage, i, fb, mc);
    }
}

/// Once every macrocell is placed, the placement is the one greedy
/// placement of the netlist.
proof fn lemma_all_placed(g: &InputGraph, pl: Seq<PARFBAssignment>, place: Seq<Option<(int, int)>>)
    requires
        g.wf(),
        placing_inv(g, pl, place, 3, 0),
        placed_first(g, pl, place, 3, 0),
        all_agree(g, pl, 3, 0),
        locked_pairs_fit(g, pl),
    ensures
        greedy_placed(g, pl),
        forall|other: Seq<PARFBAssignment>| #[trigger] greedy_placed(g, other) ==> pl == other,
{
    assert forall|fb: int, mc: int, pin: bool|
        0 <= fb < NUM_LOC_FBS && 0 <= mc < MCS_PER_FB implies (#[trigger] slot(pl, fb, mc, pin)
        matches PARMCAssignment::MC(j) ==> {
        &&& j < g.mcs@.len()
        &&& g.mcs@[j as int].is_pin() == pin
        &&& sits_first(g, pl, j as int, fb, mc)
    }) by {
        if let PARMCAssignment::MC(j) = slot(pl, fb, mc, pin) {
            assert(placed_by(g, 3, 0, j as int));
            assert(place[j as int] == Some((fb, mc)));
        }
    }
    assert forall|j: int| 0 <= j < g.mcs@.len() implies #[trigger] is_placed(g, pl, j) by {
        assert(placed_by(g, 3, 0, j));
        let s = place[j].unwrap();
        assert(sits_first(g, pl, j, s.0, s.1));
    }
    assert forall|other: Seq<PARFBAssignment>| #[trigger] greedy_placed(g, other) implies pl
        == other by {
        assert(agrees_before(g, pl, other, 3, 0));
        assert forall|f: int, m: int, p: bool|
            0 <= f < NUM_LOC_FBS && 0 <= m < MCS_PER_FB implies #[trigger] slot(other, f, m, p)
            == slot(pl, f, m, p) by {
            assert(slot(pl, f, m, p) == slot_before(g, other, 3, 0, f, m, p));
            if let PARMCAssignment::MC(j) = slot(other, f, m, p) {
                assert(placed_by(g, 3, 0, j as int));
            }
        }
        crate::repair::lemma_slots_equal(pl, other);
    }
}

/// Places every macrocell of `g`: first those that name a site, then
/// those that name a function block, then the rest, each into the first
/// site that can take it, and records each location in `go_mcs`.
/// Returns `None` if a macrocell finds no site, or if two macrocells that
/// named the same site cannot share it; `go_mcs` is then unchanged.
fn place_macrocells(g: &InputGraph, go_mcs: &mut Vec<OutputGraphMacrocell>) -> (r: Option<
    Vec<PARFBAssignment>,
>)
    requires
        g.wf(),
        old(go_mcs)@.len() == g.mcs@.len(),
    ensures
        final(go_mcs)@.len() == g.mcs@.len(),
        match r {
            Some(pl) => {
                &&& placement_shape(pl@)
                &&& placement_matches(g, final(go_mcs)@, pl@)
                &&& mc_locs_honored(g, final(go_mcs)@)
                &&& locked_pairs_fit(g, pl@)
            },
            None => final(go_mcs)@ == old(go_mcs)@,
        },
        fits_easily(g) ==> r is Some,
        r is Some <==> can_place(g),
        r matches Some(pl) ==> greedy_placed(g, pl@),
        forall|other: Seq<PARFBAssignment>| #[trigger]
            greedy_placed(g, other) ==> (r matches Some(pl) && pl@ == other),
{
    let n = g.mcs.len();
    let mut ret = empty_placement();
    let ghost mut place: Seq<Option<(int, int)>> = Seq::new(n as nat, |i: int| None);
    proof {
        assert forall|pl: Seq<PARFBAssignment>| #[trigger] greedy_placed(g, pl) implies agrees_before(
            g,
            ret@,
            pl,
            0,
            0,
        ) by {
            assert forall|f: int, x: int, p: bool|
                #![trigger slot(ret@, f, x, p)]
                #![trigger slot_before(g, pl, 0, 0, f, x, p)]
                0 <= f < NUM_LOC_FBS && 0 <= x < MCS_PER_FB implies slot(ret@, f, x, p)
                == slot_before(g, pl, 0, 0, f, x, p) by {
                assert(!(slot(ret@, f, x, p) is MC));
                assert(slot(pl, f, x, p) == PARMCAssignment::Banned <==> f == 2 && !(x == 0 && p));
            }
        }
    }

    // Macrocells that name their site go exactly there.
    let mut i: usize = 0;
    while i < n
        invariant
            i <= n,
            n == g.mcs@.len(),
            g.wf(),
            placing_inv(g, ret@, place, 0, i as int),
            placed_first(g, ret@, place, 0, i as int),
            all_agree(g, ret@, 0, i as int),
            go_mcs@ == old(go_mcs)@,
            go_mcs@.len() == n,
        decreases n - i,
    {
        let mc = &g.mcs[i];
        assert(g.mc_refs_ok(&g.mcs@[i as int]));
        if let Some(RequestedLocation { fb, i: Some(mc_idx) }) = mc.requested_loc {
            let is_pininput = mc.get_type().is_pininput();
            if get_slot(&ret, fb as usize, mc_idx as usize, is_pininput) != PARMCAssignment::Empty {
                proof {
                    lemma_no_site(g, ret@, 0, i as int);
                }
                return None;
            }
            let ghost before = ret@;
            let ghost place0 = place;
            let p = place_mc(g, &mut ret, Ghost(place), Ghost(0), fb as usize, mc_idx as usize, i);
            proof {
                place = p@;
                lemma_placed(g, before, ret@, place0, place, 0, i as int, fb as int, mc_idx as int);
            }
        } else {
            proof {
                lemma_passed_over(g, ret@, place, 0, i as int);
            }
        }
        i += 1;
    }
    proof {
        lemma_next_class(g, ret@, place, 0);
    }

    proof {
        if fits_easily(g) {
            // nothing is placed yet, so no pair can fail to fit
            assert forall|fb: int, mc: int|
                #![trigger slot(ret@, fb, mc, false)]
                #![trigger slot(ret@, fb, mc, true)]
                0 <= fb < NUM_LOC_FBS && 0 <= mc < MCS_PER_FB implies !(slot(ret@, fb, mc, false)
                is MC) by {
                if let PARMCAssignment::MC(j) = slot(ret@, fb, mc, false) {
                    assert(placed_by(g, 0, n as int, j as int));
                }
            }
        }
    }
    if !all_pairs_fit(g, &ret) {
        proof {
            assert forall|pl: Seq<PARFBAssignment>| !#[trigger] greedy_placed(g, pl) by {
                if greedy_placed(g, pl) {
                    assert(agrees_before(g, ret@, pl, 1, 0));
                    assert forall|fb: int, mc: int|
                        #![trigger slot(ret@, fb, mc, false)]
                        #![trigger slot(ret@, fb, mc, true)]
                        0 <= fb < NUM_LOC_FBS && 0 <= mc < MCS_PER_FB implies (slot(
                        ret@,
                        fb,
                        mc,
                        false,
                    ) matches PARMCAssignment::MC(a) ==> (slot(ret@, fb, mc, true)
                        matches PARMCAssignment::MC(b) ==> can_pair(
                        &g.mcs@[a as int],
                        &g.mcs@[b as int],
                    ))) by {
                        assert(slot(ret@, fb, mc, false) == slot_before(g, pl, 1, 0, fb, mc, false));
                        assert(slot(ret@, fb, mc, true) == slot_before(g, pl, 1, 0, fb, mc, true));
                    }
                }
            }
        }
        return None;
    }
    assert(locked_pairs_fit(g, ret@));

    // Macrocells that name a function block take its first site that fits.
    let mut i: usize = 0;
    while i < n
        invariant
            i <= n,
            n == g.mcs@.len(),
            g.wf(),
            placing_inv(g, ret@, place, 1, i as int),
            placed_first(g, ret@, place, 1, i as int),
            all_agree(g, ret@, 1, i as int),
            locked_pairs_fit(g, ret@),
            go_mcs@ == old(go_mcs)@,
            go_mcs@.len() == n,
        decreases n - i,
    {
        let mc = &g.mcs[i];
        assert(g.mc_refs_ok(&g.mcs@[i as int]));
        if let Some(RequestedLocation { fb, i: None }) = mc.requested_loc {
            match first_site_in_fb(g, &ret, fb as usize, i) {
                Some(mc_idx) => {
                    let ghost before = ret@;
                    let ghost place0 = place;
                    let p = place_mc(g, &mut ret, Ghost(place), Ghost(1), fb as usize, mc_idx, i);
                    proof {
                        place = p@;
                        lemma_locked_pairs_kept(g, before, ret@, fb as int, mc_idx as int, i);
                        lemma_placed(g, before, ret@, place0, place, 1, i as int, fb as int, mc_idx as int);
                    }
                },
                None => {
                    proof {
                        lemma_no_site(g, ret@, 1, i as int);
                    }
                    return None;
                },
            }
        } else {
            proof {
                lemma_passed_over(g, ret@, place, 1, i as int);
            }
        }
        i += 1;
    }
    proof {
        lemma_next_class(g, ret@, place, 1);
    }

    // The rest take the first site of the chip that fits.
    let mut i: usize = 0;
    while i < n
        invariant
            i <= n,
            n == g.mcs@.len(),
            g.wf(),
            placing_inv(g, ret@, place, 2, i as int),
            placed_first(g, ret@, place, 2, i as int),
            all_agree(g, ret@, 2, i as int),
            locked_pairs_fit(g, ret@),
            go_mcs@ == old(go_mcs)@,
            go_mcs@.len() == n,
        decreases n - i,
    {
        let mc = &g.mcs[i];
        if mc.requested_loc.is_none() {
            let mut fbmc_i: Option<(usize, usize)> = None;
            let mut fb: usize = 0;
            while fb < NUM_LOC_FBS && fbmc_i.is_none()
                invariant
                    fb <= NUM_LOC_FBS,
                    i < n,
                    n == g.mcs@.len(),
                    placing_inv(g, ret@, place, 2, i as int),
                    fbmc_i matches Some(s) ==> s.0 < NUM_LOC_FBS && s.1 < MCS_PER_FB && site_takes(
                        g,
                        ret@,
                        s.0 as int,
                        s.1 as int,
                        i as int,
                    ),
                    fbmc_i is None ==> forall|f: int, m: int|
                        0 <= f < fb && 0 <= m < MCS_PER_FB ==> !#[trigger] site_takes(
                            g,
                            ret@,
                            f,
                            m,
                            i as int,
                        ),
                    fbmc_i matches Some(s) ==> forall|f: int, m: int|
                        0 <= f < NUM_LOC_FBS && 0 <= m < MCS_PER_FB && site_precedes(
                            f,
                            m,
                            s.0 as int,
                            s.1 as int,
                        ) ==> !#[trigger] site_takes(g, ret@, f, m, i as int),
                decreases NUM_LOC_FBS - fb,
            {
                match first_site_in_fb(g, &ret, fb, i) {
                    Some(mc_idx) => {
                        fbmc_i = Some((fb, mc_idx));
                    },
                    None => {},
                }
                fb += 1;
            }
            match fbmc_i {
                Some((fb, mc_idx)) => {
                    let ghost before = ret@;
                    let ghost place0 = place;
                    let p = place_mc(g, &mut ret, Ghost(place), Ghost(2), fb, mc_idx, i);
                    proof {
                        place = p@;
                        lemma_locked_pairs_kept(g, before, ret@, fb as int, mc_idx as int, i);
                        lemma_placed(g, before, ret@, place0, place, 2, i as int, fb as int, mc_idx as int);
                    }
                },
                None => {
                    proof {
                        if fits_easily(g) {
                            lemma_blocks_full(g, ret@, place, i as int);
                        }
                        lemma_no_site(g, ret@, 2, i as int);
                    }
                    return None;
                },
            }
        } else {
            proof {
                lemma_passed_over(g, ret@, place, 2, i as int);
            }
        }
        i += 1;
    }
    proof {
        lemma_next_class(g, ret@, place, 2);
        lemma_all_placed(g, ret@, place);
    }

    // Record the location of every macrocell.
    let mut fb_i: usize = 0;
    while fb_i < NUM_LOC_FBS
        invariant
            fb_i <= NUM_LOC_FBS,
            n == g.mcs@.len(),
            go_mcs@.len() == n,
            placing_inv(g, ret@, place, 3, 0),
            greedy_placed(g, ret@),
            forall|other: Seq<PARFBAssignment>| #[trigger] greedy_placed(g, other) ==> ret@ == other,
            forall|f: int, m: int, p: bool|
                0 <= f < fb_i && 0 <= m < MCS_PER_FB ==> (#[trigger] slot(ret@, f, m, p)
                    matches PARMCAssignment::MC(j) ==> go_mcs@[j as int].loc == Some(
                    AssignedLocation { fb: f as u32, i: m as u32 },
                )),
        decreases NUM_LOC_FBS - fb_i,
    {
        let mut mc_i: usize = 0;
        while mc_i < MCS_PER_FB
            invariant
                fb_i < NUM_LOC_FBS,
                mc_i <= MCS_PER_FB,
                n == g.mcs@.len(),
                go_mcs@.len() == n,
                placing_inv(g, ret@, place, 3, 0),
                forall|f: int, m: int, p: bool|
                    0 <= f < NUM_LOC_FBS && 0 <= m < MCS_PER_FB && (f < fb_i || (f == fb_i && m
                        < mc_i)) ==> (#[trigger] slot(ret@, f, m, p)
                        matches PARMCAssignment::MC(j) ==> go_mcs@[j as int].loc == Some(
                        AssignedLocation { fb: f as u32, i: m as u32 },
                    )),
            decreases MCS_PER_FB - mc_i,
        {
            let here = AssignedLocation { fb: fb_i as u32, i: mc_i as u32 };
            if let PARMCAssignment::MC(mc_idx) = get_slot(&ret, fb_i, mc_i, false) {
                go_mcs[mc_idx].loc = Some(here);
            }
            if let PARMCAssignment::MC(mc_idx) = get_slot(&ret, fb_i, mc_i, true) {
                go_mcs[mc_idx].loc = Some(here);
            }
            mc_i += 1;
        }
        fb_i += 1;
    }
    proof {
        assert forall|j: int| 0 <= j < g.mcs@.len() implies ((#[trigger] go_mcs@[j]).loc
            matches Some(l) && l.fb < NUM_LOC_FBS && l.i < MCS_PER_FB && slot(
            ret@,
            l.fb as int,
            l.i as int,
            g.mcs@[j].is_pin(),
        ) == PARMCAssignment::MC(j as usize)) by {
            assert(placed_by(g, 3, 0, j));
            let s = place[j].unwrap();
            assert(slot(ret@, s.0, s.1, g.mcs@[j].is_pin()) == PARMCAssignment::MC(j as usize));
        }
        assert forall|j: int| 0 <= j < g.mcs@.len() implies ((#[trigger] g.mcs@[j]).requested_loc
            matches Some(r) ==> (go_mcs@[j].loc matches Some(l) && l.fb == r.fb && (r.i matches Some(
            ri,
        ) ==> l.i == ri))) by {
            assert(placed_by(g, 3, 0, j));
            let s = place[j].unwrap();
            assert(slot(ret@, s.0, s.1, g.mcs@[j].is_pin()) == PARMCAssignment::MC(j as usize));
        }
    }
    Some(ret)
}

/// Placing a macrocell that did not name its site keeps `locked_pairs_fit`.
proof fn lemma_locked_pairs_kept(
    g: &InputGraph,
    before: Seq<PARFBAssignment>,
    after: Seq<PARFBAssignment>,
    fb: int,
    mc: int,
    i: usize,
)
    requires
        locked_pairs_fit(g, before),
        i < g.mcs@.len(),
        !g.mcs@[i as int].fully_locked(),
        slot(after, fb, mc, g.mcs@[i as int].is_pin()) == PARMCAssignment::MC(i),
        forall|f: int, m: int, p: bool|
            0 <= f < NUM_LOC_FBS && 0 <= m < MCS_PER_FB && !(f == fb && m == mc && p
                == g.mcs@[i as int].is_pin()) ==> #[trigger] slot(after, f, m, p) == slot(
                before,
                f,
                m,
                p,
            ),
    ensures
        locked_pairs_fit(g, after),
{
    assert forall|f: int, m: int|
        #![trigger slot(after, f, m, false)]
        #![trigger slot(after, f, m, true)]
        0 <= f < NUM_LOC_FBS && 0 <= m < MCS_PER_FB implies (slot(after, f, m, false)
        matches PARMCAssignment::MC(a) ==> (slot(after, f, m, true)
        matches PARMCAssignment::MC(b) ==> (a < g.mcs@.len() && b < g.mcs@.len()
        && g.mcs@[a as int].fully_locked() && g.mcs@[b as int].fully_locked() ==> can_pair(
        &g.mcs@[a as int],
        &g.mcs@[b as int],
    )))) by {
        if f == fb && m == mc {
            if g.mcs@[i as int].is_pin() {
                assert(slot(after, f, m, false) == slot(before, f, m, false));
            } else {
                assert(slot(after, f, m, true) == slot(before, f, m, true));
            }
        } else {
            assert(slot(after, f, m, false) == slot(before, f, m, false));
            assert(slot(after, f, m, true) == slot(before, f, m, true));
        }
    }
}

/// The site index that a location request names, if any.
pub open spec fn loc_index(loc: Option<RequestedLocation>) -> Option<u32> {
    match loc {
        Some(l) => l.i,
        None => None,
    }
}

/// The site index that a location request names, if any.
pub fn loc_index_exec(loc: Option<RequestedLocation>) -> (r: Option<u32>)
    ensures
        r == loc_index(loc),
{
    match loc {
        Some(l) => l.i,
        None => None,
    }
}

/// The location request of a buffer after placement: what it was, unless
/// the buffer named no site and placement resolved one from the pin.
pub open spec fn buffer_loc_after(before: Option<RequestedLocation>, resolved: Option<u32>) -> Option<
    RequestedLocation,
> {
    if loc_index(before) is None && resolved is Some {
        Some(RequestedLocation { fb: 0, i: resolved })
    } else {
        before
    }
}

/// The location of a buffer placed on site `site`.
pub open spec fn buffer_site(site: u32) -> Option<AssignedLocation> {
    Some(AssignedLocation { fb: 0, i: site })
}

/// What placement needs to know of the global clock buffers.
pub open spec fn clk_requests(bufs: Seq<InputGraphBufgClk>) -> Seq<BufferRequest> {
    Seq::new(
        bufs.len(),
        |k: int| BufferRequest { index: loc_index(bufs[k].requested_loc), input: bufs[k].input },
    )
}

/// The global clock buffers `after` are the buffers `before` with the
/// location requests that placement resolved.
pub open spec fn clk_bufs_resolved(
    before: Seq<InputGraphBufgClk>,
    after: Seq<InputGraphBufgClk>,
    reqs: Seq<BufferRequest>,
) -> bool {
    &&& after.len() == before.len()
    &&& forall|k: int|
        0 <= k < before.len() ==> {
            &&& (#[trigger] after[k]).name == before[k].name
            &&& after[k].input == before[k].input
            &&& after[k].requested_loc == buffer_loc_after(before[k].requested_loc, reqs[k].index)
        }
}

/// Reads off what placement needs to know of the global clock buffers.
pub(crate) fn clk_requests_exec(bufs: &Vec<InputGraphBufgClk>) -> (r: Vec<BufferRequest>)
    ensures
        r@ == clk_requests(bufs@),
{
    let mut r: Vec<BufferRequest> = Vec::new();
    let mut k: usize = 0;
    while k < bufs.len()
        invariant
            k <= bufs@.len(),
            r@.len() == k,
            forall|j: int| 0 <= j < k ==> r@[j] == clk_requests(bufs@)[j],
        decreases bufs@.len() - k,
    {
        r.push(BufferRequest { index: loc_index_exec(bufs[k].requested_loc), input: bufs[k].input });
        k += 1;
    }
    assert(r@ =~= clk_requests(bufs@));
    r
}

/// Records the sites of the global clock buffers, and the site index of
/// every buffer whose index placement resolved.
fn clk_store(
    bufs: &mut Vec<InputGraphBufgClk>,
    out: &mut Vec<OutputGraphBufgClk>,
    reqs: &Vec<BufferRequest>,
    sites: &Vec<u32>,
)
    requires
        old(out)@.len() == old(bufs)@.len(),
        reqs@.len() == old(bufs)@.len(),
        sites@.len() == old(bufs)@.len(),
    ensures
        clk_bufs_resolved(old(bufs)@, final(bufs)@, reqs@),
        final(out)@.len() == old(out)@.len(),
        forall|k: int|
            0 <= k < sites@.len() ==> (#[trigger] final(out)@[k]).loc == buffer_site(sites@[k]),
{
    let n = bufs.len();
    let mut k: usize = 0;
    while k < n
        invariant
            k <= n,
            n == bufs@.len(),
            n == old(bufs)@.len(),
            out@.len() == n,
            reqs@.len() == n,
            sites@.len() == n,
            forall|j: int| k <= j < n ==> bufs@[j] == old(bufs)@[j],
            forall|j: int|
                0 <= j < k ==> {
                    &&& (#[trigger] bufs@[j]).name == old(bufs)@[j].name
                    &&& bufs@[j].input == old(bufs)@[j].input
                    &&& bufs@[j].requested_loc == buffer_loc_after(
                        old(bufs)@[j].requested_loc,
                        reqs@[j].index,
                    )
                },
            forall|j: int| 0 <= j < k ==> (#[trigger] out@[j]).loc == buffer_site(sites@[j]),
        decreases n - k,
    {
        if loc_index_exec(bufs[k].requested_loc).is_none() {
            if let Some(i) = reqs[k].index {
                bufs[k].requested_loc = Some(RequestedLocation { fb: 0, i: Some(i) });
            }
        }
        out[k].loc = Some(AssignedLocation { fb: 0, i: sites[k] });
        k += 1;
    }
}

/// What placement needs to know of the global tristate buffers.
pub open spec fn gts_requests(bufs: Seq<InputGraphBufgGTS>) -> Seq<BufferRequest> {
    Seq::new(
        bufs.len(),
        |k: int| BufferRequest { index: loc_index(bufs[k].requested_loc), input: bufs[k].input },
    )
}

/// The global tristate buffers `after` are the buffers `before` with the
/// location requests that placement resolved.
pub open spec fn gts_bufs_resolved(
    before: Seq<InputGraphBufgGTS>,
    after: Seq<InputGraphBufgGTS>,
    reqs: Seq<BufferRequest>,
) -> bool {
    &&& after.len() == before.len()
    &&& forall|k: int|
        0 <= k < before.len() ==> {
            &&& (#[trigger] after[k]).invert == before[k].invert
            &&& after[k].name == before[k].name
            &&& after[k].input == before[k].input
            &&& after[k].requested_loc == buffer_loc_after(before[k].requested_loc, reqs[k].index)
        }
}

/// Reads off what placement needs to know of the global tristate buffers.
pub(crate) fn gts_requests_exec(bufs: &Vec<InputGraphBufgGTS>) -> (r: Vec<BufferRequest>)
    ensures
        r@ == gts_requests(bufs@),
{
    let mut r: Vec<BufferRequest> = Vec::new();
    let mut k: usize = 0;
    while k < bufs.len()
        invariant
            k <= bufs@.len(),
            r@.len() == k,
            forall|j: int| 0 <= j < k ==> r@[j] == gts_requests(bufs@)[j],
        decreases bufs@.len() - k,
    {
        r.push(BufferRequest { index: loc_index_exec(bufs[k].requested_loc), input: bufs[k].input });
        k += 1;
    }
    assert(r@ =~= gts_requests(bufs@));
    r
}

/// Records the sites of the global tristate buffers, and the site index of
/// every buffer whose index placement resolved.
fn gts_store(
    bufs: &mut Vec<InputGraphBufgGTS>,
    out: &mut Vec<OutputGraphBufgGTS>,
    reqs: &Vec<BufferRequest>,
    sites: &Vec<u32>,
)
    requires
        old(out)@.len() == old(bufs)@.len(),
        reqs@.len() == old(bufs)@.len(),
        sites@.len() == old(bufs)@.len(),
    ensures
        gts_bufs_resolved(old(bufs)@, final(bufs)@, reqs@),
        final(out)@.len() == old(out)@.len(),
        forall|k: int|
            0 <= k < sites@.len() ==> (#[trigger] final(out)@[k]).loc == buffer_site(sites@[k]),
{
    let n = bufs.len();
    let mut k: usize = 0;
    while k < n
        invariant
            k <= n,
            n == bufs@.len(),
            n == old(bufs)@.len(),
            out@.len() == n,
            reqs@.len() == n,
            sites@.len() == n,
            forall|j: int| k <= j < n ==> bufs@[j] == old(bufs)@[j],
            forall|j: int|
                0 <= j < k ==> {
            &&& (#[trigger] bufs@[j]).invert == old(bufs)@[j].invert
                    &&& bufs@[j].name == old(bufs)@[j].name
                    &&& bufs@[j].input == old(bufs)@[j].input
                    &&& bufs@[j].requested_loc == buffer_loc_after(
                        old(bufs)@[j].requested_loc,
                        reqs@[j].index,
                    )
                },
            forall|j: int| 0 <= j < k ==> (#[trigger] out@[j]).loc == buffer_site(sites@[j]),
        decreases n - k,
    {
        if loc_index_exec(bufs[k].requested_loc).is_none() {
            if let Some(i) = reqs[k].index {
                bufs[k].requested_loc = Some(RequestedLocation { fb: 0, i: Some(i) });
            }
        }
        out[k].loc = Some(AssignedLocation { fb: 0, i: sites[k] });
        k += 1;
    }
}

/// What placement needs to know of the global set/reset buffers.
pub open spec fn gsr_requests(bufs: Seq<InputGraphBufgGSR>) -> Seq<BufferRequest> {
    Seq::new(
        bufs.len(),
        |k: int| BufferRequest { index: loc_index(bufs[k].requested_loc), input: bufs[k].input },
    )
}

/// The global set/reset buffers `after` are the buffers `before` with the
/// location requests that placement resolved.
pub open spec fn gsr_bufs_resolved(
    before: Seq<InputGraphBufgGSR>,
    after: Seq<InputGraphBufgGSR>,
    reqs: Seq<BufferRequest>,
) -> bool {
    &&& after.len() == before.len()
    &&& forall|k: int|
        0 <= k < before.len() ==> {
            &&& (#[trigger] after[k]).invert == before[k].invert
            &&& after[k].name == before[k].name
            &&& after[k].input == before[k].input
            &&& after[k].requested_loc == buffer_loc_after(before[k].requested_loc, reqs[k].index)
        }
}

/// Reads off what placement needs to know of the global set/reset buffers.
pub(crate) fn gsr_requests_exec(bufs: &Vec<InputGraphBufgGSR>) -> (r: Vec<BufferRequest>)
    ensures
        r@ == gsr_requests(bufs@),
{
    let mut r: Vec<BufferRequest> = Vec::new();
    let mut k: usize = 0;
    while k < bufs.len()
        invariant
            k <= bufs@.len(),
            r@.len() == k,
            forall|j: int| 0 <= j < k ==> r@[j] == gsr_requests(bufs@)[j],
        decreases bufs@.len() - k,
    {
        r.push(BufferRequest { index: loc_index_exec(bufs[k].requested_loc), input: bufs[k].input });
        k += 1;
    }
    assert(r@ =~= gsr_requests(bufs@));
    r
}

/// Records the sites of the global set/reset buffers, and the site index of
/// every buffer whose index placement resolved.
fn gsr_store(
    bufs: &mut Vec<InputGraphBufgGSR>,
    out: &mut Vec<OutputGraphBufgGSR>,
    reqs: &Vec<BufferRequest>,
    sites: &Vec<u32>,
)
    requires
        old(out)@.len() == old(bufs)@.len(),
        reqs@.len() == old(bufs)@.len(),
        sites@.len() == old(bufs)@.len(),
    ensures
        gsr_bufs_resolved(old(bufs)@, final(bufs)@, reqs@),
        final(out)@.len() == old(out)@.len(),
        forall|k: int|
            0 <= k < sites@.len() ==> (#[trigger] final(out)@[k]).loc == buffer_site(sites@[k]),
{
    let n = bufs.len();
    let mut k: usize = 0;
    while k < n
        invariant
            k <= n,
            n == bufs@.len(),
            n == old(bufs)@.len(),
            out@.len() == n,
            reqs@.len() == n,
            sites@.len() == n,
            forall|j: int| k <= j < n ==> bufs@[j] == old(bufs)@[j],
            forall|j: int|
                0 <= j < k ==> {
            &&& (#[trigger] bufs@[j]).invert == old(bufs)@[j].invert
                    &&& bufs@[j].name == old(bufs)@[j].name
                    &&& bufs@[j].input == old(bufs)@[j].input
                    &&& bufs@[j].requested_loc == buffer_loc_after(
                        old(bufs)@[j].requested_loc,
                        reqs@[j].index,
                    )
                },
            forall|j: int| 0 <= j < k ==> (#[trigger] out@[j]).loc == buffer_site(sites@[j]),
        decreases n - k,
    {
        if loc_index_exec(bufs[k].requested_loc).is_none() {
            if let Some(i) = reqs[k].index {
                bufs[k].requested_loc = Some(RequestedLocation { fb: 0, i: Some(i) });
            }
        }
        out[k].loc = Some(AssignedLocation { fb: 0, i: sites[k] });
        k += 1;
    }
}

/// The locations of the global clock buffers.
pub open spec fn clk_sites(out: Seq<OutputGraphBufgClk>) -> Seq<Option<AssignedLocation>> {
    Seq::new(out.len(), |k: int| out[k].loc)
}

/// The locations of the global tristate buffers.
pub open spec fn gts_sites(out: Seq<OutputGraphBufgGTS>) -> Seq<Option<AssignedLocation>> {
    Seq::new(out.len(), |k: int| out[k].loc)
}

/// The locations of the global set/reset buffers.
pub open spec fn gsr_sites(out: Seq<OutputGraphBufgGSR>) -> Seq<Option<AssignedLocation>> {
    Seq::new(out.len(), |k: int| out[k].loc)
}

/// The buffers of one net are placed: each on a site of the net, on the
/// site it asked for if it asked, no two on one site, and the macrocell
/// that drives a buffer is pinned to the pad of the buffer's site. Of a
/// buffer that asked for a site, the last is claimed only if its macrocell
/// was pinned to that pad when placement began, as `started` tells.
pub open spec fn buffers_placed(
    reqs: Seq<BufferRequest>,
    locs: Seq<Option<AssignedLocation>>,
    pads: Seq<(u32, u32)>,
    started: Seq<InputGraphMacrocell>,
    mcs: Seq<InputGraphMacrocell>,
) -> bool {
    &&& locs.len() == reqs.len()
    &&& forall|k: int|
        0 <= k < reqs.len() ==> ((#[trigger] locs[k]) matches Some(l) && l.fb == 0 && l.i
            < pads.len() && (reqs[k].index matches Some(i) ==> l.i == i) && (driver_pinned(
            reqs[k],
            pads,
            started,
        ) ==> mcs[reqs[k].input as int].requested_loc == pinned_to(pads[l.i as int])))
    &&& forall|j: int, k: int| 0 <= j < k < locs.len() ==> #[trigger] locs[j] != #[trigger] locs[k]
}

/// Whether the macrocell that drives a buffer is pinned to the pad of
/// the site the buffer asks for; true of a buffer that asks for none.
pub open spec fn driver_pinned(
    req: BufferRequest,
    pads: Seq<(u32, u32)>,
    mcs: Seq<InputGraphMacrocell>,
) -> bool {
    req.index matches Some(i) ==> i < pads.len() && mcs[req.input as int].requested_loc == pinned_to(
        pads[i as int],
    )
}

/// The pads of the global clocks of `device`, by site.
pub(crate) fn gck_pads(device: &DeviceSpec) -> (r: Vec<(u32, u32)>)
    ensures
        r@ == device.gck@,
{
    let mut r: Vec<(u32, u32)> = Vec::new();
    r.push(device.gck[0]);
    r.push(device.gck[1]);
    r.push(device.gck[2]);
    assert(r@ =~= device.gck@);
    r
}

/// The pads of the global tristates of `device`, by site.
pub(crate) fn gts_pads(device: &DeviceSpec) -> (r: Vec<(u32, u32)>)
    ensures
        r@ == device.gts@,
{
    let mut r: Vec<(u32, u32)> = Vec::new();
    r.push(device.gts[0]);
    r.push(device.gts[1]);
    r.push(device.gts[2]);
    r.push(device.gts[3]);
    assert(r@ =~= device.gts@);
    r
}

/// The pad of the global set/reset of `device`.
pub(crate) fn gsr_pads(device: &DeviceSpec) -> (r: Vec<(u32, u32)>)
    ensures
        r@ == seq![device.gsr],
{
    let mut r: Vec<(u32, u32)> = Vec::new();
    r.push(device.gsr);
    assert(r@ =~= seq![device.gsr]);
    r
}

/// Refinement of macrocell location requests composes, and keeps a
/// netlist well formed.
pub proof fn lemma_mcs_refine_trans(
    a: Seq<InputGraphMacrocell>,
    b: Seq<InputGraphMacrocell>,
    c: Seq<InputGraphMacrocell>,
)
    requires
        mcs_refine(a, b),
        mcs_refine(b, c),
    ensures
        mcs_refine(a, c),
        forall|i: int, pad: (u32, u32)|
            0 <= i < a.len() && b[i].requested_loc == pinned_to(pad) ==> #[trigger] c[i].requested_loc
                == #[trigger] pinned_to(pad),
{
    assert forall|i: int| 0 <= i < a.len() implies {
        &&& (#[trigger] c[i]).same_logic(&a[i])
        &&& loc_refines(a[i].requested_loc, c[i].requested_loc)
        &&& (mc_loc_in_range(a[i].requested_loc) ==> mc_loc_in_range(c[i].requested_loc))
    } by {
        assert(b[i].same_logic(&a[i]));
    }
}

/// The steps of a greedy placement that succeeds.
pub struct GreedyRun {
    /// What the global clock buffers ask for once the pins of their
    /// macrocells are taken into account.
    pub clk: Seq<BufferRequest>,
    /// The same for the global tristate buffers.
    pub gts: Seq<BufferRequest>,
    /// The same for the global set/reset buffers.
    pub gsr: Seq<BufferRequest>,
    /// The sites of the global clock buffers.
    pub clk_sites: Seq<u32>,
    /// The sites of the global tristate buffers.
    pub gts_sites: Seq<u32>,
    /// The sites of the global set/reset buffers.
    pub gsr_sites: Seq<u32>,
    /// The macrocells once the global clock buffers are placed.
    pub after_clk: Seq<InputGraphMacrocell>,
    /// The macrocells once the global tristate buffers are placed too.
    pub after_gts: Seq<InputGraphMacrocell>,
    /// The macrocells once every buffer is placed.
    pub after_gsr: Seq<InputGraphMacrocell>,
    /// The placement of the macrocells.
    pub placement: Seq<PARFBAssignment>,
}

/// Whether `pl` is the greedy placement of the macrocells `mcs`.
pub open spec fn placed_on(mcs: Seq<InputGraphMacrocell>, pl: Seq<PARFBAssignment>) -> bool {
    exists|g: InputGraph| g.mcs@ == mcs && #[trigger] greedy_placed(&g, pl)
}

/// Whether `t` holds the steps of the greedy placement of `g`: the
/// requests of the buffers are resolved against the macrocells of `g`;
/// then the buffers are handed sites net by net, the clocks first, each
/// net pinning macrocells for the next; then the macrocells are placed.
pub open spec fn greedy_run(g: &InputGraph, device: &DeviceSpec, t: GreedyRun) -> bool {
    &&& requests_resolved(clk_requests(g.bufg_clks@), t.clk, g.mcs@, device.gck@)
    &&& requests_resolved(gts_requests(g.bufg_gts@), t.gts, g.mcs@, device.gts@)
    &&& requests_resolved(gsr_requests(g.bufg_gsr@), t.gsr, g.mcs@, seq![device.gsr])
    &&& sites_handed(t.clk, t.clk_sites, g.mcs@, device.gck@)
    &&& mcs_pinned(t.clk, t.clk_sites, g.mcs@, device.gck@, t.after_clk)
    &&& sites_handed(t.gts, t.gts_sites, t.after_clk, device.gts@)
    &&& mcs_pinned(t.gts, t.gts_sites, t.after_clk, device.gts@, t.after_gts)
    &&& sites_handed(t.gsr, t.gsr_sites, t.after_gts, seq![device.gsr])
    &&& mcs_pinned(t.gsr, t.gsr_sites, t.after_gts, seq![device.gsr], t.after_gsr)
    &&& placed_on(t.after_gsr, t.placement)
}

/// Whether the greedy placement of `g` succeeds.
pub open spec fn greedy_possible(g: &InputGraph, device: &DeviceSpec) -> bool {
    exists|t: GreedyRun| #[trigger] greedy_run(g, device, t)
}

/// Whether the graphs hold what the run `t` found: the macrocells with
/// their pins, the buffers with the site indices that were resolved, the
/// site of every buffer, and the placement.
pub open spec fn run_recorded(
    t: GreedyRun,
    before: &InputGraph,
    g: &InputGraph,
    go: &OutputGraph,
    pl: Seq<PARFBAssignment>,
) -> bool {
    &&& pl == t.placement
    &&& g.mcs@ == t.after_gsr
    &&& clk_bufs_resolved(before.bufg_clks@, g.bufg_clks@, t.clk)
    &&& gts_bufs_resolved(before.bufg_gts@, g.bufg_gts@, t.gts)
    &&& gsr_bufs_resolved(before.bufg_gsr@, g.bufg_gsr@, t.gsr)
    &&& sites_recorded(t.clk_sites, clk_sites(go.bufg_clks@))
    &&& sites_recorded(t.gts_sites, gts_sites(go.bufg_gts@))
    &&& sites_recorded(t.gsr_sites, gsr_sites(go.bufg_gsr@))
}

/// Whether `locs` are the locations of buffers on the sites `sites`.
pub open spec fn sites_recorded(sites: Seq<u32>, locs: Seq<Option<AssignedLocation>>) -> bool {
    &&& locs.len() == sites.len()
    &&& forall|k: int| 0 <= k < sites.len() ==> #[trigger] locs[k] == buffer_site(sites[k])
}

/// The greedy placement of macrocells depends on the macrocells of the
/// netlist only.
proof fn lemma_same_mcs(a: &InputGraph, b: &InputGraph, pl: Seq<PARFBAssignment>)
    requires
        a.mcs@ == b.mcs@,
        greedy_placed(a, pl),
    ensures
        greedy_placed(b, pl),
{
    assert forall|i: int, f: int, x: int| #[trigger]
        site_took(a, pl, f, x, i) == site_took(b, pl, f, x, i) by {}
    assert forall|i: int, f: int, x: int| sits_first(a, pl, i, f, x) implies #[trigger] sits_first(
        b,
        pl,
        i,
        f,
        x,
    ) by {
        let m = &a.mcs@[i];
        if !m.fully_locked() {
            assert forall|f2: int, x2: int|
                0 <= f2 < NUM_LOC_FBS && 0 <= x2 < MCS_PER_FB && site_honors(m, f2, x2)
                    && site_precedes(f2, x2, f, x) implies !#[trigger] site_took(
                b,
                pl,
                f2,
                x2,
                i,
            ) by {
                assert(!site_took(a, pl, f2, x2, i));
            }
        }
    }
    assert forall|j: int| 0 <= j < b.mcs@.len() implies #[trigger] is_placed(b, pl, j) by {
        assert(is_placed(a, pl, j));
        let (f, x) = choose|f: int, x: int| #[trigger] sits_first(a, pl, j, f, x);
        assert(sits_first(b, pl, j, f, x));
    }
}

/// Greedy initial placement.
///
/// Global buffers come first, net by net. A buffer without a site index
/// whose macrocell is pinned takes the first site on that pad. Then
/// buffers that name a site get it, and every other buffer takes the
/// first free site whose pad suits its macrocell, which pins the
/// macrocell to that pad. Macrocells follow: those that name a site, then
/// those that name a function block, then the rest, each into the first
/// site that can take it.
///
/// On success the result is the placement of the chip, `go` holds the
/// location of every macrocell and buffer, and `g` holds the location
/// requests that placement added. On failure `go` is unchanged.
///
/// The placement succeeds exactly if every step of it can be taken, as
/// `greedy_run` describes the steps; and what a successful placement
/// leaves is what the steps found, as `run_recorded` says.
pub fn greedy_initial_placement(
    g: &mut InputGraph,
    go: &mut OutputGraph,
    device_type: &DeviceSpec,
) -> (r: Option<Vec<PARFBAssignment>>)
    requires
        old(g).wf(),
        device_type.wf(),
        old(go).shaped_like(old(g)),
    ensures
        final(g).wf(),
        mcs_refine(old(g).mcs@, final(g).mcs@),
        final(g).pterms == old(g).pterms,
        final(go).shaped_like(final(g)),
        final(go).pterms == old(go).pterms,
        final(go).zia == old(go).zia,
        match r {
            Some(pl) => {
                &&& placement_shape(pl@)
                &&& placement_matches(final(g), final(go).mcs@, pl@)
                &&& mc_locs_honored(final(g), final(go).mcs@)
                &&& locked_pairs_fit(final(g), pl@)
                &&& buffers_placed(
                    clk_requests(old(g).bufg_clks@),
                    clk_sites(final(go).bufg_clks@),
                    device_type.gck@,
                    old(g).mcs@,
                    final(g).mcs@,
                )
                &&& buffers_placed(
                    gts_requests(old(g).bufg_gts@),
                    gts_sites(final(go).bufg_gts@),
                    device_type.gts@,
                    old(g).mcs@,
                    final(g).mcs@,
                )
                &&& buffers_placed(
                    gsr_requests(old(g).bufg_gsr@),
                    gsr_sites(final(go).bufg_gsr@),
                    seq![device_type.gsr],
                    old(g).mcs@,
                    final(g).mcs@,
                )
            },
            None => {
                &&& final(go).mcs@ == old(go).mcs@
                &&& final(go).bufg_clks == old(go).bufg_clks
                &&& final(go).bufg_gts == old(go).bufg_gts
                &&& final(go).bufg_gsr == old(go).bufg_gsr
                &&& final(g).bufg_clks == old(g).bufg_clks
                &&& final(g).bufg_gts == old(g).bufg_gts
                &&& final(g).bufg_gsr == old(g).bufg_gsr
            },
        },
        fits_easily(old(g)) && old(g).bufg_clks@.len() == 0 && old(g).bufg_gts@.len() == 0 && old(
            g,
        ).bufg_gsr@.len() == 0 ==> r is Some,
        r is Some <==> greedy_possible(old(g), device_type),
        r matches Some(pl) ==> forall|t: GreedyRun| #[trigger]
            greedy_run(old(g), device_type, t) ==> run_recorded(t, old(g), final(g), final(go), pl@),
{
    let gck = gck_pads(device_type);
    let gts = gts_pads(device_type);
    let gsr = gsr_pads(device_type);
    let mut clk_reqs = clk_requests_exec(&g.bufg_clks);
    let mut gts_reqs = gts_requests_exec(&g.bufg_gts);
    let mut gsr_reqs = gsr_requests_exec(&g.bufg_gsr);
    let ghost clk_reqs0 = clk_reqs@;
    let ghost gts_reqs0 = gts_reqs@;
    let ghost gsr_reqs0 = gsr_reqs@;
    let ghost mcs0 = g.mcs@;
    proof {
        assert forall|k: int| 0 <= k < clk_reqs@.len() implies (#[trigger] clk_reqs@[k]).input
            < g.mcs@.len() && (clk_reqs@[k].index matches Some(i) ==> i < gck@.len()) by {
            assert(g.bufg_clks@[k].input < g.mcs@.len());
        }
        assert forall|k: int| 0 <= k < gts_reqs@.len() implies (#[trigger] gts_reqs@[k]).input
            < g.mcs@.len() && (gts_reqs@[k].index matches Some(i) ==> i < gts@.len()) by {
            assert(g.bufg_gts@[k].input < g.mcs@.len());
        }
        assert forall|k: int| 0 <= k < gsr_reqs@.len() implies (#[trigger] gsr_reqs@[k]).input
            < g.mcs@.len() && (gsr_reqs@[k].index matches Some(i) ==> i < gsr@.len()) by {
            assert(g.bufg_gsr@[k].input < g.mcs@.len());
        }
    }

    // A pinned pad decides the site of a buffer that names none.
    if !resolve_buffer_indices(&mut clk_reqs, &g.mcs, &gck) {
        proof {
            lemma_mcs_refine_refl(g.mcs@);
            assert forall|t: GreedyRun| !#[trigger] greedy_run(old(g), device_type, t) by {
                if greedy_run(old(g), device_type, t) {
                    assert(requests_resolved(clk_reqs0, t.clk, mcs0, gck@));
                }
            }
        }
        return None;
    }
    if !resolve_buffer_indices(&mut gts_reqs, &g.mcs, &gts) {
        proof {
            lemma_mcs_refine_refl(g.mcs@);
            assert forall|t: GreedyRun| !#[trigger] greedy_run(old(g), device_type, t) by {
                if greedy_run(old(g), device_type, t) {
                    assert(requests_resolved(gts_reqs0, t.gts, mcs0, gts@));
                }
            }
        }
        return None;
    }
    if !resolve_buffer_indices(&mut gsr_reqs, &g.mcs, &gsr) {
        proof {
            lemma_mcs_refine_refl(g.mcs@);
            assert forall|t: GreedyRun| !#[trigger] greedy_run(old(g), device_type, t) by {
                if greedy_run(old(g), device_type, t) {
                    assert(requests_resolved(gsr_reqs0, t.gsr, mcs0, gsr@));
                }
            }
        }
        return None;
    }

    // Sites for the buffers, net by net.
    let clk_sites_v = match assign_buffer_sites(&clk_reqs, &mut g.mcs, &gck) {
        Some(s) => s,
        None => {
            proof {
                lemma_refine_keeps_wf(old(g), g);
                assert forall|t: GreedyRun| !#[trigger] greedy_run(old(g), device_type, t) by {
                    if greedy_run(old(g), device_type, t) {
                        lemma_resolved_unique(clk_reqs0, clk_reqs@, t.clk, mcs0, gck@);
                        assert(sites_handed(clk_reqs@, t.clk_sites, mcs0, gck@));
                    }
                }
            }
            return None;
        },
    };
    let ghost mcs1 = g.mcs@;
    let gts_sites_v = match assign_buffer_sites(&gts_reqs, &mut g.mcs, &gts) {
        Some(s) => s,
        None => {
            proof {
                lemma_mcs_refine_trans(mcs0, mcs1, g.mcs@);
                lemma_refine_keeps_wf(old(g), g);
                assert forall|t: GreedyRun| !#[trigger] greedy_run(old(g), device_type, t) by {
                    if greedy_run(old(g), device_type, t) {
                        lemma_resolved_unique(clk_reqs0, clk_reqs@, t.clk, mcs0, gck@);
                        lemma_resolved_unique(gts_reqs0, gts_reqs@, t.gts, mcs0, gts@);
                        lemma_handed_unique(clk_reqs@, clk_sites_v@, t.clk_sites, mcs0, gck@);
                        lemma_pinned_unique(clk_reqs@, clk_sites_v@, mcs0, gck@, mcs1, t.after_clk);
                        assert(sites_handed(gts_reqs@, t.gts_sites, mcs1, gts@));
                    }
                }
            }
            return None;
        },
    };
    let ghost mcs2 = g.mcs@;
    proof {
        lemma_mcs_refine_trans(mcs0, mcs1, mcs2);
    }
    let gsr_sites_v = match assign_buffer_sites(&gsr_reqs, &mut g.mcs, &gsr) {
        Some(s) => s,
        None => {
            proof {
                lemma_mcs_refine_trans(mcs0, mcs2, g.mcs@);
                lemma_refine_keeps_wf(old(g), g);
                assert forall|t: GreedyRun| !#[trigger] greedy_run(old(g), device_type, t) by {
                    if greedy_run(old(g), device_type, t) {
                        lemma_resolved_unique(clk_reqs0, clk_reqs@, t.clk, mcs0, gck@);
                        lemma_resolved_unique(gts_reqs0, gts_reqs@, t.gts, mcs0, gts@);
                        lemma_resolved_unique(gsr_reqs0, gsr_reqs@, t.gsr, mcs0, gsr@);
                        lemma_handed_unique(clk_reqs@, clk_sites_v@, t.clk_sites, mcs0, gck@);
                        lemma_pinned_unique(clk_reqs@, clk_sites_v@, mcs0, gck@, mcs1, t.after_clk);
                        lemma_handed_unique(gts_reqs@, gts_sites_v@, t.gts_sites, mcs1, gts@);
                        lemma_pinned_unique(gts_reqs@, gts_sites_v@, mcs1, gts@, mcs2, t.after_gts);
                        assert(sites_handed(gsr_reqs@, t.gsr_sites, mcs2, gsr@));
                    }
                }
            }
            return None;
        },
    };
    let ghost mcs3 = g.mcs@;
    proof {
        lemma_mcs_refine_trans(mcs0, mcs2, mcs3);
        lemma_mcs_refine_trans(mcs1, mcs2, mcs3);
        lemma_refine_keeps_wf(old(g), g);
    }

    // Macrocells.
    let ghost pinned = *g;
    let placement = match place_macrocells(g, &mut go.mcs) {
        Some(p) => p,
        None => {
            proof {
                assert forall|t: GreedyRun| !#[trigger] greedy_run(old(g), device_type, t) by {
                    if greedy_run(old(g), device_type, t) {
                        lemma_resolved_unique(clk_reqs0, clk_reqs@, t.clk, mcs0, gck@);
                        lemma_resolved_unique(gts_reqs0, gts_reqs@, t.gts, mcs0, gts@);
                        lemma_resolved_unique(gsr_reqs0, gsr_reqs@, t.gsr, mcs0, gsr@);
                        lemma_handed_unique(clk_reqs@, clk_sites_v@, t.clk_sites, mcs0, gck@);
                        lemma_pinned_unique(clk_reqs@, clk_sites_v@, mcs0, gck@, mcs1, t.after_clk);
                        lemma_handed_unique(gts_reqs@, gts_sites_v@, t.gts_sites, mcs1, gts@);
                        lemma_pinned_unique(gts_reqs@, gts_sites_v@, mcs1, gts@, mcs2, t.after_gts);
                        lemma_handed_unique(gsr_reqs@, gsr_sites_v@, t.gsr_sites, mcs2, gsr@);
                        lemma_pinned_unique(gsr_reqs@, gsr_sites_v@, mcs2, gsr@, mcs3, t.after_gsr);
                        let other = choose|other: InputGraph|
                            other.mcs@ == t.after_gsr && #[trigger] greedy_placed(
                                &other,
                                t.placement,
                            );
                        lemma_same_mcs(&other, g, t.placement);
                    }
                }
            }
            return None;
        },
    };

    clk_store(&mut g.bufg_clks, &mut go.bufg_clks, &clk_reqs, &clk_sites_v);
    gts_store(&mut g.bufg_gts, &mut go.bufg_gts, &gts_reqs, &gts_sites_v);
    gsr_store(&mut g.bufg_gsr, &mut go.bufg_gsr, &gsr_reqs, &gsr_sites_v);

    proof {
        lemma_buffers_placed(
            clk_reqs0,
            clk_reqs@,
            clk_sites_v@,
            clk_sites(go.bufg_clks@),
            gck@,
            mcs0,
            mcs1,
            mcs3,
        );
        lemma_buffers_placed(
            gts_reqs0,
            gts_reqs@,
            gts_sites_v@,
            gts_sites(go.bufg_gts@),
            gts@,
            mcs0,
            mcs2,
            mcs3,
        );
        lemma_buffers_placed(
            gsr_reqs0,
            gsr_reqs@,
            gsr_sites_v@,
            gsr_sites(go.bufg_gsr@),
            gsr@,
            mcs0,
            mcs3,
            mcs3,
        );
        lemma_mcs_refine_refl(mcs3);
        assert(placement_matches(g, go.mcs@, placement@));
        assert(g.wf()) by {
            lemma_stored_keeps_wf(old(g), g, clk_reqs@, gts_reqs@, gsr_reqs@);
        }
        let t = GreedyRun {
            clk: clk_reqs@,
            gts: gts_reqs@,
            gsr: gsr_reqs@,
            clk_sites: clk_sites_v@,
            gts_sites: gts_sites_v@,
            gsr_sites: gsr_sites_v@,
            after_clk: mcs1,
            after_gts: mcs2,
            after_gsr: mcs3,
            placement: placement@,
        };
        assert(pinned.mcs@ == mcs3 && greedy_placed(&pinned, placement@));
        assert(placed_on(mcs3, placement@));
        assert(greedy_run(old(g), device_type, t));
        assert(run_recorded(t, old(g), g, go, placement@));
        assert forall|u: GreedyRun| #[trigger] greedy_run(old(g), device_type, u) implies run_recorded(
            u,
            old(g),
            g,
            go,
            placement@,
        ) by {
            lemma_resolved_unique(clk_reqs0, clk_reqs@, u.clk, mcs0, gck@);
            lemma_resolved_unique(gts_reqs0, gts_reqs@, u.gts, mcs0, gts@);
            lemma_resolved_unique(gsr_reqs0, gsr_reqs@, u.gsr, mcs0, gsr@);
            lemma_handed_unique(clk_reqs@, clk_sites_v@, u.clk_sites, mcs0, gck@);
            lemma_pinned_unique(clk_reqs@, clk_sites_v@, mcs0, gck@, mcs1, u.after_clk);
            lemma_handed_unique(gts_reqs@, gts_sites_v@, u.gts_sites, mcs1, gts@);
            lemma_pinned_unique(gts_reqs@, gts_sites_v@, mcs1, gts@, mcs2, u.after_gts);
            lemma_handed_unique(gsr_reqs@, gsr_sites_v@, u.gsr_sites, mcs2, gsr@);
            lemma_pinned_unique(gsr_reqs@, gsr_sites_v@, mcs2, gsr@, mcs3, u.after_gsr);
            let other = choose|other: InputGraph|
                other.mcs@ == u.after_gsr && #[trigger] greedy_placed(&other, u.placement);
            lemma_same_mcs(&other, &pinned, u.placement);
        }
    }
    Some(placement)
}

/// Refinement of macrocell location requests is reflexive.
pub proof fn lemma_mcs_refine_refl(a: Seq<InputGraphMacrocell>)
    ensures
        mcs_refine(a, a),
{
}

/// A netlist whose macrocells were refined is still well formed.
pub(crate) proof fn lemma_refine_keeps_wf(before: &InputGraph, after: &InputGraph)
    requires
        before.wf(),
        mcs_refine(before.mcs@, after.mcs@),
        after.pterms == before.pterms,
        after.bufg_clks == before.bufg_clks,
        after.bufg_gts == before.bufg_gts,
        after.bufg_gsr == before.bufg_gsr,
    ensures
        after.wf(),
{
    assert forall|i: int| 0 <= i < after.mcs@.len() implies after.mc_refs_ok(
        #[trigger] &after.mcs@[i],
    ) by {
        assert(before.mc_refs_ok(&before.mcs@[i]));
        assert(after.mcs@[i].same_logic(&before.mcs@[i]));
    }
    assert forall|i: int| 0 <= i < after.pterms@.len() implies after.pterm_refs_ok(
        #[trigger] &after.pterms@[i],
    ) by {
        assert(before.pterm_refs_ok(&before.pterms@[i]));
    }
}

/// A netlist whose macrocells were refined and whose buffers got the site
/// indices that placement resolved is still well formed.
proof fn lemma_stored_keeps_wf(
    before: &InputGraph,
    after: &InputGraph,
    clk: Seq<BufferRequest>,
    gts: Seq<BufferRequest>,
    gsr: Seq<BufferRequest>,
)
    requires
        before.wf(),
        mcs_refine(before.mcs@, after.mcs@),
        after.pterms == before.pterms,
        clk_bufs_resolved(before.bufg_clks@, after.bufg_clks@, clk),
        gts_bufs_resolved(before.bufg_gts@, after.bufg_gts@, gts),
        gsr_bufs_resolved(before.bufg_gsr@, after.bufg_gsr@, gsr),
        requests_ok(clk, before.mcs@.len() as int, 3),
        requests_ok(gts, before.mcs@.len() as int, 4),
        requests_ok(gsr, before.mcs@.len() as int, 1),
        clk.len() == before.bufg_clks@.len(),
        gts.len() == before.bufg_gts@.len(),
        gsr.len() == before.bufg_gsr@.len(),
    ensures
        after.wf(),
{
    assert forall|i: int| 0 <= i < after.mcs@.len() implies after.mc_refs_ok(
        #[trigger] &after.mcs@[i],
    ) by {
        assert(before.mc_refs_ok(&before.mcs@[i]));
        assert(after.mcs@[i].same_logic(&before.mcs@[i]));
    }
    assert forall|i: int| 0 <= i < after.pterms@.len() implies after.pterm_refs_ok(
        #[trigger] &after.pterms@[i],
    ) by {
        assert(before.pterm_refs_ok(&before.pterms@[i]));
    }
    assert forall|i: int| 0 <= i < after.bufg_clks@.len() implies (
    #[trigger] after.bufg_clks@[i]).input < after.mcs@.len() && buf_loc_in_range(
        after.bufg_clks@[i].requested_loc,
        NUM_BUFG_CLK as int,
    ) by {
        assert(before.bufg_clks@[i].input < before.mcs@.len());
        assert(clk[i].input < before.mcs@.len());
    }
    assert forall|i: int| 0 <= i < after.bufg_gts@.len() implies (
    #[trigger] after.bufg_gts@[i]).input < after.mcs@.len() && buf_loc_in_range(
        after.bufg_gts@[i].requested_loc,
        NUM_BUFG_GTS as int,
    ) by {
        assert(before.bufg_gts@[i].input < before.mcs@.len());
        assert(gts[i].input < before.mcs@.len());
    }
    assert forall|i: int| 0 <= i < after.bufg_gsr@.len() implies (
    #[trigger] after.bufg_gsr@[i]).input < after.mcs@.len() && buf_loc_in_range(
        after.bufg_gsr@[i].requested_loc,
        NUM_BUFG_GSR as int,
    ) by {
        assert(before.bufg_gsr@[i].input < before.mcs@.len());
        assert(gsr[i].input < before.mcs@.len());
    }
}

/// From what the passes over the buffers of one net establish to
/// `buffers_placed`.
proof fn lemma_buffers_placed(
    reqs0: Seq<BufferRequest>,
    reqs: Seq<BufferRequest>,
    sites: Seq<u32>,
    locs: Seq<Option<AssignedLocation>>,
    pads: Seq<(u32, u32)>,
    mcs0: Seq<InputGraphMacrocell>,
    mcs1: Seq<InputGraphMacrocell>,
    mcs3: Seq<InputGraphMacrocell>,
)
    requires
        reqs.len() == reqs0.len(),
        requests_ok(reqs0, mcs0.len() as int, pads.len() as int),
        forall|k: int| 0 <= k < reqs0.len() ==> resolved(reqs0[k], #[trigger] reqs[k], mcs0, pads),
        sites_place(reqs, sites, pads.len() as int),
        locs.len() == sites.len(),
        forall|k: int| 0 <= k < sites.len() ==> #[trigger] locs[k] == buffer_site(sites[k]),
        forall|k: int|
            0 <= k < reqs.len() && (#[trigger] reqs[k]).index is None
                ==> mcs1[reqs[k].input as int].requested_loc == pinned_to(pads[sites[k] as int]),
        mcs_refine(mcs0, mcs1),
        mcs_refine(mcs1, mcs3),
        mcs_refine(mcs0, mcs3),
    ensures
        buffers_placed(reqs0, locs, pads, mcs0, mcs3),
{
    assert forall|k: int| 0 <= k < reqs0.len() implies ((#[trigger] locs[k]) matches Some(l)
        && l.fb == 0 && l.i < pads.len() && (reqs0[k].index matches Some(i) ==> l.i == i) && (
    driver_pinned(reqs0[k], pads, mcs0) ==> mcs3[reqs0[k].input as int].requested_loc == pinned_to(
        pads[l.i as int],
    ))) by {
        assert(resolved(reqs0[k], reqs[k], mcs0, pads));
        assert(locs[k] == buffer_site(sites[k]));
        assert(sites[k] < pads.len());
        let m = reqs0[k].input as int;
        assert(reqs[k].input == reqs0[k].input);
        assert(mcs3[m].same_logic(&mcs0[m]));
        if reqs[k].index is None {
            assert(mcs1[m].requested_loc == pinned_to(pads[sites[k] as int]));
        } else {
            assert(reqs[k].index == Some(sites[k]));
        }
    }
    assert forall|j: int, k: int| 0 <= j < k < locs.len() implies #[trigger] locs[j]
        != #[trigger] locs[k] by {
        assert(locs[j] == buffer_site(sites[j]));
        assert(locs[k] == buffer_site(sites[k]));
    }
}

} // verus!
