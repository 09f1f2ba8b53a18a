//! Place and route: the checks before placement, the greedy initial
//! placement, and the min-conflicts loop that moves macrocells until every
//! function block can be assigned.

use vstd::prelude::*;
use crate::bufplace::mcs_refine;
use crate::bufplace::BufferRequest;
use crate::device::DeviceSpec;
use crate::device::NUM_FBS;
use crate::greedy::clk_requests;
use crate::greedy::clk_sites;
use crate::greedy::get_slot;
use crate::greedy::greedy_initial_placement;
use crate::greedy::gsr_requests;
use crate::greedy::gsr_sites;
use crate::greedy::gts_requests;
use crate::greedy::gts_sites;
use crate::greedy::locked_pairs_fit;
use crate::greedy::set_slot;
use crate::mc::MCS_PER_FB;
use crate::netlist::AssignedLocation;
use crate::netlist::InputGraph;
use crate::netlist::InputGraphMacrocell;
use crate::netlist::NUM_LOC_FBS;
use crate::outgraph::can_pair;
use crate::outgraph::mc_locs_honored;
use crate::outgraph::placement_matches;
use crate::outgraph::placement_shape;
use crate::outgraph::slot;
use crate::outgraph::OutputGraph;
use crate::outgraph::OutputGraphMacrocell;
use crate::outgraph::PARFBAssignment;
use crate::outgraph::PARMCAssignment;
use crate::outgraph::PARZIAAssignment;
use crate::prng::prng_from_seed;
use crate::prng::prng_gen_index;
use crate::prng::prng_gen_range;
use crate::prng::seed_ok;
use crate::repair::fb_done;
use crate::repair::all_assigned;
use crate::repair::chip_done;
use crate::repair::chip_scored;
use crate::repair::movable;
use crate::repair::try_assign_entire_chip;
use crate::repair::PlacementViolations;
use crate::sanity::do_par_sanity_check;
use crate::sanity::spec_sanity;
use crate::sanity::PARSanityResult;
use crate::repair::pair_clash;
use crate::repair::placement_refs_ok;

verus! {

/// What holds of a chip placement and the macrocell locations that go
/// with it throughout place and route: the placement has the shape of a
/// chip, placement and locations describe each other, every macrocell is
/// where it asked to be, and macrocells that share a site that both named
/// obey the pairing rule.
pub open spec fn par_inv(g: &InputGraph, mcs: Seq<OutputGraphMacrocell>, pl: Seq<PARFBAssignment>) -> bool {
    &&& placement_shape(pl)
    &&& placement_matches(g, mcs, pl)
    &&& mc_locs_honored(g, mcs)
    &&& locked_pairs_fit(g, pl)
}

/// Whether the macrocell in half `pin` of site `(fb, mc)` may go to block
/// `to_fb`: it did not name its site, and if it named a block, it is
/// that one. True of a half that holds no macrocell, unless the half is
/// banned.
pub open spec fn may_go(
    g: &InputGraph,
    pl: Seq<PARFBAssignment>,
    fb: int,
    mc: int,
    pin: bool,
    to_fb: int,
) -> bool {
    match slot(pl, fb, mc, pin) {
        PARMCAssignment::MC(i) => match g.mcs@[i as int].requested_loc {
            Some(l) => l.i is None && l.fb == to_fb,
            None => true,
        },
        PARMCAssignment::Empty => true,
        PARMCAssignment::Banned => false,
    }
}

/// The locations of the macrocells are determined by the placement.
pub proof fn lemma_locs_unique(
    g: &InputGraph,
    a: Seq<OutputGraphMacrocell>,
    b: Seq<OutputGraphMacrocell>,
    pl: Seq<PARFBAssignment>,
)
    requires
        placement_matches(g, a, pl),
        placement_matches(g, b, pl),
    ensures
        a == b,
{
    assert forall|i: int| 0 <= i < a.len() implies a[i] == b[i] by {
        let l = a[i].loc.unwrap();
        assert(slot(pl, l.fb as int, l.i as int, g.mcs@[i].is_pin()) == PARMCAssignment::MC(
            i as usize,
        ));
        assert(b[i].loc == a[i].loc);
    }
    assert(a =~= b);
}

/// A placement that matches locations holds only macrocells of the
/// netlist, all of which are placed.
pub proof fn lemma_inv_refs(g: &InputGraph, mcs: Seq<OutputGraphMacrocell>, pl: Seq<PARFBAssignment>)
    requires
        placement_shape(pl),
        placement_matches(g, mcs, pl),
    ensures
        placement_refs_ok(g, pl),
        crate::ziaroute::mcs_placed(g, mcs),
{
}

/// Exchanges what the halves `pin` of two sites hold, macrocells and
/// locations alike.
pub fn swap_sites(
    g: &InputGraph,
    pl: &mut Vec<PARFBAssignment>,
    go_mcs: &mut Vec<OutputGraphMacrocell>,
    a_fb: u32,
    a_mc: u32,
    pin: bool,
    b_fb: u32,
    b_mc: u32,
)
    requires
        g.wf(),
        par_inv(g, old(go_mcs)@, old(pl)@),
        a_fb < NUM_LOC_FBS,
        a_mc < MCS_PER_FB,
        b_fb < NUM_LOC_FBS,
        b_mc < MCS_PER_FB,
        slot(old(pl)@, a_fb as int, a_mc as int, pin) is MC,
        may_go(g, old(pl)@, a_fb as int, a_mc as int, pin, b_fb as int),
        may_go(g, old(pl)@, b_fb as int, b_mc as int, pin, a_fb as int),
    ensures
        par_inv(g, final(go_mcs)@, final(pl)@),
        slot(final(pl)@, a_fb as int, a_mc as int, pin) == slot(
            old(pl)@,
            b_fb as int,
            b_mc as int,
            pin,
        ),
        slot(final(pl)@, b_fb as int, b_mc as int, pin) == slot(
            old(pl)@,
            a_fb as int,
            a_mc as int,
            pin,
        ),
        forall|f: int, m: int, p: bool|
            0 <= f < NUM_LOC_FBS && 0 <= m < MCS_PER_FB && !(f == a_fb && m == a_mc && p == pin)
                && !(f == b_fb && m == b_mc && p == pin) ==> #[trigger] slot(final(pl)@, f, m, p)
                == slot(old(pl)@, f, m, p),
{
    let a_assignment = get_slot(pl, a_fb as usize, a_mc as usize, pin);
    let b_assignment = get_slot(pl, b_fb as usize, b_mc as usize, pin);
    set_slot(pl, b_fb as usize, b_mc as usize, pin, a_assignment);
    set_slot(pl, a_fb as usize, a_mc as usize, pin, b_assignment);
    let ghost mcs0 = go_mcs@;
    if let PARMCAssignment::MC(mc_idx) = a_assignment {
        go_mcs[mc_idx].loc = Some(AssignedLocation { fb: b_fb, i: b_mc });
    }
    let ghost mcs1 = go_mcs@;
    if let PARMCAssignment::MC(mc_idx) = b_assignment {
        go_mcs[mc_idx].loc = Some(AssignedLocation { fb: a_fb, i: a_mc });
    }
    proof {
        assert(mcs0.len() == g.mcs@.len());
        assert(a_assignment == slot(old(pl)@, a_fb as int, a_mc as int, pin));
        assert(b_assignment == slot(old(pl)@, b_fb as int, b_mc as int, pin));
        assert forall|j: int| 0 <= j < mcs0.len() implies (#[trigger] go_mcs@[j]).loc == (if slot(
            old(pl)@,
            b_fb as int,
            b_mc as int,
            pin,
        ) == PARMCAssignment::MC(j as usize) {
            Some(AssignedLocation { fb: a_fb, i: a_mc })
        } else if slot(old(pl)@, a_fb as int, a_mc as int, pin) == PARMCAssignment::MC(j as usize) {
            Some(AssignedLocation { fb: b_fb, i: b_mc })
        } else {
            mcs0[j].loc
        }) by {
            if b_assignment == PARMCAssignment::MC(j as usize) {
            } else if a_assignment == PARMCAssignment::MC(j as usize) {
                assert(go_mcs@[j] == mcs1[j]);
            } else {
                assert(go_mcs@[j] == mcs1[j]);
                assert(mcs1[j] == mcs0[j]);
            }
        }
        lemma_swapped(
            g,
            old(pl)@,
            pl@,
            mcs0,
            go_mcs@,
            a_fb as int,
            a_mc as int,
            pin,
            b_fb as int,
            b_mc as int,
        );
    }
}

/// What `swap_sites` does to the placement and to the locations.
pub open spec fn swapped(
    g: &InputGraph,
    pl0: Seq<PARFBAssignment>,
    pl: Seq<PARFBAssignment>,
    mcs0: Seq<OutputGraphMacrocell>,
    mcs: Seq<OutputGraphMacrocell>,
    a_fb: int,
    a_mc: int,
    pin: bool,
    b_fb: int,
    b_mc: int,
) -> bool {
    &&& 0 <= a_fb < NUM_LOC_FBS
    &&& 0 <= a_mc < MCS_PER_FB
    &&& 0 <= b_fb < NUM_LOC_FBS
    &&& 0 <= b_mc < MCS_PER_FB
    &&& slot(pl0, a_fb, a_mc, pin) is MC
    &&& may_go(g, pl0, a_fb, a_mc, pin, b_fb)
    &&& may_go(g, pl0, b_fb, b_mc, pin, a_fb)
    &&& pl.len() == pl0.len()
    &&& mcs.len() == mcs0.len()
    &&& slot(pl, a_fb, a_mc, pin) == slot(pl0, b_fb, b_mc, pin)
    &&& slot(pl, b_fb, b_mc, pin) == slot(pl0, a_fb, a_mc, pin)
    &&& forall|f: int, m: int, p: bool|
        0 <= f < NUM_LOC_FBS && 0 <= m < MCS_PER_FB && !(f == a_fb && m == a_mc && p == pin) && !(f
            == b_fb && m == b_mc && p == pin) ==> #[trigger] slot(pl, f, m, p) == slot(pl0, f, m, p)
    &&& forall|j: int|
        0 <= j < mcs0.len() ==> (#[trigger] mcs[j]).loc == (if slot(pl0, b_fb, b_mc, pin)
            == PARMCAssignment::MC(j as usize) {
            Some(AssignedLocation { fb: a_fb as u32, i: a_mc as u32 })
        } else if slot(pl0, a_fb, a_mc, pin) == PARMCAssignment::MC(j as usize) {
            Some(AssignedLocation { fb: b_fb as u32, i: b_mc as u32 })
        } else {
            mcs0[j].loc
        })
}

/// What `swap_sites` does keeps `par_inv`.
proof fn lemma_swapped(
    g: &InputGraph,
    pl0: Seq<PARFBAssignment>,
    pl: Seq<PARFBAssignment>,
    mcs0: Seq<OutputGraphMacrocell>,
    mcs: Seq<OutputGraphMacrocell>,
    a_fb: int,
    a_mc: int,
    pin: bool,
    b_fb: int,
    b_mc: int,
)
    requires
        g.wf(),
        par_inv(g, mcs0, pl0),
        swapped(g, pl0, pl, mcs0, mcs, a_fb, a_mc, pin, b_fb, b_mc),
    ensures
        par_inv(g, mcs, pl),
{
    lemma_swapped_shape(g, pl0, pl, mcs0, mcs, a_fb, a_mc, pin, b_fb, b_mc);
    lemma_swapped_slots(g, pl0, pl, mcs0, mcs, a_fb, a_mc, pin, b_fb, b_mc);
    lemma_swapped_locs(g, pl0, pl, mcs0, mcs, a_fb, a_mc, pin, b_fb, b_mc);
    lemma_swapped_honored(g, pl0, pl, mcs0, mcs, a_fb, a_mc, pin, b_fb, b_mc);
    lemma_swapped_pairs(g, pl0, pl, mcs0, mcs, a_fb, a_mc, pin, b_fb, b_mc);
}

/// After an exchange the placement has the shape of a chip.
proof fn lemma_swapped_shape(
    g: &InputGraph,
    pl0: Seq<PARFBAssignment>,
    pl: Seq<PARFBAssignment>,
    mcs0: Seq<OutputGraphMacrocell>,
    mcs: Seq<OutputGraphMacrocell>,
    a_fb: int,
    a_mc: int,
    pin: bool,
    b_fb: int,
    b_mc: int,
)
    requires
        placement_shape(pl0),
        swapped(g, pl0, pl, mcs0, mcs, a_fb, a_mc, pin, b_fb, b_mc),
    ensures
        placement_shape(pl),
{
    assert forall|f: int, m: int, p: bool| 0 <= f < NUM_LOC_FBS && 0 <= m < MCS_PER_FB implies ((
    #[trigger] slot(pl, f, m, p)) == PARMCAssignment::Banned <==> f == 2 && !(m == 0 && p)) by {
        assert(slot(pl0, b_fb, b_mc, pin) != PARMCAssignment::Banned);
        assert(slot(pl0, a_fb, a_mc, pin) != PARMCAssignment::Banned);
        if f == a_fb && m == a_mc && p == pin {
        } else if f == b_fb && m == b_mc && p == pin {
        } else {
            assert(slot(pl, f, m, p) == slot(pl0, f, m, p));
        }
    }
}

/// The two halves named in `placement_matches`, one at a time.
pub open spec fn slots_match(g: &InputGraph, mcs: Seq<OutputGraphMacrocell>, pl: Seq<PARFBAssignment>) -> bool {
    forall|fb: int, mc: int, pin: bool|
        0 <= fb < NUM_LOC_FBS && 0 <= mc < MCS_PER_FB ==> (#[trigger] slot(pl, fb, mc, pin)
            matches PARMCAssignment::MC(i) ==> {
            &&& i < g.mcs@.len()
            &&& g.mcs@[i as int].is_pin() == pin
            &&& mcs[i as int].loc == Some(AssignedLocation { fb: fb as u32, i: mc as u32 })
        })
}

/// Every macrocell is held by the half for its kind of the site that its
/// location names.
pub open spec fn locs_match(g: &InputGraph, mcs: Seq<OutputGraphMacrocell>, pl: Seq<PARFBAssignment>) -> bool {
    forall|i: int|
        0 <= i < g.mcs@.len() ==> ((#[trigger] mcs[i]).loc matches Some(l) && l.fb < NUM_LOC_FBS
            && l.i < MCS_PER_FB && slot(pl, l.fb as int, l.i as int, g.mcs@[i].is_pin())
            == PARMCAssignment::MC(i as usize))
}

/// After an exchange every occupied half is where the location of its
/// macrocell points.
proof fn lemma_swapped_slots(
    g: &InputGraph,
    pl0: Seq<PARFBAssignment>,
    pl: Seq<PARFBAssignment>,
    mcs0: Seq<OutputGraphMacrocell>,
    mcs: Seq<OutputGraphMacrocell>,
    a_fb: int,
    a_mc: int,
    pin: bool,
    b_fb: int,
    b_mc: int,
)
    requires
        mcs0.len() == g.mcs@.len(),
        slots_match(g, mcs0, pl0),
        swapped(g, pl0, pl, mcs0, mcs, a_fb, a_mc, pin, b_fb, b_mc),
    ensures
        slots_match(g, mcs, pl),
{
    let sa = slot(pl0, a_fb, a_mc, pin);
    let sb = slot(pl0, b_fb, b_mc, pin);
    assert forall|f: int, m: int, p: bool| 0 <= f < NUM_LOC_FBS && 0 <= m < MCS_PER_FB implies (
    #[trigger] slot(pl, f, m, p) matches PARMCAssignment::MC(j) ==> {
        &&& j < g.mcs@.len()
        &&& g.mcs@[j as int].is_pin() == p
        &&& mcs[j as int].loc == Some(AssignedLocation { fb: f as u32, i: m as u32 })
    }) by {
        if let PARMCAssignment::MC(j) = slot(pl, f, m, p) {
            if f == a_fb && m == a_mc && p == pin {
                assert(sb == PARMCAssignment::MC(j));
                assert(j < g.mcs@.len());
                assert(mcs[j as int].loc == Some(
                    AssignedLocation { fb: a_fb as u32, i: a_mc as u32 },
                ));
            } else if f == b_fb && m == b_mc && p == pin {
                assert(sa == PARMCAssignment::MC(j));
                assert(j < g.mcs@.len());
                if sb == PARMCAssignment::MC(j) {
                    assert(mcs0[j as int].loc == Some(
                        AssignedLocation { fb: b_fb as u32, i: b_mc as u32 },
                    ));
                    assert(mcs0[j as int].loc == Some(
                        AssignedLocation { fb: a_fb as u32, i: a_mc as u32 },
                    ));
                }
            } else {
                assert(slot(pl0, f, m, p) == PARMCAssignment::MC(j));
                assert(j < g.mcs@.len());
                assert(mcs0[j as int].loc == Some(AssignedLocation { fb: f as u32, i: m as u32 }));
                if sb == PARMCAssignment::MC(j) {
                    assert(g.mcs@[j as int].is_pin() == pin);
                    assert(mcs0[j as int].loc == Some(
                        AssignedLocation { fb: b_fb as u32, i: b_mc as u32 },
                    ));
                }
                if sa == PARMCAssignment::MC(j) {
                    assert(g.mcs@[j as int].is_pin() == pin);
                    assert(mcs0[j as int].loc == Some(
                        AssignedLocation { fb: a_fb as u32, i: a_mc as u32 },
                    ));
                }
                assert(mcs[j as int].loc == mcs0[j as int].loc);
            }
        }
    }
}

/// After an exchange every macrocell is in the half for its kind of the
/// site it points to.
proof fn lemma_swapped_locs(
    g: &InputGraph,
    pl0: Seq<PARFBAssignment>,
    pl: Seq<PARFBAssignment>,
    mcs0: Seq<OutputGraphMacrocell>,
    mcs: Seq<OutputGraphMacrocell>,
    a_fb: int,
    a_mc: int,
    pin: bool,
    b_fb: int,
    b_mc: int,
)
    requires
        mcs0.len() == g.mcs@.len(),
        slots_match(g, mcs0, pl0),
        locs_match(g, mcs0, pl0),
        swapped(g, pl0, pl, mcs0, mcs, a_fb, a_mc, pin, b_fb, b_mc),
    ensures
        locs_match(g, mcs, pl),
{
    let sa = slot(pl0, a_fb, a_mc, pin);
    let sb = slot(pl0, b_fb, b_mc, pin);
    assert forall|j: int| 0 <= j < g.mcs@.len() implies ((#[trigger] mcs[j]).loc matches Some(l)
        && l.fb < NUM_LOC_FBS && l.i < MCS_PER_FB && slot(
        pl,
        l.fb as int,
        l.i as int,
        g.mcs@[j].is_pin(),
    ) == PARMCAssignment::MC(j as usize)) by {
        let l0 = mcs0[j].loc.unwrap();
        assert(slot(pl0, l0.fb as int, l0.i as int, g.mcs@[j].is_pin()) == PARMCAssignment::MC(
            j as usize,
        ));
        if sb == PARMCAssignment::MC(j as usize) {
            assert(g.mcs@[j].is_pin() == pin);
        } else if sa == PARMCAssignment::MC(j as usize) {
            assert(g.mcs@[j].is_pin() == pin);
        } else {
            assert(mcs[j].loc == mcs0[j].loc);
            assert(slot(pl, l0.fb as int, l0.i as int, g.mcs@[j].is_pin()) == slot(
                pl0,
                l0.fb as int,
                l0.i as int,
                g.mcs@[j].is_pin(),
            ));
        }
    }
}

/// After an exchange every macrocell is where it asked to be.
proof fn lemma_swapped_honored(
    g: &InputGraph,
    pl0: Seq<PARFBAssignment>,
    pl: Seq<PARFBAssignment>,
    mcs0: Seq<OutputGraphMacrocell>,
    mcs: Seq<OutputGraphMacrocell>,
    a_fb: int,
    a_mc: int,
    pin: bool,
    b_fb: int,
    b_mc: int,
)
    requires
        g.wf(),
        mcs0.len() == g.mcs@.len(),
        mc_locs_honored(g, mcs0),
        slots_match(g, mcs0, pl0),
        swapped(g, pl0, pl, mcs0, mcs, a_fb, a_mc, pin, b_fb, b_mc),
    ensures
        mc_locs_honored(g, mcs),
{
    assert forall|j: int| 0 <= j < g.mcs@.len() implies ((#[trigger] g.mcs@[j]).requested_loc
        matches Some(r) ==> (mcs[j].loc matches Some(l) && l.fb == r.fb && (r.i matches Some(ri)
        ==> l.i == ri))) by {
        let sa = slot(pl0, a_fb, a_mc, pin);
        let sb = slot(pl0, b_fb, b_mc, pin);
        if sb == PARMCAssignment::MC(j as usize) {
            assert(mcs[j].loc == Some(AssignedLocation { fb: a_fb as u32, i: a_mc as u32 }));
        } else if sa == PARMCAssignment::MC(j as usize) {
            assert(mcs[j].loc == Some(AssignedLocation { fb: b_fb as u32, i: b_mc as u32 }));
        } else {
            assert(mcs[j].loc == mcs0[j].loc);
        }
    }
}

/// After an exchange macrocells that share a site that both named still
/// obey the pairing rule: neither of the two that moved named its site.
proof fn lemma_swapped_pairs(
    g: &InputGraph,
    pl0: Seq<PARFBAssignment>,
    pl: Seq<PARFBAssignment>,
    mcs0: Seq<OutputGraphMacrocell>,
    mcs: Seq<OutputGraphMacrocell>,
    a_fb: int,
    a_mc: int,
    pin: bool,
    b_fb: int,
    b_mc: int,
)
    requires
        locked_pairs_fit(g, pl0),
        swapped(g, pl0, pl, mcs0, mcs, a_fb, a_mc, pin, b_fb, b_mc),
    ensures
        locked_pairs_fit(g, pl),
{
    assert forall|f: int, m: int|
        #![trigger slot(pl, f, m, false)]
        #![trigger slot(pl, f, m, true)]
        0 <= f < NUM_LOC_FBS && 0 <= m < MCS_PER_FB implies (slot(pl, f, m, false)
        matches PARMCAssignment::MC(x) ==> (slot(pl, f, m, true) matches PARMCAssignment::MC(y) ==> (
        x < g.mcs@.len() && y < g.mcs@.len() && g.mcs@[x as int].fully_locked()
            && g.mcs@[y as int].fully_locked() ==> can_pair(
            &g.mcs@[x as int],
            &g.mcs@[y as int],
        )))) by {
        if (f == a_fb && m == a_mc) || (f == b_fb && m == b_mc) {
            assert(slot(pl, f, m, !pin) == slot(pl0, f, m, !pin));
        } else {
            assert(slot(pl, f, m, false) == slot(pl0, f, m, false));
            assert(slot(pl, f, m, true) == slot(pl0, f, m, true));
        }
    }
}

/// Options of place and route.
#[derive(Copy, Clone, Debug)]
pub struct XC2ParOptions {
    /// Most rounds of repair.
    pub max_iter: u32,
    /// Seed of the pseudo-random number generator; not all zero.
    pub rng_seed: [u32; 4],
}

impl XC2ParOptions {
    /// The default options: 1000 rounds and a fixed seed.
    pub fn new() -> (r: Self)
        ensures
            r.max_iter == 1000,
            r.rng_seed@ == seq![0u32, 0u32, 0u32, 1u32],
            seed_ok(r.rng_seed@),
    {
        let r = XC2ParOptions { max_iter: 1000, rng_seed: [0, 0, 0, 1] };
        assert(r.rng_seed@ =~= seq![0u32, 0u32, 0u32, 1u32]);
        assert(r.rng_seed@[3] != 0);
        r
    }

    /// These options with another number of rounds.
    pub fn max_iter(&mut self, x: u32)
        ensures
            final(self).max_iter == x,
            final(self).rng_seed == old(self).rng_seed,
    {
        self.max_iter = x;
    }

    /// These options with another seed.
    pub fn with_prng_seed(&mut self, seed: [u32; 4])
        ensures
            final(self).rng_seed == seed,
            final(self).max_iter == old(self).max_iter,
    {
        self.rng_seed = seed;
    }
}

/// What place and route ended in.
#[derive(Debug)]
pub enum PARResult {
    Success(OutputGraph),
    FailureSanity(PARSanityResult),
    FailureIterationsExceeded,
}

/// Sets the location of every macrocell to the site that holds it.
fn sync_locs(
    go_mcs: &mut Vec<OutputGraphMacrocell>,
    pl: &Vec<PARFBAssignment>,
    Ghost(g): Ghost<&InputGraph>,
    Ghost(want): Ghost<Seq<OutputGraphMacrocell>>,
)
    requires
        pl@.len() == NUM_LOC_FBS,
        placement_matches(g, want, pl@),
        old(go_mcs)@.len() == want.len(),
    ensures
        final(go_mcs)@ == want,
{
    let n = go_mcs.len();
    let mut fb_i: usize = 0;
    while fb_i < NUM_LOC_FBS
        invariant
            fb_i <= NUM_LOC_FBS,
            pl@.len() == NUM_LOC_FBS,
            placement_matches(g, want, pl@),
            go_mcs@.len() == want.len(),
            n == want.len(),
            forall|f: int, m: int, p: bool|
                0 <= f < fb_i && 0 <= m < MCS_PER_FB ==> (#[trigger] slot(pl@, f, m, p)
                    matches PARMCAssignment::MC(j) ==> go_mcs@[j as int] == want[j as int]),
        decreases NUM_LOC_FBS - fb_i,
    {
        let mut mc_i: usize = 0;
        while mc_i < MCS_PER_FB
            invariant
                fb_i < NUM_LOC_FBS,
                mc_i <= MCS_PER_FB,
                pl@.len() == NUM_LOC_FBS,
                placement_matches(g, want, pl@),
                go_mcs@.len() == want.len(),
                forall|f: int, m: int, p: bool|
                    0 <= f < NUM_LOC_FBS && 0 <= m < MCS_PER_FB && (f < fb_i || (f == fb_i && m
                        < mc_i)) ==> (#[trigger] slot(pl@, f, m, p)
                        matches PARMCAssignment::MC(j) ==> go_mcs@[j as int] == want[j as int]),
            decreases MCS_PER_FB - mc_i,
        {
            let here = AssignedLocation { fb: fb_i as u32, i: mc_i as u32 };
            if let PARMCAssignment::MC(mc_idx) = get_slot(pl, fb_i, mc_i, false) {
                assert(slot(pl@, fb_i as int, mc_i as int, false) == PARMCAssignment::MC(mc_idx));
                go_mcs[mc_idx] = OutputGraphMacrocell { loc: Some(here) };
            }
            if let PARMCAssignment::MC(mc_idx) = get_slot(pl, fb_i, mc_i, true) {
                assert(slot(pl@, fb_i as int, mc_i as int, true) == PARMCAssignment::MC(mc_idx));
                go_mcs[mc_idx] = OutputGraphMacrocell { loc: Some(here) };
            }
            mc_i += 1;
        }
        fb_i += 1;
    }
    proof {
        assert forall|j: int| 0 <= j < want.len() implies go_mcs@[j] == want[j] by {
            let l = want[j].loc.unwrap();
            let ju = j as usize;
            assert(ju as int == j);
            assert(slot(pl@, l.fb as int, l.i as int, g.mcs@[j].is_pin()) == PARMCAssignment::MC(ju));
            assert(go_mcs@[ju as int] == want[ju as int]);
        }
        assert(go_mcs@ =~= want);
    }
}

/// Whether site `(cand_fb, cand_mc)` may take the macrocell that is being
/// moved away from block `move_fb`: the site is in a function block, in
/// the block that the macrocell named if it named one, and what its half
/// holds may go to `move_fb` in exchange.
pub open spec fn legal_site(
    g: &InputGraph,
    pl: Seq<PARFBAssignment>,
    move_fb: int,
    pin: bool,
    req_fb: Option<u32>,
    cand_fb: int,
    cand_mc: int,
) -> bool {
    &&& 0 <= cand_fb < NUM_FBS
    &&& 0 <= cand_mc < MCS_PER_FB
    &&& (req_fb matches Some(f) ==> f == cand_fb)
    &&& may_go(g, pl, cand_fb, cand_mc, pin, move_fb)
}

/// Whether site `(cand_fb, cand_mc)` may take the macrocell that is being
/// moved.
fn site_is_legal(
    g: &InputGraph,
    pl: &Vec<PARFBAssignment>,
    move_fb: u32,
    pin: bool,
    req_fb: Option<u32>,
    cand_fb: u32,
    cand_mc: u32,
) -> (r: bool)
    requires
        placement_refs_ok(g, pl@),
        cand_fb < NUM_FBS,
        cand_mc < MCS_PER_FB,
    ensures
        r == legal_site(g, pl@, move_fb as int, pin, req_fb, cand_fb as int, cand_mc as int),
{
    if let Some(f) = req_fb {
        if f != cand_fb {
            return false;
        }
    }
    match get_slot(pl, cand_fb as usize, cand_mc as usize, pin) {
        PARMCAssignment::Banned => false,
        PARMCAssignment::MC(cand_mc_idx) => {
            match g.mcs[cand_mc_idx].requested_loc {
                Some(l) => l.i.is_none() && l.fb == move_fb,
                None => true,
            }
        },
        PARMCAssignment::Empty => true,
    }
}

/// What holds of the best placement found so far: it is a placement of
/// the chip with the locations `locs`; `results`, `violations` and
/// `score` are what scoring it gives; and if it has no violation, the
/// output graph holds its locations and, if every block could be
/// assigned, what the assignment left.
pub open spec fn best_state(
    g: &InputGraph,
    device: &DeviceSpec,
    go: &OutputGraph,
    placement: Seq<PARFBAssignment>,
    results: Seq<Option<PARZIAAssignment>>,
    violations: &PlacementViolations,
    score: u32,
    locs: Seq<OutputGraphMacrocell>,
) -> bool {
    &&& par_inv(g, locs, placement)
    &&& results.len() == NUM_LOC_FBS
    &&& chip_scored(g, placement, violations)
    &&& crate::repair::scored_as(g, device, locs, placement, results, violations)
    &&& score == violations.total()
    &&& (violations.no_violation() ==> go.mcs@ == locs && (all_assigned(results) ==> chip_done(
        g,
        device,
        go,
        placement,
        results,
    )))
}

/// What place and route never changes in the output graph once the
/// buffers are placed.
pub open spec fn go_kept(before: &OutputGraph, after: &OutputGraph) -> bool {
    &&& after.bufg_clks == before.bufg_clks
    &&& after.bufg_gts == before.bufg_gts
    &&& after.bufg_gsr == before.bufg_gsr
    &&& after.zia == before.zia
    &&& after.pterms@.len() == before.pterms@.len()
    &&& after.mcs@.len() == before.mcs@.len()
}

/// After an exchange the two halves may be exchanged back.
proof fn lemma_swap_back_ok(
    g: &InputGraph,
    pl0: Seq<PARFBAssignment>,
    mcs0: Seq<OutputGraphMacrocell>,
    pl: Seq<PARFBAssignment>,
    a_fb: int,
    a_mc: int,
    pin: bool,
    b_fb: int,
    b_mc: int,
)
    requires
        g.wf(),
        par_inv(g, mcs0, pl0),
        0 <= a_fb < NUM_LOC_FBS,
        0 <= a_mc < MCS_PER_FB,
        0 <= b_fb < NUM_LOC_FBS,
        0 <= b_mc < MCS_PER_FB,
        slot(pl0, a_fb, a_mc, pin) is MC,
        may_go(g, pl0, a_fb, a_mc, pin, b_fb),
        may_go(g, pl0, b_fb, b_mc, pin, a_fb),
        slot(pl, a_fb, a_mc, pin) == slot(pl0, b_fb, b_mc, pin),
        slot(pl, b_fb, b_mc, pin) == slot(pl0, a_fb, a_mc, pin),
    ensures
        slot(pl, b_fb, b_mc, pin) is MC,
        may_go(g, pl, b_fb, b_mc, pin, a_fb),
        may_go(g, pl, a_fb, a_mc, pin, b_fb),
{
    let ia = slot(pl0, a_fb, a_mc, pin)->MC_0;
    assert(mcs0[ia as int].loc == Some(AssignedLocation { fb: a_fb as u32, i: a_mc as u32 }));
    assert(g.mcs@[ia as int].requested_loc matches Some(r) ==> r.fb == a_fb);
    if let PARMCAssignment::MC(ib) = slot(pl0, b_fb, b_mc, pin) {
        assert(mcs0[ib as int].loc == Some(AssignedLocation { fb: b_fb as u32, i: b_mc as u32 }));
        assert(g.mcs@[ib as int].requested_loc matches Some(r) ==> r.fb == b_fb);
    }
}

/// The sites that may take the macrocell that is being moved, among the
/// first `n` sites of the function blocks, in the order of function
/// block and macrocell.
pub open spec fn legal_sites(
    g: &InputGraph,
    pl: Seq<PARFBAssignment>,
    move_fb: int,
    pin: bool,
    req_fb: Option<u32>,
    n: int,
) -> Seq<(u32, u32)>
    decreases n,
{
    if n <= 0 {
        Seq::empty()
    } else {
        let before = legal_sites(g, pl, move_fb, pin, req_fb, n - 1);
        if legal_site(g, pl, move_fb, pin, req_fb, (n - 1) / 16, (n - 1) % 16) {
            before.push((((n - 1) / 16) as u32, ((n - 1) % 16) as u32))
        } else {
            before
        }
    }
}

/// Whether `pl` is the placement `pl0` with what the halves `pin` of the
/// sites `(a_fb, a_mc)` and `(b_fb, b_mc)` hold exchanged.
pub open spec fn exchanged(
    pl0: Seq<PARFBAssignment>,
    pl: Seq<PARFBAssignment>,
    a_fb: int,
    a_mc: int,
    pin: bool,
    b_fb: int,
    b_mc: int,
) -> bool {
    &&& pl.len() == pl0.len()
    &&& slot(pl, a_fb, a_mc, pin) == slot(pl0, b_fb, b_mc, pin)
    &&& slot(pl, b_fb, b_mc, pin) == slot(pl0, a_fb, a_mc, pin)
    &&& forall|f: int, m: int, p: bool|
        0 <= f < NUM_LOC_FBS && 0 <= m < MCS_PER_FB && !(f == a_fb && m == a_mc && p == pin) && !(f
            == b_fb && m == b_mc && p == pin) ==> #[trigger] slot(pl, f, m, p) == slot(pl0, f, m, p)
}

/// Whether the placement `pl0` with the macrocell in half `pin` of site
/// `(a_fb, a_mc)` moved to `site` scores no less than `least`.
pub open spec fn move_scores_over(
    g: &InputGraph,
    device: &DeviceSpec,
    pl0: Seq<PARFBAssignment>,
    a_fb: int,
    a_mc: int,
    pin: bool,
    site: (u32, u32),
    least: int,
) -> bool {
    forall|pl: Seq<PARFBAssignment>, mcs: Seq<OutputGraphMacrocell>|
        #![trigger exchanged(pl0, pl, a_fb, a_mc, pin, site.0 as int, site.1 as int), placement_matches(g, mcs, pl)]
        exchanged(pl0, pl, a_fb, a_mc, pin, site.0 as int, site.1 as int) && placement_matches(
            g,
            mcs,
            pl,
        ) ==> crate::repair::chip_total(g, device, mcs, pl) >= least
}

/// Whether the sites `tried` were tried for the macrocell in half `pin`
/// of site `(a_fb, a_mc)` of the placement `pl0` with the outcome
/// `found`: no placement that one of them gives scores less than `best`;
/// and if one was found that scores less than the placement did, it is
/// the placement `now` with the locations `locs`, it is the first of them
/// that scores `best`, and it scores less than every site before it.
pub open spec fn sites_tried(
    g: &InputGraph,
    device: &DeviceSpec,
    pl0: Seq<PARFBAssignment>,
    a_fb: int,
    a_mc: int,
    pin: bool,
    tried: Seq<(u32, u32)>,
    found: bool,
    best: int,
    now: Seq<PARFBAssignment>,
    locs: Seq<OutputGraphMacrocell>,
) -> bool {
    &&& forall|k: int|
        0 <= k < tried.len() ==> move_scores_over(g, device, pl0, a_fb, a_mc, pin, #[trigger] tried[k], best)
    &&& found ==> exists|k: int|
        0 <= k < tried.len() && #[trigger] exchanged(
            pl0,
            now,
            a_fb,
            a_mc,
            pin,
            tried[k].0 as int,
            tried[k].1 as int,
        ) && placement_matches(g, locs, now) && crate::repair::chip_total(g, device, locs, now)
            == best && forall|j: int|
            0 <= j < k ==> move_scores_over(g, device, pl0, a_fb, a_mc, pin, #[trigger] tried[j], best + 1)
}

/// The exchange of two halves gives one placement.
proof fn lemma_exchanged_unique(
    pl0: Seq<PARFBAssignment>,
    a: Seq<PARFBAssignment>,
    b: Seq<PARFBAssignment>,
    a_fb: int,
    a_mc: int,
    pin: bool,
    b_fb: int,
    b_mc: int,
)
    requires
        pl0.len() == NUM_LOC_FBS,
        exchanged(pl0, a, a_fb, a_mc, pin, b_fb, b_mc),
        exchanged(pl0, b, a_fb, a_mc, pin, b_fb, b_mc),
    ensures
        a == b,
{
    assert forall|f: int, m: int, p: bool|
        0 <= f < NUM_LOC_FBS && 0 <= m < MCS_PER_FB implies #[trigger] slot(b, f, m, p) == slot(
        a,
        f,
        m,
        p,
    ) by {
        if !(f == a_fb && m == a_mc && p == pin) && !(f == b_fb && m == b_mc && p == pin) {
            assert(slot(a, f, m, p) == slot(pl0, f, m, p));
            assert(slot(b, f, m, p) == slot(pl0, f, m, p));
        }
    }
    crate::repair::lemma_slots_equal(a, b);
}

/// The function block that the macrocell in half `p` of site `(f, m)`
/// named, if it named one.
pub open spec fn named_fb(g: &InputGraph, pl: Seq<PARFBAssignment>, f: int, m: int, p: bool) -> Option<
    u32,
> {
    match slot(pl, f, m, p) {
        PARMCAssignment::MC(i) => match g.mcs@[i as int].requested_loc {
            Some(l) => Some(l.fb),
            None => None,
        },
        _ => None,
    }
}

/// Whether `next` is the placement that a round of repair keeps when it
/// moves the macrocell in half `p` of site `(f, m)` of the placement
/// `pl`, which scores `total`, and finds a placement that scores less:
/// the first of the legal sites that gives the lowest score. The legal
/// sites are tried in order, up to the first that leaves nothing at
/// fault.
pub open spec fn improved_by(
    g: &InputGraph,
    device: &DeviceSpec,
    pl: Seq<PARFBAssignment>,
    total: int,
    f: int,
    m: int,
    p: bool,
    next: Seq<PARFBAssignment>,
) -> bool {
    exists|n: int, best: int, locs: Seq<OutputGraphMacrocell>|
        0 <= n <= 32 && best < total && (n < 32 ==> best == 0) && #[trigger] sites_tried(
            g,
            device,
            pl,
            f,
            m,
            p,
            legal_sites(g, pl, f, p, named_fb(g, pl, f, m, p), n),
            true,
            best,
            next,
            locs,
        )
}

/// Whether `next` is a placement that a round of repair may keep when it
/// moves the macrocell in half `p` of site `(f, m)` of the placement
/// `pl`, which scores `total`, and no legal site gives a placement that
/// scores less: the macrocell is moved to one of the legal sites. If
/// there is none, the placement stays.
pub open spec fn forced_to(
    g: &InputGraph,
    device: &DeviceSpec,
    pl: Seq<PARFBAssignment>,
    total: int,
    f: int,
    m: int,
    p: bool,
    next: Seq<PARFBAssignment>,
) -> bool {
    let all = legal_sites(g, pl, f, p, named_fb(g, pl, f, m, p), 32);
    &&& forall|k: int|
        0 <= k < all.len() ==> move_scores_over(g, device, pl, f, m, p, #[trigger] all[k], total)
    &&& if all.len() == 0 {
        next == pl
    } else {
        exists|i: int|
            0 <= i < all.len() && #[trigger] exchanged(
                pl,
                next,
                f,
                m,
                p,
                all[i].0 as int,
                all[i].1 as int,
            )
    }
}

/// Whether a round of repair may lead from the placement `pl`, in which
/// something is at fault, to the placement `next`: a number drawn below
/// the score of `pl` picks a half at fault, and the macrocell in it is
/// moved as `improved_by` or `forced_to` says.
pub open spec fn round_from(
    g: &InputGraph,
    device: &DeviceSpec,
    pl: Seq<PARFBAssignment>,
    next: Seq<PARFBAssignment>,
) -> bool {
    exists|mcs: Seq<OutputGraphMacrocell>, d: int, f: int, m: int, p: bool|
        placement_matches(g, mcs, pl) && #[trigger] crate::repair::fault_drawn(
            g,
            device,
            mcs,
            pl,
            d,
            f,
            m,
            p,
        ) && (improved_by(g, device, pl, crate::repair::chip_total(g, device, mcs, pl), f, m, p, next)
            || forced_to(g, device, pl, crate::repair::chip_total(g, device, mcs, pl), f, m, p, next))
}

/// Whether `k` rounds of repair may lead from the placement `start` to
/// the placement `pl`.
pub open spec fn reaches(
    g: &InputGraph,
    device: &DeviceSpec,
    start: Seq<PARFBAssignment>,
    pl: Seq<PARFBAssignment>,
    k: int,
) -> bool
    decreases k,
{
    if k <= 0 {
        pl == start
    } else {
        exists|mid: Seq<PARFBAssignment>|
            reaches(g, device, start, mid, k - 1) && #[trigger] round_from(g, device, mid, pl)
    }
}

/// Whether nothing is at fault in the placement `pl` and yet a block
/// cannot be assigned.
pub open spec fn stuck(g: &InputGraph, device: &DeviceSpec, pl: Seq<PARFBAssignment>) -> bool {
    exists|mcs: Seq<OutputGraphMacrocell>| #[trigger]
        placement_matches(g, mcs, pl) && crate::repair::chip_total(g, device, mcs, pl) == 0
            && exists|f: int|
            0 <= f < NUM_LOC_FBS && crate::repair::fb_score(g, device, mcs, (#[trigger] pl[f])@) != 0
}

/// Tries every legal site for the macrocell in half `move_pin` of site
/// `(move_fb, move_mc)`: exchanges the two halves, scores the chip, and
/// remembers the placement if it scores better than the best so far. The
/// search ends at once with a placement without violations. Returns
/// whether a better placement was found, and the legal sites.
fn try_all_sites(
    g: &InputGraph,
    go: &mut OutputGraph,
    device_type: &DeviceSpec,
    macrocell_placement: &mut Vec<PARFBAssignment>,
    best_placement: &mut Vec<PARFBAssignment>,
    best_results: &mut Vec<Option<PARZIAAssignment>>,
    best_violations: &mut PlacementViolations,
    best_score: &mut u32,
    Ghost(best_locs): Ghost<Seq<OutputGraphMacrocell>>,
    move_fb: u32,
    move_mc: u32,
    move_pin: bool,
    req_fb: Option<u32>,
) -> (r: (bool, Vec<(u32, u32)>, Ghost<Seq<OutputGraphMacrocell>>))
    requires
        g.wf(),
        device_type.wf(),
        old(go).pterms@.len() == g.pterms@.len(),
        par_inv(g, old(go).mcs@, old(macrocell_placement)@),
        best_state(
            g,
            device_type,
            old(go),
            old(best_placement)@,
            old(best_results)@,
            old(best_violations),
            *old(best_score),
            best_locs,
        ),
        !old(best_violations).no_violation(),
        move_fb < NUM_LOC_FBS,
        move_mc < MCS_PER_FB,
        movable(g, old(macrocell_placement)@, move_fb as int, move_mc as int, move_pin),
        req_fb matches Some(f) ==> f == move_fb,
        match slot(old(macrocell_placement)@, move_fb as int, move_mc as int, move_pin) {
            PARMCAssignment::MC(i) => req_fb == (match g.mcs@[i as int].requested_loc {
                Some(l) => Some(l.fb),
                None => None,
            }),
            _ => false,
        },
    ensures
        go_kept(old(go), final(go)),
        par_inv(g, final(go).mcs@, final(macrocell_placement)@),
        best_state(
            g,
            device_type,
            final(go),
            final(best_placement)@,
            final(best_results)@,
            final(best_violations),
            *final(best_score),
            r.2@,
        ),
        !r.0 ==> final(macrocell_placement)@ == old(macrocell_placement)@ && final(go).mcs@ == old(
            go,
        ).mcs@ && !final(best_violations).no_violation(),
        r.0 ==> *final(best_score) < *old(best_score),
        r.1@.len() <= 32,
        forall|k: int|
            0 <= k < r.1@.len() ==> legal_site(
                g,
                old(macrocell_placement)@,
                move_fb as int,
                move_pin,
                req_fb,
                (#[trigger] r.1@[k]).0 as int,
                r.1@[k].1 as int,
            ),
        exists|n: int|
            0 <= n <= 32 && r.1@ == #[trigger] legal_sites(
                g,
                old(macrocell_placement)@,
                move_fb as int,
                move_pin,
                req_fb,
                n,
            ) && (n < 32 ==> final(best_violations).no_violation() && *final(best_score) == 0),
        sites_tried(
            g,
            device_type,
            old(macrocell_placement)@,
            move_fb as int,
            move_mc as int,
            move_pin,
            r.1@,
            r.0,
            *final(best_score) as int,
            final(best_placement)@,
            r.2@,
        ),
        !r.0 ==> final(best_placement)@ == old(best_placement)@ && final(best_results)@ == old(
            best_results,
        )@ && r.2@ == best_locs,
{
    let ghost pl0 = macrocell_placement@;
    let ghost mcs0 = go.mcs@;
    let mut found_anything_better = false;
    let mut all_cand_sites: Vec<(u32, u32)> = Vec::new();
    let mut locs: Ghost<Seq<OutputGraphMacrocell>> = Ghost(best_locs);
    let mut done = false;
    let ghost mut seen: int = 0;
    let mut cand_fb: u32 = 0;
    while cand_fb < 2 && !done
        invariant
            cand_fb <= 2,
            0 <= seen <= 32,
            !done ==> seen == cand_fb * 16,
            all_cand_sites@.len() <= cand_fb * 16 + (if done { 16int } else { 0int }),
            done ==> cand_fb < 2,
            g.wf(),
            device_type.wf(),
            go.pterms@.len() == g.pterms@.len(),
            go_kept(old(go), go),
            par_inv(g, mcs0, pl0),
            par_inv(g, go.mcs@, macrocell_placement@),
            !done ==> macrocell_placement@ == pl0 && go.mcs@ == mcs0,
            !done ==> !best_violations.no_violation(),
            best_state(
                g,
                device_type,
                go,
                best_placement@,
                best_results@,
                best_violations,
                *best_score,
                locs@,
            ),
            all_cand_sites@ == legal_sites(g, pl0, move_fb as int, move_pin, req_fb, seen),
            done ==> best_violations.no_violation() && *best_score == 0,
            sites_tried(
                g,
                device_type,
                pl0,
                move_fb as int,
                move_mc as int,
                move_pin,
                all_cand_sites@,
                found_anything_better,
                *best_score as int,
                best_placement@,
                locs@,
            ),
            !found_anything_better ==> best_placement@ == old(best_placement)@ && best_results@
                == old(best_results)@ && locs@ == best_locs,
            done ==> found_anything_better,
            found_anything_better ==> *best_score < *old(best_score),
            !found_anything_better ==> *best_score == *old(best_score),
            move_fb < NUM_LOC_FBS,
            move_mc < MCS_PER_FB,
            movable(g, pl0, move_fb as int, move_mc as int, move_pin),
            req_fb matches Some(f) ==> f == move_fb,
            match slot(pl0, move_fb as int, move_mc as int, move_pin) {
                PARMCAssignment::MC(i) => req_fb == (match g.mcs@[i as int].requested_loc {
                    Some(l) => Some(l.fb),
                    None => None,
                }),
                _ => false,
            },
            forall|k: int|
                0 <= k < all_cand_sites@.len() ==> legal_site(
                    g,
                    pl0,
                    move_fb as int,
                    move_pin,
                    req_fb,
                    (#[trigger] all_cand_sites@[k]).0 as int,
                    all_cand_sites@[k].1 as int,
                ),
        decreases 2 - cand_fb + (if done { 0int } else { 1int }),
    {
        let mut cand_mc: u32 = 0;
        while cand_mc < 16 && !done
            invariant
                cand_fb < 2,
                cand_mc <= 16,
                0 <= seen <= 32,
                !done ==> seen == cand_fb * 16 + cand_mc,
                all_cand_sites@.len() <= cand_fb * 16 + cand_mc + (if done { 1int } else { 0int }),
                done ==> cand_mc < 16,
                g.wf(),
                device_type.wf(),
                go.pterms@.len() == g.pterms@.len(),
                go_kept(old(go), go),
                par_inv(g, mcs0, pl0),
                par_inv(g, go.mcs@, macrocell_placement@),
                !done ==> macrocell_placement@ == pl0 && go.mcs@ == mcs0,
                !done ==> !best_violations.no_violation(),
                best_state(
                    g,
                    device_type,
                    go,
                    best_placement@,
                    best_results@,
                    best_violations,
                    *best_score,
                    locs@,
                ),
                all_cand_sites@ == legal_sites(g, pl0, move_fb as int, move_pin, req_fb, seen),
                done ==> best_violations.no_violation() && *best_score == 0,
                sites_tried(
                    g,
                    device_type,
                    pl0,
                    move_fb as int,
                    move_mc as int,
                    move_pin,
                    all_cand_sites@,
                    found_anything_better,
                    *best_score as int,
                    best_placement@,
                    locs@,
                ),
                !found_anything_better ==> best_placement@ == old(best_placement)@ && best_results@
                    == old(best_results)@ && locs@ == best_locs,
                done ==> found_anything_better,
                found_anything_better ==> *best_score < *old(best_score),
                !found_anything_better ==> *best_score == *old(best_score),
                move_fb < NUM_LOC_FBS,
                move_mc < MCS_PER_FB,
                movable(g, pl0, move_fb as int, move_mc as int, move_pin),
                req_fb matches Some(f) ==> f == move_fb,
                match slot(pl0, move_fb as int, move_mc as int, move_pin) {
                    PARMCAssignment::MC(i) => req_fb == (match g.mcs@[i as int].requested_loc {
                        Some(l) => Some(l.fb),
                        None => None,
                    }),
                    _ => false,
                },
                forall|k: int|
                    0 <= k < all_cand_sites@.len() ==> legal_site(
                        g,
                        pl0,
                        move_fb as int,
                        move_pin,
                        req_fb,
                        (#[trigger] all_cand_sites@[k]).0 as int,
                        all_cand_sites@[k].1 as int,
                    ),
            decreases 16 - cand_mc + (if done { 0int } else { 1int }),
        {
            proof {
                lemma_inv_refs(g, go.mcs@, macrocell_placement@);
            }
            let ghost tried = all_cand_sites@;
            let ghost best0 = *best_score as int;
            let ghost found0 = found_anything_better;
            let ghost here = (cand_fb, cand_mc);
            proof {
                assert(seen / 16 == cand_fb && seen % 16 == cand_mc);
            }
            if site_is_legal(g, macrocell_placement, move_fb, move_pin, req_fb, cand_fb, cand_mc) {
                all_cand_sites.push((cand_fb, cand_mc));

                // Exchange the two halves and score what comes of it.
                swap_sites(
                    g,
                    macrocell_placement,
                    &mut go.mcs,
                    move_fb,
                    move_mc,
                    move_pin,
                    cand_fb,
                    cand_mc,
                );
                proof {
                    lemma_inv_refs(g, go.mcs@, macrocell_placement@);
                }
                let ghost pl1 = macrocell_placement@;
                let ghost mcs1 = go.mcs@;
                let scored = try_assign_entire_chip(g, go, macrocell_placement, device_type);
                let par_results_per_fb = scored.0;
                let new_placement_violations = scored.1;
                let new_placement_violations_score = scored.2;
                proof {
                    // the exchange gives this placement and no other
                    assert(exchanged(
                        pl0,
                        pl1,
                        move_fb as int,
                        move_mc as int,
                        move_pin,
                        cand_fb as int,
                        cand_mc as int,
                    ));
                    assert forall|pl: Seq<PARFBAssignment>, mcs: Seq<OutputGraphMacrocell>|
                        #![trigger exchanged(pl0, pl, move_fb as int, move_mc as int, move_pin, here.0 as int, here.1 as int), placement_matches(g, mcs, pl)]
                        exchanged(
                            pl0,
                            pl,
                            move_fb as int,
                            move_mc as int,
                            move_pin,
                            here.0 as int,
                            here.1 as int,
                        ) && placement_matches(g, mcs, pl) implies crate::repair::chip_total(
                        g,
                        device_type,
                        mcs,
                        pl,
                    ) == new_placement_violations_score by {
                        lemma_exchanged_unique(
                            pl0,
                            pl,
                            pl1,
                            move_fb as int,
                            move_mc as int,
                            move_pin,
                            cand_fb as int,
                            cand_mc as int,
                        );
                        lemma_locs_unique(g, mcs, mcs1, pl1);
                    }
                }

                if new_placement_violations_score < *best_score {
                    found_anything_better = true;
                    *best_placement = crate::outgraph::copy_placement(macrocell_placement);
                    let perfect = new_placement_violations.is_empty();
                    *best_violations = new_placement_violations;
                    *best_results = par_results_per_fb;
                    *best_score = new_placement_violations_score;
                    proof {
                        locs@ = go.mcs@;
                    }
                    // Nothing can be better than no violation.
                    if perfect {
                        done = true;
                    }
                }
                proof {
                    let now = all_cand_sites@;
                    let best = *best_score as int;
                    assert(best <= best0);
                    assert forall|k: int| 0 <= k < now.len() implies move_scores_over(
                        g,
                        device_type,
                        pl0,
                        move_fb as int,
                        move_mc as int,
                        move_pin,
                        #[trigger] now[k],
                        best,
                    ) by {
                        if k < tried.len() {
                            assert(now[k] == tried[k]);
                            assert(move_scores_over(
                                g,
                                device_type,
                                pl0,
                                move_fb as int,
                                move_mc as int,
                                move_pin,
                                tried[k],
                                best0,
                            ));
                        }
                    }
                    if found_anything_better {
                        if best < best0 {
                            let k = tried.len() as int;
                            assert(now[k] == here);
                            assert forall|j: int| 0 <= j < k implies move_scores_over(
                                g,
                                device_type,
                                pl0,
                                move_fb as int,
                                move_mc as int,
                                move_pin,
                                #[trigger] now[j],
                                best + 1,
                            ) by {
                                assert(now[j] == tried[j]);
                                assert(move_scores_over(
                                    g,
                                    device_type,
                                    pl0,
                                    move_fb as int,
                                    move_mc as int,
                                    move_pin,
                                    tried[j],
                                    best0,
                                ));
                            }
                            assert(exchanged(
                                pl0,
                                best_placement@,
                                move_fb as int,
                                move_mc as int,
                                move_pin,
                                now[k].0 as int,
                                now[k].1 as int,
                            ));
                        } else {
                            let k = choose|k: int|
                                0 <= k < tried.len() && #[trigger] exchanged(
                                    pl0,
                                    best_placement@,
                                    move_fb as int,
                                    move_mc as int,
                                    move_pin,
                                    tried[k].0 as int,
                                    tried[k].1 as int,
                                ) && placement_matches(g, locs@, best_placement@)
                                    && crate::repair::chip_total(
                                    g,
                                    device_type,
                                    locs@,
                                    best_placement@,
                                ) == best && forall|j: int|
                                    0 <= j < k ==> move_scores_over(
                                        g,
                                        device_type,
                                        pl0,
                                        move_fb as int,
                                        move_mc as int,
                                        move_pin,
                                        #[trigger] tried[j],
                                        best + 1,
                                    );
                            assert(now[k] == tried[k]);
                            assert forall|j: int| 0 <= j < k implies move_scores_over(
                                g,
                                device_type,
                                pl0,
                                move_fb as int,
                                move_mc as int,
                                move_pin,
                                #[trigger] now[j],
                                best + 1,
                            ) by {
                                assert(now[j] == tried[j]);
                            }
                        }
                    }
                }
                if !done {
                    proof {
                        lemma_swap_back_ok(
                            g,
                            pl0,
                            mcs0,
                            pl1,
                            move_fb as int,
                            move_mc as int,
                            move_pin,
                            cand_fb as int,
                            cand_mc as int,
                        );
                    }
                    swap_sites(
                        g,
                        macrocell_placement,
                        &mut go.mcs,
                        cand_fb,
                        cand_mc,
                        move_pin,
                        move_fb,
                        move_mc,
                    );
                    proof {
                        crate::repair::lemma_slots_equal(pl0, macrocell_placement@);
                        lemma_locs_unique(g, go.mcs@, mcs0, pl0);
                    }
                }
            }
            proof {
                seen = seen + 1;
            }
            if !done {
                cand_mc += 1;
            }
        }
        if !done {
            cand_fb += 1;
        }
    }
    (found_anything_better, all_cand_sites, locs)
}

/// Moves the macrocell in half `move_pin` of site `(move_fb, move_mc)` to
/// the legal site `(cand_fb, cand_mc)`, whatever that scores, and makes
/// the outcome the best placement.
fn forced_move(
    g: &InputGraph,
    go: &mut OutputGraph,
    device_type: &DeviceSpec,
    macrocell_placement: &mut Vec<PARFBAssignment>,
    best_placement: &mut Vec<PARFBAssignment>,
    best_results: &mut Vec<Option<PARZIAAssignment>>,
    best_violations: &mut PlacementViolations,
    best_score: &mut u32,
    move_fb: u32,
    move_mc: u32,
    move_pin: bool,
    req_fb: Option<u32>,
    cand_fb: u32,
    cand_mc: u32,
) -> (r: Ghost<Seq<OutputGraphMacrocell>>)
    requires
        g.wf(),
        device_type.wf(),
        old(go).pterms@.len() == g.pterms@.len(),
        par_inv(g, old(go).mcs@, old(macrocell_placement)@),
        move_fb < NUM_LOC_FBS,
        move_mc < MCS_PER_FB,
        movable(g, old(macrocell_placement)@, move_fb as int, move_mc as int, move_pin),
        match slot(old(macrocell_placement)@, move_fb as int, move_mc as int, move_pin) {
            PARMCAssignment::MC(i) => req_fb == (match g.mcs@[i as int].requested_loc {
                Some(l) => Some(l.fb),
                None => None,
            }),
            _ => false,
        },
        legal_site(
            g,
            old(macrocell_placement)@,
            move_fb as int,
            move_pin,
            req_fb,
            cand_fb as int,
            cand_mc as int,
        ),
    ensures
        go_kept(old(go), final(go)),
        par_inv(g, final(go).mcs@, final(macrocell_placement)@),
        best_state(
            g,
            device_type,
            final(go),
            final(best_placement)@,
            final(best_results)@,
            final(best_violations),
            *final(best_score),
            r@,
        ),
        exchanged(
            old(macrocell_placement)@,
            final(best_placement)@,
            move_fb as int,
            move_mc as int,
            move_pin,
            cand_fb as int,
            cand_mc as int,
        ),
        final(macrocell_placement)@ == final(best_placement)@,
        final(go).mcs@ == r@,
{
    swap_sites(
        g,
        macrocell_placement,
        &mut go.mcs,
        move_fb,
        move_mc,
        move_pin,
        cand_fb,
        cand_mc,
    );
    proof {
        lemma_inv_refs(g, go.mcs@, macrocell_placement@);
    }
    let scored = try_assign_entire_chip(g, go, macrocell_placement, device_type);
    *best_placement = crate::outgraph::copy_placement(macrocell_placement);
    *best_violations = scored.1;
    *best_results = scored.0;
    *best_score = scored.2;
    Ghost(go.mcs@)
}

/// No site holds two macrocells that the pairing rule keeps apart.
pub open spec fn pairs_fit(g: &InputGraph, pl: Seq<PARFBAssignment>) -> bool {
    forall|fb: int, mc: int|
        #![trigger slot(pl, fb, mc, false)]
        #![trigger slot(pl, fb, mc, true)]
        0 <= fb < NUM_LOC_FBS && 0 <= mc < MCS_PER_FB ==> !pair_clash(g, pl, fb, mc)
}

/// What holds of the output graph of a successful place and route, with
/// `pl` the placement of the chip that it stands for.
///
/// The placement and the locations of the macrocells describe each
/// other, and every macrocell is where it asked to be. No site holds two
/// macrocells that the pairing rule keeps apart. There is a ZIA assignment
/// for both function blocks, and what `fb_done` says holds of each block:
/// its product terms have sites that their uses allow, product terms on
/// one site are structurally equal, and the rows of each product term
/// carry its inputs.
pub open spec fn par_done(
    g: &InputGraph,
    device: &DeviceSpec,
    go: &OutputGraph,
    pl: Seq<PARFBAssignment>,
) -> bool {
    &&& par_inv(g, go.mcs@, pl)
    &&& pairs_fit(g, pl)
    &&& go.zia@.len() == NUM_FBS
    &&& forall|f: int|
        0 <= f < NUM_FBS ==> fb_done(
            g,
            device,
            go.mcs@,
            go.pterms@,
            pl,
            f as u32,
            (#[trigger] go.zia@[f])@,
        )
}

/// The buffers of one net are placed: each on a site of the net, on the
/// one it asked for if it asked, no two on one site, and the macrocell
/// that drives a buffer sits on the pad of the buffer's site.
pub open spec fn bufs_done(
    reqs: Seq<BufferRequest>,
    locs: Seq<Option<AssignedLocation>>,
    pads: Seq<(u32, u32)>,
    mcs: Seq<OutputGraphMacrocell>,
) -> bool {
    &&& locs.len() == reqs.len()
    &&& forall|k: int|
        0 <= k < reqs.len() ==> ((#[trigger] locs[k]) matches Some(l) && l.fb == 0 && l.i
            < pads.len() && (reqs[k].index matches Some(i) ==> l.i == i) && mcs[reqs[k].input as int].loc
            == Some(AssignedLocation { fb: pads[l.i as int].0, i: pads[l.i as int].1 }))
    &&& forall|j: int, k: int| 0 <= j < k < locs.len() ==> #[trigger] locs[j] != #[trigger] locs[k]
}

/// A placement without violations, in which macrocells that named their
/// site fit, holds no pair of macrocells that the pairing rule keeps
/// apart.
proof fn lemma_pairs_fit(g: &InputGraph, pl: Seq<PARFBAssignment>, v: &PlacementViolations)
    requires
        chip_scored(g, pl, v),
        v.no_violation(),
        locked_pairs_fit(g, pl),
        placement_refs_ok(g, pl),
    ensures
        pairs_fit(g, pl),
{
    assert forall|fb: int, mc: int|
        #![trigger slot(pl, fb, mc, false)]
        #![trigger slot(pl, fb, mc, true)]
        0 <= fb < NUM_LOC_FBS && 0 <= mc < MCS_PER_FB implies !pair_clash(g, pl, fb, mc) by {
        if pair_clash(g, pl, fb, mc) {
            if movable(g, pl, fb, mc, false) {
                assert(v.score(fb, mc, false) > 0);
            }
            if movable(g, pl, fb, mc, true) {
                assert(v.score(fb, mc, true) > 0);
            }
        }
    }
}

/// Buffers that greedy placement has placed, driven by macrocells that
/// were pinned to their pads and are where they asked to be, are done.
proof fn lemma_bufs_done(
    reqs: Seq<BufferRequest>,
    locs: Seq<Option<AssignedLocation>>,
    pads: Seq<(u32, u32)>,
    started: Seq<InputGraphMacrocell>,
    g: &InputGraph,
    mcs: Seq<OutputGraphMacrocell>,
)
    requires
        crate::greedy::buffers_placed(reqs, locs, pads, started, g.mcs@),
        forall|k: int|
            0 <= k < reqs.len() ==> crate::greedy::driver_pinned(#[trigger] reqs[k], pads, started),
        forall|k: int| 0 <= k < reqs.len() ==> (#[trigger] reqs[k]).input < g.mcs@.len(),
        mc_locs_honored(g, mcs),
    ensures
        bufs_done(reqs, locs, pads, mcs),
{
    assert forall|k: int| 0 <= k < reqs.len() implies ((#[trigger] locs[k]) matches Some(l) && l.fb
        == 0 && l.i < pads.len() && (reqs[k].index matches Some(i) ==> l.i == i)
        && mcs[reqs[k].input as int].loc == Some(
        AssignedLocation { fb: pads[l.i as int].0, i: pads[l.i as int].1 },
    )) by {
        assert(crate::greedy::driver_pinned(reqs[k], pads, started));
        let m = reqs[k].input as int;
        let l = locs[k].unwrap();
        assert(g.mcs@[m].requested_loc == crate::bufplace::pinned_to(pads[l.i as int]));
    }
}

/// Whether place and route is sure to succeed: the netlist passes the
/// checks, has no global buffers and no product terms, its macrocells fit
/// easily, and there is at least one round.
pub open spec fn surely_succeeds(g: &InputGraph, device: &DeviceSpec, options: &XC2ParOptions) -> bool {
    &&& spec_sanity(g, device) == PARSanityResult::Passed
    &&& crate::greedy::fits_easily(g)
    &&& g.bufg_clks@.len() == 0
    &&& g.bufg_gts@.len() == 0
    &&& g.bufg_gsr@.len() == 0
    &&& g.pterms@.len() == 0
    &&& options.max_iter >= 1
}

/// Whether `g1` is the netlist `g` after the checks before placement:
/// the macrocells ask for what the global buffers that name a site pin
/// them to, and all else is as in `g`.
pub open spec fn checked(g: &InputGraph, g1: &InputGraph, device: &DeviceSpec) -> bool {
    &&& g1.bufg_clks@ == g.bufg_clks@
    &&& g1.bufg_gts@ == g.bufg_gts@
    &&& g1.bufg_gsr@ == g.bufg_gsr@
    &&& g1.mcs@.len() == g.mcs@.len()
    &&& forall|i: int| 0 <= i < g.mcs@.len() ==> (#[trigger] g1.mcs@[i]).same_logic(&g.mcs@[i])
    &&& Some(crate::sanity::locs_of(g1.mcs@)) == crate::sanity::propagate_all(g, device)
}

/// Whether the greedy placement of the netlist `g` fails after the
/// checks.
pub open spec fn place_fails(g: &InputGraph, device: &DeviceSpec) -> bool {
    exists|g1: InputGraph| #[trigger]
        checked(g, &g1, device) && !crate::greedy::greedy_possible(&g1, device)
}

/// Whether `t` holds the steps of the greedy placement of the netlist
/// `g` after the checks, which leave the netlist `g1`.
pub open spec fn greedy_found(
    g: &InputGraph,
    device: &DeviceSpec,
    g1: &InputGraph,
    t: crate::greedy::GreedyRun,
) -> bool {
    checked(g, g1, device) && crate::greedy::greedy_run(g1, device, t)
}

/// What the result of place and route is when the checks or the greedy
/// placement fail: what the checks found, or `FailureTooManyMCs` for the
/// greedy placement.
pub open spec fn early_failure(g: &InputGraph, device: &DeviceSpec) -> PARSanityResult {
    if spec_sanity(g, device) != PARSanityResult::Passed {
        spec_sanity(g, device)
    } else {
        PARSanityResult::FailureTooManyMCs
    }
}

/// Whether nothing is at fault in the placement `pl`: every block can be
/// assigned, and no site holds two macrocells that the pairing rule
/// keeps apart of which one may be moved.
pub open spec fn chip_fits(
    g: &InputGraph,
    device: &DeviceSpec,
    mcs: Seq<OutputGraphMacrocell>,
    pl: Seq<PARFBAssignment>,
) -> bool {
    &&& forall|f: int|
        0 <= f < NUM_LOC_FBS ==> crate::repair::fb_score(g, device, mcs, (#[trigger] pl[f])@) == 0
    &&& forall|f: int, m: int, p: bool|
        0 <= f < NUM_LOC_FBS && 0 <= m < MCS_PER_FB ==> !(pair_clash(g, pl, f, m)
            && #[trigger] movable(g, pl, f, m, p))
}

/// Whether the greedy placement of the netlist `g` succeeds after the
/// checks, leaves the netlist `g2`, and gives a placement in which
/// nothing is at fault.
pub open spec fn first_try_fits(g: &InputGraph, g2: &InputGraph, device: &DeviceSpec) -> bool {
    exists|g1: InputGraph, t: crate::greedy::GreedyRun, mcs: Seq<OutputGraphMacrocell>|
        #![trigger greedy_found(g, device, &g1, t), placement_matches(g2, mcs, t.placement)]
        greedy_found(g, device, &g1, t) && placement_matches(g2, mcs, t.placement) && chip_fits(
            g2,
            device,
            mcs,
            t.placement,
        )
}

/// Whether the netlist `g` and the output graph `go` hold what the
/// greedy placement `t` of the buffers left: the macrocells with the pins
/// that the buffers gave them, the buffers with the site indices that
/// were resolved, and the site of every buffer.
pub open spec fn buffers_recorded(
    t: crate::greedy::GreedyRun,
    before: &InputGraph,
    g: &InputGraph,
    go: &OutputGraph,
) -> bool {
    crate::greedy::run_recorded(t, before, g, go, t.placement)
}

/// The checks leave one netlist, as far as the greedy placement looks at
/// it.
proof fn lemma_checked_same(
    g: &InputGraph,
    a: &InputGraph,
    b: &InputGraph,
    device: &DeviceSpec,
    t: crate::greedy::GreedyRun,
)
    requires
        checked(g, a, device),
        checked(g, b, device),
        crate::greedy::greedy_run(a, device, t),
    ensures
        crate::greedy::greedy_run(b, device, t),
{
    assert forall|i: int| 0 <= i < g.mcs@.len() implies a.mcs@[i] == b.mcs@[i] by {
        assert(a.mcs@[i].same_logic(&g.mcs@[i]));
        assert(b.mcs@[i].same_logic(&g.mcs@[i]));
        assert(crate::sanity::locs_of(a.mcs@)[i] == crate::sanity::locs_of(b.mcs@)[i]);
    }
    assert(a.mcs@ =~= b.mcs@);
}

/// The locations of the macrocells are what the placement says.
proof fn lemma_locs_by_placement(
    g: &InputGraph,
    a: Seq<OutputGraphMacrocell>,
    b: Seq<OutputGraphMacrocell>,
    pl: Seq<PARFBAssignment>,
)
    requires
        placement_matches(g, a, pl),
        placement_matches(g, b, pl),
    ensures
        a == b,
{
    assert forall|i: int| 0 <= i < a.len() implies a[i] == b[i] by {
        let l = a[i].loc.unwrap();
        assert(slot(pl, l.fb as int, l.i as int, g.mcs@[i].is_pin()) == PARMCAssignment::MC(
            i as usize,
        ));
    }
    assert(a =~= b);
}

/// The checks leave a netlist without global buffers as it is.
proof fn lemma_checks_keep_easy_fit(before: &InputGraph, after: &InputGraph, device: &DeviceSpec)
    requires
        crate::greedy::fits_easily(before),
        before.bufg_clks@.len() == 0,
        before.bufg_gts@.len() == 0,
        before.bufg_gsr@.len() == 0,
        mcs_refine(before.mcs@, after.mcs@),
        Some(crate::sanity::locs_of(after.mcs@)) == crate::sanity::propagate_all(before, device),
    ensures
        crate::greedy::fits_easily(after),
{
    assert(crate::sanity::locs_of(after.mcs@) == crate::sanity::locs_of(before.mcs@));
    assert forall|i: int| 0 <= i < after.mcs@.len() implies (
    #[trigger] after.mcs@[i]).requested_loc is None && !after.mcs@[i].is_pin() by {
        assert(crate::sanity::locs_of(after.mcs@)[i] == crate::sanity::locs_of(before.mcs@)[i]);
        assert(after.mcs@[i].same_logic(&before.mcs@[i]));
        assert(before.mcs@[i].requested_loc is None);
    }
}

/// A placement of a netlist without pin inputs and without product terms
/// has no pair of macrocells that the pairing rule keeps apart, and every
/// block of it can be assigned.
proof fn lemma_easy_placement(
    g: &InputGraph,
    device: &DeviceSpec,
    mcs: Seq<OutputGraphMacrocell>,
    pl: Seq<PARFBAssignment>,
)
    requires
        g.wf(),
        g.pterms@.len() == 0,
        forall|i: int| 0 <= i < g.mcs@.len() ==> !(#[trigger] g.mcs@[i]).is_pin(),
        par_inv(g, mcs, pl),
    ensures
        forall|f: int| 0 <= f < NUM_LOC_FBS ==> #[trigger] crate::repair::no_clash_in(g, pl, f),
        forall|f: int|
            0 <= f < NUM_LOC_FBS ==> crate::repair::fb_assignable(g, device, mcs, (#[trigger] pl[f])@),
{
    lemma_inv_refs(g, mcs, pl);
    assert forall|f: int| 0 <= f < NUM_LOC_FBS implies #[trigger] crate::repair::no_clash_in(
        g,
        pl,
        f,
    ) by {
        assert forall|m: int| 0 <= m < MCS_PER_FB implies !#[trigger] pair_clash(g, pl, f, m) by {
            if let PARMCAssignment::MC(b) = slot(pl, f, m, true) {
                assert(g.mcs@[b as int].is_pin());
            }
        }
    }
    assert forall|f: int| 0 <= f < NUM_LOC_FBS implies crate::repair::fb_assignable(
        g,
        device,
        mcs,
        (#[trigger] pl[f])@,
    ) by {
        crate::repair::lemma_block_refs(g, pl, f);
        crate::repair::lemma_no_pterms_assignable(g, device, mcs, pl[f]@);
    }
}

/// One round of repair on a placement in which something is at fault.
///
/// A half at fault is drawn, with its score as its weight, and its
/// macrocell is tried on every legal site: the best placement that scores
/// less than before is kept. If there is none, the macrocell moves to a
/// legal site drawn at random, whatever that scores.
fn repair_round(
    g: &InputGraph,
    go: &mut OutputGraph,
    device_type: &DeviceSpec,
    prng: &mut rand::XorShiftRng,
    best_placement: &mut Vec<PARFBAssignment>,
    best_results: &mut Vec<Option<PARZIAAssignment>>,
    best_violations: &mut PlacementViolations,
    best_score: &mut u32,
    Ghost(best_locs): Ghost<Seq<OutputGraphMacrocell>>,
) -> (r: Ghost<Seq<OutputGraphMacrocell>>)
    requires
        g.wf(),
        device_type.wf(),
        old(go).shaped_like(g),
        best_state(
            g,
            device_type,
            old(go),
            old(best_placement)@,
            old(best_results)@,
            old(best_violations),
            *old(best_score),
            best_locs,
        ),
        !old(best_violations).no_violation(),
        *old(best_score) > 0,
    ensures
        go_kept(old(go), final(go)),
        best_state(
            g,
            device_type,
            final(go),
            final(best_placement)@,
            final(best_results)@,
            final(best_violations),
            *final(best_score),
            r@,
        ),
        round_from(g, device_type, old(best_placement)@, final(best_placement)@),
{
    let mut macrocell_placement = crate::outgraph::copy_placement(best_placement);
    sync_locs(&mut go.mcs, &macrocell_placement, Ghost(g), Ghost(best_locs));
    let mut locs_now: Ghost<Seq<OutputGraphMacrocell>> = Ghost(best_locs);
    let ghost round_pl = best_placement@;
    let ghost round_locs = best_locs;
    let ghost round_total = *best_score as int;

    // Draw a half at fault, with its score as its weight.
    let move_cand_rand = prng_gen_range(prng, 0, *best_score);
    let (move_fb, move_mc, move_pininput) = best_violations.pick(move_cand_rand);
    proof {
        assert(movable(g, best_placement@, move_fb as int, move_mc as int, move_pininput));
        lemma_inv_refs(g, go.mcs@, macrocell_placement@);
        best_violations.lemma_picks(
            g,
            device_type,
            round_locs,
            round_pl,
            move_cand_rand as int,
            move_fb as int,
            move_mc as int,
            move_pininput,
        );
        assert(round_total == crate::repair::chip_total(g, device_type, round_locs, round_pl));
    }
    let to_move_req_fb = match get_slot(
        &macrocell_placement,
        move_fb as usize,
        move_mc as usize,
        move_pininput,
    ) {
        PARMCAssignment::MC(mc_idx) => match g.mcs[mc_idx].requested_loc {
            Some(l) => Some(l.fb),
            None => None,
        },
        _ => None,
    };
    proof {
        let i = slot(macrocell_placement@, move_fb as int, move_mc as int, move_pininput)->MC_0;
        assert(go.mcs@[i as int].loc == Some(AssignedLocation { fb: move_fb, i: move_mc }));
    }

    // Look for the site with the fewest conflicts.
    let tried = try_all_sites(
        g,
        go,
        device_type,
        &mut macrocell_placement,
        best_placement,
        best_results,
        best_violations,
        best_score,
        Ghost(best_locs),
        move_fb,
        move_mc,
        move_pininput,
        to_move_req_fb,
    );
    let found_anything_better = tried.0;
    let all_cand_sites = tried.1;
    proof {
        locs_now@ = tried.2@;
    }

    if !found_anything_better && all_cand_sites.len() > 0 {
        // Nothing is better: move somewhere at random to get off the
        // plateau.
        let pick = prng_gen_index(prng, 0, all_cand_sites.len());
        let (cand_fb, cand_mc) = all_cand_sites[pick];
        let locs = forced_move(
            g,
            go,
            device_type,
            &mut macrocell_placement,
            best_placement,
            best_results,
            best_violations,
            best_score,
            move_fb,
            move_mc,
            move_pininput,
            to_move_req_fb,
            cand_fb,
            cand_mc,
        );
        proof {
            locs_now@ = locs@;
        }
    }
    proof {
        let f = move_fb as int;
        let m = move_mc as int;
        let p = move_pininput;
        assert(to_move_req_fb == named_fb(g, round_pl, f, m, p));
        if found_anything_better {
            let n = choose|n: int|
                0 <= n <= 32 && all_cand_sites@ == #[trigger] legal_sites(
                    g,
                    round_pl,
                    f,
                    p,
                    to_move_req_fb,
                    n,
                ) && (n < 32 ==> *best_score == 0);
            assert(sites_tried(
                g,
                device_type,
                round_pl,
                f,
                m,
                p,
                legal_sites(g, round_pl, f, p, named_fb(g, round_pl, f, m, p), n),
                true,
                *best_score as int,
                best_placement@,
                locs_now@,
            ));
            assert(improved_by(g, device_type, round_pl, round_total, f, m, p, best_placement@));
        } else {
            assert(all_cand_sites@ == legal_sites(g, round_pl, f, p, to_move_req_fb, 32));
            assert(forced_to(g, device_type, round_pl, round_total, f, m, p, best_placement@));
        }
        assert(crate::repair::fault_drawn(
            g,
            device_type,
            round_locs,
            round_pl,
            move_cand_rand as int,
            f,
            m,
            p,
        ));
        assert(round_from(g, device_type, round_pl, best_placement@));
    }
    locs_now
}

/// Place and route.
///
/// After the checks of `do_par_sanity_check` and the greedy initial
/// placement, up to `options.max_iter` rounds of repair follow. A round
/// begins by scoring the best placement found so far. If nothing is at
/// fault, the placement is committed and the output graph returned. Else
/// one half at fault is drawn, with its score as its weight, and its
/// macrocell is tried on every legal site; the best placement that scores
/// better than before is kept. If none does, the macrocell moves to a
/// legal site drawn at random.
///
/// The result is `FailureSanity` with what the checks found, or with
/// `FailureTooManyMCs` if greedy placement found no place for something,
/// and `FailureIterationsExceeded` if the rounds ran out, or if nothing is
/// at fault and yet a block cannot be assigned.
///
/// Which placement the rounds end with depends on the numbers drawn. What
/// does not depend on them is pinned: the failures before the rounds;
/// where the buffers are; and the whole result where nothing is at fault
/// in the greedy placement, which is then the placement of the result.
/// Whatever is drawn, the placement of the result is one that rounds of
/// repair lead to from the greedy placement, as `reaches` says: fewer
/// rounds than `options.max_iter` before a success, and all of them
/// before a failure, unless the rounds end early at a placement in which
/// nothing is at fault and yet a block cannot be assigned.
#[verifier::rlimit(30)]
pub fn do_par(g: &mut InputGraph, device_type: &DeviceSpec, options: &XC2ParOptions) -> (r: PARResult)
    requires
        old(g).wf(),
        device_type.wf(),
        seed_ok(options.rng_seed@),
    ensures
        final(g).wf(),
        mcs_refine(old(g).mcs@, final(g).mcs@),
        final(g).pterms == old(g).pterms,
        r is FailureSanity <==> spec_sanity(old(g), device_type) != PARSanityResult::Passed
            || place_fails(old(g), device_type),
        r matches PARResult::FailureSanity(x) ==> x == early_failure(old(g), device_type),
        options.max_iter == 0 ==> !(r is Success),
        surely_succeeds(old(g), device_type, options) ==> r is Success,
        spec_sanity(old(g), device_type) == PARSanityResult::Passed && options.max_iter >= 1
            && first_try_fits(old(g), final(g), device_type) ==> r is Success,
        r matches PARResult::Success(go) ==> forall|g1: InputGraph, t: crate::greedy::GreedyRun| #[trigger]
            greedy_found(old(g), device_type, &g1, t) ==> buffers_recorded(
                t,
                old(g),
                final(g),
                &go,
            ),
        r matches PARResult::Success(go) ==> forall|
            g1: InputGraph,
            t: crate::greedy::GreedyRun,
            mcs: Seq<OutputGraphMacrocell>,
        |
            #![trigger greedy_found(old(g), device_type, &g1, t), placement_matches(final(g), mcs, t.placement)]
            greedy_found(old(g), device_type, &g1, t) && placement_matches(
                final(g),
                mcs,
                t.placement,
            ) && chip_fits(final(g), device_type, mcs, t.placement) ==> go.mcs@ == mcs && par_done(
                final(g),
                device_type,
                &go,
                t.placement,
            ),
        r matches PARResult::Success(go) ==> forall|g1: InputGraph, t: crate::greedy::GreedyRun| #[trigger]
            greedy_found(old(g), device_type, &g1, t) ==> exists|k: int, pl: Seq<PARFBAssignment>|
                0 <= k < options.max_iter && #[trigger] reaches(
                    final(g),
                    device_type,
                    t.placement,
                    pl,
                    k,
                ) && par_done(final(g), device_type, &go, pl),
        r is FailureIterationsExceeded ==> forall|g1: InputGraph, t: crate::greedy::GreedyRun| #[trigger]
            greedy_found(old(g), device_type, &g1, t) ==> exists|k: int, pl: Seq<PARFBAssignment>|
                0 <= k <= options.max_iter && #[trigger] reaches(
                    final(g),
                    device_type,
                    t.placement,
                    pl,
                    k,
                ) && (k < options.max_iter ==> stuck(final(g), device_type, pl)),
        r matches PARResult::Success(go) ==> {
            &&& go.shaped_like(final(g))
            &&& exists|pl: Seq<PARFBAssignment>| par_done(final(g), device_type, &go, pl)
            &&& bufs_done(
                clk_requests(old(g).bufg_clks@),
                clk_sites(go.bufg_clks@),
                device_type.gck@,
                go.mcs@,
            )
            &&& bufs_done(
                gts_requests(old(g).bufg_gts@),
                gts_sites(go.bufg_gts@),
                device_type.gts@,
                go.mcs@,
            )
            &&& bufs_done(
                gsr_requests(old(g).bufg_gsr@),
                gsr_sites(go.bufg_gsr@),
                seq![device_type.gsr],
                go.mcs@,
            )
        },
{
    let mut go = OutputGraph::from_input_graph(g);

    let sanity_check = do_par_sanity_check(g, device_type);
    if sanity_check != PARSanityResult::Passed {
        return PARResult::FailureSanity(sanity_check);
    }
    let ghost g1 = *g;
    let ghost easy = surely_succeeds(old(g), device_type, options);
    proof {
        if easy {
            lemma_checks_keep_easy_fit(old(g), g, device_type);
        }
        assert(checked(old(g), &g1, device_type));
    }

    let mut prng = prng_from_seed(options.rng_seed);

    let macrocell_placement = greedy_initial_placement(g, &mut go, device_type);
    proof {
        crate::greedy::lemma_mcs_refine_trans(old(g).mcs@, g1.mcs@, g.mcs@);
    }
    let macrocell_placement = match macrocell_placement {
        Some(p) => p,
        None => {
            proof {
                assert(!crate::greedy::greedy_possible(&g1, device_type));
                assert forall|a: InputGraph, t: crate::greedy::GreedyRun| !#[trigger] greedy_found(
                    old(g),
                    device_type,
                    &a,
                    t,
                ) by {
                    if greedy_found(old(g), device_type, &a, t) {
                        lemma_checked_same(old(g), &a, &g1, device_type, t);
                    }
                }
            }
            return PARResult::FailureSanity(PARSanityResult::FailureTooManyMCs);
        },
    };
    let ghost go1 = go;
    let ghost run = choose|t: crate::greedy::GreedyRun| #[trigger]
        crate::greedy::greedy_run(&g1, device_type, t);
    proof {
        assert(crate::greedy::greedy_possible(&g1, device_type));
        assert forall|a: InputGraph| #[trigger]
            checked(old(g), &a, device_type) implies crate::greedy::greedy_possible(
            &a,
            device_type,
        ) by {
            lemma_checked_same(old(g), &g1, &a, device_type, run);
        }
        assert(!place_fails(old(g), device_type));
        assert forall|a: InputGraph, t: crate::greedy::GreedyRun| #[trigger]
            greedy_found(old(g), device_type, &a, t) implies crate::greedy::run_recorded(
            t,
            &g1,
            g,
            &go,
            macrocell_placement@,
        ) by {
            lemma_checked_same(old(g), &a, &g1, device_type, t);
        }
    }
    let ghost placement0 = macrocell_placement@;
    proof {
        assert(g1.bufg_clks == old(g).bufg_clks);
        assert forall|k: int| 0 <= k < clk_requests(g1.bufg_clks@).len() implies (
        #[trigger] clk_requests(g1.bufg_clks@)[k]).input < g.mcs@.len() by {
            assert(g1.bufg_clks@[k].input < g1.mcs@.len());
        }
        assert forall|k: int| 0 <= k < gts_requests(g1.bufg_gts@).len() implies (
        #[trigger] gts_requests(g1.bufg_gts@)[k]).input < g.mcs@.len() by {
            assert(g1.bufg_gts@[k].input < g1.mcs@.len());
        }
        assert forall|k: int| 0 <= k < gsr_requests(g1.bufg_gsr@).len() implies (
        #[trigger] gsr_requests(g1.bufg_gsr@)[k]).input < g.mcs@.len() by {
            assert(g1.bufg_gsr@[k].input < g1.mcs@.len());
        }
    }

    // Score what greedy placement gave.
    let mut best_placement = crate::outgraph::copy_placement(&macrocell_placement);
    proof {
        lemma_inv_refs(g, go.mcs@, macrocell_placement@);
    }
    proof {
        if easy {
            assert forall|i: int| 0 <= i < g.mcs@.len() implies !(#[trigger] g.mcs@[i]).is_pin() by {
                assert(g.mcs@[i].same_logic(&g1.mcs@[i]));
                assert(!g1.mcs@[i].is_pin());
            }
            lemma_easy_placement(g, device_type, go.mcs@, macrocell_placement@);
        }
    }
    let ghost mcs_before = go.mcs@;
    let scored = try_assign_entire_chip(g, &mut go, &macrocell_placement, device_type);
    let mut best_par_results_per_fb = scored.0;
    let mut best_placement_violations = scored.1;
    let mut best_placement_violations_score = scored.2;
    let mut best_locs: Ghost<Seq<OutputGraphMacrocell>> = Ghost(go.mcs@);
    let ghost fits = options.max_iter >= 1 && first_try_fits(old(g), g, device_type);
    proof {
        if fits {
            let (a, t, mcs) = choose|
                a: InputGraph,
                t: crate::greedy::GreedyRun,
                mcs: Seq<OutputGraphMacrocell>,
            |
                #![trigger greedy_found(old(g), device_type, &a, t), placement_matches(g, mcs, t.placement)]
                greedy_found(old(g), device_type, &a, t) && placement_matches(g, mcs, t.placement)
                    && chip_fits(g, device_type, mcs, t.placement);
            lemma_checked_same(old(g), &a, &g1, device_type, t);
            assert(crate::greedy::run_recorded(t, &g1, g, &go1, macrocell_placement@));
            lemma_locs_by_placement(g, mcs, mcs_before, macrocell_placement@);
            assert forall|f: int| 0 <= f < best_par_results_per_fb@.len() implies (
            #[trigger] best_par_results_per_fb@[f]) is Some by {
                assert(crate::repair::fb_score(g, device_type, mcs_before, macrocell_placement@[f]@)
                    == 0);
            }
            assert forall|f: int, m: int, p: bool|
                0 <= f < NUM_LOC_FBS && 0 <= m < MCS_PER_FB implies #[trigger] best_placement_violations.score(
                f,
                m,
                p,
            ) == 0 by {
                assert(crate::repair::fb_score(g, device_type, mcs_before, macrocell_placement@[f]@)
                    == 0);
                assert(!(pair_clash(g, macrocell_placement@, f, m) && movable(
                    g,
                    macrocell_placement@,
                    f,
                    m,
                    p,
                )));
            }
        }
        if easy {
            assert forall|f: int| 0 <= f < best_par_results_per_fb@.len() implies (
            #[trigger] best_par_results_per_fb@[f]) is Some by {
                assert(crate::repair::fb_assignable(
                    g,
                    device_type,
                    mcs_before,
                    macrocell_placement@[f]@,
                ));
            }
        }
    }

    let mut iter_count: u32 = 0;
    while iter_count < options.max_iter
        invariant
            iter_count <= options.max_iter,
            easy || fits ==> iter_count == 0 && options.max_iter >= 1
                && best_placement_violations.no_violation() && all_assigned(
                best_par_results_per_fb@,
            ),
            easy == surely_succeeds(old(g), device_type, options),
            fits == (options.max_iter >= 1 && first_try_fits(old(g), g, device_type)),
            !place_fails(old(g), device_type),
            forall|a: InputGraph, t: crate::greedy::GreedyRun| #[trigger]
                greedy_found(old(g), device_type, &a, t) ==> crate::greedy::run_recorded(
                    t,
                    &g1,
                    g,
                    &go1,
                    placement0,
                ),
            iter_count == 0 ==> best_placement@ == placement0 && best_locs@ == mcs_before,
            reaches(g, device_type, placement0, best_placement@, iter_count as int),
            g1.mcs@.len() == old(g).mcs@.len(),
            g.wf(),
            device_type.wf(),
            go.shaped_like(g),
            go.zia@.len() == 0,
            go_kept(&go1, &go),
            mcs_refine(old(g).mcs@, g.mcs@),
            g.pterms == old(g).pterms,
            spec_sanity(old(g), device_type) == PARSanityResult::Passed,
            g1.bufg_clks == old(g).bufg_clks,
            g1.bufg_gts == old(g).bufg_gts,
            g1.bufg_gsr == old(g).bufg_gsr,
            crate::sanity::drivers_pinned(&g1, device_type),
            crate::greedy::buffers_placed(
                clk_requests(g1.bufg_clks@),
                clk_sites(go1.bufg_clks@),
                device_type.gck@,
                g1.mcs@,
                g.mcs@,
            ),
            crate::greedy::buffers_placed(
                gts_requests(g1.bufg_gts@),
                gts_sites(go1.bufg_gts@),
                device_type.gts@,
                g1.mcs@,
                g.mcs@,
            ),
            crate::greedy::buffers_placed(
                gsr_requests(g1.bufg_gsr@),
                gsr_sites(go1.bufg_gsr@),
                seq![device_type.gsr],
                g1.mcs@,
                g.mcs@,
            ),
            forall|k: int|
                0 <= k < clk_requests(g1.bufg_clks@).len() ==> (#[trigger] clk_requests(
                    g1.bufg_clks@,
                )[k]).input < g.mcs@.len(),
            forall|k: int|
                0 <= k < gts_requests(g1.bufg_gts@).len() ==> (#[trigger] gts_requests(
                    g1.bufg_gts@,
                )[k]).input < g.mcs@.len(),
            forall|k: int|
                0 <= k < gsr_requests(g1.bufg_gsr@).len() ==> (#[trigger] gsr_requests(
                    g1.bufg_gsr@,
                )[k]).input < g.mcs@.len(),
            best_state(
                g,
                device_type,
                &go,
                best_placement@,
                best_par_results_per_fb@,
                &best_placement_violations,
                best_placement_violations_score,
                best_locs@,
            ),
        decreases options.max_iter - iter_count,
    {
        if best_placement_violations.is_empty() {
            // Nothing is at fault.
            let r0 = best_par_results_per_fb[0];
            let r1 = best_par_results_per_fb[1];
            let r2 = best_par_results_per_fb[2];
            match (r0, r1, r2) {
                (Some(zia0), Some(zia1), Some(_)) => {
                    let ghost before = go;
                    go.zia.push(zia0);
                    go.zia.push(zia1);
                    proof {
                        let pl = best_placement@;
                        assert(all_assigned(best_par_results_per_fb@));
                        assert(chip_done(g, device_type, &before, pl, best_par_results_per_fb@));
                        lemma_inv_refs(g, go.mcs@, pl);
                        lemma_pairs_fit(g, pl, &best_placement_violations);
                        assert forall|f: int| 0 <= f < NUM_FBS implies fb_done(
                            g,
                            device_type,
                            go.mcs@,
                            go.pterms@,
                            pl,
                            f as u32,
                            (#[trigger] go.zia@[f])@,
                        ) by {
                            assert(best_par_results_per_fb@[f] is Some);
                        }
                        assert(par_done(g, device_type, &go, pl));
                        lemma_bufs_done(
                            clk_requests(g1.bufg_clks@),
                            clk_sites(go.bufg_clks@),
                            device_type.gck@,
                            g1.mcs@,
                            g,
                            go.mcs@,
                        );
                        lemma_bufs_done(
                            gts_requests(g1.bufg_gts@),
                            gts_sites(go.bufg_gts@),
                            device_type.gts@,
                            g1.mcs@,
                            g,
                            go.mcs@,
                        );
                        lemma_bufs_done(
                            gsr_requests(g1.bufg_gsr@),
                            gsr_sites(go.bufg_gsr@),
                            seq![device_type.gsr],
                            g1.mcs@,
                            g,
                            go.mcs@,
                        );
                    }
                    proof {
                        assert forall|a: InputGraph, t: crate::greedy::GreedyRun| #[trigger]
                            greedy_found(old(g), device_type, &a, t) implies buffers_recorded(
                            t,
                            old(g),
                            g,
                            &go,
                        ) && exists|k: int, pl: Seq<PARFBAssignment>|
                            0 <= k < options.max_iter && #[trigger] reaches(
                                g,
                                device_type,
                                t.placement,
                                pl,
                                k,
                            ) && par_done(g, device_type, &go, pl) by {
                            assert(crate::greedy::run_recorded(t, &g1, g, &go1, placement0));
                            assert(reaches(
                                g,
                                device_type,
                                t.placement,
                                best_placement@,
                                iter_count as int,
                            ));
                        }
                        assert forall|
                            a: InputGraph,
                            t: crate::greedy::GreedyRun,
                            mcs: Seq<OutputGraphMacrocell>,
                        |
                            #![trigger greedy_found(old(g), device_type, &a, t), placement_matches(g, mcs, t.placement)]
                            greedy_found(old(g), device_type, &a, t) && placement_matches(
                                g,
                                mcs,
                                t.placement,
                            ) && chip_fits(g, device_type, mcs, t.placement) implies go.mcs@ == mcs
                            && par_done(g, device_type, &go, t.placement) by {
                            assert(crate::greedy::run_recorded(t, &g1, g, &go1, placement0));
                            assert(first_try_fits(old(g), g, device_type));
                            assert(fits);
                            lemma_locs_by_placement(g, mcs, mcs_before, placement0);
                        }
                    }
                    return PARResult::Success(go);
                },
                _ => {
                    // A block cannot be assigned, and nothing can be moved
                    // to mend it.
                    proof {
                        if easy || fits {
                            assert(best_par_results_per_fb@[0] is Some);
                            assert(best_par_results_per_fb@[1] is Some);
                            assert(best_par_results_per_fb@[2] is Some);
                        }
                        let pl = best_placement@;
                        let f = if r0 is None {
                            0int
                        } else if r1 is None {
                            1int
                        } else {
                            2int
                        };
                        assert(best_par_results_per_fb@[f] is None);
                        assert(crate::repair::fb_score(g, device_type, best_locs@, pl[f]@) != 0);
                        assert(placement_matches(g, best_locs@, pl));
                        assert(stuck(g, device_type, pl));
                        assert forall|a: InputGraph, t: crate::greedy::GreedyRun| #[trigger]
                            greedy_found(old(g), device_type, &a, t) implies exists|
                            k: int,
                            pl: Seq<PARFBAssignment>,
                        |
                            0 <= k <= options.max_iter && #[trigger] reaches(
                                g,
                                device_type,
                                t.placement,
                                pl,
                                k,
                            ) && (k < options.max_iter ==> stuck(g, device_type, pl)) by {
                            assert(crate::greedy::run_recorded(t, &g1, g, &go1, placement0));
                            assert(reaches(g, device_type, t.placement, pl, iter_count as int));
                        }
                    }
                    return PARResult::FailureIterationsExceeded;
                },
            }
        }
        let ghost round_pl = best_placement@;
        let locs = repair_round(
            g,
            &mut go,
            device_type,
            &mut prng,
            &mut best_placement,
            &mut best_par_results_per_fb,
            &mut best_placement_violations,
            &mut best_placement_violations_score,
            Ghost(best_locs@),
        );
        proof {
            best_locs@ = locs@;
            assert(reaches(g, device_type, placement0, best_placement@, iter_count + 1));
        }
        iter_count += 1;
    }
    proof {
        assert forall|a: InputGraph, t: crate::greedy::GreedyRun| #[trigger]
            greedy_found(old(g), device_type, &a, t) implies exists|
            k: int,
            pl: Seq<PARFBAssignment>,
        |
            0 <= k <= options.max_iter && #[trigger] reaches(g, device_type, t.placement, pl, k) && (k
                < options.max_iter ==> stuck(g, device_type, pl)) by {
            assert(crate::greedy::run_recorded(t, &g1, g, &go1, placement0));
            assert(reaches(g, device_type, t.placement, best_placement@, iter_count as int));
        }
    }

    PARResult::FailureIterationsExceeded
}

/// After a successful place and route a product term that asks for an
/// AND term sits on it: if block `fb_i` of the placement is done, the
/// product term `p` is one that the block uses, its location is in the
/// block, and it asks for site `l`, then `l` is the index of its
/// location.
pub proof fn lemma_pterm_loc_honored(
    g: &InputGraph,
    device: &DeviceSpec,
    go: &OutputGraph,
    pl: Seq<PARFBAssignment>,
    fb_i: u32,
    zia: Seq<crate::zia::XC2ZIAInput>,
    k: int,
)
    requires
        fb_i < NUM_LOC_FBS,
        fb_done(g, device, go.mcs@, go.pterms@, pl, fb_i, zia),
        0 <= k < crate::andterms::fb_uses(g, pl[fb_i as int]@).len(),
        crate::repair::at_home(go.pterms@, fb_i, crate::andterms::fb_uses(g, pl[fb_i as int]@)[k].0),
        crate::andterms::pterm_loc(g, crate::andterms::fb_uses(g, pl[fb_i as int]@)[k].0) is Some,
    ensures
        Some(go.pterms@[crate::andterms::fb_uses(g, pl[fb_i as int]@)[k].0 as int].loc->0.i)
            == crate::andterms::pterm_loc(g, crate::andterms::fb_uses(g, pl[fb_i as int]@)[k].0),
{
    let uses = crate::andterms::fb_uses(g, pl[fb_i as int]@);
    let p = uses[k].0;
    let l = go.pterms@[p as int].loc->0;
    assert(crate::repair::pterm_homed(g, pl, go.pterms@, fb_i, p));
    assert(crate::andterms::site_allowed(uses, p, l.i));
    let k2 = choose|k2: int|
        0 <= k2 < uses.len() && (#[trigger] uses[k2]).0 == p && uses[k2].1.contains(l.i);
    crate::andterms::lemma_fb_uses_respect(g, pl[fb_i as int]@);
    assert(crate::andterms::respects_loc(g, uses[k2]));
    let want = crate::andterms::pterm_loc(g, p)->0;
    assert(uses[k2].1 == seq![want]);
    let j = choose|j: int| 0 <= j < uses[k2].1.len() && uses[k2].1[j] == l.i;
    assert(seq![want][j] == want);
}

/// After a successful place and route no two macrocells sit in the same
/// half of the same site.
pub proof fn lemma_sites_distinct(
    g: &InputGraph,
    device: &DeviceSpec,
    go: &OutputGraph,
    pl: Seq<PARFBAssignment>,
    i: int,
    j: int,
)
    requires
        g.wf(),
        par_done(g, device, go, pl),
        0 <= i < g.mcs@.len(),
        0 <= j < g.mcs@.len(),
        i != j,
        g.mcs@[i].is_pin() == g.mcs@[j].is_pin(),
    ensures
        go.mcs@[i].loc != go.mcs@[j].loc,
{
    let li = go.mcs@[i].loc->0;
    let lj = go.mcs@[j].loc->0;
    assert(slot(pl, li.fb as int, li.i as int, g.mcs@[i].is_pin()) == PARMCAssignment::MC(i as usize));
    assert(slot(pl, lj.fb as int, lj.i as int, g.mcs@[j].is_pin()) == PARMCAssignment::MC(j as usize));
}

/// After a successful place and route two macrocells that share a site
/// obey the pairing rule.
pub proof fn lemma_sharing_macrocells_pair(
    g: &InputGraph,
    device: &DeviceSpec,
    go: &OutputGraph,
    pl: Seq<PARFBAssignment>,
    i: int,
    j: int,
)
    requires
        g.wf(),
        par_done(g, device, go, pl),
        0 <= i < g.mcs@.len(),
        0 <= j < g.mcs@.len(),
        !g.mcs@[i].is_pin(),
        g.mcs@[j].is_pin(),
        go.mcs@[i].loc == go.mcs@[j].loc,
    ensures
        can_pair(&g.mcs@[i], &g.mcs@[j]),
{
    let l = go.mcs@[i].loc->0;
    assert(slot(pl, l.fb as int, l.i as int, false) == PARMCAssignment::MC(i as usize));
    assert(slot(pl, l.fb as int, l.i as int, true) == PARMCAssignment::MC(j as usize));
    assert(!pair_clash(g, pl, l.fb as int, l.i as int));
}

} // verus!
