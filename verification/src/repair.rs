//! Scoring of a chip placement, function block by function block, and
//! the min-conflicts loop that repairs a placement until every block can
//! be assigned.

use vstd::prelude::*;
use crate::andterms::andterms_assigned;
use crate::andterms::block_refs_ok;
use crate::andterms::fb_uses;
use crate::andterms::logic_mc;
use crate::andterms::try_assign_andterms;
use crate::andterms::AndTermAssignmentResult;
use crate::device::DeviceSpec;
use crate::mc::MCS_PER_FB;
use crate::netlist::InputGraph;
use crate::netlist::InputGraphPTermInput;
use crate::netlist::NUM_LOC_FBS;
use crate::outgraph::can_pair;
use crate::outgraph::mcs_idx_can_be_paired;
use crate::outgraph::slot;
use crate::outgraph::OutputGraph;
use crate::outgraph::OutputGraphMacrocell;
use crate::outgraph::OutputGraphPTerm;
use crate::outgraph::PARFBAssignLoc;
use crate::outgraph::PARFBAssignment;
use crate::outgraph::PARMCAssignment;
use crate::outgraph::PARZIAAssignment;
use crate::zia::XC2ZIAInput;
use crate::zia::INPUTS_PER_ANDTERM;
use crate::ziaroute::fb_inputs;
use crate::ziaroute::input_choice;
use crate::ziaroute::pterm_rows_ok;
use crate::ziaroute::fb_pterms;
use crate::ziaroute::mcs_placed;
use crate::ziaroute::try_assign_zia;
use crate::ziaroute::zia_routed;
use crate::ziaroute::ZIAAssignmentResult;

verus! {

/// Number of halves of sites that a chip placement has.
pub const NUM_SLOTS: usize = 96;

/// The highest score that a half of a site can get.
pub const MAX_SLOT_SCORE: u32 = 4000000;

/// The position of a half of a site among all halves.
pub open spec fn slot_index(fb: int, mc: int, pin: bool) -> int {
    (fb * 16 + mc) * 2 + (if pin {
        1int
    } else {
        0int
    })
}

/// The position among all halves of the half that an entry speaks of.
pub open spec fn entry_index(e: (PARFBAssignLoc, u32)) -> int {
    slot_index(e.0.0 as int, e.0.1 as int, e.0.2)
}

/// How many of the first `n` scores are not 0.
pub open spec fn count_faults(scores: Seq<u32>, n: int) -> int
    decreases n,
{
    if n <= 0 {
        0
    } else {
        count_faults(scores, n - 1) + (if scores[n - 1] != 0 {
            1int
        } else {
            0int
        })
    }
}

/// The sum of the first `n` scores.
pub open spec fn sum_scores(scores: Seq<u32>, n: int) -> int
    decreases n,
{
    if n <= 0 {
        0
    } else {
        sum_scores(scores, n - 1) + scores[n - 1]
    }
}

/// The violations of a chip placement: for every half of a site a score
/// that says how much the macrocell in it stands in the way. A score of
/// zero means that the half is not at fault.
#[derive(Debug)]
pub struct PlacementViolations {
    scores: Vec<u32>,
}

impl PlacementViolations {
    /// There is one score for every half of a site, and no score is
    /// above the highest that a half can get.
    pub closed spec fn wf(&self) -> bool {
        &&& self.scores@.len() == NUM_SLOTS
        &&& forall|i: int| 0 <= i < NUM_SLOTS ==> #[trigger] self.scores@[i] <= MAX_SLOT_SCORE
    }

    /// The score of the half `pin` of site `mc` of block `fb`.
    pub closed spec fn score(&self, fb: int, mc: int, pin: bool) -> u32 {
        self.scores@[slot_index(fb, mc, pin)]
    }

    /// The sum of all scores.
    pub closed spec fn total(&self) -> int {
        sum_scores(self.scores@, NUM_SLOTS as int)
    }

    /// Whether no half is at fault.
    pub open spec fn no_violation(&self) -> bool {
        forall|fb: int, mc: int, pin: bool|
            0 <= fb < NUM_LOC_FBS && 0 <= mc < MCS_PER_FB ==> #[trigger] self.score(fb, mc, pin)
                == 0
    }

    /// No violations.
    pub fn new() -> (r: Self)
        ensures
            r.wf(),
            r.no_violation(),
    {
        let mut scores: Vec<u32> = Vec::new();
        let mut i: usize = 0;
        while i < NUM_SLOTS
            invariant
                i <= NUM_SLOTS,
                scores@.len() == i,
                forall|k: int| 0 <= k < i ==> scores@[k] == 0,
            decreases NUM_SLOTS - i,
        {
            scores.push(0);
            i += 1;
        }
        PlacementViolations { scores }
    }

    /// The score of a half.
    pub fn get(&self, fb: u32, mc: u32, pin: bool) -> (r: u32)
        requires
            self.wf(),
            fb < NUM_LOC_FBS,
            mc < MCS_PER_FB,
        ensures
            r == self.score(fb as int, mc as int, pin),
            r <= MAX_SLOT_SCORE,
    {
        let i = (fb as usize * 16 + mc as usize) * 2 + (if pin { 1 } else { 0 });
        self.scores[i]
    }

    /// Sets the score of a half and leaves every other score as it was.
    pub fn set(&mut self, fb: u32, mc: u32, pin: bool, v: u32)
        requires
            old(self).wf(),
            fb < NUM_LOC_FBS,
            mc < MCS_PER_FB,
            v <= MAX_SLOT_SCORE,
        ensures
            final(self).wf(),
            final(self).score(fb as int, mc as int, pin) == v,
            forall|f: int, m: int, p: bool|
                0 <= f < NUM_LOC_FBS && 0 <= m < MCS_PER_FB && !(f == fb && m == mc && p == pin)
                    ==> #[trigger] final(self).score(f, m, p) == old(self).score(f, m, p),
    {
        let i = (fb as usize * 16 + mc as usize) * 2 + (if pin { 1 } else { 0 });
        self.scores[i] = v;
    }

    /// Whether no half is at fault.
    pub fn is_empty(&self) -> (r: bool)
        requires
            self.wf(),
        ensures
            r == self.no_violation(),
            r == (self.total() == 0),
    {
        let mut i: usize = 0;
        while i < NUM_SLOTS
            invariant
                i <= NUM_SLOTS,
                self.wf(),
                forall|k: int| 0 <= k < i ==> self.scores@[k] == 0,
                sum_scores(self.scores@, i as int) == 0,
            decreases NUM_SLOTS - i,
        {
            if self.scores[i] != 0 {
                proof {
                    let fb = (i / 32) as int;
                    let mc = ((i % 32) / 2) as int;
                    let pin = i % 2 == 1;
                    assert(slot_index(fb, mc, pin) == i);
                    assert(self.score(fb, mc, pin) != 0);
                    lemma_sum_positive(self.scores@, i as int, NUM_SLOTS as int);
                }
                return false;
            }
            i += 1;
        }
        true
    }

    /// How many halves are at fault.
    pub closed spec fn faults(&self) -> int {
        count_faults(self.scores@, NUM_SLOTS as int)
    }

    /// The number of halves at fault.
    pub fn len(&self) -> (r: usize)
        requires
            self.wf(),
        ensures
            r == self.faults(),
            (r == 0) == self.no_violation(),
            r <= NUM_SLOTS,
    {
        let mut count: usize = 0;
        let mut i: usize = 0;
        while i < NUM_SLOTS
            invariant
                i <= NUM_SLOTS,
                self.wf(),
                count <= i,
                count == count_faults(self.scores@, i as int),
                (count == 0) == (forall|k: int| 0 <= k < i ==> self.scores@[k] == 0),
            decreases NUM_SLOTS - i,
        {
            if self.scores[i] != 0 {
                count += 1;
            }
            i += 1;
        }
        proof {
            if count != 0 {
                let k = choose|k: int| 0 <= k < NUM_SLOTS && self.scores@[k] != 0;
                let fb = k / 32;
                let mc = (k % 32) / 2;
                let pin = k % 2 == 1;
                assert(slot_index(fb, mc, pin) == k);
                assert(self.score(fb, mc, pin) != 0);
            }
        }
        count
    }

    /// The sum of all scores.
    pub fn sum(&self) -> (r: u32)
        requires
            self.wf(),
        ensures
            r == self.total(),
    {
        let mut total: u32 = 0;
        let mut i: usize = 0;
        while i < NUM_SLOTS
            invariant
                i <= NUM_SLOTS,
                self.wf(),
                total == sum_scores(self.scores@, i as int),
                total <= i * MAX_SLOT_SCORE,
            decreases NUM_SLOTS - i,
        {
            assert(self.scores@[i as int] <= MAX_SLOT_SCORE);
            total = total + self.scores[i];
            i += 1;
        }
        total
    }


    /// The sum of the scores is the score of the placement that they
    /// score.
    pub proof fn lemma_total(
        &self,
        g: &InputGraph,
        device: &DeviceSpec,
        mcs: Seq<OutputGraphMacrocell>,
        pl: Seq<PARFBAssignment>,
    )
        requires
            self.wf(),
            forall|f: int, m: int, p: bool|
                0 <= f < NUM_LOC_FBS && 0 <= m < MCS_PER_FB ==> #[trigger] self.score(f, m, p)
                    == slot_scored(g, device, mcs, pl, f, m, p, 0),
        ensures
            self.total() == chip_total(g, device, mcs, pl),
    {
        self.lemma_total_upto(g, device, mcs, pl, NUM_SLOTS as int);
    }

    /// The half that a number picks is the half that the number draws
    /// from the halves at fault in the placement that the scores score.
    pub proof fn lemma_picks(
        &self,
        g: &InputGraph,
        device: &DeviceSpec,
        mcs: Seq<OutputGraphMacrocell>,
        pl: Seq<PARFBAssignment>,
        d: int,
        f: int,
        m: int,
        p: bool,
    )
        requires
            self.wf(),
            0 <= f < NUM_LOC_FBS,
            0 <= m < MCS_PER_FB,
            self.picks(d, f, m, p),
            forall|f: int, m: int, p: bool|
                0 <= f < NUM_LOC_FBS && 0 <= m < MCS_PER_FB ==> #[trigger] self.score(f, m, p)
                    == slot_scored(g, device, mcs, pl, f, m, p, 0),
        ensures
            fault_drawn(g, device, mcs, pl, d, f, m, p),
    {
        self.lemma_total_upto(g, device, mcs, pl, slot_index(f, m, p));
        self.lemma_total_upto(g, device, mcs, pl, slot_index(f, m, p) + 1);
    }

    /// The sum of the first scores is the sum of what scoring gives the
    /// first halves.
    proof fn lemma_total_upto(
        &self,
        g: &InputGraph,
        device: &DeviceSpec,
        mcs: Seq<OutputGraphMacrocell>,
        pl: Seq<PARFBAssignment>,
        n: int,
    )
        requires
            self.wf(),
            0 <= n <= NUM_SLOTS,
            forall|f: int, m: int, p: bool|
                0 <= f < NUM_LOC_FBS && 0 <= m < MCS_PER_FB ==> #[trigger] self.score(f, m, p)
                    == slot_scored(g, device, mcs, pl, f, m, p, 0),
        ensures
            sum_scores(self.scores@, n) == chip_total_upto(g, device, mcs, pl, n),
        decreases n,
    {
        if n > 0 {
            self.lemma_total_upto(g, device, mcs, pl, n - 1);
            let i = n - 1;
            assert(slot_index(i / 32, (i % 32) / 2, i % 2 == 1) == i);
            assert(self.score(i / 32, (i % 32) / 2, i % 2 == 1) == self.scores@[i]);
        }
    }

    /// Whether the half is the one that the number `r` picks when every
    /// half is given as many numbers as its score says, in the order of
    /// function block, macrocell and half, with the logic half first.
    pub closed spec fn picks(&self, r: int, fb: int, mc: int, pin: bool) -> bool {
        sum_scores(self.scores@, slot_index(fb, mc, pin)) <= r < sum_scores(
            self.scores@,
            slot_index(fb, mc, pin) + 1,
        )
    }

    /// The half that the number `r` picks: a half at fault, chosen with
    /// a weight that is its score.
    pub fn pick(&self, r: u32) -> (loc: PARFBAssignLoc)
        requires
            self.wf(),
            r < self.total(),
        ensures
            loc.0 < NUM_LOC_FBS,
            loc.1 < MCS_PER_FB,
            self.score(loc.0 as int, loc.1 as int, loc.2) > 0,
            self.picks(r as int, loc.0 as int, loc.1 as int, loc.2),
    {
        let mut rest: u32 = r;
        let mut idx: usize = 0;
        while rest >= self.scores[idx]
            invariant
                self.wf(),
                idx < NUM_SLOTS,
                r < self.total(),
                rest + sum_scores(self.scores@, idx as int) == r,
            decreases NUM_SLOTS - idx,
        {
            proof {
                if idx + 1 == NUM_SLOTS {
                    assert(sum_scores(self.scores@, NUM_SLOTS as int) == sum_scores(
                        self.scores@,
                        idx as int,
                    ) + self.scores@[idx as int]);
                    assert(false);
                }
            }
            rest = rest - self.scores[idx];
            idx += 1;
        }
        let fb = (idx / 32) as u32;
        let mc = ((idx % 32) / 2) as u32;
        let pin = idx % 2 == 1;
        assert(slot_index(fb as int, mc as int, pin) == idx);
        (fb, mc, pin)
    }

    /// The halves at fault with their scores, each once, in the order of
    /// function block, macrocell and half, with the logic half first.
    pub fn entries(&self) -> (r: Vec<(PARFBAssignLoc, u32)>)
        requires
            self.wf(),
        ensures
            forall|k: int|
                0 <= k < r@.len() ==> {
                    let e = #[trigger] r@[k];
                    &&& e.0.0 < NUM_LOC_FBS
                    &&& e.0.1 < MCS_PER_FB
                    &&& e.1 > 0
                    &&& e.1 == self.score(e.0.0 as int, e.0.1 as int, e.0.2)
                },
            forall|j: int, k: int|
                0 <= j < k < r@.len() ==> entry_index(#[trigger] r@[j]) < entry_index(
                    #[trigger] r@[k],
                ),
            forall|fb: int, mc: int, pin: bool|
                0 <= fb < NUM_LOC_FBS && 0 <= mc < MCS_PER_FB && #[trigger] self.score(fb, mc, pin)
                    > 0 ==> exists|k: int|
                    0 <= k < r@.len() && #[trigger] entry_index(r@[k]) == slot_index(fb, mc, pin),
    {
        let mut r: Vec<(PARFBAssignLoc, u32)> = Vec::new();
        let mut i: usize = 0;
        while i < NUM_SLOTS
            invariant
                i <= NUM_SLOTS,
                self.wf(),
                forall|k: int|
                    0 <= k < r@.len() ==> {
                        let e = #[trigger] r@[k];
                        &&& e.0.0 < NUM_LOC_FBS
                        &&& e.0.1 < MCS_PER_FB
                        &&& e.1 > 0
                        &&& e.1 == self.score(e.0.0 as int, e.0.1 as int, e.0.2)
                    },
                forall|k: int| 0 <= k < r@.len() ==> entry_index(#[trigger] r@[k]) < i,
                forall|j: int, k: int|
                    0 <= j < k < r@.len() ==> entry_index(#[trigger] r@[j]) < entry_index(
                        #[trigger] r@[k],
                    ),
                forall|q: int|
                    0 <= q < i && #[trigger] self.scores@[q] > 0 ==> exists|k: int|
                        0 <= k < r@.len() && #[trigger] entry_index(r@[k]) == q,
            decreases NUM_SLOTS - i,
        {
            if self.scores[i] != 0 {
                let fb = (i / 32) as u32;
                let mc = ((i % 32) / 2) as u32;
                let pin = i % 2 == 1;
                assert(slot_index(fb as int, mc as int, pin) == i);
                let ghost before = r@;
                r.push(((fb, mc, pin), self.scores[i]));
                proof {
                    assert(entry_index(r@[before.len() as int]) == i);
                    assert forall|q: int| 0 <= q < i + 1 && #[trigger] self.scores@[q] > 0 implies exists|
                        k: int,
                    | 0 <= k < r@.len() && #[trigger] entry_index(r@[k]) == q by {
                        if q < i {
                            let k = choose|k: int|
                                0 <= k < before.len() && #[trigger] entry_index(before[k]) == q;
                            assert(r@[k] == before[k]);
                        }
                    }
                }
            }
            i += 1;
        }
        proof {
            assert forall|fb: int, mc: int, pin: bool|
                0 <= fb < NUM_LOC_FBS && 0 <= mc < MCS_PER_FB && #[trigger] self.score(fb, mc, pin)
                    > 0 implies exists|k: int|
                0 <= k < r@.len() && #[trigger] entry_index(r@[k]) == slot_index(fb, mc, pin) by {
                let q = slot_index(fb, mc, pin);
                assert(self.scores@[q] > 0);
            }
        }
        r
    }
}

/// What an attempt to assign one function block ended in: the ZIA
/// assignment of the block, or a score that says how far from success
/// the attempt was.
#[derive(Copy, Clone, Debug)]
pub enum FBAssignmentResultInner {
    Success(PARZIAAssignment),
    Failure(u32),
}

/// The highest score that an attempt to assign a block can get.
pub const MAX_FB_SCORE: u32 = 1245261;

/// Everything in the output graph but its product terms is as before,
/// and it has as many product terms as before.
pub open spec fn only_pterms_differ(before: &OutputGraph, after: &OutputGraph) -> bool {
    &&& after.mcs == before.mcs
    &&& after.bufg_clks == before.bufg_clks
    &&& after.bufg_gts == before.bufg_gts
    &&& after.bufg_gsr == before.bufg_gsr
    &&& after.zia == before.zia
    &&& after.pterms@.len() == before.pterms@.len()
}

/// What a successful assignment of block `fb_i` leaves in the output
/// graph: the AND terms of the block are assigned as `andterms_assigned`
/// says, and its inputs are routed as `zia_routed` says, where a product
/// term that the block does not use keeps its rows.
pub open spec fn fb_assigned(
    g: &InputGraph,
    device: &DeviceSpec,
    before: &OutputGraph,
    after: &OutputGraph,
    a: Seq<(PARMCAssignment, PARMCAssignment)>,
    fb_i: u32,
    zia: Seq<XC2ZIAInput>,
) -> bool {
    &&& crate::andterms::fb_misses(g, a) == 0
    &&& andterms_assigned(g, before.pterms@, after.pterms@, fb_uses(g, a), fb_i)
    &&& rows_assigned(
        g,
        device,
        before.mcs@,
        before.pterms@,
        after.pterms@,
        fb_pterms(g, a, MCS_PER_FB as int),
        fb_inputs(g, a),
        zia,
    )
}

/// The rows of the product terms `pts` carry their inputs through the ZIA
/// assignment `zia`, every other product term has the rows it had, and
/// every row of `zia` that is not `One` is offered by the routing table
/// and carries one of the inputs `inputs`.
pub open spec fn rows_assigned(
    g: &InputGraph,
    device: &DeviceSpec,
    mcs: Seq<OutputGraphMacrocell>,
    before: Seq<OutputGraphPTerm>,
    after: Seq<OutputGraphPTerm>,
    pts: Seq<usize>,
    inputs: Seq<InputGraphPTermInput>,
    zia: Seq<XC2ZIAInput>,
) -> bool {
    &&& zia.len() == INPUTS_PER_ANDTERM
    &&& after.len() == before.len()
    &&& forall|m: int|
        0 <= m < pts.len() ==> pterm_rows_ok(
            g,
            mcs,
            &g.pterms@[(#[trigger] pts[m]) as int],
            &after[pts[m] as int],
            zia,
        )
    &&& forall|q: int|
        0 <= q < before.len() && (forall|m: int| 0 <= m < pts.len() ==> #[trigger] pts[m] != q)
            ==> (#[trigger] after[q]).inputs_true_zia == before[q].inputs_true_zia
            && after[q].inputs_comp_zia == before[q].inputs_comp_zia
    &&& forall|r: int|
        0 <= r < INPUTS_PER_ANDTERM && #[trigger] zia[r] != XC2ZIAInput::One ==> device.zia.offers(
            r,
            zia[r],
        ) && exists|k: int|
            0 <= k < inputs.len() && Some(zia[r]) == input_choice(g, mcs, #[trigger] inputs[k])
}

/// Whether block `a` can surely be assigned: no product term asks for a
/// site it cannot have, the constrained uses of product terms can be
/// given sites, the block has no more uses than AND terms, and its
/// inputs are no more than its ZIA rows and can be routed.
pub open spec fn fb_assignable(
    g: &InputGraph,
    device: &DeviceSpec,
    mcs: Seq<OutputGraphMacrocell>,
    a: Seq<(PARMCAssignment, PARMCAssignment)>,
) -> bool {
    &&& crate::andterms::fb_misses(g, a) == 0
    &&& crate::andterms::satisfiable(
        g,
        crate::andterms::constrained_uses(g, a),
        crate::andterms::constrained_uses(g, a).len() as int,
    )
    &&& fb_uses(g, a).len() <= crate::mc::ANDTERMS_PER_FB
    &&& zia_routable(g, device, mcs, a)
}

/// Whether the inputs of block `a` are no more than its ZIA rows and can
/// be routed.
pub open spec fn zia_routable(
    g: &InputGraph,
    device: &DeviceSpec,
    mcs: Seq<OutputGraphMacrocell>,
    a: Seq<(PARMCAssignment, PARMCAssignment)>,
) -> bool {
    &&& fb_inputs(g, a).len() <= INPUTS_PER_ANDTERM
    &&& crate::ziaroute::routable(
        &device.zia,
        crate::ziaroute::input_choices(g, mcs, fb_inputs(g, a)),
    )
}

/// Whether block `a` can surely not be assigned: a product term asks for
/// a site it cannot have, or the constrained uses of product terms cannot
/// be given sites, or its inputs are too many or cannot be routed.
pub open spec fn fb_unassignable(
    g: &InputGraph,
    device: &DeviceSpec,
    mcs: Seq<OutputGraphMacrocell>,
    a: Seq<(PARMCAssignment, PARMCAssignment)>,
) -> bool {
    ||| crate::andterms::fb_misses(g, a) != 0
    ||| !crate::andterms::satisfiable(
        g,
        crate::andterms::constrained_uses(g, a),
        crate::andterms::constrained_uses(g, a).len() as int,
    )
    ||| !zia_routable(g, device, mcs, a)
}

/// The score of the attempt to assign block `a`: what the assignment of
/// its AND terms and the routing of its inputs report, added up. It is 0
/// where the block can be assigned.
pub open spec fn fb_score(
    g: &InputGraph,
    device: &DeviceSpec,
    mcs: Seq<OutputGraphMacrocell>,
    a: Seq<(PARMCAssignment, PARMCAssignment)>,
) -> int {
    crate::andterms::andterm_score(g, a) + crate::ziaroute::zia_score(g, device, mcs, a)
}

/// Block `a` with the logic half of site `m` emptied.
pub open spec fn without_mc(a: Seq<(PARMCAssignment, PARMCAssignment)>, m: int) -> Seq<
    (PARMCAssignment, PARMCAssignment),
> {
    a.update(m, (PARMCAssignment::Empty, a[m].1))
}

/// The score of a half after a clash at its site was looked for: 1 where
/// the site holds two macrocells that the pairing rule keeps apart and
/// the one in this half may be moved, else the score `before`.
pub open spec fn clash_scored(
    g: &InputGraph,
    pl: Seq<PARFBAssignment>,
    fb: int,
    m: int,
    p: bool,
    before: u32,
) -> int {
    if pair_clash(g, pl, fb, m) && movable(g, pl, fb, m, p) {
        1
    } else {
        before as int
    }
}

/// The score of a half after its block was scored. To what the pairing
/// rule gives it, a logic half whose macrocell may be moved adds what the
/// score of the block gains without that macrocell, where the block
/// cannot be assigned and gains anything. The score stops at
/// `MAX_SLOT_SCORE`.
pub open spec fn slot_scored(
    g: &InputGraph,
    device: &DeviceSpec,
    mcs: Seq<OutputGraphMacrocell>,
    pl: Seq<PARFBAssignment>,
    fb: int,
    m: int,
    p: bool,
    before: u32,
) -> int {
    let paired = clash_scored(g, pl, fb, m, p, before);
    let base = fb_score(g, device, mcs, pl[fb]@);
    let gain = base - fb_score(g, device, mcs, without_mc(pl[fb]@, m));
    if base > 0 && !p && movable(g, pl, fb, m, false) && gain > 0 {
        if paired + gain > MAX_SLOT_SCORE {
            MAX_SLOT_SCORE as int
        } else {
            paired + gain
        }
    } else {
        paired
    }
}

/// Tries to assign one function block: its product terms to AND terms
/// and its inputs to ZIA rows. The score of a failed attempt is the sum
/// of what the two parts report.
fn try_assign_fb_inner(
    g: &InputGraph,
    go: &mut OutputGraph,
    mc_assignments: &Vec<PARFBAssignment>,
    fb_i: u32,
    device_type: &DeviceSpec,
) -> (r: FBAssignmentResultInner)
    requires
        g.wf(),
        device_type.wf(),
        fb_i < mc_assignments@.len(),
        block_refs_ok(g, mc_assignments@[fb_i as int]@),
        mcs_placed(g, old(go).mcs@),
        old(go).pterms@.len() == g.pterms@.len(),
    ensures
        only_pterms_differ(old(go), final(go)),
        match r {
            FBAssignmentResultInner::Success(zia) => fb_assigned(
                g,
                device_type,
                old(go),
                final(go),
                mc_assignments@[fb_i as int]@,
                fb_i,
                zia@,
            ),
            FBAssignmentResultInner::Failure(s) => 1 <= s <= MAX_FB_SCORE && s == fb_score(
                g,
                device_type,
                old(go).mcs@,
                mc_assignments@[fb_i as int]@,
            ),
        },
        r is Success <==> fb_score(g, device_type, old(go).mcs@, mc_assignments@[fb_i as int]@)
            == 0,
        fb_assignable(g, device_type, old(go).mcs@, mc_assignments@[fb_i as int]@)
            ==> r is Success,
        fb_unassignable(g, device_type, old(go).mcs@, mc_assignments@[fb_i as int]@)
            ==> r is Failure,
{
    let ghost a = mc_assignments@[fb_i as int]@;
    proof {
        crate::andterms::lemma_misses_nonneg(g, a, MCS_PER_FB as int);
    }
    let pterm_assign_result = try_assign_andterms(g, go, &mc_assignments[fb_i as usize], fb_i);
    let ghost mid = *go;
    let zia_assign_result = try_assign_zia(g, go, &mc_assignments[fb_i as usize], device_type);

    if pterm_assign_result == AndTermAssignmentResult::Success {
        if let ZIAAssignmentResult::Success(zia_assignment) = zia_assign_result {
            proof {
                lemma_fb_assigned(g, device_type, old(go), &mid, go, a, fb_i, zia_assignment@);
            }
            return FBAssignmentResultInner::Success(zia_assignment);
        }
    }
    let mut failing_score: u32 = 0;
    match pterm_assign_result {
        AndTermAssignmentResult::FailurePtermExceeded(x) => {
            failing_score += x;
        },
        AndTermAssignmentResult::FailurePtermLOCUnsatisfiable(x) => {
            failing_score += x;
        },
        AndTermAssignmentResult::Success => {},
    }
    match zia_assign_result {
        ZIAAssignmentResult::FailureTooManyInputs(x) => {
            failing_score += x;
        },
        ZIAAssignmentResult::FailureUnroutable(x) => {
            failing_score += x;
        },
        ZIAAssignmentResult::Success(_) => {},
    }
    FBAssignmentResultInner::Failure(failing_score)
}

/// The two parts of a successful assignment of a block, one after the
/// other, leave what `fb_assigned` says.
proof fn lemma_fb_assigned(
    g: &InputGraph,
    device: &DeviceSpec,
    before: &OutputGraph,
    mid: &OutputGraph,
    after: &OutputGraph,
    a: Seq<(PARMCAssignment, PARMCAssignment)>,
    fb_i: u32,
    zia: Seq<XC2ZIAInput>,
)
    requires
        g.wf(),
        block_refs_ok(g, a),
        before.pterms@.len() == g.pterms@.len(),
        crate::andterms::only_pterm_locs_differ(before, mid),
        crate::andterms::fb_misses(g, a) == 0,
        andterms_assigned(g, before.pterms@, mid.pterms@, fb_uses(g, a), fb_i),
        crate::ziaroute::only_pterm_rows_differ(mid, after),
        zia_routed(
            g,
            &device.zia,
            mid.mcs@,
            mid.pterms@,
            after.pterms@,
            fb_pterms(g, a, MCS_PER_FB as int),
            fb_inputs(g, a),
            zia,
        ),
    ensures
        fb_assigned(g, device, before, after, a, fb_i, zia),
{
    crate::andterms::lemma_fb_uses_refs(g, a);
    lemma_locs_kept(g, before.pterms@, mid.pterms@, after.pterms@, fb_uses(g, a), fb_i);
    lemma_rows_kept(
        g,
        device,
        mid.mcs@,
        before.pterms@,
        mid.pterms@,
        after.pterms@,
        fb_pterms(g, a, MCS_PER_FB as int),
        fb_inputs(g, a),
        zia,
    );
}

/// What `andterms_assigned` says stays true while no location changes.
proof fn lemma_locs_kept(
    g: &InputGraph,
    before: Seq<OutputGraphPTerm>,
    mid: Seq<OutputGraphPTerm>,
    after: Seq<OutputGraphPTerm>,
    uses: Seq<crate::andterms::SiteUse>,
    fb_i: u32,
)
    requires
        andterms_assigned(g, before, mid, uses, fb_i),
        before.len() == mid.len(),
        after.len() == mid.len(),
        forall|k: int| 0 <= k < uses.len() ==> (#[trigger] uses[k]).0 < mid.len(),
        forall|q: int| 0 <= q < mid.len() ==> (#[trigger] after[q]).loc == mid[q].loc,
    ensures
        andterms_assigned(g, before, after, uses, fb_i),
{
    assert forall|k: int| 0 <= k < uses.len() implies crate::andterms::pterm_sited(
        uses,
        after,
        fb_i,
        (#[trigger] uses[k]).0,
    ) by {
        assert(crate::andterms::pterm_sited(uses, mid, fb_i, uses[k].0));
        assert(after[uses[k].0 as int].loc == mid[uses[k].0 as int].loc);
    }
    assert forall|j: int, k: int|
        0 <= j < uses.len() && 0 <= k < uses.len() && after[(#[trigger] uses[j]).0 as int].loc
            == after[(#[trigger] uses[k]).0 as int].loc implies g.pterms@[uses[j].0 as int].spec_equals(
        &g.pterms@[uses[k].0 as int],
    ) by {
        assert(after[uses[j].0 as int].loc == mid[uses[j].0 as int].loc);
        assert(after[uses[k].0 as int].loc == mid[uses[k].0 as int].loc);
    }
    assert forall|q: int| 0 <= q < before.len() && crate::andterms::unused(uses, q) implies (
    #[trigger] after[q]).loc == before[q].loc by {
        assert(after[q].loc == mid[q].loc);
    }
}

/// From what `zia_routed` says of the pass over the rows to what
/// `rows_assigned` says of the whole attempt, in which no row changed
/// before that pass.
proof fn lemma_rows_kept(
    g: &InputGraph,
    device: &DeviceSpec,
    mcs: Seq<OutputGraphMacrocell>,
    before: Seq<OutputGraphPTerm>,
    mid: Seq<OutputGraphPTerm>,
    after: Seq<OutputGraphPTerm>,
    pts: Seq<usize>,
    inputs: Seq<InputGraphPTermInput>,
    zia: Seq<XC2ZIAInput>,
)
    requires
        zia_routed(g, &device.zia, mcs, mid, after, pts, inputs, zia),
        before.len() == mid.len(),
        forall|q: int|
            0 <= q < before.len() ==> (#[trigger] mid[q]).inputs_true_zia == before[q].inputs_true_zia
                && mid[q].inputs_comp_zia == before[q].inputs_comp_zia,
    ensures
        rows_assigned(g, device, mcs, before, after, pts, inputs, zia),
{
    assert forall|q: int|
        0 <= q < before.len() && (forall|m: int| 0 <= m < pts.len() ==> #[trigger] pts[m] != q)
        implies (#[trigger] after[q]).inputs_true_zia == before[q].inputs_true_zia
        && after[q].inputs_comp_zia == before[q].inputs_comp_zia by {
        assert(after[q] == mid[q]);
        assert(mid[q].inputs_true_zia == before[q].inputs_true_zia);
    }
}

/// Whether the placement has the three blocks of a chip and holds only
/// macrocells of `g`.
pub open spec fn placement_refs_ok(g: &InputGraph, pl: Seq<PARFBAssignment>) -> bool {
    &&& pl.len() == NUM_LOC_FBS
    &&& forall|fb: int, mc: int, pin: bool|
        0 <= fb < NUM_LOC_FBS && 0 <= mc < MCS_PER_FB ==> (#[trigger] slot(pl, fb, mc, pin)
            matches PARMCAssignment::MC(i) ==> i < g.mcs@.len())
}

/// Whether the two halves of site `mc` of block `fb` hold macrocells that
/// the pairing rule keeps apart.
pub open spec fn pair_clash(g: &InputGraph, pl: Seq<PARFBAssignment>, fb: int, mc: int) -> bool {
    slot(pl, fb, mc, false) matches PARMCAssignment::MC(a) && (slot(pl, fb, mc, true)
        matches PARMCAssignment::MC(b) && !can_pair(&g.mcs@[a as int], &g.mcs@[b as int]))
}

/// Whether the half holds a macrocell that may be moved: one that did not
/// name its site.
pub open spec fn movable(g: &InputGraph, pl: Seq<PARFBAssignment>, fb: int, mc: int, pin: bool) -> bool {
    slot(pl, fb, mc, pin) matches PARMCAssignment::MC(i) && !g.mcs@[i as int].fully_locked()
}

/// Whether no site of block `fb` holds two macrocells that the pairing
/// rule keeps apart.
pub open spec fn no_clash_in(g: &InputGraph, pl: Seq<PARFBAssignment>, fb: int) -> bool {
    forall|m: int| 0 <= m < MCS_PER_FB ==> !#[trigger] pair_clash(g, pl, fb, m)
}

/// A placement that holds only macrocells of `g` has blocks that do.
pub proof fn lemma_block_refs(g: &InputGraph, pl: Seq<PARFBAssignment>, fb: int)
    requires
        placement_refs_ok(g, pl),
        0 <= fb < NUM_LOC_FBS,
    ensures
        block_refs_ok(g, pl[fb]@),
{
    assert forall|i: int| 0 <= i < MCS_PER_FB implies (#[trigger] logic_mc(pl[fb]@, i) matches Some(
        m,
    ) ==> m < g.mcs@.len()) by {
        assert(slot(pl, fb, i, false) == pl[fb]@[i].0);
    }
}

/// Scores one function block of a chip placement.
///
/// The block is assigned if its product terms find AND terms and its
/// inputs find ZIA rows; the result is then the ZIA assignment. Else the
/// result is `None`, and every macrocell in a logic half of the block that
/// may be moved is taken out in turn: the score of its half grows by what
/// the attempt gains without it.
///
/// Either way a site whose halves hold macrocells that the pairing rule
/// keeps apart gives each of the two that may be moved a score of 1.
pub fn try_assign_fb(
    g: &InputGraph,
    go: &mut OutputGraph,
    mc_assignments: &Vec<PARFBAssignment>,
    fb_i: u32,
    constraint_violations: &mut PlacementViolations,
    device_type: &DeviceSpec,
) -> (r: Option<PARZIAAssignment>)
    requires
        g.wf(),
        device_type.wf(),
        placement_refs_ok(g, mc_assignments@),
        fb_i < NUM_LOC_FBS,
        mcs_placed(g, old(go).mcs@),
        old(go).pterms@.len() == g.pterms@.len(),
        old(constraint_violations).wf(),
    ensures
        only_pterms_differ(old(go), final(go)),
        final(constraint_violations).wf(),
        r matches Some(zia) ==> fb_assigned(
            g,
            device_type,
            old(go),
            final(go),
            mc_assignments@[fb_i as int]@,
            fb_i,
            zia@,
        ),
        r is Some <==> fb_score(g, device_type, old(go).mcs@, mc_assignments@[fb_i as int]@) == 0,
        forall|m: int, p: bool|
            0 <= m < MCS_PER_FB ==> #[trigger] final(constraint_violations).score(fb_i as int, m, p)
                == slot_scored(
                g,
                device_type,
                old(go).mcs@,
                mc_assignments@,
                fb_i as int,
                m,
                p,
                old(constraint_violations).score(fb_i as int, m, p),
            ),
        fb_assignable(g, device_type, old(go).mcs@, mc_assignments@[fb_i as int]@) ==> r is Some,
        fb_unassignable(g, device_type, old(go).mcs@, mc_assignments@[fb_i as int]@) ==> r is None,
        forall|f: int, m: int, p: bool|
            0 <= f < NUM_LOC_FBS && 0 <= m < MCS_PER_FB && f != fb_i
                ==> #[trigger] final(constraint_violations).score(f, m, p)
                == old(constraint_violations).score(f, m, p),
{
    proof {
        lemma_block_refs(g, mc_assignments@, fb_i as int);
    }
    let initial_assign_result = try_assign_fb_inner(g, go, mc_assignments, fb_i, device_type);

    // Sites whose halves cannot be paired.
    let mut mc_i: usize = 0;
    while mc_i < MCS_PER_FB
        invariant
            mc_i <= MCS_PER_FB,
            fb_i < NUM_LOC_FBS,
            placement_refs_ok(g, mc_assignments@),
            constraint_violations.wf(),
            forall|f: int, m: int, p: bool|
                0 <= f < NUM_LOC_FBS && 0 <= m < MCS_PER_FB && f != fb_i
                    ==> #[trigger] constraint_violations.score(f, m, p) == old(constraint_violations).score(f, m, p),
            forall|m: int, p: bool|
                0 <= m < mc_i ==> #[trigger] constraint_violations.score(fb_i as int, m, p)
                    == clash_scored(
                    g,
                    mc_assignments@,
                    fb_i as int,
                    m,
                    p,
                    old(constraint_violations).score(fb_i as int, m, p),
                ),
            forall|m: int, p: bool|
                mc_i <= m < MCS_PER_FB ==> #[trigger] constraint_violations.score(fb_i as int, m, p)
                    == old(constraint_violations).score(fb_i as int, m, p),
        decreases MCS_PER_FB - mc_i,
    {
        let logic_half = crate::greedy::get_slot(mc_assignments, fb_i as usize, mc_i, false);
        let pin_half = crate::greedy::get_slot(mc_assignments, fb_i as usize, mc_i, true);
        if let PARMCAssignment::MC(mc_idx_0) = logic_half {
            if let PARMCAssignment::MC(mc_idx_1) = pin_half {
                if !mcs_idx_can_be_paired(g, mc_idx_0, mc_idx_1) {
                    assert(pair_clash(g, mc_assignments@, fb_i as int, mc_i as int));
                    if !g.mcs[mc_idx_0].is_fully_locked() {
                        constraint_violations.set(fb_i, mc_i as u32, false, 1);
                    }
                    if !g.mcs[mc_idx_1].is_fully_locked() {
                        constraint_violations.set(fb_i, mc_i as u32, true, 1);
                    }
                }
            }
        }
        mc_i += 1;
    }

    match initial_assign_result {
        FBAssignmentResultInner::Success(x) => Some(x),
        FBAssignmentResultInner::Failure(base_failing_score) => {
            // Take out one macrocell at a time and see what that gains.
            let mut dummy_go = go.duplicate();
            let mut new_mc_assign = crate::outgraph::copy_placement(mc_assignments);
            let mut mc_i: usize = 0;
            while mc_i < MCS_PER_FB
                invariant
                    mc_i <= MCS_PER_FB,
                    fb_i < NUM_LOC_FBS,
                    g.wf(),
                    device_type.wf(),
                    base_failing_score <= MAX_FB_SCORE,
                    placement_refs_ok(g, mc_assignments@),
                    new_mc_assign@ == mc_assignments@,
                    mcs_placed(g, dummy_go.mcs@),
                    dummy_go.pterms@.len() == g.pterms@.len(),
                    constraint_violations.wf(),
                    forall|f: int, m: int, p: bool|
                        0 <= f < NUM_LOC_FBS && 0 <= m < MCS_PER_FB && f != fb_i
                            ==> #[trigger] constraint_violations.score(f, m, p) == old(constraint_violations).score(f, m, p),
                    dummy_go.mcs@ == old(go).mcs@,
                    base_failing_score == fb_score(
                        g,
                        device_type,
                        old(go).mcs@,
                        mc_assignments@[fb_i as int]@,
                    ),
                    base_failing_score > 0,
                    forall|m: int, p: bool|
                        0 <= m < mc_i ==> #[trigger] constraint_violations.score(fb_i as int, m, p)
                            == slot_scored(
                            g,
                            device_type,
                            old(go).mcs@,
                            mc_assignments@,
                            fb_i as int,
                            m,
                            p,
                            old(constraint_violations).score(fb_i as int, m, p),
                        ),
                    forall|m: int, p: bool|
                        mc_i <= m < MCS_PER_FB ==> #[trigger] constraint_violations.score(
                            fb_i as int,
                            m,
                            p,
                        ) == clash_scored(
                            g,
                            mc_assignments@,
                            fb_i as int,
                            m,
                            p,
                            old(constraint_violations).score(fb_i as int, m, p),
                        ),
                decreases MCS_PER_FB - mc_i,
            {
                let old_assign = crate::greedy::get_slot(&new_mc_assign, fb_i as usize, mc_i, false);
                if let PARMCAssignment::MC(mc_idx) = old_assign {
                    // what named its site cannot move, so it is not scored
                    if !g.mcs[mc_idx].is_fully_locked() {
                        crate::greedy::set_slot(
                            &mut new_mc_assign,
                            fb_i as usize,
                            mc_i,
                            false,
                            PARMCAssignment::Empty,
                        );
                        proof {
                            assert(placement_refs_ok(g, new_mc_assign@)) by {
                                assert forall|f: int, m: int, p: bool|
                                    0 <= f < NUM_LOC_FBS && 0 <= m < MCS_PER_FB implies (
                                #[trigger] slot(new_mc_assign@, f, m, p)
                                    matches PARMCAssignment::MC(i) ==> i < g.mcs@.len()) by {
                                    if !(f == fb_i && m == mc_i && p == false) {
                                        assert(slot(new_mc_assign@, f, m, p) == slot(
                                            mc_assignments@,
                                            f,
                                            m,
                                            p,
                                        ));
                                    }
                                }
                            }
                            lemma_block_refs(g, new_mc_assign@, fb_i as int);
                            assert(new_mc_assign@[fb_i as int]@ =~= without_mc(
                                mc_assignments@[fb_i as int]@,
                                mc_i as int,
                            )) by {
                                assert forall|m: int| 0 <= m < MCS_PER_FB implies new_mc_assign@[fb_i as int]@[m]
                                    == without_mc(mc_assignments@[fb_i as int]@, mc_i as int)[m] by {
                                    assert(slot(new_mc_assign@, fb_i as int, m, true) == slot(
                                        mc_assignments@,
                                        fb_i as int,
                                        m,
                                        true,
                                    ));
                                    if m != mc_i {
                                        assert(slot(new_mc_assign@, fb_i as int, m, false) == slot(
                                            mc_assignments@,
                                            fb_i as int,
                                            m,
                                            false,
                                        ));
                                    }
                                }
                            }
                        }
                        let new_failing_score = match try_assign_fb_inner(
                            g,
                            &mut dummy_go,
                            &new_mc_assign,
                            fb_i,
                            device_type,
                        ) {
                            FBAssignmentResultInner::Success(_) => 0,
                            FBAssignmentResultInner::Failure(x) => x,
                        };
                        if new_failing_score < base_failing_score {
                            // without this macrocell the block does better
                            let old_score = constraint_violations.get(fb_i, mc_i as u32, false);
                            let gain = base_failing_score - new_failing_score;
                            let new_score = if old_score > MAX_SLOT_SCORE - gain {
                                MAX_SLOT_SCORE
                            } else {
                                old_score + gain
                            };
                            constraint_violations.set(fb_i, mc_i as u32, false, new_score);
                        }
                        crate::greedy::set_slot(
                            &mut new_mc_assign,
                            fb_i as usize,
                            mc_i,
                            false,
                            old_assign,
                        );
                        proof {
                            lemma_placement_restored(mc_assignments@, new_mc_assign@, fb_i as int, mc_i as int);
                        }
                    }
                }
                mc_i += 1;
            }
            None
        },
    }
}

/// Placements whose halves all hold the same are the same.
pub proof fn lemma_slots_equal(pl: Seq<PARFBAssignment>, now: Seq<PARFBAssignment>)
    requires
        pl.len() == NUM_LOC_FBS,
        now.len() == NUM_LOC_FBS,
        forall|f: int, m: int, p: bool|
            0 <= f < NUM_LOC_FBS && 0 <= m < MCS_PER_FB ==> #[trigger] slot(now, f, m, p) == slot(
                pl,
                f,
                m,
                p,
            ),
    ensures
        now == pl,
{
    lemma_placement_restored(pl, now, 0, 0);
}

/// Putting back what was taken out of one half gives the placement back.
proof fn lemma_placement_restored(
    pl: Seq<PARFBAssignment>,
    now: Seq<PARFBAssignment>,
    fb: int,
    mc: int,
)
    requires
        pl.len() == NUM_LOC_FBS,
        now.len() == NUM_LOC_FBS,
        0 <= fb < NUM_LOC_FBS,
        0 <= mc < MCS_PER_FB,
        forall|f: int, m: int, p: bool|
            0 <= f < NUM_LOC_FBS && 0 <= m < MCS_PER_FB ==> #[trigger] slot(now, f, m, p) == slot(
                pl,
                f,
                m,
                p,
            ),
    ensures
        now == pl,
{
    assert forall|f: int| 0 <= f < NUM_LOC_FBS implies now[f] == pl[f] by {
        assert forall|m: int| 0 <= m < MCS_PER_FB implies now[f]@[m] == pl[f]@[m] by {
            assert(slot(now, f, m, false) == slot(pl, f, m, false));
            assert(slot(now, f, m, true) == slot(pl, f, m, true));
        }
        assert(now[f]@ =~= pl[f]@);
        assert(now[f] =~= pl[f]);
    }
    assert(now =~= pl);
}

/// Whether the location of product term `p` is in block `fb_i`.
pub open spec fn at_home(out: Seq<OutputGraphPTerm>, fb_i: u32, p: usize) -> bool {
    out[p as int].loc matches Some(l) && l.fb == fb_i
}

/// Whether product term `p`, which block `fb_i` uses, has a location in
/// that block or in a later one that uses it too, on a site that one of
/// its uses in the block of its location allows.
pub open spec fn pterm_homed(
    g: &InputGraph,
    pl: Seq<PARFBAssignment>,
    out: Seq<OutputGraphPTerm>,
    fb_i: u32,
    p: usize,
) -> bool {
    out[p as int].loc matches Some(l) && fb_i <= l.fb < NUM_LOC_FBS && crate::andterms::site_allowed(
        fb_uses(g, pl[l.fb as int]@),
        p,
        l.i,
    )
}

/// Whether the rows of `zia` that are not `One` are offered by the
/// routing table and carry inputs of the block `a`.
pub open spec fn zia_rows_used(
    g: &InputGraph,
    device: &DeviceSpec,
    mcs: Seq<OutputGraphMacrocell>,
    a: Seq<(PARMCAssignment, PARMCAssignment)>,
    zia: Seq<XC2ZIAInput>,
) -> bool {
    &&& zia.len() == INPUTS_PER_ANDTERM
    &&& forall|r: int|
        0 <= r < INPUTS_PER_ANDTERM && #[trigger] zia[r] != XC2ZIAInput::One ==> device.zia.offers(
            r,
            zia[r],
        ) && exists|k: int|
            0 <= k < fb_inputs(g, a).len() && Some(zia[r]) == input_choice(
                g,
                mcs,
                #[trigger] fb_inputs(g, a)[k],
            )
}

/// What holds of block `fb_i` once the whole chip has been assigned.
///
/// Every product term that the block uses has a location, in this block
/// or in a later one that uses it too, on a site that is allowed there.
/// Product terms of the block with the same location in this block are
/// structurally equal. The rows of every product term of the block whose
/// location is in this block carry its inputs through `zia`. And `zia`
/// routes nothing but inputs of the block, on rows that offer them.
pub open spec fn fb_done(
    g: &InputGraph,
    device: &DeviceSpec,
    mcs: Seq<OutputGraphMacrocell>,
    out: Seq<OutputGraphPTerm>,
    pl: Seq<PARFBAssignment>,
    fb_i: u32,
    zia: Seq<XC2ZIAInput>,
) -> bool {
    let a = pl[fb_i as int]@;
    let uses = fb_uses(g, a);
    let pts = fb_pterms(g, a, MCS_PER_FB as int);
    &&& crate::andterms::fb_misses(g, a) == 0
    &&& forall|k: int| 0 <= k < uses.len() ==> pterm_homed(g, pl, out, fb_i, (#[trigger] uses[k]).0)
    &&& forall|j: int, k: int|
        0 <= j < uses.len() && 0 <= k < uses.len() && out[(#[trigger] uses[j]).0 as int].loc == out[(
        #[trigger] uses[k]).0 as int].loc && at_home(out, fb_i, uses[j].0)
            ==> g.pterms@[uses[j].0 as int].spec_equals(&g.pterms@[uses[k].0 as int])
    &&& forall|m: int|
        0 <= m < pts.len() && at_home(out, fb_i, #[trigger] pts[m]) ==> pterm_rows_ok(
            g,
            mcs,
            &g.pterms@[pts[m] as int],
            &out[pts[m] as int],
            zia,
        )
    &&& zia_rows_used(g, device, mcs, a, zia)
}

/// A block that has just been assigned is done.
proof fn lemma_assigned_is_done(
    g: &InputGraph,
    device: &DeviceSpec,
    before: &OutputGraph,
    after: &OutputGraph,
    pl: Seq<PARFBAssignment>,
    fb_i: u32,
    zia: Seq<XC2ZIAInput>,
)
    requires
        fb_i < NUM_LOC_FBS,
        pl.len() == NUM_LOC_FBS,
        after.mcs == before.mcs,
        fb_assigned(g, device, before, after, pl[fb_i as int]@, fb_i, zia),
    ensures
        fb_done(g, device, after.mcs@, after.pterms@, pl, fb_i, zia),
{
    let a = pl[fb_i as int]@;
    let uses = fb_uses(g, a);
    let out = after.pterms@;
    assert forall|k: int| 0 <= k < uses.len() implies pterm_homed(
        g,
        pl,
        out,
        fb_i,
        (#[trigger] uses[k]).0,
    ) by {
        assert(crate::andterms::pterm_sited(uses, out, fb_i, uses[k].0));
    }
}

/// A block that is done stays done when a later block is assigned.
proof fn lemma_done_kept(
    g: &InputGraph,
    device: &DeviceSpec,
    before: &OutputGraph,
    after: &OutputGraph,
    pl: Seq<PARFBAssignment>,
    f0: u32,
    zia0: Seq<XC2ZIAInput>,
    fb_i: u32,
    zia: Seq<XC2ZIAInput>,
)
    requires
        g.wf(),
        placement_refs_ok(g, pl),
        f0 < fb_i < NUM_LOC_FBS,
        before.pterms@.len() == g.pterms@.len(),
        after.mcs == before.mcs,
        fb_done(g, device, before.mcs@, before.pterms@, pl, f0, zia0),
        fb_assigned(g, device, before, after, pl[fb_i as int]@, fb_i, zia),
    ensures
        fb_done(g, device, after.mcs@, after.pterms@, pl, f0, zia0),
{
    let a0 = pl[f0 as int]@;
    let uses0 = fb_uses(g, a0);
    let pts0 = fb_pterms(g, a0, MCS_PER_FB as int);
    let a = pl[fb_i as int]@;
    let uses = fb_uses(g, a);
    let pts = fb_pterms(g, a, MCS_PER_FB as int);
    let old_out = before.pterms@;
    let out = after.pterms@;
    lemma_block_refs(g, pl, f0 as int);
    lemma_block_refs(g, pl, fb_i as int);
    crate::andterms::lemma_fb_uses_refs(g, a0);
    crate::andterms::lemma_fb_uses_refs(g, a);
    crate::ziaroute::lemma_fb_pterms_ok(g, a0, MCS_PER_FB as int);

    // a product term whose location is in the earlier block is not one of
    // the later block, so that block left it alone
    assert forall|p: usize| p < out.len() && at_home(out, f0, p) implies out[p as int].loc
        == old_out[p as int].loc && out[p as int].inputs_true_zia == old_out[p as int].inputs_true_zia
        && out[p as int].inputs_comp_zia == old_out[p as int].inputs_comp_zia by {
        lemma_left_alone(g, device, before, after, a, fb_i, zia, p);
    }
    assert forall|k: int| 0 <= k < uses0.len() implies pterm_homed(
        g,
        pl,
        out,
        f0,
        (#[trigger] uses0[k]).0,
    ) by {
        let p = uses0[k].0;
        assert(pterm_homed(g, pl, old_out, f0, p));
        if crate::andterms::mentions(uses, p) {
            let k2 = choose|k2: int| 0 <= k2 < uses.len() && (#[trigger] uses[k2]).0 == p;
            assert(crate::andterms::pterm_sited(uses, out, fb_i, uses[k2].0));
        } else {
            assert(crate::andterms::unused(uses, p as int));
        }
    }
    assert forall|j: int, k: int|
        0 <= j < uses0.len() && 0 <= k < uses0.len() && out[(#[trigger] uses0[j]).0 as int].loc
            == out[(#[trigger] uses0[k]).0 as int].loc && at_home(
            out,
            f0,
            uses0[j].0,
        ) implies g.pterms@[uses0[j].0 as int].spec_equals(&g.pterms@[uses0[k].0 as int]) by {
        assert(at_home(out, f0, uses0[k].0));
    }
    assert forall|m: int| 0 <= m < pts0.len() && at_home(out, f0, #[trigger] pts0[m])
        implies pterm_rows_ok(
        g,
        after.mcs@,
        &g.pterms@[pts0[m] as int],
        &out[pts0[m] as int],
        zia0,
    ) by {
        let p = pts0[m];
        assert(at_home(old_out, f0, p));
        assert(pterm_rows_ok(g, before.mcs@, &g.pterms@[p as int], &old_out[p as int], zia0));
    }
}

/// A product term whose location is not in the block that has just been
/// assigned is as it was before.
proof fn lemma_left_alone(
    g: &InputGraph,
    device: &DeviceSpec,
    before: &OutputGraph,
    after: &OutputGraph,
    a: Seq<(PARMCAssignment, PARMCAssignment)>,
    fb_i: u32,
    zia: Seq<XC2ZIAInput>,
    p: usize,
)
    requires
        p < after.pterms@.len(),
        !at_home(after.pterms@, fb_i, p),
        fb_assigned(g, device, before, after, a, fb_i, zia),
    ensures
        after.pterms@[p as int].loc == before.pterms@[p as int].loc,
        after.pterms@[p as int].inputs_true_zia == before.pterms@[p as int].inputs_true_zia,
        after.pterms@[p as int].inputs_comp_zia == before.pterms@[p as int].inputs_comp_zia,
{
    let uses = fb_uses(g, a);
    let pts = fb_pterms(g, a, MCS_PER_FB as int);
    let out = after.pterms@;
    if crate::andterms::mentions(uses, p) {
        let k2 = choose|k2: int| 0 <= k2 < uses.len() && (#[trigger] uses[k2]).0 == p;
        assert(crate::andterms::pterm_sited(uses, out, fb_i, uses[k2].0));
        assert(false);
    }
    assert(crate::andterms::unused(uses, p as int));
    assert forall|m: int| 0 <= m < pts.len() implies #[trigger] pts[m] != p by {
        if pts[m] == p {
            crate::ziaroute::lemma_fb_pterms_mentioned(g, a, m);
        }
    }
}

/// What the scores of a chip placement say: only a half that holds a
/// macrocell that may be moved has a score, and a site whose halves hold
/// macrocells that the pairing rule keeps apart gives each of the two
/// that may be moved a score.
pub open spec fn chip_scored(g: &InputGraph, pl: Seq<PARFBAssignment>, v: &PlacementViolations) -> bool {
    &&& v.wf()
    &&& forall|fb: int, mc: int, pin: bool|
        0 <= fb < NUM_LOC_FBS && 0 <= mc < MCS_PER_FB && #[trigger] v.score(fb, mc, pin) > 0
            ==> movable(g, pl, fb, mc, pin)
    &&& forall|fb: int, mc: int, pin: bool|
        0 <= fb < NUM_LOC_FBS && 0 <= mc < MCS_PER_FB && pair_clash(g, pl, fb, mc) && movable(
            g,
            pl,
            fb,
            mc,
            pin,
        ) ==> #[trigger] v.score(fb, mc, pin) > 0
}

/// Whether every block has a ZIA assignment.
pub open spec fn all_assigned(results: Seq<Option<PARZIAAssignment>>) -> bool {
    forall|f: int| 0 <= f < results.len() ==> (#[trigger] results[f]) is Some
}

/// The sum of what scoring the placement `pl` gives the first `n` halves
/// of the chip, in the order of function block, macrocell and half.
pub open spec fn chip_total_upto(
    g: &InputGraph,
    device: &DeviceSpec,
    mcs: Seq<OutputGraphMacrocell>,
    pl: Seq<PARFBAssignment>,
    n: int,
) -> int
    decreases n,
{
    if n <= 0 {
        0
    } else {
        chip_total_upto(g, device, mcs, pl, n - 1) + slot_scored(
            g,
            device,
            mcs,
            pl,
            (n - 1) / 32,
            ((n - 1) % 32) / 2,
            (n - 1) % 2 == 1,
            0,
        )
    }
}

/// The score of the placement `pl`: the sum of what scoring it gives
/// every half of the chip.
pub open spec fn chip_total(
    g: &InputGraph,
    device: &DeviceSpec,
    mcs: Seq<OutputGraphMacrocell>,
    pl: Seq<PARFBAssignment>,
) -> int {
    chip_total_upto(g, device, mcs, pl, NUM_SLOTS as int)
}

/// Whether the number `d` draws the half `p` of site `(f, m)` from the
/// halves at fault in the placement `pl`, when every half is given as
/// many numbers as scoring the placement gives it, in the order of
/// function block, macrocell and half.
pub open spec fn fault_drawn(
    g: &InputGraph,
    device: &DeviceSpec,
    mcs: Seq<OutputGraphMacrocell>,
    pl: Seq<PARFBAssignment>,
    d: int,
    f: int,
    m: int,
    p: bool,
) -> bool {
    &&& 0 <= f < NUM_LOC_FBS
    &&& 0 <= m < MCS_PER_FB
    &&& chip_total_upto(g, device, mcs, pl, slot_index(f, m, p)) <= d < chip_total_upto(
        g,
        device,
        mcs,
        pl,
        slot_index(f, m, p) + 1,
    )
}

/// Whether `results` and `v` are what scoring the placement `pl` gives:
/// a block has a ZIA assignment exactly if it can be assigned, and every
/// half has the score that `slot_scored` gives it.
pub open spec fn scored_as(
    g: &InputGraph,
    device: &DeviceSpec,
    mcs: Seq<OutputGraphMacrocell>,
    pl: Seq<PARFBAssignment>,
    results: Seq<Option<PARZIAAssignment>>,
    v: &PlacementViolations,
) -> bool {
    &&& results.len() == NUM_LOC_FBS
    &&& forall|f: int|
        0 <= f < NUM_LOC_FBS ==> ((#[trigger] results[f]) is Some <==> fb_score(
            g,
            device,
            mcs,
            pl[f]@,
        ) == 0)
    &&& forall|f: int, m: int, p: bool|
        0 <= f < NUM_LOC_FBS && 0 <= m < MCS_PER_FB ==> #[trigger] v.score(f, m, p) == slot_scored(
            g,
            device,
            mcs,
            pl,
            f,
            m,
            p,
            0,
        )
    &&& v.total() == chip_total(g, device, mcs, pl)
}

/// Every block of the chip is done, with the ZIA assignments `results`.
pub open spec fn chip_done(
    g: &InputGraph,
    device: &DeviceSpec,
    go: &OutputGraph,
    pl: Seq<PARFBAssignment>,
    results: Seq<Option<PARZIAAssignment>>,
) -> bool {
    forall|f: int|
        0 <= f < results.len() ==> ((#[trigger] results[f]) matches Some(zia) && fb_done(
            g,
            device,
            go.mcs@,
            go.pterms@,
            pl,
            f as u32,
            zia@,
        ))
}

/// Scores a chip placement: every function block in turn.
///
/// The result holds, block by block, the ZIA assignment of each block
/// that could be assigned, the score of every half of a site, and the
/// sum of the scores. If every block could be assigned, `go` holds the
/// locations and rows of the product terms of every block.
pub fn try_assign_entire_chip(
    g: &InputGraph,
    go: &mut OutputGraph,
    mc_assignments: &Vec<PARFBAssignment>,
    device_type: &DeviceSpec,
) -> (r: (Vec<Option<PARZIAAssignment>>, PlacementViolations, u32))
    requires
        g.wf(),
        device_type.wf(),
        placement_refs_ok(g, mc_assignments@),
        mcs_placed(g, old(go).mcs@),
        old(go).pterms@.len() == g.pterms@.len(),
    ensures
        only_pterms_differ(old(go), final(go)),
        r.0@.len() == NUM_LOC_FBS,
        chip_scored(g, mc_assignments@, &r.1),
        r.2 == r.1.total(),
        all_assigned(r.0@) ==> chip_done(g, device_type, final(go), mc_assignments@, r.0@),
        forall|f: int|
            0 <= f < NUM_LOC_FBS && fb_assignable(
                g,
                device_type,
                old(go).mcs@,
                (#[trigger] mc_assignments@[f])@,
            ) ==> r.0@[f] is Some,
        forall|f: int|
            0 <= f < NUM_LOC_FBS && fb_unassignable(
                g,
                device_type,
                old(go).mcs@,
                (#[trigger] mc_assignments@[f])@,
            ) ==> r.0@[f] is None,
        scored_as(g, device_type, old(go).mcs@, mc_assignments@, r.0@, &r.1),
{
    let num_fbs = mc_assignments.len();
    let mut par_results_per_fb: Vec<Option<PARZIAAssignment>> = Vec::new();
    let mut placement_violations = PlacementViolations::new();
    let mut fb_i: usize = 0;
    while fb_i < num_fbs
        invariant
            fb_i <= num_fbs,
            num_fbs == NUM_LOC_FBS,
            g.wf(),
            device_type.wf(),
            placement_refs_ok(g, mc_assignments@),
            mcs_placed(g, go.mcs@),
            go.pterms@.len() == g.pterms@.len(),
            only_pterms_differ(old(go), go),
            par_results_per_fb@.len() == fb_i,
            forall|f: int|
                0 <= f < fb_i && fb_assignable(
                    g,
                    device_type,
                    old(go).mcs@,
                    (#[trigger] mc_assignments@[f])@,
                ) ==> par_results_per_fb@[f] is Some,
            forall|f: int|
                0 <= f < fb_i && fb_unassignable(
                    g,
                    device_type,
                    old(go).mcs@,
                    (#[trigger] mc_assignments@[f])@,
                ) ==> par_results_per_fb@[f] is None,
            placement_violations.wf(),
            all_assigned(par_results_per_fb@) && (forall|f: int|
                0 <= f < NUM_LOC_FBS ==> #[trigger] no_clash_in(g, mc_assignments@, f))
                ==> placement_violations.no_violation(),
            forall|f: int, m: int, p: bool|
                0 <= f < NUM_LOC_FBS && 0 <= m < MCS_PER_FB
                    && #[trigger] placement_violations.score(f, m, p) > 0 ==> f < fb_i && movable(
                    g,
                    mc_assignments@,
                    f,
                    m,
                    p,
                ),
            forall|f: int, m: int, p: bool|
                0 <= f < fb_i && 0 <= m < MCS_PER_FB && pair_clash(g, mc_assignments@, f, m)
                    && movable(g, mc_assignments@, f, m, p)
                    ==> #[trigger] placement_violations.score(f, m, p) > 0,
            all_assigned(par_results_per_fb@) ==> chip_done(
                g,
                device_type,
                go,
                mc_assignments@,
                par_results_per_fb@,
            ),
            forall|f: int|
                0 <= f < fb_i ==> ((#[trigger] par_results_per_fb@[f]) is Some <==> fb_score(
                    g,
                    device_type,
                    old(go).mcs@,
                    mc_assignments@[f]@,
                ) == 0),
            forall|f: int, m: int, p: bool|
                0 <= f < fb_i && 0 <= m < MCS_PER_FB ==> #[trigger] placement_violations.score(
                    f,
                    m,
                    p,
                ) == slot_scored(g, device_type, old(go).mcs@, mc_assignments@, f, m, p, 0),
            forall|f: int, m: int, p: bool|
                fb_i <= f < NUM_LOC_FBS && 0 <= m < MCS_PER_FB
                    ==> #[trigger] placement_violations.score(f, m, p) == 0,
        decreases num_fbs - fb_i,
    {
        let ghost before = *go;
        let ghost results0 = par_results_per_fb@;
        let ghost scores0 = placement_violations;
        let fb_assign_result = try_assign_fb(
            g,
            go,
            mc_assignments,
            fb_i as u32,
            &mut placement_violations,
            device_type,
        );
        par_results_per_fb.push(fb_assign_result);
        proof {
            assert forall|f: int, m: int, p: bool|
                0 <= f < NUM_LOC_FBS && 0 <= m < MCS_PER_FB
                    && #[trigger] placement_violations.score(f, m, p) > 0 implies f < fb_i + 1
                && movable(g, mc_assignments@, f, m, p) by {
                if f != fb_i {
                    assert(scores0.score(f, m, p) > 0);
                } else {
                    assert(!(scores0.score(f, m, p) > 0));
                }
            }
            assert forall|f: int, m: int, p: bool|
                0 <= f < fb_i + 1 && 0 <= m < MCS_PER_FB && pair_clash(g, mc_assignments@, f, m)
                    && movable(
                    g,
                    mc_assignments@,
                    f,
                    m,
                    p,
                ) implies #[trigger] placement_violations.score(f, m, p) > 0 by {
                if f != fb_i {
                    assert(scores0.score(f, m, p) > 0);
                }
            }
            if all_assigned(par_results_per_fb@) && (forall|f: int|
                0 <= f < NUM_LOC_FBS ==> #[trigger] no_clash_in(g, mc_assignments@, f)) {
                assert forall|f: int| 0 <= f < results0.len() implies (
                #[trigger] results0[f]) is Some by {
                    assert(par_results_per_fb@[f] is Some);
                    assert(par_results_per_fb@[f] == results0[f]);
                }
                assert(par_results_per_fb@[fb_i as int] is Some);
                assert(no_clash_in(g, mc_assignments@, fb_i as int));
                assert(scores0.no_violation());
                assert forall|f: int, m: int, p: bool|
                    0 <= f < NUM_LOC_FBS && 0 <= m < MCS_PER_FB
                    implies #[trigger] placement_violations.score(f, m, p) == 0 by {
                    assert(scores0.score(f, m, p) == 0);
                }
            }
            if all_assigned(par_results_per_fb@) {
                assert forall|f: int| 0 <= f < results0.len() implies (
                #[trigger] results0[f]) is Some by {
                    assert(par_results_per_fb@[f] is Some);
                    assert(par_results_per_fb@[f] == results0[f]);
                }
                assert(par_results_per_fb@[fb_i as int] is Some);
                let zia = fb_assign_result.unwrap();
                assert forall|f: int| 0 <= f < par_results_per_fb@.len() implies ((
                #[trigger] par_results_per_fb@[f]) matches Some(z) && fb_done(
                    g,
                    device_type,
                    go.mcs@,
                    go.pterms@,
                    mc_assignments@,
                    f as u32,
                    z@,
                )) by {
                    if f < fb_i {
                        assert(results0[f] == par_results_per_fb@[f]);
                        let z0 = results0[f].unwrap();
                        lemma_done_kept(
                            g,
                            device_type,
                            &before,
                            go,
                            mc_assignments@,
                            f as u32,
                            z0@,
                            fb_i as u32,
                            zia@,
                        );
                    } else {
                        lemma_assigned_is_done(
                            g,
                            device_type,
                            &before,
                            go,
                            mc_assignments@,
                            fb_i as u32,
                            zia@,
                        );
                    }
                }
            }
        }
        fb_i += 1;
    }
    let placement_violations_score = placement_violations.sum();
    proof {
        placement_violations.lemma_total(g, device_type, old(go).mcs@, mc_assignments@);
    }
    (par_results_per_fb, placement_violations, placement_violations_score)
}

/// A macrocell of a netlist without product terms uses none.
proof fn lemma_mc_uses_nothing(g: &InputGraph, mc: &crate::netlist::InputGraphMacrocell, i: int)
    requires
        g.mc_refs_ok(mc),
        g.pterms@.len() == 0,
    ensures
        crate::andterms::special_uses(g, mc, i).len() == 0,
        crate::andterms::special_misses(g, mc, i) == 0,
        crate::andterms::or_inputs(mc).len() == 0,
        crate::ziaroute::mc_pterms(mc).len() == 0,
{
    reveal(crate::andterms::opt_use);
    reveal(crate::andterms::opt_miss);
    crate::andterms::lemma_special_refs(g, mc);
    let ins = crate::andterms::or_inputs(mc);
    if ins.len() > 0 {
        assert(ins[0] < g.pterms@.len());
    }
}

/// The blocks of a netlist without product terms use none and need no
/// inputs.
proof fn lemma_fb_uses_nothing(g: &InputGraph, a: Seq<(PARMCAssignment, PARMCAssignment)>, n: int)
    requires
        g.wf(),
        g.pterms@.len() == 0,
        block_refs_ok(g, a),
        0 <= n <= MCS_PER_FB,
    ensures
        crate::andterms::fb_special_uses(g, a, n).len() == 0,
        crate::andterms::fb_or_locked_uses(g, a, n).len() == 0,
        crate::andterms::fb_or_free_uses(g, a, n).len() == 0,
        crate::andterms::fb_special_misses(g, a, n) == 0,
        crate::andterms::fb_or_misses(g, a, n) == 0,
        fb_pterms(g, a, n).len() == 0,
    decreases n,
{
    if n > 0 {
        lemma_fb_uses_nothing(g, a, n - 1);
        match logic_mc(a, n - 1) {
            Some(m) => {
                let mc = &g.mcs@[m as int];
                assert(g.mc_refs_ok(mc));
                lemma_mc_uses_nothing(g, mc, n - 1);
            },
            None => {},
        }
    }
}

/// Every block of a netlist without product terms can be assigned.
pub proof fn lemma_no_pterms_assignable(
    g: &InputGraph,
    device: &DeviceSpec,
    mcs: Seq<OutputGraphMacrocell>,
    a: Seq<(PARMCAssignment, PARMCAssignment)>,
)
    requires
        g.wf(),
        g.pterms@.len() == 0,
        block_refs_ok(g, a),
    ensures
        fb_assignable(g, device, mcs, a),
{
    lemma_fb_uses_nothing(g, a, MCS_PER_FB as int);
    let cu = crate::andterms::constrained_uses(g, a);
    let none = Seq::<u32>::empty();
    assert(none.subrange(0, 0) =~= none);
    assert(crate::andterms::completes(g, cu, 0, Seq::empty(), none));
    let inputs = fb_inputs(g, a);
    assert(inputs.len() == 0);
    let choices = crate::ziaroute::input_choices(g, mcs, inputs);
    assert(crate::ziaroute::routes(&device.zia, choices, 0, Seq::empty(), none));
}

/// A sum of scores that includes a score above zero is above zero.
proof fn lemma_sum_positive(scores: Seq<u32>, i: int, n: int)
    requires
        0 <= i < n <= scores.len(),
        scores[i] > 0,
    ensures
        sum_scores(scores, n) > 0,
        sum_scores(scores, n) >= 0,
    decreases n,
{
    lemma_sum_nonneg(scores, n - 1);
    if i < n - 1 {
        lemma_sum_positive(scores, i, n - 1);
    }
}

/// A sum of scores is not below zero.
proof fn lemma_sum_nonneg(scores: Seq<u32>, n: int)
    ensures
        sum_scores(scores, n) >= 0,
    decreases n,
{
    if n > 0 {
        lemma_sum_nonneg(scores, n - 1);
    }
}

} // verus!
