//! The results of place and route: where every netlist item went, and the
//! placement state that the engine works on.

use vstd::prelude::*;
use crate::mc::MCS_PER_FB;
use crate::netlist::AssignedLocation;
use crate::netlist::InputGraph;
use crate::netlist::InputGraphMacrocell;
use crate::netlist::InputGraphMacrocellType;
use crate::netlist::NUM_LOC_FBS;
use crate::zia::XC2ZIAInput;
use crate::zia::INPUTS_PER_ANDTERM;

verus! {

/// What one half of a macrocell site holds.
#[derive(Copy, Clone, PartialEq, Eq, Structural, Debug, Hash)]
pub enum PARMCAssignment {
    /// The macrocell with this index in the netlist.
    MC(usize),
    /// Nothing yet.
    Empty,
    /// Nothing ever: the half does not exist.
    Banned,
}

/// The sites of one function block: for each, what its logic half and what
/// its pin-input half holds.
pub type PARFBAssignment = [(PARMCAssignment, PARMCAssignment); 16];

/// A half of a site: function block, macrocell, and whether it is the
/// pin-input half.
pub type PARFBAssignLoc = (u32, u32, bool);

/// The inputs chosen for the ZIA rows of one function block. A row that
/// routes nothing holds `One`.
#[derive(Copy, Clone, Debug)]
pub struct PARZIAAssignment {
    x: [XC2ZIAInput; 40],
}

impl View for PARZIAAssignment {
    type V = Seq<XC2ZIAInput>;

    closed spec fn view(&self) -> Seq<XC2ZIAInput> {
        self.x@
    }
}

impl PARZIAAssignment {
    /// An assignment in which no row routes anything.
    pub fn new() -> (r: Self)
        ensures
            r@.len() == INPUTS_PER_ANDTERM,
            forall|i: int| 0 <= i < INPUTS_PER_ANDTERM ==> r@[i] == XC2ZIAInput::One,
    {
        Self { x: [XC2ZIAInput::One; 40] }
    }

    /// The input of row `i`.
    pub fn get(&self, i: usize) -> (r: XC2ZIAInput)
        requires
            i < INPUTS_PER_ANDTERM,
        ensures
            r == self@[i as int],
    {
        self.x[i]
    }

    /// Makes row `i` select `x`.
    pub fn set(&mut self, i: usize, x: XC2ZIAInput)
        requires
            i < INPUTS_PER_ANDTERM,
        ensures
            final(self)@ == old(self)@.update(i as int, x),
    {
        self.x[i] = x;
    }

    /// Every assignment has one entry per ZIA row.
    pub proof fn lemma_len(&self)
        ensures
            self@.len() == INPUTS_PER_ANDTERM,
    {
    }
}

/// Where a macrocell went.
#[derive(Clone, Copy, Debug)]
pub struct OutputGraphMacrocell {
    pub loc: Option<AssignedLocation>,
}

/// Where a product term went, and the ZIA rows that carry its inputs: one
/// row per true input and one per complemented input, in the order of the
/// netlist.
#[derive(Clone, Debug)]
pub struct OutputGraphPTerm {
    pub loc: Option<AssignedLocation>,
    pub inputs_true_zia: Vec<u32>,
    pub inputs_comp_zia: Vec<u32>,
}

/// Where a global clock buffer went.
#[derive(Clone, Copy, Debug)]
pub struct OutputGraphBufgClk {
    pub loc: Option<AssignedLocation>,
}

/// Where a global tristate buffer went.
#[derive(Clone, Copy, Debug)]
pub struct OutputGraphBufgGTS {
    pub loc: Option<AssignedLocation>,
}

/// Where a global set/reset buffer went.
#[derive(Clone, Copy, Debug)]
pub struct OutputGraphBufgGSR {
    pub loc: Option<AssignedLocation>,
}

/// The placement of a netlist: pool for pool the locations of its items,
/// and the ZIA assignment of each function block.
#[derive(Clone, Debug)]
pub struct OutputGraph {
    pub mcs: Vec<OutputGraphMacrocell>,
    pub pterms: Vec<OutputGraphPTerm>,
    pub bufg_clks: Vec<OutputGraphBufgClk>,
    pub bufg_gts: Vec<OutputGraphBufgGTS>,
    pub bufg_gsr: Vec<OutputGraphBufgGSR>,
    pub zia: Vec<PARZIAAssignment>,
}

impl OutputGraph {
    /// The pools have the sizes of the pools of `g`.
    pub open spec fn shaped_like(&self, g: &InputGraph) -> bool {
        &&& self.mcs@.len() == g.mcs@.len()
        &&& self.pterms@.len() == g.pterms@.len()
        &&& self.bufg_clks@.len() == g.bufg_clks@.len()
        &&& self.bufg_gts@.len() == g.bufg_gts@.len()
        &&& self.bufg_gsr@.len() == g.bufg_gsr@.len()
    }

    /// Nothing is placed: no item has a location, no product term has ZIA
    /// rows, and no function block has a ZIA assignment.
    pub open spec fn is_blank(&self) -> bool {
        &&& forall|i: int| 0 <= i < self.mcs@.len() ==> (#[trigger] self.mcs@[i]).loc is None
        &&& forall|i: int|
            0 <= i < self.pterms@.len() ==> {
                &&& (#[trigger] self.pterms@[i]).loc is None
                &&& self.pterms@[i].inputs_true_zia@.len() == 0
                &&& self.pterms@[i].inputs_comp_zia@.len() == 0
            }
        &&& forall|i: int|
            0 <= i < self.bufg_clks@.len() ==> (#[trigger] self.bufg_clks@[i]).loc is None
        &&& forall|i: int|
            0 <= i < self.bufg_gts@.len() ==> (#[trigger] self.bufg_gts@[i]).loc is None
        &&& forall|i: int|
            0 <= i < self.bufg_gsr@.len() ==> (#[trigger] self.bufg_gsr@[i]).loc is None
        &&& self.zia@.len() == 0
    }

    /// The placement of `gi` in which nothing is placed yet.
    pub fn from_input_graph(gi: &InputGraph) -> (r: Self)
        ensures
            r.shaped_like(gi),
            r.is_blank(),
    {
        let mut mcs: Vec<OutputGraphMacrocell> = Vec::new();
        let mut pterms: Vec<OutputGraphPTerm> = Vec::new();
        let mut bufg_clks: Vec<OutputGraphBufgClk> = Vec::new();
        let mut bufg_gts: Vec<OutputGraphBufgGTS> = Vec::new();
        let mut bufg_gsr: Vec<OutputGraphBufgGSR> = Vec::new();
        let zia: Vec<PARZIAAssignment> = Vec::new();

        let mut i: usize = 0;
        while i < gi.mcs.len()
            invariant
                i <= gi.mcs@.len(),
                mcs@.len() == i,
                forall|k: int| 0 <= k < i ==> (#[trigger] mcs@[k]).loc is None,
            decreases gi.mcs@.len() - i,
        {
            mcs.push(OutputGraphMacrocell { loc: None });
            i += 1;
        }
        let mut i: usize = 0;
        while i < gi.pterms.len()
            invariant
                i <= gi.pterms@.len(),
                pterms@.len() == i,
                forall|k: int|
                    0 <= k < i ==> {
                        &&& (#[trigger] pterms@[k]).loc is None
                        &&& pterms@[k].inputs_true_zia@.len() == 0
                        &&& pterms@[k].inputs_comp_zia@.len() == 0
                    },
            decreases gi.pterms@.len() - i,
        {
            pterms.push(
                OutputGraphPTerm {
                    loc: None,
                    inputs_true_zia: Vec::new(),
                    inputs_comp_zia: Vec::new(),
                },
            );
            i += 1;
        }
        let mut i: usize = 0;
        while i < gi.bufg_clks.len()
            invariant
                i <= gi.bufg_clks@.len(),
                bufg_clks@.len() == i,
                forall|k: int| 0 <= k < i ==> (#[trigger] bufg_clks@[k]).loc is None,
            decreases gi.bufg_clks@.len() - i,
        {
            bufg_clks.push(OutputGraphBufgClk { loc: None });
            i += 1;
        }
        let mut i: usize = 0;
        while i < gi.bufg_gts.len()
            invariant
                i <= gi.bufg_gts@.len(),
                bufg_gts@.len() == i,
                forall|k: int| 0 <= k < i ==> (#[trigger] bufg_gts@[k]).loc is None,
            decreases gi.bufg_gts@.len() - i,
        {
            bufg_gts.push(OutputGraphBufgGTS { loc: None });
            i += 1;
        }
        let mut i: usize = 0;
        while i < gi.bufg_gsr.len()
            invariant
                i <= gi.bufg_gsr@.len(),
                bufg_gsr@.len() == i,
                forall|k: int| 0 <= k < i ==> (#[trigger] bufg_gsr@[k]).loc is None,
            decreases gi.bufg_gsr@.len() - i,
        {
            bufg_gsr.push(OutputGraphBufgGSR { loc: None });
            i += 1;
        }

        Self { mcs, pterms, bufg_clks, bufg_gts, bufg_gsr, zia }
    }
}

/// The pairing rule of a site: whether the macrocell `mc0` in the logic
/// half can share the site with `mc1` in the pin-input half. A buried
/// combinatorial cell pairs with any pin input; a buried register pairs
/// with an unregistered pin input unless the cell also feeds back its XOR
/// output; nothing else pairs.
pub open spec fn can_pair(mc0: &InputGraphMacrocell, mc1: &InputGraphMacrocell) -> bool {
    let t0 = mc0.spec_get_type();
    let t1 = mc1.spec_get_type();
    ||| (t0 == InputGraphMacrocellType::BuriedComb && t1 == InputGraphMacrocellType::PinInputUnreg)
    ||| (t0 == InputGraphMacrocellType::BuriedComb && t1 == InputGraphMacrocellType::PinInputReg)
    ||| (t0 == InputGraphMacrocellType::BuriedReg && t1 == InputGraphMacrocellType::PinInputUnreg
        && !mc0.xor_feedback_used)
}

/// Whether `mc0` in the logic half of a site can share the site with
/// `mc1` in the pin-input half.
pub fn mcs_can_be_paired(mc0: &InputGraphMacrocell, mc1: &InputGraphMacrocell) -> (r: bool)
    ensures
        r == can_pair(mc0, mc1),
{
    let type_0 = mc0.get_type();
    let type_1 = mc1.get_type();
    match (type_0, type_1) {
        (InputGraphMacrocellType::BuriedComb, InputGraphMacrocellType::PinInputUnreg) => true,
        (InputGraphMacrocellType::BuriedComb, InputGraphMacrocellType::PinInputReg) => true,
        (InputGraphMacrocellType::BuriedReg, InputGraphMacrocellType::PinInputUnreg) => {
            !mc0.xor_feedback_used
        },
        _ => false,
    }
}

/// Whether the macrocells with indices `mc_idx_0` and `mc_idx_1` of `g`
/// can share a site, the first in the logic half.
pub fn mcs_idx_can_be_paired(g: &InputGraph, mc_idx_0: usize, mc_idx_1: usize) -> (r: bool)
    requires
        mc_idx_0 < g.mcs@.len(),
        mc_idx_1 < g.mcs@.len(),
    ensures
        r == can_pair(&g.mcs@[mc_idx_0 as int], &g.mcs@[mc_idx_1 as int]),
{
    mcs_can_be_paired(&g.mcs[mc_idx_0], &g.mcs[mc_idx_1])
}

/// What the half `pin` of site `mc` of function block `fb` holds.
pub open spec fn slot(pl: Seq<PARFBAssignment>, fb: int, mc: int, pin: bool) -> PARMCAssignment {
    if pin {
        pl[fb]@[mc].1
    } else {
        pl[fb]@[mc].0
    }
}

/// The shape of a chip placement: one entry per function block and one
/// more for the dedicated input pin, whose only usable half is the
/// pin-input half of its first site. Every other half of that block is
/// banned, and no half of a real function block is.
pub open spec fn placement_shape(pl: Seq<PARFBAssignment>) -> bool {
    &&& pl.len() == NUM_LOC_FBS
    &&& forall|fb: int, mc: int, pin: bool|
        0 <= fb < NUM_LOC_FBS && 0 <= mc < MCS_PER_FB ==> ((#[trigger] slot(pl, fb, mc, pin))
            == PARMCAssignment::Banned <==> fb == 2 && !(mc == 0 && pin))
}

/// A placement and the macrocell locations of an output graph describe
/// each other: the half that holds a macrocell is where its location
/// points, it is the half for its kind, and every macrocell of the netlist
/// is held somewhere.
pub open spec fn placement_matches(g: &InputGraph, mcs: Seq<OutputGraphMacrocell>, pl: Seq<PARFBAssignment>) -> bool {
    &&& mcs.len() == g.mcs@.len()
    &&& forall|fb: int, mc: int, pin: bool|
        0 <= fb < NUM_LOC_FBS && 0 <= mc < MCS_PER_FB ==> (#[trigger] slot(pl, fb, mc, pin)
            matches PARMCAssignment::MC(i) ==> {
            &&& i < g.mcs@.len()
            &&& g.mcs@[i as int].is_pin() == pin
            &&& mcs[i as int].loc == Some(AssignedLocation { fb: fb as u32, i: mc as u32 })
        })
    &&& forall|i: int|
        0 <= i < g.mcs@.len() ==> ((#[trigger] mcs[i]).loc matches Some(l) && l.fb < NUM_LOC_FBS
            && l.i < MCS_PER_FB && slot(pl, l.fb as int, l.i as int, g.mcs@[i].is_pin())
            == PARMCAssignment::MC(i as usize))
}

/// Every macrocell is where it asked to be: at the site it named, or in
/// the function block it named.
pub open spec fn mc_locs_honored(g: &InputGraph, mcs: Seq<OutputGraphMacrocell>) -> bool {
    forall|i: int|
        0 <= i < g.mcs@.len() ==> ((#[trigger] g.mcs@[i]).requested_loc matches Some(r) ==> (
        mcs[i].loc matches Some(l) && l.fb == r.fb && (r.i matches Some(ri) ==> l.i == ri)))
}

/// A copy of a list of numbers.
pub fn copy_rows(v: &Vec<u32>) -> (r: Vec<u32>)
    ensures
        r@ == v@,
{
    let mut r: Vec<u32> = Vec::new();
    let mut i: usize = 0;
    while i < v.len()
        invariant
            i <= v@.len(),
            r@ == v@.subrange(0, i as int),
        decreases v@.len() - i,
    {
        r.push(v[i]);
        assert(v@.subrange(0, i as int + 1) =~= v@.subrange(0, i as int).push(v@[i as int]));
        i += 1;
    }
    assert(v@.subrange(0, i as int) =~= v@);
    r
}

impl OutputGraph {
    /// Whether `other` holds what this graph holds.
    pub open spec fn same_as(&self, other: &OutputGraph) -> bool {
        &&& self.mcs@ == other.mcs@
        &&& self.bufg_clks@ == other.bufg_clks@
        &&& self.bufg_gts@ == other.bufg_gts@
        &&& self.bufg_gsr@ == other.bufg_gsr@
        &&& self.zia@ == other.zia@
        &&& self.pterms@.len() == other.pterms@.len()
        &&& forall|i: int|
            0 <= i < self.pterms@.len() ==> {
                &&& (#[trigger] self.pterms@[i]).loc == other.pterms@[i].loc
                &&& self.pterms@[i].inputs_true_zia@ == other.pterms@[i].inputs_true_zia@
                &&& self.pterms@[i].inputs_comp_zia@ == other.pterms@[i].inputs_comp_zia@
            }
    }

    /// A copy of this graph.
    pub fn duplicate(&self) -> (r: OutputGraph)
        ensures
            r.same_as(self),
    {
        let mut mcs: Vec<OutputGraphMacrocell> = Vec::new();
        let mut i: usize = 0;
        while i < self.mcs.len()
            invariant
                i <= self.mcs@.len(),
                mcs@ == self.mcs@.subrange(0, i as int),
            decreases self.mcs@.len() - i,
        {
            mcs.push(self.mcs[i]);
            assert(self.mcs@.subrange(0, i as int + 1) =~= self.mcs@.subrange(0, i as int).push(
                self.mcs@[i as int],
            ));
            i += 1;
        }
        assert(self.mcs@.subrange(0, i as int) =~= self.mcs@);
        let mut pterms: Vec<OutputGraphPTerm> = Vec::new();
        let mut i: usize = 0;
        while i < self.pterms.len()
            invariant
                i <= self.pterms@.len(),
                pterms@.len() == i,
                forall|k: int|
                    0 <= k < i ==> {
                        &&& (#[trigger] pterms@[k]).loc == self.pterms@[k].loc
                        &&& pterms@[k].inputs_true_zia@ == self.pterms@[k].inputs_true_zia@
                        &&& pterms@[k].inputs_comp_zia@ == self.pterms@[k].inputs_comp_zia@
                    },
            decreases self.pterms@.len() - i,
        {
            pterms.push(
                OutputGraphPTerm {
                    loc: self.pterms[i].loc,
                    inputs_true_zia: copy_rows(&self.pterms[i].inputs_true_zia),
                    inputs_comp_zia: copy_rows(&self.pterms[i].inputs_comp_zia),
                },
            );
            i += 1;
        }
        let mut bufg_clks: Vec<OutputGraphBufgClk> = Vec::new();
        let mut i: usize = 0;
        while i < self.bufg_clks.len()
            invariant
                i <= self.bufg_clks@.len(),
                bufg_clks@ == self.bufg_clks@.subrange(0, i as int),
            decreases self.bufg_clks@.len() - i,
        {
            bufg_clks.push(self.bufg_clks[i]);
            assert(self.bufg_clks@.subrange(0, i as int + 1) =~= self.bufg_clks@.subrange(
                0,
                i as int,
            ).push(self.bufg_clks@[i as int]));
            i += 1;
        }
        assert(self.bufg_clks@.subrange(0, i as int) =~= self.bufg_clks@);
        let mut bufg_gts: Vec<OutputGraphBufgGTS> = Vec::new();
        let mut i: usize = 0;
        while i < self.bufg_gts.len()
            invariant
                i <= self.bufg_gts@.len(),
                bufg_gts@ == self.bufg_gts@.subrange(0, i as int),
            decreases self.bufg_gts@.len() - i,
        {
            bufg_gts.push(self.bufg_gts[i]);
            assert(self.bufg_gts@.subrange(0, i as int + 1) =~= self.bufg_gts@.subrange(
                0,
                i as int,
            ).push(self.bufg_gts@[i as int]));
            i += 1;
        }
        assert(self.bufg_gts@.subrange(0, i as int) =~= self.bufg_gts@);
        let mut bufg_gsr: Vec<OutputGraphBufgGSR> = Vec::new();
        let mut i: usize = 0;
        while i < self.bufg_gsr.len()
            invariant
                i <= self.bufg_gsr@.len(),
                bufg_gsr@ == self.bufg_gsr@.subrange(0, i as int),
            decreases self.bufg_gsr@.len() - i,
        {
            bufg_gsr.push(self.bufg_gsr[i]);
            assert(self.bufg_gsr@.subrange(0, i as int + 1) =~= self.bufg_gsr@.subrange(
                0,
                i as int,
            ).push(self.bufg_gsr@[i as int]));
            i += 1;
        }
        assert(self.bufg_gsr@.subrange(0, i as int) =~= self.bufg_gsr@);
        let mut zia: Vec<PARZIAAssignment> = Vec::new();
        let mut i: usize = 0;
        while i < self.zia.len()
            invariant
                i <= self.zia@.len(),
                zia@ == self.zia@.subrange(0, i as int),
            decreases self.zia@.len() - i,
        {
            zia.push(self.zia[i]);
            assert(self.zia@.subrange(0, i as int + 1) =~= self.zia@.subrange(0, i as int).push(
                self.zia@[i as int],
            ));
            i += 1;
        }
        assert(self.zia@.subrange(0, i as int) =~= self.zia@);
        OutputGraph { mcs, pterms, bufg_clks, bufg_gts, bufg_gsr, zia }
    }
}

/// A copy of a chip placement.
pub fn copy_placement(pl: &Vec<PARFBAssignment>) -> (r: Vec<PARFBAssignment>)
    ensures
        r@ == pl@,
{
    let mut r: Vec<PARFBAssignment> = Vec::new();
    let mut i: usize = 0;
    while i < pl.len()
        invariant
            i <= pl@.len(),
            r@ == pl@.subrange(0, i as int),
        decreases pl@.len() - i,
    {
        r.push(pl[i]);
        assert(pl@.subrange(0, i as int + 1) =~= pl@.subrange(0, i as int).push(pl@[i as int]));
        i += 1;
    }
    assert(pl@.subrange(0, i as int) =~= pl@);
    r
}

} // verus!
