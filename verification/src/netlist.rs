//! The netlist that place and route consumes: macrocells, product terms and
//! global buffers, held in pools and referring to each other by index.

use vstd::prelude::*;
use crate::mc::XC2MCFFMode;
use crate::mc::MCS_PER_FB;

verus! {

/// Number of global clock buffers of the device.
pub const NUM_BUFG_CLK: usize = 3;

/// Number of global tristate buffers of the device.
pub const NUM_BUFG_GTS: usize = 4;

/// Number of global set/reset buffers of the device.
pub const NUM_BUFG_GSR: usize = 1;

/// Number of function blocks a location may name: the two real ones and
/// the block that stands for the dedicated input pin.
pub const NUM_LOC_FBS: usize = 3;

/// A location that the user asks for: a function block, and optionally a
/// site within it.
#[derive(Clone, Copy, PartialEq, Eq, Structural, Debug, Hash)]
pub struct RequestedLocation {
    pub fb: u32,
    pub i: Option<u32>,
}

/// A location that place and route has chosen.
#[derive(Clone, Copy, PartialEq, Eq, Structural, Debug, Hash)]
pub struct AssignedLocation {
    pub fb: u32,
    pub i: u32,
}

/// What drives an output pad.
#[derive(Clone, Copy, PartialEq, Eq, Structural, Debug, Hash)]
pub enum InputGraphIOInputType {
    Reg,
    Xor,
}

/// What controls the output enable of a pad.
#[derive(Clone, Copy, PartialEq, Eq, Structural, Debug, Hash)]
pub enum InputGraphIOOEType {
    /// A product term, by index into the product-term pool.
    PTerm(usize),
    /// A global tristate buffer, by index into its pool.
    GTS(usize),
    OpenDrain,
}

/// What drives the set or the reset of a register.
#[derive(Clone, Copy, PartialEq, Eq, Structural, Debug, Hash)]
pub enum InputGraphRegRSType {
    /// A product term, by index into the product-term pool.
    PTerm(usize),
    /// The global set/reset buffer, by index into its pool.
    GSR(usize),
}

/// What feeds the data input of a register.
#[derive(Clone, Copy, PartialEq, Eq, Structural, Debug, Hash)]
pub enum InputGraphRegInputType {
    Pin,
    Xor,
}

/// What clocks a register.
#[derive(Clone, Copy, PartialEq, Eq, Structural, Debug, Hash)]
pub enum InputGraphRegClockType {
    /// A product term, by index into the product-term pool.
    PTerm(usize),
    /// A global clock buffer, by index into its pool.
    GCK(usize),
}

/// Which output of a macrocell a product term reads.
#[derive(Clone, Copy, PartialEq, Eq, Structural, Debug, Hash)]
pub enum InputGraphPTermInputType {
    Reg,
    Xor,
    Pin,
}

/// One input of a product term: an output kind of a macrocell of the pool.
#[derive(Clone, Copy, PartialEq, Eq, Structural, Debug, Hash)]
pub struct InputGraphPTermInput {
    pub kind: InputGraphPTermInputType,
    pub mc: usize,
}

/// The I/O part of a macrocell.
#[derive(Clone, Copy, Debug)]
pub struct InputGraphIOBuf {
    pub input: Option<InputGraphIOInputType>,
    pub oe: Option<InputGraphIOOEType>,
    pub schmitt_trigger: bool,
    pub termination_enabled: bool,
    pub slew_is_fast: bool,
    pub uses_data_gate: bool,
}

/// The register part of a macrocell.
#[derive(Clone, Copy, Debug)]
pub struct InputGraphReg {
    pub mode: XC2MCFFMode,
    pub clkinv: bool,
    pub clkddr: bool,
    pub init_state: bool,
    pub set_input: Option<InputGraphRegRSType>,
    pub reset_input: Option<InputGraphRegRSType>,
    pub ce_input: Option<usize>,
    pub dt_input: InputGraphRegInputType,
    pub clk_input: InputGraphRegClockType,
}

/// The XOR gate and OR term of a macrocell.
#[derive(Clone, Debug)]
pub struct InputGraphXor {
    pub orterm_inputs: Vec<usize>,
    pub andterm_input: Option<usize>,
    pub invert_out: bool,
}

/// The kinds of macrocell that place and route tells apart.
#[derive(Clone, Copy, PartialEq, Eq, Structural, Debug, Hash)]
pub enum InputGraphMacrocellType {
    PinOutput,
    PinInputUnreg,
    PinInputReg,
    BuriedComb,
    BuriedReg,
}

impl InputGraphMacrocellType {
    /// Whether this kind occupies the pin-input half of a site.
    pub open spec fn spec_is_pininput(self) -> bool {
        self == InputGraphMacrocellType::PinInputUnreg || self
            == InputGraphMacrocellType::PinInputReg
    }

    /// Whether this kind occupies the pin-input half of a site.
    pub fn is_pininput(&self) -> (r: bool)
        ensures
            r == self.spec_is_pininput(),
    {
        match self {
            InputGraphMacrocellType::PinInputUnreg => true,
            InputGraphMacrocellType::PinInputReg => true,
            _ => false,
        }
    }
}

/// A macrocell of the netlist.
#[derive(Clone, Debug)]
pub struct InputGraphMacrocell {
    pub name: String,
    pub requested_loc: Option<RequestedLocation>,
    pub io_bits: Option<InputGraphIOBuf>,
    pub reg_bits: Option<InputGraphReg>,
    pub xor_bits: Option<InputGraphXor>,
    pub io_feedback_used: bool,
    pub reg_feedback_used: bool,
    pub xor_feedback_used: bool,
}

impl InputGraphMacrocell {
    /// The kind of this macrocell: a pad that drives out is an output, a
    /// pad that only reads is a pin input (registered if it has a
    /// register), and a cell without a pad is buried.
    pub open spec fn spec_get_type(&self) -> InputGraphMacrocellType {
        match self.io_bits {
            Some(io) => if io.input is Some {
                InputGraphMacrocellType::PinOutput
            } else if self.reg_bits is Some {
                InputGraphMacrocellType::PinInputReg
            } else {
                InputGraphMacrocellType::PinInputUnreg
            },
            None => if self.reg_bits is Some {
                InputGraphMacrocellType::BuriedReg
            } else {
                InputGraphMacrocellType::BuriedComb
            },
        }
    }

    /// The kind of this macrocell.
    pub fn get_type(&self) -> (r: InputGraphMacrocellType)
        ensures
            r == self.spec_get_type(),
    {
        match &self.io_bits {
            Some(io) => {
                if io.input.is_some() {
                    InputGraphMacrocellType::PinOutput
                } else if self.reg_bits.is_some() {
                    InputGraphMacrocellType::PinInputReg
                } else {
                    InputGraphMacrocellType::PinInputUnreg
                }
            },
            None => {
                if self.reg_bits.is_some() {
                    InputGraphMacrocellType::BuriedReg
                } else {
                    InputGraphMacrocellType::BuriedComb
                }
            },
        }
    }

    /// Whether this macrocell occupies the pin-input half of a site.
    pub open spec fn is_pin(&self) -> bool {
        self.spec_get_type().spec_is_pininput()
    }

    /// Whether the location asked for names a site, not only a block.
    pub open spec fn fully_locked(&self) -> bool {
        self.requested_loc matches Some(l) && l.i is Some
    }

    /// Whether the location asked for names a site, not only a block.
    pub fn is_fully_locked(&self) -> (r: bool)
        ensures
            r == self.fully_locked(),
    {
        match self.requested_loc {
            Some(l) => l.i.is_some(),
            None => false,
        }
    }

    /// Everything but the requested location agrees with `other`.
    pub open spec fn same_logic(&self, other: &InputGraphMacrocell) -> bool {
        &&& self.name == other.name
        &&& self.io_bits == other.io_bits
        &&& self.reg_bits == other.reg_bits
        &&& self.xor_bits == other.xor_bits
        &&& self.io_feedback_used == other.io_feedback_used
        &&& self.reg_feedback_used == other.reg_feedback_used
        &&& self.xor_feedback_used == other.xor_feedback_used
    }
}

/// A product term of the netlist.
#[derive(Clone, Debug)]
pub struct InputGraphPTerm {
    pub name: String,
    pub requested_loc: Option<RequestedLocation>,
    pub inputs_true: Vec<InputGraphPTermInput>,
    pub inputs_comp: Vec<InputGraphPTermInput>,
}

/// A global clock buffer of the netlist.
#[derive(Clone, Debug)]
pub struct InputGraphBufgClk {
    pub name: String,
    pub requested_loc: Option<RequestedLocation>,
    pub input: usize,
}

/// A global tristate buffer of the netlist.
#[derive(Clone, Debug)]
pub struct InputGraphBufgGTS {
    pub name: String,
    pub requested_loc: Option<RequestedLocation>,
    pub input: usize,
    pub invert: bool,
}

/// A global set/reset buffer of the netlist.
#[derive(Clone, Debug)]
pub struct InputGraphBufgGSR {
    pub name: String,
    pub requested_loc: Option<RequestedLocation>,
    pub input: usize,
    pub invert: bool,
}

/// The netlist: four pools whose items refer to each other by index.
#[derive(Clone, Debug)]
pub struct InputGraph {
    pub mcs: Vec<InputGraphMacrocell>,
    pub pterms: Vec<InputGraphPTerm>,
    pub bufg_clks: Vec<InputGraphBufgClk>,
    pub bufg_gts: Vec<InputGraphBufgGTS>,
    pub bufg_gsr: Vec<InputGraphBufgGSR>,
}

/// Whether `x` occurs in `s`.
pub fn inputs_contain(s: &Vec<InputGraphPTermInput>, x: InputGraphPTermInput) -> (r: bool)
    ensures
        r == s@.contains(x),
{
    let mut i: usize = 0;
    while i < s.len()
        invariant
            i <= s.len(),
            forall|k: int| 0 <= k < i ==> s@[k] != x,
        decreases s.len() - i,
    {
        if s[i] == x {
            return true;
        }
        i += 1;
    }
    false
}

/// Whether every item of `a` occurs in `b`.
pub fn inputs_subset(a: &Vec<InputGraphPTermInput>, b: &Vec<InputGraphPTermInput>) -> (r: bool)
    ensures
        r == (forall|x: InputGraphPTermInput| a@.contains(x) ==> b@.contains(x)),
{
    let mut i: usize = 0;
    while i < a.len()
        invariant
            i <= a.len(),
            forall|k: int| 0 <= k < i ==> b@.contains(#[trigger] a@[k]),
        decreases a.len() - i,
    {
        if !inputs_contain(b, a[i]) {
            assert(a@.contains(a@[i as int]));
            return false;
        }
        i += 1;
    }
    assert forall|x: InputGraphPTermInput| a@.contains(x) implies b@.contains(x) by {
        let k = choose|k: int| 0 <= k < a@.len() && a@[k] == x;
        assert(b@.contains(a@[k]));
    }
    true
}

/// Structural equality of two lists of inputs: they hold the same inputs,
/// in whatever order and however often.
pub open spec fn same_inputs(a: Seq<InputGraphPTermInput>, b: Seq<InputGraphPTermInput>) -> bool {
    forall|x: InputGraphPTermInput| a.contains(x) <==> b.contains(x)
}

impl InputGraphPTerm {
    /// Structural equality of product terms: the same true inputs and the
    /// same complemented inputs. Names and locations play no part.
    pub open spec fn spec_equals(&self, other: &InputGraphPTerm) -> bool {
        &&& same_inputs(self.inputs_true@, other.inputs_true@)
        &&& same_inputs(self.inputs_comp@, other.inputs_comp@)
    }

    /// Structural equality of product terms.
    pub fn equals(&self, other: &InputGraphPTerm) -> (r: bool)
        ensures
            r == self.spec_equals(other),
    {
        inputs_subset(&self.inputs_true, &other.inputs_true) && inputs_subset(
            &other.inputs_true,
            &self.inputs_true,
        ) && inputs_subset(&self.inputs_comp, &other.inputs_comp) && inputs_subset(
            &other.inputs_comp,
            &self.inputs_comp,
        )
    }
}

/// Structural equality of product terms is reflexive, symmetric and
/// transitive.
pub proof fn lemma_pterm_equals_equivalence(
    a: &InputGraphPTerm,
    b: &InputGraphPTerm,
    c: &InputGraphPTerm,
)
    ensures
        a.spec_equals(a),
        a.spec_equals(b) ==> b.spec_equals(a),
        a.spec_equals(b) && b.spec_equals(c) ==> a.spec_equals(c),
{
}

/// Whether a requested macrocell location names an existing site.
pub open spec fn mc_loc_in_range(loc: Option<RequestedLocation>) -> bool {
    match loc {
        Some(l) => l.fb < NUM_LOC_FBS && (l.i matches Some(i) ==> i < MCS_PER_FB),
        None => true,
    }
}

/// Whether a requested buffer location names one of `count` buffer sites.
pub open spec fn buf_loc_in_range(loc: Option<RequestedLocation>, count: int) -> bool {
    match loc {
        Some(l) => (l.i matches Some(i) ==> i < count),
        None => true,
    }
}

impl InputGraph {
    /// Whether macrocell `mc` refers only to items that exist.
    pub open spec fn mc_refs_ok(&self, mc: &InputGraphMacrocell) -> bool {
        &&& mc_loc_in_range(mc.requested_loc)
        &&& match mc.io_bits {
            Some(io) => match io.oe {
                Some(InputGraphIOOEType::PTerm(p)) => p < self.pterms@.len(),
                Some(InputGraphIOOEType::GTS(b)) => b < self.bufg_gts@.len(),
                _ => true,
            },
            None => true,
        }
        &&& match mc.xor_bits {
            Some(x) => {
                &&& x.orterm_inputs@.len() <= u16::MAX
                &&& forall|k: int|
                    0 <= k < x.orterm_inputs@.len() ==> #[trigger] x.orterm_inputs@[k]
                        < self.pterms@.len()
                &&& (x.andterm_input matches Some(p) ==> p < self.pterms@.len())
            },
            None => true,
        }
        &&& match mc.reg_bits {
            Some(r) => {
                &&& match r.set_input {
                    Some(InputGraphRegRSType::PTerm(p)) => p < self.pterms@.len(),
                    Some(InputGraphRegRSType::GSR(b)) => b < self.bufg_gsr@.len(),
                    None => true,
                }
                &&& match r.reset_input {
                    Some(InputGraphRegRSType::PTerm(p)) => p < self.pterms@.len(),
                    Some(InputGraphRegRSType::GSR(b)) => b < self.bufg_gsr@.len(),
                    None => true,
                }
                &&& (r.ce_input matches Some(p) ==> p < self.pterms@.len())
                &&& match r.clk_input {
                    InputGraphRegClockType::PTerm(p) => p < self.pterms@.len(),
                    InputGraphRegClockType::GCK(b) => b < self.bufg_clks@.len(),
                }
            },
            None => true,
        }
    }

    /// Whether product term `pt` refers only to macrocells that exist.
    pub open spec fn pterm_refs_ok(&self, pt: &InputGraphPTerm) -> bool {
        &&& forall|k: int|
            0 <= k < pt.inputs_true@.len() ==> (#[trigger] pt.inputs_true@[k]).mc < self.mcs@.len()
        &&& forall|k: int|
            0 <= k < pt.inputs_comp@.len() ==> (#[trigger] pt.inputs_comp@[k]).mc < self.mcs@.len()
    }

    /// The netlist is well formed: every index refers to an item of the
    /// right pool, every requested location names a site that exists, and
    /// the pools are small enough for their sizes to be counted in 32 bits.
    pub open spec fn wf(&self) -> bool {
        &&& self.mcs@.len() <= u16::MAX
        &&& self.pterms@.len() <= u32::MAX
        &&& forall|i: int| 0 <= i < self.mcs@.len() ==> self.mc_refs_ok(#[trigger] &self.mcs@[i])
        &&& forall|i: int|
            0 <= i < self.pterms@.len() ==> self.pterm_refs_ok(#[trigger] &self.pterms@[i])
        &&& forall|i: int|
            0 <= i < self.bufg_clks@.len() ==> (#[trigger] self.bufg_clks@[i]).input
                < self.mcs@.len() && buf_loc_in_range(
                self.bufg_clks@[i].requested_loc,
                NUM_BUFG_CLK as int,
            )
        &&& forall|i: int|
            0 <= i < self.bufg_gts@.len() ==> (#[trigger] self.bufg_gts@[i]).input
                < self.mcs@.len() && buf_loc_in_range(
                self.bufg_gts@[i].requested_loc,
                NUM_BUFG_GTS as int,
            )
        &&& forall|i: int|
            0 <= i < self.bufg_gsr@.len() ==> (#[trigger] self.bufg_gsr@[i]).input
                < self.mcs@.len() && buf_loc_in_range(
                self.bufg_gsr@[i].requested_loc,
                NUM_BUFG_GSR as int,
            )
    }
}

/// Whether a requested macrocell location names an existing site.
fn mc_loc_ok(loc: Option<RequestedLocation>) -> (r: bool)
    ensures
        r == mc_loc_in_range(loc),
{
    match loc {
        Some(l) => l.fb < 3 && (match l.i {
            Some(i) => i < 16,
            None => true,
        }),
        None => true,
    }
}

/// Whether a requested buffer location names one of `count` buffer sites.
fn buf_loc_ok(loc: Option<RequestedLocation>, count: u32) -> (r: bool)
    ensures
        r == buf_loc_in_range(loc, count as int),
{
    match loc {
        Some(l) => match l.i {
            Some(i) => i < count,
            None => true,
        },
        None => true,
    }
}

/// Whether every number of `v` is below `n`.
fn all_below(v: &Vec<usize>, n: usize) -> (r: bool)
    ensures
        r == (forall|k: int| 0 <= k < v@.len() ==> #[trigger] v@[k] < n),
{
    let mut k: usize = 0;
    while k < v.len()
        invariant
            k <= v@.len(),
            forall|j: int| 0 <= j < k ==> #[trigger] v@[j] < n,
        decreases v@.len() - k,
    {
        if v[k] >= n {
            return false;
        }
        k += 1;
    }
    true
}

/// Whether every input of `v` is of a macrocell below `n`.
fn inputs_below(v: &Vec<InputGraphPTermInput>, n: usize) -> (r: bool)
    ensures
        r == (forall|k: int| 0 <= k < v@.len() ==> (#[trigger] v@[k]).mc < n),
{
    let mut k: usize = 0;
    while k < v.len()
        invariant
            k <= v@.len(),
            forall|j: int| 0 <= j < k ==> (#[trigger] v@[j]).mc < n,
        decreases v@.len() - k,
    {
        if v[k].mc >= n {
            return false;
        }
        k += 1;
    }
    true
}

impl InputGraph {
    /// Checks macrocell `mc` against `mc_refs_ok`.
    fn mc_is_valid(&self, mc: &InputGraphMacrocell) -> (r: bool)
        ensures
            r == self.mc_refs_ok(mc),
    {
        if !mc_loc_ok(mc.requested_loc) {
            return false;
        }
        let np = self.pterms.len();
        let io_ok = match &mc.io_bits {
            Some(io) => match io.oe {
                Some(InputGraphIOOEType::PTerm(p)) => p < np,
                Some(InputGraphIOOEType::GTS(b)) => b < self.bufg_gts.len(),
                _ => true,
            },
            None => true,
        };
        if !io_ok {
            return false;
        }
        let xor_ok = match &mc.xor_bits {
            Some(x) => x.orterm_inputs.len() <= 65535 && all_below(&x.orterm_inputs, np) && (
            match x.andterm_input {
                Some(p) => p < np,
                None => true,
            }),
            None => true,
        };
        if !xor_ok {
            return false;
        }
        match &mc.reg_bits {
            Some(r) => {
                let set_ok = match r.set_input {
                    Some(InputGraphRegRSType::PTerm(p)) => p < np,
                    Some(InputGraphRegRSType::GSR(b)) => b < self.bufg_gsr.len(),
                    None => true,
                };
                let reset_ok = match r.reset_input {
                    Some(InputGraphRegRSType::PTerm(p)) => p < np,
                    Some(InputGraphRegRSType::GSR(b)) => b < self.bufg_gsr.len(),
                    None => true,
                };
                let ce_ok = match r.ce_input {
                    Some(p) => p < np,
                    None => true,
                };
                let clk_ok = match r.clk_input {
                    InputGraphRegClockType::PTerm(p) => p < np,
                    InputGraphRegClockType::GCK(b) => b < self.bufg_clks.len(),
                };
                set_ok && reset_ok && ce_ok && clk_ok
            },
            None => true,
        }
    }

    /// Checks the netlist against `wf`.
    pub fn is_valid(&self) -> (r: bool)
        ensures
            r == self.wf(),
    {
        let n = self.mcs.len();
        if n > 65535 || self.pterms.len() > 0xffff_ffff {
            return false;
        }
        let mut i: usize = 0;
        while i < n
            invariant
                i <= n,
                n == self.mcs@.len(),
                forall|k: int| 0 <= k < i ==> self.mc_refs_ok(#[trigger] &self.mcs@[k]),
            decreases n - i,
        {
            if !self.mc_is_valid(&self.mcs[i]) {
                return false;
            }
            i += 1;
        }
        let mut i: usize = 0;
        while i < self.pterms.len()
            invariant
                i <= self.pterms@.len(),
                n == self.mcs@.len(),
                forall|k: int| 0 <= k < i ==> self.pterm_refs_ok(#[trigger] &self.pterms@[k]),
            decreases self.pterms@.len() - i,
        {
            let pt = &self.pterms[i];
            if !inputs_below(&pt.inputs_true, n) || !inputs_below(&pt.inputs_comp, n) {
                return false;
            }
            i += 1;
        }
        let mut i: usize = 0;
        while i < self.bufg_clks.len()
            invariant
                i <= self.bufg_clks@.len(),
                n == self.mcs@.len(),
                forall|k: int|
                    0 <= k < i ==> (#[trigger] self.bufg_clks@[k]).input < self.mcs@.len()
                        && buf_loc_in_range(self.bufg_clks@[k].requested_loc, NUM_BUFG_CLK as int),
            decreases self.bufg_clks@.len() - i,
        {
            if self.bufg_clks[i].input >= n || !buf_loc_ok(self.bufg_clks[i].requested_loc, 3) {
                return false;
            }
            i += 1;
        }
        let mut i: usize = 0;
        while i < self.bufg_gts.len()
            invariant
                i <= self.bufg_gts@.len(),
                n == self.mcs@.len(),
                forall|k: int|
                    0 <= k < i ==> (#[trigger] self.bufg_gts@[k]).input < self.mcs@.len()
                        && buf_loc_in_range(self.bufg_gts@[k].requested_loc, NUM_BUFG_GTS as int),
            decreases self.bufg_gts@.len() - i,
        {
            if self.bufg_gts[i].input >= n || !buf_loc_ok(self.bufg_gts[i].requested_loc, 4) {
                return false;
            }
            i += 1;
        }
        let mut i: usize = 0;
        while i < self.bufg_gsr.len()
            invariant
                i <= self.bufg_gsr@.len(),
                n == self.mcs@.len(),
                forall|k: int|
                    0 <= k < i ==> (#[trigger] self.bufg_gsr@[k]).input < self.mcs@.len()
                        && buf_loc_in_range(self.bufg_gsr@[k].requested_loc, NUM_BUFG_GSR as int),
            decreases self.bufg_gsr@.len() - i,
        {
            if self.bufg_gsr[i].input >= n || !buf_loc_ok(self.bufg_gsr[i].requested_loc, 1) {
                return false;
            }
            i += 1;
        }
        true
    }
}

} // verus!
