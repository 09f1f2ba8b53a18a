//! Macrocell register configuration and the numbering of the product terms
//! of a function block.

use vstd::prelude::*;
use crate::text::push_bytes;
use crate::text::push_decimal;
use crate::text::spec_decimal;
use vstd::string::StringSliceAdditionalSpecFns;

verus! {

/// Number of macrocells in one function block.
pub const MCS_PER_FB: usize = 16;

/// Number of AND terms in one function block.
pub const ANDTERMS_PER_FB: usize = 56;

/// Number of fuses that configure one macrocell.
pub const FUSES_PER_MC: usize = 27;

/// Clock source of a macrocell register.
#[derive(Copy, Clone, Eq, PartialEq, Structural, Debug, Hash)]
pub enum XC2MCFFClkSrc {
    GCK0,
    GCK1,
    GCK2,
    PTC,
    CTC,
}

/// Reset source of a macrocell register.
#[derive(Copy, Clone, Eq, PartialEq, Structural, Debug, Hash)]
pub enum XC2MCFFResetSrc {
    Disabled,
    PTA,
    GSR,
    CTR,
}

/// Set source of a macrocell register.
#[derive(Copy, Clone, Eq, PartialEq, Structural, Debug, Hash)]
pub enum XC2MCFFSetSrc {
    Disabled,
    PTA,
    GSR,
    CTS,
}

/// Mode of a macrocell register.
#[derive(Copy, Clone, Eq, PartialEq, Structural, Debug, Hash)]
pub enum XC2MCFFMode {
    DFF,
    LATCH,
    TFF,
    DFFCE,
}

/// Which macrocell output feeds back into the ZIA.
#[derive(Copy, Clone, Eq, PartialEq, Structural, Debug, Hash)]
pub enum XC2MCFeedbackMode {
    Disabled,
    COMB,
    REG,
}

/// Second input of the XOR gate of a macrocell.
#[derive(Copy, Clone, Eq, PartialEq, Structural, Debug, Hash)]
pub enum XC2MCXorMode {
    ZERO,
    ONE,
    PTC,
    PTCB,
}

/// Configuration of the register of one macrocell.
#[derive(Copy, Clone, Eq, PartialEq, Structural, Debug, Hash)]
pub struct XC2MCFF {
    pub clk_src: XC2MCFFClkSrc,
    /// `false`: triggered by the rising edge; `true`: by the falling edge.
    pub falling_edge: bool,
    pub is_ddr: bool,
    pub r_src: XC2MCFFResetSrc,
    pub s_src: XC2MCFFSetSrc,
    /// `false`: starts as 0; `true`: starts as 1.
    pub init_state: bool,
    pub ff_mode: XC2MCFFMode,
    pub fb_mode: XC2MCFeedbackMode,
    /// `false`: fed from the XOR gate; `true`: fed straight from the pad.
    pub ff_in_ibuf: bool,
    pub xor_mode: XC2MCXorMode,
}

impl XC2MCFF {
    /// The configuration of an unused macrocell.
    pub open spec fn spec_default() -> XC2MCFF {
        XC2MCFF {
            clk_src: XC2MCFFClkSrc::GCK0,
            falling_edge: false,
            is_ddr: false,
            r_src: XC2MCFFResetSrc::Disabled,
            s_src: XC2MCFFSetSrc::Disabled,
            init_state: true,
            ff_mode: XC2MCFFMode::DFF,
            fb_mode: XC2MCFeedbackMode::Disabled,
            ff_in_ibuf: false,
            xor_mode: XC2MCXorMode::ZERO,
        }
    }
}

impl Default for XC2MCFF {
    fn default() -> (r: XC2MCFF)
        ensures
            r == XC2MCFF::spec_default(),
    {
        XC2MCFF {
            clk_src: XC2MCFFClkSrc::GCK0,
            falling_edge: false,
            is_ddr: false,
            r_src: XC2MCFFResetSrc::Disabled,
            s_src: XC2MCFFSetSrc::Disabled,
            init_state: true,
            ff_mode: XC2MCFFMode::DFF,
            fb_mode: XC2MCFeedbackMode::Disabled,
            ff_in_ibuf: false,
            xor_mode: XC2MCXorMode::ZERO,
        }
    }
}

/// The words that describe a register mode.
pub open spec fn ff_mode_text(m: XC2MCFFMode) -> Seq<u8> {
    match m {
        XC2MCFFMode::DFF => "D flip-flop".spec_bytes(),
        XC2MCFFMode::LATCH => "transparent latch".spec_bytes(),
        XC2MCFFMode::TFF => "T flip-flop".spec_bytes(),
        XC2MCFFMode::DFFCE => "D flip-flop with clock-enable".spec_bytes(),
    }
}

/// The name of a clock source.
pub open spec fn clk_src_text(c: XC2MCFFClkSrc) -> Seq<u8> {
    match c {
        XC2MCFFClkSrc::GCK0 => "GCK0".spec_bytes(),
        XC2MCFFClkSrc::GCK1 => "GCK1".spec_bytes(),
        XC2MCFFClkSrc::GCK2 => "GCK2".spec_bytes(),
        XC2MCFFClkSrc::PTC => "PTC".spec_bytes(),
        XC2MCFFClkSrc::CTC => "CTC".spec_bytes(),
    }
}

/// The name of a set source.
pub open spec fn set_src_text(s: XC2MCFFSetSrc) -> Seq<u8> {
    match s {
        XC2MCFFSetSrc::Disabled => "disabled".spec_bytes(),
        XC2MCFFSetSrc::PTA => "PTA".spec_bytes(),
        XC2MCFFSetSrc::GSR => "GSR".spec_bytes(),
        XC2MCFFSetSrc::CTS => "CTS".spec_bytes(),
    }
}

/// The name of a reset source.
pub open spec fn reset_src_text(r: XC2MCFFResetSrc) -> Seq<u8> {
    match r {
        XC2MCFFResetSrc::Disabled => "disabled".spec_bytes(),
        XC2MCFFResetSrc::PTA => "PTA".spec_bytes(),
        XC2MCFFResetSrc::GSR => "GSR".spec_bytes(),
        XC2MCFFResetSrc::CTR => "CTR".spec_bytes(),
    }
}

/// The name of an input of the XOR gate.
pub open spec fn xor_mode_text(x: XC2MCXorMode) -> Seq<u8> {
    match x {
        XC2MCXorMode::ZERO => "0".spec_bytes(),
        XC2MCXorMode::ONE => "1".spec_bytes(),
        XC2MCXorMode::PTC => "PTC".spec_bytes(),
        XC2MCXorMode::PTCB => "~PTC".spec_bytes(),
    }
}

/// The word that describes a feedback mode.
pub open spec fn fb_mode_text(f: XC2MCFeedbackMode) -> Seq<u8> {
    match f {
        XC2MCFeedbackMode::Disabled => "disabled".spec_bytes(),
        XC2MCFeedbackMode::COMB => "combinatorial".spec_bytes(),
        XC2MCFeedbackMode::REG => "registered".spec_bytes(),
    }
}

/// `yes` or `no`.
pub open spec fn yes_no(b: bool) -> Seq<u8> {
    if b {
        "yes".spec_bytes()
    } else {
        "no".spec_bytes()
    }
}

impl XC2MCFF {
    /// The description of this register as text, for macrocell `ff` of
    /// function block `fb`, both counted from zero and printed from one.
    pub open spec fn human_readable(&self, fb: u32, ff: u32) -> Seq<u8> {
        "\n".spec_bytes() + "FF configuration for FB".spec_bytes() + spec_decimal(fb as nat + 1)
            + "_".spec_bytes() + spec_decimal(ff as nat + 1) + "\n".spec_bytes()
            + "FF mode: ".spec_bytes() + ff_mode_text(self.ff_mode) + "\n".spec_bytes()
            + "initial state: ".spec_bytes() + (if self.init_state {
            "1".spec_bytes()
        } else {
            "0".spec_bytes()
        }) + "\n".spec_bytes() + (if self.falling_edge {
            "falling".spec_bytes()
        } else {
            "rising".spec_bytes()
        }) + "-edge triggered\n".spec_bytes() + "DDR: ".spec_bytes() + yes_no(self.is_ddr)
            + "\n".spec_bytes() + "clock source: ".spec_bytes() + clk_src_text(self.clk_src)
            + "\n".spec_bytes() + "set source: ".spec_bytes() + set_src_text(self.s_src)
            + "\n".spec_bytes() + "reset source: ".spec_bytes() + reset_src_text(self.r_src)
            + "\n".spec_bytes() + "using ibuf direct path: ".spec_bytes() + yes_no(self.ff_in_ibuf)
            + "\n".spec_bytes() + "XOR gate input: ".spec_bytes() + xor_mode_text(self.xor_mode)
            + "\n".spec_bytes() + "ZIA feedback: ".spec_bytes() + fb_mode_text(self.fb_mode)
            + "\n".spec_bytes()
    }

    /// Appends the description of this register to `writer`.
    #[verifier::rlimit(30)]
    pub fn dump_human_readable(&self, fb: u32, ff: u32, writer: &mut Vec<u8>)
        ensures
            final(writer)@ == old(writer)@ + self.human_readable(fb, ff),
    {
        let ghost start = writer@;
        let mut out: Vec<u8> = Vec::new();
        push_bytes(&mut out, "\n");
        push_bytes(&mut out, "FF configuration for FB");
        push_decimal(&mut out, fb as u64 + 1);
        push_bytes(&mut out, "_");
        push_decimal(&mut out, ff as u64 + 1);
        push_bytes(&mut out, "\n");
        push_bytes(&mut out, "FF mode: ");
        push_bytes(
            &mut out,
            match self.ff_mode {
                XC2MCFFMode::DFF => "D flip-flop",
                XC2MCFFMode::LATCH => "transparent latch",
                XC2MCFFMode::TFF => "T flip-flop",
                XC2MCFFMode::DFFCE => "D flip-flop with clock-enable",
            },
        );
        push_bytes(&mut out, "\n");
        push_bytes(&mut out, "initial state: ");
        push_bytes(&mut out, if self.init_state { "1" } else { "0" });
        push_bytes(&mut out, "\n");
        push_bytes(&mut out, if self.falling_edge { "falling" } else { "rising" });
        push_bytes(&mut out, "-edge triggered\n");
        push_bytes(&mut out, "DDR: ");
        push_bytes(&mut out, if self.is_ddr { "yes" } else { "no" });
        push_bytes(&mut out, "\n");
        push_bytes(&mut out, "clock source: ");
        push_bytes(
            &mut out,
            match self.clk_src {
                XC2MCFFClkSrc::GCK0 => "GCK0",
                XC2MCFFClkSrc::GCK1 => "GCK1",
                XC2MCFFClkSrc::GCK2 => "GCK2",
                XC2MCFFClkSrc::PTC => "PTC",
                XC2MCFFClkSrc::CTC => "CTC",
            },
        );
        push_bytes(&mut out, "\n");
        push_bytes(&mut out, "set source: ");
        push_bytes(
            &mut out,
            match self.s_src {
                XC2MCFFSetSrc::Disabled => "disabled",
                XC2MCFFSetSrc::PTA => "PTA",
                XC2MCFFSetSrc::GSR => "GSR",
                XC2MCFFSetSrc::CTS => "CTS",
            },
        );
        push_bytes(&mut out, "\n");
        push_bytes(&mut out, "reset source: ");
        push_bytes(
            &mut out,
            match self.r_src {
                XC2MCFFResetSrc::Disabled => "disabled",
                XC2MCFFResetSrc::PTA => "PTA",
                XC2MCFFResetSrc::GSR => "GSR",
                XC2MCFFResetSrc::CTR => "CTR",
            },
        );
        push_bytes(&mut out, "\n");
        push_bytes(&mut out, "using ibuf direct path: ");
        push_bytes(&mut out, if self.ff_in_ibuf { "yes" } else { "no" });
        push_bytes(&mut out, "\n");
        push_bytes(&mut out, "XOR gate input: ");
        push_bytes(
            &mut out,
            match self.xor_mode {
                XC2MCXorMode::ZERO => "0",
                XC2MCXorMode::ONE => "1",
                XC2MCXorMode::PTC => "PTC",
                XC2MCXorMode::PTCB => "~PTC",
            },
        );
        push_bytes(&mut out, "\n");
        push_bytes(&mut out, "ZIA feedback: ");
        push_bytes(
            &mut out,
            match self.fb_mode {
                XC2MCFeedbackMode::Disabled => "disabled",
                XC2MCFeedbackMode::COMB => "combinatorial",
                XC2MCFeedbackMode::REG => "registered",
            },
        );
        push_bytes(&mut out, "\n");
        assert(out@ =~= self.human_readable(fb, ff));
        crate::text::append(writer, &out);
    }
}

/// The clock source that the fuses `aclk` and `clk` select.
pub open spec fn clk_src_of(aclk: bool, clk: (bool, bool)) -> XC2MCFFClkSrc {
    match clk {
        (false, false) => XC2MCFFClkSrc::GCK0,
        (false, true) => XC2MCFFClkSrc::GCK1,
        (true, false) => XC2MCFFClkSrc::GCK2,
        (true, true) => if aclk {
            XC2MCFFClkSrc::CTC
        } else {
            XC2MCFFClkSrc::PTC
        },
    }
}

/// The reset source that the fuses `r` select.
pub open spec fn reset_src_of(r: (bool, bool)) -> XC2MCFFResetSrc {
    match r {
        (false, false) => XC2MCFFResetSrc::PTA,
        (false, true) => XC2MCFFResetSrc::GSR,
        (true, false) => XC2MCFFResetSrc::CTR,
        (true, true) => XC2MCFFResetSrc::Disabled,
    }
}

/// The set source that the fuses `p` select.
pub open spec fn set_src_of(p: (bool, bool)) -> XC2MCFFSetSrc {
    match p {
        (false, false) => XC2MCFFSetSrc::PTA,
        (false, true) => XC2MCFFSetSrc::GSR,
        (true, false) => XC2MCFFSetSrc::CTS,
        (true, true) => XC2MCFFSetSrc::Disabled,
    }
}

/// The register mode that the fuses `regmod` select.
pub open spec fn ff_mode_of(regmod: (bool, bool)) -> XC2MCFFMode {
    match regmod {
        (false, false) => XC2MCFFMode::DFF,
        (false, true) => XC2MCFFMode::LATCH,
        (true, false) => XC2MCFFMode::TFF,
        (true, true) => XC2MCFFMode::DFFCE,
    }
}

/// The feedback mode that the fuses `fb` select.
pub open spec fn fb_mode_of(fb: (bool, bool)) -> XC2MCFeedbackMode {
    match fb {
        (false, false) => XC2MCFeedbackMode::COMB,
        (true, false) => XC2MCFeedbackMode::REG,
        (_, true) => XC2MCFeedbackMode::Disabled,
    }
}

/// The XOR input that the fuses `xorin` select.
pub open spec fn xor_mode_of(xorin: (bool, bool)) -> XC2MCXorMode {
    match xorin {
        (false, false) => XC2MCXorMode::ZERO,
        (false, true) => XC2MCXorMode::PTCB,
        (true, false) => XC2MCXorMode::PTC,
        (true, true) => XC2MCXorMode::ONE,
    }
}

/// The register configuration that the 27 fuses of a macrocell starting
/// at `base` hold. Within the macrocell: fuse 0 `aclk`, 1 `clkop`, 2-3
/// `clk`, 4 `clkfreq`, 5-6 `r`, 7-8 `p`, 9-10 `regmod`, 13-14 `fb`, 15
/// `inreg`, 17-18 `xorin`, 26 `pu`.
pub open spec fn ff_of_fuses(fuses: Seq<bool>, base: int) -> XC2MCFF {
    XC2MCFF {
        clk_src: clk_src_of(fuses[base], (fuses[base + 2], fuses[base + 3])),
        falling_edge: fuses[base + 1],
        is_ddr: fuses[base + 4],
        r_src: reset_src_of((fuses[base + 5], fuses[base + 6])),
        s_src: set_src_of((fuses[base + 7], fuses[base + 8])),
        init_state: !fuses[base + 26],
        ff_mode: ff_mode_of((fuses[base + 9], fuses[base + 10])),
        fb_mode: fb_mode_of((fuses[base + 13], fuses[base + 14])),
        ff_in_ibuf: !fuses[base + 15],
        xor_mode: xor_mode_of((fuses[base + 17], fuses[base + 18])),
    }
}

/// Reads the register configuration of macrocell `ff_idx` out of a fuse
/// array whose macrocell fuses start at `block_idx`.
pub fn read_32_ff_logical(fuses: &[bool], block_idx: usize, ff_idx: usize) -> (r: XC2MCFF)
    requires
        block_idx + ff_idx * 27 + 27 <= fuses@.len(),
    ensures
        r == ff_of_fuses(fuses@, block_idx + ff_idx * 27),
{
    let n = fuses.len();
    assert(block_idx + ff_idx * 27 + 27 <= n);
    let base = block_idx + ff_idx * 27;
    let aclk = fuses[base];
    let clk = (fuses[base + 2], fuses[base + 3]);

    let clk_src = match clk {
        (false, false) => XC2MCFFClkSrc::GCK0,
        (false, true) => XC2MCFFClkSrc::GCK1,
        (true, false) => XC2MCFFClkSrc::GCK2,
        (true, true) => if aclk {
            XC2MCFFClkSrc::CTC
        } else {
            XC2MCFFClkSrc::PTC
        },
    };

    let clkop = fuses[base + 1];
    let clkfreq = fuses[base + 4];

    let r = (fuses[base + 5], fuses[base + 6]);
    let reset_mode = match r {
        (false, false) => XC2MCFFResetSrc::PTA,
        (false, true) => XC2MCFFResetSrc::GSR,
        (true, false) => XC2MCFFResetSrc::CTR,
        (true, true) => XC2MCFFResetSrc::Disabled,
    };

    let p = (fuses[base + 7], fuses[base + 8]);
    let set_mode = match p {
        (false, false) => XC2MCFFSetSrc::PTA,
        (false, true) => XC2MCFFSetSrc::GSR,
        (true, false) => XC2MCFFSetSrc::CTS,
        (true, true) => XC2MCFFSetSrc::Disabled,
    };

    let regmod = (fuses[base + 9], fuses[base + 10]);
    let ff_mode = match regmod {
        (false, false) => XC2MCFFMode::DFF,
        (false, true) => XC2MCFFMode::LATCH,
        (true, false) => XC2MCFFMode::TFF,
        (true, true) => XC2MCFFMode::DFFCE,
    };

    let fb = (fuses[base + 13], fuses[base + 14]);
    let fb_mode = match fb {
        (false, false) => XC2MCFeedbackMode::COMB,
        (true, false) => XC2MCFeedbackMode::REG,
        (_, true) => XC2MCFeedbackMode::Disabled,
    };

    let inreg = fuses[base + 15];

    let xorin = (fuses[base + 17], fuses[base + 18]);
    let xormode = match xorin {
        (false, false) => XC2MCXorMode::ZERO,
        (false, true) => XC2MCXorMode::PTCB,
        (true, false) => XC2MCXorMode::PTC,
        (true, true) => XC2MCXorMode::ONE,
    };

    let pu = fuses[base + 26];

    XC2MCFF {
        clk_src,
        falling_edge: clkop,
        is_ddr: clkfreq,
        r_src: reset_mode,
        s_src: set_mode,
        init_state: !pu,
        ff_mode,
        fb_mode,
        ff_in_ibuf: !inreg,
        xor_mode: xormode,
    }
}

/// The AND term that feeds the control-term clock of a function block.
pub const CTC: u32 = 4;

/// The AND term that feeds the control-term reset of a function block.
pub const CTR: u32 = 5;

/// The AND term that feeds the control-term set of a function block.
pub const CTS: u32 = 6;

/// The AND term that feeds the control-term output enable of a function
/// block.
pub const CTE: u32 = 7;

/// Index of the AND term that feeds the control-term clock.
pub fn get_ctc() -> (r: u32)
    ensures
        r == CTC,
{
    4
}

/// Index of the AND term that feeds the control-term reset.
pub fn get_ctr() -> (r: u32)
    ensures
        r == CTR,
{
    5
}

/// Index of the AND term that feeds the control-term set.
pub fn get_cts() -> (r: u32)
    ensures
        r == CTS,
{
    6
}

/// Index of the AND term that feeds the control-term output enable.
pub fn get_cte() -> (r: u32)
    ensures
        r == CTE,
{
    7
}

/// Index of product term A of macrocell `mc`.
pub open spec fn spec_pta(mc: int) -> int {
    3 * mc + 8
}

/// Index of product term B of macrocell `mc`.
pub open spec fn spec_ptb(mc: int) -> int {
    3 * mc + 9
}

/// Index of product term C of macrocell `mc`.
pub open spec fn spec_ptc(mc: int) -> int {
    3 * mc + 10
}

/// Index of product term A of macrocell `mc`: the one that can set or
/// reset its register.
pub fn get_pta(mc: u32) -> (r: u32)
    requires
        spec_pta(mc as int) <= u32::MAX,
    ensures
        r == spec_pta(mc as int),
{
    3 * mc + 8
}

/// Index of product term B of macrocell `mc`: the one that can enable
/// its output.
pub fn get_ptb(mc: u32) -> (r: u32)
    requires
        spec_ptb(mc as int) <= u32::MAX,
    ensures
        r == spec_ptb(mc as int),
{
    3 * mc + 9
}

/// Index of product term C of macrocell `mc`: the one that can clock its
/// register, enable its clock, or feed its XOR gate.
pub fn get_ptc(mc: u32) -> (r: u32)
    requires
        spec_ptc(mc as int) <= u32::MAX,
    ensures
        r == spec_ptc(mc as int),
{
    3 * mc + 10
}

} // verus!
