//! I/O block configuration: the pad driver and the path from the pad into
//! the device.

use vstd::prelude::*;
use crate::text::push_bytes;
use crate::text::push_decimal;
use crate::text::spec_decimal;
use vstd::string::StringSliceAdditionalSpecFns;

verus! {

/// What an I/O block feeds into the ZIA.
#[derive(Copy, Clone, Eq, PartialEq, Structural, Debug, Hash)]
pub enum XC2IOBZIAMode {
    Disabled,
    PAD,
    REG,
}

/// Mode of the output buffer of an I/O block.
#[derive(Copy, Clone, Eq, PartialEq, Structural, Debug, Hash)]
pub enum XC2IOBOBufMode {
    Disabled,
    PushPull,
    OpenDrain,
    TriStateGTS0,
    TriStateGTS1,
    TriStateGTS2,
    TriStateGTS3,
    TriStatePTB,
    TriStateCTE,
    CGND,
}

/// Configuration of one I/O block of a 32-macrocell part.
#[derive(Copy, Clone, Eq, PartialEq, Structural, Debug, Hash)]
pub struct XC2MCSmallIOB {
    pub zia_mode: XC2IOBZIAMode,
    pub schmitt_trigger: bool,
    /// `false`: the pad is driven by the XOR gate; `true`: by the register.
    pub obuf_uses_ff: bool,
    pub obuf_mode: XC2IOBOBufMode,
    pub termination_enabled: bool,
    pub slew_is_fast: bool,
}

/// Configuration of the input-only pin.
#[derive(Copy, Clone, Eq, PartialEq, Structural, Debug, Hash)]
pub struct XC2ExtraIBuf {
    pub schmitt_trigger: bool,
    pub termination_enabled: bool,
}

impl XC2MCSmallIOB {
    /// The configuration of an unused I/O block.
    pub open spec fn spec_default() -> XC2MCSmallIOB {
        XC2MCSmallIOB {
            zia_mode: XC2IOBZIAMode::Disabled,
            schmitt_trigger: true,
            obuf_uses_ff: false,
            obuf_mode: XC2IOBOBufMode::Disabled,
            termination_enabled: true,
            slew_is_fast: true,
        }
    }
}

impl Default for XC2MCSmallIOB {
    fn default() -> (r: XC2MCSmallIOB)
        ensures
            r == XC2MCSmallIOB::spec_default(),
    {
        XC2MCSmallIOB {
            zia_mode: XC2IOBZIAMode::Disabled,
            schmitt_trigger: true,
            obuf_uses_ff: false,
            obuf_mode: XC2IOBOBufMode::Disabled,
            termination_enabled: true,
            slew_is_fast: true,
        }
    }
}

impl XC2ExtraIBuf {
    /// The configuration of an unused input-only pin.
    pub open spec fn spec_default() -> XC2ExtraIBuf {
        XC2ExtraIBuf { schmitt_trigger: true, termination_enabled: true }
    }
}

impl Default for XC2ExtraIBuf {
    fn default() -> (r: XC2ExtraIBuf)
        ensures
            r == XC2ExtraIBuf::spec_default(),
    {
        XC2ExtraIBuf { schmitt_trigger: true, termination_enabled: true }
    }
}

/// The two fuses `inz` of a ZIA mode.
pub open spec fn zia_mode_bits(m: XC2IOBZIAMode) -> (bool, bool) {
    match m {
        XC2IOBZIAMode::PAD => (false, false),
        XC2IOBZIAMode::REG => (true, false),
        XC2IOBZIAMode::Disabled => (true, true),
    }
}

/// The ZIA mode that the fuses `inz` select.
pub open spec fn zia_mode_of(inz: (bool, bool)) -> XC2IOBZIAMode {
    match inz {
        (false, false) => XC2IOBZIAMode::PAD,
        (true, false) => XC2IOBZIAMode::REG,
        (_, true) => XC2IOBZIAMode::Disabled,
    }
}

/// The four fuses `oe` of an output buffer mode.
pub open spec fn obuf_mode_bits(m: XC2IOBOBufMode) -> (bool, bool, bool, bool) {
    match m {
        XC2IOBOBufMode::PushPull => (false, false, false, false),
        XC2IOBOBufMode::OpenDrain => (false, false, false, true),
        XC2IOBOBufMode::TriStateGTS1 => (false, false, true, false),
        XC2IOBOBufMode::TriStatePTB => (false, true, false, false),
        XC2IOBOBufMode::TriStateGTS3 => (false, true, true, false),
        XC2IOBOBufMode::TriStateCTE => (true, false, false, false),
        XC2IOBOBufMode::TriStateGTS2 => (true, false, true, false),
        XC2IOBOBufMode::TriStateGTS0 => (true, true, false, false),
        XC2IOBOBufMode::CGND => (true, true, true, false),
        XC2IOBOBufMode::Disabled => (true, true, true, true),
    }
}

/// The output buffer mode that the fuses `oe` select, if they select one.
pub open spec fn obuf_mode_of(oe: (bool, bool, bool, bool)) -> Option<XC2IOBOBufMode> {
    match oe {
        (false, false, false, false) => Some(XC2IOBOBufMode::PushPull),
        (false, false, false, true) => Some(XC2IOBOBufMode::OpenDrain),
        (false, false, true, false) => Some(XC2IOBOBufMode::TriStateGTS1),
        (false, true, false, false) => Some(XC2IOBOBufMode::TriStatePTB),
        (false, true, true, false) => Some(XC2IOBOBufMode::TriStateGTS3),
        (true, false, false, false) => Some(XC2IOBOBufMode::TriStateCTE),
        (true, false, true, false) => Some(XC2IOBOBufMode::TriStateGTS2),
        (true, true, false, false) => Some(XC2IOBOBufMode::TriStateGTS0),
        (true, true, true, false) => Some(XC2IOBOBufMode::CGND),
        (true, true, true, true) => Some(XC2IOBOBufMode::Disabled),
        _ => None,
    }
}

/// The I/O block configuration that the 27 fuses of a macrocell starting
/// at `base` hold, if they hold one. Within the macrocell: fuses 11-12
/// `inz`, 16 `st`, 19 `regcom`, 20-23 `oe`, 24 `tm`, 25 `slw`.
pub open spec fn iob_of_fuses(fuses: Seq<bool>, base: int) -> Option<XC2MCSmallIOB> {
    match obuf_mode_of((fuses[base + 20], fuses[base + 21], fuses[base + 22], fuses[base + 23])) {
        Some(obuf_mode) => Some(
            XC2MCSmallIOB {
                zia_mode: zia_mode_of((fuses[base + 11], fuses[base + 12])),
                schmitt_trigger: fuses[base + 16],
                obuf_uses_ff: !fuses[base + 19],
                obuf_mode,
                termination_enabled: fuses[base + 24],
                slew_is_fast: !fuses[base + 25],
            },
        ),
        None => None,
    }
}

/// Reads the I/O block configuration of macrocell `io_idx` out of a fuse
/// array whose macrocell fuses start at `block_idx`. Returns `None` if
/// the fuses of the output buffer mode select no mode.
pub fn read_32_iob_logical(fuses: &[bool], block_idx: usize, io_idx: usize) -> (r: Option<
    XC2MCSmallIOB,
>)
    requires
        block_idx + io_idx * 27 + 27 <= fuses@.len(),
    ensures
        r == iob_of_fuses(fuses@, block_idx + io_idx * 27),
{
    let n = fuses.len();
    assert(block_idx + io_idx * 27 + 27 <= n);
    let base = block_idx + io_idx * 27;
    let inz = (fuses[base + 11], fuses[base + 12]);
    let input_to_zia = match inz {
        (false, false) => XC2IOBZIAMode::PAD,
        (true, false) => XC2IOBZIAMode::REG,
        (_, true) => XC2IOBZIAMode::Disabled,
    };
    let st = fuses[base + 16];
    let regcom = fuses[base + 19];
    let oe = (fuses[base + 20], fuses[base + 21], fuses[base + 22], fuses[base + 23]);
    let output_mode = match oe {
        (false, false, false, false) => XC2IOBOBufMode::PushPull,
        (false, false, false, true) => XC2IOBOBufMode::OpenDrain,
        (false, false, true, false) => XC2IOBOBufMode::TriStateGTS1,
        (false, true, false, false) => XC2IOBOBufMode::TriStatePTB,
        (false, true, true, false) => XC2IOBOBufMode::TriStateGTS3,
        (true, false, false, false) => XC2IOBOBufMode::TriStateCTE,
        (true, false, true, false) => XC2IOBOBufMode::TriStateGTS2,
        (true, true, false, false) => XC2IOBOBufMode::TriStateGTS0,
        (true, true, true, false) => XC2IOBOBufMode::CGND,
        (true, true, true, true) => XC2IOBOBufMode::Disabled,
        _ => {
            return None;
        },
    };
    let tm = fuses[base + 24];
    let slw = fuses[base + 25];
    Some(
        XC2MCSmallIOB {
            zia_mode: input_to_zia,
            schmitt_trigger: st,
            obuf_uses_ff: !regcom,
            obuf_mode: output_mode,
            termination_enabled: tm,
            slew_is_fast: !slw,
        },
    )
}

/// The configuration of the input-only pin that the fuses hold: fuse
/// 12272 `st`, fuse 12273 `tm`.
pub open spec fn extra_ibuf_of_fuses(fuses: Seq<bool>) -> XC2ExtraIBuf {
    XC2ExtraIBuf { schmitt_trigger: fuses[12272], termination_enabled: fuses[12273] }
}

/// Reads the configuration of the input-only pin out of a fuse array.
pub fn read_32_extra_ibuf_logical(fuses: &[bool]) -> (r: XC2ExtraIBuf)
    requires
        fuses@.len() >= 12274,
    ensures
        r == extra_ibuf_of_fuses(fuses@),
{
    XC2ExtraIBuf { schmitt_trigger: fuses[12272], termination_enabled: fuses[12273] }
}

/// The words that describe what an I/O block feeds into the ZIA.
pub open spec fn zia_mode_text(m: XC2IOBZIAMode) -> Seq<u8> {
    match m {
        XC2IOBZIAMode::Disabled => "disabled".spec_bytes(),
        XC2IOBZIAMode::PAD => "input pad".spec_bytes(),
        XC2IOBZIAMode::REG => "register".spec_bytes(),
    }
}

/// The words that describe an output buffer mode.
pub open spec fn obuf_mode_text(m: XC2IOBOBufMode) -> Seq<u8> {
    match m {
        XC2IOBOBufMode::Disabled => "disabled".spec_bytes(),
        XC2IOBOBufMode::PushPull => "push-pull".spec_bytes(),
        XC2IOBOBufMode::OpenDrain => "open-drain".spec_bytes(),
        XC2IOBOBufMode::TriStateGTS0 => "GTS0-controlled tri-state".spec_bytes(),
        XC2IOBOBufMode::TriStateGTS1 => "GTS1-controlled tri-state".spec_bytes(),
        XC2IOBOBufMode::TriStateGTS2 => "GTS2-controlled tri-state".spec_bytes(),
        XC2IOBOBufMode::TriStateGTS3 => "GTS3-controlled tri-state".spec_bytes(),
        XC2IOBOBufMode::TriStatePTB => "PTB-controlled tri-state".spec_bytes(),
        XC2IOBOBufMode::TriStateCTE => "CTE-controlled tri-state".spec_bytes(),
        XC2IOBOBufMode::CGND => "CGND".spec_bytes(),
    }
}

/// `yes` or `no`.
pub open spec fn yes_no(b: bool) -> Seq<u8> {
    if b {
        "yes".spec_bytes()
    } else {
        "no".spec_bytes()
    }
}

impl XC2MCSmallIOB {
    /// The description of I/O block `my_idx` as text.
    pub open spec fn human_readable(&self, my_idx: u32) -> Seq<u8> {
        "\n".spec_bytes() + "I/O configuration for IOB".spec_bytes() + spec_decimal(my_idx as nat)
            + "\n".spec_bytes() + "output mode: ".spec_bytes() + obuf_mode_text(self.obuf_mode)
            + "\n".spec_bytes() + "output comes from ".spec_bytes() + (if self.obuf_uses_ff {
            "FF".spec_bytes()
        } else {
            "XOR gate".spec_bytes()
        }) + "\n".spec_bytes() + "slew rate: ".spec_bytes() + (if self.slew_is_fast {
            "fast".spec_bytes()
        } else {
            "slow".spec_bytes()
        }) + "\n".spec_bytes() + "ZIA driven from: ".spec_bytes() + zia_mode_text(self.zia_mode)
            + "\n".spec_bytes() + "Schmitt trigger input: ".spec_bytes() + yes_no(
            self.schmitt_trigger,
        ) + "\n".spec_bytes() + "termination: ".spec_bytes() + yes_no(self.termination_enabled)
            + "\n".spec_bytes()
    }

    /// Appends the description of I/O block `my_idx` to `writer`.
    pub fn dump_human_readable(&self, my_idx: u32, writer: &mut Vec<u8>)
        ensures
            final(writer)@ == old(writer)@ + self.human_readable(my_idx),
    {
        let mut out: Vec<u8> = Vec::new();
        push_bytes(&mut out, "\n");
        push_bytes(&mut out, "I/O configuration for IOB");
        push_decimal(&mut out, my_idx as u64);
        push_bytes(&mut out, "\n");
        push_bytes(&mut out, "output mode: ");
        push_bytes(
            &mut out,
            match self.obuf_mode {
                XC2IOBOBufMode::Disabled => "disabled",
                XC2IOBOBufMode::PushPull => "push-pull",
                XC2IOBOBufMode::OpenDrain => "open-drain",
                XC2IOBOBufMode::TriStateGTS0 => "GTS0-controlled tri-state",
                XC2IOBOBufMode::TriStateGTS1 => "GTS1-controlled tri-state",
                XC2IOBOBufMode::TriStateGTS2 => "GTS2-controlled tri-state",
                XC2IOBOBufMode::TriStateGTS3 => "GTS3-controlled tri-state",
                XC2IOBOBufMode::TriStatePTB => "PTB-controlled tri-state",
                XC2IOBOBufMode::TriStateCTE => "CTE-controlled tri-state",
                XC2IOBOBufMode::CGND => "CGND",
            },
        );
        push_bytes(&mut out, "\n");
        push_bytes(&mut out, "output comes from ");
        push_bytes(&mut out, if self.obuf_uses_ff { "FF" } else { "XOR gate" });
        push_bytes(&mut out, "\n");
        push_bytes(&mut out, "slew rate: ");
        push_bytes(&mut out, if self.slew_is_fast { "fast" } else { "slow" });
        push_bytes(&mut out, "\n");
        push_bytes(&mut out, "ZIA driven from: ");
        push_bytes(
            &mut out,
            match self.zia_mode {
                XC2IOBZIAMode::Disabled => "disabled",
                XC2IOBZIAMode::PAD => "input pad",
                XC2IOBZIAMode::REG => "register",
            },
        );
        push_bytes(&mut out, "\n");
        push_bytes(&mut out, "Schmitt trigger input: ");
        push_bytes(&mut out, if self.schmitt_trigger { "yes" } else { "no" });
        push_bytes(&mut out, "\n");
        push_bytes(&mut out, "termination: ");
        push_bytes(&mut out, if self.termination_enabled { "yes" } else { "no" });
        push_bytes(&mut out, "\n");
        assert(out@ =~= self.human_readable(my_idx));
        crate::text::append(writer, &out);
    }
}

impl XC2ExtraIBuf {
    /// The description of the input-only pin as text.
    pub open spec fn human_readable(&self) -> Seq<u8> {
        "\n".spec_bytes() + "I/O configuration for input-only pin\n".spec_bytes()
            + "Schmitt trigger input: ".spec_bytes() + yes_no(self.schmitt_trigger)
            + "\n".spec_bytes() + "termination: ".spec_bytes() + yes_no(self.termination_enabled)
            + "\n".spec_bytes()
    }

    /// Appends the description of the input-only pin to `writer`.
    pub fn dump_human_readable(&self, writer: &mut Vec<u8>)
        ensures
            final(writer)@ == old(writer)@ + self.human_readable(),
    {
        let mut out: Vec<u8> = Vec::new();
        push_bytes(&mut out, "\n");
        push_bytes(&mut out, "I/O configuration for input-only pin\n");
        push_bytes(&mut out, "Schmitt trigger input: ");
        push_bytes(&mut out, if self.schmitt_trigger { "yes" } else { "no" });
        push_bytes(&mut out, "\n");
        push_bytes(&mut out, "termination: ");
        push_bytes(&mut out, if self.termination_enabled { "yes" } else { "no" });
        push_bytes(&mut out, "\n");
        assert(out@ =~= self.human_readable());
        crate::text::append(writer, &out);
    }
}

} // verus!
