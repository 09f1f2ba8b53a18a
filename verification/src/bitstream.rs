//! The bitstream of a whole device: its configuration, the fuse array
//! that holds it, and the JEDEC text that carries the fuse array.

use vstd::prelude::*;
use vstd::string::StringSliceAdditionalSpecFns;
use crate::device::split_device_name;
use crate::fb::fb_decodable;
use crate::fb::fb_decoded;
use crate::fb::fb_fuses;
use crate::fb::read_32_fb_logical;
use crate::iob::extra_ibuf_of_fuses;
use crate::iob::iob_of_fuses;
use crate::iob::read_32_extra_ibuf_logical;
use crate::iob::read_32_iob_logical;
use crate::fb::push_fb_fuses;
use crate::fb::XC2BitstreamFB;
use crate::iob::XC2ExtraIBuf;
use crate::iob::XC2MCSmallIOB;
use crate::jed::jed_body;
use crate::jed::push_body;
use crate::text::push_bytes;
use vstd::string::StrSliceExecFns;
use crate::zia::ZIATable;

verus! {

/// Number of fuses of an XC2C32.
pub const FUSES_XC2C32: usize = 12274;

/// Number of fuses of an XC2C32A.
pub const FUSES_XC2C32A: usize = 12278;

/// Address of the first fuse behind the function blocks.
pub const GLOBAL_OFFSET: usize = 12256;

/// The configuration of the global nets: the clocks, the set/reset and
/// the tristates that reach every macrocell.
#[derive(Copy, Clone, Debug)]
pub struct XC2GlobalNets {
    /// Whether each of the three global clocks is enabled.
    pub gck_enable: [bool; 3],
    /// Whether the global set/reset is enabled.
    pub gsr_enable: bool,
    /// `false`: the global set/reset is active low; `true`: active high.
    pub gsr_invert: bool,
    /// Whether each of the four global tristates is enabled.
    pub gts_enable: [bool; 4],
    /// `false`: the global tristate acts as T; `true`: as !T.
    pub gts_invert: [bool; 4],
    /// `false`: the pads have keepers; `true`: pull-ups.
    pub global_pu: bool,
}

impl XC2GlobalNets {
    /// Whether every net is disabled, the tristates act as !T and the
    /// pads have pull-ups.
    pub open spec fn is_default(&self) -> bool {
        &&& forall|i: int| 0 <= i < 3 ==> !#[trigger] self.gck_enable@[i]
        &&& !self.gsr_enable
        &&& !self.gsr_invert
        &&& forall|i: int| 0 <= i < 4 ==> !#[trigger] self.gts_enable@[i]
        &&& forall|i: int| 0 <= i < 4 ==> #[trigger] self.gts_invert@[i]
        &&& self.global_pu
    }
}

impl Default for XC2GlobalNets {
    /// The configuration in which every net is disabled.
    fn default() -> (r: XC2GlobalNets)
        ensures
            r.is_default(),
    {
        XC2GlobalNets {
            gck_enable: [false; 3],
            gsr_enable: false,
            gsr_invert: false,
            gts_enable: [false; 4],
            gts_invert: [true; 4],
            global_pu: true,
        }
    }
}

/// The configuration of a device, by part.
#[derive(Copy, Clone, Debug)]
pub enum XC2BitstreamBits {
    XC2C32 {
        fb: [XC2BitstreamFB; 2],
        iobs: [XC2MCSmallIOB; 32],
        inpin: XC2ExtraIBuf,
        global_nets: XC2GlobalNets,
        /// Input voltage range: `false` low, `true` high.
        ivoltage: bool,
        /// Output voltage range: `false` low, `true` high.
        ovoltage: bool,
    },
    XC2C32A {
        fb: [XC2BitstreamFB; 2],
        iobs: [XC2MCSmallIOB; 32],
        inpin: XC2ExtraIBuf,
        global_nets: XC2GlobalNets,
        /// Input voltage range of the older part: `false` low, `true` high.
        legacy_ivoltage: bool,
        /// Output voltage range of the older part: `false` low, `true` high.
        legacy_ovoltage: bool,
        /// Input voltage range of each I/O bank: `false` low, `true` high.
        ivoltage: [bool; 2],
        /// Output voltage range of each I/O bank: `false` low, `true` high.
        ovoltage: [bool; 2],
    },
}

impl XC2BitstreamBits {
    /// The two function blocks.
    pub open spec fn spec_fb(&self) -> Seq<XC2BitstreamFB> {
        match *self {
            XC2BitstreamBits::XC2C32 { fb, .. } => fb@,
            XC2BitstreamBits::XC2C32A { fb, .. } => fb@,
        }
    }

    /// The I/O blocks.
    pub open spec fn spec_iobs(&self) -> Seq<XC2MCSmallIOB> {
        match *self {
            XC2BitstreamBits::XC2C32 { iobs, .. } => iobs@,
            XC2BitstreamBits::XC2C32A { iobs, .. } => iobs@,
        }
    }

    /// The input-only pin.
    pub open spec fn spec_inpin(&self) -> XC2ExtraIBuf {
        match *self {
            XC2BitstreamBits::XC2C32 { inpin, .. } => inpin,
            XC2BitstreamBits::XC2C32A { inpin, .. } => inpin,
        }
    }

    /// The global nets.
    pub open spec fn spec_global_nets(&self) -> XC2GlobalNets {
        match *self {
            XC2BitstreamBits::XC2C32 { global_nets, .. } => global_nets,
            XC2BitstreamBits::XC2C32A { global_nets, .. } => global_nets,
        }
    }

    /// The input voltage range that fuse 12271 holds.
    pub open spec fn spec_ivoltage(&self) -> bool {
        match *self {
            XC2BitstreamBits::XC2C32 { ivoltage, .. } => ivoltage,
            XC2BitstreamBits::XC2C32A { legacy_ivoltage, .. } => legacy_ivoltage,
        }
    }

    /// The output voltage range that fuse 12270 holds.
    pub open spec fn spec_ovoltage(&self) -> bool {
        match *self {
            XC2BitstreamBits::XC2C32 { ovoltage, .. } => ovoltage,
            XC2BitstreamBits::XC2C32A { legacy_ovoltage, .. } => legacy_ovoltage,
        }
    }

    /// Number of fuses of the part.
    pub open spec fn fuse_count(&self) -> nat {
        match *self {
            XC2BitstreamBits::XC2C32 { .. } => 12274,
            XC2BitstreamBits::XC2C32A { .. } => 12278,
        }
    }

    /// Whether every ZIA row selects something that the row can select.
    pub open spec fn encodable(&self, table: &ZIATable) -> bool {
        self.spec_fb()[0].encodable(table) && self.spec_fb()[1].encodable(table)
    }

    /// The fuse at address `a` of the fuses behind the function blocks:
    /// 12256-12258 the global clocks; 12259 the polarity and 12260 the
    /// enable of the global set/reset; from 12261 on, for each global
    /// tristate, its polarity and the complement of its enable; 12269 the
    /// pull-ups; 12270 and 12271 the complements of the output and input
    /// voltage range; 12272 and 12273 the Schmitt trigger and the
    /// termination of the input-only pin; and on an XC2C32A, from 12274
    /// on, for each bank the complements of its input and output voltage
    /// range.
    pub open spec fn global_fuse(&self, a: int) -> bool {
        let g = self.spec_global_nets();
        if a < 12259 {
            g.gck_enable@[a - 12256]
        } else if a == 12259 {
            g.gsr_invert
        } else if a == 12260 {
            g.gsr_enable
        } else if a < 12269 {
            if (a - 12261) % 2 == 0 {
                g.gts_invert@[(a - 12261) / 2]
            } else {
                !g.gts_enable@[(a - 12261) / 2]
            }
        } else if a == 12269 {
            g.global_pu
        } else if a == 12270 {
            !self.spec_ovoltage()
        } else if a == 12271 {
            !self.spec_ivoltage()
        } else if a == 12272 {
            self.spec_inpin().schmitt_trigger
        } else if a == 12273 {
            self.spec_inpin().termination_enabled
        } else {
            match *self {
                XC2BitstreamBits::XC2C32A { ivoltage, ovoltage, .. } => if a == 12274 {
                    !ivoltage@[0]
                } else if a == 12275 {
                    !ovoltage@[0]
                } else if a == 12276 {
                    !ivoltage@[1]
                } else {
                    !ovoltage@[1]
                },
                _ => false,
            }
        }
    }

    /// The fuses behind the function blocks.
    pub open spec fn global_fuses(&self) -> Seq<bool> {
        Seq::new((self.fuse_count() - 12256) as nat, |k: int| self.global_fuse(12256 + k))
    }

    /// The fuse array that holds this configuration: the two function
    /// blocks, each with the I/O blocks of its macrocells, and the fuses
    /// behind them.
    pub open spec fn fuses(&self, table: &ZIATable) -> Seq<bool> {
        fb_fuses(&self.spec_fb()[0], self.spec_iobs().subrange(0, 16), table) + fb_fuses(
            &self.spec_fb()[1],
            self.spec_iobs().subrange(16, 32),
            table,
        ) + self.global_fuses()
    }

    /// The fuse at address `a` of the fuses behind the function blocks.
    pub fn global_fuse_exec(&self, a: usize) -> (r: bool)
        requires
            12256 <= a < self.fuse_count(),
        ensures
            r == self.global_fuse(a as int),
    {
        let g = match self {
            XC2BitstreamBits::XC2C32 { global_nets, .. } => global_nets,
            XC2BitstreamBits::XC2C32A { global_nets, .. } => global_nets,
        };
        let inpin = match self {
            XC2BitstreamBits::XC2C32 { inpin, .. } => inpin,
            XC2BitstreamBits::XC2C32A { inpin, .. } => inpin,
        };
        if a < 12259 {
            g.gck_enable[a - 12256]
        } else if a == 12259 {
            g.gsr_invert
        } else if a == 12260 {
            g.gsr_enable
        } else if a < 12269 {
            if (a - 12261) % 2 == 0 {
                g.gts_invert[(a - 12261) / 2]
            } else {
                !g.gts_enable[(a - 12261) / 2]
            }
        } else if a == 12269 {
            g.global_pu
        } else if a == 12270 {
            match self {
                XC2BitstreamBits::XC2C32 { ovoltage, .. } => !*ovoltage,
                XC2BitstreamBits::XC2C32A { legacy_ovoltage, .. } => !*legacy_ovoltage,
            }
        } else if a == 12271 {
            match self {
                XC2BitstreamBits::XC2C32 { ivoltage, .. } => !*ivoltage,
                XC2BitstreamBits::XC2C32A { legacy_ivoltage, .. } => !*legacy_ivoltage,
            }
        } else if a == 12272 {
            inpin.schmitt_trigger
        } else if a == 12273 {
            inpin.termination_enabled
        } else {
            match self {
                XC2BitstreamBits::XC2C32A { ivoltage, ovoltage, .. } => {
                    if a == 12274 {
                        !ivoltage[0]
                    } else if a == 12275 {
                        !ovoltage[0]
                    } else if a == 12276 {
                        !ivoltage[1]
                    } else {
                        !ovoltage[1]
                    }
                },
                _ => false,
            }
        }
    }

    /// The fuse array that holds this configuration.
    pub fn to_fuses(&self, table: &ZIATable) -> (r: Vec<bool>)
        requires
            table.wf(),
            self.encodable(table),
        ensures
            r@ == self.fuses(table),
            r@.len() == self.fuse_count(),
    {
        let mut out: Vec<bool> = Vec::new();
        let count: usize = match self {
            XC2BitstreamBits::XC2C32 { fb, iobs, .. } => {
                push_fb_fuses(&mut out, &fb[0], iobs, 0, table);
                push_fb_fuses(&mut out, &fb[1], iobs, 16, table);
                12274
            },
            XC2BitstreamBits::XC2C32A { fb, iobs, .. } => {
                push_fb_fuses(&mut out, &fb[0], iobs, 0, table);
                push_fb_fuses(&mut out, &fb[1], iobs, 16, table);
                12278
            },
        };
        let ghost blocks = out@;
        assert(blocks.len() == 12256);
        let mut a: usize = 12256;
        while a < count
            invariant
                12256 <= a <= count,
                count == self.fuse_count(),
                out@.len() == a,
                blocks.len() == 12256,
                forall|j: int| 0 <= j < 12256 ==> out@[j] == blocks[j],
                forall|j: int| 12256 <= j < a ==> out@[j] == self.global_fuse(j),
            decreases count - a,
        {
            out.push(self.global_fuse_exec(a));
            a += 1;
        }
        assert(out@ =~= blocks + self.global_fuses());
        out
    }
}

/// Why a bitstream could not be made or read.
#[derive(Copy, Clone, PartialEq, Eq, Structural, Debug, Hash)]
pub enum JedError {
    /// The device is none that this crate knows.
    InvalidDevice,
    /// The device name does not have the form
    /// `<device>-<speed>-<package>`.
    MalformedDeviceName,
    /// The device name names a part that this crate does not know.
    UnsupportedPart,
    /// The fuse array does not have the number of fuses of the part.
    WrongFuseCount,
    /// The fuses of a ZIA row select nothing that the row can select.
    UnknownZIAChoice,
    /// The fuses of an output buffer select no mode.
    UnknownOutputMode,
}

impl JedError {
    /// The error in words.
    pub fn message(&self) -> (r: &'static str)
        ensures
            r@ == self.spec_message(),
    {
        match self {
            JedError::InvalidDevice => "invalid device",
            JedError::MalformedDeviceName => "malformed device name",
            JedError::UnsupportedPart => "unsupported part",
            JedError::WrongFuseCount => "wrong number of fuses",
            JedError::UnknownZIAChoice => "unknown ZIA input choice",
            JedError::UnknownOutputMode => "unknown output buffer mode",
        }
    }

    /// The error in words.
    pub open spec fn spec_message(&self) -> Seq<char> {
        match self {
            JedError::InvalidDevice => "invalid device"@,
            JedError::MalformedDeviceName => "malformed device name"@,
            JedError::UnsupportedPart => "unsupported part"@,
            JedError::WrongFuseCount => "wrong number of fuses"@,
            JedError::UnknownZIAChoice => "unknown ZIA input choice"@,
            JedError::UnknownOutputMode => "unknown output buffer mode"@,
        }
    }
}

/// Whether `s` and `t` spell the same.
pub fn str_is(s: &str, t: &str) -> (r: bool)
    ensures
        r == (s@ == t@),
{
    let n = s.unicode_len();
    if n != t.unicode_len() {
        return false;
    }
    let mut i: usize = 0;
    while i < n
        invariant
            i <= n,
            n == s@.len(),
            n == t@.len(),
            forall|k: int| 0 <= k < i ==> s@[k] == t@[k],
        decreases n - i,
    {
        if s.get_char(i) != t.get_char(i) {
            return false;
        }
        i += 1;
    }
    assert(s@ =~= t@);
    true
}

/// A whole bitstream: the configuration of a device with the speed grade
/// and the package of the device it is for.
#[derive(Debug)]
pub struct XC2Bitstream {
    pub speed_grade: String,
    pub package: String,
    pub bits: XC2BitstreamBits,
}

/// The lines before the fuse records of a JEDEC file: the note on what
/// wrote the file and the byte that begins the data.
pub open spec fn jed_header() -> Seq<u8> {
    ".JED fuse map written by xc2bit\n".spec_bytes()
        + "https://github.com/azonenberg/openfpga\n\n".spec_bytes() + "\x02".spec_bytes()
}

/// The lines that name the number of fuses and the device.
pub open spec fn jed_device(bits: &XC2BitstreamBits, speed_grade: Seq<char>, package: Seq<char>) -> Seq<
    u8,
> {
    (match *bits {
        XC2BitstreamBits::XC2C32 { .. } => "QF12274*\n".spec_bytes() + "N DEVICE XC2C32-".spec_bytes(),
        XC2BitstreamBits::XC2C32A { .. } => "QF12278*\n".spec_bytes()
            + "N DEVICE XC2C32A-".spec_bytes(),
    }) + vstd::utf8::encode_utf8(speed_grade) + "-".spec_bytes() + vstd::utf8::encode_utf8(package)
        + "*\n\n".spec_bytes()
}

/// The lines behind the fuse records: the byte that ends the data and a
/// checksum of zeros.
pub open spec fn jed_trailer() -> Seq<u8> {
    "\x030000\n".spec_bytes()
}

/// Appends the lines before the fuse records.
fn push_header(writer: &mut Vec<u8>)
    ensures
        final(writer)@ == old(writer)@ + jed_header(),
{
    let ghost start = writer@;
    push_bytes(writer, ".JED fuse map written by xc2bit\n");
    push_bytes(writer, "https://github.com/azonenberg/openfpga\n\n");
    push_bytes(writer, "\x02");
    assert(writer@ =~= start + jed_header());
}

/// Appends the lines that name the number of fuses and the device.
fn push_device(writer: &mut Vec<u8>, bits: &XC2BitstreamBits, speed_grade: &str, package: &str)
    ensures
        final(writer)@ == old(writer)@ + jed_device(bits, speed_grade@, package@),
{
    let ghost start = writer@;
    match bits {
        XC2BitstreamBits::XC2C32 { .. } => {
            push_bytes(writer, "QF12274*\n");
            push_bytes(writer, "N DEVICE XC2C32-");
        },
        XC2BitstreamBits::XC2C32A { .. } => {
            push_bytes(writer, "QF12278*\n");
            push_bytes(writer, "N DEVICE XC2C32A-");
        },
    }
    push_bytes(writer, speed_grade);
    push_bytes(writer, "-");
    push_bytes(writer, package);
    push_bytes(writer, "*\n\n");
    assert(writer@ =~= start + jed_device(bits, speed_grade@, package@));
}

impl XC2BitstreamBits {
    /// Appends the fuse records of this configuration to `writer`.
    pub fn write_jed(&self, writer: &mut Vec<u8>, table: &ZIATable)
        requires
            table.wf(),
            self.encodable(table),
        ensures
            final(writer)@ == old(writer)@ + jed_body(self.fuses(table)),
    {
        let fuses = self.to_fuses(table);
        push_body(writer, &fuses);
    }
}

impl XC2Bitstream {
    /// The JEDEC file of this bitstream.
    pub open spec fn jed_text(&self, table: &ZIATable) -> Seq<u8> {
        jed_header() + jed_device(&self.bits, self.speed_grade@, self.package@) + jed_body(
            self.bits.fuses(table),
        ) + jed_trailer()
    }

    /// Appends the JEDEC file of this bitstream to `writer`.
    pub fn write_jed(&self, writer: &mut Vec<u8>, table: &ZIATable)
        requires
            table.wf(),
            self.bits.encodable(table),
        ensures
            final(writer)@ == old(writer)@ + self.jed_text(table),
    {
        let ghost start = writer@;
        push_header(writer);
        push_device(writer, &self.bits, self.speed_grade.as_str(), self.package.as_str());
        self.bits.write_jed(writer, table);
        push_bytes(writer, "\x030000\n");
        proof {
            crate::text::lemma_append4(
                start,
                jed_header(),
                jed_device(&self.bits, self.speed_grade@, self.package@),
                jed_body(self.bits.fuses(table)),
                jed_trailer(),
            );
        }
    }

    /// A blank bitstream for the part `device`, which is `XC2C32` or
    /// `XC2C32A`: nothing is connected, every ZIA row selects constant
    /// one, and every macrocell, I/O block and global net has its default
    /// configuration.
    pub fn blank_bitstream(device: &str, speed_grade: &str, package: &str) -> (r: Result<
        XC2Bitstream,
        JedError,
    >)
        ensures
            match r {
                Ok(b) => {
                    &&& b.speed_grade@ == speed_grade@
                    &&& b.package@ == package@
                    &&& b.bits.is_blank()
                    &&& (device@ == "XC2C32"@ ==> b.bits is XC2C32)
                    &&& (device@ != "XC2C32"@ ==> device@ == "XC2C32A"@ && b.bits is XC2C32A)
                },
                Err(e) => e == JedError::InvalidDevice && device@ != "XC2C32"@ && device@
                    != "XC2C32A"@,
            },
    {
        if str_is(device, "XC2C32") {
            Ok(
                XC2Bitstream {
                    speed_grade: speed_grade.to_owned(),
                    package: package.to_owned(),
                    bits: XC2BitstreamBits::XC2C32 {
                        fb: [XC2BitstreamFB::default(); 2],
                        iobs: [XC2MCSmallIOB::default(); 32],
                        inpin: XC2ExtraIBuf::default(),
                        global_nets: XC2GlobalNets::default(),
                        ivoltage: false,
                        ovoltage: false,
                    },
                },
            )
        } else if str_is(device, "XC2C32A") {
            Ok(
                XC2Bitstream {
                    speed_grade: speed_grade.to_owned(),
                    package: package.to_owned(),
                    bits: XC2BitstreamBits::XC2C32A {
                        fb: [XC2BitstreamFB::default(); 2],
                        iobs: [XC2MCSmallIOB::default(); 32],
                        inpin: XC2ExtraIBuf::default(),
                        global_nets: XC2GlobalNets::default(),
                        legacy_ivoltage: false,
                        legacy_ovoltage: false,
                        ivoltage: [false, false],
                        ovoltage: [false, false],
                    },
                },
            )
        } else {
            Err(JedError::InvalidDevice)
        }
    }
}

impl XC2BitstreamBits {
    /// Whether the configuration is blank: both function blocks are
    /// blank, every I/O block, the input-only pin and the global nets have
    /// their default configuration, and every voltage range is low.
    pub open spec fn is_blank(&self) -> bool {
        &&& self.spec_fb()[0].is_blank()
        &&& self.spec_fb()[1].is_blank()
        &&& forall|i: int| 0 <= i < 32 ==> #[trigger] self.spec_iobs()[i] == XC2MCSmallIOB::spec_default()
        &&& self.spec_inpin() == XC2ExtraIBuf::spec_default()
        &&& self.spec_global_nets().is_default()
        &&& !self.spec_ivoltage()
        &&& !self.spec_ovoltage()
        &&& match *self {
            XC2BitstreamBits::XC2C32A { ivoltage, ovoltage, .. } => !ivoltage@[0] && !ivoltage@[1]
                && !ovoltage@[0] && !ovoltage@[1],
            _ => true,
        }
    }
}

/// Whether `g` is the configuration of the global nets that the fuses
/// hold.
pub open spec fn global_nets_decoded(g: &XC2GlobalNets, f: Seq<bool>) -> bool {
    &&& forall|i: int| 0 <= i < 3 ==> #[trigger] g.gck_enable@[i] == f[12256 + i]
    &&& g.gsr_enable == f[12260]
    &&& g.gsr_invert == f[12259]
    &&& forall|i: int| 0 <= i < 4 ==> #[trigger] g.gts_enable@[i] == !f[12262 + 2 * i]
    &&& forall|i: int| 0 <= i < 4 ==> #[trigger] g.gts_invert@[i] == f[12261 + 2 * i]
    &&& g.global_pu == f[12269]
}

/// Reads the configuration of the global nets out of a fuse array.
pub fn read_32_global_nets_logical(fuses: &[bool]) -> (r: XC2GlobalNets)
    requires
        fuses@.len() >= 12274,
    ensures
        global_nets_decoded(&r, fuses@),
{
    XC2GlobalNets {
        gck_enable: [fuses[12256], fuses[12257], fuses[12258]],
        gsr_enable: fuses[12260],
        gsr_invert: fuses[12259],
        gts_enable: [!fuses[12262], !fuses[12264], !fuses[12266], !fuses[12268]],
        gts_invert: [fuses[12261], fuses[12263], fuses[12265], fuses[12267]],
        global_pu: fuses[12269],
    }
}

/// The address of the first fuse of the macrocell of I/O block `i`.
pub open spec fn iob_fuse_base(i: int) -> int {
    (if i < 16 {
        5696int
    } else {
        11824int
    }) + (i % 16) * 27
}

/// Whether the fuses of every output buffer select a mode.
pub open spec fn iobs_decodable(f: Seq<bool>) -> bool {
    forall|i: int| 0 <= i < 32 ==> #[trigger] iob_of_fuses(f, iob_fuse_base(i)) is Some
}

/// Whether `bits` is the configuration that the fuse array `f` holds:
/// every part of it is what the fuses at its place say.
pub open spec fn bits_decoded(bits: &XC2BitstreamBits, f: Seq<bool>, table: &ZIATable) -> bool {
    &&& f.len() == bits.fuse_count()
    &&& fb_decoded(&bits.spec_fb()[0], f, 0, table)
    &&& fb_decoded(&bits.spec_fb()[1], f, 6128, table)
    &&& forall|i: int|
        0 <= i < 32 ==> Some(#[trigger] bits.spec_iobs()[i]) == iob_of_fuses(f, iob_fuse_base(i))
    &&& bits.spec_inpin() == extra_ibuf_of_fuses(f)
    &&& global_nets_decoded(&bits.spec_global_nets(), f)
    &&& bits.spec_ovoltage() == !f[12270]
    &&& bits.spec_ivoltage() == !f[12271]
    &&& match *bits {
        XC2BitstreamBits::XC2C32A { ivoltage, ovoltage, .. } => ivoltage@[0] == !f[12274]
            && ovoltage@[0] == !f[12275] && ivoltage@[1] == !f[12276] && ovoltage@[1] == !f[12277],
        _ => true,
    }
}

/// Why the fuse array `f` holds no configuration, if it holds none: the
/// fuses of a ZIA row select nothing, or else the fuses of an output
/// buffer select no mode.
pub open spec fn decode_error(f: Seq<bool>, table: &ZIATable) -> Option<JedError> {
    if !fb_decodable(f, 0, table) || !fb_decodable(f, 6128, table) {
        Some(JedError::UnknownZIAChoice)
    } else if !iobs_decodable(f) {
        Some(JedError::UnknownOutputMode)
    } else {
        None
    }
}

/// Reads the two function blocks out of a fuse array.
fn read_32_fbs(fuses: &[bool], table: &ZIATable) -> (r: Option<[XC2BitstreamFB; 2]>)
    requires
        table.wf(),
        fuses@.len() >= 12274,
    ensures
        match r {
            Some(fb) => fb_decoded(&fb@[0], fuses@, 0, table) && fb_decoded(
                &fb@[1],
                fuses@,
                6128,
                table,
            ) && fb_decodable(fuses@, 0, table) && fb_decodable(fuses@, 6128, table),
            None => !fb_decodable(fuses@, 0, table) || !fb_decodable(fuses@, 6128, table),
        },
{
    let fb0 = match read_32_fb_logical(fuses, 0, table) {
        Some(x) => x,
        None => {
            return None;
        },
    };
    let fb1 = match read_32_fb_logical(fuses, 1, table) {
        Some(x) => x,
        None => {
            return None;
        },
    };
    Some([fb0, fb1])
}

/// Reads the I/O blocks out of a fuse array.
fn read_32_iobs(fuses: &[bool]) -> (r: Option<[XC2MCSmallIOB; 32]>)
    requires
        fuses@.len() >= 12274,
    ensures
        match r {
            Some(iobs) => iobs_decodable(fuses@) && forall|i: int|
                0 <= i < 32 ==> Some(#[trigger] iobs@[i]) == iob_of_fuses(fuses@, iob_fuse_base(i)),
            None => !iobs_decodable(fuses@),
        },
{
    let mut iobs = [XC2MCSmallIOB::default(); 32];
    let mut i: usize = 0;
    while i < 32
        invariant
            i <= 32,
            fuses@.len() >= 12274,
            forall|k: int|
                0 <= k < i ==> Some(#[trigger] iobs@[k]) == iob_of_fuses(fuses@, iob_fuse_base(k)),
            forall|k: int| 0 <= k < i ==> #[trigger] iob_of_fuses(fuses@, iob_fuse_base(k)) is Some,
        decreases 32 - i,
    {
        let base_fuse: usize = if i < 16 { 5696 } else { 11824 };
        match read_32_iob_logical(fuses, base_fuse, i % 16) {
            Some(x) => {
                iobs[i] = x;
            },
            None => {
                assert(iob_of_fuses(fuses@, iob_fuse_base(i as int)) is None);
                return None;
            },
        }
        i += 1;
    }
    Some(iobs)
}

/// Reads the configuration of an XC2C32 out of a fuse array.
pub fn read_32_bitstream_logical(fuses: &[bool], table: &ZIATable) -> (r: Result<
    XC2BitstreamBits,
    JedError,
>)
    requires
        table.wf(),
        fuses@.len() == 12274,
    ensures
        match r {
            Ok(bits) => bits is XC2C32 && bits_decoded(&bits, fuses@, table) && decode_error(
                fuses@,
                table,
            ) is None,
            Err(e) => decode_error(fuses@, table) == Some(e),
        },
{
    let fb = match read_32_fbs(fuses, table) {
        Some(x) => x,
        None => {
            return Err(JedError::UnknownZIAChoice);
        },
    };
    let iobs = match read_32_iobs(fuses) {
        Some(x) => x,
        None => {
            return Err(JedError::UnknownOutputMode);
        },
    };
    let inpin = read_32_extra_ibuf_logical(fuses);
    let global_nets = read_32_global_nets_logical(fuses);
    Ok(
        XC2BitstreamBits::XC2C32 {
            fb,
            iobs,
            inpin,
            global_nets,
            ovoltage: !fuses[12270],
            ivoltage: !fuses[12271],
        },
    )
}

/// Reads the configuration of an XC2C32A out of a fuse array.
pub fn read_32a_bitstream_logical(fuses: &[bool], table: &ZIATable) -> (r: Result<
    XC2BitstreamBits,
    JedError,
>)
    requires
        table.wf(),
        fuses@.len() == 12278,
    ensures
        match r {
            Ok(bits) => bits is XC2C32A && bits_decoded(&bits, fuses@, table) && decode_error(
                fuses@,
                table,
            ) is None,
            Err(e) => decode_error(fuses@, table) == Some(e),
        },
{
    let fb = match read_32_fbs(fuses, table) {
        Some(x) => x,
        None => {
            return Err(JedError::UnknownZIAChoice);
        },
    };
    let iobs = match read_32_iobs(fuses) {
        Some(x) => x,
        None => {
            return Err(JedError::UnknownOutputMode);
        },
    };
    let inpin = read_32_extra_ibuf_logical(fuses);
    let global_nets = read_32_global_nets_logical(fuses);
    Ok(
        XC2BitstreamBits::XC2C32A {
            fb,
            iobs,
            inpin,
            global_nets,
            legacy_ovoltage: !fuses[12270],
            legacy_ivoltage: !fuses[12271],
            ivoltage: [!fuses[12274], !fuses[12276]],
            ovoltage: [!fuses[12275], !fuses[12277]],
        },
    )
}

/// Why `process_jed` fails on a fuse array and a device name, if it
/// fails: the name is malformed, or names an unknown part, or the array
/// has another number of fuses than the part, or the fuses hold no
/// configuration.
pub open spec fn process_error(f: Seq<bool>, device: Seq<char>, table: &ZIATable) -> Option<JedError> {
    match split_device_name(device) {
        None => Some(JedError::MalformedDeviceName),
        Some((d, _, _)) => if d == "XC2C32"@ {
            if f.len() != 12274 {
                Some(JedError::WrongFuseCount)
            } else {
                decode_error(f, table)
            }
        } else if d == "XC2C32A"@ {
            if f.len() != 12278 {
                Some(JedError::WrongFuseCount)
            } else {
                decode_error(f, table)
            }
        } else {
            Some(JedError::UnsupportedPart)
        },
    }
}

/// Makes a bitstream of a fuse array and the name of the device it is
/// for, `<device>-<speed>-<package>` with `XC2C32` or `XC2C32A` for the
/// device.
pub fn process_jed(fuses: &[bool], device: &str, table: &ZIATable) -> (r: Result<
    XC2Bitstream,
    JedError,
>)
    requires
        table.wf(),
    ensures
        match r {
            Ok(b) => {
                &&& process_error(fuses@, device@, table) is None
                &&& split_device_name(device@) matches Some(parts) && b.speed_grade@ == parts.1
                    && b.package@ == parts.2 && (b.bits is XC2C32 <==> parts.0 == "XC2C32"@)
                &&& bits_decoded(&b.bits, fuses@, table)
            },
            Err(e) => process_error(fuses@, device@, table) == Some(e),
        },
{
    let n = device.unicode_len();
    let d1 = crate::device::find_dash_exec(device, 0, n);
    if d1 >= n {
        return Err(JedError::MalformedDeviceName);
    }
    let d2 = crate::device::find_dash_exec(device, d1 + 1, n);
    if d2 >= n {
        return Err(JedError::MalformedDeviceName);
    }
    let d3 = crate::device::find_dash_exec(device, d2 + 1, n);
    if d3 != n {
        return Err(JedError::MalformedDeviceName);
    }
    let part = device.substring_char(0, d1);
    let device_speed = device.substring_char(d1 + 1, d2);
    let device_package = device.substring_char(d2 + 1, n);

    if str_is(part, "XC2C32") {
        if fuses.len() != 12274 {
            return Err(JedError::WrongFuseCount);
        }
        match read_32_bitstream_logical(fuses, table) {
            Ok(bits) => Ok(
                XC2Bitstream {
                    speed_grade: device_speed.to_owned(),
                    package: device_package.to_owned(),
                    bits,
                },
            ),
            Err(e) => Err(e),
        }
    } else if str_is(part, "XC2C32A") {
        if fuses.len() != 12278 {
            return Err(JedError::WrongFuseCount);
        }
        match read_32a_bitstream_logical(fuses, table) {
            Ok(bits) => Ok(
                XC2Bitstream {
                    speed_grade: device_speed.to_owned(),
                    package: device_package.to_owned(),
                    bits,
                },
            ),
            Err(e) => Err(e),
        }
    } else {
        Err(JedError::UnsupportedPart)
    }
}

/// `enabled` or `disabled`.
pub open spec fn enabled_text(b: bool) -> Seq<u8> {
    if b {
        "enabled".spec_bytes()
    } else {
        "disabled".spec_bytes()
    }
}

/// `high` or `low`.
pub open spec fn high_low(b: bool) -> Seq<u8> {
    if b {
        "high".spec_bytes()
    } else {
        "low".spec_bytes()
    }
}

/// `!T` or `T`.
pub open spec fn tristate_text(inverted: bool) -> Seq<u8> {
    if inverted {
        "!T".spec_bytes()
    } else {
        "T".spec_bytes()
    }
}

/// A line that names a voltage range as high or low.
pub open spec fn range_line(label: &str, high: bool) -> Seq<u8> {
    label.spec_bytes() + high_low(high) + "\n".spec_bytes()
}

/// Appends a line that names a voltage range as high or low.
fn push_range_line(out: &mut Vec<u8>, label: &str, high: bool)
    ensures
        final(out)@ == old(out)@ + range_line(label, high),
{
    let ghost start = out@;
    push_bytes(out, label);
    push_bytes(out, if high { "high" } else { "low" });
    push_bytes(out, "\n");
    assert(out@ =~= start + range_line(label, high));
}

/// Appends `enabled` or `disabled`.
fn push_enabled(out: &mut Vec<u8>, b: bool)
    ensures
        final(out)@ == old(out)@ + enabled_text(b),
{
    push_bytes(out, if b { "enabled" } else { "disabled" });
}

/// Appends `high` or `low`.
fn push_high_low(out: &mut Vec<u8>, b: bool)
    ensures
        final(out)@ == old(out)@ + high_low(b),
{
    push_bytes(out, if b { "high" } else { "low" });
}

impl XC2GlobalNets {
    /// The line on global tristate `i`.
    pub open spec fn gts_line(&self, i: int) -> Seq<u8> {
        "GTS".spec_bytes() + crate::text::spec_decimal(i as nat) + " ".spec_bytes() + enabled_text(
            self.gts_enable@[i],
        ) + ", acts as ".spec_bytes() + tristate_text(self.gts_invert@[i]) + "\n".spec_bytes()
    }

    /// The line on global clock `i`.
    pub open spec fn gck_line(&self, i: int) -> Seq<u8> {
        "GCK".spec_bytes() + crate::text::spec_decimal(i as nat) + " ".spec_bytes() + enabled_text(
            self.gck_enable@[i],
        ) + "\n".spec_bytes()
    }

    /// The description of the global nets as text.
    pub open spec fn human_readable(&self) -> Seq<u8> {
        "\n".spec_bytes() + self.gck_line(0) + self.gck_line(1) + self.gck_line(2)
            + "GSR ".spec_bytes() + enabled_text(self.gsr_enable) + ", active ".spec_bytes()
            + high_low(self.gsr_invert) + "\n".spec_bytes() + self.gts_line(0) + self.gts_line(1)
            + self.gts_line(2) + self.gts_line(3) + "global termination is ".spec_bytes() + (
        if self.global_pu {
            "pull-up".spec_bytes()
        } else {
            "bus hold".spec_bytes()
        }) + "\n".spec_bytes()
    }

    /// Appends the line on global clock `i`.
    fn push_gck_line(&self, out: &mut Vec<u8>, i: usize)
        requires
            i < 3,
        ensures
            final(out)@ == old(out)@ + self.gck_line(i as int),
    {
        let ghost start = out@;
        push_bytes(out, "GCK");
        crate::text::push_decimal(out, i as u64);
        push_bytes(out, " ");
        push_enabled(out, self.gck_enable[i]);
        push_bytes(out, "\n");
        assert(out@ =~= start + self.gck_line(i as int));
    }

    /// Appends the line on global tristate `i`.
    fn push_gts_line(&self, out: &mut Vec<u8>, i: usize)
        requires
            i < 4,
        ensures
            final(out)@ == old(out)@ + self.gts_line(i as int),
    {
        let ghost start = out@;
        push_bytes(out, "GTS");
        crate::text::push_decimal(out, i as u64);
        push_bytes(out, " ");
        push_enabled(out, self.gts_enable[i]);
        push_bytes(out, ", acts as ");
        push_bytes(out, if self.gts_invert[i] { "!T" } else { "T" });
        push_bytes(out, "\n");
        assert(out@ =~= start + self.gts_line(i as int));
    }

    /// Appends the description of the global nets to `writer`.
    pub fn dump_human_readable(&self, writer: &mut Vec<u8>)
        ensures
            final(writer)@ == old(writer)@ + self.human_readable(),
    {
        let mut out: Vec<u8> = Vec::new();
        push_bytes(&mut out, "\n");
        self.push_gck_line(&mut out, 0);
        self.push_gck_line(&mut out, 1);
        self.push_gck_line(&mut out, 2);
        push_bytes(&mut out, "GSR ");
        push_enabled(&mut out, self.gsr_enable);
        push_bytes(&mut out, ", active ");
        push_high_low(&mut out, self.gsr_invert);
        push_bytes(&mut out, "\n");
        self.push_gts_line(&mut out, 0);
        self.push_gts_line(&mut out, 1);
        self.push_gts_line(&mut out, 2);
        self.push_gts_line(&mut out, 3);
        push_bytes(&mut out, "global termination is ");
        push_bytes(&mut out, if self.global_pu { "pull-up" } else { "bus hold" });
        push_bytes(&mut out, "\n");
        assert(out@ =~= self.human_readable());
        crate::text::append(writer, &out);
    }
}

/// The descriptions of the first `n` I/O blocks, one after the other.
pub open spec fn iobs_text(iobs: Seq<XC2MCSmallIOB>, n: int) -> Seq<u8>
    decreases n,
{
    if n <= 0 {
        Seq::empty()
    } else {
        iobs_text(iobs, n - 1) + iobs[n - 1].human_readable((n - 1) as u32)
    }
}

/// The descriptions of the registers of the first `n` macrocells of
/// function block `fb_i`, one after the other.
pub open spec fn ffs_text(fb: &XC2BitstreamFB, fb_i: u32, n: int) -> Seq<u8>
    decreases n,
{
    if n <= 0 {
        Seq::empty()
    } else {
        ffs_text(fb, fb_i, n - 1) + fb.ffs@[n - 1].human_readable(fb_i, (n - 1) as u32)
    }
}

impl XC2BitstreamBits {
    /// The lines on the part and its voltage ranges.
    pub open spec fn part_text(&self) -> Seq<u8> {
        match *self {
            XC2BitstreamBits::XC2C32 { ivoltage, ovoltage, .. } => "device type: XC2C32\n".spec_bytes()
                + range_line("output voltage range: ", ovoltage) + range_line(
                "input voltage range: ",
                ivoltage,
            ),
            XC2BitstreamBits::XC2C32A {
                legacy_ivoltage,
                legacy_ovoltage,
                ivoltage,
                ovoltage,
                ..
            } => "device type: XC2C32A\n".spec_bytes() + range_line(
                "legacy output voltage range: ",
                legacy_ovoltage,
            ) + range_line("legacy input voltage range: ", legacy_ivoltage) + range_line(
                "bank 0 output voltage range: ",
                ovoltage@[0],
            ) + range_line("bank 1 output voltage range: ", ovoltage@[1]) + range_line(
                "bank 0 input voltage range: ",
                ivoltage@[0],
            ) + range_line("bank 1 input voltage range: ", ivoltage@[1]),
        }
    }

    /// The description of the configuration as text: the part and its
    /// voltage ranges, the global nets, every I/O block, the input-only
    /// pin, and the registers of the two function blocks.
    pub open spec fn human_readable(&self) -> Seq<u8> {
        self.part_text() + self.spec_global_nets().human_readable() + iobs_text(
            self.spec_iobs(),
            32,
        ) + self.spec_inpin().human_readable() + ffs_text(&self.spec_fb()[0], 0, 16) + ffs_text(
            &self.spec_fb()[1],
            1,
            16,
        )
    }

    /// Appends the lines on the part and its voltage ranges.
    fn push_part_text(&self, out: &mut Vec<u8>)
        ensures
            final(out)@ == old(out)@ + self.part_text(),
    {
        let ghost start = out@;
        match self {
            XC2BitstreamBits::XC2C32 { ivoltage, ovoltage, .. } => {
                push_bytes(out, "device type: XC2C32\n");
                push_range_line(out, "output voltage range: ", *ovoltage);
                push_range_line(out, "input voltage range: ", *ivoltage);
                proof {
                    crate::text::lemma_append3(
                        start,
                        "device type: XC2C32\n".spec_bytes(),
                        range_line("output voltage range: ", *ovoltage),
                        range_line("input voltage range: ", *ivoltage),
                    );
                }
            },
            XC2BitstreamBits::XC2C32A {
                legacy_ivoltage,
                legacy_ovoltage,
                ivoltage,
                ovoltage,
                ..
            } => {
                push_bytes(out, "device type: XC2C32A\n");
                push_range_line(out, "legacy output voltage range: ", *legacy_ovoltage);
                push_range_line(out, "legacy input voltage range: ", *legacy_ivoltage);
                push_range_line(out, "bank 0 output voltage range: ", ovoltage[0]);
                push_range_line(out, "bank 1 output voltage range: ", ovoltage[1]);
                push_range_line(out, "bank 0 input voltage range: ", ivoltage[0]);
                push_range_line(out, "bank 1 input voltage range: ", ivoltage[1]);
                proof {
                    crate::text::lemma_append7(
                        start,
                        "device type: XC2C32A\n".spec_bytes(),
                        range_line("legacy output voltage range: ", *legacy_ovoltage),
                        range_line("legacy input voltage range: ", *legacy_ivoltage),
                        range_line("bank 0 output voltage range: ", ovoltage@[0]),
                        range_line("bank 1 output voltage range: ", ovoltage@[1]),
                        range_line("bank 0 input voltage range: ", ivoltage@[0]),
                        range_line("bank 1 input voltage range: ", ivoltage@[1]),
                    );
                }
            },
        }
    }

    /// Appends the description of the configuration to `writer`.
    pub fn dump_human_readable(&self, writer: &mut Vec<u8>)
        ensures
            final(writer)@ == old(writer)@ + self.human_readable(),
    {
        let ghost start = writer@;
        self.push_part_text(writer);
        let (fb, iobs, inpin, global_nets) = match self {
            XC2BitstreamBits::XC2C32 { fb, iobs, inpin, global_nets, .. } => (
                fb,
                iobs,
                inpin,
                global_nets,
            ),
            XC2BitstreamBits::XC2C32A { fb, iobs, inpin, global_nets, .. } => (
                fb,
                iobs,
                inpin,
                global_nets,
            ),
        };
        global_nets.dump_human_readable(writer);
        let ghost before_iobs = writer@;
        let mut i: usize = 0;
        while i < 32
            invariant
                i <= 32,
                writer@ == before_iobs + iobs_text(iobs@, i as int),
            decreases 32 - i,
        {
            iobs[i].dump_human_readable(i as u32, writer);
            assert(writer@ =~= before_iobs + iobs_text(iobs@, i as int + 1));
            i += 1;
        }
        inpin.dump_human_readable(writer);
        push_ffs_text(writer, &fb[0], 0);
        push_ffs_text(writer, &fb[1], 1);
        proof {
            crate::text::lemma_append6(
                start,
                self.part_text(),
                self.spec_global_nets().human_readable(),
                iobs_text(self.spec_iobs(), 32),
                self.spec_inpin().human_readable(),
                ffs_text(&self.spec_fb()[0], 0, 16),
                ffs_text(&self.spec_fb()[1], 1, 16),
            );
        }
    }
}

/// Appends the descriptions of the registers of function block `fb_i`.
fn push_ffs_text(writer: &mut Vec<u8>, fb: &XC2BitstreamFB, fb_i: u32)
    ensures
        final(writer)@ == old(writer)@ + ffs_text(fb, fb_i, 16),
{
    let ghost start = writer@;
    let mut i: usize = 0;
    while i < 16
        invariant
            i <= 16,
            writer@ == start + ffs_text(fb, fb_i, i as int),
        decreases 16 - i,
    {
        fb.ffs[i].dump_human_readable(fb_i, i as u32, writer);
        assert(writer@ =~= start + ffs_text(fb, fb_i, i as int + 1));
        i += 1;
    }
}

impl XC2Bitstream {
    /// The description of the bitstream as text.
    pub open spec fn human_readable(&self) -> Seq<u8> {
        "xc2bit dump\n".spec_bytes() + "device speed grade: ".spec_bytes()
            + vstd::utf8::encode_utf8(self.speed_grade@) + "\n".spec_bytes()
            + "device package: ".spec_bytes() + vstd::utf8::encode_utf8(self.package@)
            + "\n".spec_bytes() + self.bits.human_readable()
    }

    /// Appends the description of the bitstream to `writer`.
    pub fn dump_human_readable(&self, writer: &mut Vec<u8>)
        ensures
            final(writer)@ == old(writer)@ + self.human_readable(),
    {
        let ghost start = writer@;
        let mut head: Vec<u8> = Vec::new();
        push_bytes(&mut head, "xc2bit dump\n");
        push_bytes(&mut head, "device speed grade: ");
        push_bytes(&mut head, self.speed_grade.as_str());
        push_bytes(&mut head, "\n");
        push_bytes(&mut head, "device package: ");
        push_bytes(&mut head, self.package.as_str());
        push_bytes(&mut head, "\n");
        crate::text::append(writer, &head);
        self.bits.dump_human_readable(writer);
        assert(writer@ =~= start + (head@ + self.bits.human_readable()));
        assert(head@ + self.bits.human_readable() =~= self.human_readable());
    }
}

/// Checks a function block against `encodable`.
fn fb_is_encodable(fb: &XC2BitstreamFB, table: &ZIATable) -> (r: bool)
    requires
        table.wf(),
    ensures
        r == fb.encodable(table),
{
    let mut i: usize = 0;
    while i < 40
        invariant
            i <= 40,
            table.wf(),
            forall|k: int|
                0 <= k < i ==> table.spec_encode(k, (#[trigger] fb.zia_bits@[k]).selected) is Some,
        decreases 40 - i,
    {
        if table.encode(i, fb.zia_bits[i].selected).is_none() {
            assert(table.spec_encode(i as int, fb.zia_bits@[i as int].selected) is None);
            return false;
        }
        i += 1;
    }
    true
}

impl XC2BitstreamBits {
    /// Checks the configuration against `encodable`: whether it can be
    /// written with the routing table `table`.
    pub fn is_encodable(&self, table: &ZIATable) -> (r: bool)
        requires
            table.wf(),
        ensures
            r == self.encodable(table),
    {
        match self {
            XC2BitstreamBits::XC2C32 { fb, .. } => fb_is_encodable(&fb[0], table) && fb_is_encodable(
                &fb[1],
                table,
            ),
            XC2BitstreamBits::XC2C32A { fb, .. } => fb_is_encodable(&fb[0], table)
                && fb_is_encodable(&fb[1], table),
        }
    }
}

} // verus!
