//! The device model: which part, its function blocks and fuse count, the
//! pads of its global nets, and its ZIA routing table.

use vstd::prelude::*;
use vstd::string::StrSliceExecFns;
use crate::mc::MCS_PER_FB;
use crate::zia::ZIATable;

verus! {

/// The parts this crate knows.
#[derive(Clone, Copy, PartialEq, Eq, Structural, Debug, Hash)]
pub enum XC2Device {
    XC2C32,
    XC2C32A,
}

/// Number of function blocks of either part.
pub const NUM_FBS: usize = 2;

/// Number of I/O blocks of either part.
pub const NUM_IOBS: usize = 32;

impl XC2Device {
    /// Number of function blocks of the part.
    pub fn num_fbs(&self) -> (r: usize)
        ensures
            r == NUM_FBS,
    {
        NUM_FBS
    }

    /// Number of fuses of the part.
    pub open spec fn spec_fuse_count(self) -> nat {
        match self {
            XC2Device::XC2C32 => 12274,
            XC2Device::XC2C32A => 12278,
        }
    }

    /// Number of fuses of the part.
    pub fn fuse_count(&self) -> (r: usize)
        ensures
            r == self.spec_fuse_count(),
    {
        match self {
            XC2Device::XC2C32 => 12274,
            XC2Device::XC2C32A => 12278,
        }
    }
}

/// The I/O block that belongs to macrocell `mc` of function block `fb`, if
/// that macrocell exists.
pub open spec fn spec_fb_mc_num_to_iob_num(fb: u32, mc: u32) -> Option<u32> {
    if fb < NUM_FBS && mc < MCS_PER_FB {
        Some((fb * 16 + mc) as u32)
    } else {
        None
    }
}

/// The I/O block that belongs to macrocell `mc` of function block `fb`, if
/// that macrocell exists.
pub fn fb_mc_num_to_iob_num(fb: u32, mc: u32) -> (r: Option<u32>)
    ensures
        r == spec_fb_mc_num_to_iob_num(fb, mc),
{
    if fb < 2 && mc < 16 {
        Some(fb * 16 + mc)
    } else {
        None
    }
}

/// The function block and macrocell that I/O block `iob` belongs to, if
/// that I/O block exists.
pub open spec fn spec_iob_num_to_fb_mc_num(iob: u32) -> Option<(u32, u32)> {
    if iob < NUM_IOBS {
        Some((iob / 16, iob % 16))
    } else {
        None
    }
}

/// The function block and macrocell that I/O block `iob` belongs to, if
/// that I/O block exists.
pub fn iob_num_to_fb_mc_num(iob: u32) -> (r: Option<(u32, u32)>)
    ensures
        r == spec_iob_num_to_fb_mc_num(iob),
{
    if iob < 32 {
        Some((iob / 16, iob % 16))
    } else {
        None
    }
}

/// Index of the first `-` of `s` at or after `from`; the length of `s` if
/// there is none.
pub open spec fn find_dash(s: Seq<char>, from: int) -> int
    decreases s.len() - from,
{
    if from >= s.len() {
        s.len() as int
    } else if s[from] == '-' {
        from
    } else {
        find_dash(s, from + 1)
    }
}

/// The three parts of a device name `<device>-<speed>-<package>`; `None`
/// unless the name holds exactly two dashes.
pub open spec fn split_device_name(s: Seq<char>) -> Option<(Seq<char>, Seq<char>, Seq<char>)> {
    let d1 = find_dash(s, 0);
    let d2 = find_dash(s, d1 + 1);
    if d1 < s.len() && d2 < s.len() && find_dash(s, d2 + 1) == s.len() {
        Some((s.subrange(0, d1), s.subrange(d1 + 1, d2), s.subrange(d2 + 1, s.len() as int)))
    } else {
        None
    }
}

/// Whether `s` spells `xc2c32`, in either case of each letter.
pub open spec fn names_xc2c32(s: Seq<char>) -> bool {
    &&& s.len() == 6
    &&& (s[0] == 'x' || s[0] == 'X')
    &&& (s[1] == 'c' || s[1] == 'C')
    &&& s[2] == '2'
    &&& (s[3] == 'c' || s[3] == 'C')
    &&& s[4] == '3'
    &&& s[5] == '2'
}

/// Whether `s` spells `xc2c32a`, in either case of each letter.
pub open spec fn names_xc2c32a(s: Seq<char>) -> bool {
    &&& s.len() == 7
    &&& names_xc2c32(s.subrange(0, 6))
    &&& (s[6] == 'a' || s[6] == 'A')
}

/// The part that `s` names, if any.
pub open spec fn spec_device_from_name(s: Seq<char>) -> Option<XC2Device> {
    if names_xc2c32(s) {
        Some(XC2Device::XC2C32)
    } else if names_xc2c32a(s) {
        Some(XC2Device::XC2C32A)
    } else {
        None
    }
}

/// Finds the first `-` of `s` at or after `from`.
pub(crate) fn find_dash_exec(s: &str, from: usize, len: usize) -> (r: usize)
    requires
        len == s@.len(),
        from <= len,
    ensures
        r == find_dash(s@, from as int),
        from <= r <= len,
{
    let mut i: usize = from;
    while i < len
        invariant
            from <= i <= len,
            len == s@.len(),
            find_dash(s@, from as int) == find_dash(s@, i as int),
        decreases len - i,
    {
        if s.get_char(i) == '-' {
            return i;
        }
        i += 1;
    }
    i
}

/// The part that `s` names, if any.
pub fn device_from_name(s: &str) -> (r: Option<XC2Device>)
    ensures
        r == spec_device_from_name(s@),
{
    let n = s.unicode_len();
    if n != 6 && n != 7 {
        return None;
    }
    let c0 = s.get_char(0);
    let c1 = s.get_char(1);
    let c2 = s.get_char(2);
    let c3 = s.get_char(3);
    let c4 = s.get_char(4);
    let c5 = s.get_char(5);
    let base = (c0 == 'x' || c0 == 'X') && (c1 == 'c' || c1 == 'C') && c2 == '2' && (c3 == 'c'
        || c3 == 'C') && c4 == '3' && c5 == '2';
    if !base {
        return None;
    }
    if n == 6 {
        return Some(XC2Device::XC2C32);
    }
    let c6 = s.get_char(6);
    if c6 == 'a' || c6 == 'A' {
        Some(XC2Device::XC2C32A)
    } else {
        None
    }
}

/// A parsed device name.
#[derive(Clone, Debug)]
pub struct XC2DeviceSpeedPackage {
    pub dev: XC2Device,
    pub spd: String,
    pub pkg: String,
}

/// What a device name parses to: the part and the other two fields as
/// they stand.
pub open spec fn spec_parse_device_name(s: Seq<char>) -> Option<(XC2Device, Seq<char>, Seq<char>)> {
    match split_device_name(s) {
        Some((d, spd, pkg)) => match spec_device_from_name(d) {
            Some(dev) => Some((dev, spd, pkg)),
            None => None,
        },
        None => None,
    }
}

impl XC2DeviceSpeedPackage {
    /// Parses `<device>-<speed>-<package>`, such as `xc2c32a-4-vq44`.
    /// Returns `None` for a name that is malformed or names no known part.
    pub fn from_str(s: &str) -> (r: Option<XC2DeviceSpeedPackage>)
        ensures
            match r {
                Some(x) => spec_parse_device_name(s@) == Some((x.dev, x.spd@, x.pkg@)),
                None => spec_parse_device_name(s@) is None,
            },
    {
        let n = s.unicode_len();
        let d1 = find_dash_exec(s, 0, n);
        if d1 >= n {
            return None;
        }
        let d2 = find_dash_exec(s, d1 + 1, n);
        if d2 >= n {
            return None;
        }
        let d3 = find_dash_exec(s, d2 + 1, n);
        if d3 != n {
            return None;
        }
        let dev = device_from_name(s.substring_char(0, d1));
        match dev {
            Some(dev) => Some(
                XC2DeviceSpeedPackage {
                    dev,
                    spd: s.substring_char(d1 + 1, d2).to_owned(),
                    pkg: s.substring_char(d2 + 1, n).to_owned(),
                },
            ),
            None => None,
        }
    }
}

/// The description of a target device that place and route works against.
#[derive(Debug)]
pub struct DeviceSpec {
    pub device: XC2Device,
    pub speed: String,
    pub package: String,
    /// Function block and macrocell of the pad of each global clock.
    pub gck: [(u32, u32); 3],
    /// Function block and macrocell of the pad of each global tristate.
    pub gts: [(u32, u32); 4],
    /// Function block and macrocell of the pad of the global set/reset.
    pub gsr: (u32, u32),
    /// The ZIA routing table.
    pub zia: ZIATable,
}

/// Whether `pad` names a macrocell that has a pad.
pub open spec fn pad_in_range(pad: (u32, u32)) -> bool {
    pad.0 < NUM_FBS && pad.1 < MCS_PER_FB
}

impl DeviceSpec {
    /// The description is usable: every global-net pad is a macrocell that
    /// exists and the routing table is well formed.
    pub open spec fn wf(&self) -> bool {
        &&& forall|i: int| 0 <= i < 3 ==> pad_in_range(#[trigger] self.gck@[i])
        &&& forall|i: int| 0 <= i < 4 ==> pad_in_range(#[trigger] self.gts@[i])
        &&& pad_in_range(self.gsr)
        &&& self.zia.wf()
    }

    /// Checks the description against `wf`.
    pub fn is_valid(&self) -> (r: bool)
        ensures
            r == self.wf(),
    {
        let ok = |p: (u32, u32)| -> (b: bool)
            ensures
                b == pad_in_range(p),
            { p.0 < 2 && p.1 < 16 };
        ok(self.gck[0]) && ok(self.gck[1]) && ok(self.gck[2]) && ok(self.gts[0]) && ok(self.gts[1])
            && ok(self.gts[2]) && ok(self.gts[3]) && ok(self.gsr) && self.zia.is_valid()
    }

    /// Number of function blocks of the device.
    pub fn num_fbs(&self) -> (r: usize)
        ensures
            r == NUM_FBS,
    {
        NUM_FBS
    }

    /// Pad of global clock `i`.
    pub open spec fn spec_get_gck(&self, i: int) -> Option<(u32, u32)> {
        if 0 <= i < 3 {
            Some(self.gck@[i])
        } else {
            None
        }
    }

    /// Pad of global clock `i`: its function block and macrocell.
    pub fn get_gck(&self, i: usize) -> (r: Option<(u32, u32)>)
        ensures
            r == self.spec_get_gck(i as int),
    {
        if i < 3 {
            Some(self.gck[i])
        } else {
            None
        }
    }

    /// Pad of global tristate `i`.
    pub open spec fn spec_get_gts(&self, i: int) -> Option<(u32, u32)> {
        if 0 <= i < 4 {
            Some(self.gts@[i])
        } else {
            None
        }
    }

    /// Pad of global tristate `i`: its function block and macrocell.
    pub fn get_gts(&self, i: usize) -> (r: Option<(u32, u32)>)
        ensures
            r == self.spec_get_gts(i as int),
    {
        if i < 4 {
            Some(self.gts[i])
        } else {
            None
        }
    }

    /// Pad of the global set/reset: its function block and macrocell.
    pub fn get_gsr(&self) -> (r: (u32, u32))
        ensures
            r == self.gsr,
    {
        self.gsr
    }
}

} // verus!
