//! The configuration of one function block and its place in the fuse
//! array: the ZIA rows, the AND array, the OR array and the macrocells.
//!
//! Within a function block the fuses stand in this order, counted from
//! the first fuse of the block: 40 ZIA rows of 8 fuses; 56 AND terms of 80
//! fuses, the true and the complemented input of each of 40 rows; 56 rows
//! of the OR array of 16 fuses, one for each macrocell; 16 macrocells of
//! 27 fuses. In the AND and OR arrays a fuse that is set means that the
//! input is not connected.

use vstd::prelude::*;
use crate::iob::obuf_mode_bits;
use crate::iob::zia_mode_bits;
use crate::iob::XC2IOBOBufMode;
use crate::iob::XC2IOBZIAMode;
use crate::iob::XC2MCSmallIOB;
use crate::mc::ff_of_fuses;
use crate::mc::read_32_ff_logical;
use crate::mc::XC2MCFeedbackMode;
use crate::mc::XC2MCFFClkSrc;
use crate::mc::XC2MCFFMode;
use crate::mc::XC2MCFFResetSrc;
use crate::mc::XC2MCFFSetSrc;
use crate::mc::XC2MCXorMode;
use crate::mc::XC2MCFF;
use crate::zia::XC2ZIAInput;
use crate::zia::ZIATable;

verus! {

/// Number of fuses of one function block.
pub const FUSES_PER_FB: usize = 6128;

/// Where the AND array begins within a function block.
pub const AND_OFFSET: usize = 320;

/// Where the OR array begins within a function block.
pub const OR_OFFSET: usize = 4800;

/// Where the macrocells begin within a function block.
pub const MC_OFFSET: usize = 5696;

/// One AND term: for each ZIA row, whether the term reads the row, and
/// whether it reads the complement of the row.
#[derive(Copy, Clone, Debug)]
pub struct XC2PLAAndTerm {
    pub input: [bool; 40],
    pub input_b: [bool; 40],
}

/// One OR term: for each AND term, whether it is an input.
#[derive(Copy, Clone, Debug)]
pub struct XC2PLAOrTerm {
    pub input: [bool; 56],
}

/// What one ZIA row selects.
#[derive(Copy, Clone, Debug)]
pub struct XC2ZIARowPiece {
    pub selected: XC2ZIAInput,
}

/// The configuration of one function block.
#[derive(Copy, Clone, Debug)]
pub struct XC2BitstreamFB {
    pub and_terms: [XC2PLAAndTerm; 56],
    pub or_terms: [XC2PLAOrTerm; 16],
    pub zia_bits: [XC2ZIARowPiece; 40],
    pub ffs: [XC2MCFF; 16],
}

impl XC2BitstreamFB {
    /// Whether the block is blank: nothing is connected, every ZIA row
    /// selects constant one, and every register has its default
    /// configuration.
    pub open spec fn is_blank(&self) -> bool {
        &&& forall|i: int, j: int|
            0 <= i < 56 && 0 <= j < 40 ==> !(#[trigger] self.and_terms@[i].input@[j])
        &&& forall|i: int, j: int|
            0 <= i < 56 && 0 <= j < 40 ==> !(#[trigger] self.and_terms@[i].input_b@[j])
        &&& forall|i: int, j: int|
            0 <= i < 16 && 0 <= j < 56 ==> !(#[trigger] self.or_terms@[i].input@[j])
        &&& forall|i: int| 0 <= i < 40 ==> (#[trigger] self.zia_bits@[i]).selected == XC2ZIAInput::One
        &&& forall|i: int| 0 <= i < 16 ==> #[trigger] self.ffs@[i] == XC2MCFF::spec_default()
    }

    /// Whether every ZIA row selects something that the row can select.
    pub open spec fn encodable(&self, table: &ZIATable) -> bool {
        forall|i: int|
            0 <= i < 40 ==> table.spec_encode(i, (#[trigger] self.zia_bits@[i]).selected) is Some
    }
}

impl Default for XC2BitstreamFB {
    fn default() -> (r: XC2BitstreamFB)
        ensures
            r.is_blank(),
    {
        let and_term = XC2PLAAndTerm { input: [false; 40], input_b: [false; 40] };
        let or_term = XC2PLAOrTerm { input: [false; 56] };
        let ff = XC2MCFF {
            clk_src: XC2MCFFClkSrc::GCK0,
            falling_edge: false,
            is_ddr: false,
            r_src: XC2MCFFResetSrc::Disabled,
            s_src: XC2MCFFSetSrc::Disabled,
            init_state: true,
            ff_mode: XC2MCFFMode::DFF,
            fb_mode: XC2MCFeedbackMode::Disabled,
            ff_in_ibuf: false,
            xor_mode: XC2MCXorMode::ZERO,
        };
        XC2BitstreamFB {
            and_terms: [and_term; 56],
            or_terms: [or_term; 16],
            zia_bits: [XC2ZIARowPiece { selected: XC2ZIAInput::One }; 40],
            ffs: [ff; 16],
        }
    }
}

/// The two fuses `clk` of a clock source.
pub open spec fn clk_bits(c: XC2MCFFClkSrc) -> (bool, bool) {
    match c {
        XC2MCFFClkSrc::GCK0 => (false, false),
        XC2MCFFClkSrc::GCK1 => (false, true),
        XC2MCFFClkSrc::GCK2 => (true, false),
        XC2MCFFClkSrc::PTC => (true, true),
        XC2MCFFClkSrc::CTC => (true, true),
    }
}

/// The two fuses `r` of a reset source.
pub open spec fn reset_bits(r: XC2MCFFResetSrc) -> (bool, bool) {
    match r {
        XC2MCFFResetSrc::PTA => (false, false),
        XC2MCFFResetSrc::GSR => (false, true),
        XC2MCFFResetSrc::CTR => (true, false),
        XC2MCFFResetSrc::Disabled => (true, true),
    }
}

/// The two fuses `p` of a set source.
pub open spec fn set_bits(s: XC2MCFFSetSrc) -> (bool, bool) {
    match s {
        XC2MCFFSetSrc::PTA => (false, false),
        XC2MCFFSetSrc::GSR => (false, true),
        XC2MCFFSetSrc::CTS => (true, false),
        XC2MCFFSetSrc::Disabled => (true, true),
    }
}

/// The two fuses `regmod` of a register mode.
pub open spec fn ff_mode_bits(m: XC2MCFFMode) -> (bool, bool) {
    match m {
        XC2MCFFMode::DFF => (false, false),
        XC2MCFFMode::LATCH => (false, true),
        XC2MCFFMode::TFF => (true, false),
        XC2MCFFMode::DFFCE => (true, true),
    }
}

/// The two fuses `fb` of a feedback mode.
pub open spec fn fb_mode_bits(f: XC2MCFeedbackMode) -> (bool, bool) {
    match f {
        XC2MCFeedbackMode::COMB => (false, false),
        XC2MCFeedbackMode::REG => (true, false),
        XC2MCFeedbackMode::Disabled => (true, true),
    }
}

/// The two fuses `xorin` of an XOR input.
pub open spec fn xor_bits(x: XC2MCXorMode) -> (bool, bool) {
    match x {
        XC2MCXorMode::ZERO => (false, false),
        XC2MCXorMode::PTCB => (false, true),
        XC2MCXorMode::PTC => (true, false),
        XC2MCXorMode::ONE => (true, true),
    }
}

/// Fuse `k` of the 27 fuses of a macrocell with register configuration
/// `ff` and I/O block configuration `iob`. The fuses are, in this order:
/// `aclk`, `clkop`, `clk` (2), `clkfreq`, `r` (2), `p` (2), `regmod` (2),
/// `inz` (2), `fb` (2), `inreg`, `st`, `xorin` (2), `regcom`, `oe` (4),
/// `tm`, `slw`, `pu`.
pub open spec fn mc_fuse(ff: XC2MCFF, iob: XC2MCSmallIOB, k: int) -> bool {
    if k == 0 {
        ff.clk_src == XC2MCFFClkSrc::CTC
    } else if k == 1 {
        ff.falling_edge
    } else if k == 2 {
        clk_bits(ff.clk_src).0
    } else if k == 3 {
        clk_bits(ff.clk_src).1
    } else if k == 4 {
        ff.is_ddr
    } else if k == 5 {
        reset_bits(ff.r_src).0
    } else if k == 6 {
        reset_bits(ff.r_src).1
    } else if k == 7 {
        set_bits(ff.s_src).0
    } else if k == 8 {
        set_bits(ff.s_src).1
    } else if k == 9 {
        ff_mode_bits(ff.ff_mode).0
    } else if k == 10 {
        ff_mode_bits(ff.ff_mode).1
    } else if k == 11 {
        zia_mode_bits(iob.zia_mode).0
    } else if k == 12 {
        zia_mode_bits(iob.zia_mode).1
    } else if k == 13 {
        fb_mode_bits(ff.fb_mode).0
    } else if k == 14 {
        fb_mode_bits(ff.fb_mode).1
    } else if k == 15 {
        !ff.ff_in_ibuf
    } else if k == 16 {
        iob.schmitt_trigger
    } else if k == 17 {
        xor_bits(ff.xor_mode).0
    } else if k == 18 {
        xor_bits(ff.xor_mode).1
    } else if k == 19 {
        !iob.obuf_uses_ff
    } else if k == 20 {
        obuf_mode_bits(iob.obuf_mode).0
    } else if k == 21 {
        obuf_mode_bits(iob.obuf_mode).1
    } else if k == 22 {
        obuf_mode_bits(iob.obuf_mode).2
    } else if k == 23 {
        obuf_mode_bits(iob.obuf_mode).3
    } else if k == 24 {
        iob.termination_enabled
    } else if k == 25 {
        !iob.slew_is_fast
    } else {
        !ff.init_state
    }
}

/// The fuse at offset `off` of a function block with configuration `fb`
/// whose macrocells have the I/O blocks `iobs`.
pub open spec fn fb_fuse(fb: &XC2BitstreamFB, iobs: Seq<XC2MCSmallIOB>, table: &ZIATable, off: int) -> bool {
    if off < AND_OFFSET {
        table.spec_encode(off / 8, fb.zia_bits@[off / 8].selected).unwrap()[7 - off % 8]
    } else if off < OR_OFFSET {
        let r = off - AND_OFFSET;
        if r % 2 == 0 {
            !fb.and_terms@[r / 80].input@[(r % 80) / 2]
        } else {
            !fb.and_terms@[r / 80].input_b@[(r % 80) / 2]
        }
    } else if off < MC_OFFSET {
        let r = off - OR_OFFSET;
        !fb.or_terms@[r % 16].input@[r / 16]
    } else {
        let r = off - MC_OFFSET;
        mc_fuse(fb.ffs@[r / 27], iobs[r / 27], r % 27)
    }
}

/// The fuses of a function block.
pub open spec fn fb_fuses(fb: &XC2BitstreamFB, iobs: Seq<XC2MCSmallIOB>, table: &ZIATable) -> Seq<bool> {
    Seq::new(FUSES_PER_FB as nat, |off: int| fb_fuse(fb, iobs, table, off))
}

/// Fuse `k` of the 27 fuses of a macrocell.
fn mc_fuse_exec(ff: &XC2MCFF, iob: &XC2MCSmallIOB, k: usize) -> (r: bool)
    requires
        k < 27,
    ensures
        r == mc_fuse(*ff, *iob, k as int),
{
    if k == 0 {
        match ff.clk_src {
            XC2MCFFClkSrc::CTC => true,
            _ => false,
        }
    } else if k == 1 {
        ff.falling_edge
    } else if k == 2 || k == 3 {
        let clk = match ff.clk_src {
            XC2MCFFClkSrc::GCK0 => (false, false),
            XC2MCFFClkSrc::GCK1 => (false, true),
            XC2MCFFClkSrc::GCK2 => (true, false),
            XC2MCFFClkSrc::PTC => (true, true),
            XC2MCFFClkSrc::CTC => (true, true),
        };
        if k == 2 {
            clk.0
        } else {
            clk.1
        }
    } else if k == 4 {
        ff.is_ddr
    } else if k == 5 || k == 6 {
        let r = match ff.r_src {
            XC2MCFFResetSrc::PTA => (false, false),
            XC2MCFFResetSrc::GSR => (false, true),
            XC2MCFFResetSrc::CTR => (true, false),
            XC2MCFFResetSrc::Disabled => (true, true),
        };
        if k == 5 {
            r.0
        } else {
            r.1
        }
    } else if k == 7 || k == 8 {
        let p = match ff.s_src {
            XC2MCFFSetSrc::PTA => (false, false),
            XC2MCFFSetSrc::GSR => (false, true),
            XC2MCFFSetSrc::CTS => (true, false),
            XC2MCFFSetSrc::Disabled => (true, true),
        };
        if k == 7 {
            p.0
        } else {
            p.1
        }
    } else if k == 9 || k == 10 {
        let regmod = match ff.ff_mode {
            XC2MCFFMode::DFF => (false, false),
            XC2MCFFMode::LATCH => (false, true),
            XC2MCFFMode::TFF => (true, false),
            XC2MCFFMode::DFFCE => (true, true),
        };
        if k == 9 {
            regmod.0
        } else {
            regmod.1
        }
    } else if k == 11 || k == 12 {
        let inz = match iob.zia_mode {
            XC2IOBZIAMode::PAD => (false, false),
            XC2IOBZIAMode::REG => (true, false),
            XC2IOBZIAMode::Disabled => (true, true),
        };
        if k == 11 {
            inz.0
        } else {
            inz.1
        }
    } else if k == 13 || k == 14 {
        let fb = match ff.fb_mode {
            XC2MCFeedbackMode::COMB => (false, false),
            XC2MCFeedbackMode::REG => (true, false),
            XC2MCFeedbackMode::Disabled => (true, true),
        };
        if k == 13 {
            fb.0
        } else {
            fb.1
        }
    } else if k == 15 {
        !ff.ff_in_ibuf
    } else if k == 16 {
        iob.schmitt_trigger
    } else if k == 17 || k == 18 {
        let xorin = match ff.xor_mode {
            XC2MCXorMode::ZERO => (false, false),
            XC2MCXorMode::PTCB => (false, true),
            XC2MCXorMode::PTC => (true, false),
            XC2MCXorMode::ONE => (true, true),
        };
        if k == 17 {
            xorin.0
        } else {
            xorin.1
        }
    } else if k == 19 {
        !iob.obuf_uses_ff
    } else if k >= 20 && k <= 23 {
        let oe = match iob.obuf_mode {
            XC2IOBOBufMode::PushPull => (false, false, false, false),
            XC2IOBOBufMode::OpenDrain => (false, false, false, true),
            XC2IOBOBufMode::TriStateGTS1 => (false, false, true, false),
            XC2IOBOBufMode::TriStatePTB => (false, true, false, false),
            XC2IOBOBufMode::TriStateGTS3 => (false, true, true, false),
            XC2IOBOBufMode::TriStateCTE => (true, false, false, false),
            XC2IOBOBufMode::TriStateGTS2 => (true, false, true, false),
            XC2IOBOBufMode::TriStateGTS0 => (true, true, false, false),
            XC2IOBOBufMode::CGND => (true, true, true, false),
            XC2IOBOBufMode::Disabled => (true, true, true, true),
        };
        if k == 20 {
            oe.0
        } else if k == 21 {
            oe.1
        } else if k == 22 {
            oe.2
        } else {
            oe.3
        }
    } else if k == 24 {
        iob.termination_enabled
    } else if k == 25 {
        !iob.slew_is_fast
    } else {
        !ff.init_state
    }
}

/// Where the fuses of macrocell `i` stand in a function block.
pub proof fn lemma_fb_fuse_mc(
    fb: &XC2BitstreamFB,
    iobs: Seq<XC2MCSmallIOB>,
    table: &ZIATable,
    i: int,
    k: int,
)
    requires
        0 <= i < 16,
        0 <= k < 27,
    ensures
        fb_fuse(fb, iobs, table, 5696 + 27 * i + k) == mc_fuse(fb.ffs@[i], iobs[i], k),
{
    let r = 27 * i + k;
    assert(r / 27 == i && r % 27 == k);
}

/// Appends the fuses of a function block to `out`. The I/O blocks of the
/// macrocells of the block are those from `iob_base` on in `iobs`.
#[verifier::rlimit(40)]
pub fn push_fb_fuses(
    out: &mut Vec<bool>,
    fb: &XC2BitstreamFB,
    iobs: &[XC2MCSmallIOB; 32],
    iob_base: usize,
    table: &ZIATable,
)
    requires
        table.wf(),
        fb.encodable(table),
        iob_base == 0 || iob_base == 16,
    ensures
        final(out)@ == old(out)@ + fb_fuses(fb, iobs@.subrange(iob_base as int, iob_base + 16), table),
{
    let ghost start = out@;
    let ghost io = iobs@.subrange(iob_base as int, iob_base + 16);
    let mut seg: Vec<bool> = Vec::new();

    // ZIA rows
    let mut i: usize = 0;
    while i < 40
        invariant
            i <= 40,
            table.wf(),
            fb.encodable(table),
            seg@.len() == 8 * i,
            forall|a: int| 0 <= a < seg@.len() ==> seg@[a] == fb_fuse(fb, io, table, a),
        decreases 40 - i,
    {
        let code = match table.encode(i, fb.zia_bits[i].selected) {
            Some(c) => c,
            None => {
                assert(table.spec_encode(i as int, fb.zia_bits@[i as int].selected) is Some);
                [true; 8]
            },
        };
        let mut k: usize = 0;
        while k < 8
            invariant
                k <= 8,
                i < 40,
                seg@.len() == 8 * i + k,
                Some(code@) == table.spec_encode(i as int, fb.zia_bits@[i as int].selected),
                forall|a: int| 0 <= a < seg@.len() ==> seg@[a] == fb_fuse(fb, io, table, a),
            decreases 8 - k,
        {
            seg.push(code[7 - k]);
            k += 1;
        }
        i += 1;
    }

    // AND array
    let mut i: usize = 0;
    while i < 56
        invariant
            i <= 56,
            seg@.len() == 320 + 80 * i,
            forall|a: int| 0 <= a < seg@.len() ==> seg@[a] == fb_fuse(fb, io, table, a),
        decreases 56 - i,
    {
        let mut j: usize = 0;
        while j < 40
            invariant
                j <= 40,
                i < 56,
                seg@.len() == 320 + 80 * i + 2 * j,
                forall|a: int| 0 <= a < seg@.len() ==> seg@[a] == fb_fuse(fb, io, table, a),
            decreases 40 - j,
        {
            seg.push(!fb.and_terms[i].input[j]);
            seg.push(!fb.and_terms[i].input_b[j]);
            j += 1;
        }
        i += 1;
    }

    // OR array
    let mut i: usize = 0;
    while i < 56
        invariant
            i <= 56,
            seg@.len() == 4800 + 16 * i,
            forall|a: int| 0 <= a < seg@.len() ==> seg@[a] == fb_fuse(fb, io, table, a),
        decreases 56 - i,
    {
        let mut j: usize = 0;
        while j < 16
            invariant
                j <= 16,
                i < 56,
                seg@.len() == 4800 + 16 * i + j,
                forall|a: int| 0 <= a < seg@.len() ==> seg@[a] == fb_fuse(fb, io, table, a),
            decreases 16 - j,
        {
            seg.push(!fb.or_terms[j].input[i]);
            j += 1;
        }
        i += 1;
    }

    // macrocells
    let mut i: usize = 0;
    while i < 16
        invariant
            i <= 16,
            iob_base == 0 || iob_base == 16,
            io == iobs@.subrange(iob_base as int, iob_base + 16),
            seg@.len() == 5696 + 27 * i,
            forall|a: int| 0 <= a < seg@.len() ==> seg@[a] == fb_fuse(fb, io, table, a),
        decreases 16 - i,
    {
        assert(io[i as int] == iobs@[iob_base + i]);
        let mut k: usize = 0;
        while k < 27
            invariant
                k <= 27,
                i < 16,
                iob_base == 0 || iob_base == 16,
                io[i as int] == iobs@[iob_base + i],
                seg@.len() == 5696 + 27 * i + k,
                forall|a: int| 0 <= a < seg@.len() ==> seg@[a] == fb_fuse(fb, io, table, a),
            decreases 27 - k,
        {
            let bit = mc_fuse_exec(&fb.ffs[i], &iobs[iob_base + i], k);
            proof {
                lemma_fb_fuse_mc(fb, io, table, i as int, k as int);
            }
            seg.push(bit);
            k += 1;
        }
        i += 1;
    }
    assert(seg@ =~= fb_fuses(fb, io, table));

    let mut a: usize = 0;
    while a < seg.len()
        invariant
            a <= seg@.len(),
            out@ == start + seg@.subrange(0, a as int),
        decreases seg@.len() - a,
    {
        out.push(seg[a]);
        assert(seg@.subrange(0, a as int + 1) =~= seg@.subrange(0, a as int).push(seg@[a as int]));
        a += 1;
    }
    assert(seg@.subrange(0, a as int) =~= seg@);
}

/// The fuse pattern of the ZIA row whose fuses begin at `a`: the fuses in
/// reverse order.
pub open spec fn zia_code(f: Seq<bool>, a: int) -> Seq<bool> {
    Seq::new(8, |k: int| f[a + 7 - k])
}

/// Whether the fuses of the ZIA rows of the function block that begins at
/// `base` select something in every row.
pub open spec fn fb_decodable(f: Seq<bool>, base: int, table: &ZIATable) -> bool {
    forall|i: int| 0 <= i < 40 ==> #[trigger] table.spec_decode(i, zia_code(f, base + 8 * i)) is Some
}

/// Whether `fb` is the configuration that the fuses of the function
/// block that begins at `base` hold.
pub open spec fn fb_decoded(fb: &XC2BitstreamFB, f: Seq<bool>, base: int, table: &ZIATable) -> bool {
    &&& forall|i: int|
        0 <= i < 40 ==> Some((#[trigger] fb.zia_bits@[i]).selected) == table.spec_decode(
            i,
            zia_code(f, base + 8 * i),
        )
    &&& forall|i: int, j: int|
        0 <= i < 56 && 0 <= j < 40 ==> (#[trigger] fb.and_terms@[i].input@[j]) == !f[base + 320 + 80
            * i + 2 * j]
    &&& forall|i: int, j: int|
        0 <= i < 56 && 0 <= j < 40 ==> (#[trigger] fb.and_terms@[i].input_b@[j]) == !f[base + 320
            + 80 * i + 2 * j + 1]
    &&& forall|i: int, j: int|
        0 <= i < 16 && 0 <= j < 56 ==> (#[trigger] fb.or_terms@[i].input@[j]) == !f[base + 4800 + 16
            * j + i]
    &&& forall|i: int| 0 <= i < 16 ==> #[trigger] fb.ffs@[i] == ff_of_fuses(f, base + 5696 + 27 * i)
}

/// Reads the configuration of function block `block_idx` out of a fuse
/// array. Returns `None` if the fuses of a ZIA row select nothing that
/// the row can select.
pub fn read_32_fb_logical(fuses: &[bool], block_idx: usize, table: &ZIATable) -> (r: Option<
    XC2BitstreamFB,
>)
    requires
        table.wf(),
        block_idx < 2,
        fuses@.len() >= 12274,
    ensures
        match r {
            Some(fb) => fb_decoded(&fb, fuses@, block_idx * 6128, table) && fb_decodable(
                fuses@,
                block_idx * 6128,
                table,
            ),
            None => !fb_decodable(fuses@, block_idx * 6128, table),
        },
{
    let n = fuses.len();
    let base: usize = block_idx * 6128;
    let ghost f = fuses@;
    let mut zia_bits = [XC2ZIARowPiece { selected: XC2ZIAInput::One }; 40];
    let mut i: usize = 0;
    while i < 40
        invariant
            i <= 40,
            table.wf(),
            base == block_idx * 6128,
            block_idx < 2,
            n == f.len(),
            f == fuses@,
            n >= 12274,
            forall|k: int|
                0 <= k < i ==> Some((#[trigger] zia_bits@[k]).selected) == table.spec_decode(
                    k,
                    zia_code(f, base + 8 * k),
                ),
            forall|k: int|
                0 <= k < i ==> #[trigger] table.spec_decode(k, zia_code(f, base + 8 * k)) is Some,
        decreases 40 - i,
    {
        let a = base + 8 * i;
        let code = [
            fuses[a + 7],
            fuses[a + 6],
            fuses[a + 5],
            fuses[a + 4],
            fuses[a + 3],
            fuses[a + 2],
            fuses[a + 1],
            fuses[a],
        ];
        assert(code@ =~= zia_code(f, a as int));
        match table.decode(i, &code) {
            Some(x) => {
                zia_bits[i] = XC2ZIARowPiece { selected: x };
            },
            None => {
                assert(table.spec_decode(i as int, zia_code(f, base + 8 * i)) is None);
                return None;
            },
        }
        i += 1;
    }

    let mut and_terms = [XC2PLAAndTerm { input: [false; 40], input_b: [false; 40] }; 56];
    let mut i: usize = 0;
    while i < 56
        invariant
            i <= 56,
            base == block_idx * 6128,
            block_idx < 2,
            n == f.len(),
            f == fuses@,
            n >= 12274,
            forall|a: int, b: int|
                0 <= a < i && 0 <= b < 40 ==> (#[trigger] and_terms@[a].input@[b]) == !f[base + 320
                    + 80 * a + 2 * b],
            forall|a: int, b: int|
                0 <= a < i && 0 <= b < 40 ==> (#[trigger] and_terms@[a].input_b@[b]) == !f[base
                    + 320 + 80 * a + 2 * b + 1],
        decreases 56 - i,
    {
        let mut input = [false; 40];
        let mut input_b = [false; 40];
        let mut j: usize = 0;
        while j < 40
            invariant
                j <= 40,
                i < 56,
                base == block_idx * 6128,
                block_idx < 2,
                n == f.len(),
                f == fuses@,
                n >= 12274,
                forall|b: int| 0 <= b < j ==> #[trigger] input@[b] == !f[base + 320 + 80 * i + 2 * b],
                forall|b: int|
                    0 <= b < j ==> #[trigger] input_b@[b] == !f[base + 320 + 80 * i + 2 * b + 1],
            decreases 40 - j,
        {
            input[j] = !fuses[base + 320 + 80 * i + 2 * j];
            input_b[j] = !fuses[base + 320 + 80 * i + 2 * j + 1];
            j += 1;
        }
        let ghost prev = and_terms@;
        and_terms[i] = XC2PLAAndTerm { input, input_b };
        proof {
            assert forall|a: int, b: int| 0 <= a < i + 1 && 0 <= b < 40 implies (
            #[trigger] and_terms@[a].input_b@[b]) == !f[base + 320 + 80 * a + 2 * b + 1] by {
                if a < i {
                    assert(and_terms@[a] == prev[a]);
                    assert(prev[a].input_b@[b] == !f[base + 320 + 80 * a + 2 * b + 1]);
                } else {
                    assert(and_terms@[a].input_b@ == input_b@);
                    assert(input_b@[b] == !f[base + 320 + 80 * i + 2 * b + 1]);
                }
            }
            assert forall|a: int, b: int| 0 <= a < i + 1 && 0 <= b < 40 implies (
            #[trigger] and_terms@[a].input@[b]) == !f[base + 320 + 80 * a + 2 * b] by {
                if a < i {
                    assert(and_terms@[a] == prev[a]);
                    assert(prev[a].input@[b] == !f[base + 320 + 80 * a + 2 * b]);
                } else {
                    assert(and_terms@[a].input@ == input@);
                    assert(input@[b] == !f[base + 320 + 80 * i + 2 * b]);
                }
            }
        }
        i += 1;
    }

    let mut or_terms = [XC2PLAOrTerm { input: [false; 56] }; 16];
    let mut i: usize = 0;
    while i < 16
        invariant
            i <= 16,
            base == block_idx * 6128,
            block_idx < 2,
            n == f.len(),
            f == fuses@,
            n >= 12274,
            forall|a: int, b: int|
                0 <= a < i && 0 <= b < 56 ==> (#[trigger] or_terms@[a].input@[b]) == !f[base + 4800
                    + 16 * b + a],
        decreases 16 - i,
    {
        let mut input = [false; 56];
        let mut j: usize = 0;
        while j < 56
            invariant
                j <= 56,
                i < 16,
                base == block_idx * 6128,
                block_idx < 2,
                n == f.len(),
                f == fuses@,
                n >= 12274,
                forall|b: int| 0 <= b < j ==> #[trigger] input@[b] == !f[base + 4800 + 16 * b + i],
            decreases 56 - j,
        {
            input[j] = !fuses[base + 4800 + 16 * j + i];
            j += 1;
        }
        let ghost prev = or_terms@;
        or_terms[i] = XC2PLAOrTerm { input };
        proof {
            assert forall|a: int, b: int| 0 <= a < i + 1 && 0 <= b < 56 implies (
            #[trigger] or_terms@[a].input@[b]) == !f[base + 4800 + 16 * b + a] by {
                if a < i {
                    assert(or_terms@[a] == prev[a]);
                    assert(prev[a].input@[b] == !f[base + 4800 + 16 * b + a]);
                } else {
                    assert(or_terms@[a].input@ == input@);
                    assert(input@[b] == !f[base + 4800 + 16 * b + i]);
                }
            }
        }
        i += 1;
    }

    let ff0 = read_32_ff_logical(fuses, base + 5696, 0);
    let mut ffs = [ff0; 16];
    let mut i: usize = 0;
    while i < 16
        invariant
            i <= 16,
            base == block_idx * 6128,
            block_idx < 2,
            n == f.len(),
            f == fuses@,
            n >= 12274,
            forall|a: int| 0 <= a < i ==> #[trigger] ffs@[a] == ff_of_fuses(f, base + 5696 + 27 * a),
        decreases 16 - i,
    {
        ffs[i] = read_32_ff_logical(fuses, base + 5696, i);
        i += 1;
    }
    Some(XC2BitstreamFB { and_terms, or_terms, zia_bits, ffs })
}

} // verus!
