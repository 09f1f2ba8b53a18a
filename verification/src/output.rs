//! Assembly of the bitstream of a device from a netlist and its
//! placement: the ZIA rows, the AND and OR arrays, and the configuration
//! of every macrocell, I/O block and global net.

use vstd::prelude::*;
use crate::andterms::or_inputs;
use crate::bitstream::XC2Bitstream;
use crate::bitstream::XC2BitstreamBits;
use crate::bitstream::XC2GlobalNets;
use crate::device::DeviceSpec;
use crate::device::XC2Device;
use crate::fb::XC2BitstreamFB;
use crate::fb::XC2PLAAndTerm;
use crate::fb::XC2PLAOrTerm;
use crate::fb::XC2ZIARowPiece;
use crate::iob::XC2ExtraIBuf;
use crate::iob::XC2IOBOBufMode;
use crate::iob::XC2IOBZIAMode;
use crate::iob::XC2MCSmallIOB;
use crate::mc::spec_pta;
use crate::mc::spec_ptb;
use crate::mc::spec_ptc;
use crate::mc::XC2MCFeedbackMode;
use crate::mc::XC2MCFFClkSrc;
use crate::mc::XC2MCFFResetSrc;
use crate::mc::XC2MCFFSetSrc;
use crate::mc::XC2MCXorMode;
use crate::mc::XC2MCFF;
use crate::netlist::AssignedLocation;
use crate::netlist::InputGraph;
use crate::netlist::InputGraphIOInputType;
use crate::netlist::InputGraphIOOEType;
use crate::netlist::InputGraphMacrocell;
use crate::netlist::InputGraphRegClockType;
use crate::netlist::InputGraphRegInputType;
use crate::netlist::InputGraphRegRSType;
use crate::outgraph::OutputGraph;
use crate::outgraph::OutputGraphMacrocell;
use crate::outgraph::OutputGraphPTerm;
use crate::zia::XC2ZIAInput;

verus! {

/// Whether one of the first `n` product terms sits on AND term `i` of
/// block `fb` and reads ZIA row `j`: uncomplemented if `comp` is false,
/// complemented if it is true.
pub open spec fn and_connected(
    pterms: Seq<OutputGraphPTerm>,
    fb: int,
    i: int,
    j: int,
    comp: bool,
    n: int,
) -> bool {
    exists|p: int|
        0 <= p < n && #[trigger] pterm_reads(pterms[p], fb, i, j, comp)
}

/// Whether the product term with output `pt` sits on AND term `i` of
/// block `fb` and reads ZIA row `j`.
pub open spec fn pterm_reads(pt: OutputGraphPTerm, fb: int, i: int, j: int, comp: bool) -> bool {
    pt.loc == Some(AssignedLocation { fb: fb as u32, i: i as u32 }) && rows_of(pt, comp).contains(
        j as u32,
    )
}

/// The ZIA rows of the true or of the complemented inputs of a product
/// term.
pub open spec fn rows_of(pt: OutputGraphPTerm, comp: bool) -> Seq<u32> {
    if comp {
        pt.inputs_comp_zia@
    } else {
        pt.inputs_true_zia@
    }
}

/// The first of the first `n` macrocells that sits in half `pin` of site
/// `(fb, mc)`, if one does.
pub open spec fn mc_at(g: &InputGraph, mcs: Seq<OutputGraphMacrocell>, fb: int, mc: int, pin: bool, n: int) -> Option<
    usize,
>
    decreases n,
{
    if n <= 0 {
        None
    } else {
        match mc_at(g, mcs, fb, mc, pin, n - 1) {
            Some(m) => Some(m),
            None => if mcs[n - 1].loc == Some(AssignedLocation { fb: fb as u32, i: mc as u32 })
                && g.mcs@[n - 1].is_pin() == pin {
                Some((n - 1) as usize)
            } else {
                None
            },
        }
    }
}

/// The macrocell in the logic half of site `(fb, mc)`, if there is one.
pub open spec fn logic_at(g: &InputGraph, go: &OutputGraph, fb: int, mc: int) -> Option<usize> {
    mc_at(g, go.mcs@, fb, mc, false, g.mcs@.len() as int)
}

/// The macrocell in the pin-input half of site `(fb, mc)`, if there is
/// one.
pub open spec fn pin_at(g: &InputGraph, go: &OutputGraph, fb: int, mc: int) -> Option<usize> {
    mc_at(g, go.mcs@, fb, mc, true, g.mcs@.len() as int)
}

/// Finds the macrocell in half `pin` of site `(fb, mc)`.
fn find_mc(g: &InputGraph, go: &OutputGraph, fb: u32, mc: u32, pin: bool) -> (r: Option<usize>)
    requires
        go.mcs@.len() == g.mcs@.len(),
    ensures
        r == mc_at(g, go.mcs@, fb as int, mc as int, pin, g.mcs@.len() as int),
        r matches Some(m) ==> m < g.mcs@.len(),
{
    let n = g.mcs.len();
    let mut k: usize = 0;
    while k < n
        invariant
            k <= n,
            n == g.mcs@.len(),
            go.mcs@.len() == n,
            mc_at(g, go.mcs@, fb as int, mc as int, pin, k as int) is None,
        decreases n - k,
    {
        let here = match go.mcs[k].loc {
            Some(l) => l.fb == fb && l.i == mc,
            None => false,
        };
        if here && g.mcs[k].get_type().is_pininput() == pin {
            proof {
                lemma_mc_at_found(g, go.mcs@, fb as int, mc as int, pin, k as int, n as int);
            }
            return Some(k);
        }
        k += 1;
    }
    None
}

/// Once `mc_at` has found a macrocell, looking further finds the same.
proof fn lemma_mc_at_found(
    g: &InputGraph,
    mcs: Seq<OutputGraphMacrocell>,
    fb: int,
    mc: int,
    pin: bool,
    k: int,
    n: int,
)
    requires
        0 <= k < n,
        n <= usize::MAX,
        mc_at(g, mcs, fb, mc, pin, k) is None,
        mcs[k].loc == Some(AssignedLocation { fb: fb as u32, i: mc as u32 }),
        g.mcs@[k].is_pin() == pin,
    ensures
        mc_at(g, mcs, fb, mc, pin, n) == Some(k as usize),
    decreases n - k,
{
    if n > k + 1 {
        lemma_mc_at_found(g, mcs, fb, mc, pin, k, n - 1);
    }
}

/// Whether the OR term of macrocell `mc` of block `fb` reads AND term
/// `t`: the macrocell in the logic half of the site has among the inputs
/// of its OR term a product term whose location is `t`.
pub open spec fn or_connected(g: &InputGraph, go: &OutputGraph, fb: int, mc: int, t: int) -> bool {
    logic_at(g, go, fb, mc) matches Some(m) && or_reads(
        or_inputs(&g.mcs@[m as int]),
        go.pterms@,
        t,
        or_inputs(&g.mcs@[m as int]).len() as int,
    )
}

/// Whether one of the first `n` of the product terms `ins` has a location
/// with index `t`.
pub open spec fn or_reads(ins: Seq<usize>, pterms: Seq<OutputGraphPTerm>, t: int, n: int) -> bool {
    exists|k: int| 0 <= k < n && #[trigger] pterm_index(pterms, ins[k]) == Some(t as u32)
}

/// The index of the location of product term `p`, if it has a location.
pub open spec fn pterm_index(pterms: Seq<OutputGraphPTerm>, p: usize) -> Option<u32> {
    match pterms[p as int].loc {
        Some(l) => Some(l.i),
        None => None,
    }
}

/// The AND array of block `fb_i`.
fn assemble_and_terms(go: &OutputGraph, fb_i: u32) -> (r: [XC2PLAAndTerm; 56])
    ensures
        forall|i: int, j: int|
            #![trigger r@[i].input@[j]]
            0 <= i < 56 && 0 <= j < 40 ==> r@[i].input@[j] == and_connected(
                go.pterms@,
                fb_i as int,
                i,
                j,
                false,
                go.pterms@.len() as int,
            ),
        forall|i: int, j: int|
            #![trigger r@[i].input_b@[j]]
            0 <= i < 56 && 0 <= j < 40 ==> r@[i].input_b@[j] == and_connected(
                go.pterms@,
                fb_i as int,
                i,
                j,
                true,
                go.pterms@.len() as int,
            ),
{
    let mut terms = [XC2PLAAndTerm { input: [false; 40], input_b: [false; 40] }; 56];
    let n = go.pterms.len();
    let mut i: usize = 0;
    while i < 56
        invariant
            i <= 56,
            n == go.pterms@.len(),
            forall|a: int, j: int|
                #![trigger terms@[a].input@[j]]
                0 <= a < i && 0 <= j < 40 ==> terms@[a].input@[j] == and_connected(
                    go.pterms@,
                    fb_i as int,
                    a,
                    j,
                    false,
                    n as int,
                ),
            forall|a: int, j: int|
                #![trigger terms@[a].input_b@[j]]
                0 <= a < i && 0 <= j < 40 ==> terms@[a].input_b@[j] == and_connected(
                    go.pterms@,
                    fb_i as int,
                    a,
                    j,
                    true,
                    n as int,
                ),
        decreases 56 - i,
    {
        let input = and_row(go, fb_i, i as u32, false);
        let input_b = and_row(go, fb_i, i as u32, true);
        let ghost prev = terms@;
        terms[i] = XC2PLAAndTerm { input, input_b };
        proof {
            assert forall|a: int, j: int|
                #![trigger terms@[a].input@[j]]
                0 <= a < i + 1 && 0 <= j < 40 implies terms@[a].input@[j] == and_connected(
                go.pterms@,
                fb_i as int,
                a,
                j,
                false,
                n as int,
            ) by {
                if a < i {
                    assert(terms@[a] == prev[a]);
                    assert(prev[a].input@[j] == and_connected(
                        go.pterms@,
                        fb_i as int,
                        a,
                        j,
                        false,
                        n as int,
                    ));
                } else {
                    assert(terms@[a].input@ == input@);
                }
            }
            assert forall|a: int, j: int|
                #![trigger terms@[a].input_b@[j]]
                0 <= a < i + 1 && 0 <= j < 40 implies terms@[a].input_b@[j] == and_connected(
                go.pterms@,
                fb_i as int,
                a,
                j,
                true,
                n as int,
            ) by {
                if a < i {
                    assert(terms@[a] == prev[a]);
                    assert(prev[a].input_b@[j] == and_connected(
                        go.pterms@,
                        fb_i as int,
                        a,
                        j,
                        true,
                        n as int,
                    ));
                } else {
                    assert(terms@[a].input_b@ == input_b@);
                }
            }
        }
        i += 1;
    }
    terms
}

/// Whether `rows` holds `j`.
fn holds_row(rows: &Vec<u32>, j: u32) -> (r: bool)
    ensures
        r == rows@.contains(j),
{
    let mut k: usize = 0;
    while k < rows.len()
        invariant
            k <= rows@.len(),
            forall|x: int| 0 <= x < k ==> rows@[x] != j,
        decreases rows@.len() - k,
    {
        if rows[k] == j {
            return true;
        }
        k += 1;
    }
    false
}

/// For every ZIA row, whether AND term `i` of block `fb_i` reads it.
fn and_row(go: &OutputGraph, fb_i: u32, i: u32, comp: bool) -> (r: [bool; 40])
    requires
        i < 56,
    ensures
        forall|j: int|
            0 <= j < 40 ==> #[trigger] r@[j] == and_connected(
                go.pterms@,
                fb_i as int,
                i as int,
                j,
                comp,
                go.pterms@.len() as int,
            ),
{
    let mut row = [false; 40];
    let n = go.pterms.len();
    let mut j: usize = 0;
    while j < 40
        invariant
            j <= 40,
            n == go.pterms@.len(),
            forall|x: int|
                0 <= x < j ==> #[trigger] row@[x] == and_connected(
                    go.pterms@,
                    fb_i as int,
                    i as int,
                    x,
                    comp,
                    n as int,
                ),
        decreases 40 - j,
    {
        let mut found = false;
        let mut p: usize = 0;
        while p < n && !found
            invariant
                p <= n,
                n == go.pterms@.len(),
                j < 40,
                !found ==> !and_connected(go.pterms@, fb_i as int, i as int, j as int, comp, p as int),
                found ==> and_connected(go.pterms@, fb_i as int, i as int, j as int, comp, n as int),
            decreases n - p + (if found { 0int } else { 1int }),
        {
            let pt = &go.pterms[p];
            let here = match pt.loc {
                Some(l) => l.fb == fb_i && l.i == i,
                None => false,
            };
            let reads = here && (if comp {
                holds_row(&pt.inputs_comp_zia, j as u32)
            } else {
                holds_row(&pt.inputs_true_zia, j as u32)
            });
            if reads {
                assert(pterm_reads(go.pterms@[p as int], fb_i as int, i as int, j as int, comp));
                found = true;
            } else {
                assert(!pterm_reads(go.pterms@[p as int], fb_i as int, i as int, j as int, comp));
                p += 1;
            }
        }
        row[j] = found;
        j += 1;
    }
    row
}

/// For every AND term, whether the OR term of macrocell `mc` of block
/// `fb_i` reads it.
fn or_row(g: &InputGraph, go: &OutputGraph, fb_i: u32, mc: u32) -> (r: [bool; 56])
    requires
        g.wf(),
        go.shaped_like(g),
    ensures
        forall|t: int|
            0 <= t < 56 ==> #[trigger] r@[t] == or_connected(g, go, fb_i as int, mc as int, t),
{
    let mut row = [false; 56];
    match find_mc(g, go, fb_i, mc, false) {
        Some(m) => {
            assert(g.mc_refs_ok(&g.mcs@[m as int]));
            proof {
                crate::andterms::lemma_special_refs(g, &g.mcs@[m as int]);
            }
            match &g.mcs[m].xor_bits {
                Some(x) => {
                    let ins = &x.orterm_inputs;
                    let mut t: usize = 0;
                    while t < 56
                        invariant
                            t <= 56,
                            go.pterms@.len() == g.pterms@.len(),
                            ins@ == or_inputs(&g.mcs@[m as int]),
                            forall|k: int| 0 <= k < ins@.len() ==> #[trigger] ins@[k] < g.pterms@.len(),
                            forall|a: int|
                                0 <= a < t ==> #[trigger] row@[a] == or_reads(
                                    ins@,
                                    go.pterms@,
                                    a,
                                    ins@.len() as int,
                                ),
                        decreases 56 - t,
                    {
                        let mut found = false;
                        let mut k: usize = 0;
                        while k < ins.len() && !found
                            invariant
                                k <= ins@.len(),
                                t < 56,
                                go.pterms@.len() == g.pterms@.len(),
                                forall|k: int|
                                    0 <= k < ins@.len() ==> #[trigger] ins@[k] < g.pterms@.len(),
                                !found ==> !or_reads(ins@, go.pterms@, t as int, k as int),
                                found ==> or_reads(ins@, go.pterms@, t as int, ins@.len() as int),
                            decreases ins@.len() - k + (if found { 0int } else { 1int }),
                        {
                            let p = ins[k];
                            assert(ins@[k as int] < g.pterms@.len());
                            let here = match go.pterms[p].loc {
                                Some(l) => l.i == t as u32,
                                None => false,
                            };
                            if here {
                                assert(pterm_index(go.pterms@, ins@[k as int]) == Some(t as u32));
                                found = true;
                            } else {
                                assert(pterm_index(go.pterms@, ins@[k as int]) != Some(t as u32));
                                k += 1;
                            }
                        }
                        row[t] = found;
                        t += 1;
                    }
                },
                None => {
                    assert forall|t: int| 0 <= t < 56 implies #[trigger] row@[t] == or_connected(
                        g,
                        go,
                        fb_i as int,
                        mc as int,
                        t,
                    ) by {
                        assert(!or_reads(or_inputs(&g.mcs@[m as int]), go.pterms@, t, 0));
                    }
                },
            }
        },
        None => {},
    }
    row
}

/// The clock of a register that global clock buffer `b` drives.
pub open spec fn gck_src(go: &OutputGraph, b: usize) -> XC2MCFFClkSrc {
    match go.bufg_clks@[b as int].loc {
        Some(l) => if l.i == 1 {
            XC2MCFFClkSrc::GCK1
        } else if l.i == 2 {
            XC2MCFFClkSrc::GCK2
        } else {
            XC2MCFFClkSrc::GCK0
        },
        None => XC2MCFFClkSrc::GCK0,
    }
}

/// The clock source of the register of macrocell `mc`: the global clock
/// of its buffer, or, for a product term, product term C of the macrocell
/// if the product term sits there, else the control term.
pub open spec fn clk_src_for(go: &OutputGraph, clk: InputGraphRegClockType, mc: int) -> XC2MCFFClkSrc {
    match clk {
        InputGraphRegClockType::GCK(b) => gck_src(go, b),
        InputGraphRegClockType::PTerm(p) => if pterm_index(go.pterms@, p) == Some(
            spec_ptc(mc) as u32,
        ) {
            XC2MCFFClkSrc::PTC
        } else {
            XC2MCFFClkSrc::CTC
        },
    }
}

/// The set source of the register of macrocell `mc`: product term A of
/// the macrocell if the product term sits there, else the control term.
pub open spec fn set_src_for(go: &OutputGraph, s: Option<InputGraphRegRSType>, mc: int) -> XC2MCFFSetSrc {
    match s {
        None => XC2MCFFSetSrc::Disabled,
        Some(InputGraphRegRSType::GSR(_)) => XC2MCFFSetSrc::GSR,
        Some(InputGraphRegRSType::PTerm(p)) => if pterm_index(go.pterms@, p) == Some(
            spec_pta(mc) as u32,
        ) {
            XC2MCFFSetSrc::PTA
        } else {
            XC2MCFFSetSrc::CTS
        },
    }
}

/// The reset source of the register of macrocell `mc`: product term A of
/// the macrocell if the product term sits there, else the control term.
pub open spec fn reset_src_for(go: &OutputGraph, s: Option<InputGraphRegRSType>, mc: int) -> XC2MCFFResetSrc {
    match s {
        None => XC2MCFFResetSrc::Disabled,
        Some(InputGraphRegRSType::GSR(_)) => XC2MCFFResetSrc::GSR,
        Some(InputGraphRegRSType::PTerm(p)) => if pterm_index(go.pterms@, p) == Some(
            spec_pta(mc) as u32,
        ) {
            XC2MCFFResetSrc::PTA
        } else {
            XC2MCFFResetSrc::CTR
        },
    }
}

/// The second input of the XOR gate of a macrocell: its product term C
/// if it has one, else a constant; complemented if the output is
/// inverted.
pub open spec fn xor_mode_for(mc: &InputGraphMacrocell) -> XC2MCXorMode {
    match mc.xor_bits {
        Some(x) => if x.andterm_input is Some {
            if x.invert_out {
                XC2MCXorMode::PTCB
            } else {
                XC2MCXorMode::PTC
            }
        } else {
            if x.invert_out {
                XC2MCXorMode::ONE
            } else {
                XC2MCXorMode::ZERO
            }
        },
        None => XC2MCXorMode::ZERO,
    }
}

/// What a macrocell feeds back into the ZIA: its XOR output if that is
/// used, else its register if that is used.
pub open spec fn fb_mode_for(mc: &InputGraphMacrocell) -> XC2MCFeedbackMode {
    if mc.xor_feedback_used {
        XC2MCFeedbackMode::COMB
    } else if mc.reg_feedback_used {
        XC2MCFeedbackMode::REG
    } else {
        XC2MCFeedbackMode::Disabled
    }
}

/// The macrocell whose register the site uses: the one in the pin-input
/// half if it has a register, else the one in the logic half if it has.
pub open spec fn reg_owner(g: &InputGraph, lg: Option<usize>, pn: Option<usize>) -> Option<usize> {
    if pn matches Some(m) && g.mcs@[m as int].reg_bits is Some {
        pn
    } else if lg matches Some(m) && g.mcs@[m as int].reg_bits is Some {
        lg
    } else {
        None
    }
}

/// The register configuration of macrocell `mc` of block `fb`: that of
/// the register of the macrocell that owns it, with the XOR input and
/// the feedback of the macrocell in the logic half; the default where
/// there is no such macrocell.
pub open spec fn site_ff(g: &InputGraph, go: &OutputGraph, fb: int, mc: int) -> XC2MCFF {
    let lg = logic_at(g, go, fb, mc);
    let pn = pin_at(g, go, fb, mc);
    let d = XC2MCFF::spec_default();
    let fb_mode = match lg {
        Some(m) => fb_mode_for(&g.mcs@[m as int]),
        None => d.fb_mode,
    };
    let xor_mode = match lg {
        Some(m) => xor_mode_for(&g.mcs@[m as int]),
        None => d.xor_mode,
    };
    match reg_owner(g, lg, pn) {
        Some(m) => {
            let r = g.mcs@[m as int].reg_bits->0;
            XC2MCFF {
                clk_src: clk_src_for(go, r.clk_input, mc),
                falling_edge: r.clkinv,
                is_ddr: r.clkddr,
                r_src: reset_src_for(go, r.reset_input, mc),
                s_src: set_src_for(go, r.set_input, mc),
                init_state: r.init_state,
                ff_mode: r.mode,
                fb_mode,
                ff_in_ibuf: r.dt_input == InputGraphRegInputType::Pin,
                xor_mode,
            }
        },
        None => XC2MCFF {
            clk_src: d.clk_src,
            falling_edge: d.falling_edge,
            is_ddr: d.is_ddr,
            r_src: d.r_src,
            s_src: d.s_src,
            init_state: d.init_state,
            ff_mode: d.ff_mode,
            fb_mode,
            ff_in_ibuf: d.ff_in_ibuf,
            xor_mode,
        },
    }
}

/// The index of the location of product term `p`, if it has a location.
fn pterm_index_exec(go: &OutputGraph, p: usize) -> (r: Option<u32>)
    requires
        p < go.pterms@.len(),
    ensures
        r == pterm_index(go.pterms@, p),
{
    match go.pterms[p].loc {
        Some(l) => Some(l.i),
        None => None,
    }
}

/// The register configuration of macrocell `mc` of block `fb`.
fn site_ff_exec(g: &InputGraph, go: &OutputGraph, fb: u32, mc: u32) -> (r: XC2MCFF)
    requires
        g.wf(),
        go.shaped_like(g),
        mc < 16,
    ensures
        r == site_ff(g, go, fb as int, mc as int),
{
    let lg = find_mc(g, go, fb, mc, false);
    let pn = find_mc(g, go, fb, mc, true);
    let mut ff = XC2MCFF::default();
    let owner = match pn {
        Some(m) => if g.mcs[m].reg_bits.is_some() {
            pn
        } else {
            match lg {
                Some(l) => if g.mcs[l].reg_bits.is_some() {
                    lg
                } else {
                    None
                },
                None => None,
            }
        },
        None => match lg {
            Some(l) => if g.mcs[l].reg_bits.is_some() {
                lg
            } else {
                None
            },
            None => None,
        },
    };
    assert(owner == reg_owner(g, lg, pn));
    if let Some(m) = owner {
        assert(g.mc_refs_ok(&g.mcs@[m as int]));
        if let Some(r) = g.mcs[m].reg_bits {
            ff.clk_src = match r.clk_input {
                InputGraphRegClockType::GCK(b) => match go.bufg_clks[b].loc {
                    Some(l) => if l.i == 1 {
                        XC2MCFFClkSrc::GCK1
                    } else if l.i == 2 {
                        XC2MCFFClkSrc::GCK2
                    } else {
                        XC2MCFFClkSrc::GCK0
                    },
                    None => XC2MCFFClkSrc::GCK0,
                },
                InputGraphRegClockType::PTerm(p) => if pterm_index_exec(go, p) == Some(
                    crate::mc::get_ptc(mc),
                ) {
                    XC2MCFFClkSrc::PTC
                } else {
                    XC2MCFFClkSrc::CTC
                },
            };
            ff.falling_edge = r.clkinv;
            ff.is_ddr = r.clkddr;
            ff.r_src = match r.reset_input {
                None => XC2MCFFResetSrc::Disabled,
                Some(InputGraphRegRSType::GSR(_)) => XC2MCFFResetSrc::GSR,
                Some(InputGraphRegRSType::PTerm(p)) => if pterm_index_exec(go, p) == Some(
                    crate::mc::get_pta(mc),
                ) {
                    XC2MCFFResetSrc::PTA
                } else {
                    XC2MCFFResetSrc::CTR
                },
            };
            ff.s_src = match r.set_input {
                None => XC2MCFFSetSrc::Disabled,
                Some(InputGraphRegRSType::GSR(_)) => XC2MCFFSetSrc::GSR,
                Some(InputGraphRegRSType::PTerm(p)) => if pterm_index_exec(go, p) == Some(
                    crate::mc::get_pta(mc),
                ) {
                    XC2MCFFSetSrc::PTA
                } else {
                    XC2MCFFSetSrc::CTS
                },
            };
            ff.init_state = r.init_state;
            ff.ff_mode = r.mode;
            ff.ff_in_ibuf = match r.dt_input {
                InputGraphRegInputType::Pin => true,
                InputGraphRegInputType::Xor => false,
            };
        }
    }
    if let Some(m) = lg {
        let cell = &g.mcs[m];
        ff.fb_mode = if cell.xor_feedback_used {
            XC2MCFeedbackMode::COMB
        } else if cell.reg_feedback_used {
            XC2MCFeedbackMode::REG
        } else {
            XC2MCFeedbackMode::Disabled
        };
        ff.xor_mode = match &cell.xor_bits {
            Some(x) => if x.andterm_input.is_some() {
                if x.invert_out {
                    XC2MCXorMode::PTCB
                } else {
                    XC2MCXorMode::PTC
                }
            } else {
                if x.invert_out {
                    XC2MCXorMode::ONE
                } else {
                    XC2MCXorMode::ZERO
                }
            },
            None => XC2MCXorMode::ZERO,
        };
    }
    ff
}

/// The tristate mode of an output that global tristate buffer `b`
/// controls.
pub open spec fn gts_mode(go: &OutputGraph, b: usize) -> XC2IOBOBufMode {
    match go.bufg_gts@[b as int].loc {
        Some(l) => if l.i == 1 {
            XC2IOBOBufMode::TriStateGTS1
        } else if l.i == 2 {
            XC2IOBOBufMode::TriStateGTS2
        } else if l.i == 3 {
            XC2IOBOBufMode::TriStateGTS3
        } else {
            XC2IOBOBufMode::TriStateGTS0
        },
        None => XC2IOBOBufMode::TriStateGTS0,
    }
}

/// The mode of the output buffer of a pad at macrocell `mc`: disabled
/// if nothing drives the pad; else push-pull, open-drain, or tristate
/// under the control that the netlist names. A product term controls
/// through product term B of the macrocell if it sits there, else through
/// the control term.
pub open spec fn obuf_mode_for(
    go: &OutputGraph,
    input: Option<InputGraphIOInputType>,
    oe: Option<InputGraphIOOEType>,
    mc: int,
) -> XC2IOBOBufMode {
    if input is None {
        XC2IOBOBufMode::Disabled
    } else {
        match oe {
            None => XC2IOBOBufMode::PushPull,
            Some(InputGraphIOOEType::OpenDrain) => XC2IOBOBufMode::OpenDrain,
            Some(InputGraphIOOEType::PTerm(p)) => if pterm_index(go.pterms@, p) == Some(
                spec_ptb(mc) as u32,
            ) {
                XC2IOBOBufMode::TriStatePTB
            } else {
                XC2IOBOBufMode::TriStateCTE
            },
            Some(InputGraphIOOEType::GTS(b)) => gts_mode(go, b),
        }
    }
}

/// What the I/O block of a site feeds into the ZIA: for a pin input the
/// pad, or the register if the input is registered; else, for the
/// macrocell in the logic half, the pad if its pad is read, or the
/// register if the register must take the path of the pad because the
/// feedback path is taken by the XOR output.
pub open spec fn zia_mode_for(g: &InputGraph, lg: Option<usize>, pn: Option<usize>) -> XC2IOBZIAMode {
    match pn {
        Some(m) => if g.mcs@[m as int].reg_bits is Some {
            XC2IOBZIAMode::REG
        } else {
            XC2IOBZIAMode::PAD
        },
        None => match lg {
            Some(m) => if g.mcs@[m as int].io_feedback_used {
                XC2IOBZIAMode::PAD
            } else if g.mcs@[m as int].reg_feedback_used && g.mcs@[m as int].xor_feedback_used {
                XC2IOBZIAMode::REG
            } else {
                XC2IOBZIAMode::Disabled
            },
            None => XC2IOBZIAMode::Disabled,
        },
    }
}

/// The macrocell whose pad the site uses: the one in the logic half if
/// it has a pad, else the one in the pin-input half if it has.
pub open spec fn io_owner(g: &InputGraph, lg: Option<usize>, pn: Option<usize>) -> Option<usize> {
    if lg matches Some(m) && g.mcs@[m as int].io_bits is Some {
        lg
    } else if pn matches Some(m) && g.mcs@[m as int].io_bits is Some {
        pn
    } else {
        None
    }
}

/// The configuration of the I/O block of macrocell `mc` of block `fb`.
pub open spec fn site_iob(g: &InputGraph, go: &OutputGraph, fb: int, mc: int) -> XC2MCSmallIOB {
    let lg = logic_at(g, go, fb, mc);
    let pn = pin_at(g, go, fb, mc);
    let d = XC2MCSmallIOB::spec_default();
    match io_owner(g, lg, pn) {
        Some(m) => {
            let io = g.mcs@[m as int].io_bits->0;
            XC2MCSmallIOB {
                zia_mode: zia_mode_for(g, lg, pn),
                schmitt_trigger: io.schmitt_trigger,
                obuf_uses_ff: io.input == Some(InputGraphIOInputType::Reg),
                obuf_mode: obuf_mode_for(go, io.input, io.oe, mc),
                termination_enabled: io.termination_enabled,
                slew_is_fast: io.slew_is_fast,
            }
        },
        None => XC2MCSmallIOB {
            zia_mode: zia_mode_for(g, lg, pn),
            schmitt_trigger: d.schmitt_trigger,
            obuf_uses_ff: d.obuf_uses_ff,
            obuf_mode: d.obuf_mode,
            termination_enabled: d.termination_enabled,
            slew_is_fast: d.slew_is_fast,
        },
    }
}

/// The configuration of the I/O block of macrocell `mc` of block `fb`.
fn site_iob_exec(g: &InputGraph, go: &OutputGraph, fb: u32, mc: u32) -> (r: XC2MCSmallIOB)
    requires
        g.wf(),
        go.shaped_like(g),
        mc < 16,
    ensures
        r == site_iob(g, go, fb as int, mc as int),
{
    let lg = find_mc(g, go, fb, mc, false);
    let pn = find_mc(g, go, fb, mc, true);
    let mut iob = XC2MCSmallIOB::default();
    iob.zia_mode = match pn {
        Some(m) => if g.mcs[m].reg_bits.is_some() {
            XC2IOBZIAMode::REG
        } else {
            XC2IOBZIAMode::PAD
        },
        None => match lg {
            Some(m) => if g.mcs[m].io_feedback_used {
                XC2IOBZIAMode::PAD
            } else if g.mcs[m].reg_feedback_used && g.mcs[m].xor_feedback_used {
                XC2IOBZIAMode::REG
            } else {
                XC2IOBZIAMode::Disabled
            },
            None => XC2IOBZIAMode::Disabled,
        },
    };
    let lg_has = match lg {
        Some(m) => g.mcs[m].io_bits.is_some(),
        None => false,
    };
    let pn_has = match pn {
        Some(m) => g.mcs[m].io_bits.is_some(),
        None => false,
    };
    let owner = if lg_has {
        lg
    } else if pn_has {
        pn
    } else {
        None
    };
    assert(owner == io_owner(g, lg, pn));
    if let Some(m) = owner {
        assert(g.mc_refs_ok(&g.mcs@[m as int]));
        if let Some(io) = g.mcs[m].io_bits {
            iob.schmitt_trigger = io.schmitt_trigger;
            iob.obuf_uses_ff = match io.input {
                Some(InputGraphIOInputType::Reg) => true,
                _ => false,
            };
            iob.obuf_mode = if io.input.is_none() {
                XC2IOBOBufMode::Disabled
            } else {
                match io.oe {
                    None => XC2IOBOBufMode::PushPull,
                    Some(InputGraphIOOEType::OpenDrain) => XC2IOBOBufMode::OpenDrain,
                    Some(InputGraphIOOEType::PTerm(p)) => if pterm_index_exec(go, p) == Some(
                        crate::mc::get_ptb(mc),
                    ) {
                        XC2IOBOBufMode::TriStatePTB
                    } else {
                        XC2IOBOBufMode::TriStateCTE
                    },
                    Some(InputGraphIOOEType::GTS(b)) => match go.bufg_gts[b].loc {
                        Some(l) => if l.i == 1 {
                            XC2IOBOBufMode::TriStateGTS1
                        } else if l.i == 2 {
                            XC2IOBOBufMode::TriStateGTS2
                        } else if l.i == 3 {
                            XC2IOBOBufMode::TriStateGTS3
                        } else {
                            XC2IOBOBufMode::TriStateGTS0
                        },
                        None => XC2IOBOBufMode::TriStateGTS0,
                    },
                }
            };
            iob.termination_enabled = io.termination_enabled;
            iob.slew_is_fast = io.slew_is_fast;
        }
    }
    iob
}

/// The configuration of the input-only pin: that of the pad of the
/// macrocell on the site that stands for the pin; the default where
/// there is none.
pub open spec fn site_inpin(g: &InputGraph, go: &OutputGraph) -> XC2ExtraIBuf {
    match pin_at(g, go, 2, 0) {
        Some(m) => match g.mcs@[m as int].io_bits {
            Some(io) => XC2ExtraIBuf {
                schmitt_trigger: io.schmitt_trigger,
                termination_enabled: io.termination_enabled,
            },
            None => XC2ExtraIBuf::spec_default(),
        },
        None => XC2ExtraIBuf::spec_default(),
    }
}

/// The configuration of the input-only pin.
fn site_inpin_exec(g: &InputGraph, go: &OutputGraph) -> (r: XC2ExtraIBuf)
    requires
        go.shaped_like(g),
    ensures
        r == site_inpin(g, go),
{
    match find_mc(g, go, 2, 0, true) {
        Some(m) => match g.mcs[m].io_bits {
            Some(io) => XC2ExtraIBuf {
                schmitt_trigger: io.schmitt_trigger,
                termination_enabled: io.termination_enabled,
            },
            None => XC2ExtraIBuf::default(),
        },
        None => XC2ExtraIBuf::default(),
    }
}

/// The first of the first `n` buffers with site `i`, if there is one.
pub open spec fn buf_at(locs: Seq<Option<AssignedLocation>>, i: int, n: int) -> Option<usize>
    decreases n,
{
    if n <= 0 {
        None
    } else {
        match buf_at(locs, i, n - 1) {
            Some(b) => Some(b),
            None => if (locs[n - 1] matches Some(l) && l.i == i) {
                Some((n - 1) as usize)
            } else {
                None
            },
        }
    }
}

/// Once `buf_at` has found a buffer, looking further finds the same.
proof fn lemma_buf_at_found(locs: Seq<Option<AssignedLocation>>, i: int, k: int, n: int)
    requires
        0 <= k < n,
        n <= usize::MAX,
        buf_at(locs, i, k) is None,
        locs[k] matches Some(l) && l.i == i,
    ensures
        buf_at(locs, i, n) == Some(k as usize),
    decreases n - k,
{
    if n > k + 1 {
        lemma_buf_at_found(locs, i, k, n - 1);
    }
}

/// Finds the first buffer with site `i` among the locations `locs`.
fn find_buf(locs: &Vec<Option<AssignedLocation>>, i: u32) -> (r: Option<usize>)
    ensures
        r == buf_at(locs@, i as int, locs@.len() as int),
        r matches Some(b) ==> b < locs@.len(),
{
    let n = locs.len();
    let mut k: usize = 0;
    while k < n
        invariant
            k <= n,
            n == locs@.len(),
            buf_at(locs@, i as int, k as int) is None,
        decreases n - k,
    {
        let here = match locs[k] {
            Some(l) => l.i == i,
            None => false,
        };
        if here {
            proof {
                lemma_buf_at_found(locs@, i as int, k as int, n as int);
            }
            return Some(k);
        }
        k += 1;
    }
    None
}

/// The locations of the global clock buffers.
fn clk_locs(go: &OutputGraph) -> (r: Vec<Option<AssignedLocation>>)
    ensures
        r@ == crate::greedy::clk_sites(go.bufg_clks@),
{
    let mut r: Vec<Option<AssignedLocation>> = Vec::new();
    let mut k: usize = 0;
    while k < go.bufg_clks.len()
        invariant
            k <= go.bufg_clks@.len(),
            r@.len() == k,
            forall|j: int| 0 <= j < k ==> r@[j] == go.bufg_clks@[j].loc,
        decreases go.bufg_clks@.len() - k,
    {
        r.push(go.bufg_clks[k].loc);
        k += 1;
    }
    assert(r@ =~= crate::greedy::clk_sites(go.bufg_clks@));
    r
}

/// The locations of the global tristate buffers.
fn gts_locs(go: &OutputGraph) -> (r: Vec<Option<AssignedLocation>>)
    ensures
        r@ == crate::greedy::gts_sites(go.bufg_gts@),
{
    let mut r: Vec<Option<AssignedLocation>> = Vec::new();
    let mut k: usize = 0;
    while k < go.bufg_gts.len()
        invariant
            k <= go.bufg_gts@.len(),
            r@.len() == k,
            forall|j: int| 0 <= j < k ==> r@[j] == go.bufg_gts@[j].loc,
        decreases go.bufg_gts@.len() - k,
    {
        r.push(go.bufg_gts[k].loc);
        k += 1;
    }
    assert(r@ =~= crate::greedy::gts_sites(go.bufg_gts@));
    r
}

/// The locations of the global set/reset buffers.
fn gsr_locs(go: &OutputGraph) -> (r: Vec<Option<AssignedLocation>>)
    ensures
        r@ == crate::greedy::gsr_sites(go.bufg_gsr@),
{
    let mut r: Vec<Option<AssignedLocation>> = Vec::new();
    let mut k: usize = 0;
    while k < go.bufg_gsr.len()
        invariant
            k <= go.bufg_gsr@.len(),
            r@.len() == k,
            forall|j: int| 0 <= j < k ==> r@[j] == go.bufg_gsr@[j].loc,
        decreases go.bufg_gsr@.len() - k,
    {
        r.push(go.bufg_gsr[k].loc);
        k += 1;
    }
    assert(r@ =~= crate::greedy::gsr_sites(go.bufg_gsr@));
    r
}

/// Whether `nets` is the configuration of the global nets of the
/// placement: a global clock is enabled if a buffer sits on it; a global
/// tristate is enabled, with the polarity of its buffer, if a buffer sits
/// on it, and acts as !T else; the global set/reset is enabled, with the
/// polarity of its buffer, if it has a buffer; the pads have pull-ups.
pub open spec fn nets_assembled(g: &InputGraph, go: &OutputGraph, nets: &XC2GlobalNets) -> bool {
    let clks = crate::greedy::clk_sites(go.bufg_clks@);
    let gts = crate::greedy::gts_sites(go.bufg_gts@);
    let gsr = crate::greedy::gsr_sites(go.bufg_gsr@);
    &&& forall|i: int|
        0 <= i < 3 ==> #[trigger] nets.gck_enable@[i] == (buf_at(clks, i, clks.len() as int) is Some)
    &&& forall|i: int|
        0 <= i < 4 ==> #[trigger] nets.gts_enable@[i] == (buf_at(gts, i, gts.len() as int) is Some)
    &&& forall|i: int|
        0 <= i < 4 ==> #[trigger] nets.gts_invert@[i] == (match buf_at(gts, i, gts.len() as int) {
            Some(b) => g.bufg_gts@[b as int].invert,
            None => true,
        })
    &&& nets.gsr_enable == (buf_at(gsr, 0, gsr.len() as int) is Some)
    &&& nets.gsr_invert == (match buf_at(gsr, 0, gsr.len() as int) {
        Some(b) => g.bufg_gsr@[b as int].invert,
        None => false,
    })
    &&& nets.global_pu
}

/// The configuration of the global nets of the placement.
fn assemble_global_nets(g: &InputGraph, go: &OutputGraph) -> (r: XC2GlobalNets)
    requires
        go.shaped_like(g),
    ensures
        nets_assembled(g, go, &r),
{
    let clks = clk_locs(go);
    let gts = gts_locs(go);
    let gsr = gsr_locs(go);
    let gck_enable = [
        find_buf(&clks, 0).is_some(),
        find_buf(&clks, 1).is_some(),
        find_buf(&clks, 2).is_some(),
    ];
    let t0 = find_buf(&gts, 0);
    let t1 = find_buf(&gts, 1);
    let t2 = find_buf(&gts, 2);
    let t3 = find_buf(&gts, 3);
    let gts_enable = [t0.is_some(), t1.is_some(), t2.is_some(), t3.is_some()];
    let gts_invert = [
        match t0 {
            Some(b) => g.bufg_gts[b].invert,
            None => true,
        },
        match t1 {
            Some(b) => g.bufg_gts[b].invert,
            None => true,
        },
        match t2 {
            Some(b) => g.bufg_gts[b].invert,
            None => true,
        },
        match t3 {
            Some(b) => g.bufg_gts[b].invert,
            None => true,
        },
    ];
    let s = find_buf(&gsr, 0);
    XC2GlobalNets {
        gck_enable,
        gsr_enable: s.is_some(),
        gsr_invert: match s {
            Some(b) => g.bufg_gsr[b].invert,
            None => false,
        },
        gts_enable,
        gts_invert,
        global_pu: true,
    }
}

/// What ZIA row `i` of block `fb_i` selects: what the ZIA assignment of
/// the block says, and constant one where the placement has no
/// assignment for the block.
pub open spec fn zia_selected(go: &OutputGraph, fb_i: int, i: int) -> XC2ZIAInput {
    if fb_i < go.zia@.len() {
        go.zia@[fb_i]@[i]
    } else {
        XC2ZIAInput::One
    }
}

/// Whether `fb` is the configuration of block `fb_i` that the netlist
/// and its placement call for.
pub open spec fn fb_assembled(g: &InputGraph, go: &OutputGraph, fb: &XC2BitstreamFB, fb_i: int) -> bool {
    &&& forall|i: int|
        0 <= i < 40 ==> (#[trigger] fb.zia_bits@[i]).selected == zia_selected(go, fb_i, i)
    &&& forall|i: int, j: int|
        #![trigger fb.and_terms@[i].input@[j]]
        0 <= i < 56 && 0 <= j < 40 ==> fb.and_terms@[i].input@[j] == and_connected(
            go.pterms@,
            fb_i,
            i,
            j,
            false,
            go.pterms@.len() as int,
        )
    &&& forall|i: int, j: int|
        #![trigger fb.and_terms@[i].input_b@[j]]
        0 <= i < 56 && 0 <= j < 40 ==> fb.and_terms@[i].input_b@[j] == and_connected(
            go.pterms@,
            fb_i,
            i,
            j,
            true,
            go.pterms@.len() as int,
        )
    &&& forall|mc: int, t: int|
        #![trigger fb.or_terms@[mc].input@[t]]
        0 <= mc < 16 && 0 <= t < 56 ==> fb.or_terms@[mc].input@[t] == or_connected(
            g,
            go,
            fb_i,
            mc,
            t,
        )
    &&& forall|mc: int| 0 <= mc < 16 ==> #[trigger] fb.ffs@[mc] == site_ff(g, go, fb_i, mc)
}

/// The configuration of block `fb_i` that the netlist and its placement
/// call for.
fn assemble_fb(g: &InputGraph, go: &OutputGraph, fb_i: u32) -> (r: XC2BitstreamFB)
    requires
        g.wf(),
        go.shaped_like(g),
        fb_i < 2,
    ensures
        fb_assembled(g, go, &r, fb_i as int),
{
    let mut zia_bits = [XC2ZIARowPiece { selected: XC2ZIAInput::One }; 40];
    if (fb_i as usize) < go.zia.len() {
        let mut i: usize = 0;
        while i < 40
            invariant
                i <= 40,
                fb_i < go.zia@.len(),
                forall|k: int|
                    0 <= k < i ==> (#[trigger] zia_bits@[k]).selected == zia_selected(
                        go,
                        fb_i as int,
                        k,
                    ),
            decreases 40 - i,
        {
            zia_bits[i] = XC2ZIARowPiece { selected: go.zia[fb_i as usize].get(i) };
            i += 1;
        }
    }
    let and_terms = assemble_and_terms(go, fb_i);
    let mut or_terms = [XC2PLAOrTerm { input: [false; 56] }; 16];
    let mut mc: usize = 0;
    while mc < 16
        invariant
            mc <= 16,
            g.wf(),
            go.shaped_like(g),
            forall|a: int, t: int|
                #![trigger or_terms@[a].input@[t]]
                0 <= a < mc && 0 <= t < 56 ==> or_terms@[a].input@[t] == or_connected(
                    g,
                    go,
                    fb_i as int,
                    a,
                    t,
                ),
        decreases 16 - mc,
    {
        let input = or_row(g, go, fb_i, mc as u32);
        let ghost prev = or_terms@;
        or_terms[mc] = XC2PLAOrTerm { input };
        proof {
            assert forall|a: int, t: int|
                #![trigger or_terms@[a].input@[t]]
                0 <= a < mc + 1 && 0 <= t < 56 implies or_terms@[a].input@[t] == or_connected(
                g,
                go,
                fb_i as int,
                a,
                t,
            ) by {
                if a < mc {
                    assert(or_terms@[a] == prev[a]);
                    assert(prev[a].input@[t] == or_connected(g, go, fb_i as int, a, t));
                } else {
                    assert(or_terms@[a].input@ == input@);
                }
            }
        }
        mc += 1;
    }
    let mut ffs = [XC2MCFF::default(); 16];
    let mut mc: usize = 0;
    while mc < 16
        invariant
            mc <= 16,
            g.wf(),
            go.shaped_like(g),
            forall|a: int| 0 <= a < mc ==> #[trigger] ffs@[a] == site_ff(g, go, fb_i as int, a),
        decreases 16 - mc,
    {
        ffs[mc] = site_ff_exec(g, go, fb_i, mc as u32);
        mc += 1;
    }
    XC2BitstreamFB { and_terms, or_terms, zia_bits, ffs }
}

/// Whether `bits` is the configuration that the netlist and its
/// placement call for: both function blocks, every I/O block, the
/// input-only pin and the global nets are as they call for them, and
/// every voltage range is low.
pub open spec fn bits_assembled(g: &InputGraph, go: &OutputGraph, bits: &XC2BitstreamBits) -> bool {
    &&& fb_assembled(g, go, &bits.spec_fb()[0], 0)
    &&& fb_assembled(g, go, &bits.spec_fb()[1], 1)
    &&& forall|i: int|
        0 <= i < 32 ==> #[trigger] bits.spec_iobs()[i] == site_iob(g, go, i / 16, i % 16)
    &&& bits.spec_inpin() == site_inpin(g, go)
    &&& nets_assembled(g, go, &bits.spec_global_nets())
    &&& !bits.spec_ivoltage()
    &&& !bits.spec_ovoltage()
    &&& match *bits {
        XC2BitstreamBits::XC2C32A { ivoltage, ovoltage, .. } => !ivoltage@[0] && !ivoltage@[1]
            && !ovoltage@[0] && !ovoltage@[1],
        _ => true,
    }
}

/// Assembles the bitstream of `device` for a netlist and its placement.
///
/// Every ZIA row selects what the ZIA assignment of its block says. An
/// AND term reads a ZIA row if a product term that sits on it has the
/// row among the rows of its inputs. The OR term of a macrocell reads
/// the AND terms on which the inputs of the OR term sit. Registers, I/O
/// blocks, the input-only pin and the global nets are configured as the
/// macrocells and buffers on their sites say.
pub fn produce_bitstream(device: &DeviceSpec, g: &InputGraph, go: &OutputGraph) -> (r: XC2Bitstream)
    requires
        g.wf(),
        go.shaped_like(g),
    ensures
        r.speed_grade@ == device.speed@,
        r.package@ == device.package@,
        r.bits is XC2C32 <==> device.device == XC2Device::XC2C32,
        bits_assembled(g, go, &r.bits),
{
    let fb0 = assemble_fb(g, go, 0);
    let fb1 = assemble_fb(g, go, 1);
    let mut iobs = [XC2MCSmallIOB::default(); 32];
    let mut i: usize = 0;
    while i < 32
        invariant
            i <= 32,
            g.wf(),
            go.shaped_like(g),
            forall|k: int| 0 <= k < i ==> #[trigger] iobs@[k] == site_iob(g, go, k / 16, k % 16),
        decreases 32 - i,
    {
        iobs[i] = site_iob_exec(g, go, (i / 16) as u32, (i % 16) as u32);
        i += 1;
    }
    let inpin = site_inpin_exec(g, go);
    let global_nets = assemble_global_nets(g, go);
    let bits = match device.device {
        XC2Device::XC2C32 => XC2BitstreamBits::XC2C32 {
            fb: [fb0, fb1],
            iobs,
            inpin,
            global_nets,
            ivoltage: false,
            ovoltage: false,
        },
        XC2Device::XC2C32A => XC2BitstreamBits::XC2C32A {
            fb: [fb0, fb1],
            iobs,
            inpin,
            global_nets,
            legacy_ivoltage: false,
            legacy_ovoltage: false,
            ivoltage: [false, false],
            ovoltage: [false, false],
        },
    };
    XC2Bitstream { speed_grade: device.speed.clone(), package: device.package.clone(), bits }
}

/// A bitstream assembled from a placement whose ZIA rows the routing
/// table offers can be written: every ZIA row selects something that the
/// row can select.
pub proof fn lemma_assembled_encodable(
    g: &InputGraph,
    go: &OutputGraph,
    bits: &XC2BitstreamBits,
    table: &crate::zia::ZIATable,
)
    requires
        bits_assembled(g, go, bits),
        forall|f: int, i: int|
            0 <= f < go.zia@.len() && 0 <= i < 40 ==> #[trigger] go.zia@[f]@[i] == XC2ZIAInput::One
                || table.offers(i, go.zia@[f]@[i]),
    ensures
        bits.encodable(table),
{
    assert forall|i: int| 0 <= i < 40 implies table.spec_encode(
        i,
        (#[trigger] bits.spec_fb()[0].zia_bits@[i]).selected,
    ) is Some by {
        assert(bits.spec_fb()[0].zia_bits@[i].selected == zia_selected(go, 0, i));
        if 0 < go.zia@.len() {
            assert(go.zia@[0]@[i] == XC2ZIAInput::One || table.offers(i, go.zia@[0]@[i]));
        }
    }
    assert forall|i: int| 0 <= i < 40 implies table.spec_encode(
        i,
        (#[trigger] bits.spec_fb()[1].zia_bits@[i]).selected,
    ) is Some by {
        assert(bits.spec_fb()[1].zia_bits@[i].selected == zia_selected(go, 1, i));
        if 1 < go.zia@.len() {
            assert(go.zia@[1]@[i] == XC2ZIAInput::One || table.offers(i, go.zia@[1]@[i]));
        }
    }
}

} // verus!
