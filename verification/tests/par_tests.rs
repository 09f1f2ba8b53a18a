use xc2par::andterms::try_assign_andterms;
use xc2par::andterms::AndTermAssignmentResult;
use xc2par::bitstream::process_jed;
use xc2par::bitstream::XC2BitstreamBits;
use xc2par::bufplace::assign_buffer_sites;
use xc2par::bufplace::resolve_buffer_indices;
use xc2par::bufplace::BufferRequest;
use xc2par::device::DeviceSpec;
use xc2par::device::XC2Device;
use xc2par::greedy::greedy_initial_placement;
use xc2par::jedread::read_jed;
use xc2par::mc::XC2MCFFMode;
use xc2par::netlist::AssignedLocation;
use xc2par::netlist::InputGraph;
use xc2par::netlist::InputGraphBufgClk;
use xc2par::netlist::InputGraphBufgGSR;
use xc2par::netlist::InputGraphBufgGTS;
use xc2par::netlist::InputGraphIOBuf;
use xc2par::netlist::InputGraphIOInputType;
use xc2par::netlist::InputGraphIOOEType;
use xc2par::netlist::InputGraphMacrocell;
use xc2par::netlist::InputGraphMacrocellType;
use xc2par::netlist::InputGraphPTerm;
use xc2par::netlist::InputGraphPTermInput;
use xc2par::netlist::InputGraphPTermInputType;
use xc2par::netlist::InputGraphReg;
use xc2par::netlist::InputGraphRegClockType;
use xc2par::netlist::InputGraphRegInputType;
use xc2par::netlist::InputGraphRegRSType;
use xc2par::netlist::InputGraphXor;
use xc2par::netlist::RequestedLocation;
use xc2par::outgraph::mcs_can_be_paired;
use xc2par::outgraph::OutputGraph;
use xc2par::outgraph::PARFBAssignment;
use xc2par::outgraph::PARMCAssignment;
use xc2par::outgraph::PARZIAAssignment;
use xc2par::output::produce_bitstream;
use xc2par::par::do_par;
use xc2par::par::PARResult;
use xc2par::par::XC2ParOptions;
use xc2par::repair::try_assign_entire_chip;
use xc2par::repair::try_assign_fb;
use xc2par::repair::PlacementViolations;
use xc2par::sanity::do_par_sanity_check;
use xc2par::sanity::PARSanityResult;
use xc2par::zia::XC2ZIAInput;
use xc2par::zia::ZIAChoice;
use xc2par::zia::ZIATable;
use xc2par::ziaroute::try_assign_zia;
use xc2par::ziaroute::ZIAAssignmentResult;

// ---- a device to test against -------------------------------------------

fn code(n: usize) -> [bool; 8] {
    let mut bits = [false; 8];
    for k in 0..8 {
        bits[k] = (n >> k) & 1 == 1;
    }
    bits
}

fn source(s: usize) -> XC2ZIAInput {
    if s < 32 {
        XC2ZIAInput::IBuf { ibuf: s as u16 }
    } else if s < 64 {
        XC2ZIAInput::Macrocell { fb: ((s - 32) / 16) as u8, mc: ((s - 32) % 16) as u8 }
    } else {
        XC2ZIAInput::DedicatedInput
    }
}

/// A routing table in which every row offers every signal.
fn full_table() -> ZIATable {
    let mut rows = Vec::new();
    for _ in 0..40 {
        let mut row = Vec::new();
        for s in 0..65 {
            row.push(ZIAChoice { input: source(s), bits: code(s + 1) });
        }
        rows.push(row);
    }
    ZIATable { rows, one_bits: [true; 8], zero_bits: [false; 8] }
}

/// A routing table in which row `r` offers the signals `s` with
/// `s % 40 == r` and `(s + 1) % 40 == r`.
fn sparse_table() -> ZIATable {
    let mut rows = Vec::new();
    for r in 0..40 {
        let mut row = Vec::new();
        for s in 0..65 {
            if s % 40 == r || (s + 1) % 40 == r {
                row.push(ZIAChoice { input: source(s), bits: code(s + 1) });
            }
        }
        rows.push(row);
    }
    ZIATable { rows, one_bits: [true; 8], zero_bits: [false; 8] }
}

fn device_with(zia: ZIATable) -> DeviceSpec {
    let d = DeviceSpec {
        device: XC2Device::XC2C32A,
        speed: "4".to_owned(),
        package: "vq44".to_owned(),
        gck: [(1, 4), (1, 5), (1, 6)],
        gts: [(0, 5), (0, 6), (0, 3), (0, 4)],
        gsr: (0, 7),
        zia,
    };
    assert!(d.is_valid());
    d
}

fn device() -> DeviceSpec {
    device_with(full_table())
}

// ---- netlists -----------------------------------------------------------

fn io(input: Option<InputGraphIOInputType>, oe: Option<InputGraphIOOEType>) -> InputGraphIOBuf {
    InputGraphIOBuf {
        input,
        oe,
        schmitt_trigger: false,
        termination_enabled: false,
        slew_is_fast: true,
        uses_data_gate: false,
    }
}

fn loc(fb: u32, i: Option<u32>) -> Option<RequestedLocation> {
    Some(RequestedLocation { fb, i })
}

fn pin_input(name: &str, requested_loc: Option<RequestedLocation>) -> InputGraphMacrocell {
    InputGraphMacrocell {
        name: name.to_owned(),
        requested_loc,
        io_bits: Some(io(None, None)),
        reg_bits: None,
        xor_bits: None,
        io_feedback_used: true,
        reg_feedback_used: false,
        xor_feedback_used: false,
    }
}

fn xor(orterm_inputs: Vec<usize>, andterm_input: Option<usize>) -> InputGraphXor {
    InputGraphXor { orterm_inputs, andterm_input, invert_out: false }
}

fn pin_output(name: &str, requested_loc: Option<RequestedLocation>, orterms: Vec<usize>) -> InputGraphMacrocell {
    InputGraphMacrocell {
        name: name.to_owned(),
        requested_loc,
        io_bits: Some(io(Some(InputGraphIOInputType::Xor), None)),
        reg_bits: None,
        xor_bits: Some(xor(orterms, None)),
        io_feedback_used: false,
        reg_feedback_used: false,
        xor_feedback_used: false,
    }
}

fn buried_comb(name: &str, orterms: Vec<usize>) -> InputGraphMacrocell {
    InputGraphMacrocell {
        name: name.to_owned(),
        requested_loc: None,
        io_bits: None,
        reg_bits: None,
        xor_bits: Some(xor(orterms, None)),
        io_feedback_used: false,
        reg_feedback_used: false,
        xor_feedback_used: true,
    }
}

fn reg(clk_input: InputGraphRegClockType) -> InputGraphReg {
    InputGraphReg {
        mode: XC2MCFFMode::DFF,
        clkinv: false,
        clkddr: false,
        init_state: false,
        set_input: None,
        reset_input: None,
        ce_input: None,
        dt_input: InputGraphRegInputType::Xor,
        clk_input,
    }
}

fn buried_reg(name: &str, r: InputGraphReg, x: Option<InputGraphXor>) -> InputGraphMacrocell {
    InputGraphMacrocell {
        name: name.to_owned(),
        requested_loc: None,
        io_bits: None,
        reg_bits: Some(r),
        xor_bits: x,
        io_feedback_used: false,
        reg_feedback_used: true,
        xor_feedback_used: false,
    }
}

fn input(kind: InputGraphPTermInputType, mc: usize) -> InputGraphPTermInput {
    InputGraphPTermInput { kind, mc }
}

fn pterm(name: &str, inputs_true: Vec<InputGraphPTermInput>, inputs_comp: Vec<InputGraphPTermInput>) -> InputGraphPTerm {
    InputGraphPTerm { name: name.to_owned(), requested_loc: None, inputs_true, inputs_comp }
}

fn graph(mcs: Vec<InputGraphMacrocell>, pterms: Vec<InputGraphPTerm>) -> InputGraph {
    InputGraph { mcs, pterms, bufg_clks: Vec::new(), bufg_gts: Vec::new(), bufg_gsr: Vec::new() }
}

/// A pad at fb0.mc0 whose complement drives a pad that asks for `out_loc`.
fn inverter(out_loc: Option<RequestedLocation>) -> InputGraph {
    graph(
        vec![pin_input("in", loc(0, Some(0))), pin_output("out", out_loc, vec![0])],
        vec![pterm("inv", vec![], vec![input(InputGraphPTermInputType::Pin, 0)])],
    )
}

fn par(g: &mut InputGraph, d: &DeviceSpec) -> OutputGraph {
    assert!(g.is_valid());
    match do_par(g, d, &XC2ParOptions::new()) {
        PARResult::Success(go) => go,
        other => panic!("place and route failed: {:?}", other),
    }
}

fn at(fb: u32, i: u32) -> Option<AssignedLocation> {
    Some(AssignedLocation { fb, i })
}

fn jed(d: &DeviceSpec, g: &InputGraph, go: &OutputGraph) -> Vec<u8> {
    let b = produce_bitstream(d, g, go);
    assert!(b.bits.is_encodable(&d.zia));
    let mut out = Vec::new();
    b.write_jed(&mut out, &d.zia);
    out
}

fn fbs(bits: &XC2BitstreamBits) -> &[xc2par::fb::XC2BitstreamFB; 2] {
    match bits {
        XC2BitstreamBits::XC2C32 { fb, .. } => fb,
        XC2BitstreamBits::XC2C32A { fb, .. } => fb,
    }
}

// ---- scenarios ----------------------------------------------------------

#[test]
fn single_inverter_is_placed_and_routed() {
    let d = device();
    let mut g = inverter(loc(0, Some(1)));
    let go = par(&mut g, &d);
    assert_eq!(go.mcs[0].loc, at(0, 0));
    assert_eq!(go.mcs[1].loc, at(0, 1));
    assert_eq!(go.pterms[0].loc, at(0, 0));
    assert_eq!(go.pterms[0].inputs_true_zia, Vec::<u32>::new());
    assert_eq!(go.pterms[0].inputs_comp_zia, vec![0]);
    assert_eq!(go.zia.len(), 2);

    let b = produce_bitstream(&d, &g, &go);
    let fb = fbs(&b.bits);
    // exactly one ZIA row is occupied, by the input buffer of pad 0
    let mut used = 0;
    for f in 0..2 {
        for r in 0..40 {
            if fb[f].zia_bits[r].selected != XC2ZIAInput::One {
                used += 1;
                assert_eq!((f, r), (0, 0));
                assert_eq!(fb[f].zia_bits[r].selected, XC2ZIAInput::IBuf { ibuf: 0 });
            }
        }
    }
    assert_eq!(used, 1);
    // exactly one AND term reads anything: the complement of row 0
    let mut and_bits = 0;
    for f in 0..2 {
        for t in 0..56 {
            for r in 0..40 {
                if fb[f].and_terms[t].input[r] {
                    and_bits += 1;
                }
                if fb[f].and_terms[t].input_b[r] {
                    and_bits += 1;
                    assert_eq!((f, t, r), (0, 0, 0));
                }
            }
        }
    }
    assert_eq!(and_bits, 1);
    // exactly one OR term reads an AND term: that of macrocell 1
    let mut or_bits = 0;
    for f in 0..2 {
        for m in 0..16 {
            for t in 0..56 {
                if fb[f].or_terms[m].input[t] {
                    or_bits += 1;
                    assert_eq!((f, m, t), (0, 1, 0));
                }
            }
        }
    }
    assert_eq!(or_bits, 1);
}

#[test]
fn single_inverter_jedec_records() {
    let d = device();
    let mut g = inverter(loc(0, Some(1)));
    let go = par(&mut g, &d);
    let text = String::from_utf8(jed(&d, &g, &go)).unwrap();
    // row 0 selects the input buffer of pad 0, whose pattern is 1
    assert!(text.contains("L000000 00000001*\n"));
    assert!(text.contains("L000008 11111111*\n"));
    // AND term 0 reads the complement of row 0
    let mut and0 = String::from("L000320 10");
    for _ in 0..39 {
        and0.push_str("11");
    }
    and0.push_str("*\n");
    assert!(text.contains(&and0));
    // row 0 of the OR array feeds macrocell 1
    assert!(text.contains("L004800 1011111111111111*\n"));
}

#[test]
fn output_loc_is_honored() {
    let d = device();
    let mut g = inverter(loc(1, Some(15)));
    let go = par(&mut g, &d);
    assert_eq!(go.mcs[1].loc, at(1, 15));
    assert_eq!(go.pterms[0].loc.unwrap().fb, 1);

    let blank = xc2par::bitstream::XC2Bitstream::blank_bitstream("XC2C32A", "4", "vq44").unwrap();
    let mut blank_text = Vec::new();
    blank.write_jed(&mut blank_text, &d.zia);
    let blank_text = String::from_utf8(blank_text).unwrap();
    let text = String::from_utf8(jed(&d, &g, &go)).unwrap();
    // the macrocell records differ from a blank device in two places
    // only: the pad that is read, and the pad that is driven
    let mut changed = Vec::new();
    for fb in 0..2 {
        for mc in 0..16 {
            let addr = fb * 6128 + 5696 + mc * 27;
            let tag = format!("L{:06} ", addr);
            let a = text.find(&tag).unwrap();
            let b = blank_text.find(&tag).unwrap();
            if text[a..a + 7 + 1 + 27] != blank_text[b..b + 7 + 1 + 27] {
                changed.push((fb, mc));
            }
        }
    }
    assert_eq!(changed, vec![(0, 0), (1, 15)]);
    // the output drives push-pull from the XOR gate
    let tag = format!("L{:06} ", 6128 + 5696 + 15 * 27);
    let a = text.find(&tag).unwrap();
    assert_eq!(&text[a + 8..a + 8 + 27], "000001111001111100010000000");
    let b = blank_text.find(&tag).unwrap();
    assert_eq!(&blank_text[b + 8..b + 8 + 27], "000001111001111110011111100");
}

#[test]
fn equal_pterms_share_an_and_term() {
    let d = device();
    let p = || pterm("p", vec![input(InputGraphPTermInputType::Pin, 0)], vec![]);
    let mut r = reg(InputGraphRegClockType::PTerm(2));
    r.ce_input = Some(0);
    r.mode = XC2MCFFMode::DFFCE;
    let mut g = graph(
        vec![pin_input("in", None), buried_reg("r", r, Some(xor(vec![], Some(1))))],
        vec![p(), p(), pterm("clk", vec![], vec![input(InputGraphPTermInputType::Pin, 0)])],
    );
    let go = par(&mut g, &d);
    let l = go.mcs[1].loc.unwrap();
    // both need product term C of the macrocell
    assert_eq!(go.pterms[0].loc, at(l.fb, 3 * l.i + 10));
    assert_eq!(go.pterms[1].loc, go.pterms[0].loc);
    // the clock had to make way to the control term
    assert_eq!(go.pterms[2].loc, at(l.fb, 4));
}

#[test]
fn forty_one_inputs_cannot_be_routed() {
    let d = device();
    let mut mcs = Vec::new();
    let mut ins = Vec::new();
    for k in 0..21 {
        mcs.push(buried_reg(
            "src",
            reg(InputGraphRegClockType::PTerm(1)),
            Some(xor(vec![], None)),
        ));
        mcs[k].xor_feedback_used = false;
        ins.push(input(InputGraphPTermInputType::Reg, k));
        if k < 20 {
            ins.push(input(InputGraphPTermInputType::Xor, k));
        }
    }
    assert_eq!(ins.len(), 41);
    mcs.push(pin_output("out", None, vec![0]));
    let pterms = vec![pterm("wide", ins, vec![]), pterm("clk", vec![], vec![])];
    let mut g = graph(mcs, pterms);

    // one block alone reports the excess
    let mut go = OutputGraph::from_input_graph(&g);
    assert_eq!(do_par_sanity_check(&mut g, &d), PARSanityResult::Passed);
    let pl = greedy_initial_placement(&mut g, &mut go, &d).unwrap();
    let out_fb = go.mcs[21].loc.unwrap().fb as usize;
    match try_assign_zia(&g, &mut go, &pl[out_fb], &d) {
        ZIAAssignmentResult::FailureTooManyInputs(x) => assert_eq!(x, 1),
        _ => panic!("expected too many inputs"),
    }

    let mut options = XC2ParOptions::new();
    options.max_iter(20);
    match do_par(&mut g, &d, &options) {
        PARResult::FailureIterationsExceeded => {},
        other => panic!("expected the rounds to run out, got {:?}", other),
    }
}

#[test]
fn ptc_for_two_different_pterms_is_rejected() {
    let d = device();
    let mut r = reg(InputGraphRegClockType::PTerm(2));
    r.ce_input = Some(0);
    let mut g = graph(
        vec![pin_input("a", None), pin_input("b", None), buried_reg("r", r, Some(xor(vec![], Some(1))))],
        vec![
            pterm("ce", vec![input(InputGraphPTermInputType::Pin, 0)], vec![]),
            pterm("x", vec![input(InputGraphPTermInputType::Pin, 1)], vec![]),
            pterm("clk", vec![], vec![]),
        ],
    );
    assert_eq!(do_par_sanity_check(&mut g, &d), PARSanityResult::FailurePTCNeverSatisfiable);
    match do_par(&mut g, &d, &XC2ParOptions::new()) {
        PARResult::FailureSanity(PARSanityResult::FailurePTCNeverSatisfiable) => {},
        other => panic!("unexpected {:?}", other),
    }
}

// ---- boundaries ---------------------------------------------------------

fn combs(n: usize) -> InputGraph {
    let mut mcs = Vec::new();
    for _ in 0..n {
        mcs.push(buried_comb("c", vec![]));
    }
    graph(mcs, vec![])
}

#[test]
fn thirty_two_buried_macrocells_fit() {
    let d = device();
    let mut g = combs(32);
    let go = par(&mut g, &d);
    for k in 0..32 {
        assert_eq!(go.mcs[k].loc, at((k / 16) as u32, (k % 16) as u32));
    }
}

#[test]
fn thirty_three_buried_macrocells_do_not_fit() {
    let d = device();
    let mut g = combs(33);
    match do_par(&mut g, &d, &XC2ParOptions::new()) {
        PARResult::FailureSanity(PARSanityResult::FailureTooManyMCs) => {},
        other => panic!("unexpected {:?}", other),
    }
}

#[test]
fn sixty_five_macrocells_fail_the_sanity_check() {
    let d = device();
    let mut g = combs(65);
    assert_eq!(do_par_sanity_check(&mut g, &d), PARSanityResult::FailureTooManyMCs);
    let mut g = combs(64);
    assert_eq!(do_par_sanity_check(&mut g, &d), PARSanityResult::Passed);
}

/// `n` sources whose XOR and register outputs one output reads, `k`
/// inputs in all.
fn wide(k: usize) -> InputGraph {
    let mut mcs = Vec::new();
    let mut ins = Vec::new();
    let n = (k + 1) / 2;
    for m in 0..n {
        mcs.push(buried_reg("src", reg(InputGraphRegClockType::PTerm(1)), Some(xor(vec![], None))));
        ins.push(input(InputGraphPTermInputType::Reg, m));
        if ins.len() < k {
            ins.push(input(InputGraphPTermInputType::Xor, m));
        }
    }
    mcs.push(pin_output("out", loc(0, Some(0)), vec![0]));
    let g = graph(mcs, vec![pterm("wide", ins, vec![]), pterm("clk", vec![], vec![])]);
    assert!(g.is_valid());
    g
}

#[test]
fn forty_inputs_route() {
    let d = device();
    let mut g = wide(40);
    let mut go = OutputGraph::from_input_graph(&g);
    let pl = greedy_initial_placement(&mut g, &mut go, &d).unwrap();
    match try_assign_zia(&g, &mut go, &pl[0], &d) {
        ZIAAssignmentResult::Success(zia) => {
            for r in 0..40 {
                assert_ne!(zia.get(r), XC2ZIAInput::One);
            }
        },
        _ => panic!("expected a routing"),
    }
    assert_eq!(go.pterms[0].inputs_true_zia.len(), 40);
}

#[test]
fn forty_one_inputs_are_one_too_many() {
    let d = device();
    let mut g = wide(41);
    let mut go = OutputGraph::from_input_graph(&g);
    let pl = greedy_initial_placement(&mut g, &mut go, &d).unwrap();
    match try_assign_zia(&g, &mut go, &pl[0], &d) {
        ZIAAssignmentResult::FailureTooManyInputs(x) => assert_eq!(x, 1),
        _ => panic!("expected too many inputs"),
    }
}

#[test]
fn no_rounds_means_no_success() {
    let d = device();
    let mut g = inverter(None);
    let mut options = XC2ParOptions::new();
    options.max_iter(0);
    match do_par(&mut g, &d, &options) {
        PARResult::FailureIterationsExceeded => {},
        other => panic!("unexpected {:?}", other),
    }
}

// ---- the pairing rule ---------------------------------------------------

#[test]
fn pairing_rule() {
    let comb = buried_comb("c", vec![]);
    let mut r = buried_reg("r", reg(InputGraphRegClockType::GCK(0)), None);
    let unreg = pin_input("i", None);
    let mut regin = pin_input("ri", None);
    regin.reg_bits = Some(reg(InputGraphRegClockType::GCK(0)));
    let out = pin_output("o", None, vec![]);
    assert_eq!(comb.get_type(), InputGraphMacrocellType::BuriedComb);
    assert_eq!(r.get_type(), InputGraphMacrocellType::BuriedReg);
    assert_eq!(unreg.get_type(), InputGraphMacrocellType::PinInputUnreg);
    assert_eq!(regin.get_type(), InputGraphMacrocellType::PinInputReg);
    assert_eq!(out.get_type(), InputGraphMacrocellType::PinOutput);

    assert!(mcs_can_be_paired(&comb, &unreg));
    assert!(mcs_can_be_paired(&comb, &regin));
    assert!(mcs_can_be_paired(&r, &unreg));
    assert!(!mcs_can_be_paired(&r, &regin));
    assert!(!mcs_can_be_paired(&out, &unreg));
    assert!(!mcs_can_be_paired(&unreg, &comb));
    assert!(!mcs_can_be_paired(&comb, &comb));
    r.xor_feedback_used = true;
    assert!(!mcs_can_be_paired(&r, &unreg));
}

// ---- what holds after every success -------------------------------------

/// A design with registers, a global clock, shared inputs and location
/// requests.
fn counter() -> InputGraph {
    let mut mcs = vec![
        pin_input("clk", None),
        pin_input("en", loc(1, None)),
        pin_input("insys", loc(2, Some(0))),
    ];
    let mut pterms = Vec::new();
    for k in 0..4 {
        let me = mcs.len();
        let mut r = reg(InputGraphRegClockType::GCK(0));
        r.reset_input = Some(InputGraphRegRSType::PTerm(pterms.len()));
        pterms.push(pterm("rst", vec![input(InputGraphPTermInputType::Pin, 2)], vec![]));
        let mut ors = Vec::new();
        ors.push(pterms.len());
        pterms.push(pterm(
            "hold",
            vec![input(InputGraphPTermInputType::Reg, me)],
            vec![input(InputGraphPTermInputType::Pin, 1)],
        ));
        ors.push(pterms.len());
        let mut carry = vec![input(InputGraphPTermInputType::Pin, 1)];
        for j in 0..k {
            carry.push(input(InputGraphPTermInputType::Reg, 3 + j));
        }
        pterms.push(pterm("toggle", carry, vec![input(InputGraphPTermInputType::Reg, me)]));
        let mut c = InputGraphMacrocell {
            name: "bit".to_owned(),
            requested_loc: if k == 3 { loc(0, Some(9)) } else { None },
            io_bits: Some(io(Some(InputGraphIOInputType::Reg), None)),
            reg_bits: Some(r),
            xor_bits: Some(xor(ors, None)),
            io_feedback_used: false,
            reg_feedback_used: true,
            xor_feedback_used: false,
        };
        if k == 2 {
            c.io_bits = None;
        }
        mcs.push(c);
    }
    pterms[1].requested_loc = loc(0, Some(20));
    let mut g = graph(mcs, pterms);
    g.bufg_clks.push(InputGraphBufgClk { name: "bufg".to_owned(), requested_loc: None, input: 0 });
    assert!(g.is_valid());
    g
}

fn check_placement(g: &InputGraph, d: &DeviceSpec, go: &OutputGraph) {
    // every macrocell has a site of its own half that exists
    for i in 0..g.mcs.len() {
        let l = go.mcs[i].loc.unwrap();
        assert!(l.fb < 3 && l.i < 16);
        let pin = g.mcs[i].get_type().is_pininput();
        if l.fb == 2 {
            assert!(l.i == 0 && pin);
        }
        for j in 0..i {
            if g.mcs[j].get_type().is_pininput() == pin {
                assert_ne!(go.mcs[j].loc, go.mcs[i].loc);
            } else if go.mcs[j].loc == go.mcs[i].loc {
                // the two share a site: they obey the pairing rule
                let (lg, pn) = if pin { (j, i) } else { (i, j) };
                assert!(mcs_can_be_paired(&g.mcs[lg], &g.mcs[pn]));
            }
        }
        // location requests are honored
        if let Some(r) = g.mcs[i].requested_loc {
            assert_eq!(r.fb, l.fb);
            if let Some(ri) = r.i {
                assert_eq!(ri, l.i);
            }
        }
    }
    // product terms on one AND term are structurally equal
    for p in 0..g.pterms.len() {
        if let Some(l) = go.pterms[p].loc {
            assert!(l.fb < 2 && l.i < 56);
            for q in 0..p {
                if go.pterms[q].loc == go.pterms[p].loc {
                    assert!(g.pterms[p].equals(&g.pterms[q]));
                }
            }
            if let Some(RequestedLocation { i: Some(ri), .. }) = g.pterms[p].requested_loc {
                assert_eq!(ri, l.i);
            }
            // every row of the product term carries the signal of its input
            let zia = &go.zia[l.fb as usize];
            let check = |ins: &Vec<InputGraphPTermInput>, rows: &Vec<u32>| {
                assert_eq!(ins.len(), rows.len());
                for k in 0..ins.len() {
                    let src = &g.mcs[ins[k].mc];
                    let sl = go.mcs[ins[k].mc].loc.unwrap();
                    let ibuf = XC2ZIAInput::IBuf { ibuf: (sl.fb * 16 + sl.i) as u16 };
                    let fbk = XC2ZIAInput::Macrocell { fb: sl.fb as u8, mc: sl.i as u8 };
                    let want = match ins[k].kind {
                        InputGraphPTermInputType::Pin => {
                            if sl.fb == 2 {
                                XC2ZIAInput::DedicatedInput
                            } else {
                                ibuf
                            }
                        },
                        InputGraphPTermInputType::Xor => fbk,
                        InputGraphPTermInputType::Reg => {
                            if src.xor_feedback_used
                                || src.get_type() == InputGraphMacrocellType::PinInputReg
                            {
                                ibuf
                            } else {
                                fbk
                            }
                        },
                    };
                    assert_eq!(zia.get(rows[k] as usize), want);
                    assert!(d.zia.row_offers(rows[k] as usize, want));
                }
            };
            check(&g.pterms[p].inputs_true, &go.pterms[p].inputs_true_zia);
            check(&g.pterms[p].inputs_comp, &go.pterms[p].inputs_comp_zia);
        }
    }
}

#[test]
fn invariants_hold_after_success() {
    for table in [full_table(), sparse_table()] {
        let d = device_with(table);
        let mut g = counter();
        let go = par(&mut g, &d);
        check_placement(&g, &d, &go);
        // every product term in use has a location
        for p in 0..g.pterms.len() {
            assert!(go.pterms[p].loc.is_some());
        }
        // the global clock buffer sits on a site, and its pad on the pad
        // of that site
        let b = go.bufg_clks[0].loc.unwrap();
        assert_eq!(b, AssignedLocation { fb: 0, i: 0 });
        assert_eq!(go.mcs[0].loc, at(1, 4));
        assert_eq!(g.mcs[0].requested_loc, loc(1, Some(4)));
        // the pin that asked for the dedicated input is there
        assert_eq!(go.mcs[2].loc, at(2, 0));
        assert_eq!(go.mcs[6].loc, at(0, 9));
        assert_eq!(go.pterms[1].loc, at(go.mcs[3].loc.unwrap().fb, 20));
    }
}

#[test]
fn two_runs_give_the_same_jedec() {
    let d = device_with(sparse_table());
    let mut g1 = counter();
    let mut g2 = counter();
    let go1 = par(&mut g1, &d);
    let go2 = par(&mut g2, &d);
    assert_eq!(jed(&d, &g1, &go1), jed(&d, &g2, &go2));
}

#[test]
fn two_runs_with_repair_give_the_same_jedec() {
    let d = device();
    let mut g1 = crowded();
    let mut g2 = crowded();
    let go1 = par(&mut g1, &d);
    let go2 = par(&mut g2, &d);
    let locs1: Vec<_> = go1.mcs.iter().map(|m| m.loc).collect();
    let locs2: Vec<_> = go2.mcs.iter().map(|m| m.loc).collect();
    assert_eq!(locs1, locs2);
    assert_eq!(jed(&d, &g1, &go1), jed(&d, &g2, &go2));

    // another seed may end elsewhere, but it ends well
    let mut g3 = crowded();
    let mut options = XC2ParOptions::new();
    options.with_prng_seed([7, 11, 13, 17]);
    match do_par(&mut g3, &d, &options) {
        PARResult::Success(go3) => check_placement(&g3, &d, &go3),
        other => panic!("place and route failed: {:?}", other),
    }
}

#[test]
fn jedec_of_a_placed_netlist_reads_back() {
    let d = device();
    let mut g = inverter(loc(1, Some(15)));
    let go = par(&mut g, &d);
    let text = jed(&d, &g, &go);
    let read = read_jed(&text).unwrap();
    assert_eq!(read.fuses.len(), 12278);
    assert_eq!(read.device, Some(b"XC2C32A-4-vq44".to_vec()));
    let again = process_jed(&read.fuses, "XC2C32A-4-vq44", &d.zia).unwrap();
    let mut rewritten = Vec::new();
    again.write_jed(&mut rewritten, &d.zia);
    assert_eq!(rewritten, text);
}

// ---- repair -------------------------------------------------------------

/// Two outputs that each read 24 inputs of their own: greedy placement
/// puts both into block 0, which has rows for 40 inputs only.
fn crowded() -> InputGraph {
    let mut mcs = Vec::new();
    for _ in 0..24 {
        mcs.push(buried_comb("s", vec![]));
    }
    let a: Vec<_> = (0..12)
        .flat_map(|m| {
            vec![input(InputGraphPTermInputType::Xor, m), input(InputGraphPTermInputType::Reg, m)]
        })
        .collect();
    let b: Vec<_> = (12..24)
        .flat_map(|m| {
            vec![input(InputGraphPTermInputType::Xor, m), input(InputGraphPTermInputType::Reg, m)]
        })
        .collect();
    let mut g = graph(mcs, vec![pterm("a", a, vec![]), pterm("b", b, vec![])]);
    // the two readers come first, so that greedy placement puts them
    // side by side
    g.mcs.insert(0, buried_comb("ra", vec![0]));
    g.mcs.insert(1, buried_comb("rb", vec![1]));
    for pt in g.pterms.iter_mut() {
        for x in pt.inputs_true.iter_mut() {
            x.mc += 2;
        }
    }
    assert!(g.is_valid());
    g
}

#[test]
fn repair_moves_a_macrocell_to_the_other_block() {
    let d = device();
    let mut g = crowded();

    // greedy placement alone does not do
    let mut trial = crowded();
    let mut go = OutputGraph::from_input_graph(&trial);
    let pl = greedy_initial_placement(&mut trial, &mut go, &d).unwrap();
    assert_eq!(pl[0][0].0, PARMCAssignment::MC(0));
    assert_eq!(pl[0][1].0, PARMCAssignment::MC(1));
    let (results, violations, score) = try_assign_entire_chip(&trial, &mut go, &pl, &d);
    assert!(results[0].is_none());
    assert!(results[1].is_some());
    assert!(score > 0);
    assert!(!violations.is_empty());
    assert_eq!(violations.entries(), vec![((0, 0, false), 8), ((0, 1, false), 8)]);
    assert_eq!(violations.pick(0), (0, 0, false));
    assert_eq!(violations.pick(7), (0, 0, false));
    assert_eq!(violations.pick(8), (0, 1, false));

    let go = par(&mut g, &d);
    check_placement(&g, &d, &go);
    assert_ne!(go.mcs[0].loc.unwrap().fb, go.mcs[1].loc.unwrap().fb);
}

/// Like `crowded`, but the first of the two readers asks for block 0:
/// only moving the second one helps.
fn crowded_and_held() -> InputGraph {
    let mut g = crowded();
    g.mcs[0].requested_loc = loc(0, None);
    assert!(g.is_valid());
    g
}

#[test]
fn repair_draws_the_macrocell_that_can_move() {
    let d = device();
    let mut trial = crowded_and_held();
    let mut go = OutputGraph::from_input_graph(&trial);
    let pl = greedy_initial_placement(&mut trial, &mut go, &d).unwrap();
    let (_, violations, score) = try_assign_entire_chip(&trial, &mut go, &pl, &d);
    // both readers are at fault, the held one first: a draw that is
    // always the lowest would never get to the second
    assert_eq!(violations.entries(), vec![((0, 0, false), 8), ((0, 1, false), 8)]);
    assert_eq!(score, 16);
    assert_eq!(pl[0][0].0, PARMCAssignment::MC(0));

    let mut g = crowded_and_held();
    let go = par(&mut g, &d);
    check_placement(&g, &d, &go);
    assert_eq!(go.mcs[0].loc.unwrap().fb, 0);
    assert_eq!(go.mcs[1].loc.unwrap().fb, 1);
}

// ---- sanity check -------------------------------------------------------

#[test]
fn too_many_distinct_pterms() {
    let d = device();
    let mut pterms = Vec::new();
    let mut mcs = Vec::new();
    for k in 0..8 {
        mcs.push(pin_input("i", None));
        let _ = k;
    }
    // 113 product terms that all differ: the subsets of seven pins in
    // counting order
    for k in 1..=113usize {
        let mut ins = Vec::new();
        for b in 0..7 {
            if (k >> b) & 1 == 1 {
                ins.push(input(InputGraphPTermInputType::Pin, b));
            }
        }
        pterms.push(pterm("p", ins, vec![]));
    }
    let mut g = graph(mcs.clone(), pterms.clone());
    assert_eq!(do_par_sanity_check(&mut g, &d), PARSanityResult::FailureTooManyPTerms);
    // a product term that equals another in another order does not count
    pterms.pop();
    pterms.push(pterm(
        "again",
        vec![input(InputGraphPTermInputType::Pin, 1), input(InputGraphPTermInputType::Pin, 0)],
        vec![],
    ));
    let mut g = graph(mcs, pterms);
    assert_eq!(do_par_sanity_check(&mut g, &d), PARSanityResult::Passed);
}

#[test]
fn too_many_global_buffers() {
    let d = device();
    let base = || graph(vec![pin_input("i", None)], vec![]);
    let clk = || InputGraphBufgClk { name: "c".to_owned(), requested_loc: None, input: 0 };
    let gts = || InputGraphBufgGTS { name: "t".to_owned(), requested_loc: None, input: 0, invert: false };
    let gsr = || InputGraphBufgGSR { name: "s".to_owned(), requested_loc: None, input: 0, invert: false };

    let mut g = base();
    g.bufg_clks = vec![clk(), clk(), clk(), clk()];
    assert_eq!(do_par_sanity_check(&mut g, &d), PARSanityResult::FailureTooManyBufgClk);
    let mut g = base();
    g.bufg_gts = vec![gts(), gts(), gts(), gts(), gts()];
    assert_eq!(do_par_sanity_check(&mut g, &d), PARSanityResult::FailureTooManyBufgGTS);
    let mut g = base();
    g.bufg_gsr = vec![gsr(), gsr()];
    assert_eq!(do_par_sanity_check(&mut g, &d), PARSanityResult::FailureTooManyBufgGSR);
}

#[test]
fn global_buffer_pins_its_pad() {
    let d = device();
    let mut g = graph(vec![pin_input("c", loc(1, None)), pin_input("r", None)], vec![]);
    g.bufg_clks.push(InputGraphBufgClk { name: "b".to_owned(), requested_loc: loc(0, Some(2)), input: 0 });
    g.bufg_gsr.push(InputGraphBufgGSR {
        name: "s".to_owned(),
        requested_loc: loc(0, Some(0)),
        input: 1,
        invert: true,
    });
    assert!(g.is_valid());
    assert_eq!(do_par_sanity_check(&mut g, &d), PARSanityResult::Passed);
    assert_eq!(g.mcs[0].requested_loc, loc(1, Some(6)));
    assert_eq!(g.mcs[1].requested_loc, loc(0, Some(7)));

    let go = par(&mut g, &d);
    assert_eq!(go.bufg_clks[0].loc, at(0, 2));
    assert_eq!(go.bufg_gsr[0].loc, at(0, 0));
    assert_eq!(go.mcs[0].loc, at(1, 6));
    assert_eq!(go.mcs[1].loc, at(0, 7));
    let b = produce_bitstream(&d, &g, &go);
    match b.bits {
        XC2BitstreamBits::XC2C32A { global_nets, .. } => {
            assert_eq!(global_nets.gck_enable, [false, false, true]);
            assert!(global_nets.gsr_enable);
            assert!(global_nets.gsr_invert);
            assert_eq!(global_nets.gts_enable, [false; 4]);
        },
        _ => panic!("wrong part"),
    }
}

#[test]
fn global_buffer_on_the_wrong_pad() {
    let d = device();
    let mut g = graph(vec![pin_input("c", loc(0, None))], vec![]);
    g.bufg_clks.push(InputGraphBufgClk { name: "b".to_owned(), requested_loc: loc(0, Some(2)), input: 0 });
    assert_eq!(do_par_sanity_check(&mut g, &d), PARSanityResult::FailureGlobalNetWrongLoc);
    let mut g = graph(vec![pin_input("c", loc(1, Some(5)))], vec![]);
    g.bufg_clks.push(InputGraphBufgClk { name: "b".to_owned(), requested_loc: loc(0, Some(2)), input: 0 });
    assert_eq!(do_par_sanity_check(&mut g, &d), PARSanityResult::FailureGlobalNetWrongLoc);
}

// ---- greedy placement ---------------------------------------------------

#[test]
fn greedy_resolves_buffer_from_pinned_pad() {
    let d = device();
    let mut g = graph(vec![pin_input("t", loc(0, Some(3)))], vec![]);
    g.bufg_gts.push(InputGraphBufgGTS { name: "b".to_owned(), requested_loc: None, input: 0, invert: true });
    let mut go = OutputGraph::from_input_graph(&g);
    let pl = greedy_initial_placement(&mut g, &mut go, &d).unwrap();
    assert_eq!(g.bufg_gts[0].requested_loc, loc(0, Some(2)));
    assert_eq!(go.bufg_gts[0].loc, at(0, 2));
    assert_eq!(pl[0][3].1, PARMCAssignment::MC(0));
    assert_eq!(pl.len(), 3);
    assert_eq!(pl[2][0], (PARMCAssignment::Banned, PARMCAssignment::Empty));
    assert_eq!(pl[2][1], (PARMCAssignment::Banned, PARMCAssignment::Banned));
}

#[test]
fn greedy_fails_when_pad_is_no_site_of_the_net() {
    let d = device();
    let mut g = graph(vec![pin_input("t", loc(1, Some(3)))], vec![]);
    g.bufg_gts.push(InputGraphBufgGTS { name: "b".to_owned(), requested_loc: None, input: 0, invert: true });
    let mut go = OutputGraph::from_input_graph(&g);
    assert!(greedy_initial_placement(&mut g, &mut go, &d).is_none());
}

#[test]
fn greedy_fails_on_two_macrocells_for_one_site() {
    let d = device();
    let mut a = buried_comb("a", vec![]);
    a.requested_loc = loc(0, Some(4));
    let mut b = buried_comb("b", vec![]);
    b.requested_loc = loc(0, Some(4));
    let mut g = graph(vec![a, b], vec![]);
    let mut go = OutputGraph::from_input_graph(&g);
    assert!(greedy_initial_placement(&mut g, &mut go, &d).is_none());
}

#[test]
fn greedy_fails_on_a_pair_that_does_not_fit() {
    let d = device();
    let mut a = pin_output("a", loc(0, Some(4)), vec![]);
    a.requested_loc = loc(0, Some(4));
    let mut g = graph(vec![a, pin_input("b", loc(0, Some(4)))], vec![]);
    let mut go = OutputGraph::from_input_graph(&g);
    assert!(greedy_initial_placement(&mut g, &mut go, &d).is_none());
}

#[test]
fn greedy_takes_the_first_site_that_fits() {
    let d = device();
    // in the order of the netlist: one macrocell anywhere, one in block
    // 1, one at fb0.mc0, one pin input anywhere, one more anywhere
    let mut in_block = buried_comb("b", vec![]);
    in_block.requested_loc = loc(1, None);
    let mut at_site = buried_comb("c", vec![]);
    at_site.requested_loc = loc(0, Some(0));
    let mut g = graph(
        vec![buried_comb("a", vec![]), in_block, at_site, pin_input("d", None), buried_comb("e", vec![])],
        vec![],
    );
    let mut go = OutputGraph::from_input_graph(&g);
    let pl = greedy_initial_placement(&mut g, &mut go, &d).unwrap();
    // the named site first, then the named block, then the rest in order
    assert_eq!(pl[0][0], (PARMCAssignment::MC(2), PARMCAssignment::MC(3)));
    assert_eq!(pl[0][1], (PARMCAssignment::MC(0), PARMCAssignment::Empty));
    assert_eq!(pl[0][2], (PARMCAssignment::MC(4), PARMCAssignment::Empty));
    assert_eq!(pl[1][0], (PARMCAssignment::MC(1), PARMCAssignment::Empty));
    for m in 3..16 {
        assert_eq!(pl[0][m], (PARMCAssignment::Empty, PARMCAssignment::Empty));
    }
    for m in 1..16 {
        assert_eq!(pl[1][m], (PARMCAssignment::Empty, PARMCAssignment::Empty));
    }
    assert_eq!(go.mcs[0].loc, at(0, 1));
    assert_eq!(go.mcs[1].loc, at(1, 0));
    assert_eq!(go.mcs[2].loc, at(0, 0));
    assert_eq!(go.mcs[3].loc, at(0, 0));
    assert_eq!(go.mcs[4].loc, at(0, 2));
}

#[test]
fn greedy_passes_a_site_whose_logic_half_cannot_pair() {
    let d = device();
    // a registered macrocell that feeds back through its XOR cannot
    // share a site with a pin input
    let mut r = buried_reg("r", reg(InputGraphRegClockType::GCK(0)), Some(xor(vec![], None)));
    r.xor_feedback_used = true;
    let mut g = graph(vec![r, pin_input("i", None)], vec![]);
    let mut go = OutputGraph::from_input_graph(&g);
    let pl = greedy_initial_placement(&mut g, &mut go, &d).unwrap();
    assert_eq!(pl[0][0], (PARMCAssignment::MC(0), PARMCAssignment::Empty));
    assert_eq!(pl[0][1], (PARMCAssignment::Empty, PARMCAssignment::MC(1)));
}

#[test]
fn greedy_fails_when_a_block_is_full() {
    let d = device();
    let mut mcs = Vec::new();
    for _ in 0..17 {
        let mut m = buried_comb("m", vec![]);
        m.requested_loc = loc(1, None);
        mcs.push(m);
    }
    let mut g = graph(mcs, vec![]);
    let mut go = OutputGraph::from_input_graph(&g);
    assert!(greedy_initial_placement(&mut g, &mut go, &d).is_none());
    assert!(go.mcs.iter().all(|m| m.loc.is_none()));
}

#[test]
fn buffers_take_the_first_free_site_that_suits() {
    let pads = vec![(1u32, 4u32), (1, 5), (1, 6)];
    let mut mcs = vec![pin_input("a", None), pin_input("b", loc(1, Some(4))), pin_input("c", loc(1, None))];
    let reqs = vec![
        BufferRequest { index: None, input: 0 },
        BufferRequest { index: Some(0), input: 1 },
        BufferRequest { index: None, input: 2 },
    ];
    // site 0 is asked for, so the others take sites 1 and 2 in turn
    assert_eq!(assign_buffer_sites(&reqs, &mut mcs, &pads), Some(vec![1, 0, 2]));
    assert_eq!(mcs[0].requested_loc, loc(1, Some(5)));
    assert_eq!(mcs[1].requested_loc, loc(1, Some(4)));
    assert_eq!(mcs[2].requested_loc, loc(1, Some(6)));

    // a macrocell that asks for another block finds no pad
    let mut mcs = vec![pin_input("a", loc(0, None))];
    let reqs = vec![BufferRequest { index: None, input: 0 }];
    assert_eq!(assign_buffer_sites(&reqs, &mut mcs, &pads), None);
    assert_eq!(mcs[0].requested_loc, loc(0, None));

    // two buffers ask for one site
    let mut mcs = vec![pin_input("a", None), pin_input("b", None)];
    let reqs = vec![BufferRequest { index: Some(2), input: 0 }, BufferRequest { index: Some(2), input: 1 }];
    assert_eq!(assign_buffer_sites(&reqs, &mut mcs, &pads), None);

    // one macrocell drives two buffers: the second would need the pad again
    let mut mcs = vec![pin_input("a", None)];
    let reqs = vec![BufferRequest { index: None, input: 0 }, BufferRequest { index: None, input: 0 }];
    assert_eq!(assign_buffer_sites(&reqs, &mut mcs, &pads), None);
    assert_eq!(mcs[0].requested_loc, loc(1, Some(4)));

    // no buffers, nothing to do
    let mut mcs = vec![pin_input("a", None)];
    assert_eq!(assign_buffer_sites(&Vec::new(), &mut mcs, &pads), Some(Vec::new()));
    assert_eq!(mcs[0].requested_loc, None);
}

#[test]
fn pinned_pads_resolve_buffer_sites() {
    let pads = vec![(0u32, 5u32), (0, 6), (0, 3), (0, 4)];
    let mcs = vec![
        pin_input("a", loc(0, Some(3))),
        pin_input("b", loc(0, None)),
        pin_input("c", None),
        pin_input("d", loc(0, Some(6))),
    ];
    let mut reqs = vec![
        BufferRequest { index: None, input: 0 },
        BufferRequest { index: None, input: 1 },
        BufferRequest { index: None, input: 2 },
        BufferRequest { index: Some(0), input: 3 },
    ];
    assert!(resolve_buffer_indices(&mut reqs, &mcs, &pads));
    assert_eq!(reqs[0].index, Some(2));
    assert_eq!(reqs[1].index, None);
    assert_eq!(reqs[2].index, None);
    assert_eq!(reqs[3].index, Some(0));

    let mcs = vec![pin_input("a", loc(1, Some(3)))];
    let mut reqs = vec![BufferRequest { index: None, input: 0 }];
    assert!(!resolve_buffer_indices(&mut reqs, &mcs, &pads));
}

#[test]
fn violations_are_listed_in_order() {
    let mut v = PlacementViolations::new();
    v.set(1, 3, true, 5);
    v.set(0, 15, false, 2);
    v.set(1, 3, false, 7);
    v.set(2, 0, true, 1);
    assert_eq!(v.len(), 4);
    assert_eq!(v.sum(), 15);
    assert!(!v.is_empty());
    assert_eq!(
        v.entries(),
        vec![((0, 15, false), 2), ((1, 3, false), 7), ((1, 3, true), 5), ((2, 0, true), 1)]
    );
    // each half owns as many numbers as its score says
    assert_eq!(v.pick(0), (0, 15, false));
    assert_eq!(v.pick(1), (0, 15, false));
    assert_eq!(v.pick(2), (1, 3, false));
    assert_eq!(v.pick(8), (1, 3, false));
    assert_eq!(v.pick(9), (1, 3, true));
    assert_eq!(v.pick(13), (1, 3, true));
    assert_eq!(v.pick(14), (2, 0, true));
    v.set(1, 3, false, 0);
    assert_eq!(v.len(), 3);
    assert_eq!(v.get(1, 3, false), 0);
    assert_eq!(v.pick(2), (1, 3, true));
}

// ---- AND terms ----------------------------------------------------------

fn block_with(g: &InputGraph, sites: &[(usize, usize)]) -> PARFBAssignment {
    let mut a = [(PARMCAssignment::Empty, PARMCAssignment::Empty); 16];
    for &(site, m) in sites {
        if g.mcs[m].get_type().is_pininput() {
            a[site].1 = PARMCAssignment::MC(m);
        } else {
            a[site].0 = PARMCAssignment::MC(m);
        }
    }
    a
}

#[test]
fn andterm_sites_of_special_functions() {
    let mut r = reg(InputGraphRegClockType::PTerm(0));
    r.set_input = Some(InputGraphRegRSType::PTerm(1));
    r.reset_input = Some(InputGraphRegRSType::PTerm(2));
    r.ce_input = Some(3);
    let mut c = buried_reg("r", r, Some(xor(vec![5, 6], Some(3))));
    c.io_bits = Some(io(Some(InputGraphIOInputType::Reg), Some(InputGraphIOOEType::PTerm(4))));
    let mut pterms = Vec::new();
    for k in 0..7 {
        pterms.push(pterm("p", vec![input(InputGraphPTermInputType::Pin, k % 2)], vec![]));
    }
    // seven product terms that all differ
    for (k, pt) in pterms.iter_mut().enumerate() {
        if k >= 2 {
            pt.inputs_comp.push(input(InputGraphPTermInputType::Xor, 2));
        }
        if k >= 4 {
            pt.inputs_true.push(input(InputGraphPTermInputType::Reg, 2));
        }
        if k >= 6 {
            pt.inputs_comp.push(input(InputGraphPTermInputType::Reg, 2));
        }
    }
    pterms[5].inputs_comp.push(input(InputGraphPTermInputType::Pin, 0));
    let g = graph(vec![pin_input("a", None), pin_input("b", None), c], pterms);
    let mut go = OutputGraph::from_input_graph(&g);
    let a = block_with(&g, &[(2, 2)]);
    assert_eq!(try_assign_andterms(&g, &mut go, &a, 1), AndTermAssignmentResult::Success);
    // macrocell 2: product terms A, B, C are 14, 15, 16
    assert_eq!(go.pterms[4].loc, at(1, 15)); // output enable: PTB
    assert_eq!(go.pterms[3].loc, at(1, 16)); // XOR input and clock enable: PTC
    assert_eq!(go.pterms[0].loc, at(1, 4)); // clock: PTC is taken, so CTC
    assert_eq!(go.pterms[1].loc, at(1, 14)); // set: PTA
    assert_eq!(go.pterms[2].loc, at(1, 5)); // reset: PTA is taken, so CTR
    assert_eq!(go.pterms[5].loc, at(1, 0)); // OR-term inputs take what is free
    assert_eq!(go.pterms[6].loc, at(1, 1));
}

#[test]
fn andterm_loc_that_cannot_be_met() {
    let mut r = reg(InputGraphRegClockType::PTerm(0));
    r.ce_input = Some(1);
    let c = buried_reg("r", r, Some(xor(vec![2], None)));
    let mut pterms = vec![
        pterm("clk", vec![], vec![]),
        pterm("ce", vec![], vec![]),
        pterm("or", vec![], vec![]),
    ];
    pterms[0].requested_loc = loc(0, Some(30));
    pterms[1].requested_loc = loc(0, Some(31));
    pterms[2].requested_loc = loc(0, Some(60));
    let g = graph(vec![c], pterms);
    let mut go = OutputGraph::from_input_graph(&g);
    let a = block_with(&g, &[(0, 0)]);
    assert_eq!(
        try_assign_andterms(&g, &mut go, &a, 0),
        AndTermAssignmentResult::FailurePtermLOCUnsatisfiable(3)
    );
    assert!(go.pterms[0].loc.is_none());
}

#[test]
fn andterm_loc_that_can_be_met() {
    let c = buried_reg("r", reg(InputGraphRegClockType::PTerm(0)), Some(xor(vec![1], None)));
    let mut pterms = vec![pterm("clk", vec![], vec![]), pterm("or", vec![input(InputGraphPTermInputType::Reg, 0)], vec![])];
    pterms[0].requested_loc = loc(0, Some(4));
    pterms[1].requested_loc = loc(0, Some(55));
    let g = graph(vec![c], pterms);
    let mut go = OutputGraph::from_input_graph(&g);
    let a = block_with(&g, &[(0, 0)]);
    assert_eq!(try_assign_andterms(&g, &mut go, &a, 0), AndTermAssignmentResult::Success);
    assert_eq!(go.pterms[0].loc, at(0, 4));
    assert_eq!(go.pterms[1].loc, at(0, 55));
}

#[test]
fn andterms_run_out() {
    // two macrocells that both need product term C of their site for
    // different product terms cannot be helped; here the clock enable and
    // the XOR input of one site differ
    let mut r = reg(InputGraphRegClockType::GCK(0));
    r.ce_input = Some(0);
    let c = buried_reg("r", r, Some(xor(vec![], Some(1))));
    let mut g = graph(
        vec![pin_input("a", None), c],
        vec![
            pterm("ce", vec![input(InputGraphPTermInputType::Pin, 0)], vec![]),
            pterm("x", vec![], vec![input(InputGraphPTermInputType::Pin, 0)]),
        ],
    );
    g.bufg_clks.push(InputGraphBufgClk { name: "b".to_owned(), requested_loc: None, input: 0 });
    assert!(g.is_valid());
    let mut go = OutputGraph::from_input_graph(&g);
    let a = block_with(&g, &[(0, 1)]);
    assert_eq!(
        try_assign_andterms(&g, &mut go, &a, 0),
        AndTermAssignmentResult::FailurePtermExceeded(1)
    );

    // 57 product terms that all differ are one more than a block has
    let mut pterms = Vec::new();
    let mut ors = Vec::new();
    for k in 1..=57usize {
        let mut ins = Vec::new();
        for b in 0..6 {
            if (k >> b) & 1 == 1 {
                ins.push(input(InputGraphPTermInputType::Xor, 0));
                ins.push(input(InputGraphPTermInputType::Pin, b + 1));
            }
        }
        ors.push(pterms.len());
        pterms.push(pterm("p", ins, vec![]));
    }
    let mut mcs = vec![buried_comb("c", ors)];
    for _ in 0..6 {
        mcs.push(pin_input("i", None));
    }
    let g = graph(mcs, pterms);
    let mut go = OutputGraph::from_input_graph(&g);
    let a = block_with(&g, &[(0, 0)]);
    assert_eq!(
        try_assign_andterms(&g, &mut go, &a, 0),
        AndTermAssignmentResult::FailurePtermExceeded(1)
    );
}

#[test]
fn andterms_left_are_counted_from_the_last_placement() {
    // the first clock can sit on product term C of its site or on the
    // control term; the second must sit on the control term; the third
    // macrocell needs its product term C twice. The search gets three
    // uses deep with the first clock on its own product term, and ends
    // one use deep with the first clock on the control term.
    let pin = |k: usize| input(InputGraphPTermInputType::Pin, k);
    let mut pterms = vec![
        pterm("clk0", vec![pin(3)], vec![]),
        pterm("clk1", vec![], vec![pin(3)]),
        pterm("x2", vec![pin(4)], vec![]),
        pterm("clk2", vec![], vec![pin(4)]),
    ];
    pterms[1].requested_loc = loc(0, Some(4));
    let g = graph(
        vec![
            buried_reg("r0", reg(InputGraphRegClockType::PTerm(0)), Some(xor(vec![], None))),
            buried_reg("r1", reg(InputGraphRegClockType::PTerm(1)), Some(xor(vec![], None))),
            buried_reg("r2", reg(InputGraphRegClockType::PTerm(3)), Some(xor(vec![], Some(2)))),
            pin_input("a", None),
            pin_input("b", None),
        ],
        pterms,
    );
    assert!(g.is_valid());
    let mut go = OutputGraph::from_input_graph(&g);
    let a = block_with(&g, &[(0, 0), (1, 1), (2, 2)]);
    assert_eq!(
        try_assign_andterms(&g, &mut go, &a, 0),
        AndTermAssignmentResult::FailurePtermExceeded(3)
    );
    assert!(go.pterms.iter().all(|p| p.loc.is_none()));

    // without the third macrocell the first clock keeps its own product term
    let a = block_with(&g, &[(0, 0), (1, 1)]);
    assert_eq!(try_assign_andterms(&g, &mut go, &a, 0), AndTermAssignmentResult::Success);
    assert_eq!(go.pterms[0].loc, at(0, 10));
    assert_eq!(go.pterms[1].loc, at(0, 4));
}

// ---- ZIA ----------------------------------------------------------------

#[test]
fn zia_signals_by_kind_of_input() {
    let d = device();
    let mut regin = pin_input("ri", loc(1, Some(2)));
    regin.reg_bits = Some(reg(InputGraphRegClockType::PTerm(0)));
    let mut both = buried_reg("both", reg(InputGraphRegClockType::PTerm(0)), Some(xor(vec![], None)));
    both.xor_feedback_used = true;
    both.requested_loc = loc(1, Some(3));
    let mut plain = buried_reg("plain", reg(InputGraphRegClockType::PTerm(0)), None);
    plain.requested_loc = loc(0, Some(5));
    let reader = pin_output("o", loc(0, Some(0)), vec![0]);
    let mut g = graph(
        vec![pin_input("ded", loc(2, Some(0))), pin_input("pad", loc(0, Some(7))), regin, both, plain, reader],
        vec![pterm(
            "p",
            vec![
                input(InputGraphPTermInputType::Pin, 0),
                input(InputGraphPTermInputType::Pin, 1),
                input(InputGraphPTermInputType::Reg, 2),
                input(InputGraphPTermInputType::Reg, 3),
            ],
            vec![
                input(InputGraphPTermInputType::Xor, 3),
                input(InputGraphPTermInputType::Reg, 4),
                input(InputGraphPTermInputType::Pin, 1),
            ],
        )],
    );
    let mut go = OutputGraph::from_input_graph(&g);
    let pl = greedy_initial_placement(&mut g, &mut go, &d).unwrap();
    let zia = match try_assign_zia(&g, &mut go, &pl[0], &d) {
        ZIAAssignmentResult::Success(zia) => zia,
        _ => panic!("expected a routing"),
    };
    assert_eq!(zia.get(0), XC2ZIAInput::DedicatedInput);
    assert_eq!(zia.get(1), XC2ZIAInput::IBuf { ibuf: 7 });
    assert_eq!(zia.get(2), XC2ZIAInput::IBuf { ibuf: 18 });
    assert_eq!(zia.get(3), XC2ZIAInput::IBuf { ibuf: 19 });
    assert_eq!(zia.get(4), XC2ZIAInput::Macrocell { fb: 1, mc: 3 });
    assert_eq!(zia.get(5), XC2ZIAInput::Macrocell { fb: 0, mc: 5 });
    assert_eq!(zia.get(6), XC2ZIAInput::One);
    assert_eq!(go.pterms[0].inputs_true_zia, vec![0, 1, 2, 3]);
    assert_eq!(go.pterms[0].inputs_comp_zia, vec![4, 5, 1]);
}

#[test]
fn zia_search_backtracks() {
    // rows: 0 offers pads 0 and 1; 1 offers pad 0 only
    let mut table = full_table();
    for r in 0..40 {
        table.rows[r].clear();
    }
    table.rows[0].push(ZIAChoice { input: XC2ZIAInput::IBuf { ibuf: 0 }, bits: code(1) });
    table.rows[0].push(ZIAChoice { input: XC2ZIAInput::IBuf { ibuf: 1 }, bits: code(2) });
    table.rows[1].push(ZIAChoice { input: XC2ZIAInput::IBuf { ibuf: 0 }, bits: code(1) });
    let d = device_with(table);
    let mk = |ins: Vec<InputGraphPTermInput>| {
        graph(
            vec![
                pin_input("a", loc(0, Some(0))),
                pin_input("b", loc(0, Some(1))),
                pin_input("c", loc(0, Some(2))),
                pin_output("o", loc(1, Some(0)), vec![0]),
            ],
            vec![pterm("p", ins, vec![])],
        )
    };
    // pad 0 first takes row 0, and has to give it up for pad 1
    let mut g = mk(vec![input(InputGraphPTermInputType::Pin, 0), input(InputGraphPTermInputType::Pin, 1)]);
    let mut go = OutputGraph::from_input_graph(&g);
    let pl = greedy_initial_placement(&mut g, &mut go, &d).unwrap();
    match try_assign_zia(&g, &mut go, &pl[1], &d) {
        ZIAAssignmentResult::Success(zia) => {
            assert_eq!(zia.get(0), XC2ZIAInput::IBuf { ibuf: 1 });
            assert_eq!(zia.get(1), XC2ZIAInput::IBuf { ibuf: 0 });
        },
        _ => panic!("expected a routing"),
    }
    assert_eq!(go.pterms[0].inputs_true_zia, vec![1, 0]);

    // no row offers pad 2
    let mut g = mk(vec![input(InputGraphPTermInputType::Pin, 0), input(InputGraphPTermInputType::Pin, 2)]);
    let mut go = OutputGraph::from_input_graph(&g);
    let pl = greedy_initial_placement(&mut g, &mut go, &d).unwrap();
    match try_assign_zia(&g, &mut go, &pl[1], &d) {
        ZIAAssignmentResult::FailureUnroutable(x) => assert_eq!(x, 1),
        _ => panic!("expected no routing"),
    }
    assert!(go.pterms[0].inputs_true_zia.is_empty());
}

#[test]
fn inputs_left_are_counted_from_the_last_placement() {
    // rows 0 and 1 offer pads 0 and 2; row 1 alone offers pad 1
    let mut table = full_table();
    for r in 0..40 {
        table.rows[r].clear();
    }
    for r in 0..2 {
        table.rows[r].push(ZIAChoice { input: XC2ZIAInput::IBuf { ibuf: 0 }, bits: code(1) });
        table.rows[r].push(ZIAChoice { input: XC2ZIAInput::IBuf { ibuf: 2 }, bits: code(3) });
    }
    table.rows[1].push(ZIAChoice { input: XC2ZIAInput::IBuf { ibuf: 1 }, bits: code(2) });
    let d = device_with(table);
    let pin = |k: usize| input(InputGraphPTermInputType::Pin, k);
    let mut g = graph(
        vec![
            pin_input("a", loc(0, Some(0))),
            pin_input("b", loc(0, Some(1))),
            pin_input("c", loc(0, Some(2))),
            pin_output("o", loc(1, Some(0)), vec![0]),
        ],
        vec![pterm("p", vec![pin(0), pin(1), pin(2)], vec![])],
    );
    let mut go = OutputGraph::from_input_graph(&g);
    let pl = greedy_initial_placement(&mut g, &mut go, &d).unwrap();
    // with pad 0 on row 0 the search routes two pads; it ends with pad 0
    // on row 1, where pad 1 finds no row
    match try_assign_zia(&g, &mut go, &pl[1], &d) {
        ZIAAssignmentResult::FailureUnroutable(x) => assert_eq!(x, 2),
        _ => panic!("expected no routing"),
    }
}

#[test]
fn zia_assignment_starts_empty() {
    let mut z = PARZIAAssignment::new();
    for r in 0..40 {
        assert_eq!(z.get(r), XC2ZIAInput::One);
    }
    z.set(39, XC2ZIAInput::Zero);
    assert_eq!(z.get(39), XC2ZIAInput::Zero);
    assert_eq!(z.get(38), XC2ZIAInput::One);
}

// ---- scoring ------------------------------------------------------------

#[test]
fn pairing_violation_is_scored_against_what_can_move() {
    let d = device();
    let mut fixed = buried_reg("r", reg(InputGraphRegClockType::PTerm(0)), Some(xor(vec![], None)));
    fixed.xor_feedback_used = true;
    fixed.requested_loc = loc(0, Some(0));
    let g = graph(vec![fixed, pin_input("i", None)], vec![pterm("clk", vec![], vec![])]);
    let mut go = OutputGraph::from_input_graph(&g);
    let mut pl = vec![[(PARMCAssignment::Empty, PARMCAssignment::Empty); 16]; 2];
    let mut last = [(PARMCAssignment::Banned, PARMCAssignment::Banned); 16];
    last[0].1 = PARMCAssignment::Empty;
    pl.push(last);
    pl[0][0] = (PARMCAssignment::MC(0), PARMCAssignment::MC(1));
    go.mcs[0].loc = at(0, 0);
    go.mcs[1].loc = at(0, 0);
    let mut v = PlacementViolations::new();
    assert!(v.is_empty());
    assert_eq!(v.len(), 0);
    let r = try_assign_fb(&g, &mut go, &pl, 0, &mut v, &d);
    assert!(r.is_some());
    assert_eq!(v.get(0, 0, false), 0);
    assert_eq!(v.get(0, 0, true), 1);
    assert_eq!(v.len(), 1);
    assert_eq!(v.sum(), 1);
    assert_eq!(v.entries(), vec![((0, 0, true), 1)]);
}

#[test]
fn from_input_graph_is_blank() {
    let g = counter();
    let go = OutputGraph::from_input_graph(&g);
    assert_eq!(go.mcs.len(), g.mcs.len());
    assert_eq!(go.pterms.len(), g.pterms.len());
    assert_eq!(go.bufg_clks.len(), 1);
    assert_eq!(go.bufg_gts.len(), 0);
    assert_eq!(go.bufg_gsr.len(), 0);
    assert!(go.zia.is_empty());
    assert!(go.mcs.iter().all(|m| m.loc.is_none()));
    assert!(go.pterms.iter().all(|p| p.loc.is_none() && p.inputs_true_zia.is_empty()));
}

#[test]
fn default_options() {
    let o = XC2ParOptions::new();
    assert_eq!(o.max_iter, 1000);
    assert_eq!(o.rng_seed, [0, 0, 0, 1]);
    let mut o = o;
    o.with_prng_seed([1, 2, 3, 4]);
    assert_eq!(o.rng_seed, [1, 2, 3, 4]);
}

#[test]
fn netlist_with_dangling_index_is_not_valid() {
    let mut g = inverter(None);
    g.pterms[0].inputs_comp[0].mc = 2;
    assert!(!g.is_valid());
    let mut g = inverter(None);
    g.mcs[1].xor_bits.as_mut().unwrap().orterm_inputs[0] = 1;
    assert!(!g.is_valid());
    let mut g = inverter(loc(3, None));
    g.mcs[1].requested_loc = loc(3, None);
    assert!(!g.is_valid());
}
