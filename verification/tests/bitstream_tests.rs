use xc2par::jedread::read_jed;
use xc2par::bitstream::process_jed;
use xc2par::bitstream::read_32_global_nets_logical;
use xc2par::bitstream::JedError;
use xc2par::bitstream::XC2Bitstream;
use xc2par::bitstream::XC2BitstreamBits;
use xc2par::bitstream::XC2GlobalNets;
use xc2par::device::device_from_name;
use xc2par::device::fb_mc_num_to_iob_num;
use xc2par::device::iob_num_to_fb_mc_num;
use xc2par::device::DeviceSpec;
use xc2par::device::XC2Device;
use xc2par::device::XC2DeviceSpeedPackage;
use xc2par::fb::XC2BitstreamFB;
use xc2par::iob::read_32_iob_logical;
use xc2par::iob::XC2ExtraIBuf;
use xc2par::iob::XC2IOBOBufMode;
use xc2par::iob::XC2IOBZIAMode;
use xc2par::iob::XC2MCSmallIOB;
use xc2par::mc::get_ctc;
use xc2par::mc::get_cte;
use xc2par::mc::get_ctr;
use xc2par::mc::get_cts;
use xc2par::mc::get_pta;
use xc2par::mc::get_ptb;
use xc2par::mc::get_ptc;
use xc2par::mc::read_32_ff_logical;
use xc2par::mc::XC2MCFeedbackMode;
use xc2par::mc::XC2MCFFClkSrc;
use xc2par::mc::XC2MCFFMode;
use xc2par::mc::XC2MCFFResetSrc;
use xc2par::mc::XC2MCFFSetSrc;
use xc2par::mc::XC2MCXorMode;
use xc2par::mc::XC2MCFF;
use xc2par::zia::XC2ZIAInput;
use xc2par::zia::ZIAChoice;
use xc2par::zia::ZIATable;

fn code(n: usize) -> [bool; 8] {
    let mut bits = [false; 8];
    for k in 0..8 {
        bits[k] = (n >> k) & 1 == 1;
    }
    bits
}

/// A routing table in which row `r` offers the input buffers `r % 32`
/// and `(r + 7) % 32` and the feedback of macrocell `r % 16` of block 1.
fn table() -> ZIATable {
    let mut rows = Vec::new();
    for r in 0..40usize {
        rows.push(vec![
            ZIAChoice { input: XC2ZIAInput::IBuf { ibuf: (r % 32) as u16 }, bits: code(0x7e) },
            ZIAChoice { input: XC2ZIAInput::IBuf { ibuf: ((r + 7) % 32) as u16 }, bits: code(0x7d) },
            ZIAChoice { input: XC2ZIAInput::Macrocell { fb: 1, mc: (r % 16) as u8 }, bits: code(0x7b) },
        ]);
    }
    let t = ZIATable { rows, one_bits: [true; 8], zero_bits: code(0x7f) };
    assert!(t.is_valid());
    t
}

fn blank(device: &str) -> XC2Bitstream {
    XC2Bitstream::blank_bitstream(device, "4", "vq44").unwrap()
}

fn jed(b: &XC2Bitstream, t: &ZIATable) -> String {
    assert!(b.bits.is_encodable(t));
    let mut out = Vec::new();
    b.write_jed(&mut out, t);
    String::from_utf8(out).unwrap()
}

fn repeat(s: &str, n: usize) -> String {
    let mut r = String::new();
    for _ in 0..n {
        r.push_str(s);
    }
    r
}

/// Reads the fuses out of the records of a JEDEC file.
fn fuses_of(text: &str, count: usize) -> Vec<bool> {
    let mut fuses = vec![false; count];
    let mut seen = vec![false; count];
    for line in text.lines() {
        if let Some(rest) = line.strip_prefix('L') {
            let (addr, bits) = rest.split_once(' ').unwrap();
            let addr: usize = addr.parse().unwrap();
            let bits = bits.strip_suffix('*').unwrap();
            for (k, c) in bits.chars().enumerate() {
                assert!(!seen[addr + k]);
                seen[addr + k] = true;
                fuses[addr + k] = c == '1';
            }
        }
    }
    assert!(seen.iter().all(|&s| s));
    fuses
}

// ---- a blank device -----------------------------------------------------

#[test]
fn blank_xc2c32a_jedec() {
    let t = table();
    let text = jed(&blank("XC2C32A"), &t);
    assert!(text.starts_with(
        ".JED fuse map written by xc2bit\nhttps://github.com/azonenberg/openfpga\n\n\x02QF12278*\nN DEVICE XC2C32A-4-vq44*\n\n"
    ));
    assert!(text.ends_with("L012277 1*\n\x030000\n"));
    let lines: Vec<&str> = text.lines().collect();
    // header (3 lines), fuse count, device, empty line
    assert_eq!(lines[3], "\x02QF12278*");
    assert_eq!(lines[4], "N DEVICE XC2C32A-4-vq44*");
    let mut at = 6;
    for fb in 0..2 {
        let base = fb * 6128;
        for i in 0..40 {
            assert_eq!(lines[at], format!("L{:06} 11111111*", base + 8 * i));
            at += 1;
        }
        assert_eq!(lines[at], "");
        at += 1;
        for i in 0..56 {
            assert_eq!(lines[at], format!("L{:06} {}*", base + 320 + 80 * i, repeat("1", 80)));
            at += 1;
        }
        assert_eq!(lines[at], "");
        at += 1;
        for i in 0..56 {
            assert_eq!(lines[at], format!("L{:06} {}*", base + 4800 + 16 * i, repeat("1", 16)));
            at += 1;
        }
        assert_eq!(lines[at], "");
        at += 1;
        for i in 0..16 {
            assert_eq!(
                lines[at],
                format!("L{:06} 000001111001111110011111100*", base + 5696 + 27 * i)
            );
            assert!(lines[at].ends_with("0*"));
            at += 1;
        }
        assert_eq!(lines[at], "");
        at += 1;
    }
    let tail = [
        "L012256 000*",
        "L012259 00*",
        "L012261 11111111*",
        "L012269 1*",
        "L012270 1*",
        "L012271 1*",
        "L012272 11*",
        "L012274 1*",
        "L012275 1*",
        "L012276 1*",
        "L012277 1*",
        "\x030000",
    ];
    assert_eq!(&lines[at..], &tail[..]);
}

#[test]
fn blank_xc2c32_jedec() {
    let t = table();
    let text = jed(&blank("XC2C32"), &t);
    assert!(text.contains("\x02QF12274*\nN DEVICE XC2C32-4-vq44*\n\n"));
    assert!(text.ends_with("L012272 11*\n\x030000\n"));
    assert!(!text.contains("L012274"));
}

#[test]
fn blank_bitstream_rejects_other_devices() {
    assert_eq!(
        XC2Bitstream::blank_bitstream("XC2C64", "4", "vq44").err(),
        Some(JedError::InvalidDevice)
    );
    assert_eq!(
        XC2Bitstream::blank_bitstream("xc2c32", "4", "vq44").err(),
        Some(JedError::InvalidDevice)
    );
    assert_eq!(JedError::InvalidDevice.message(), "invalid device");
    assert!(matches!(blank("XC2C32").bits, XC2BitstreamBits::XC2C32 { .. }));
    assert!(matches!(blank("XC2C32A").bits, XC2BitstreamBits::XC2C32A { .. }));
}

// ---- a configured device ------------------------------------------------

fn busy() -> XC2Bitstream {
    let mut b = blank("XC2C32A");
    b.speed_grade = "6".to_owned();
    b.package = "cp56".to_owned();
    if let XC2BitstreamBits::XC2C32A {
        fb,
        iobs,
        inpin,
        global_nets,
        legacy_ivoltage,
        legacy_ovoltage,
        ivoltage,
        ovoltage,
    } = &mut b.bits
    {
        fb[0].zia_bits[3].selected = XC2ZIAInput::IBuf { ibuf: 3 };
        fb[0].zia_bits[4].selected = XC2ZIAInput::IBuf { ibuf: 11 };
        fb[1].zia_bits[39].selected = XC2ZIAInput::Macrocell { fb: 1, mc: 7 };
        fb[1].zia_bits[0].selected = XC2ZIAInput::Zero;
        fb[0].and_terms[0].input[3] = true;
        fb[0].and_terms[55].input_b[39] = true;
        fb[1].and_terms[17].input[0] = true;
        fb[0].or_terms[2].input[0] = true;
        fb[1].or_terms[15].input[55] = true;
        fb[0].ffs[2] = XC2MCFF {
            clk_src: XC2MCFFClkSrc::CTC,
            falling_edge: true,
            is_ddr: true,
            r_src: XC2MCFFResetSrc::PTA,
            s_src: XC2MCFFSetSrc::GSR,
            init_state: false,
            ff_mode: XC2MCFFMode::TFF,
            fb_mode: XC2MCFeedbackMode::REG,
            ff_in_ibuf: true,
            xor_mode: XC2MCXorMode::PTCB,
        };
        fb[1].ffs[15].clk_src = XC2MCFFClkSrc::PTC;
        fb[1].ffs[15].ff_mode = XC2MCFFMode::DFFCE;
        fb[1].ffs[15].fb_mode = XC2MCFeedbackMode::COMB;
        fb[1].ffs[15].r_src = XC2MCFFResetSrc::CTR;
        fb[1].ffs[15].s_src = XC2MCFFSetSrc::CTS;
        fb[1].ffs[15].xor_mode = XC2MCXorMode::ONE;
        fb[1].ffs[0].clk_src = XC2MCFFClkSrc::GCK2;
        fb[1].ffs[0].ff_mode = XC2MCFFMode::LATCH;
        fb[1].ffs[1].clk_src = XC2MCFFClkSrc::GCK1;
        fb[1].ffs[1].xor_mode = XC2MCXorMode::PTC;
        let modes = [
            XC2IOBOBufMode::PushPull,
            XC2IOBOBufMode::OpenDrain,
            XC2IOBOBufMode::TriStateGTS0,
            XC2IOBOBufMode::TriStateGTS1,
            XC2IOBOBufMode::TriStateGTS2,
            XC2IOBOBufMode::TriStateGTS3,
            XC2IOBOBufMode::TriStatePTB,
            XC2IOBOBufMode::TriStateCTE,
            XC2IOBOBufMode::CGND,
            XC2IOBOBufMode::Disabled,
        ];
        for (k, m) in modes.iter().enumerate() {
            iobs[k + 10].obuf_mode = *m;
            iobs[k + 10].slew_is_fast = k % 2 == 0;
            iobs[k + 10].obuf_uses_ff = k % 3 == 0;
            iobs[k + 10].schmitt_trigger = k % 2 == 1;
            iobs[k + 10].termination_enabled = k % 3 == 1;
        }
        iobs[0].zia_mode = XC2IOBZIAMode::PAD;
        iobs[31].zia_mode = XC2IOBZIAMode::REG;
        *inpin = XC2ExtraIBuf { schmitt_trigger: false, termination_enabled: true };
        *global_nets = XC2GlobalNets {
            gck_enable: [true, false, true],
            gsr_enable: true,
            gsr_invert: false,
            gts_enable: [false, true, true, false],
            gts_invert: [false, true, false, true],
            global_pu: false,
        };
        *legacy_ivoltage = true;
        *legacy_ovoltage = false;
        *ivoltage = [true, false];
        *ovoltage = [false, true];
    } else {
        panic!("wrong part");
    }
    b
}

#[test]
fn configured_records() {
    let t = table();
    let text = jed(&busy(), &t);
    assert!(text.contains("N DEVICE XC2C32A-6-cp56*\n"));
    // row 3 offers the input buffer of pad 3 first, row 4 that of pad 11
    // second; the patterns are written with the last fuse first
    assert!(text.contains("L000024 01111110*\n"));
    assert!(text.contains("L000032 01111101*\n"));
    assert!(text.contains(&format!("L{:06} 01111011*\n", 6128 + 8 * 39)));
    assert!(text.contains(&format!("L{:06} 01111111*\n", 6128)));
    assert!(text.contains(&format!("L000320 {}01{}*\n", repeat("1", 6), repeat("1", 72))));
    assert!(text.contains(&format!("L{:06} {}10*\n", 320 + 80 * 55, repeat("1", 78))));
    assert!(text.contains("L004800 1101111111111111*\n"));
    assert!(text.contains(&format!("L{:06} 1111111111111110*\n", 6128 + 4800 + 16 * 55)));
    assert!(text.contains(&format!("L{:06} 111110001101110010111111101*\n", 5696 + 27 * 2)));
    assert!(text.contains("L012256 101*\nL012259 01*\nL012261 01100011*\nL012269 0*\nL012270 1*\nL012271 0*\nL012272 01*\nL012274 0*\nL012275 1*\nL012276 1*\nL012277 0*\n"));
}

#[test]
fn reading_back_gives_the_same_jedec() {
    let t = table();
    for b in [blank("XC2C32"), blank("XC2C32A"), busy()] {
        let text = jed(&b, &t);
        let count = match b.bits {
            XC2BitstreamBits::XC2C32 { .. } => 12274,
            XC2BitstreamBits::XC2C32A { .. } => 12278,
        };
        let fuses = fuses_of(&text, count);
        assert_eq!(fuses, b.bits.to_fuses(&t));
        let name = match b.bits {
            XC2BitstreamBits::XC2C32 { .. } => "XC2C32",
            XC2BitstreamBits::XC2C32A { .. } => "XC2C32A",
        };
        let device = format!("{}-{}-{}", name, b.speed_grade, b.package);
        let read = read_jed(text.as_bytes()).unwrap();
        assert_eq!(read.fuses, fuses);
        assert_eq!(read.device, Some(device.clone().into_bytes()));
        let again = process_jed(&read.fuses, &device, &t).unwrap();
        assert_eq!(again.speed_grade, b.speed_grade);
        assert_eq!(again.package, b.package);
        assert_eq!(jed(&again, &t), text);
    }
}

#[test]
fn reading_a_configured_device() {
    let t = table();
    let b = busy();
    let fuses = b.bits.to_fuses(&t);
    let again = process_jed(&fuses, "XC2C32A-6-cp56", &t).unwrap();
    match (again.bits, b.bits) {
        (
            XC2BitstreamBits::XC2C32A { fb, iobs, inpin, global_nets, legacy_ivoltage, ivoltage, ovoltage, .. },
            XC2BitstreamBits::XC2C32A { fb: fb0, iobs: iobs0, inpin: inpin0, .. },
        ) => {
            for f in 0..2 {
                for i in 0..16 {
                    assert_eq!(fb[f].ffs[i], fb0[f].ffs[i]);
                    assert_eq!(fb[f].or_terms[i].input, fb0[f].or_terms[i].input);
                }
                for i in 0..56 {
                    assert_eq!(fb[f].and_terms[i].input, fb0[f].and_terms[i].input);
                    assert_eq!(fb[f].and_terms[i].input_b, fb0[f].and_terms[i].input_b);
                }
                for i in 0..40 {
                    assert_eq!(fb[f].zia_bits[i].selected, fb0[f].zia_bits[i].selected);
                }
            }
            assert_eq!(iobs, iobs0);
            assert_eq!(inpin, inpin0);
            assert_eq!(global_nets.gck_enable, [true, false, true]);
            assert_eq!(global_nets.gts_enable, [false, true, true, false]);
            assert_eq!(global_nets.gts_invert, [false, true, false, true]);
            assert!(global_nets.gsr_enable && !global_nets.gsr_invert && !global_nets.global_pu);
            assert!(legacy_ivoltage);
            assert_eq!(ivoltage, [true, false]);
            assert_eq!(ovoltage, [false, true]);
        },
        _ => panic!("wrong part"),
    }
}

#[test]
fn process_jed_errors() {
    let t = table();
    let good = blank("XC2C32").bits.to_fuses(&t);
    assert_eq!(good.len(), 12274);
    let err = |fuses: &[bool], device: &str| process_jed(fuses, device, &t).err();
    assert_eq!(err(&good, "XC2C32-4"), Some(JedError::MalformedDeviceName));
    assert_eq!(err(&good, "XC2C32"), Some(JedError::MalformedDeviceName));
    assert_eq!(err(&good, "XC2C32-4-vq44-x"), Some(JedError::MalformedDeviceName));
    assert_eq!(err(&good, "XC2C64-4-vq44"), Some(JedError::UnsupportedPart));
    assert_eq!(err(&good, "xc2c32-4-vq44"), Some(JedError::UnsupportedPart));
    assert_eq!(err(&good, "XC2C32A-4-vq44"), Some(JedError::WrongFuseCount));
    assert_eq!(err(&good[..12273], "XC2C32-4-vq44"), Some(JedError::WrongFuseCount));
    assert!(process_jed(&good, "XC2C32--", &t).is_ok());

    let mut bad = good.clone();
    for a in 8..16 {
        bad[a] = false; // no row of the table has a pattern of zeros
    }
    assert_eq!(err(&bad, "XC2C32-4-vq44"), Some(JedError::UnknownZIAChoice));
    let mut bad = good.clone();
    bad[5696 + 20] = false;
    bad[5696 + 21] = false;
    bad[5696 + 22] = false;
    bad[5696 + 23] = true; // 0001 is open drain
    assert!(process_jed(&bad, "XC2C32-4-vq44", &t).is_ok());
    bad[5696 + 21] = true; // 0101 is no mode
    assert_eq!(err(&bad, "XC2C32-4-vq44"), Some(JedError::UnknownOutputMode));

    assert_eq!(JedError::MalformedDeviceName.message(), "malformed device name");
    assert_eq!(JedError::UnsupportedPart.message(), "unsupported part");
    assert_eq!(JedError::WrongFuseCount.message(), "wrong number of fuses");
    assert_eq!(JedError::UnknownZIAChoice.message(), "unknown ZIA input choice");
    assert_eq!(JedError::UnknownOutputMode.message(), "unknown output buffer mode");
}

// ---- parts of the fuse array --------------------------------------------

#[test]
fn register_fuses() {
    let mut fuses = vec![false; 100];
    let ff = read_32_ff_logical(&fuses, 10, 2);
    assert_eq!(
        ff,
        XC2MCFF {
            clk_src: XC2MCFFClkSrc::GCK0,
            falling_edge: false,
            is_ddr: false,
            r_src: XC2MCFFResetSrc::PTA,
            s_src: XC2MCFFSetSrc::PTA,
            init_state: true,
            ff_mode: XC2MCFFMode::DFF,
            fb_mode: XC2MCFeedbackMode::COMB,
            ff_in_ibuf: true,
            xor_mode: XC2MCXorMode::ZERO,
        }
    );
    let base = 10 + 2 * 27;
    for k in [0, 2, 3, 1, 4, 5, 8, 9, 10, 14, 15, 18, 26] {
        fuses[base + k] = true;
    }
    let ff = read_32_ff_logical(&fuses, 10, 2);
    assert_eq!(
        ff,
        XC2MCFF {
            clk_src: XC2MCFFClkSrc::CTC,
            falling_edge: true,
            is_ddr: true,
            r_src: XC2MCFFResetSrc::CTR,
            s_src: XC2MCFFSetSrc::GSR,
            init_state: false,
            ff_mode: XC2MCFFMode::DFFCE,
            fb_mode: XC2MCFeedbackMode::Disabled,
            ff_in_ibuf: false,
            xor_mode: XC2MCXorMode::PTCB,
        }
    );
    fuses[base] = false;
    assert_eq!(read_32_ff_logical(&fuses, 10, 2).clk_src, XC2MCFFClkSrc::PTC);
    fuses[base + 3] = false;
    assert_eq!(read_32_ff_logical(&fuses, 10, 2).clk_src, XC2MCFFClkSrc::GCK2);
    fuses[base + 2] = false;
    fuses[base + 3] = true;
    assert_eq!(read_32_ff_logical(&fuses, 10, 2).clk_src, XC2MCFFClkSrc::GCK1);
    fuses[base + 13] = true;
    fuses[base + 14] = false;
    assert_eq!(read_32_ff_logical(&fuses, 10, 2).fb_mode, XC2MCFeedbackMode::REG);
    assert_eq!(XC2MCFF::default().init_state, true);
    assert_eq!(XC2MCFF::default().r_src, XC2MCFFResetSrc::Disabled);
}

#[test]
fn io_block_fuses() {
    let mut fuses = vec![false; 60];
    let iob = read_32_iob_logical(&fuses, 3, 1).unwrap();
    assert_eq!(
        iob,
        XC2MCSmallIOB {
            zia_mode: XC2IOBZIAMode::PAD,
            schmitt_trigger: false,
            obuf_uses_ff: true,
            obuf_mode: XC2IOBOBufMode::PushPull,
            termination_enabled: false,
            slew_is_fast: true,
        }
    );
    let base = 3 + 27;
    for k in [11, 16, 19, 20, 22, 24, 25] {
        fuses[base + k] = true;
    }
    let iob = read_32_iob_logical(&fuses, 3, 1).unwrap();
    assert_eq!(
        iob,
        XC2MCSmallIOB {
            zia_mode: XC2IOBZIAMode::REG,
            schmitt_trigger: true,
            obuf_uses_ff: false,
            obuf_mode: XC2IOBOBufMode::TriStateGTS2,
            termination_enabled: true,
            slew_is_fast: false,
        }
    );
    fuses[base + 12] = true;
    assert_eq!(read_32_iob_logical(&fuses, 3, 1).unwrap().zia_mode, XC2IOBZIAMode::Disabled);
    fuses[base + 23] = true;
    assert!(read_32_iob_logical(&fuses, 3, 1).is_none());
    assert_eq!(XC2MCSmallIOB::default().obuf_mode, XC2IOBOBufMode::Disabled);
    assert!(XC2ExtraIBuf::default().schmitt_trigger);
}

#[test]
fn global_net_fuses() {
    let mut fuses = vec![false; 12274];
    for a in [12257, 12259, 12262, 12263, 12269] {
        fuses[a] = true;
    }
    let g = read_32_global_nets_logical(&fuses);
    assert_eq!(g.gck_enable, [false, true, false]);
    assert!(g.gsr_invert);
    assert!(!g.gsr_enable);
    assert_eq!(g.gts_enable, [false, true, true, true]);
    assert_eq!(g.gts_invert, [false, true, false, false]);
    assert!(g.global_pu);
    let d = XC2GlobalNets::default();
    assert_eq!(d.gts_invert, [true; 4]);
    assert_eq!(d.gck_enable, [false; 3]);
    assert!(d.global_pu);
}

#[test]
fn blank_function_block() {
    let fb = XC2BitstreamFB::default();
    assert!(fb.zia_bits.iter().all(|z| z.selected == XC2ZIAInput::One));
    assert!(fb.and_terms.iter().all(|t| t.input == [false; 40] && t.input_b == [false; 40]));
    assert!(fb.or_terms.iter().all(|t| t.input == [false; 56]));
    assert!(fb.ffs.iter().all(|f| *f == XC2MCFF::default()));
}

// ---- product-term numbers -----------------------------------------------

#[test]
fn product_term_numbers() {
    assert_eq!(get_ctc(), 4);
    assert_eq!(get_ctr(), 5);
    assert_eq!(get_cts(), 6);
    assert_eq!(get_cte(), 7);
    assert_eq!(get_pta(0), 8);
    assert_eq!(get_ptb(0), 9);
    assert_eq!(get_ptc(0), 10);
    assert_eq!(get_pta(15), 53);
    assert_eq!(get_ptb(15), 54);
    assert_eq!(get_ptc(15), 55);
    assert_eq!(get_ptc(1_000_000), 3_000_010);
}

// ---- the device model ---------------------------------------------------

#[test]
fn device_names() {
    let d = XC2DeviceSpeedPackage::from_str("xc2c32a-4-vq44").unwrap();
    assert_eq!(d.dev, XC2Device::XC2C32A);
    assert_eq!(d.spd, "4");
    assert_eq!(d.pkg, "vq44");
    let d = XC2DeviceSpeedPackage::from_str("XC2C32-6-PC44").unwrap();
    assert_eq!(d.dev, XC2Device::XC2C32);
    assert_eq!(d.pkg, "PC44");
    assert!(XC2DeviceSpeedPackage::from_str("xc2c32a-4").is_none());
    assert!(XC2DeviceSpeedPackage::from_str("xc2c32a-4-vq44-").is_none());
    assert!(XC2DeviceSpeedPackage::from_str("xc2c64-4-vq44").is_none());
    assert!(XC2DeviceSpeedPackage::from_str("").is_none());
    assert_eq!(device_from_name("Xc2C32"), Some(XC2Device::XC2C32));
    assert_eq!(device_from_name("xc2c32b"), None);
    assert_eq!(XC2Device::XC2C32.fuse_count(), 12274);
    assert_eq!(XC2Device::XC2C32A.fuse_count(), 12278);
    assert_eq!(XC2Device::XC2C32A.num_fbs(), 2);
}

#[test]
fn io_block_numbers() {
    assert_eq!(fb_mc_num_to_iob_num(0, 0), Some(0));
    assert_eq!(fb_mc_num_to_iob_num(1, 15), Some(31));
    assert_eq!(fb_mc_num_to_iob_num(2, 0), None);
    assert_eq!(fb_mc_num_to_iob_num(0, 16), None);
    assert_eq!(iob_num_to_fb_mc_num(17), Some((1, 1)));
    assert_eq!(iob_num_to_fb_mc_num(32), None);
}

#[test]
fn device_tables() {
    let d = DeviceSpec {
        device: XC2Device::XC2C32,
        speed: "4".to_owned(),
        package: "vq44".to_owned(),
        gck: [(1, 4), (1, 5), (1, 6)],
        gts: [(0, 5), (0, 6), (0, 3), (0, 4)],
        gsr: (0, 7),
        zia: table(),
    };
    assert!(d.is_valid());
    assert_eq!(d.num_fbs(), 2);
    assert_eq!(d.get_gck(1), Some((1, 5)));
    assert_eq!(d.get_gck(3), None);
    assert_eq!(d.get_gts(3), Some((0, 4)));
    assert_eq!(d.get_gts(4), None);
    assert_eq!(d.get_gsr(), (0, 7));
    let mut bad = d;
    bad.gts[2] = (2, 0);
    assert!(!bad.is_valid());
}

#[test]
fn routing_table() {
    let t = table();
    assert!(t.row_offers(5, XC2ZIAInput::IBuf { ibuf: 12 }));
    assert!(!t.row_offers(5, XC2ZIAInput::IBuf { ibuf: 13 }));
    assert!(!t.row_offers(5, XC2ZIAInput::One));
    assert_eq!(t.encode(5, XC2ZIAInput::IBuf { ibuf: 12 }), Some(code(0x7d)));
    assert_eq!(t.encode(5, XC2ZIAInput::IBuf { ibuf: 13 }), None);
    assert_eq!(t.encode(5, XC2ZIAInput::One), Some([true; 8]));
    assert_eq!(t.encode(5, XC2ZIAInput::Zero), Some(code(0x7f)));
    assert_eq!(t.decode(5, &code(0x7b)), Some(XC2ZIAInput::Macrocell { fb: 1, mc: 5 }));
    assert_eq!(t.decode(5, &[true; 8]), Some(XC2ZIAInput::One));
    assert_eq!(t.decode(5, &code(0x7f)), Some(XC2ZIAInput::Zero));
    assert_eq!(t.decode(5, &code(0)), None);
    for r in 0..40 {
        for e in &t.rows[r] {
            assert_eq!(t.decode(r, &t.encode(r, e.input).unwrap()), Some(e.input));
        }
    }

    let mut short = table();
    short.rows.pop();
    assert!(!short.is_valid());
    let mut twice = table();
    twice.rows[3][1].input = twice.rows[3][0].input;
    assert!(!twice.is_valid());
    let mut clash = table();
    clash.rows[3][1].bits = clash.rows[3][0].bits;
    assert!(!clash.is_valid());
    let mut constant = table();
    constant.rows[3][1].input = XC2ZIAInput::Zero;
    assert!(!constant.is_valid());
    let mut taken = table();
    taken.rows[3][1].bits = [true; 8];
    assert!(!taken.is_valid());
    let mut same = table();
    same.zero_bits = same.one_bits;
    assert!(!same.is_valid());
}

// ---- descriptions -------------------------------------------------------

#[test]
fn register_description() {
    let mut out = Vec::new();
    XC2MCFF::default().dump_human_readable(0, 15, &mut out);
    assert_eq!(
        String::from_utf8(out).unwrap(),
        "\nFF configuration for FB1_16\nFF mode: D flip-flop\ninitial state: 1\nrising-edge triggered\nDDR: no\nclock source: GCK0\nset source: disabled\nreset source: disabled\nusing ibuf direct path: no\nXOR gate input: 0\nZIA feedback: disabled\n"
    );
    let mut out = b"x".to_vec();
    XC2MCFF {
        clk_src: XC2MCFFClkSrc::CTC,
        falling_edge: true,
        is_ddr: true,
        r_src: XC2MCFFResetSrc::GSR,
        s_src: XC2MCFFSetSrc::CTS,
        init_state: false,
        ff_mode: XC2MCFFMode::DFFCE,
        fb_mode: XC2MCFeedbackMode::COMB,
        ff_in_ibuf: true,
        xor_mode: XC2MCXorMode::PTCB,
    }
    .dump_human_readable(4294967295, 9, &mut out);
    assert_eq!(
        String::from_utf8(out).unwrap(),
        "x\nFF configuration for FB4294967296_10\nFF mode: D flip-flop with clock-enable\ninitial state: 0\nfalling-edge triggered\nDDR: yes\nclock source: CTC\nset source: CTS\nreset source: GSR\nusing ibuf direct path: yes\nXOR gate input: ~PTC\nZIA feedback: combinatorial\n"
    );
}

#[test]
fn global_nets_description() {
    let mut out = Vec::new();
    XC2GlobalNets::default().dump_human_readable(&mut out);
    assert_eq!(
        String::from_utf8(out).unwrap(),
        "\nGCK0 disabled\nGCK1 disabled\nGCK2 disabled\nGSR disabled, active low\nGTS0 disabled, acts as !T\nGTS1 disabled, acts as !T\nGTS2 disabled, acts as !T\nGTS3 disabled, acts as !T\nglobal termination is pull-up\n"
    );
    let mut out = Vec::new();
    XC2GlobalNets {
        gck_enable: [true, false, true],
        gsr_enable: true,
        gsr_invert: true,
        gts_enable: [false, true, false, false],
        gts_invert: [false, false, true, true],
        global_pu: false,
    }
    .dump_human_readable(&mut out);
    assert_eq!(
        String::from_utf8(out).unwrap(),
        "\nGCK0 enabled\nGCK1 disabled\nGCK2 enabled\nGSR enabled, active high\nGTS0 disabled, acts as T\nGTS1 enabled, acts as T\nGTS2 disabled, acts as !T\nGTS3 disabled, acts as !T\nglobal termination is bus hold\n"
    );
}

#[test]
fn bitstream_description() {
    let mut out = Vec::new();
    blank("XC2C32").dump_human_readable(&mut out);
    let text = String::from_utf8(out).unwrap();
    assert!(text.starts_with(
        "xc2bit dump\ndevice speed grade: 4\ndevice package: vq44\ndevice type: XC2C32\noutput voltage range: low\ninput voltage range: low\n\nGCK0 disabled\n"
    ));
    assert!(text.contains("\nI/O configuration for IOB0\noutput mode: disabled\noutput comes from XOR gate\nslew rate: fast\nZIA driven from: disabled\nSchmitt trigger input: yes\ntermination: yes\n"));
    assert!(text.contains("\nI/O configuration for IOB31\n"));
    assert!(text.contains("\nI/O configuration for input-only pin\nSchmitt trigger input: yes\ntermination: yes\n"));
    assert!(text.contains("\nFF configuration for FB1_1\n"));
    assert!(text.ends_with("\nFF configuration for FB2_16\nFF mode: D flip-flop\ninitial state: 1\nrising-edge triggered\nDDR: no\nclock source: GCK0\nset source: disabled\nreset source: disabled\nusing ibuf direct path: no\nXOR gate input: 0\nZIA feedback: disabled\n"));
    assert_eq!(text.matches("FF configuration for").count(), 32);
    assert_eq!(text.matches("I/O configuration for IOB").count(), 32);

    let mut out = Vec::new();
    busy().dump_human_readable(&mut out);
    let text = String::from_utf8(out).unwrap();
    assert!(text.contains("device type: XC2C32A\nlegacy output voltage range: low\nlegacy input voltage range: high\nbank 0 output voltage range: low\nbank 1 output voltage range: high\nbank 0 input voltage range: high\nbank 1 input voltage range: low\n"));
    assert!(text.contains("\nI/O configuration for IOB12\noutput mode: GTS0-controlled tri-state\noutput comes from XOR gate\nslew rate: fast\nZIA driven from: disabled\nSchmitt trigger input: no\ntermination: no\n"));
    assert!(text.contains("\nI/O configuration for input-only pin\nSchmitt trigger input: no\ntermination: yes\n"));
}

#[test]
fn reading_a_small_jedec_file() {
    let text = b"a note\x02QF10*\nN DEVICE XC2C32A-4-VQ44*\nF0*\n\nL0000 101*\r\nL06\t1 1\n1 1*C1234*\x03ABCD\n";
    let read = read_jed(text).unwrap();
    assert_eq!(read.fuses, vec![true, false, true, false, false, false, true, true, true, true]);
    assert_eq!(read.device, Some(b"XC2C32A-4-VQ44".to_vec()));

    // a later count clears the fuses, and a file need not name a device
    let read = read_jed(b"\x02QF3*L0 111*QF2*L1 1*\x03").unwrap();
    assert_eq!(read.fuses, vec![false, true]);
    assert_eq!(read.device, None);

    // no data at all
    let read = read_jed(b"\x02 \n\x03").unwrap();
    assert_eq!(read.fuses, Vec::<bool>::new());
}

#[test]
fn jedec_files_that_are_not_in_order() {
    // no byte that begins the data, none that ends them
    assert!(read_jed(b"QF4*L0 1111*\x03").is_none());
    assert!(read_jed(b"\x02QF4*L0 1111*").is_none());
    assert!(read_jed(b"").is_none());
    // a field that is not closed
    assert!(read_jed(b"\x02QF4*L0 1111\x03").is_none());
    // fuses before their number, and fuses that the file has not
    assert!(read_jed(b"\x02L0 1*QF4*\x03").is_none());
    assert!(read_jed(b"\x02QF4*L1 1111*\x03").is_none());
    assert!(read_jed(b"\x02QF4*L4 1*\x03").is_none());
    assert!(read_jed(b"\x02QF4*L4*\x03").is_some());
    // a fuse field without an address or with another character
    assert!(read_jed(b"\x02QF4*L 11*\x03").is_none());
    assert!(read_jed(b"\x02QF4*L0 12*\x03").is_none());
    // a number of fuses that is missing, malformed or too large
    assert!(read_jed(b"\x02QF*\x03").is_none());
    assert!(read_jed(b"\x02QF12x*\x03").is_none());
    assert!(read_jed(b"\x02QF16777217*\x03").is_none());
    assert_eq!(read_jed(b"\x02QF0016*\x03").unwrap().fuses.len(), 16);
    assert!(read_jed(b"\x02QF4*L99999999999999999999999 1*\x03").is_none());
}
