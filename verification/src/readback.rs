//! Reading back what was written: the JEDEC file of a bitstream holds the
//! fuse array of the bitstream and the name of its device.

use vstd::prelude::*;
use vstd::string::StringSliceAdditionalSpecFns;
use crate::bitstream::jed_device;
use crate::bitstream::jed_header;
use crate::bitstream::jed_trailer;
use crate::bitstream::XC2Bitstream;
use crate::bitstream::XC2BitstreamBits;
use crate::jed::jed_body;
use crate::jed::jed_record;
use crate::jed::jed_records;
use crate::jedread::field_applied;
use crate::jedread::fields_read;
use crate::jedread::fuse_run;
use crate::jedread::is_digit;
use crate::jedread::is_space;
use crate::jedread::jed_contents;
use crate::jedread::device_note;
use crate::jedread::lemma_next_stop;
use crate::jedread::lemma_next_stop_is;
use crate::jedread::next_stop;
use crate::jedread::number;
use crate::jedread::overlay;
use crate::jedread::stops;
use crate::jedread::JedContents;
use crate::jedread::Stop;
use crate::jedread::ETX;
use crate::jedread::STAR;
use crate::text::bit_char;
use crate::text::bit_chars;
use crate::text::digit;
use crate::text::spec_decimal_padded;
use crate::zia::ZIATable;

verus! {

/// White space before the fields is passed over.
pub proof fn lemma_spaces_first(ws: Seq<u8>, rest: Seq<u8>, c: JedContents)
    requires
        forall|k: int| 0 <= k < ws.len() ==> is_space(#[trigger] ws[k]),
    ensures
        fields_read(ws + rest, c) == fields_read(rest, c),
{
    let s = ws + rest;
    let n = ws.len() as int;
    let pr = next_stop(rest, 0, Stop::NoSpace);
    lemma_next_stop_is(rest, 0, Stop::NoSpace);
    assert forall|k: int| 0 <= k < n + pr implies !stops(Stop::NoSpace, #[trigger] s[k]) by {
        if k >= n {
            assert(s[k] == rest[k - n]);
        } else {
            assert(s[k] == ws[k]);
        }
    }
    if pr < rest.len() {
        assert(s[n + pr] == rest[pr]);
    }
    lemma_next_stop(s, 0, n + pr, Stop::NoSpace);
    if pr < rest.len() && rest[pr] != ETX {
        let er = next_stop(rest, pr, Stop::Star);
        lemma_next_stop_is(rest, pr, Stop::Star);
        assert forall|k: int| n + pr <= k < n + er implies !stops(Stop::Star, #[trigger] s[k]) by {
            assert(s[k] == rest[k - n]);
        }
        if er < rest.len() {
            assert(s[n + er] == rest[er]);
        }
        lemma_next_stop(s, n + pr, n + er, Stop::Star);
        if er < rest.len() {
            assert(s.subrange(n + pr, n + er) =~= rest.subrange(pr, er));
            assert(s.subrange(n + er + 1, s.len() as int) =~= rest.subrange(
                er + 1,
                rest.len() as int,
            ));
        }
    }
}

/// A field at the front is read, and reading goes on behind the byte
/// that closes it.
pub proof fn lemma_field_first(field: Seq<u8>, rest: Seq<u8>, c: JedContents)
    requires
        field.len() > 0,
        !is_space(field[0]),
        field[0] != ETX,
        forall|k: int| 0 <= k < field.len() ==> #[trigger] field[k] != STAR,
    ensures
        fields_read(field + seq![STAR] + rest, c) == (match field_applied(field, c) {
            Some(next) => fields_read(rest, next),
            None => None,
        }),
{
    let s = field + seq![STAR] + rest;
    let n = field.len() as int;
    assert(s[0] == field[0]);
    lemma_next_stop(s, 0, 0, Stop::NoSpace);
    assert forall|k: int| 0 <= k < n implies !stops(Stop::Star, #[trigger] s[k]) by {
        assert(s[k] == field[k]);
    }
    assert(s[n] == STAR);
    lemma_next_stop(s, 0, n, Stop::Star);
    assert(s.subrange(0, n) =~= field);
    assert(s.subrange(n + 1, s.len() as int) =~= rest);
}

/// Ten to the power of `w`.
pub open spec fn pow10(w: nat) -> nat
    decreases w,
{
    if w == 0 {
        1
    } else {
        10 * pow10((w - 1) as nat)
    }
}

/// The number that digits spell depends on the digits only.
proof fn lemma_number_same(a: Seq<u8>, i: int, b: Seq<u8>, j: int, w: int)
    requires
        0 <= w,
        0 <= i,
        i + w <= a.len(),
        0 <= j,
        j + w <= b.len(),
        a.subrange(i, i + w) == b.subrange(j, j + w),
    ensures
        number(a, i, i + w) == number(b, j, j + w),
    decreases w,
{
    if w > 0 {
        let x = a.subrange(i, i + w);
        let y = b.subrange(j, j + w);
        assert(a.subrange(i, i + w - 1) =~= x.subrange(0, w - 1));
        assert(b.subrange(j, j + w - 1) =~= y.subrange(0, w - 1));
        lemma_number_same(a, i, b, j, w - 1);
        assert(x[w - 1] == a[i + w - 1]);
        assert(y[w - 1] == b[j + w - 1]);
        assert(number(a, i, i + w) == number(a, i, i + w - 1) * 10 + (a[i + w - 1] - 48) as nat);
        assert(number(b, j, j + w) == number(b, j, j + w - 1) * 10 + (b[j + w - 1] - 48) as nat);
    }
}

/// The digits of a padded number are digits, and they spell the number.
proof fn lemma_number_padded(n: nat, w: nat)
    requires
        n < pow10(w),
    ensures
        spec_decimal_padded(n, w).len() == w,
        forall|k: int| 0 <= k < w ==> is_digit(#[trigger] spec_decimal_padded(n, w)[k]),
        number(spec_decimal_padded(n, w), 0, w as int) == n,
    decreases w,
{
    if w > 0 {
        let shorter = spec_decimal_padded(n / 10, (w - 1) as nat);
        let all = spec_decimal_padded(n, w);
        lemma_number_padded(n / 10, (w - 1) as nat);
        assert(all == shorter.push(digit(n % 10)));
        assert forall|k: int| 0 <= k < w implies is_digit(#[trigger] all[k]) by {
            if k < w - 1 {
                assert(all[k] == shorter[k]);
            }
        }
        assert(all.subrange(0, w - 1) =~= shorter.subrange(0, w - 1));
        lemma_number_same(all, 0, shorter, 0, w - 1);
        assert(all[w - 1] == digit(n % 10));
    }
}

/// The characters of a run of fuses spell the fuses.
proof fn lemma_fuse_run_bits(s: Seq<u8>, start: int, bits: Seq<bool>, k: int)
    requires
        0 <= start,
        0 <= k <= bits.len(),
        s.len() == start + bits.len(),
        forall|q: int| 0 <= q < bits.len() ==> s[start + q] == bit_char(#[trigger] bits[q]),
    ensures
        fuse_run(s, start + k) == Some(bits.subrange(k, bits.len() as int)),
    decreases bits.len() - k,
{
    if k < bits.len() {
        lemma_fuse_run_bits(s, start, bits, k + 1);
        assert(s[start + k] == bit_char(bits[k]));
        assert(seq![s[start + k] == 49] + bits.subrange(k + 1, bits.len() as int) =~= bits.subrange(
            k,
            bits.len() as int,
        ));
    } else {
        assert(bits.subrange(k, bits.len() as int) =~= Seq::<bool>::empty());
    }
}

/// A fuse record at the front sets its fuses.
pub proof fn lemma_record_first(f: Seq<bool>, addr: int, w: int, rest: Seq<u8>, c: JedContents)
    requires
        0 <= addr < 1000000,
        0 <= w,
        addr + w <= f.len(),
        c.fuses.len() == f.len(),
    ensures
        fields_read(jed_record(f, addr, w) + rest, c) == fields_read(
            rest,
            JedContents {
                fuses: overlay(c.fuses, addr, f.subrange(addr, addr + w)),
                device: c.device,
            },
        ),
{
    reveal_strlit("L");
    reveal_strlit(" ");
    reveal_strlit("*\n");
    vstd::string::is_ascii_spec_bytes("L");
    vstd::string::is_ascii_spec_bytes(" ");
    vstd::string::is_ascii_spec_bytes("*\n");
    let bits = f.subrange(addr, addr + w);
    let digits = spec_decimal_padded(addr as nat, 6);
    assert(pow10(6) == 1000000) by {
        assert(pow10(0) == 1);
        assert(pow10(1) == 10);
        assert(pow10(2) == 100);
        assert(pow10(3) == 1000);
        assert(pow10(4) == 10000);
        assert(pow10(5) == 100000);
    }
    lemma_number_padded(addr as nat, 6);
    let field = seq![76u8] + digits + seq![32u8] + bit_chars(bits);
    let line = seq![10u8];
    assert(jed_record(f, addr, w) + rest =~= field + seq![STAR] + (line + rest));
    assert forall|k: int| 0 <= k < field.len() implies #[trigger] field[k] != STAR by {
        if 1 <= k < 7 {
            assert(field[k] == digits[k - 1]);
            assert(is_digit(digits[k - 1]));
        } else if k >= 8 {
            assert(field[k] == bit_char(bits[k - 8]));
        }
    }
    lemma_field_first(field, line + rest, c);
    // the address
    assert forall|k: int| 1 <= k < 7 implies !stops(Stop::NoDigit, #[trigger] field[k]) by {
        assert(field[k] == digits[k - 1]);
        assert(is_digit(digits[k - 1]));
    }
    assert(field[7] == 32);
    lemma_next_stop(field, 1, 7, Stop::NoDigit);
    assert(field.subrange(1, 7) =~= digits.subrange(0, 6));
    lemma_number_same(field, 1, digits, 0, 6);
    // the fuses
    assert forall|q: int| 0 <= q < bits.len() implies field[8 + q] == bit_char(
        #[trigger] bits[q],
    ) by {
        assert(bit_chars(bits)[q] == bit_char(bits[q]));
    }
    lemma_fuse_run_bits(field, 8, bits, 0);
    assert(bits.subrange(0, bits.len() as int) =~= bits);
    assert(fuse_run(field, 7) == fuse_run(field, 8));
    lemma_spaces_first(line, rest, JedContents {
        fuses: overlay(c.fuses, addr, bits),
        device: c.device,
    });
}

/// The fuses of `f` below address `a`, and cleared fuses from there on.
pub open spec fn filled(f: Seq<bool>, a: int) -> Seq<bool> {
    Seq::new(f.len(), |i: int| i < a && f[i])
}

/// What the file holds when the fuses below address `a` are read.
pub open spec fn read_so_far(f: Seq<bool>, a: int, device: Option<Seq<u8>>) -> JedContents {
    JedContents { fuses: filled(f, a), device }
}

/// A fuse record at the front, for the fuses that come next, is read.
proof fn lemma_record_next(f: Seq<bool>, addr: int, w: int, rest: Seq<u8>, device: Option<Seq<u8>>)
    requires
        0 <= addr < 1000000,
        0 <= w,
        addr + w <= f.len(),
    ensures
        fields_read(jed_record(f, addr, w) + rest, read_so_far(f, addr, device)) == fields_read(
            rest,
            read_so_far(f, addr + w, device),
        ),
{
    lemma_record_first(f, addr, w, rest, read_so_far(f, addr, device));
    assert(overlay(filled(f, addr), addr, f.subrange(addr, addr + w)) =~= filled(f, addr + w));
}

/// Fuse records at the front, for the fuses that come next, are read.
proof fn lemma_records_next(
    f: Seq<bool>,
    start: int,
    count: int,
    w: int,
    rest: Seq<u8>,
    device: Option<Seq<u8>>,
)
    requires
        0 <= start,
        0 <= count,
        0 <= w,
        start + count * w <= f.len(),
        f.len() < 1000000,
    ensures
        fields_read(jed_records(f, start, count, w) + rest, read_so_far(f, start, device))
            == fields_read(rest, read_so_far(f, start + count * w, device)),
    decreases count,
{
    if count == 0 {
        assert(jed_records(f, start, count, w) + rest =~= rest);
        assert(start + count * w == start) by (nonlinear_arith)
            requires
                count == 0,
        ;
    } else {
        let last = start + (count - 1) * w;
        assert(last + w == start + count * w) by (nonlinear_arith)
            requires
                last == start + (count - 1) * w,
        ;
        assert(0 <= (count - 1) * w) by (nonlinear_arith)
            requires
                count >= 1,
                w >= 0,
        ;
        let record = jed_record(f, last, w);
        assert(jed_records(f, start, count, w) + rest =~= jed_records(f, start, count - 1, w) + (
        record + rest));
        lemma_records_next(f, start, count - 1, w, record + rest, device);
        lemma_record_next(f, last, w, rest, device);
    }
}

/// Texts one after the other are the first before all the others.
proof fn lemma_nest(
    a: Seq<u8>,
    b: Seq<u8>,
    c: Seq<u8>,
    d: Seq<u8>,
    e: Seq<u8>,
    g: Seq<u8>,
    h: Seq<u8>,
    rest: Seq<u8>,
)
    ensures
        a + b + c + d + e + g + h + rest == a + (b + (c + (d + (e + (g + (h + rest)))))),
        a + b + c + d + rest == a + (b + (c + (d + rest))),
        a + b + c + d + rest == a + (b + (c + d + rest)),
        a + b + c + d + e + g + h + (h + rest) == a + (b + (c + (d + (e + (g + (h + (h
            + rest))))))),
        a + b + (c + rest) == a + (b + (c + rest)),
{
    assert(a + b + c + d + e + g + h + rest =~= a + (b + (c + (d + (e + (g + (h + rest)))))));
    assert(a + b + c + d + rest =~= a + (b + (c + (d + rest))));
    assert(a + b + c + d + rest =~= a + (b + (c + d + rest)));
    assert(a + b + c + d + e + g + h + (h + rest) =~= a + (b + (c + (d + (e + (g + (h + (h
        + rest))))))));
    assert(a + b + (c + rest) =~= a + (b + (c + rest)));
}

/// The records of a function block at the front are read.
#[verifier::rlimit(30)]
proof fn lemma_fb_next(f: Seq<bool>, base: int, rest: Seq<u8>, device: Option<Seq<u8>>)
    requires
        0 <= base,
        base + 6128 <= f.len(),
        f.len() < 1000000,
    ensures
        fields_read(crate::jed::jed_fb(f, base) + rest, read_so_far(f, base, device))
            == fields_read(rest, read_so_far(f, base + 6128, device)),
{
    reveal_strlit("\n");
    vstd::string::is_ascii_spec_bytes("\n");
    let line = seq![10u8];
    let zia = jed_records(f, base, 40, 8);
    let and = jed_records(f, base + 320, 56, 80);
    let or = jed_records(f, base + 4800, 56, 16);
    let mc = jed_records(f, base + 5696, 16, 27);
    let after_mc = line + rest;
    let after_or = line + (mc + after_mc);
    let after_and = line + (or + after_or);
    let after_zia = line + (and + after_and);
    assert(crate::jed::jed_fb(f, base) + rest == zia + after_zia) by {
        lemma_nest(zia, line, and, line, or, line, mc, rest);
        assert(crate::jed::jed_fb(f, base) + rest =~= zia + line + and + line + or + line + mc + (
        line + rest));
    }
    lemma_records_next(f, base, 40, 8, after_zia, device);
    lemma_spaces_first(line, and + after_and, read_so_far(f, base + 320, device));
    lemma_records_next(f, base + 320, 56, 80, after_and, device);
    lemma_spaces_first(line, or + after_or, read_so_far(f, base + 4800, device));
    lemma_records_next(f, base + 4800, 56, 16, after_or, device);
    lemma_spaces_first(line, mc + after_mc, read_so_far(f, base + 5696, device));
    lemma_records_next(f, base + 5696, 16, 27, after_mc, device);
    lemma_spaces_first(line, rest, read_so_far(f, base + 6128, device));
}

/// The records behind the function blocks, at the front, are read.
proof fn lemma_globals_next(f: Seq<bool>, rest: Seq<u8>, device: Option<Seq<u8>>)
    requires
        f.len() == 12274 || f.len() == 12278,
    ensures
        fields_read(
            crate::jed::jed_globals(f) + crate::jed::jed_banks(f) + rest,
            read_so_far(f, 12256, device),
        ) == fields_read(rest, read_so_far(f, f.len() as int, device)),
{
    let banks = crate::jed::jed_banks(f);
    let r7 = jed_record(f, 12272, 2) + (banks + rest);
    let r6 = jed_record(f, 12271, 1) + r7;
    let r5 = jed_record(f, 12270, 1) + r6;
    let r4 = jed_record(f, 12269, 1) + r5;
    let r3 = jed_record(f, 12261, 8) + r4;
    let r2 = jed_record(f, 12259, 2) + r3;
    assert(crate::jed::jed_globals(f) + banks + rest == jed_record(f, 12256, 3) + r2) by {
        lemma_nest(
            jed_record(f, 12256, 3),
            jed_record(f, 12259, 2),
            jed_record(f, 12261, 8),
            jed_record(f, 12269, 1),
            jed_record(f, 12270, 1),
            jed_record(f, 12271, 1),
            jed_record(f, 12272, 2),
            banks + rest,
        );
        assert(crate::jed::jed_globals(f) + banks + rest =~= crate::jed::jed_globals(f) + (banks
            + rest));
    }
    lemma_record_next(f, 12256, 3, r2, device);
    lemma_record_next(f, 12259, 2, r3, device);
    lemma_record_next(f, 12261, 8, r4, device);
    lemma_record_next(f, 12269, 1, r5, device);
    lemma_record_next(f, 12270, 1, r6, device);
    lemma_record_next(f, 12271, 1, r7, device);
    lemma_record_next(f, 12272, 2, banks + rest, device);
    if f.len() == 12278 {
        let b4 = jed_record(f, 12277, 1) + rest;
        let b3 = jed_record(f, 12276, 1) + b4;
        let b2 = jed_record(f, 12275, 1) + b3;
        assert(banks + rest == jed_record(f, 12274, 1) + b2) by {
            lemma_nest(
                jed_record(f, 12274, 1),
                jed_record(f, 12275, 1),
                jed_record(f, 12276, 1),
                jed_record(f, 12277, 1),
                Seq::empty(),
                Seq::empty(),
                Seq::empty(),
                rest,
            );
        }
        lemma_record_next(f, 12274, 1, b2, device);
        lemma_record_next(f, 12275, 1, b3, device);
        lemma_record_next(f, 12276, 1, b4, device);
        lemma_record_next(f, 12277, 1, rest, device);
    } else {
        assert(banks + rest =~= rest);
    }
}

/// The fuse records of a fuse array, read into cleared fuses, give the
/// fuse array.
pub proof fn lemma_body_read(f: Seq<bool>, rest: Seq<u8>, device: Option<Seq<u8>>)
    requires
        f.len() == 12274 || f.len() == 12278,
    ensures
        fields_read(crate::jed::jed_body(f) + rest, read_so_far(f, 0, device)) == fields_read(
            rest,
            JedContents { fuses: f, device },
        ),
{
    let tail = crate::jed::jed_globals(f) + crate::jed::jed_banks(f) + rest;
    let second = crate::jed::jed_fb(f, 6128) + tail;
    assert(crate::jed::jed_body(f) + rest == crate::jed::jed_fb(f, 0) + second) by {
        lemma_nest(
            crate::jed::jed_fb(f, 0),
            crate::jed::jed_fb(f, 6128),
            crate::jed::jed_globals(f),
            crate::jed::jed_banks(f),
            Seq::empty(),
            Seq::empty(),
            Seq::empty(),
            rest,
        );
    }
    lemma_fb_next(f, 0, second, device);
    lemma_fb_next(f, 6128, tail, device);
    lemma_globals_next(f, rest, device);
    assert(filled(f, f.len() as int) =~= f);
}

/// Whether a name can stand in the field that names the device: its
/// bytes hold none that closes a field.
pub open spec fn name_ok(name: Seq<char>) -> bool {
    forall|k: int|
        0 <= k < vstd::utf8::encode_utf8(name).len() ==> #[trigger] vstd::utf8::encode_utf8(name)[k]
            != STAR
}

/// The name of the device as the JEDEC file of a bitstream gives it: the
/// part, the speed grade and the package, with `-` between them.
pub open spec fn jed_device_name(
    bits: &XC2BitstreamBits,
    speed_grade: Seq<char>,
    package: Seq<char>,
) -> Seq<u8> {
    (match *bits {
        XC2BitstreamBits::XC2C32 { .. } => "XC2C32-".spec_bytes(),
        XC2BitstreamBits::XC2C32A { .. } => "XC2C32A-".spec_bytes(),
    }) + vstd::utf8::encode_utf8(speed_grade) + "-".spec_bytes() + vstd::utf8::encode_utf8(package)
}

/// The lines that name the number of fuses and the device, at the front,
/// clear that many fuses and name the device.
#[verifier::rlimit(30)]
proof fn lemma_device_read(
    bits: &XC2BitstreamBits,
    speed_grade: Seq<char>,
    package: Seq<char>,
    f: Seq<bool>,
    rest: Seq<u8>,
)
    requires
        name_ok(speed_grade),
        name_ok(package),
        f.len() == bits.fuse_count(),
    ensures
        fields_read(
            jed_device(bits, speed_grade, package) + rest,
            JedContents { fuses: Seq::empty(), device: None },
        ) == fields_read(
            rest,
            read_so_far(f, 0, Some(jed_device_name(bits, speed_grade, package))),
        ),
{
    reveal_strlit("QF12274*\n");
    reveal_strlit("QF12278*\n");
    reveal_strlit("N DEVICE XC2C32-");
    reveal_strlit("N DEVICE XC2C32A-");
    reveal_strlit("N DEVICE ");
    reveal_strlit("XC2C32-");
    reveal_strlit("XC2C32A-");
    reveal_strlit("-");
    reveal_strlit("*\n\n");
    vstd::string::is_ascii_spec_bytes("QF12274*\n");
    vstd::string::is_ascii_spec_bytes("QF12278*\n");
    vstd::string::is_ascii_spec_bytes("N DEVICE XC2C32-");
    vstd::string::is_ascii_spec_bytes("N DEVICE XC2C32A-");
    vstd::string::is_ascii_spec_bytes("N DEVICE ");
    vstd::string::is_ascii_spec_bytes("XC2C32-");
    vstd::string::is_ascii_spec_bytes("XC2C32A-");
    vstd::string::is_ascii_spec_bytes("-");
    vstd::string::is_ascii_spec_bytes("*\n\n");
    let speed = vstd::utf8::encode_utf8(speed_grade);
    let pkg = vstd::utf8::encode_utf8(package);
    let is_a = *bits is XC2C32A;
    let count = seq![81u8, 70, 49, 50, 50, 55, if is_a { 56u8 } else { 52u8 }];
    let part = if is_a {
        "XC2C32A-".spec_bytes()
    } else {
        "XC2C32-".spec_bytes()
    };
    let name = jed_device_name(bits, speed_grade, package);
    let note = device_note() + name;
    let line = seq![10u8];
    let lines = seq![10u8, 10u8];
    let start = JedContents { fuses: Seq::empty(), device: None };
    assert(name =~= part + speed + seq![45u8] + pkg);
    assert(jed_device(bits, speed_grade, package) + rest =~= count + seq![STAR] + (line + (note
        + seq![STAR] + (lines + rest))));

    // the number of fuses
    lemma_field_first(count, line + (note + seq![STAR] + (lines + rest)), start);
    lemma_next_stop(count, 2, 7, Stop::NoDigit);
    assert(number(count, 2, 2) == 0);
    assert(number(count, 2, 3) == 1);
    assert(number(count, 2, 4) == 12);
    assert(number(count, 2, 5) == 122);
    assert(number(count, 2, 6) == 1227);
    assert(number(count, 2, 7) == f.len());
    let cleared = JedContents { fuses: Seq::new(f.len(), |i: int| false), device: None };
    assert(field_applied(count, start) == Some(cleared));
    lemma_spaces_first(line, note + seq![STAR] + (lines + rest), cleared);

    // the name of the device
    assert forall|k: int| 0 <= k < note.len() implies #[trigger] note[k] != STAR by {
        let head = device_note().len() + part.len();
        if k < head {
        } else if k < head + speed.len() {
            assert(note[k] == speed[k - head]);
        } else if k == head + speed.len() {
        } else {
            assert(note[k] == pkg[k - head - speed.len() - 1]);
        }
    }
    assert(note[0] == 78);
    lemma_field_first(note, lines + rest, cleared);
    assert(note.subrange(0, device_note().len() as int) =~= device_note());
    assert(note.subrange(device_note().len() as int, note.len() as int) =~= name);
    let named = JedContents { fuses: cleared.fuses, device: Some(name) };
    assert(field_applied(note, cleared) == Some(named));
    lemma_spaces_first(lines, rest, named);
    assert(cleared.fuses =~= filled(f, 0));
}

/// The data of a file begin behind its header.
proof fn lemma_header_read(behind: Seq<u8>)
    ensures
        next_stop(jed_header() + behind, 0, Stop::Start) == jed_header().len() - 1,
        jed_header().len() >= 1,
        (jed_header() + behind).subrange(
            jed_header().len() as int,
            (jed_header() + behind).len() as int,
        ) == behind,
{
    reveal_strlit(".JED fuse map written by xc2bit\n");
    reveal_strlit("https://github.com/azonenberg/openfpga\n\n");
    reveal_strlit("\x02");
    vstd::string::is_ascii_spec_bytes(".JED fuse map written by xc2bit\n");
    vstd::string::is_ascii_spec_bytes("https://github.com/azonenberg/openfpga\n\n");
    vstd::string::is_ascii_spec_bytes("\x02");
    let head = jed_header();
    let text = head + behind;
    let at = head.len() - 1;
    assert forall|k: int| 0 <= k < at implies !stops(Stop::Start, #[trigger] text[k]) by {
        assert(text[k] == head[k]);
    }
    assert(text[at] == head[at]);
    lemma_next_stop(text, 0, at, Stop::Start);
    assert(text.subrange(at + 1, text.len() as int) =~= behind);
}

/// The data of a file end at its trailer.
proof fn lemma_trailer_read(c: JedContents)
    ensures
        fields_read(jed_trailer(), c) == Some(c),
{
    reveal_strlit("\x030000\n");
    vstd::string::is_ascii_spec_bytes("\x030000\n");
    let end = jed_trailer();
    assert(end[0] == ETX);
    lemma_next_stop(end, 0, 0, Stop::NoSpace);
}

/// The JEDEC file of a bitstream holds the fuse array of the bitstream
/// and the name of its device, if neither the speed grade nor the package
/// holds the character that closes a field.
pub proof fn lemma_written_is_read(b: &XC2Bitstream, table: &ZIATable)
    requires
        name_ok(b.speed_grade@),
        name_ok(b.package@),
    ensures
        jed_contents(b.jed_text(table)) == Some(
            JedContents {
                fuses: b.bits.fuses(table),
                device: Some(jed_device_name(&b.bits, b.speed_grade@, b.package@)),
            },
        ),
{
    crate::roundtrip::lemma_fuses_layout(&b.bits, table);
    let f = b.bits.fuses(table);
    let name = jed_device_name(&b.bits, b.speed_grade@, b.package@);
    let device = jed_device(&b.bits, b.speed_grade@, b.package@);
    let end = jed_trailer();
    let behind = device + (jed_body(f) + end);
    assert(b.jed_text(table) == jed_header() + behind) by {
        lemma_nest(
            jed_header(),
            device,
            jed_body(f),
            Seq::empty(),
            Seq::empty(),
            Seq::empty(),
            Seq::empty(),
            end,
        );
    }
    lemma_header_read(behind);
    lemma_device_read(&b.bits, b.speed_grade@, b.package@, f, jed_body(f) + end);
    lemma_body_read(f, end, Some(name));
    lemma_trailer_read(JedContents { fuses: f, device: Some(name) });
}

/// The fuse array that is read back from the JEDEC file of a bitstream
/// holds a configuration: reading it gives no error.
pub proof fn lemma_read_back_decodes(b: &XC2Bitstream, table: &ZIATable)
    requires
        table.wf(),
        b.bits.encodable(table),
        name_ok(b.speed_grade@),
        name_ok(b.package@),
    ensures
        jed_contents(b.jed_text(table)) matches Some(c) && crate::bitstream::decode_error(
            c.fuses,
            table,
        ) is None,
{
    lemma_written_is_read(b, table);
    crate::roundtrip::lemma_bits_round_trip(&b.bits, table);
}

/// Reading the JEDEC file of a bitstream back into a fuse array and
/// writing the bitstream that the fuse array holds gives the same file:
/// if `b2` is a bitstream that the fuses read from the file of `b` hold,
/// with the speed grade and package of `b`, the two have the same JEDEC
/// text.
pub proof fn lemma_read_back_round_trip(b: &XC2Bitstream, b2: &XC2Bitstream, table: &ZIATable)
    requires
        table.wf(),
        b.bits.encodable(table),
        name_ok(b.speed_grade@),
        name_ok(b.package@),
        jed_contents(b.jed_text(table)) matches Some(c) && crate::bitstream::bits_decoded(
            &b2.bits,
            c.fuses,
            table,
        ),
        b2.speed_grade@ == b.speed_grade@,
        b2.package@ == b.package@,
    ensures
        b2.bits.encodable(table),
        b2.jed_text(table) == b.jed_text(table),
{
    lemma_written_is_read(b, table);
    crate::roundtrip::lemma_jed_round_trip(b, b2, table);
}

} // verus!
