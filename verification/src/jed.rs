//! JEDEC text for a fuse array: the fuse records of the function blocks
//! and of the fuses behind them.
//!
//! A record is `L`, the address of its first fuse in six digits, a space,
//! one character `0` or `1` for each fuse, `*` and a line feed.

use vstd::prelude::*;
use vstd::string::StringSliceAdditionalSpecFns;
use crate::text::bit_char;
use crate::text::bit_chars;
use crate::text::push_bytes;
use crate::text::push_decimal6;
use crate::text::spec_decimal_padded;

verus! {

/// The record of the `width` fuses from address `addr` on.
pub open spec fn jed_record(f: Seq<bool>, addr: int, width: int) -> Seq<u8> {
    "L".spec_bytes() + spec_decimal_padded(addr as nat, 6) + " ".spec_bytes() + bit_chars(
        f.subrange(addr, addr + width),
    ) + "*\n".spec_bytes()
}

/// `count` records of `width` fuses each, one after the other, the first
/// from address `start` on.
pub open spec fn jed_records(f: Seq<bool>, start: int, count: int, width: int) -> Seq<u8>
    decreases count,
{
    if count <= 0 {
        Seq::empty()
    } else {
        jed_records(f, start, count - 1, width) + jed_record(
            f,
            start + (count - 1) * width,
            width,
        )
    }
}

/// The records of the function block whose fuses begin at `base`: its 40
/// ZIA rows, its 56 AND terms, the 56 rows of its OR array and its 16
/// macrocells, each group followed by an empty line.
pub open spec fn jed_fb(f: Seq<bool>, base: int) -> Seq<u8> {
    jed_records(f, base, 40, 8) + "\n".spec_bytes() + jed_records(f, base + 320, 56, 80)
        + "\n".spec_bytes() + jed_records(f, base + 4800, 56, 16) + "\n".spec_bytes() + jed_records(
        f,
        base + 5696,
        16,
        27,
    ) + "\n".spec_bytes()
}

/// The records of the fuses behind the function blocks that every part
/// has.
pub open spec fn jed_globals(f: Seq<bool>) -> Seq<u8> {
    jed_record(f, 12256, 3) + jed_record(f, 12259, 2) + jed_record(f, 12261, 8) + jed_record(
        f,
        12269,
        1,
    ) + jed_record(f, 12270, 1) + jed_record(f, 12271, 1) + jed_record(f, 12272, 2)
}

/// The records of the bank voltages, which only an array of 12278 fuses
/// has.
pub open spec fn jed_banks(f: Seq<bool>) -> Seq<u8> {
    if f.len() == 12278 {
        jed_record(f, 12274, 1) + jed_record(f, 12275, 1) + jed_record(f, 12276, 1) + jed_record(
            f,
            12277,
            1,
        )
    } else {
        Seq::empty()
    }
}

/// All records of a fuse array of a 32-macrocell part.
pub open spec fn jed_body(f: Seq<bool>) -> Seq<u8> {
    jed_fb(f, 0) + jed_fb(f, 6128) + jed_globals(f) + jed_banks(f)
}

/// Appends the record of the `width` fuses from address `addr` on.
pub fn push_record(out: &mut Vec<u8>, fuses: &Vec<bool>, addr: usize, width: usize)
    requires
        addr + width <= fuses@.len(),
    ensures
        final(out)@ == old(out)@ + jed_record(fuses@, addr as int, width as int),
{
    let ghost start = out@;
    let n = fuses.len();
    push_bytes(out, "L");
    push_decimal6(out, addr);
    push_bytes(out, " ");
    let ghost head = out@;
    let ghost bits = fuses@.subrange(addr as int, addr + width);
    let mut k: usize = 0;
    while k < width
        invariant
            k <= width,
            n == fuses@.len(),
            addr + width <= fuses@.len(),
            bits == fuses@.subrange(addr as int, addr + width),
            out@ == head + bit_chars(bits).subrange(0, k as int),
        decreases width - k,
    {
        out.push(if fuses[addr + k] { 49u8 } else { 48u8 });
        assert(bit_chars(bits).subrange(0, k as int + 1) =~= bit_chars(bits).subrange(
            0,
            k as int,
        ).push(bit_char(bits[k as int])));
        k += 1;
    }
    assert(bit_chars(bits).subrange(0, width as int) =~= bit_chars(bits));
    push_bytes(out, "*\n");
    proof {
        crate::text::lemma_append5(
            start,
            "L".spec_bytes(),
            spec_decimal_padded(addr as nat, 6),
            " ".spec_bytes(),
            bit_chars(bits),
            "*\n".spec_bytes(),
        );
    }
}

/// Appends `count` records of `width` fuses each, the first from address
/// `start` on.
pub fn push_records(out: &mut Vec<u8>, fuses: &Vec<bool>, start: usize, count: usize, width: usize)
    requires
        start + count * width <= fuses@.len(),
        count * width <= usize::MAX,
    ensures
        final(out)@ == old(out)@ + jed_records(fuses@, start as int, count as int, width as int),
{
    let ghost begin = out@;
    let n = fuses.len();
    let mut i: usize = 0;
    while i < count
        invariant
            i <= count,
            n == fuses@.len(),
            start + count * width <= fuses@.len(),
            out@ == begin + jed_records(fuses@, start as int, i as int, width as int),
        decreases count - i,
    {
        assert(i * width + width <= count * width && 0 <= i * width) by (nonlinear_arith)
            requires
                0 <= i < count,
                0 <= width,
        ;
        push_record(out, fuses, start + i * width, width);
        assert(out@ =~= begin + jed_records(fuses@, start as int, i as int + 1, width as int));
        i += 1;
    }
}

/// Appends the records of the function block whose fuses begin at `base`.
pub fn push_fb(out: &mut Vec<u8>, fuses: &Vec<bool>, base: usize)
    requires
        base + 6128 <= fuses@.len(),
    ensures
        final(out)@ == old(out)@ + jed_fb(fuses@, base as int),
{
    let ghost begin = out@;
    let n = fuses.len();
    push_records(out, fuses, base, 40, 8);
    push_bytes(out, "\n");
    push_records(out, fuses, base + 320, 56, 80);
    push_bytes(out, "\n");
    push_records(out, fuses, base + 4800, 56, 16);
    push_bytes(out, "\n");
    push_records(out, fuses, base + 5696, 16, 27);
    push_bytes(out, "\n");
    proof {
        crate::text::lemma_append8(
            begin,
            jed_records(fuses@, base as int, 40, 8),
            "\n".spec_bytes(),
            jed_records(fuses@, base + 320, 56, 80),
            "\n".spec_bytes(),
            jed_records(fuses@, base + 4800, 56, 16),
            "\n".spec_bytes(),
            jed_records(fuses@, base + 5696, 16, 27),
            "\n".spec_bytes(),
        );
    }
}

/// Appends the records of the fuses behind the function blocks that
/// every part has.
pub fn push_globals(out: &mut Vec<u8>, fuses: &Vec<bool>)
    requires
        fuses@.len() >= 12274,
    ensures
        final(out)@ == old(out)@ + jed_globals(fuses@),
{
    let ghost begin = out@;
    push_record(out, fuses, 12256, 3);
    push_record(out, fuses, 12259, 2);
    push_record(out, fuses, 12261, 8);
    push_record(out, fuses, 12269, 1);
    push_record(out, fuses, 12270, 1);
    push_record(out, fuses, 12271, 1);
    push_record(out, fuses, 12272, 2);
    proof {
        crate::text::lemma_append7(
            begin,
            jed_record(fuses@, 12256, 3),
            jed_record(fuses@, 12259, 2),
            jed_record(fuses@, 12261, 8),
            jed_record(fuses@, 12269, 1),
            jed_record(fuses@, 12270, 1),
            jed_record(fuses@, 12271, 1),
            jed_record(fuses@, 12272, 2),
        );
    }
}

/// Appends the records of the bank voltages, if the fuse array has them.
pub fn push_banks(out: &mut Vec<u8>, fuses: &Vec<bool>)
    ensures
        final(out)@ == old(out)@ + jed_banks(fuses@),
{
    let ghost begin = out@;
    if fuses.len() == 12278 {
        push_record(out, fuses, 12274, 1);
        push_record(out, fuses, 12275, 1);
        push_record(out, fuses, 12276, 1);
        push_record(out, fuses, 12277, 1);
        proof {
            crate::text::lemma_append4(
                begin,
                jed_record(fuses@, 12274, 1),
                jed_record(fuses@, 12275, 1),
                jed_record(fuses@, 12276, 1),
                jed_record(fuses@, 12277, 1),
            );
        }
    } else {
        assert(out@ =~= begin + jed_banks(fuses@));
    }
}

/// Appends all records of a fuse array of a 32-macrocell part.
pub fn push_body(out: &mut Vec<u8>, fuses: &Vec<bool>)
    requires
        fuses@.len() == 12274 || fuses@.len() == 12278,
    ensures
        final(out)@ == old(out)@ + jed_body(fuses@),
{
    let ghost begin = out@;
    push_fb(out, fuses, 0);
    push_fb(out, fuses, 6128);
    push_globals(out, fuses);
    push_banks(out, fuses);
    proof {
        crate::text::lemma_append4(
            begin,
            jed_fb(fuses@, 0),
            jed_fb(fuses@, 6128),
            jed_globals(fuses@),
            jed_banks(fuses@),
        );
    }
}

} // verus!
