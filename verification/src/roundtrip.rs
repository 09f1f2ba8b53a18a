//! Reading back what was written: the fuse array of a configuration
//! holds that configuration, and a bitstream read from the fuse array of
//! another gives the same JEDEC text.

use vstd::prelude::*;
use crate::bitstream::bits_decoded;
use crate::bitstream::decode_error;
use crate::bitstream::global_nets_decoded;
use crate::bitstream::iob_fuse_base;
use crate::bitstream::iobs_decodable;
use crate::bitstream::XC2Bitstream;
use crate::bitstream::XC2BitstreamBits;
use crate::fb::fb_decodable;
use crate::fb::fb_decoded;
use crate::fb::fb_fuse;
use crate::fb::fb_fuses;
use crate::fb::mc_fuse;
use crate::fb::zia_code;
use crate::fb::XC2BitstreamFB;
use crate::iob::iob_of_fuses;
use crate::iob::XC2MCSmallIOB;
use crate::mc::ff_of_fuses;
use crate::mc::XC2MCFF;
use crate::zia::ZIATable;

verus! {

/// Whether the fuses of `f` from `base` on are those of the function
/// block `fb` with the I/O blocks `iobs`.
pub open spec fn holds_fb(
    f: Seq<bool>,
    base: int,
    fb: &XC2BitstreamFB,
    iobs: Seq<XC2MCSmallIOB>,
    table: &ZIATable,
) -> bool {
    &&& 0 <= base
    &&& base + 6128 <= f.len()
    &&& iobs.len() == 16
    &&& forall|off: int| 0 <= off < 6128 ==> f[base + off] == #[trigger] fb_fuse(fb, iobs, table, off)
}

/// The 27 fuses of a macrocell hold its register configuration.
pub proof fn lemma_ff_round_trip(f: Seq<bool>, b: int, ff: XC2MCFF, iob: XC2MCSmallIOB)
    requires
        0 <= b,
        b + 27 <= f.len(),
        forall|k: int| 0 <= k < 27 ==> f[b + k] == #[trigger] mc_fuse(ff, iob, k),
    ensures
        ff_of_fuses(f, b) == ff,
{
    assert(f[b + 0] == mc_fuse(ff, iob, 0));
    assert(f[b + 1] == mc_fuse(ff, iob, 1));
    assert(f[b + 2] == mc_fuse(ff, iob, 2));
    assert(f[b + 3] == mc_fuse(ff, iob, 3));
    assert(f[b + 4] == mc_fuse(ff, iob, 4));
    assert(f[b + 5] == mc_fuse(ff, iob, 5));
    assert(f[b + 6] == mc_fuse(ff, iob, 6));
    assert(f[b + 7] == mc_fuse(ff, iob, 7));
    assert(f[b + 8] == mc_fuse(ff, iob, 8));
    assert(f[b + 9] == mc_fuse(ff, iob, 9));
    assert(f[b + 10] == mc_fuse(ff, iob, 10));
    assert(f[b + 13] == mc_fuse(ff, iob, 13));
    assert(f[b + 14] == mc_fuse(ff, iob, 14));
    assert(f[b + 15] == mc_fuse(ff, iob, 15));
    assert(f[b + 17] == mc_fuse(ff, iob, 17));
    assert(f[b + 18] == mc_fuse(ff, iob, 18));
    assert(f[b + 26] == mc_fuse(ff, iob, 26));
}

/// The 27 fuses of a macrocell hold the configuration of its I/O block.
pub proof fn lemma_iob_round_trip(f: Seq<bool>, b: int, ff: XC2MCFF, iob: XC2MCSmallIOB)
    requires
        0 <= b,
        b + 27 <= f.len(),
        forall|k: int| 0 <= k < 27 ==> f[b + k] == #[trigger] mc_fuse(ff, iob, k),
    ensures
        iob_of_fuses(f, b) == Some(iob),
{
    assert(f[b + 11] == mc_fuse(ff, iob, 11));
    assert(f[b + 12] == mc_fuse(ff, iob, 12));
    assert(f[b + 16] == mc_fuse(ff, iob, 16));
    assert(f[b + 19] == mc_fuse(ff, iob, 19));
    assert(f[b + 20] == mc_fuse(ff, iob, 20));
    assert(f[b + 21] == mc_fuse(ff, iob, 21));
    assert(f[b + 22] == mc_fuse(ff, iob, 22));
    assert(f[b + 23] == mc_fuse(ff, iob, 23));
    assert(f[b + 24] == mc_fuse(ff, iob, 24));
    assert(f[b + 25] == mc_fuse(ff, iob, 25));
}

/// The fuses of a ZIA row hold what the row selects.
pub proof fn lemma_zia_round_trip(
    f: Seq<bool>,
    base: int,
    fb: &XC2BitstreamFB,
    iobs: Seq<XC2MCSmallIOB>,
    table: &ZIATable,
    i: int,
)
    requires
        table.wf(),
        fb.encodable(table),
        holds_fb(f, base, fb, iobs, table),
        0 <= i < 40,
    ensures
        table.spec_decode(i, zia_code(f, base + 8 * i)) == Some(fb.zia_bits@[i].selected),
{
    let sel = fb.zia_bits@[i].selected;
    let code = table.spec_encode(i, sel).unwrap();
    lemma_code_len(table, i, sel);
    assert forall|k: int| 0 <= k < 8 implies zia_code(f, base + 8 * i)[k] == code[k] by {
        let off = 8 * i + 7 - k;
        assert(f[base + off] == fb_fuse(fb, iobs, table, off));
        assert(off / 8 == i && off % 8 == 7 - k);
    }
    assert(zia_code(f, base + 8 * i) =~= code);
    table.lemma_decode_encode(i, sel);
}

/// A fuse pattern has eight fuses.
pub proof fn lemma_code_len(table: &ZIATable, i: int, sel: crate::zia::XC2ZIAInput)
    requires
        table.wf(),
        0 <= i < 40,
        table.spec_encode(i, sel) is Some,
    ensures
        table.spec_encode(i, sel).unwrap().len() == 8,
{
    if sel != crate::zia::XC2ZIAInput::One && sel != crate::zia::XC2ZIAInput::Zero {
        crate::zia::lemma_row_find(table.rows@[i]@, sel);
    }
}

/// The fuses of a function block hold its configuration and that of the
/// I/O blocks of its macrocells.
pub proof fn lemma_fb_round_trip(
    f: Seq<bool>,
    base: int,
    fb: &XC2BitstreamFB,
    iobs: Seq<XC2MCSmallIOB>,
    table: &ZIATable,
)
    requires
        table.wf(),
        fb.encodable(table),
        holds_fb(f, base, fb, iobs, table),
    ensures
        fb_decoded(fb, f, base, table),
        fb_decodable(f, base, table),
{
    assert forall|i: int| 0 <= i < 40 implies Some((#[trigger] fb.zia_bits@[i]).selected)
        == table.spec_decode(i, zia_code(f, base + 8 * i)) by {
        lemma_zia_round_trip(f, base, fb, iobs, table, i);
    }
    assert forall|i: int| 0 <= i < 40 implies #[trigger] table.spec_decode(
        i,
        zia_code(f, base + 8 * i),
    ) is Some by {
        lemma_zia_round_trip(f, base, fb, iobs, table, i);
    }
    assert forall|i: int, j: int| 0 <= i < 56 && 0 <= j < 40 implies (
    #[trigger] fb.and_terms@[i].input@[j]) == !f[base + 320 + 80 * i + 2 * j] by {
        let off = 320 + 80 * i + 2 * j;
        assert(f[base + off] == fb_fuse(fb, iobs, table, off));
        let r = off - 320;
        assert(r / 80 == i && (r % 80) / 2 == j && r % 2 == 0);
    }
    assert forall|i: int, j: int| 0 <= i < 56 && 0 <= j < 40 implies (
    #[trigger] fb.and_terms@[i].input_b@[j]) == !f[base + 320 + 80 * i + 2 * j + 1] by {
        let off = 320 + 80 * i + 2 * j + 1;
        assert(f[base + off] == fb_fuse(fb, iobs, table, off));
        let r = off - 320;
        assert(r / 80 == i && (r % 80) / 2 == j && r % 2 == 1);
    }
    assert forall|i: int, j: int| 0 <= i < 16 && 0 <= j < 56 implies (
    #[trigger] fb.or_terms@[i].input@[j]) == !f[base + 4800 + 16 * j + i] by {
        let off = 4800 + 16 * j + i;
        assert(f[base + off] == fb_fuse(fb, iobs, table, off));
        let r = off - 4800;
        assert(r % 16 == i && r / 16 == j);
    }
    assert forall|i: int| 0 <= i < 16 implies #[trigger] fb.ffs@[i] == ff_of_fuses(
        f,
        base + 5696 + 27 * i,
    ) by {
        lemma_mc_fuses_held(f, base, fb, iobs, table, i);
        lemma_ff_round_trip(f, base + 5696 + 27 * i, fb.ffs@[i], iobs[i]);
    }
}

/// The fuses of macrocell `i` of a function block are its 27 fuses.
proof fn lemma_mc_fuses_held(
    f: Seq<bool>,
    base: int,
    fb: &XC2BitstreamFB,
    iobs: Seq<XC2MCSmallIOB>,
    table: &ZIATable,
    i: int,
)
    requires
        holds_fb(f, base, fb, iobs, table),
        0 <= i < 16,
    ensures
        forall|k: int|
            0 <= k < 27 ==> f[base + 5696 + 27 * i + k] == #[trigger] mc_fuse(fb.ffs@[i], iobs[i], k),
{
    assert forall|k: int| 0 <= k < 27 implies f[base + 5696 + 27 * i + k] == #[trigger] mc_fuse(
        fb.ffs@[i],
        iobs[i],
        k,
    ) by {
        let off = 5696 + 27 * i + k;
        assert(f[base + off] == fb_fuse(fb, iobs, table, off));
        let r = off - 5696;
        assert(r / 27 == i && r % 27 == k);
    }
}

/// The fuse array of a configuration holds that configuration: reading
/// it gives no error, and what is read is the configuration.
pub proof fn lemma_bits_round_trip(bits: &XC2BitstreamBits, table: &ZIATable)
    requires
        table.wf(),
        bits.encodable(table),
    ensures
        bits_decoded(bits, bits.fuses(table), table),
        decode_error(bits.fuses(table), table) is None,
{
    lemma_fuses_layout(bits, table);
    lemma_blocks_round_trip(bits, table);
    lemma_iobs_round_trip(bits, table);
    lemma_globals_round_trip(bits, table);
}

/// The fuse array of a configuration holds its two function blocks.
proof fn lemma_blocks_round_trip(bits: &XC2BitstreamBits, table: &ZIATable)
    requires
        table.wf(),
        bits.encodable(table),
    ensures
        fb_decoded(&bits.spec_fb()[0], bits.fuses(table), 0, table),
        fb_decoded(&bits.spec_fb()[1], bits.fuses(table), 6128, table),
        fb_decodable(bits.fuses(table), 0, table),
        fb_decodable(bits.fuses(table), 6128, table),
{
    let f = bits.fuses(table);
    lemma_fuses_layout(bits, table);
    lemma_fb_round_trip(f, 0, &bits.spec_fb()[0], bits.spec_iobs().subrange(0, 16), table);
    lemma_fb_round_trip(f, 6128, &bits.spec_fb()[1], bits.spec_iobs().subrange(16, 32), table);
}

/// The fuse array of a configuration holds its I/O blocks.
proof fn lemma_iobs_round_trip(bits: &XC2BitstreamBits, table: &ZIATable)
    ensures
        forall|i: int|
            0 <= i < 32 ==> Some(#[trigger] bits.spec_iobs()[i]) == iob_of_fuses(
                bits.fuses(table),
                iob_fuse_base(i),
            ),
        iobs_decodable(bits.fuses(table)),
{
    let f = bits.fuses(table);
    let iobs = bits.spec_iobs();
    lemma_fuses_layout(bits, table);
    assert forall|i: int| 0 <= i < 32 implies Some(#[trigger] iobs[i]) == iob_of_fuses(
        f,
        iob_fuse_base(i),
    ) by {
        lemma_iob_at(f, &bits.spec_fb()[0], &bits.spec_fb()[1], iobs, table, i);
    }
    assert forall|i: int| 0 <= i < 32 implies #[trigger] iob_of_fuses(f, iob_fuse_base(i)) is Some by {
        lemma_iob_at(f, &bits.spec_fb()[0], &bits.spec_fb()[1], iobs, table, i);
    }
}

/// A fuse array that holds two function blocks holds I/O block `i`.
proof fn lemma_iob_at(
    f: Seq<bool>,
    fb0: &XC2BitstreamFB,
    fb1: &XC2BitstreamFB,
    iobs: Seq<XC2MCSmallIOB>,
    table: &ZIATable,
    i: int,
)
    requires
        0 <= i < 32,
        iobs.len() == 32,
        holds_fb(f, 0, fb0, iobs.subrange(0, 16), table),
        holds_fb(f, 6128, fb1, iobs.subrange(16, 32), table),
    ensures
        iob_of_fuses(f, iob_fuse_base(i)) == Some(iobs[i]),
{
    let io0 = iobs.subrange(0, 16);
    let io1 = iobs.subrange(16, 32);
    if i < 16 {
        lemma_mc_fuses_held(f, 0, fb0, io0, table, i);
        assert(iob_fuse_base(i) == 5696 + 27 * i);
        assert(io0[i] == iobs[i]);
        lemma_iob_round_trip(f, 5696 + 27 * i, fb0.ffs@[i], io0[i]);
    } else {
        let j = i - 16;
        lemma_mc_fuses_held(f, 6128, fb1, io1, table, j);
        assert(iob_fuse_base(i) == 11824 + 27 * j);
        assert(io1[j] == iobs[i]);
        lemma_iob_round_trip(f, 11824 + 27 * j, fb1.ffs@[j], io1[j]);
    }
}

/// Where the parts of a configuration stand in its fuse array.
pub proof fn lemma_fuses_layout(bits: &XC2BitstreamBits, table: &ZIATable)
    ensures
        bits.fuses(table).len() == bits.fuse_count(),
        holds_fb(
            bits.fuses(table),
            0,
            &bits.spec_fb()[0],
            bits.spec_iobs().subrange(0, 16),
            table,
        ),
        holds_fb(
            bits.fuses(table),
            6128,
            &bits.spec_fb()[1],
            bits.spec_iobs().subrange(16, 32),
            table,
        ),
        forall|a: int|
            12256 <= a < bits.fuse_count() ==> bits.fuses(table)[a] == #[trigger] bits.global_fuse(a),
{
    let f = bits.fuses(table);
    let block0 = fb_fuses(&bits.spec_fb()[0], bits.spec_iobs().subrange(0, 16), table);
    let block1 = fb_fuses(&bits.spec_fb()[1], bits.spec_iobs().subrange(16, 32), table);
    let g = bits.global_fuses();
    assert(bits.spec_iobs().len() == 32);
    assert forall|off: int| 0 <= off < 6128 implies f[0 + off] == #[trigger] fb_fuse(
        &bits.spec_fb()[0],
        bits.spec_iobs().subrange(0, 16),
        table,
        off,
    ) by {
        assert(f[off] == block0[off]);
    }
    assert forall|off: int| 0 <= off < 6128 implies f[6128 + off] == #[trigger] fb_fuse(
        &bits.spec_fb()[1],
        bits.spec_iobs().subrange(16, 32),
        table,
        off,
    ) by {
        assert(f[6128 + off] == block1[off]);
    }
    assert forall|a: int| 12256 <= a < bits.fuse_count() implies f[a]
        == #[trigger] bits.global_fuse(a) by {
        assert(f[a] == g[a - 12256]);
    }
}

/// The fuses behind the function blocks hold the global nets, the
/// input-only pin and the voltage ranges.
proof fn lemma_globals_round_trip(bits: &XC2BitstreamBits, table: &ZIATable)
    ensures
        bits.spec_inpin() == crate::iob::extra_ibuf_of_fuses(bits.fuses(table)),
        global_nets_decoded(&bits.spec_global_nets(), bits.fuses(table)),
        bits.spec_ovoltage() == !bits.fuses(table)[12270],
        bits.spec_ivoltage() == !bits.fuses(table)[12271],
        match *bits {
            XC2BitstreamBits::XC2C32A { ivoltage, ovoltage, .. } => ivoltage@[0] == !bits.fuses(
                table,
            )[12274] && ovoltage@[0] == !bits.fuses(table)[12275] && ivoltage@[1] == !bits.fuses(
                table,
            )[12276] && ovoltage@[1] == !bits.fuses(table)[12277],
            _ => true,
        },
{
    let f = bits.fuses(table);
    lemma_fuses_layout(bits, table);
    let g = bits.spec_global_nets();
    assert(f[12256] == bits.global_fuse(12256));
    assert(f[12257] == bits.global_fuse(12257));
    assert(f[12258] == bits.global_fuse(12258));
    assert(f[12259] == bits.global_fuse(12259));
    assert(f[12260] == bits.global_fuse(12260));
    assert(f[12261] == bits.global_fuse(12261));
    assert(f[12262] == bits.global_fuse(12262));
    assert(f[12263] == bits.global_fuse(12263));
    assert(f[12264] == bits.global_fuse(12264));
    assert(f[12265] == bits.global_fuse(12265));
    assert(f[12266] == bits.global_fuse(12266));
    assert(f[12267] == bits.global_fuse(12267));
    assert(f[12268] == bits.global_fuse(12268));
    assert(f[12269] == bits.global_fuse(12269));
    assert(f[12270] == bits.global_fuse(12270));
    assert(f[12271] == bits.global_fuse(12271));
    assert(f[12272] == bits.global_fuse(12272));
    assert(f[12273] == bits.global_fuse(12273));
    assert forall|i: int| 0 <= i < 3 implies #[trigger] g.gck_enable@[i] == f[12256 + i] by {}
    assert forall|i: int| 0 <= i < 4 implies #[trigger] g.gts_enable@[i] == !f[12262 + 2 * i] by {
        assert(f[12262 + 2 * i] == bits.global_fuse(12262 + 2 * i));
    }
    assert forall|i: int| 0 <= i < 4 implies #[trigger] g.gts_invert@[i] == f[12261 + 2 * i] by {
        assert(f[12261 + 2 * i] == bits.global_fuse(12261 + 2 * i));
    }
    match *bits {
        XC2BitstreamBits::XC2C32A { .. } => {
            assert(f[12274] == bits.global_fuse(12274));
            assert(f[12275] == bits.global_fuse(12275));
            assert(f[12276] == bits.global_fuse(12276));
            assert(f[12277] == bits.global_fuse(12277));
        },
        _ => {},
    }
}

/// Two function blocks that one fuse array holds have the same fuses.
proof fn lemma_decoded_fb_same(
    fb: &XC2BitstreamFB,
    fb2: &XC2BitstreamFB,
    iobs: Seq<XC2MCSmallIOB>,
    iobs2: Seq<XC2MCSmallIOB>,
    f: Seq<bool>,
    base: int,
    table: &ZIATable,
)
    requires
        fb.encodable(table),
        fb_decoded(fb, f, base, table),
        fb_decoded(fb2, f, base, table),
        iobs.len() == 16,
        iobs2.len() == 16,
        forall|i: int| 0 <= i < 16 ==> #[trigger] iobs2[i] == iobs[i],
    ensures
        fb2.encodable(table),
        fb_fuses(fb2, iobs2, table) == fb_fuses(fb, iobs, table),
{
    assert forall|i: int| 0 <= i < 40 implies (#[trigger] fb2.zia_bits@[i]).selected
        == fb.zia_bits@[i].selected by {
        assert(Some(fb.zia_bits@[i].selected) == table.spec_decode(i, zia_code(f, base + 8 * i)));
    }
    assert forall|i: int| 0 <= i < 40 implies table.spec_encode(
        i,
        (#[trigger] fb2.zia_bits@[i]).selected,
    ) is Some by {
        assert(table.spec_encode(i, fb.zia_bits@[i].selected) is Some);
    }
    assert forall|off: int| 0 <= off < 6128 implies #[trigger] fb_fuse(fb2, iobs2, table, off)
        == fb_fuse(fb, iobs, table, off) by {
        if off < 320 {
            assert(fb2.zia_bits@[off / 8].selected == fb.zia_bits@[off / 8].selected);
        } else if off < 4800 {
            let r = off - 320;
            let i = r / 80;
            let j = (r % 80) / 2;
            assert(fb2.and_terms@[i].input@[j] == !f[base + 320 + 80 * i + 2 * j]);
            assert(fb.and_terms@[i].input@[j] == !f[base + 320 + 80 * i + 2 * j]);
            assert(fb2.and_terms@[i].input_b@[j] == !f[base + 320 + 80 * i + 2 * j + 1]);
            assert(fb.and_terms@[i].input_b@[j] == !f[base + 320 + 80 * i + 2 * j + 1]);
        } else if off < 5696 {
            let r = off - 4800;
            assert(fb2.or_terms@[r % 16].input@[r / 16] == !f[base + 4800 + 16 * (r / 16) + r % 16]);
            assert(fb.or_terms@[r % 16].input@[r / 16] == !f[base + 4800 + 16 * (r / 16) + r % 16]);
        } else {
            let r = off - 5696;
            assert(fb2.ffs@[r / 27] == ff_of_fuses(f, base + 5696 + 27 * (r / 27)));
            assert(fb.ffs@[r / 27] == ff_of_fuses(f, base + 5696 + 27 * (r / 27)));
            assert(iobs2[r / 27] == iobs[r / 27]);
        }
    }
    assert(fb_fuses(fb2, iobs2, table) =~= fb_fuses(fb, iobs, table));
}

/// Two configurations that one fuse array holds have the same fuses
/// behind the function blocks.
proof fn lemma_decoded_globals_same(
    b: &XC2BitstreamBits,
    b2: &XC2BitstreamBits,
    f: Seq<bool>,
    table: &ZIATable,
)
    requires
        bits_decoded(b, f, table),
        bits_decoded(b2, f, table),
    ensures
        b2.global_fuses() == b.global_fuses(),
{
    let g = b.spec_global_nets();
    let g2 = b2.spec_global_nets();
    assert(b.fuse_count() == b2.fuse_count());
    assert forall|a: int| 12256 <= a < b.fuse_count() implies #[trigger] b2.global_fuse(a)
        == b.global_fuse(a) by {
        if a < 12259 {
            assert(g.gck_enable@[a - 12256] == f[12256 + (a - 12256)]);
            assert(g2.gck_enable@[a - 12256] == f[12256 + (a - 12256)]);
        } else if 12261 <= a < 12269 {
            let k = (a - 12261) / 2;
            assert(g.gts_enable@[k] == !f[12262 + 2 * k]);
            assert(g2.gts_enable@[k] == !f[12262 + 2 * k]);
            assert(g.gts_invert@[k] == f[12261 + 2 * k]);
            assert(g2.gts_invert@[k] == f[12261 + 2 * k]);
        }
    }
    assert(b2.global_fuses() =~= b.global_fuses());
}

/// A configuration read from the fuse array of another has the same
/// fuse array.
pub proof fn lemma_same_fuses(b: &XC2BitstreamBits, b2: &XC2BitstreamBits, table: &ZIATable)
    requires
        table.wf(),
        b.encodable(table),
        bits_decoded(b2, b.fuses(table), table),
    ensures
        b2.encodable(table),
        b2.fuses(table) == b.fuses(table),
        b2 is XC2C32 <==> b is XC2C32,
{
    let f = b.fuses(table);
    lemma_bits_round_trip(b, table);
    assert(b.spec_iobs().len() == 32 && b2.spec_iobs().len() == 32);
    assert forall|i: int| 0 <= i < 32 implies #[trigger] b2.spec_iobs()[i] == b.spec_iobs()[i] by {
        assert(Some(b.spec_iobs()[i]) == iob_of_fuses(f, iob_fuse_base(i)));
    }
    lemma_decoded_fb_same(
        &b.spec_fb()[0],
        &b2.spec_fb()[0],
        b.spec_iobs().subrange(0, 16),
        b2.spec_iobs().subrange(0, 16),
        f,
        0,
        table,
    );
    lemma_decoded_fb_same(
        &b.spec_fb()[1],
        &b2.spec_fb()[1],
        b.spec_iobs().subrange(16, 32),
        b2.spec_iobs().subrange(16, 32),
        f,
        6128,
        table,
    );
    lemma_decoded_globals_same(b, b2, f, table);
}

/// Reading a bitstream back from its own fuse array and writing it again
/// gives the same JEDEC file: if `b2` is a bitstream that the fuse array
/// of `b` holds, with the speed grade and package of `b`, then the two
/// have the same JEDEC text.
pub proof fn lemma_jed_round_trip(b: &XC2Bitstream, b2: &XC2Bitstream, table: &ZIATable)
    requires
        table.wf(),
        b.bits.encodable(table),
        bits_decoded(&b2.bits, b.bits.fuses(table), table),
        b2.speed_grade@ == b.speed_grade@,
        b2.package@ == b.package@,
    ensures
        b2.bits.encodable(table),
        b2.jed_text(table) == b.jed_text(table),
{
    lemma_same_fuses(&b.bits, &b2.bits, table);
}

} // verus!
