//! Reading of JEDEC text: the fuse array and the device name that a file
//! holds.
//!
//! The data of a file begin behind the first byte `STX` and end at the
//! byte `ETX`. They are fields, each closed by `*`, with any white space
//! before a field. The field `QF` and a number gives the number of fuses
//! and clears them; a field `L`, an address and a run of `0` and `1` sets
//! the fuses from that address on; the field `N DEVICE ` and a name names
//! the device. Every other field is passed over, and so is what follows
//! `ETX`.

use vstd::prelude::*;
use vstd::string::StringSliceAdditionalSpecFns;

verus! {

/// The most fuses that a file may ask for.
pub const MAX_FUSES: usize = 16777216;

/// The byte that begins the data.
pub const STX: u8 = 2;

/// The byte that ends the data.
pub const ETX: u8 = 3;

/// The byte that closes a field.
pub const STAR: u8 = 42;

/// Whether `c` is white space: a blank, a tab, a line feed or a carriage
/// return.
pub open spec fn is_space(c: u8) -> bool {
    c == 32 || c == 9 || c == 10 || c == 13
}

/// Whether `c` is a decimal digit.
pub open spec fn is_digit(c: u8) -> bool {
    48 <= c <= 57
}

/// What a scan looks for.
#[derive(Clone, Copy, Debug)]
pub enum Stop {
    /// The byte that begins the data.
    Start,
    /// The byte that closes a field.
    Star,
    /// A byte that is no white space.
    NoSpace,
    /// A byte that is no digit.
    NoDigit,
}

/// Whether a scan for `what` stops at the byte `c`.
pub open spec fn stops(what: Stop, c: u8) -> bool {
    match what {
        Stop::Start => c == STX,
        Stop::Star => c == STAR,
        Stop::NoSpace => !is_space(c),
        Stop::NoDigit => !is_digit(c),
    }
}

/// The first place from `i` on where a scan of `s` for `what` stops; the
/// length of `s` if it stops nowhere.
pub open spec fn next_stop(s: Seq<u8>, i: int, what: Stop) -> int
    decreases s.len() - i,
{
    if i >= s.len() {
        s.len() as int
    } else if stops(what, s[i]) {
        i
    } else {
        next_stop(s, i + 1, what)
    }
}

/// The number that the digits of `s` from `i` to before `j` spell.
pub open spec fn number(s: Seq<u8>, i: int, j: int) -> nat
    decreases j - i,
{
    if j <= i {
        0
    } else {
        number(s, i, j - 1) * 10 + (s[j - 1] - 48) as nat
    }
}

/// The fuses that the bytes of `s` from `i` on spell: `0` and `1` stand
/// for a fuse each, white space is passed over, and any other byte spoils
/// the run.
pub open spec fn fuse_run(s: Seq<u8>, i: int) -> Option<Seq<bool>>
    decreases s.len() - i,
{
    if i >= s.len() {
        Some(Seq::empty())
    } else if is_space(s[i]) {
        fuse_run(s, i + 1)
    } else if s[i] == 48 || s[i] == 49 {
        match fuse_run(s, i + 1) {
            Some(rest) => Some(seq![s[i] == 49] + rest),
            None => None,
        }
    } else {
        None
    }
}

/// The fuses `fuses` with the fuses `bits` laid over them from address
/// `addr` on.
pub open spec fn overlay(fuses: Seq<bool>, addr: int, bits: Seq<bool>) -> Seq<bool> {
    Seq::new(
        fuses.len(),
        |i: int|
            if addr <= i < addr + bits.len() {
                bits[i - addr]
            } else {
                fuses[i]
            },
    )
}

/// What a JEDEC file holds, as far as this library reads it.
pub struct JedContents {
    /// The fuses.
    pub fuses: Seq<bool>,
    /// The name of the device, if the file names one.
    pub device: Option<Seq<u8>>,
}

/// The bytes that begin the field that names the device.
pub open spec fn device_note() -> Seq<u8> {
    "N DEVICE ".spec_bytes()
}

/// Whether `s` begins with `head`.
pub open spec fn begins_with(s: Seq<u8>, head: Seq<u8>) -> bool {
    s.len() >= head.len() && s.subrange(0, head.len() as int) == head
}

/// What the file holds once the field `field` is read, if the field is
/// in order.
pub open spec fn field_applied(field: Seq<u8>, c: JedContents) -> Option<JedContents> {
    if field.len() > 0 && field[0] == 76 {
        let j = next_stop(field, 1, Stop::NoDigit);
        let addr = number(field, 1, j);
        match fuse_run(field, j) {
            Some(bits) => if j > 1 && addr + bits.len() <= c.fuses.len() {
                Some(JedContents { fuses: overlay(c.fuses, addr as int, bits), device: c.device })
            } else {
                None
            },
            None => None,
        }
    } else if field.len() > 1 && field[0] == 81 && field[1] == 70 {
        let j = next_stop(field, 2, Stop::NoDigit);
        let n = number(field, 2, j);
        if j > 2 && j == field.len() && n <= MAX_FUSES {
            Some(JedContents { fuses: Seq::new(n, |i: int| false), device: c.device })
        } else {
            None
        }
    } else if begins_with(field, device_note()) {
        Some(
            JedContents {
                fuses: c.fuses,
                device: Some(field.subrange(device_note().len() as int, field.len() as int)),
            },
        )
    } else {
        Some(c)
    }
}

/// What the file holds once the fields of `rest` are read, up to the
/// byte that ends the data; `None` if that byte is missing, a field is
/// not closed, or a field is not in order.
pub open spec fn fields_read(rest: Seq<u8>, c: JedContents) -> Option<JedContents>
    decreases rest.len(),
    via fields_read_ends
{
    let p = next_stop(rest, 0, Stop::NoSpace);
    if p >= rest.len() {
        None
    } else if rest[p] == ETX {
        Some(c)
    } else {
        let e = next_stop(rest, p, Stop::Star);
        if e >= rest.len() {
            None
        } else {
            match field_applied(rest.subrange(p, e), c) {
                Some(next) => fields_read(rest.subrange(e + 1, rest.len() as int), next),
                None => None,
            }
        }
    }
}

/// What is left behind a field is shorter than what was there.
#[via_fn]
proof fn fields_read_ends(rest: Seq<u8>, c: JedContents) {
    lemma_next_stop_is(rest, 0, Stop::NoSpace);
    let p = next_stop(rest, 0, Stop::NoSpace);
    if p < rest.len() {
        lemma_next_stop_is(rest, p, Stop::Star);
    }
}

/// What the JEDEC file `text` holds; `None` if it is not in order.
pub open spec fn jed_contents(text: Seq<u8>) -> Option<JedContents> {
    let s = next_stop(text, 0, Stop::Start);
    if s >= text.len() {
        None
    } else {
        fields_read(
            text.subrange(s + 1, text.len() as int),
            JedContents { fuses: Seq::empty(), device: None },
        )
    }
}

/// A scan stops at `j` if it stops at no byte from `i` to before `j`,
/// and `j` is the end or a byte at which it stops.
pub proof fn lemma_next_stop(s: Seq<u8>, i: int, j: int, what: Stop)
    requires
        0 <= i <= j <= s.len(),
        forall|k: int| i <= k < j ==> !stops(what, #[trigger] s[k]),
        j == s.len() || stops(what, s[j]),
    ensures
        next_stop(s, i, what) == j,
    decreases j - i,
{
    if i < j {
        assert(!stops(what, s[i]));
        lemma_next_stop(s, i + 1, j, what);
    }
}

/// Where a scan stops lies between where it began and the end, and the
/// scan stops at no byte before.
pub proof fn lemma_next_stop_is(s: Seq<u8>, i: int, what: Stop)
    requires
        0 <= i <= s.len(),
    ensures
        i <= next_stop(s, i, what) <= s.len(),
        forall|k: int| i <= k < next_stop(s, i, what) ==> !stops(what, #[trigger] s[k]),
        next_stop(s, i, what) < s.len() ==> stops(what, s[next_stop(s, i, what)]),
    decreases s.len() - i,
{
    if i < s.len() && !stops(what, s[i]) {
        lemma_next_stop_is(s, i + 1, what);
    }
}

/// What a scan finds in a text behind its first `pos` bytes is what it
/// finds in the whole text from `pos` on.
pub proof fn lemma_next_stop_behind(s: Seq<u8>, pos: int, i: int, what: Stop)
    requires
        0 <= pos,
        0 <= i,
        pos + i <= s.len(),
    ensures
        next_stop(s.subrange(pos, s.len() as int), i, what) + pos == next_stop(s, pos + i, what),
    decreases s.len() - pos - i,
{
    let rest = s.subrange(pos, s.len() as int);
    if i < rest.len() {
        assert(rest[i] == s[pos + i]);
        if !stops(what, rest[i]) {
            lemma_next_stop_behind(s, pos, i + 1, what);
        }
    }
}

/// More digits spell no smaller number.
pub proof fn lemma_number_grows(s: Seq<u8>, i: int, k: int, j: int)
    requires
        0 <= i <= k <= j <= s.len(),
        forall|q: int| i <= q < j ==> is_digit(#[trigger] s[q]),
    ensures
        number(s, i, k) <= number(s, i, j),
    decreases j - k,
{
    if k < j {
        lemma_number_grows(s, i, k, j - 1);
        assert(is_digit(s[j - 1]));
    }
}

/// What a JEDEC file holds.
#[derive(Debug)]
pub struct JedFile {
    /// The fuses.
    pub fuses: Vec<bool>,
    /// The name of the device, if the file names one.
    pub device: Option<Vec<u8>>,
}

impl View for JedFile {
    type V = JedContents;

    open spec fn view(&self) -> JedContents {
        JedContents {
            fuses: self.fuses@,
            device: match self.device {
                Some(d) => Some(d@),
                None => None,
            },
        }
    }
}

/// Whether a scan for `what` stops at the byte `c`.
fn stops_at(what: Stop, c: u8) -> (r: bool)
    ensures
        r == stops(what, c),
{
    match what {
        Stop::Start => c == STX,
        Stop::Star => c == STAR,
        Stop::NoSpace => !(c == 32 || c == 9 || c == 10 || c == 13),
        Stop::NoDigit => !(48 <= c && c <= 57),
    }
}

/// The first place from `i` on where a scan of `s` for `what` stops.
fn find_stop(s: &[u8], i: usize, what: Stop) -> (j: usize)
    requires
        i <= s@.len(),
    ensures
        j == next_stop(s@, i as int, what),
        i <= j <= s@.len(),
{
    let mut j: usize = i;
    while j < s.len() && !stops_at(what, s[j])
        invariant
            i <= j <= s@.len(),
            forall|k: int| i <= k < j ==> !stops(what, #[trigger] s@[k]),
        decreases s@.len() - j,
    {
        j += 1;
    }
    proof {
        lemma_next_stop(s@, i as int, j as int, what);
    }
    j
}

/// The bytes of `s` from `lo` to before `hi`.
fn copy_range(s: &[u8], lo: usize, hi: usize) -> (r: Vec<u8>)
    requires
        lo <= hi <= s@.len(),
    ensures
        r@ == s@.subrange(lo as int, hi as int),
{
    let mut r: Vec<u8> = Vec::new();
    let mut k: usize = lo;
    while k < hi
        invariant
            lo <= k <= hi,
            hi <= s@.len(),
            r@ == s@.subrange(lo as int, k as int),
        decreases hi - k,
    {
        r.push(s[k]);
        assert(r@ =~= s@.subrange(lo as int, k + 1));
        k += 1;
    }
    r
}

/// The number that the digits of `s` from `i` to before `j` spell, if it
/// is no more than `MAX_FUSES`.
fn read_number(s: &[u8], i: usize, j: usize) -> (r: Option<usize>)
    requires
        i <= j <= s@.len(),
        forall|q: int| i <= q < j ==> is_digit(#[trigger] s@[q]),
    ensures
        match r {
            Some(v) => v == number(s@, i as int, j as int) && v <= MAX_FUSES,
            None => number(s@, i as int, j as int) > MAX_FUSES,
        },
{
    let mut acc: usize = 0;
    let mut k: usize = i;
    while k < j
        invariant
            i <= k <= j,
            j <= s@.len(),
            forall|q: int| i <= q < j ==> is_digit(#[trigger] s@[q]),
            acc == number(s@, i as int, k as int),
            acc <= MAX_FUSES,
        decreases j - k,
    {
        assert(is_digit(s@[k as int]));
        let d: usize = (s[k] - 48) as usize;
        acc = acc * 10 + d;
        k += 1;
        if acc > MAX_FUSES {
            proof {
                lemma_number_grows(s@, i as int, k as int, j as int);
            }
            return None;
        }
    }
    Some(acc)
}

/// The fuses that the bytes of `s` from `i` on spell, if they spell
/// fuses.
fn read_fuses(s: &[u8], i: usize) -> (r: Option<Vec<bool>>)
    requires
        i <= s@.len(),
    ensures
        match r {
            Some(v) => fuse_run(s@, i as int) == Some(v@),
            None => fuse_run(s@, i as int) is None,
        },
{
    let mut acc: Vec<bool> = Vec::new();
    let mut k: usize = i;
    while k < s.len()
        invariant
            i <= k <= s@.len(),
            fuse_run(s@, i as int) == (match fuse_run(s@, k as int) {
                Some(rest) => Some(acc@ + rest),
                None => None,
            }),
        decreases s@.len() - k,
    {
        let c = s[k];
        let ghost before = acc@;
        if c == 48 || c == 49 {
            acc.push(c == 49);
            proof {
                if let Some(rest) = fuse_run(s@, k + 1) {
                    assert(before + (seq![c == 49] + rest) =~= acc@ + rest);
                }
            }
        } else if !(c == 32 || c == 9 || c == 10 || c == 13) {
            return None;
        }
        k += 1;
    }
    proof {
        assert(acc@ + Seq::<bool>::empty() =~= acc@);
    }
    Some(acc)
}

/// Whether `s` begins with `head`.
fn starts_with(s: &[u8], head: &[u8]) -> (r: bool)
    ensures
        r == begins_with(s@, head@),
{
    if s.len() < head.len() {
        return false;
    }
    let mut k: usize = 0;
    while k < head.len()
        invariant
            k <= head@.len(),
            head@.len() <= s@.len(),
            forall|q: int| 0 <= q < k ==> s@[q] == head@[q],
        decreases head@.len() - k,
    {
        if s[k] != head[k] {
            proof {
                assert(s@.subrange(0, head@.len() as int)[k as int] != head@[k as int]);
            }
            return false;
        }
        k += 1;
    }
    proof {
        assert(s@.subrange(0, head@.len() as int) =~= head@);
    }
    true
}

/// Reads the field `field` into `c`. Returns whether the field is in
/// order; if it is not, `c` is left as it was.
fn apply_field(field: &Vec<u8>, c: &mut JedFile) -> (ok: bool)
    requires
        old(c).fuses@.len() <= MAX_FUSES,
    ensures
        final(c).fuses@.len() <= MAX_FUSES,
        ok ==> field_applied(field@, old(c)@) == Some(final(c)@),
        !ok ==> field_applied(field@, old(c)@) is None && *final(c) == *old(c),
{
    let s = field.as_slice();
    let n = s.len();
    if n > 0 && s[0] == 76 {
        let j = find_stop(s, 1, Stop::NoDigit);
        proof {
            lemma_next_stop_is(s@, 1, Stop::NoDigit);
        }
        let addr = read_number(s, 1, j);
        let bits = read_fuses(s, j);
        match (addr, bits) {
            (Some(addr), Some(bits)) => {
                if j > 1 && bits.len() <= c.fuses.len() && addr <= c.fuses.len() - bits.len() {
                    let ghost before = c.fuses@;
                    let mut k: usize = 0;
                    while k < bits.len()
                        invariant
                            k <= bits@.len(),
                            addr + bits@.len() <= before.len(),
                            before.len() <= MAX_FUSES,
                            c.fuses@.len() == before.len(),
                            c.device == old(c).device,
                            forall|q: int|
                                0 <= q < before.len() ==> #[trigger] c.fuses@[q] == (if addr <= q
                                    < addr + k {
                                    bits@[q - addr]
                                } else {
                                    before[q]
                                }),
                        decreases bits@.len() - k,
                    {
                        c.fuses[addr + k] = bits[k];
                        k += 1;
                    }
                    proof {
                        assert(c.fuses@ =~= overlay(before, addr as int, bits@));
                    }
                    true
                } else {
                    false
                }
            },
            _ => false,
        }
    } else if n > 1 && s[0] == 81 && s[1] == 70 {
        let j = find_stop(s, 2, Stop::NoDigit);
        proof {
            lemma_next_stop_is(s@, 2, Stop::NoDigit);
        }
        if j > 2 && j == n {
            match read_number(s, 2, j) {
                Some(count) => {
                    let mut fuses: Vec<bool> = Vec::new();
                    let mut k: usize = 0;
                    while k < count
                        invariant
                            k <= count,
                            fuses@.len() == k,
                            forall|q: int| 0 <= q < k ==> !#[trigger] fuses@[q],
                        decreases count - k,
                    {
                        fuses.push(false);
                        k += 1;
                    }
                    proof {
                        assert(fuses@ =~= Seq::new(count as nat, |i: int| false));
                    }
                    c.fuses = fuses;
                    true
                },
                None => false,
            }
        } else {
            false
        }
    } else if starts_with(s, "N DEVICE ".as_bytes()) {
        let head = "N DEVICE ".as_bytes().len();
        c.device = Some(copy_range(s, head, n));
        true
    } else {
        true
    }
}

/// Reads a JEDEC file: the fuses it sets and the device it names.
///
/// Returns `None` if the text holds no byte that begins the data or none
/// that ends them, if a field is not closed, if a field `QF` is not
/// followed by a number and nothing else, or by a number above
/// `MAX_FUSES`, or if a fuse field is malformed or sets fuses that the
/// file has not.
pub fn read_jed(text: &[u8]) -> (r: Option<JedFile>)
    ensures
        match r {
            Some(f) => jed_contents(text@) == Some(f@),
            None => jed_contents(text@) is None,
        },
{
    let n = text.len();
    let start = find_stop(text, 0, Stop::Start);
    if start >= n {
        return None;
    }
    let mut c = JedFile { fuses: Vec::new(), device: None };
    let mut pos: usize = start + 1;
    loop
        invariant
            n == text@.len(),
            pos <= n,
            c.fuses@.len() <= MAX_FUSES,
            fields_read(text@.subrange(pos as int, n as int), c@) == jed_contents(text@),
        decreases n - pos,
    {
        let ghost rest = text@.subrange(pos as int, n as int);
        let p = find_stop(text, pos, Stop::NoSpace);
        proof {
            lemma_next_stop_behind(text@, pos as int, 0, Stop::NoSpace);
        }
        if p >= n {
            return None;
        }
        assert(rest[p - pos] == text@[p as int]);
        if text[p] == ETX {
            return Some(c);
        }
        let e = find_stop(text, p, Stop::Star);
        proof {
            lemma_next_stop_behind(text@, pos as int, p - pos, Stop::Star);
        }
        if e >= n {
            return None;
        }
        let field = copy_range(text, p, e);
        proof {
            assert(field@ =~= rest.subrange(p - pos, e - pos));
            assert(rest.subrange(e - pos + 1, rest.len() as int) =~= text@.subrange(
                e + 1,
                n as int,
            ));
        }
        if !apply_field(&field, &mut c) {
            return None;
        }
        pos = e + 1;
    }
}

} // verus!
