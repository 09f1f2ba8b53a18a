//! Building text as bytes: literals, decimal numbers, and fuse bits.

use vstd::prelude::*;
use vstd::string::StringSliceAdditionalSpecFns;

verus! {

/// Appends the bytes of `s` to `out`.
pub fn push_bytes(out: &mut Vec<u8>, s: &str)
    ensures
        final(out)@ == old(out)@ + s.spec_bytes(),
{
    let b = s.as_bytes();
    let mut i: usize = 0;
    while i < b.len()
        invariant
            i <= b@.len(),
            b@ == s.spec_bytes(),
            out@ == old(out)@ + b@.subrange(0, i as int),
        decreases b@.len() - i,
    {
        out.push(b[i]);
        assert(b@.subrange(0, i as int + 1) == b@.subrange(0, i as int).push(b@[i as int]));
        i += 1;
    }
    assert(b@.subrange(0, i as int) == b@);
}

/// Appends `more` to `out`.
pub fn append(out: &mut Vec<u8>, more: &Vec<u8>)
    ensures
        final(out)@ == old(out)@ + more@,
{
    let mut i: usize = 0;
    while i < more.len()
        invariant
            i <= more@.len(),
            out@ == old(out)@ + more@.subrange(0, i as int),
        decreases more@.len() - i,
    {
        out.push(more[i]);
        assert(more@.subrange(0, i as int + 1) == more@.subrange(0, i as int).push(more@[i as int]));
        i += 1;
    }
    assert(more@.subrange(0, i as int) == more@);
}

/// The ASCII digit of `d`.
pub open spec fn digit(d: nat) -> u8 {
    (48 + d % 10) as u8
}

/// `n` in decimal, without leading zeros.
pub open spec fn spec_decimal(n: nat) -> Seq<u8>
    decreases n,
{
    if n < 10 {
        seq![digit(n)]
    } else {
        spec_decimal(n / 10).push(digit(n % 10))
    }
}

/// `n` in decimal, in exactly `width` digits: the low digits of `n`,
/// padded with zeros at the front.
pub open spec fn spec_decimal_padded(n: nat, width: nat) -> Seq<u8>
    decreases width,
{
    if width == 0 {
        Seq::empty()
    } else {
        spec_decimal_padded(n / 10, (width - 1) as nat).push(digit(n % 10))
    }
}

/// Appends `n` in decimal, without leading zeros.
pub fn push_decimal(out: &mut Vec<u8>, n: u64)
    ensures
        final(out)@ == old(out)@ + spec_decimal(n as nat),
{
    // collect the digits from the last to the first
    let mut digits: Vec<u8> = Vec::new();
    let mut rest: u64 = n;
    digits.push((48 + rest % 10) as u8);
    rest = rest / 10;
    let ghost mut shown: Seq<u8> = seq![digit(n as nat % 10)];
    proof {
        assert(digits@ =~= shown);
    }
    while rest > 0
        invariant
            digits@.len() >= 1,
            digits@.len() == shown.len(),
            forall|k: int| 0 <= k < shown.len() ==> digits@[k] == shown[shown.len() - 1 - k],
            spec_decimal(n as nat) == if rest == 0 {
                shown
            } else {
                spec_decimal(rest as nat) + shown
            },
        decreases rest,
    {
        let d = (48 + rest % 10) as u8;
        digits.push(d);
        proof {
            let ghost next = seq![digit(rest as nat % 10)] + shown;
            if rest < 10 {
                assert(spec_decimal(rest as nat) == seq![digit(rest as nat)]);
                assert(spec_decimal(n as nat) =~= next);
            } else {
                assert(spec_decimal(rest as nat) == spec_decimal(rest as nat / 10).push(
                    digit(rest as nat % 10),
                ));
                assert(spec_decimal(n as nat) =~= spec_decimal(rest as nat / 10) + next);
            }
            assert forall|k: int| 0 <= k < next.len() implies digits@[k] == next[next.len() - 1
                - k] by {
                if k < shown.len() {
                    assert(next[next.len() - 1 - k] == shown[shown.len() - 1 - k]);
                }
            }
            shown = next;
        }
        rest = rest / 10;
    }
    let ghost start = out@;
    let mut i: usize = digits.len();
    while i > 0
        invariant
            i <= digits@.len(),
            digits@.len() == shown.len(),
            forall|k: int| 0 <= k < shown.len() ==> digits@[k] == shown[shown.len() - 1 - k],
            out@ == start + shown.subrange(0, shown.len() - i),
        decreases i,
    {
        i -= 1;
        out.push(digits[i]);
        assert(shown.subrange(0, shown.len() - i) =~= shown.subrange(0, shown.len() - i - 1).push(
            shown[shown.len() - 1 - i],
        ));
    }
    assert(shown.subrange(0, shown.len() as int) == shown);
}

/// Appends `n` in decimal in exactly six digits, padded with zeros.
pub fn push_decimal6(out: &mut Vec<u8>, n: usize)
    ensures
        final(out)@ == old(out)@ + spec_decimal_padded(n as nat, 6),
{
    let mut digits: Vec<u8> = Vec::new();
    let mut rest: usize = n;
    let mut i: usize = 0;
    let ghost mut shown: Seq<u8> = Seq::empty();
    while i < 6
        invariant
            i <= 6,
            digits@.len() == i,
            shown.len() == i,
            forall|k: int| 0 <= k < i ==> digits@[k] == shown[i - 1 - k],
            spec_decimal_padded(n as nat, 6) == spec_decimal_padded(rest as nat, (6 - i) as nat)
                + shown,
        decreases 6 - i,
    {
        let d = (48 + rest % 10) as u8;
        digits.push(d);
        proof {
            let next = seq![d] + shown;
            assert(spec_decimal_padded(rest as nat, (6 - i) as nat) == spec_decimal_padded(
                rest as nat / 10,
                (6 - i - 1) as nat,
            ).push(digit(rest as nat % 10)));
            assert(digit(rest as nat % 10) == d);
            assert(spec_decimal_padded(n as nat, 6) =~= spec_decimal_padded(
                rest as nat / 10,
                (6 - i - 1) as nat,
            ) + next);
            assert forall|k: int| 0 <= k < i + 1 implies digits@[k] == next[i - k] by {
                if k < i {
                    assert(next[i - k] == shown[i - 1 - k]);
                }
            }
            shown = next;
        }
        rest = rest / 10;
        i += 1;
    }
    proof {
        assert(spec_decimal_padded(rest as nat, 0) =~= Seq::<u8>::empty());
        assert(spec_decimal_padded(n as nat, 6) =~= shown);
    }
    let ghost start = out@;
    let mut j: usize = 6;
    while j > 0
        invariant
            j <= 6,
            digits@.len() == 6,
            shown.len() == 6,
            forall|k: int| 0 <= k < 6 ==> digits@[k] == shown[5 - k],
            out@ == start + shown.subrange(0, 6 - j),
        decreases j,
    {
        j -= 1;
        out.push(digits[j]);
        assert(shown.subrange(0, 6 - j) =~= shown.subrange(0, 6 - j - 1).push(shown[5 - j]));
    }
    assert(shown.subrange(0, 6) =~= shown);
}

/// The ASCII character of a fuse: `1` if it is set, else `0`.
pub open spec fn bit_char(b: bool) -> u8 {
    if b {
        49
    } else {
        48
    }
}

/// The ASCII characters of a run of fuses.
pub open spec fn bit_chars(bits: Seq<bool>) -> Seq<u8> {
    Seq::new(bits.len(), |i: int| bit_char(bits[i]))
}

/// Appending four texts one after the other appends their sum.
pub proof fn lemma_append4(s: Seq<u8>, a: Seq<u8>, b: Seq<u8>, c: Seq<u8>, d: Seq<u8>)
    ensures
        s + a + b + c + d == s + (a + b + c + d),
{
    assert(s + a + b + c + d =~= s + (a + b + c + d));
}

/// Appending six texts one after the other appends their sum.
pub proof fn lemma_append6(
    s: Seq<u8>,
    a: Seq<u8>,
    b: Seq<u8>,
    c: Seq<u8>,
    d: Seq<u8>,
    e: Seq<u8>,
    f: Seq<u8>,
)
    ensures
        s + a + b + c + d + e + f == s + (a + b + c + d + e + f),
{
    assert(s + a + b + c + d + e + f =~= s + (a + b + c + d + e + f));
}

/// Appending three texts one after the other appends their sum.
pub proof fn lemma_append3(s: Seq<u8>, a: Seq<u8>, b: Seq<u8>, c: Seq<u8>)
    ensures
        s + a + b + c == s + (a + b + c),
{
    assert(s + a + b + c =~= s + (a + b + c));
}

/// Appending seven texts one after the other appends their sum.
pub proof fn lemma_append7(
    s: Seq<u8>,
    a: Seq<u8>,
    b: Seq<u8>,
    c: Seq<u8>,
    d: Seq<u8>,
    e: Seq<u8>,
    f: Seq<u8>,
    g: Seq<u8>,
)
    ensures
        s + a + b + c + d + e + f + g == s + (a + b + c + d + e + f + g),
{
    assert(s + a + b + c + d + e + f + g =~= s + (a + b + c + d + e + f + g));
}

/// Appending five texts one after the other appends their sum.
pub proof fn lemma_append5(s: Seq<u8>, a: Seq<u8>, b: Seq<u8>, c: Seq<u8>, d: Seq<u8>, e: Seq<u8>)
    ensures
        s + a + b + c + d + e == s + (a + b + c + d + e),
{
    assert(s + a + b + c + d + e =~= s + (a + b + c + d + e));
}

/// Appending eight texts one after the other appends their sum.
pub proof fn lemma_append8(
    s: Seq<u8>,
    a: Seq<u8>,
    b: Seq<u8>,
    c: Seq<u8>,
    d: Seq<u8>,
    e: Seq<u8>,
    f: Seq<u8>,
    g: Seq<u8>,
    h: Seq<u8>,
)
    ensures
        s + a + b + c + d + e + f + g + h == s + (a + b + c + d + e + f + g + h),
{
    assert(s + a + b + c + d + e + f + g + h =~= s + (a + b + c + d + e + f + g + h));
}

} // verus!
