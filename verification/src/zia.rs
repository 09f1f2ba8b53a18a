//! The ZIA (zero-delay interconnect array): the inputs a row can select and
//! the routing table that says which inputs each row offers.
//!
//! The routing table is data of the device, supplied by the caller. Each row
//! lists the inputs it can select together with the fuse pattern that selects
//! them; two further patterns select the constants one and zero.

use vstd::prelude::*;

verus! {

/// Number of ZIA rows feeding the AND array of one function block.
pub const INPUTS_PER_ANDTERM: usize = 40;

/// Number of fuses that encode the choice of one ZIA row.
pub const ZIA_BITS_PER_ROW: usize = 8;

/// One possible input into a ZIA row.
#[derive(Clone, Copy, PartialEq, Eq, Structural, Debug, Hash)]
pub enum XC2ZIAInput {
    /// Feedback from the macrocell `mc` of function block `fb`.
    Macrocell { fb: u8, mc: u8 },
    /// The input buffer of I/O block `ibuf`.
    IBuf { ibuf: u16 },
    /// The dedicated input-only pin.
    DedicatedInput,
    /// Constant zero.
    Zero,
    /// Constant one; also the state of a row that routes nothing.
    One,
}

/// One entry of a routing-table row: an input and the fuse pattern that
/// selects it.
#[derive(Clone, Copy, Debug)]
pub struct ZIAChoice {
    pub input: XC2ZIAInput,
    pub bits: [bool; 8],
}

/// The routing table of a device.
#[derive(Clone, Debug)]
pub struct ZIATable {
    /// The selectable inputs of each of the rows.
    pub rows: Vec<Vec<ZIAChoice>>,
    /// Fuse pattern of a row that selects constant one.
    pub one_bits: [bool; 8],
    /// Fuse pattern of a row that selects constant zero.
    pub zero_bits: [bool; 8],
}

/// Whether `input` is one that a routing table lists (neither constant).
pub open spec fn is_routed_input(input: XC2ZIAInput) -> bool {
    input != XC2ZIAInput::One && input != XC2ZIAInput::Zero
}

/// Whether a row of the table is usable: it lists no constant, no input
/// twice, and no fuse pattern twice or in conflict with the constants'.
pub open spec fn row_wf(row: Seq<ZIAChoice>, one: Seq<bool>, zero: Seq<bool>) -> bool {
    &&& forall|j: int| 0 <= j < row.len() ==> is_routed_input(#[trigger] row[j].input)
    &&& forall|j: int| 0 <= j < row.len() ==> (#[trigger] row[j]).bits@ != one && row[j].bits@ != zero
    &&& forall|j: int, k: int|
        0 <= j < k < row.len() ==> (#[trigger] row[j]).input != (#[trigger] row[k]).input
    &&& forall|j: int, k: int|
        0 <= j < k < row.len() ==> (#[trigger] row[j]).bits@ != (#[trigger] row[k]).bits@
}

/// Index of `input` in `row`, if the row lists it.
pub open spec fn row_find(row: Seq<ZIAChoice>, input: XC2ZIAInput) -> Option<int>
    decreases row.len(),
{
    if row.len() == 0 {
        None
    } else if row.last().input == input && row_find(row.drop_last(), input) is None {
        Some(row.len() - 1)
    } else {
        row_find(row.drop_last(), input)
    }
}

/// Index of the entry of `row` with fuse pattern `bits`, if there is one.
pub open spec fn row_find_bits(row: Seq<ZIAChoice>, bits: Seq<bool>) -> Option<int>
    decreases row.len(),
{
    if row.len() == 0 {
        None
    } else if row.last().bits@ == bits && row_find_bits(row.drop_last(), bits) is None {
        Some(row.len() - 1)
    } else {
        row_find_bits(row.drop_last(), bits)
    }
}

/// `row_find` returns the least index that holds the input, and `None`
/// exactly if no index does.
pub proof fn lemma_row_find(row: Seq<ZIAChoice>, input: XC2ZIAInput)
    ensures
        match row_find(row, input) {
            Some(j) => 0 <= j < row.len() && row[j].input == input && forall|k: int|
                0 <= k < j ==> (#[trigger] row[k]).input != input,
            None => forall|k: int| 0 <= k < row.len() ==> (#[trigger] row[k]).input != input,
        },
    decreases row.len(),
{
    if row.len() > 0 {
        lemma_row_find(row.drop_last(), input);
        assert forall|k: int| 0 <= k < row.len() - 1 implies row.drop_last()[k] == row[k] by {}
    }
}

/// `row_find_bits` returns the least index that holds the pattern, and
/// `None` exactly if no index does.
pub proof fn lemma_row_find_bits(row: Seq<ZIAChoice>, bits: Seq<bool>)
    ensures
        match row_find_bits(row, bits) {
            Some(j) => 0 <= j < row.len() && row[j].bits@ == bits && forall|k: int|
                0 <= k < j ==> (#[trigger] row[k]).bits@ != bits,
            None => forall|k: int| 0 <= k < row.len() ==> (#[trigger] row[k]).bits@ != bits,
        },
    decreases row.len(),
{
    if row.len() > 0 {
        lemma_row_find_bits(row.drop_last(), bits);
        assert forall|k: int| 0 <= k < row.len() - 1 implies row.drop_last()[k] == row[k] by {}
    }
}

/// Compares two fuse patterns.
pub fn bits_eq(a: &[bool; 8], b: &[bool; 8]) -> (r: bool)
    ensures
        r == (a@ == b@),
{
    let r = a[0] == b[0] && a[1] == b[1] && a[2] == b[2] && a[3] == b[3] && a[4] == b[4] && a[5]
        == b[5] && a[6] == b[6] && a[7] == b[7];
    proof {
        if r {
            assert(a@ =~= b@);
        }
    }
    r
}

impl ZIATable {
    /// The table has one row per ZIA row of a function block, every row is
    /// usable, and the two constants have different fuse patterns.
    pub open spec fn wf(&self) -> bool {
        &&& self.rows@.len() == INPUTS_PER_ANDTERM
        &&& self.one_bits@ != self.zero_bits@
        &&& forall|i: int|
            0 <= i < self.rows@.len() ==> row_wf(
                (#[trigger] self.rows@[i])@,
                self.one_bits@,
                self.zero_bits@,
            )
    }

    /// Whether row `row` offers `input`.
    pub open spec fn offers(&self, row: int, input: XC2ZIAInput) -> bool {
        0 <= row < self.rows@.len() && row_find(self.rows@[row]@, input) is Some
    }

    /// The fuse pattern that makes row `row` select `choice`; `None` if the
    /// row cannot select it.
    pub open spec fn spec_encode(&self, row: int, choice: XC2ZIAInput) -> Option<Seq<bool>> {
        if choice == XC2ZIAInput::One {
            Some(self.one_bits@)
        } else if choice == XC2ZIAInput::Zero {
            Some(self.zero_bits@)
        } else if 0 <= row < self.rows@.len() {
            match row_find(self.rows@[row]@, choice) {
                Some(j) => Some(self.rows@[row]@[j].bits@),
                None => None,
            }
        } else {
            None
        }
    }

    /// The input that row `row` selects under fuse pattern `bits`; `None`
    /// if the pattern selects nothing in that row.
    pub open spec fn spec_decode(&self, row: int, bits: Seq<bool>) -> Option<XC2ZIAInput> {
        if bits == self.one_bits@ {
            Some(XC2ZIAInput::One)
        } else if bits == self.zero_bits@ {
            Some(XC2ZIAInput::Zero)
        } else if 0 <= row < self.rows@.len() {
            match row_find_bits(self.rows@[row]@, bits) {
                Some(j) => Some(self.rows@[row]@[j].input),
                None => None,
            }
        } else {
            None
        }
    }

    /// Checks one row against `row_wf`.
    fn row_is_valid(&self, i: usize) -> (r: bool)
        requires
            i < self.rows@.len(),
        ensures
            r == row_wf(self.rows@[i as int]@, self.one_bits@, self.zero_bits@),
    {
        let row = &self.rows[i];
        let n = row.len();
        let mut j: usize = 0;
        while j < n
            invariant
                j <= n,
                n == row@.len(),
                i < self.rows@.len(),
                row@ == self.rows@[i as int]@,
                row_wf(row@.subrange(0, j as int), self.one_bits@, self.zero_bits@),
            decreases n - j,
        {
            let e = row[j];
            let ghost witness_row = row@.subrange(0, j as int + 1);
            if e.input == XC2ZIAInput::One || e.input == XC2ZIAInput::Zero {
                assert(!is_routed_input(row@[j as int].input));
                return false;
            }
            if bits_eq(&e.bits, &self.one_bits) || bits_eq(&e.bits, &self.zero_bits) {
                assert(row@[j as int].bits@ == self.one_bits@ || row@[j as int].bits@
                    == self.zero_bits@);
                return false;
            }
            let mut k: usize = 0;
            while k < j
                invariant
                    k <= j,
                    j < n,
                    n == row@.len(),
                    i < self.rows@.len(),
                    row@ == self.rows@[i as int]@,
                    e == row@[j as int],
                    forall|m: int|
                        0 <= m < k ==> (#[trigger] row@[m]).input != e.input && row@[m].bits@
                            != e.bits@,
                decreases j - k,
            {
                let f = row[k];
                if f.input == e.input || bits_eq(&f.bits, &e.bits) {
                    assert(row@[k as int].input == row@[j as int].input || row@[k as int].bits@
                        == row@[j as int].bits@);
                    return false;
                }
                k += 1;
            }
            proof {
                let prev = row@.subrange(0, j as int);
                assert forall|m: int| 0 <= m < witness_row.len() implies is_routed_input(
                    #[trigger] witness_row[m].input,
                ) by {
                    if m < j {
                        assert(witness_row[m] == prev[m]);
                    }
                }
                assert forall|m: int| 0 <= m < witness_row.len() implies (
                #[trigger] witness_row[m]).bits@ != self.one_bits@ && witness_row[m].bits@
                    != self.zero_bits@ by {
                    if m < j {
                        assert(witness_row[m] == prev[m]);
                    }
                }
                assert forall|a: int, b: int| 0 <= a < b < witness_row.len() implies (
                #[trigger] witness_row[a]).input != (#[trigger] witness_row[b]).input by {
                    if b < j {
                        assert(witness_row[a] == prev[a]);
                        assert(witness_row[b] == prev[b]);
                    } else {
                        assert(witness_row[a] == row@[a]);
                    }
                }
                assert forall|a: int, b: int| 0 <= a < b < witness_row.len() implies (
                #[trigger] witness_row[a]).bits@ != (#[trigger] witness_row[b]).bits@ by {
                    if b < j {
                        assert(witness_row[a] == prev[a]);
                        assert(witness_row[b] == prev[b]);
                    } else {
                        assert(witness_row[a] == row@[a]);
                    }
                }
            }
            j += 1;
        }
        assert(row@.subrange(0, n as int) == row@);
        true
    }

    /// Checks the table against `wf`.
    pub fn is_valid(&self) -> (r: bool)
        ensures
            r == self.wf(),
    {
        if self.rows.len() != INPUTS_PER_ANDTERM {
            return false;
        }
        if bits_eq(&self.one_bits, &self.zero_bits) {
            return false;
        }
        let mut i: usize = 0;
        while i < INPUTS_PER_ANDTERM
            invariant
                i <= INPUTS_PER_ANDTERM,
                self.rows@.len() == INPUTS_PER_ANDTERM,
                forall|m: int|
                    0 <= m < i ==> row_wf(
                        (#[trigger] self.rows@[m])@,
                        self.one_bits@,
                        self.zero_bits@,
                    ),
            decreases INPUTS_PER_ANDTERM - i,
        {
            if !self.row_is_valid(i) {
                return false;
            }
            i += 1;
        }
        true
    }

    /// Whether row `row` offers `input`.
    pub fn row_offers(&self, row: usize, input: XC2ZIAInput) -> (r: bool)
        requires
            row < self.rows@.len(),
        ensures
            r == self.offers(row as int, input),
    {
        let r = &self.rows[row];
        let mut j: usize = 0;
        while j < r.len()
            invariant
                j <= r.len(),
                row < self.rows@.len(),
                r@ == self.rows@[row as int]@,
                row_find(r@.subrange(0, j as int), input) is None,
            decreases r.len() - j,
        {
            if r[j].input == input {
                proof {
                    lemma_row_find(r@, input);
                }
                return true;
            }
            proof {
                let s = r@.subrange(0, j as int + 1);
                assert(s.drop_last() == r@.subrange(0, j as int));
            }
            j += 1;
        }
        assert(r@.subrange(0, j as int) == r@);
        false
    }

    /// The fuse pattern that makes row `row` select `choice`, or `None` if
    /// the row does not offer that input.
    pub fn encode(&self, row: usize, choice: XC2ZIAInput) -> (r: Option<[bool; 8]>)
        requires
            row < self.rows@.len(),
        ensures
            match r {
                Some(b) => self.spec_encode(row as int, choice) == Some(b@),
                None => self.spec_encode(row as int, choice) is None,
            },
    {
        if choice == XC2ZIAInput::One {
            return Some(self.one_bits);
        }
        if choice == XC2ZIAInput::Zero {
            return Some(self.zero_bits);
        }
        let r = &self.rows[row];
        let mut j: usize = 0;
        while j < r.len()
            invariant
                j <= r.len(),
                row < self.rows@.len(),
                r@ == self.rows@[row as int]@,
                choice != XC2ZIAInput::One,
                choice != XC2ZIAInput::Zero,
                forall|k: int| 0 <= k < j ==> (#[trigger] r@[k]).input != choice,
            decreases r.len() - j,
        {
            if r[j].input == choice {
                proof {
                    lemma_row_find(r@, choice);
                }
                return Some(r[j].bits);
            }
            j += 1;
        }
        proof {
            lemma_row_find(r@, choice);
        }
        None
    }

    /// The input that row `row` selects under fuse pattern `bits`, or `None`
    /// if the pattern selects nothing in that row.
    pub fn decode(&self, row: usize, bits: &[bool; 8]) -> (r: Option<XC2ZIAInput>)
        requires
            row < self.rows@.len(),
        ensures
            r == self.spec_decode(row as int, bits@),
    {
        if bits_eq(bits, &self.one_bits) {
            return Some(XC2ZIAInput::One);
        }
        if bits_eq(bits, &self.zero_bits) {
            return Some(XC2ZIAInput::Zero);
        }
        let r = &self.rows[row];
        let mut j: usize = 0;
        while j < r.len()
            invariant
                j <= r.len(),
                row < self.rows@.len(),
                r@ == self.rows@[row as int]@,
                bits@ != self.one_bits@,
                bits@ != self.zero_bits@,
                forall|k: int| 0 <= k < j ==> (#[trigger] r@[k]).bits@ != bits@,
            decreases r.len() - j,
        {
            if bits_eq(&r[j].bits, bits) {
                proof {
                    lemma_row_find_bits(r@, bits@);
                }
                return Some(r[j].input);
            }
            j += 1;
        }
        proof {
            lemma_row_find_bits(r@, bits@);
        }
        None
    }

    /// Decoding the fuse pattern of a choice gives that choice back.
    pub proof fn lemma_decode_encode(&self, row: int, choice: XC2ZIAInput)
        requires
            self.wf(),
            0 <= row < INPUTS_PER_ANDTERM,
            self.spec_encode(row, choice) is Some,
        ensures
            self.spec_decode(row, self.spec_encode(row, choice).unwrap()) == Some(choice),
    {
        let r = self.rows@[row]@;
        assert(row_wf(r, self.one_bits@, self.zero_bits@));
        if choice != XC2ZIAInput::One && choice != XC2ZIAInput::Zero {
            lemma_row_find(r, choice);
            let j = row_find(r, choice).unwrap();
            lemma_row_find_bits(r, r[j].bits@);
        }
    }
}

} // verus!
