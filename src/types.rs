//! The data model shared by the engine and the translator: states, tape
//! symbols, head moves and the packed two-track symbols.
use crate::text::push_char;
use intbits::Bits;
use vstd::prelude::*;
use vstd::string::*;

verus! {

/// Number of bits that one symbol of a two-tape machine may occupy in a packed symbol.
pub const MAX_BIT_COUNT: u64 = 30;

/// Largest symbol value that fits in `MAX_BIT_COUNT` bits.
pub const SYMBOL_MASK: u64 = 0x3FFF_FFFF;

/// Why a text could not be read.
#[derive(Debug, Clone, Copy, PartialEq, Eq, Structural)]
pub enum FormatError {
    /// A tape word holds a character that is not a decimal digit.
    NotADigit,
    /// A transition line has the wrong number of fields.
    FieldCount,
    /// A symbol field is not a decimal number that fits in 64 bits.
    BadNumber,
    /// A move field is not one of `L`, `R`, `S`.
    BadDirection,
    /// A symbol does not fit in the bit budget of a packed symbol.
    SymbolTooWide,
    /// A two-tape machine has too many symbols for its packed alphabet to be
    /// listed in memory.
    AlphabetTooLarge,
}

/// A machine state, identified by its name.
#[derive(Debug, Clone, PartialEq, Eq, Hash)]
pub struct State(pub String);

impl View for State {
    type V = Seq<char>;

    open spec fn view(&self) -> Seq<char> {
        self.0@
    }
}

/// The reserved name of every machine's initial state.
pub open spec fn start_name() -> Seq<char> {
    seq!['s', 't', 'a', 'r', 't']
}

/// The reserved name of the accepting state.
pub open spec fn accept_name() -> Seq<char> {
    seq!['a', 'c', 'c', 'e', 'p', 't']
}

impl State {
    /// The reserved initial state `start`.
    pub fn start() -> (r: State)
        ensures
            r@ == start_name(),
    {
        let s = String::from_str("start");
        proof {
            reveal_strlit("start");
            assert(s@ =~= start_name());
        }
        State(s)
    }

    /// The reserved accepting state `accept`.
    pub fn accept() -> (r: State)
        ensures
            r@ == accept_name(),
    {
        let s = String::from_str("accept");
        proof {
            reveal_strlit("accept");
            assert(s@ =~= accept_name());
        }
        State(s)
    }

    /// The state's name.
    pub fn value(&self) -> (r: &str)
        ensures
            r@ == self@,
    {
        self.0.as_str()
    }

    /// A fresh copy of the state's name.
    pub fn to_string(&self) -> (r: String)
        ensures
            r@ == self@,
    {
        self.0.clone()
    }

    /// Whether two states have the same name.
    pub fn same_as(&self, other: &State) -> (r: bool)
        ensures
            r == (self@ == other@),
    {
        self.0 == other.0
    }
}

/// The decimal digit character for `d < 10`.
pub open spec fn digit_char(d: nat) -> char {
    if d == 0 { '0' }
    else if d == 1 { '1' }
    else if d == 2 { '2' }
    else if d == 3 { '3' }
    else if d == 4 { '4' }
    else if d == 5 { '5' }
    else if d == 6 { '6' }
    else if d == 7 { '7' }
    else if d == 8 { '8' }
    else { '9' }
}

/// The decimal notation of `n`, most significant digit first, no leading zeros.
pub open spec fn decimal(n: nat) -> Seq<char>
    decreases n,
{
    if n < 10 {
        seq![digit_char(n)]
    } else {
        decimal(n / 10).push(digit_char(n % 10))
    }
}

fn digit_to_char(d: u64) -> (r: char)
    requires
        d < 10,
    ensures
        r == digit_char(d as nat),
{
    if d == 0 { '0' }
    else if d == 1 { '1' }
    else if d == 2 { '2' }
    else if d == 3 { '3' }
    else if d == 4 { '4' }
    else if d == 5 { '5' }
    else if d == 6 { '6' }
    else if d == 7 { '7' }
    else if d == 8 { '8' }
    else { '9' }
}

/// The decimal notation of `n`.
fn decimal_string(n: u64) -> (r: String)
    ensures
        r@ == decimal(n as nat),
{
    let mut digits: Vec<char> = vec![digit_to_char(n % 10)];
    let mut m: u64 = n / 10;
    assert(n < 10 ==> decimal(n as nat) =~= digits@.reverse());
    assert(n >= 10 ==> decimal(n as nat) =~= decimal(m as nat) + digits@.reverse());
    while m > 0
        invariant
            m == 0 ==> decimal(n as nat) == digits@.reverse(),
            m > 0 ==> decimal(n as nat) == decimal(m as nat) + digits@.reverse(),
        decreases m,
    {
        let d = digit_to_char(m % 10);
        let ghost before = digits@;
        digits.push(d);
        assert(digits@.reverse() =~= seq![d] + before.reverse());
        if m < 10 {
            assert(decimal(m as nat) =~= seq![d]);
        } else {
            assert(decimal(m as nat) =~= decimal((m / 10) as nat) + seq![d]);
        }
        m = m / 10;
        assert(m == 0 ==> decimal(n as nat) =~= digits@.reverse());
        assert(m > 0 ==> decimal(n as nat) =~= decimal(m as nat) + digits@.reverse());
    }
    let ghost rev = digits@.reverse();
    let mut r = String::new();
    let mut k: usize = digits.len();
    assert(rev.take(0) =~= r@);
    while k > 0
        invariant
            k <= digits@.len(),
            rev == digits@.reverse(),
            r@ == rev.take(digits@.len() - k),
        decreases k,
    {
        k = k - 1;
        push_char(&mut r, digits[k]);
        assert(rev[digits@.len() - 1 - k] == digits@[k as int]);
        assert(r@ =~= rev.take(digits@.len() - k));
    }
    assert(rev.take(digits@.len() as int) =~= rev);
    r
}

/// One cell of a tape.
#[derive(Debug, Clone, Copy, PartialEq, Eq, Structural, Hash)]
pub struct TapeEntry(pub u64);

/// The value of the blank symbol.
pub const BLANK: u64 = 0;

/// Relies on intbits' `Bits::bit` on `u64`: bit `i` of `v`; panics for `i > 63`.
#[verifier::external_body]
fn u64_bit(v: u64, i: u64) -> (r: bool)
    requires
        i < 64,
    ensures
        r == ((v >> i) & 1 != 0),
{
    v.bit(i)
}

/// Relies on intbits' `Bits::bits` on `u64` over `start..end`: the bits below
/// `end` shifted down by `start`.
#[verifier::external_body]
fn u64_bits(v: u64, start: u64, end: u64) -> (r: u64)
    requires
        start <= end < 64,
    ensures
        r == (v & (u64::MAX >> 1u64 >> (63 - end))) >> start,
{
    v.bits(start..end)
}

/// Relies on intbits' `Bits::with_bits` on `u64` over `start..end`: clears that
/// range and ors in `bits` shifted up by `start`; panics when `bits` reaches
/// outside the range.
#[verifier::external_body]
fn u64_with_bits(v: u64, start: u64, end: u64, bits: u64) -> (r: u64)
    requires
        start <= end < 64,
        (bits << start) & !((u64::MAX >> 1u64 >> (63 - end)) & (u64::MAX << start)) == 0,
    ensures
        r == (v & !((u64::MAX >> 1u64 >> (63 - end)) & (u64::MAX << start))) | (bits << start),
{
    v.with_bits(start..end, bits)
}

/// Relies on intbits' `Bits::with_bit` on `u64`: bit `i` set to `bit`; panics
/// for `i > 63`.
#[verifier::external_body]
fn u64_with_bit(v: u64, i: u64, bit: bool) -> (r: u64)
    requires
        i < 64,
    ensures
        r == (v & !(1u64 << i)) | ((if bit { 1u64 } else { 0u64 }) << i),
{
    v.with_bit(i, bit)
}

impl TapeEntry {
    /// The symbol in decimal notation.
    pub fn to_string(&self) -> (r: String)
        ensures
            r@ == decimal(self.0 as nat),
    {
        decimal_string(self.0)
    }

    fn bit(&self, i: u64) -> (r: bool)
        requires
            i < 64,
        ensures
            r == ((self.0 >> i) & 1 != 0),
    {
        u64_bit(self.0, i)
    }

    fn bits(&self, start: u64, end: u64) -> (r: u64)
        requires
            start <= end < 64,
        ensures
            r == (self.0 & (u64::MAX >> 1u64 >> (63 - end))) >> start,
    {
        u64_bits(self.0, start, end)
    }

    fn with_bit(&self, i: u64, bit: bool) -> (r: TapeEntry)
        requires
            i < 64,
        ensures
            r.0 == (self.0 & !(1u64 << i)) | ((if bit { 1u64 } else { 0u64 }) << i),
    {
        TapeEntry(u64_with_bit(self.0, i, bit))
    }

    fn with_bits(&self, start: u64, end: u64, bits: u64) -> (r: TapeEntry)
        requires
            start <= end < 64,
            (bits << start) & !((u64::MAX >> 1u64 >> (63 - end)) & (u64::MAX << start)) == 0,
        ensures
            r.0 == (self.0 & !((u64::MAX >> 1u64 >> (63 - end)) & (u64::MAX << start))) | (bits
                << start),
    {
        TapeEntry(u64_with_bits(self.0, start, end, bits))
    }
}

/// Where the head goes after a transition.
#[derive(Debug, Clone, Copy, PartialEq, Eq, Structural)]
pub enum HeadMoveDirection {
    Left,
    Right,
    Stay,
}

/// The one-letter name of a direction: `L`, `R` or `S`.
pub open spec fn direction_char(d: HeadMoveDirection) -> char {
    match d {
        HeadMoveDirection::Left => 'L',
        HeadMoveDirection::Right => 'R',
        HeadMoveDirection::Stay => 'S',
    }
}

/// The direction's one-letter name as a string.
pub fn direction_to_string(direction: &HeadMoveDirection) -> (r: String)
    ensures
        r@ == seq![direction_char(*direction)],
{
    match direction {
        HeadMoveDirection::Left => {
            let s = String::from_str("L");
            proof { reveal_strlit("L"); }
            s
        },
        HeadMoveDirection::Right => {
            let s = String::from_str("R");
            proof { reveal_strlit("R"); }
            s
        },
        HeadMoveDirection::Stay => {
            let s = String::from_str("S");
            proof { reveal_strlit("S"); }
            s
        },
    }
}

/// One cell of the two-track tape of a compiled one-tape machine: a symbol of
/// each simulated tape, whether each simulated head stands here, and whether
/// this is the leftmost cell.
#[derive(Debug, Clone, Copy, PartialEq, Eq, Structural, Hash)]
pub struct SuperTapeEntry {
    pub first_letter: TapeEntry,
    pub second_letter: TapeEntry,
    pub has_first_tape_head: bool,
    pub has_second_tape_head: bool,
    pub is_start: bool,
}

pub open spec fn flag(b: bool) -> u64 {
    if b { 1 } else { 0 }
}

/// The packed form: first symbol in bits 0..30, second in bits 30..60, the
/// head and start markers in bits 60, 61 and 62.
pub open spec fn encode_spec(e: SuperTapeEntry) -> u64 {
    e.first_letter.0 | (e.second_letter.0 << 30u64) | (flag(e.has_first_tape_head) << 60u64) | (
    flag(e.has_second_tape_head) << 61u64) | (flag(e.is_start) << 62u64)
}

/// The fields read back from a packed symbol; bit 63 is ignored.
pub open spec fn decode_spec(n: u64) -> SuperTapeEntry {
    SuperTapeEntry {
        first_letter: TapeEntry(n & SYMBOL_MASK),
        second_letter: TapeEntry((n >> 30u64) & SYMBOL_MASK),
        has_first_tape_head: (n >> 60u64) & 1 != 0,
        has_second_tape_head: (n >> 61u64) & 1 != 0,
        is_start: (n >> 62u64) & 1 != 0,
    }
}

impl SuperTapeEntry {
    /// Both symbols fit in the bit budget.
    pub open spec fn fits(&self) -> bool {
        self.first_letter.0 <= SYMBOL_MASK && self.second_letter.0 <= SYMBOL_MASK
    }

    /// The packed symbol of this cell.
    pub fn encoded(&self) -> (r: TapeEntry)
        requires
            self.fits(),
        ensures
            r.0 == encode_spec(*self),
    {
        let first = self.first_letter.bits(0, MAX_BIT_COUNT);
        let second = self.second_letter.bits(0, MAX_BIT_COUNT);
        let a = self.first_letter.0;
        let b = self.second_letter.0;
        assert(first == a) by (bit_vector)
            requires
                a <= 0x3FFF_FFFFu64,
                first == (a & (u64::MAX >> 1u64 >> (63u64 - 30u64))) >> 0u64,
        ;
        assert(second == b) by (bit_vector)
            requires
                b <= 0x3FFF_FFFFu64,
                second == (b & (u64::MAX >> 1u64 >> (63u64 - 30u64))) >> 0u64,
        ;
        assert((first << 0u64) & !((u64::MAX >> 1u64 >> (63u64 - 30u64)) & (u64::MAX << 0u64))
            == 0) by (bit_vector)
            requires
                first <= 0x3FFF_FFFFu64,
        ;
        let r1 = TapeEntry(0).with_bits(0, MAX_BIT_COUNT, first);
        assert((second << 30u64) & !((u64::MAX >> 1u64 >> (63u64 - 60u64)) & (u64::MAX << 30u64))
            == 0) by (bit_vector)
            requires
                second <= 0x3FFF_FFFFu64,
        ;
        let r2 = r1.with_bits(MAX_BIT_COUNT, 2 * MAX_BIT_COUNT, second);
        let r3 = r2.with_bit(2 * MAX_BIT_COUNT, self.has_first_tape_head);
        let r4 = r3.with_bit(2 * MAX_BIT_COUNT + 1, self.has_second_tape_head);
        let r5 = r4.with_bit(2 * MAX_BIT_COUNT + 2, self.is_start);
        let ghost x1 = flag(self.has_first_tape_head);
        let ghost x2 = flag(self.has_second_tape_head);
        let ghost x3 = flag(self.is_start);
        let ghost (o1, o2, o3, o4, o5) = (r1.0, r2.0, r3.0, r4.0, r5.0);
        assert(o5 == a | (b << 30u64) | (x1 << 60u64) | (x2 << 61u64) | (x3 << 62u64))
            by (bit_vector)
            requires
                a <= 0x3FFF_FFFFu64,
                b <= 0x3FFF_FFFFu64,
                x1 <= 1,
                x2 <= 1,
                x3 <= 1,
                o1 == (0u64 & !((u64::MAX >> 1u64 >> (63u64 - 30u64)) & (u64::MAX << 0u64))) | (a
                    << 0u64),
                o2 == (o1 & !((u64::MAX >> 1u64 >> (63u64 - 60u64)) & (u64::MAX << 30u64))) | (b
                    << 30u64),
                o3 == (o2 & !(1u64 << 60u64)) | (x1 << 60u64),
                o4 == (o3 & !(1u64 << 61u64)) | (x2 << 61u64),
                o5 == (o4 & !(1u64 << 62u64)) | (x3 << 62u64),
        ;
        r5
    }

    /// The cell that a packed symbol stands for.
    pub fn decode(entry: TapeEntry) -> (r: SuperTapeEntry)
        ensures
            r == decode_spec(entry.0),
            r.fits(),
    {
        let n = entry.0;
        let first = entry.bits(0, MAX_BIT_COUNT);
        let second = entry.bits(MAX_BIT_COUNT, 2 * MAX_BIT_COUNT);
        assert(first == n & 0x3FFF_FFFFu64 && second == (n >> 30u64) & 0x3FFF_FFFFu64
            && first <= 0x3FFF_FFFFu64 && second <= 0x3FFF_FFFFu64) by (bit_vector)
            requires
                first == (n & (u64::MAX >> 1u64 >> (63u64 - 30u64))) >> 0u64,
                second == (n & (u64::MAX >> 1u64 >> (63u64 - 60u64))) >> 30u64,
        ;
        SuperTapeEntry {
            first_letter: TapeEntry(first),
            second_letter: TapeEntry(second),
            has_first_tape_head: entry.bit(2 * MAX_BIT_COUNT),
            has_second_tape_head: entry.bit(2 * MAX_BIT_COUNT + 1),
            is_start: entry.bit(2 * MAX_BIT_COUNT + 2),
        }
    }
}

/// Decoding a packed symbol gives back the cell it was packed from, for every
/// cell whose symbols fit in the bit budget.
pub proof fn lemma_decode_encoded(e: SuperTapeEntry)
    requires
        e.fits(),
    ensures
        decode_spec(encode_spec(e)) == e,
{
    let (a, b, x1, x2, x3) = (
        e.first_letter.0,
        e.second_letter.0,
        flag(e.has_first_tape_head),
        flag(e.has_second_tape_head),
        flag(e.is_start),
    );
    let n = encode_spec(e);
    assert(n & 0x3FFF_FFFFu64 == a && (n >> 30u64) & 0x3FFF_FFFFu64 == b && (n >> 60u64) & 1 == x1
        && (n >> 61u64) & 1 == x2 && (n >> 62u64) & 1 == x3) by (bit_vector)
        requires
            a <= 0x3FFF_FFFFu64,
            b <= 0x3FFF_FFFFu64,
            x1 <= 1,
            x2 <= 1,
            x3 <= 1,
            n == a | (b << 30u64) | (x1 << 60u64) | (x2 << 61u64) | (x3 << 62u64),
    ;
}

} // verus!
