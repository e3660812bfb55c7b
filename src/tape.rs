//! A tape bounded on the left and growing to the right, with its head.
use crate::text::chars_of;
use crate::types::{FormatError, HeadMoveDirection, TapeEntry, BLANK};
use vstd::prelude::*;

verus! {

/// The contents of a tape and the index of the head.
pub type TapeView = (Seq<TapeEntry>, nat);

/// The head points at a cell, and there is at least one cell.
pub open spec fn tape_wf(t: TapeView) -> bool {
    t.0.len() >= 1 && t.1 < t.0.len()
}

/// The symbol under the head.
pub open spec fn read_spec(t: TapeView) -> TapeEntry {
    t.0[t.1 as int]
}

/// The tape with `v` written under the head.
pub open spec fn write_spec(t: TapeView, v: TapeEntry) -> TapeView {
    (t.0.update(t.1 as int, v), t.1)
}

/// The tape after one head move. Right grows the tape by a blank when the
/// head leaves the last cell; left first drops a blank last cell under the
/// head (keeping at least one cell) and stops at the left end.
pub open spec fn move_spec(t: TapeView, d: HeadMoveDirection) -> TapeView {
    match d {
        HeadMoveDirection::Stay => t,
        HeadMoveDirection::Right => if t.1 + 1 == t.0.len() {
            (t.0.push(TapeEntry(BLANK)), t.1 + 1)
        } else {
            (t.0, t.1 + 1)
        },
        HeadMoveDirection::Left => {
            let cells = if t.1 + 1 == t.0.len() && t.0.len() > 1 && t.0.last().0 == BLANK {
                t.0.drop_last()
            } else {
                t.0
            };
            (cells, if t.1 == 0 { 0 } else { (t.1 - 1) as nat })
        },
    }
}

pub open spec fn is_digit(c: char) -> bool {
    '0' <= c && c <= '9'
}

/// The value of a digit character.
pub open spec fn digit_value(c: char) -> u64 {
    (c as u32 - '0' as u32) as u64
}

/// The cells of a tape holding `entries`; an empty word gives one blank cell.
pub open spec fn cells_of(entries: Seq<TapeEntry>) -> Seq<TapeEntry> {
    if entries.len() == 0 {
        seq![TapeEntry(BLANK)]
    } else {
        entries
    }
}

/// The symbols of a word of digits.
pub open spec fn word_entries(word: Seq<char>) -> Seq<TapeEntry> {
    word.map_values(|c: char| TapeEntry(digit_value(c)))
}

#[derive(Debug)]
pub struct Tape {
    content: Vec<TapeEntry>,
    head_idx: usize,
}

impl View for Tape {
    type V = TapeView;

    closed spec fn view(&self) -> TapeView {
        (self.content@, self.head_idx as nat)
    }
}

impl Tape {
    /// The tape holding the digits of `initial_content`, head on the first
    /// cell; fails when a character is not a decimal digit.
    pub fn new(initial_content: String) -> (r: Result<Tape, FormatError>)
        ensures
            r is Ok <==> (forall|i: int|
                0 <= i < initial_content@.len() ==> is_digit(#[trigger] initial_content@[i])),
            r matches Ok(t) ==> t@ == (cells_of(word_entries(initial_content@)), 0nat),
            r matches Err(e) ==> e == FormatError::NotADigit,
    {
        let s = initial_content.as_str();
        let cs = chars_of(s);
        let n = cs.len();
        let mut entries: Vec<TapeEntry> = Vec::new();
        let mut i: usize = 0;
        while i < n
            invariant
                n == initial_content@.len(),
                s@ == initial_content@,
                cs@ == s@,
                i <= n,
                entries@ == word_entries(initial_content@.take(i as int)),
                forall|j: int| 0 <= j < i ==> is_digit(#[trigger] initial_content@[j]),
            decreases n - i,
        {
            let c = cs[i];
            if !('0' <= c && c <= '9') {
                return Err(FormatError::NotADigit);
            }
            entries.push(TapeEntry((c as u32 - '0' as u32) as u64));
            i = i + 1;
            assert(initial_content@.take(i as int) =~= initial_content@.take(i - 1).push(c));
            assert(entries@ =~= word_entries(initial_content@.take(i as int)));
        }
        assert(initial_content@.take(n as int) =~= initial_content@);
        Ok(Tape::from_entries(entries))
    }

    /// The tape holding `entries`, head on the first cell.
    pub fn from_entries(entries: Vec<TapeEntry>) -> (r: Tape)
        ensures
            r@ == (cells_of(entries@), 0nat),
    {
        let mut content = entries;
        if content.len() == 0 {
            content.push(TapeEntry(BLANK));
            assert(content@ =~= seq![TapeEntry(BLANK)]);
        }
        Tape { content, head_idx: 0 }
    }

    pub open spec fn wf(&self) -> bool {
        tape_wf(self@)
    }

    /// The cells, first to last.
    pub fn cells(&self) -> (r: Vec<TapeEntry>)
        ensures
            r@ == self@.0,
    {
        let mut r: Vec<TapeEntry> = Vec::new();
        let mut i: usize = 0;
        while i < self.content.len()
            invariant
                i <= self.content.len(),
                r@ == self.content@.take(i as int),
            decreases self.content.len() - i,
        {
            r.push(self.content[i]);
            i = i + 1;
            assert(r@ =~= self.content@.take(i as int));
        }
        assert(self.content@.take(i as int) =~= self.content@);
        r
    }

    /// The index of the head.
    pub fn head(&self) -> (r: usize)
        ensures
            r == self@.1,
    {
        self.head_idx
    }

    /// A copy of this tape.
    pub fn duplicate(&self) -> (r: Tape)
        ensures
            r@ == self@,
    {
        Tape { content: self.cells(), head_idx: self.head_idx }
    }

    /// Whether two tapes hold the same cells with the head at the same index.
    pub fn same_as(&self, other: &Tape) -> (r: bool)
        ensures
            r == (self@ == other@),
    {
        if self.head_idx != other.head_idx || self.content.len() != other.content.len() {
            return false;
        }
        let mut i: usize = 0;
        while i < self.content.len()
            invariant
                i <= self.content.len() == other.content.len(),
                forall|j: int| 0 <= j < i ==> self.content@[j] == other.content@[j],
            decreases self.content.len() - i,
        {
            if self.content[i].0 != other.content[i].0 {
                return false;
            }
            i = i + 1;
        }
        assert(self.content@ =~= other.content@);
        true
    }

    /// Replaces the symbol under the head.
    pub fn write_to_head(&mut self, value: &TapeEntry)
        requires
            old(self).wf(),
        ensures
            final(self)@ == write_spec(old(self)@, *value),
            final(self).wf(),
    {
        self.content.set(self.head_idx, *value);
    }

    /// The symbol under the head.
    pub fn read_from_head(&self) -> (r: &TapeEntry)
        requires
            self.wf(),
        ensures
            *r == read_spec(self@),
    {
        &self.content[self.head_idx]
    }

    fn trim_single_trailing_blank(&mut self)
        requires
            old(self).content.len() >= 1,
        ensures
            final(self).head_idx == old(self).head_idx,
            final(self).content@ == if old(self).content.len() > 1 && old(
                self,
            ).content@.last().0 == BLANK {
                old(self).content@.drop_last()
            } else {
                old(self).content@
            },
    {
        let len = self.content.len();
        if len > 1 && self.content[len - 1].0 == BLANK {
            self.content.pop();
        }
    }

    fn move_left(&mut self)
        requires
            old(self).wf(),
        ensures
            final(self)@ == move_spec(old(self)@, HeadMoveDirection::Left),
            final(self).wf(),
    {
        if self.head_idx == self.content.len() - 1 {
            self.trim_single_trailing_blank();
        }
        self.head_idx = self.head_idx.saturating_sub(1);
    }

    fn move_right(&mut self)
        requires
            old(self).wf(),
        ensures
            final(self)@ == move_spec(old(self)@, HeadMoveDirection::Right),
            final(self).wf(),
    {
        let len = self.content.len();
        self.head_idx = self.head_idx + 1;
        if self.head_idx == len {
            self.content.push(TapeEntry(BLANK));
        }
    }

    /// Moves the head one cell, or not at all.
    pub fn move_head(&mut self, direction: &HeadMoveDirection)
        requires
            old(self).wf(),
        ensures
            final(self)@ == move_spec(old(self)@, *direction),
            final(self).wf(),
    {
        match direction {
            HeadMoveDirection::Left => self.move_left(),
            HeadMoveDirection::Right => self.move_right(),
            HeadMoveDirection::Stay => (),
        }
    }
}

} // verus!
