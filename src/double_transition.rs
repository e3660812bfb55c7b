//! Two-tape transitions: one shared state, a symbol and a move per tape.
use crate::types::FormatError;
use crate::text::{fields, is_number, split_fields};
use crate::transition::{direction_of, entry_of, is_direction_field, parse_direction_field, parse_entry};
use crate::types::{HeadMoveDirection, State, TapeEntry};
use vstd::prelude::*;

verus! {

/// Before-state, after-state; for the first tape the symbol read, the symbol
/// written and the move; the same for the second tape.
pub type DoubleTransitionView = (
    Seq<char>,
    Seq<char>,
    (TapeEntry, TapeEntry, HeadMoveDirection),
    (TapeEntry, TapeEntry, HeadMoveDirection),
);

/// The two-tape transition that a line describes: eight fields, the state
/// before, the two symbols read, the state after, the two symbols written, and
/// the two move letters.
pub open spec fn parse_double_transition(s: Seq<char>) -> Result<DoubleTransitionView, FormatError> {
    let f = fields(s);
    if f.len() != 8 {
        Err(FormatError::FieldCount)
    } else if !is_number(f[1]) || !is_number(f[2]) || !is_number(f[4]) || !is_number(f[5]) {
        Err(FormatError::BadNumber)
    } else if !is_direction_field(f[6]) || !is_direction_field(f[7]) {
        Err(FormatError::BadDirection)
    } else {
        Ok(
            (
                f[0],
                f[3],
                (entry_of(f[1]), entry_of(f[4]), direction_of(f[6][0])),
                (entry_of(f[2]), entry_of(f[5]), direction_of(f[7][0])),
            ),
        )
    }
}

#[derive(Debug)]
pub struct DoubleTransition {
    pub state_before: State,
    pub state_after: State,
    pub first_tape_value_before: TapeEntry,
    pub first_tape_value_after: TapeEntry,
    pub first_tape_head_move_direction: HeadMoveDirection,
    pub second_tape_value_before: TapeEntry,
    pub second_tape_value_after: TapeEntry,
    pub second_tape_head_move_direction: HeadMoveDirection,
}

impl View for DoubleTransition {
    type V = DoubleTransitionView;

    open spec fn view(&self) -> DoubleTransitionView {
        (
            self.state_before@,
            self.state_after@,
            (
                self.first_tape_value_before,
                self.first_tape_value_after,
                self.first_tape_head_move_direction,
            ),
            (
                self.second_tape_value_before,
                self.second_tape_value_after,
                self.second_tape_head_move_direction,
            ),
        )
    }
}

impl DoubleTransition {
    /// Reads a two-tape transition from its line.
    pub fn from_description(description: &str) -> (r: Result<Self, FormatError>)
        ensures
            r matches Ok(t) ==> parse_double_transition(description@) == Ok::<
                DoubleTransitionView,
                FormatError,
            >(t@),
            r matches Err(e) ==> parse_double_transition(description@) == Err::<
                DoubleTransitionView,
                FormatError,
            >(e),
    {
        let f = split_fields(description);
        if f.len() != 8 {
            return Err(FormatError::FieldCount);
        }
        let val11 = parse_entry(&f[1]);
        let val12 = parse_entry(&f[2]);
        let val21 = parse_entry(&f[4]);
        let val22 = parse_entry(&f[5]);
        match (val11, val12, val21, val22) {
            (Some(val11), Some(val12), Some(val21), Some(val22)) => {
                let dir1 = parse_direction_field(&f[6]);
                let dir2 = parse_direction_field(&f[7]);
                match (dir1, dir2) {
                    (Ok(dir1), Ok(dir2)) => Ok(DoubleTransition {
                        state_before: State(f[0].clone()),
                        state_after: State(f[3].clone()),
                        first_tape_value_before: val11,
                        first_tape_value_after: val21,
                        first_tape_head_move_direction: dir1,
                        second_tape_value_before: val12,
                        second_tape_value_after: val22,
                        second_tape_head_move_direction: dir2,
                    }),
                    _ => Err(FormatError::BadDirection),
                }
            },
            _ => Err(FormatError::BadNumber),
        }
    }
}

} // verus!
