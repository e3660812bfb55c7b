//! One-tape transitions: their text form, and when they apply.
use crate::engine::{applicable_spec, Config};
use crate::types::FormatError;
use crate::text::{
    digits_value, fields, is_number, is_word, lemma_decimal_is_number, lemma_fields_are_words,
    lemma_fields_word_then, parse_number, split_fields,
};
use crate::types::{decimal, direction_char, direction_to_string, HeadMoveDirection, State, TapeEntry};
use vstd::prelude::*;
use vstd::string::*;

verus! {

/// Before-state, symbol read, after-state, symbol written, head move.
pub type TransitionView = (Seq<char>, TapeEntry, Seq<char>, TapeEntry, HeadMoveDirection);

/// A field that names a head move: one of `L`, `R`, `S`.
pub open spec fn is_direction_field(w: Seq<char>) -> bool {
    w.len() == 1 && (w[0] == 'L' || w[0] == 'R' || w[0] == 'S')
}

/// The head move that a letter names.
pub open spec fn direction_of(c: char) -> HeadMoveDirection {
    if c == 'L' {
        HeadMoveDirection::Left
    } else if c == 'R' {
        HeadMoveDirection::Right
    } else {
        HeadMoveDirection::Stay
    }
}

/// The symbol that a number field holds.
pub open spec fn entry_of(w: Seq<char>) -> TapeEntry {
    TapeEntry(digits_value(w) as u64)
}

/// The transition that a line describes: five fields, the second and fourth
/// decimal numbers, the fifth a move letter.
pub open spec fn parse_transition(s: Seq<char>) -> Result<TransitionView, FormatError> {
    let f = fields(s);
    if f.len() != 5 {
        Err(FormatError::FieldCount)
    } else if !is_number(f[1]) || !is_number(f[3]) {
        Err(FormatError::BadNumber)
    } else if !is_direction_field(f[4]) {
        Err(FormatError::BadDirection)
    } else {
        Ok((f[0], entry_of(f[1]), f[2], entry_of(f[3]), direction_of(f[4][0])))
    }
}

/// The line of a transition: its five fields separated by single spaces.
pub open spec fn line_of(t: TransitionView) -> Seq<char> {
    t.0 + seq![' '] + (decimal(t.1.0 as nat) + seq![' '] + (t.2 + seq![' '] + (decimal(
        t.3.0 as nat,
    ) + seq![' '] + seq![direction_char(t.4)])))
}

/// Reading the line written for a transition that was read from a line gives
/// that transition again.
pub proof fn lemma_transition_line_round_trip(s: Seq<char>)
    requires
        parse_transition(s) is Ok,
    ensures
        parse_transition(line_of(parse_transition(s)->Ok_0)) == parse_transition(s),
{
    let t = parse_transition(s)->Ok_0;
    let f = fields(s);
    lemma_fields_are_words(s);
    assert(is_word(f[0]) && is_word(f[2]));
    lemma_decimal_is_number(t.1.0);
    lemma_decimal_is_number(t.3.0);
    let d = seq![direction_char(t.4)];
    assert(is_word(d));
    let r4 = decimal(t.3.0 as nat) + seq![' '] + d;
    let r3 = t.2 + seq![' '] + r4;
    let r2 = decimal(t.1.0 as nat) + seq![' '] + r3;
    lemma_fields_word_then(decimal(t.3.0 as nat), d);
    lemma_fields_word_then(d, seq![]);
    lemma_fields_word_then(t.2, r4);
    lemma_fields_word_then(decimal(t.1.0 as nat), r3);
    lemma_fields_word_then(t.0, r2);
    let g = fields(line_of(t));
    assert(g =~= seq![t.0, decimal(t.1.0 as nat), t.2, decimal(t.3.0 as nat), d]);
    assert(direction_of(direction_char(t.4)) == t.4);
}

#[derive(Debug)]
pub struct Transition {
    pub state_before: State,
    pub state_after: State,
    pub tape_value_before: TapeEntry,
    pub tape_value_after: TapeEntry,
    pub tape_head_move_direction: HeadMoveDirection,
}

impl View for Transition {
    type V = TransitionView;

    open spec fn view(&self) -> TransitionView {
        (
            self.state_before@,
            self.tape_value_before,
            self.state_after@,
            self.tape_value_after,
            self.tape_head_move_direction,
        )
    }
}

/// The head move that a letter names; fails for letters other than `L`, `R`, `S`.
pub fn tape_head_move_from_char(symbol: char) -> (r: Result<HeadMoveDirection, FormatError>)
    ensures
        r is Ok <==> (symbol == 'L' || symbol == 'R' || symbol == 'S'),
        r matches Ok(d) ==> d == direction_of(symbol),
        r matches Err(e) ==> e == FormatError::BadDirection,
{
    match symbol {
        'L' => Ok(HeadMoveDirection::Left),
        'R' => Ok(HeadMoveDirection::Right),
        'S' => Ok(HeadMoveDirection::Stay),
        _ => Err(FormatError::BadDirection),
    }
}

/// The head move of a move field.
pub(crate) fn parse_direction_field(w: &String) -> (r: Result<HeadMoveDirection, FormatError>)
    ensures
        r is Ok <==> is_direction_field(w@),
        r matches Ok(d) ==> d == direction_of(w@[0]),
        r matches Err(e) ==> e == FormatError::BadDirection,
{
    let s = w.as_str();
    if s.unicode_len() != 1 {
        return Err(FormatError::BadDirection);
    }
    tape_head_move_from_char(s.get_char(0))
}

/// The symbol of a number field.
pub(crate) fn parse_entry(w: &String) -> (r: Option<TapeEntry>)
    ensures
        r is Some <==> is_number(w@),
        r matches Some(e) ==> e == entry_of(w@),
{
    match parse_number(w.as_str()) {
        Some(v) => Some(TapeEntry(v)),
        None => None,
    }
}

impl Transition {
    /// Reads a transition from its line.
    pub fn from_description(description: &str) -> (r: Result<Self, FormatError>)
        ensures
            r matches Ok(t) ==> parse_transition(description@) == Ok::<TransitionView, FormatError>(t@),
            r matches Err(e) ==> parse_transition(description@) == Err::<TransitionView, FormatError>(e),
    {
        let f = split_fields(description);
        if f.len() != 5 {
            return Err(FormatError::FieldCount);
        }
        let v1 = parse_entry(&f[1]);
        let v2 = parse_entry(&f[3]);
        match (v1, v2) {
            (Some(val1), Some(val2)) => {
                let dir = parse_direction_field(&f[4]);
                match dir {
                    Ok(d) => Ok(Transition {
                        state_before: State(f[0].clone()),
                        state_after: State(f[2].clone()),
                        tape_value_before: val1,
                        tape_value_after: val2,
                        tape_head_move_direction: d,
                    }),
                    Err(e) => Err(e),
                }
            },
            _ => Err(FormatError::BadNumber),
        }
    }

    /// The line of this transition.
    pub fn to_string(&self) -> (r: String)
        ensures
            r@ == line_of(self@),
    {
        let r = self.state_before.to_string();
        let r = r.concat(" ");
        let r = r.concat(self.tape_value_before.to_string().as_str());
        let r = r.concat(" ");
        let r = r.concat(self.state_after.value());
        let r = r.concat(" ");
        let r = r.concat(self.tape_value_after.to_string().as_str());
        let r = r.concat(" ");
        let r = r.concat(direction_to_string(&self.tape_head_move_direction).as_str());
        proof {
            reveal_strlit(" ");
            assert(r@ =~= line_of(self@));
        }
        r
    }

    /// Whether this transition can fire in the configuration.
    pub fn applicable_to(&self, cfg: &Config) -> (r: bool)
        requires
            cfg.wf(),
        ensures
            r == applicable_spec(self@, cfg@),
    {
        self.state_before.same_as(&cfg.state) && self.tape_value_before.0 == cfg.tape.read_from_head().0
    }
}

} // verus!
