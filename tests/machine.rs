use turing::double_transition::DoubleTransition;
use turing::engine::{ClassicMachine, Config, Run};
use turing::loader::{transitions_from_description, two_tape_transitions_from_description};
use turing::tape::Tape;
use turing::transition::{tape_head_move_from_char, Transition};
use turing::translator::{MachineTranslator, TranslatorInput};
use turing::types::{direction_to_string, FormatError, HeadMoveDirection, State, SuperTapeEntry, TapeEntry};

fn values(tape: &Tape) -> Vec<u64> {
    tape.cells().iter().map(|e| e.0).collect()
}

#[test]
fn tape_grows_right_and_trims_left() {
    let mut tape = Tape::new("101".to_string()).unwrap();
    assert_eq!(tape.head(), 0);
    for _ in 0..3 {
        tape.move_head(&HeadMoveDirection::Right);
    }
    assert_eq!(values(&tape), vec![1, 0, 1, 0]);
    assert_eq!(tape.head(), 3);
    tape.move_head(&HeadMoveDirection::Left);
    assert_eq!(values(&tape), vec![1, 0, 1]);
    assert_eq!(tape.head(), 2);
}

#[test]
fn tape_from_empty_word_has_one_blank() {
    let tape = Tape::new(String::new()).unwrap();
    assert_eq!(values(&tape), vec![0]);
    assert_eq!(tape.read_from_head().0, 0);
}

#[test]
fn tape_rejects_non_digit() {
    assert_eq!(Tape::new("12a".to_string()).err(), Some(FormatError::NotADigit));
}

#[test]
fn tape_left_at_start_stays() {
    let mut tape = Tape::new("0".to_string()).unwrap();
    tape.move_head(&HeadMoveDirection::Left);
    assert_eq!(tape.head(), 0);
    assert_eq!(values(&tape), vec![0]);
}

#[test]
fn tape_left_keeps_non_blank_last_cell() {
    let mut tape = Tape::new("12".to_string()).unwrap();
    tape.move_head(&HeadMoveDirection::Right);
    tape.move_head(&HeadMoveDirection::Left);
    assert_eq!(values(&tape), vec![1, 2]);
    assert_eq!(tape.head(), 0);
}

#[test]
fn tape_write_then_read() {
    let mut tape = Tape::new("345".to_string()).unwrap();
    tape.move_head(&HeadMoveDirection::Right);
    tape.write_to_head(&TapeEntry(9));
    assert_eq!(tape.read_from_head().0, 9);
    assert_eq!(values(&tape), vec![3, 9, 5]);
    tape.move_head(&HeadMoveDirection::Stay);
    assert_eq!(tape.head(), 1);
}

#[test]
fn transition_line_round_trip() {
    let line = "  q1\t12   q2 0  L ";
    let t = Transition::from_description(line).unwrap();
    assert_eq!(t.to_string(), "q1 12 q2 0 L");
    let again = Transition::from_description(&t.to_string()).unwrap();
    assert_eq!(again.state_before, t.state_before);
    assert_eq!(again.state_after, t.state_after);
    assert_eq!(again.tape_value_before, t.tape_value_before);
    assert_eq!(again.tape_value_after, t.tape_value_after);
    assert_eq!(again.tape_head_move_direction, t.tape_head_move_direction);
}

#[test]
fn transition_parse_errors() {
    assert_eq!(Transition::from_description("a 1 b 2").err(), Some(FormatError::FieldCount));
    assert_eq!(Transition::from_description("a 1 b 2 R x").err(), Some(FormatError::FieldCount));
    assert_eq!(Transition::from_description("a x b 2 R").err(), Some(FormatError::BadNumber));
    assert_eq!(
        Transition::from_description("a 18446744073709551616 b 2 R").err(),
        Some(FormatError::BadNumber)
    );
    assert_eq!(Transition::from_description("a 1 b 2 Q").err(), Some(FormatError::BadDirection));
    assert_eq!(Transition::from_description("a 1 b 2 RR").err(), Some(FormatError::BadDirection));
    let t = Transition::from_description("a 18446744073709551615 b 0 S").unwrap();
    assert_eq!(t.tape_value_before.0, u64::MAX);
}

#[test]
fn direction_letters() {
    assert_eq!(tape_head_move_from_char('L'), Ok(HeadMoveDirection::Left));
    assert_eq!(tape_head_move_from_char('R'), Ok(HeadMoveDirection::Right));
    assert_eq!(tape_head_move_from_char('S'), Ok(HeadMoveDirection::Stay));
    assert_eq!(tape_head_move_from_char('x'), Err(FormatError::BadDirection));
    assert_eq!(direction_to_string(&HeadMoveDirection::Left), "L");
    assert_eq!(direction_to_string(&HeadMoveDirection::Right), "R");
    assert_eq!(direction_to_string(&HeadMoveDirection::Stay), "S");
}

#[test]
fn tape_entry_and_state_text() {
    assert_eq!(TapeEntry(0).to_string(), "0");
    assert_eq!(TapeEntry(1234567).to_string(), "1234567");
    let s = State("q7".to_string());
    assert_eq!(s.value(), "q7");
    assert_eq!(s.to_string(), "q7");
}

#[test]
fn packed_cell_layout() {
    let e = SuperTapeEntry {
        first_letter: TapeEntry(5),
        second_letter: TapeEntry(7),
        has_first_tape_head: true,
        has_second_tape_head: false,
        is_start: true,
    };
    let packed = e.encoded();
    assert_eq!(packed.0, 5 | (7 << 30) | (1 << 60) | (1 << 62));
    assert_eq!(SuperTapeEntry::decode(packed), e);
}

#[test]
fn packed_cell_round_trip_at_the_limits() {
    let max = (1u64 << 30) - 1;
    for &(a, b) in &[(0, 0), (max, 0), (0, max), (max, max), (12345, 678)] {
        for m in 0..8u32 {
            let e = SuperTapeEntry {
                first_letter: TapeEntry(a),
                second_letter: TapeEntry(b),
                has_first_tape_head: m & 1 != 0,
                has_second_tape_head: m & 2 != 0,
                is_start: m & 4 != 0,
            };
            assert_eq!(SuperTapeEntry::decode(e.encoded()), e);
        }
    }
    let d = SuperTapeEntry::decode(TapeEntry(u64::MAX));
    assert_eq!(d.first_letter.0, max);
    assert_eq!(d.second_letter.0, max);
    assert!(d.has_first_tape_head && d.has_second_tape_head && d.is_start);
}

#[test]
fn loader_skips_blank_lines() {
    let ts = transitions_from_description("start 0 a 1 R\n\n\na 1 accept 1 S\n".to_string()).unwrap();
    assert_eq!(ts.len(), 2);
    assert_eq!(ts[1].to_string(), "a 1 accept 1 S");
    assert_eq!(
        transitions_from_description("start 0 a 1 R\nbad line\n".to_string()).err(),
        Some(FormatError::FieldCount)
    );
    let dts = two_tape_transitions_from_description("start 1 2 q 3 4 L R\n".to_string()).unwrap();
    assert_eq!(dts.len(), 1);
    assert_eq!(dts[0].first_tape_value_before.0, 1);
    assert_eq!(dts[0].second_tape_value_before.0, 2);
    assert_eq!(dts[0].first_tape_value_after.0, 3);
    assert_eq!(dts[0].second_tape_value_after.0, 4);
    assert_eq!(dts[0].first_tape_head_move_direction, HeadMoveDirection::Left);
    assert_eq!(dts[0].second_tape_head_move_direction, HeadMoveDirection::Right);
}

#[test]
fn double_transition_parse_errors() {
    assert_eq!(DoubleTransition::from_description("s 1 2 q 3 4 L").err(), Some(FormatError::FieldCount));
    assert_eq!(DoubleTransition::from_description("s 1 z q 3 4 L R").err(), Some(FormatError::BadNumber));
    assert_eq!(DoubleTransition::from_description("s 1 2 q 3 4 L X").err(), Some(FormatError::BadDirection));
}

#[test]
fn config_successor_leaves_source_config() {
    let cfg = Config { tape: Tape::new("0".to_string()).unwrap(), state: State("start".to_string()) };
    let t = Transition::from_description("start 0 q 5 R").unwrap();
    let wrong = Transition::from_description("start 1 q 5 R").unwrap();
    assert!(t.applicable_to(&cfg));
    assert!(!wrong.applicable_to(&cfg));
    let next = cfg.get_config_from_after_transition(&t);
    assert_eq!(next.state.value(), "q");
    assert_eq!(values(&next.tape), vec![5, 0]);
    assert_eq!(next.tape.head(), 1);
    assert_eq!(values(&cfg.tape), vec![0]);
    assert_eq!(cfg.state.value(), "start");
}

#[test]
fn run_advances_frontier() {
    let start = Config { tape: Tape::new("0".to_string()).unwrap(), state: State("start".to_string()) };
    let ts = transitions_from_description("start 0 accept 0 S\nstart 0 other 0 S\n".to_string()).unwrap();
    let run = Run::new(start);
    assert!(!run.is_accepting_run_reached());
    let run = run.apply_transitions(&ts);
    assert_eq!(run.step_no(), 1);
    assert!(run.is_accepting_run_reached());
    assert!(!run.is_dead());
}

#[test]
fn engine_without_transitions_rejects() {
    let machine = ClassicMachine::new(String::new(), 10, String::new()).unwrap();
    assert!(!machine.run_with_limit());
}

#[test]
fn engine_single_step_accepts_within_budget() {
    let m = ClassicMachine::new("start 0 accept 0 S".to_string(), 1, "0".to_string()).unwrap();
    assert!(m.run_with_limit());
    let m = ClassicMachine::new("start 0 accept 0 S".to_string(), 5, "0".to_string()).unwrap();
    assert!(m.run_with_limit());
    let m = ClassicMachine::new("start 0 accept 0 S".to_string(), 0, "0".to_string()).unwrap();
    assert!(!m.run_with_limit());
}

#[test]
fn engine_new_reports_errors() {
    assert_eq!(
        ClassicMachine::new("start 0 accept 0 S".to_string(), 1, "0x".to_string()).err(),
        Some(FormatError::NotADigit)
    );
    assert_eq!(
        ClassicMachine::new("start 0 accept 0 W".to_string(), 1, "0".to_string()).err(),
        Some(FormatError::BadDirection)
    );
}

#[test]
fn engine_nondeterminism_in_either_order() {
    let accepting = "start 0 walk 0 R\nwalk 0 accept 0 S\n";
    let dead_end = "start 0 stuck 1 S\n";
    for description in [format!("{}{}", accepting, dead_end), format!("{}{}", dead_end, accepting)] {
        let m = ClassicMachine::new(description.clone(), 2, "0".to_string()).unwrap();
        assert!(m.run_with_limit());
        let m = ClassicMachine::new(description, 1, "0".to_string()).unwrap();
        assert!(!m.run_with_limit());
    }
}

#[test]
fn engine_loop_is_cut_by_budget() {
    let m = ClassicMachine::new("start 0 start 0 S".to_string(), 50, "0".to_string()).unwrap();
    assert!(!m.run_with_limit());
}

#[test]
fn translator_input_collects_states_and_symbols() {
    let input = TranslatorInput::new("start 11 12 mid 13 0 R S\nmid 0 0 accept 0 0 S S\n".to_string())
        .unwrap();
    assert_eq!(input.transitions.len(), 2);
    let mut symbols: Vec<u64> = input.tape_entries.iter().map(|e| e.0).collect();
    symbols.sort();
    assert_eq!(symbols, vec![0, 1, 2, 3, 4, 5, 6, 7, 8, 9, 11, 12, 13]);
    let mut states: Vec<String> = input.states.iter().map(|s| s.to_string()).collect();
    states.sort();
    assert_eq!(states, vec!["accept".to_string(), "mid".to_string(), "start".to_string()]);
}

#[test]
fn translator_rejects_wide_symbols() {
    assert_eq!(
        MachineTranslator::new("start 1073741824 0 accept 0 0 S S".to_string()).err(),
        Some(FormatError::SymbolTooWide)
    );
    assert_eq!(
        MachineTranslator::new("start 0 0 accept 0 0 S".to_string()).err(),
        Some(FormatError::FieldCount)
    );
}

/// A plain breadth-first simulation of a two-tape machine, the second tape
/// starting blank.
fn two_tape_accepts(description: &str, word: &str, limit: usize) -> bool {
    let rules = two_tape_transitions_from_description(description.to_string()).unwrap();
    type Cfg = (Vec<u64>, usize, Vec<u64>, usize, String);
    let first: Vec<u64> = if word.is_empty() {
        vec![0]
    } else {
        word.chars().map(|c| c.to_digit(10).unwrap() as u64).collect()
    };
    let mut frontier: Vec<Cfg> = vec![(first, 0, vec![0], 0, "start".to_string())];
    fn moved(cells: &mut Vec<u64>, head: usize, d: HeadMoveDirection) -> usize {
        match d {
            HeadMoveDirection::Stay => head,
            HeadMoveDirection::Right => {
                if head + 1 == cells.len() {
                    cells.push(0);
                }
                head + 1
            }
            HeadMoveDirection::Left => head.saturating_sub(1),
        }
    }
    for _ in 0..=limit {
        if frontier.iter().any(|c| c.4 == "accept") {
            return true;
        }
        let mut next: Vec<Cfg> = Vec::new();
        for c in &frontier {
            for r in &rules {
                if r.state_before.value() == c.4
                    && r.first_tape_value_before.0 == c.0[c.1]
                    && r.second_tape_value_before.0 == c.2[c.3]
                {
                    let (mut t1, mut t2) = (c.0.clone(), c.2.clone());
                    t1[c.1] = r.first_tape_value_after.0;
                    t2[c.3] = r.second_tape_value_after.0;
                    let h1 = moved(&mut t1, c.1, r.first_tape_head_move_direction);
                    let h2 = moved(&mut t2, c.3, r.second_tape_head_move_direction);
                    next.push((t1, h1, t2, h2, r.state_after.to_string()));
                }
            }
        }
        frontier = next;
    }
    false
}

fn packed_tape(word: &str) -> Tape {
    let entries: Vec<TapeEntry> = word
        .chars()
        .enumerate()
        .map(|(i, c)| {
            SuperTapeEntry {
                first_letter: TapeEntry(c.to_digit(10).unwrap() as u64),
                second_letter: TapeEntry(0),
                has_first_tape_head: i == 0,
                has_second_tape_head: i == 0,
                is_start: i == 0,
            }
            .encoded()
        })
        .collect();
    Tape::from_entries(entries)
}

fn compiled_accepts(description: &str, word: &str, limit: u64) -> bool {
    let translator = MachineTranslator::new(description.to_string()).unwrap();
    let program = translator.translate();
    let transitions = transitions_from_description(program).unwrap();
    ClassicMachine::from_parts(transitions, limit, packed_tape(word)).run_with_limit()
}

#[test]
fn translated_single_transition_agrees_with_two_tape_run() {
    let description = "start 0 0 accept 1 1 R R";
    for word in ["0", "1", "00", "10"] {
        let expected = two_tape_accepts(description, word, 5);
        assert_eq!(compiled_accepts(description, word, 100), expected, "word {}", word);
    }
    assert!(two_tape_accepts(description, "0", 5));
    assert!(!two_tape_accepts(description, "1", 5));
}

#[test]
fn translated_output_starts_with_setup_lines() {
    let translator = MachineTranslator::new("start 0 0 accept 1 1 R R".to_string()).unwrap();
    let program = translator.translate();
    let first = program.lines().next().unwrap();
    assert!(first.starts_with("start "));
    assert!(first.contains(" #$ORIGINAL_start$# "));
    assert!(first.ends_with(" S"));
    assert!(program.lines().any(|l| l.contains(" accept ")));
    for line in program.lines() {
        let t = Transition::from_description(line).unwrap();
        assert_eq!(t.to_string(), line);
    }
}

#[test]
fn translated_two_step_machine_agrees_with_two_tape_run() {
    let description = "start 1 0 mid 1 1 R R\nmid 0 0 accept 0 1 S L\n";
    for word in ["1", "11", "0"] {
        let expected = two_tape_accepts(description, word, 5);
        assert_eq!(compiled_accepts(description, word, 200), expected, "word {}", word);
    }
    assert!(two_tape_accepts(description, "1", 5));
    assert!(!two_tape_accepts(description, "11", 5));
}

#[test]
fn stage_states_name_the_transition_number() {
    // Two transitions with the same after-data get distinct stage states.
    let description = "start 0 0 accept 1 1 R R\nstart 1 0 accept 1 1 R R\n";
    let program = MachineTranslator::new(description.to_string()).unwrap().translate();
    let first = "#$CUSTOMIZED_reach_q_for_read#1:01:11:11:R1:R6:accept1:0$#";
    let second = "#$CUSTOMIZED_reach_q_for_read#1:11:11:11:R1:R6:accept1:0$#";
    assert!(program.lines().any(|l| l.starts_with(&format!("{} ", first))));
    assert!(program.lines().any(|l| l.starts_with(&format!("{} ", second))));
    for word in ["0", "1", "2"] {
        assert_eq!(
            compiled_accepts(description, word, 100),
            two_tape_accepts(description, word, 5),
            "word {}",
            word
        );
    }
}

#[test]
fn stage_states_keep_hash_in_state_names_apart() {
    // A state name holding the separator characters is carried by its length.
    let description = "start 0 0 a#b 1 1 S S\na#b 1 1 accept 1 1 S S\n";
    let program = MachineTranslator::new(description.to_string()).unwrap().translate();
    assert!(program.contains("#$CUSTOMIZED_handle_p_head_moved#1:01:11:11:S1:S3:a#b$# "));
    assert!(program.contains(" #$ORIGINAL_a#b$# "));
    assert_eq!(compiled_accepts(description, "0", 100), two_tape_accepts(description, "0", 5));
    assert!(two_tape_accepts(description, "0", 5));
}

#[test]
fn translated_line_count() {
    // Ten symbols (the digits), one transition: ten setup lines, then six
    // stages over all 800 packed cells and three filtered stages over 80 each.
    let program = MachineTranslator::new("start 0 0 accept 1 1 R R".to_string()).unwrap().translate();
    let n = 10usize;
    assert_eq!(program.lines().count(), n + 48 * n * n + 24 * n);
    let write_stage = program
        .lines()
        .filter(|l| l.starts_with("#$CUSTOMIZED_write_value_to_p#"))
        .count();
    assert_eq!(write_stage, 8 * n);
    for line in program.lines().filter(|l| l.starts_with("#$CUSTOMIZED_write_value_to_p#")) {
        let t = Transition::from_description(line).unwrap();
        assert_eq!(SuperTapeEntry::decode(t.tape_value_before).first_letter.0, 0);
    }
}
