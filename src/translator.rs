//! Compilation of a two-tape machine into a one-tape machine whose cells pack
//! a cell of each tape together with the two head markers and a start marker.
use crate::double_transition::{DoubleTransition, DoubleTransitionView};
use crate::engine::transition_views;
use crate::loader::{parse_double_machine, two_tape_transitions_from_description};
use crate::types::FormatError;
use crate::text::{chars_of, is_digit_char, lemma_decimal_digits};
use crate::transition::{line_of, Transition, TransitionView};
use crate::types::{
    accept_name, decimal, direction_char, direction_to_string, encode_spec, start_name,
    HeadMoveDirection, State, SuperTapeEntry, TapeEntry, SYMBOL_MASK,
};
use itertools::Itertools;
use vstd::prelude::*;
use vstd::string::*;

verus! {

/// The texts of a vector of strings.
pub open spec fn string_views(v: Seq<String>) -> Seq<Seq<char>> {
    v.map_values(|s: String| s@)
}

/// The texts joined, with `sep` between each two.
pub open spec fn join_with(v: Seq<Seq<char>>, sep: Seq<char>) -> Seq<char>
    decreases v.len(),
{
    if v.len() == 0 {
        seq![]
    } else if v.len() == 1 {
        v[0]
    } else {
        join_with(v.drop_last(), sep) + sep + v.last()
    }
}

/// The compiled machine's name for a state of the two-tape machine; `accept`
/// keeps its name so that the compiled machine accepts where the original does.
pub open spec fn wrap_spec(s: Seq<char>) -> Seq<char> {
    if s == accept_name() {
        s
    } else {
        "#$ORIGINAL_"@ + s + "$#"@
    }
}

/// One value inside a pipeline state name: its length in decimal, a colon,
/// then the value itself, so that any characters may occur in it.
pub open spec fn field_code(v: Seq<char>) -> Seq<char> {
    decimal(v.len()) + ":"@ + v
}

/// The codes of the values, one after the other.
pub open spec fn fields_code(vs: Seq<Seq<char>>) -> Seq<char>
    decreases vs.len(),
{
    if vs.len() == 0 {
        seq![]
    } else {
        field_code(vs[0]) + fields_code(vs.drop_first())
    }
}

/// The name of a pipeline state: the phase and the data it carries.
pub open spec fn custom_spec(data: Seq<char>, values: Seq<Seq<char>>) -> Seq<char> {
    "#$CUSTOMIZED_"@ + data + "#"@ + fields_code(values) + "$#"@
}

/// The text holds no `c`.
pub open spec fn free_of(s: Seq<char>, c: char) -> bool {
    forall|i: int| 0 <= i < s.len() ==> s[i] != c
}

proof fn lemma_fields_code_push(vs: Seq<Seq<char>>, v: Seq<char>)
    ensures
        fields_code(vs.push(v)) == fields_code(vs) + field_code(v),
    decreases vs.len(),
{
    if vs.len() == 0 {
        assert(vs.push(v).drop_first() =~= Seq::<Seq<char>>::empty());
        assert(fields_code(Seq::<Seq<char>>::empty()) == Seq::<char>::empty());
        assert(vs.push(v)[0] == v);
        assert(fields_code(vs.push(v)) =~= field_code(v) + Seq::<char>::empty());
        assert(fields_code(vs) == Seq::<char>::empty());
    } else {
        lemma_fields_code_push(vs.drop_first(), v);
        assert(vs.push(v).drop_first() =~= vs.drop_first().push(v));
        assert(fields_code(vs.push(v)) =~= field_code(vs[0]) + (fields_code(vs.drop_first())
            + field_code(v)));
    }
}

/// Two texts, each cut at its first `c`, agree on both sides of the cut.
proof fn lemma_split_at(a1: Seq<char>, b1: Seq<char>, a2: Seq<char>, b2: Seq<char>, c: char)
    requires
        free_of(a1, c),
        free_of(a2, c),
        a1 + seq![c] + b1 == a2 + seq![c] + b2,
    ensures
        a1 == a2,
        b1 == b2,
{
    let s1 = a1 + seq![c] + b1;
    let s2 = a2 + seq![c] + b2;
    if a1.len() < a2.len() {
        assert(s1[a1.len() as int] == c);
        assert(s2[a1.len() as int] == a2[a1.len() as int]);
    } else if a2.len() < a1.len() {
        assert(s2[a2.len() as int] == c);
        assert(s1[a2.len() as int] == a1[a2.len() as int]);
    } else {
        assert(a1 =~= s1.take(a1.len() as int));
        assert(a2 =~= s2.take(a2.len() as int));
        assert(b1 =~= s1.skip(a1.len() + 1int));
        assert(b2 =~= s2.skip(a2.len() + 1int));
    }
}

proof fn lemma_decimal_free(n: nat, c: char)
    requires
        !('0' <= c && c <= '9'),
    ensures
        free_of(decimal(n), c),
        decimal(n).len() > 0,
{
    lemma_decimal_digits(n);
    assert forall|i: int| 0 <= i < decimal(n).len() implies decimal(n)[i] != c by {
        assert(is_digit_char(decimal(n)[i]));
    }
}

/// Equal codes come from equal value lists.
proof fn lemma_fields_code_injective(v1: Seq<Seq<char>>, v2: Seq<Seq<char>>)
    requires
        fields_code(v1) == fields_code(v2),
    ensures
        v1 == v2,
    decreases v1.len(),
{
    if v1.len() == 0 {
        if v2.len() > 0 {
            lemma_decimal_free(v2[0].len(), ':');
        }
        assert(v1 =~= v2);
    } else {
        lemma_decimal_free(v1[0].len(), ':');
        if v2.len() == 0 {
            assert(fields_code(v1).len() > 0);
        } else {
            lemma_decimal_free(v2[0].len(), ':');
            let r1 = v1[0] + fields_code(v1.drop_first());
            let r2 = v2[0] + fields_code(v2.drop_first());
            assert(fields_code(v1) =~= decimal(v1[0].len()) + seq![':'] + r1) by {
                reveal_strlit(":");
            }
            assert(fields_code(v2) =~= decimal(v2[0].len()) + seq![':'] + r2) by {
                reveal_strlit(":");
            }
            lemma_split_at(decimal(v1[0].len()), r1, decimal(v2[0].len()), r2, ':');
            lemma_decimal_digits(v1[0].len());
            lemma_decimal_digits(v2[0].len());
            assert(v1[0].len() == v2[0].len());
            assert(v1[0] =~= r1.take(v1[0].len() as int));
            assert(v2[0] =~= r2.take(v2[0].len() as int));
            assert(fields_code(v1.drop_first()) =~= r1.skip(v1[0].len() as int));
            assert(fields_code(v2.drop_first()) =~= r2.skip(v2[0].len() as int));
            lemma_fields_code_injective(v1.drop_first(), v2.drop_first());
            assert(v1 =~= seq![v1[0]] + v1.drop_first());
            assert(v2 =~= seq![v2[0]] + v2.drop_first());
        }
    }
}

/// Pipeline state names are told apart by their phase and values: equal names
/// have equal phases and equal values, whatever characters the values hold.
pub proof fn lemma_custom_names_injective(
    d1: Seq<char>,
    v1: Seq<Seq<char>>,
    d2: Seq<char>,
    v2: Seq<Seq<char>>,
)
    requires
        free_of(d1, '#'),
        free_of(d2, '#'),
        custom_spec(d1, v1) == custom_spec(d2, v2),
    ensures
        d1 == d2,
        v1 == v2,
{
    reveal_strlit("#$CUSTOMIZED_");
    reveal_strlit("#");
    reveal_strlit("$#");
    let pre = "#$CUSTOMIZED_"@;
    let t1 = d1 + seq!['#'] + (fields_code(v1) + "$#"@);
    let t2 = d2 + seq!['#'] + (fields_code(v2) + "$#"@);
    assert(custom_spec(d1, v1) =~= pre + t1);
    assert(custom_spec(d2, v2) =~= pre + t2);
    assert(t1 =~= custom_spec(d1, v1).skip(pre.len() as int));
    assert(t2 =~= custom_spec(d2, v2).skip(pre.len() as int));
    lemma_split_at(d1, fields_code(v1) + "$#"@, d2, fields_code(v2) + "$#"@, '#');
    let f1 = fields_code(v1) + "$#"@;
    let f2 = fields_code(v2) + "$#"@;
    assert(fields_code(v1) =~= f1.take(f1.len() - 2));
    assert(fields_code(v2) =~= f2.take(f2.len() - 2));
    lemma_fields_code_injective(v1, v2);
}

/// A pipeline state name is never a wrapped state name, `start` or `accept`.
pub proof fn lemma_custom_names_apart(d: Seq<char>, v: Seq<Seq<char>>, s: Seq<char>)
    ensures
        custom_spec(d, v) != wrap_spec(s),
        custom_spec(d, v) != start_name(),
        custom_spec(d, v) != accept_name(),
{
    reveal_strlit("#$CUSTOMIZED_");
    reveal_strlit("#$ORIGINAL_");
    let n = custom_spec(d, v);
    assert(n[0] == '#' && n[2] == 'C');
    assert(start_name()[0] == 's');
    assert(accept_name()[0] == 'a');
    if s != accept_name() {
        assert(wrap_spec(s)[2] == 'O');
    }
}

/// No phase name holds `#`, and different phases have different names.
pub proof fn lemma_phase_names(p1: Phase, p2: Phase)
    ensures
        free_of(phase_name(p1), '#'),
        phase_name(p1) == phase_name(p2) ==> p1 == p2,
{
    reveal_strlit("initialize_two_tape_read");
    reveal_strlit("go_to_start_to_read_from_q");
    reveal_strlit("reach_q_for_read");
    reveal_strlit("read_value_from_q");
    reveal_strlit("handle_q_head_moved");
    reveal_strlit("go_to_start_to_write_to_p");
    reveal_strlit("reach_p_for_write");
    reveal_strlit("write_value_to_p");
    reveal_strlit("handle_p_head_moved");
    let (a, b) = (phase_name(p1), phase_name(p2));
    if a == b && p1 != p2 {
        assert(a.len() == b.len());
        assert(a[0] == b[0] && a[3] == b[3] && a[7] == b[7]);
    }
}

/// Names built by `customized_state` are equal only for equal phases and
/// equal values.
pub proof fn lemma_stage_names_injective(
    p1: Phase,
    v1: Seq<Seq<char>>,
    p2: Phase,
    v2: Seq<Seq<char>>,
)
    requires
        custom_spec(phase_name(p1), v1) == custom_spec(phase_name(p2), v2),
    ensures
        p1 == p2,
        v1 == v2,
{
    lemma_phase_names(p1, p2);
    lemma_phase_names(p2, p1);
    lemma_custom_names_injective(phase_name(p1), v1, phase_name(p2), v2);
}

/// Two stage states of the compiled machine are equal only for the same phase
/// of the same transition number with the same data; none of them is a
/// wrapped state, `start` or `accept`.
pub proof fn lemma_stage_states_distinct(
    p1: Phase,
    t1: DoubleTransitionView,
    k1: nat,
    p2: Phase,
    t2: DoubleTransitionView,
    k2: nat,
    s: Seq<char>,
)
    ensures
        stage_state(p1, t1, k1) == stage_state(p2, t2, k2) ==> p1 == p2 && k1 == k2
            && stage_values(p1, t1, k1) == stage_values(p2, t2, k2),
        stage_state(p1, t1, k1) != wrap_spec(s),
        stage_state(p1, t1, k1) != start_name(),
        stage_state(p1, t1, k1) != accept_name(),
{
    lemma_phase_names(p1, p2);
    lemma_phase_names(p2, p1);
    lemma_custom_names_apart(phase_name(p1), stage_values(p1, t1, k1), s);
    if stage_state(p1, t1, k1) == stage_state(p2, t2, k2) {
        lemma_custom_names_injective(
            phase_name(p1),
            stage_values(p1, t1, k1),
            phase_name(p2),
            stage_values(p2, t2, k2),
        );
        assert(stage_values(p1, t1, k1)[0] == decimal(k1));
        assert(stage_values(p2, t2, k2)[0] == decimal(k2));
        lemma_decimal_digits(k1);
        lemma_decimal_digits(k2);
    }
}

/// What remains to be done once both symbols are known: the two symbols to
/// write, the two moves, and the state to enter.
pub open spec fn write_data(t: DoubleTransitionView) -> Seq<Seq<char>> {
    seq![
        decimal(t.2.1.0 as nat),
        decimal(t.3.1.0 as nat),
        seq![direction_char(t.2.2)],
        seq![direction_char(t.3.2)],
        t.1,
    ]
}

/// `write_data`, and the second-tape symbol still to be checked.
pub open spec fn read_write_data(t: DoubleTransitionView) -> Seq<Seq<char>> {
    write_data(t).push(decimal(t.3.0.0 as nat))
}

/// The stages that each two-tape transition is expanded into.
#[derive(Debug, Clone, Copy, PartialEq, Eq, Structural)]
pub enum Phase {
    InitializeRead,
    GoToStartToRead,
    ReachQForRead,
    ReadValueFromQ,
    HandleQHeadMoved,
    GoToStartToWrite,
    ReachPForWrite,
    WriteValueToP,
    HandlePHeadMoved,
}

/// The name of each stage inside state names.
pub open spec fn phase_name(p: Phase) -> Seq<char> {
    match p {
        Phase::InitializeRead => "initialize_two_tape_read"@,
        Phase::GoToStartToRead => "go_to_start_to_read_from_q"@,
        Phase::ReachQForRead => "reach_q_for_read"@,
        Phase::ReadValueFromQ => "read_value_from_q"@,
        Phase::HandleQHeadMoved => "handle_q_head_moved"@,
        Phase::GoToStartToWrite => "go_to_start_to_write_to_p"@,
        Phase::ReachPForWrite => "reach_p_for_write"@,
        Phase::WriteValueToP => "write_value_to_p"@,
        Phase::HandlePHeadMoved => "handle_p_head_moved"@,
    }
}

/// The state of a stage of transition `t`. The stages up to reading the second
/// tape carry `read_write_data`, the later ones `write_data`.
pub open spec fn stage_state(p: Phase, t: DoubleTransitionView, k: nat) -> Seq<char> {
    custom_spec(phase_name(p), stage_values(p, t, k))
}

/// The values that a stage state of transition number `k` carries: `k`
/// itself, then `read_write_data` up to reading the second tape and
/// `write_data` after.
pub open spec fn stage_values(p: Phase, t: DoubleTransitionView, k: nat) -> Seq<Seq<char>> {
    seq![decimal(k)] + match p {
        Phase::InitializeRead | Phase::GoToStartToRead | Phase::ReachQForRead
        | Phase::ReadValueFromQ => read_write_data(t),
        _ => write_data(t),
    }
}

/// The packed symbol of a cell.
pub open spec fn sym(se: SuperTapeEntry) -> TapeEntry {
    TapeEntry(encode_spec(se))
}

/// The transition that stage `p` of `t` has for cell `se`, if any.
pub open spec fn phase_entry(p: Phase, t: DoubleTransitionView, k: nat, se: SuperTapeEntry) -> Option<
    TransitionView,
> {
    match p {
        Phase::InitializeRead => if se.first_letter == t.2.0 {
            Some(
                (
                    wrap_spec(t.0),
                    sym(se),
                    stage_state(Phase::GoToStartToRead, t, k),
                    sym(se),
                    HeadMoveDirection::Stay,
                ),
            )
        } else {
            None
        },
        Phase::GoToStartToRead => Some(
            (
                stage_state(p, t, k),
                sym(se),
                if se.is_start {
                    stage_state(Phase::ReachQForRead, t, k)
                } else {
                    stage_state(p, t, k)
                },
                sym(se),
                if se.is_start {
                    HeadMoveDirection::Stay
                } else {
                    HeadMoveDirection::Left
                },
            ),
        ),
        Phase::ReachQForRead => Some(
            (
                stage_state(p, t, k),
                sym(se),
                if se.has_second_tape_head {
                    stage_state(Phase::ReadValueFromQ, t, k)
                } else {
                    stage_state(p, t, k)
                },
                sym(se),
                if se.has_second_tape_head {
                    HeadMoveDirection::Stay
                } else {
                    HeadMoveDirection::Right
                },
            ),
        ),
        Phase::ReadValueFromQ => if se.second_letter == t.3.0 {
            Some(
                (
                    stage_state(p, t, k),
                    sym(se),
                    stage_state(Phase::HandleQHeadMoved, t, k),
                    sym(SuperTapeEntry { second_letter: t.3.1, has_second_tape_head: false, ..se }),
                    t.3.2,
                ),
            )
        } else {
            None
        },
        Phase::HandleQHeadMoved => Some(
            (
                stage_state(p, t, k),
                sym(se),
                stage_state(Phase::GoToStartToWrite, t, k),
                sym(SuperTapeEntry { has_second_tape_head: true, ..se }),
                HeadMoveDirection::Stay,
            ),
        ),
        Phase::GoToStartToWrite => Some(
            (
                stage_state(p, t, k),
                sym(se),
                if se.is_start {
                    stage_state(Phase::ReachPForWrite, t, k)
                } else {
                    stage_state(p, t, k)
                },
                sym(se),
                if se.is_start {
                    HeadMoveDirection::Stay
                } else {
                    HeadMoveDirection::Left
                },
            ),
        ),
        Phase::ReachPForWrite => Some(
            (
                stage_state(p, t, k),
                sym(se),
                if se.has_first_tape_head {
                    stage_state(Phase::WriteValueToP, t, k)
                } else {
                    stage_state(p, t, k)
                },
                sym(se),
                if se.has_first_tape_head {
                    HeadMoveDirection::Stay
                } else {
                    HeadMoveDirection::Right
                },
            ),
        ),
        Phase::WriteValueToP => if se.first_letter == t.2.0 {
            Some(
                (
                    stage_state(p, t, k),
                    sym(se),
                    stage_state(Phase::HandlePHeadMoved, t, k),
                    sym(SuperTapeEntry { first_letter: t.2.1, has_first_tape_head: false, ..se }),
                    t.2.2,
                ),
            )
        } else {
            None
        },
        Phase::HandlePHeadMoved => Some(
            (
                stage_state(p, t, k),
                sym(se),
                wrap_spec(t.1),
                sym(SuperTapeEntry { has_first_tape_head: true, ..se }),
                HeadMoveDirection::Stay,
            ),
        ),
    }
}

/// The transitions of stage `p` of `t`, one for each cell of `ses` that the
/// stage has one for, in the order of `ses`.
pub open spec fn phase_seq(p: Phase, t: DoubleTransitionView, k: nat, ses: Seq<SuperTapeEntry>) -> Seq<
    TransitionView,
>
    decreases ses.len(),
{
    if ses.len() == 0 {
        seq![]
    } else {
        phase_seq(p, t, k, ses.drop_last()) + match phase_entry(p, t, k, ses.last()) {
            Some(x) => seq![x],
            None => seq![],
        }
    }
}

fn join_strings(values: &Vec<String>, sep: &str) -> (r: String)
    ensures
        r@ == join_with(string_views(values@), sep@),
{
    let ghost vs = string_views(values@);
    let mut r = String::new();
    let mut i: usize = 0;
    assert(vs.take(0) =~= Seq::<Seq<char>>::empty());
    while i < values.len()
        invariant
            i <= values@.len(),
            vs == string_views(values@),
            r@ == join_with(vs.take(i as int), sep@),
        decreases values@.len() - i,
    {
        assert(vs.take(i + 1).drop_last() =~= vs.take(i as int));
        if i == 0 {
            r = values[0].clone();
            assert(vs.take(1) =~= seq![values@[0]@]);
        } else {
            r = r.concat(sep);
            r = r.concat(values[i].as_str());
            assert(r@ =~= join_with(vs.take(i + 1), sep@));
        }
        i = i + 1;
    }
    assert(vs.take(i as int) =~= vs);
    r
}

/// The name that the compiled machine gives to a state of the two-tape machine.
fn wrap_original_state(state: &State) -> (r: State)
    ensures
        r@ == wrap_spec(state@),
{
    if state.same_as(&State::accept()) {
        return State(state.to_string());
    }
    let r = String::from_str("#$ORIGINAL_");
    let r = r.concat(state.value());
    let r = r.concat("$#");
    State(r)
}

/// The name of a pipeline state of phase `phase` carrying `values`. Distinct
/// phases or values give distinct names (`lemma_stage_names_injective`), and
/// no such name is a wrapped name, `start` or `accept`.
fn customized_state(phase: Phase, values: &Vec<String>) -> (r: State)
    ensures
        r@ == custom_spec(phase_name(phase), string_views(values@)),
        r@ != start_name(),
        r@ != accept_name(),
        forall|s: Seq<char>| r@ != #[trigger] wrap_spec(s),
{
    let ghost d = phase_name(phase);
    proof {
        assert forall|s: Seq<char>| custom_spec(d, string_views(values@)) != #[trigger] wrap_spec(s) by {
            lemma_custom_names_apart(d, string_views(values@), s);
        }
        lemma_custom_names_apart(d, string_views(values@), seq![]);
    }
    let r = String::from_str("#$CUSTOMIZED_");
    let r = r.concat(phase_label(phase));
    let r = r.concat("#");
    let r = r.concat(encode_fields(values).as_str());
    let r = r.concat("$#");
    State(r)
}

fn encode_fields(values: &Vec<String>) -> (r: String)
    ensures
        r@ == fields_code(string_views(values@)),
{
    let ghost vs = string_views(values@);
    let mut r = String::new();
    let mut i: usize = 0;
    assert(vs.take(0) =~= Seq::<Seq<char>>::empty());
    while i < values.len()
        invariant
            i <= values@.len(),
            vs == string_views(values@),
            r@ == fields_code(vs.take(i as int)),
        decreases values@.len() - i,
    {
        let v = values[i].as_str();
        let len = chars_of(v).len();
        r = r.concat(TapeEntry(len as u64).to_string().as_str());
        r = r.concat(":");
        r = r.concat(v);
        proof {
            lemma_fields_code_push(vs.take(i as int), vs[i as int]);
            assert(vs.take(i + 1) =~= vs.take(i as int).push(vs[i as int]));
            assert(r@ =~= fields_code(vs.take(i as int)) + field_code(vs[i as int]));
        }
        i = i + 1;
    }
    assert(vs.take(i as int) =~= vs);
    r
}

fn get_data_to_write(trans: &DoubleTransition) -> (r: Vec<String>)
    ensures
        string_views(r@) == write_data(trans@),
{
    let r = vec![
        trans.first_tape_value_after.to_string(),
        trans.second_tape_value_after.to_string(),
        direction_to_string(&trans.first_tape_head_move_direction),
        direction_to_string(&trans.second_tape_head_move_direction),
        trans.state_after.to_string(),
    ];
    assert(string_views(r@) =~= write_data(trans@));
    r
}

fn get_data_to_read_and_write(trans: &DoubleTransition) -> (r: Vec<String>)
    ensures
        string_views(r@) == read_write_data(trans@),
{
    let mut write_data = get_data_to_write(trans);
    write_data.push(trans.second_tape_value_before.to_string());
    assert(string_views(write_data@) =~= read_write_data(trans@));
    write_data
}

fn phase_label(p: Phase) -> (r: &'static str)
    ensures
        r@ == phase_name(p),
{
    match p {
        Phase::InitializeRead => "initialize_two_tape_read",
        Phase::GoToStartToRead => "go_to_start_to_read_from_q",
        Phase::ReachQForRead => "reach_q_for_read",
        Phase::ReadValueFromQ => "read_value_from_q",
        Phase::HandleQHeadMoved => "handle_q_head_moved",
        Phase::GoToStartToWrite => "go_to_start_to_write_to_p",
        Phase::ReachPForWrite => "reach_p_for_write",
        Phase::WriteValueToP => "write_value_to_p",
        Phase::HandlePHeadMoved => "handle_p_head_moved",
    }
}

fn stage_state_of(p: Phase, trans: &DoubleTransition, index: u64) -> (r: State)
    ensures
        r@ == stage_state(p, trans@, index as nat),
{
    let data = match p {
        Phase::InitializeRead | Phase::GoToStartToRead | Phase::ReachQForRead
        | Phase::ReadValueFromQ => get_data_to_read_and_write(trans),
        _ => get_data_to_write(trans),
    };
    let mut values = vec![TapeEntry(index).to_string()];
    let ghost first = string_views(values@);
    let mut rest = data;
    values.append(&mut rest);
    assert(string_views(values@) =~= first + string_views(data@));
    assert(string_views(values@) =~= stage_values(p, trans@, index as nat));
    customized_state(p, &values)
}

/// The symbols of a two-tape transition fit in the bit budget.
pub open spec fn double_fits(t: DoubleTransitionView) -> bool {
    t.2.0.0 <= SYMBOL_MASK && t.2.1.0 <= SYMBOL_MASK && t.3.0.0 <= SYMBOL_MASK && t.3.1.0
        <= SYMBOL_MASK
}

fn phase_entry_of(p: Phase, trans: &DoubleTransition, index: u64, se: &SuperTapeEntry) -> (r: Option<Transition>)
    requires
        se.fits(),
        double_fits(trans@),
    ensures
        r matches Some(x) ==> phase_entry(p, trans@, index as nat, *se) == Some(x@),
        r is None ==> phase_entry(p, trans@, index as nat, *se) is None,
{
    let stay = HeadMoveDirection::Stay;
    match p {
        Phase::InitializeRead => {
            if se.first_letter.0 != trans.first_tape_value_before.0 {
                return None;
            }
            Some(Transition {
                state_before: wrap_original_state(&trans.state_before),
                state_after: stage_state_of(Phase::GoToStartToRead, trans, index),
                tape_value_before: se.encoded(),
                tape_value_after: se.encoded(),
                tape_head_move_direction: stay,
            })
        },
        Phase::GoToStartToRead | Phase::GoToStartToWrite => {
            let next = if let Phase::GoToStartToRead = p {
                Phase::ReachQForRead
            } else {
                Phase::ReachPForWrite
            };
            Some(Transition {
                state_before: stage_state_of(p, trans, index),
                state_after: if se.is_start {
                    stage_state_of(next, trans, index)
                } else {
                    stage_state_of(p, trans, index)
                },
                tape_value_before: se.encoded(),
                tape_value_after: se.encoded(),
                tape_head_move_direction: if se.is_start {
                    HeadMoveDirection::Stay
                } else {
                    HeadMoveDirection::Left
                },
            })
        },
        Phase::ReachQForRead | Phase::ReachPForWrite => {
            let (found, next) = if let Phase::ReachQForRead = p {
                (se.has_second_tape_head, Phase::ReadValueFromQ)
            } else {
                (se.has_first_tape_head, Phase::WriteValueToP)
            };
            Some(Transition {
                state_before: stage_state_of(p, trans, index),
                state_after: if found {
                    stage_state_of(next, trans, index)
                } else {
                    stage_state_of(p, trans, index)
                },
                tape_value_before: se.encoded(),
                tape_value_after: se.encoded(),
                tape_head_move_direction: if found {
                    HeadMoveDirection::Stay
                } else {
                    HeadMoveDirection::Right
                },
            })
        },
        Phase::ReadValueFromQ => {
            if se.second_letter.0 != trans.second_tape_value_before.0 {
                return None;
            }
            let after = SuperTapeEntry {
                second_letter: trans.second_tape_value_after,
                has_second_tape_head: false,
                ..*se
            };
            Some(Transition {
                state_before: stage_state_of(p, trans, index),
                state_after: stage_state_of(Phase::HandleQHeadMoved, trans, index),
                tape_value_before: se.encoded(),
                tape_value_after: after.encoded(),
                tape_head_move_direction: trans.second_tape_head_move_direction,
            })
        },
        Phase::HandleQHeadMoved => {
            let after = SuperTapeEntry { has_second_tape_head: true, ..*se };
            Some(Transition {
                state_before: stage_state_of(p, trans, index),
                state_after: stage_state_of(Phase::GoToStartToWrite, trans, index),
                tape_value_before: se.encoded(),
                tape_value_after: after.encoded(),
                tape_head_move_direction: stay,
            })
        },
        Phase::WriteValueToP => {
            if se.first_letter.0 != trans.first_tape_value_before.0 {
                return None;
            }
            let after = SuperTapeEntry {
                first_letter: trans.first_tape_value_after,
                has_first_tape_head: false,
                ..*se
            };
            Some(Transition {
                state_before: stage_state_of(p, trans, index),
                state_after: stage_state_of(Phase::HandlePHeadMoved, trans, index),
                tape_value_before: se.encoded(),
                tape_value_after: after.encoded(),
                tape_head_move_direction: trans.first_tape_head_move_direction,
            })
        },
        Phase::HandlePHeadMoved => {
            let after = SuperTapeEntry { has_first_tape_head: true, ..*se };
            Some(Transition {
                state_before: stage_state_of(p, trans, index),
                state_after: wrap_original_state(&trans.state_after),
                tape_value_before: se.encoded(),
                tape_value_after: after.encoded(),
                tape_head_move_direction: stay,
            })
        },
    }
}

/// The symbols of a sequence of two-tape transitions, and the digits.
pub open spec fn symbols_of(ts: Seq<DoubleTransitionView>) -> Set<TapeEntry>
    decreases ts.len(),
{
    if ts.len() == 0 {
        Set::new(|e: TapeEntry| e.0 <= 9)
    } else {
        symbols_of(ts.drop_last()).insert(ts.last().2.0).insert(ts.last().2.1).insert(
            ts.last().3.0,
        ).insert(ts.last().3.1)
    }
}

/// The states of a sequence of two-tape transitions.
pub open spec fn states_of(ts: Seq<DoubleTransitionView>) -> Set<Seq<char>>
    decreases ts.len(),
{
    if ts.len() == 0 {
        Set::empty()
    } else {
        states_of(ts.drop_last()).insert(ts.last().0).insert(ts.last().1)
    }
}

/// The views of a sequence of two-tape transitions.
pub open spec fn double_views(ts: Seq<DoubleTransition>) -> Seq<DoubleTransitionView> {
    ts.map_values(|t: DoubleTransition| t@)
}

/// The views of a sequence of states.
pub open spec fn state_views(v: Seq<State>) -> Seq<Seq<char>> {
    v.map_values(|s: State| s@)
}

/// `s` with `x` added at the end unless it is there already.
pub open spec fn add_unique<A>(s: Seq<A>, x: A) -> Seq<A> {
    if s.contains(x) {
        s
    } else {
        s.push(x)
    }
}

/// The digits 0 to 9, in order.
pub open spec fn digit_entries() -> Seq<TapeEntry> {
    Seq::new(10, |i: int| TapeEntry(i as u64))
}

/// The symbols in the order the translator lists them: the digits, then each
/// symbol of each transition not listed yet, in the order first-tape read,
/// first-tape written, second-tape read, second-tape written.
pub open spec fn alphabet_seq(ts: Seq<DoubleTransitionView>) -> Seq<TapeEntry>
    decreases ts.len(),
{
    if ts.len() == 0 {
        digit_entries()
    } else {
        let t = ts.last();
        add_unique(
            add_unique(add_unique(add_unique(alphabet_seq(ts.drop_last()), t.2.0), t.2.1), t.3.0),
            t.3.1,
        )
    }
}

/// The states in order of first appearance, before-state before after-state.
pub open spec fn states_seq(ts: Seq<DoubleTransitionView>) -> Seq<Seq<char>>
    decreases ts.len(),
{
    if ts.len() == 0 {
        seq![]
    } else {
        add_unique(add_unique(states_seq(ts.drop_last()), ts.last().0), ts.last().1)
    }
}

fn insert_entry(v: &mut Vec<TapeEntry>, e: TapeEntry)
    requires
        old(v)@.no_duplicates(),
    ensures
        final(v)@.no_duplicates(),
        final(v)@.to_set() == old(v)@.to_set().insert(e),
        final(v)@ == add_unique(old(v)@, e),
{
    let mut i: usize = 0;
    while i < v.len()
        invariant
            i <= v@.len(),
            v@ == old(v)@,
            v@.no_duplicates(),
            forall|k: int| 0 <= k < i ==> v@[k] != e,
        decreases v@.len() - i,
    {
        if v[i].0 == e.0 {
            assert(v@.contains(e)) by {
                assert(v@[i as int] == e);
            }
            assert(v@.to_set() =~= v@.to_set().insert(e)) by {
                assert(v@.contains(v@[i as int]));
            }
            return;
        }
        i = i + 1;
    }
    let ghost before = v@;
    v.push(e);
    assert(v@.to_set() =~= before.to_set().insert(e)) by {
        assert forall|x: TapeEntry| #[trigger] before.to_set().insert(e).contains(x) implies v@.to_set().contains(x) by {
            if x == e {
                assert(v@[before.len() as int] == e);
            } else {
                let k = choose|k: int| 0 <= k < before.len() && before[k] == x;
                assert(v@[k] == x);
            }
        }
        assert forall|x: TapeEntry| #[trigger] v@.to_set().contains(x) implies before.to_set().insert(e).contains(x) by {
            let k = choose|k: int| 0 <= k < v@.len() && v@[k] == x;
            if k < before.len() {
                assert(before[k] == x);
            }
        }
    }
}

fn insert_state(v: &mut Vec<State>, s: &State)
    requires
        state_views(old(v)@).no_duplicates(),
    ensures
        state_views(final(v)@).no_duplicates(),
        state_views(final(v)@).to_set() == state_views(old(v)@).to_set().insert(s@),
        state_views(final(v)@) == add_unique(state_views(old(v)@), s@),
{
    let ghost before = state_views(v@);
    let mut i: usize = 0;
    while i < v.len()
        invariant
            i <= v@.len(),
            v@ == old(v)@,
            before == state_views(v@),
            before.no_duplicates(),
            forall|k: int| 0 <= k < i ==> v@[k]@ != s@,
        decreases v@.len() - i,
    {
        if v[i].same_as(s) {
            assert(before.contains(s@)) by {
                assert(before[i as int] == s@);
            }
            assert(before.to_set() =~= before.to_set().insert(s@)) by {
                assert(before[i as int] == s@);
                assert(before.contains(before[i as int]));
            }
            return;
        }
        i = i + 1;
    }
    v.push(State(s.to_string()));
    let ghost after = state_views(v@);
    assert(after =~= before.push(s@));
    assert(after.to_set() =~= before.to_set().insert(s@)) by {
        assert forall|x: Seq<char>| #[trigger] before.to_set().insert(s@).contains(x) implies after.to_set().contains(x) by {
            if x == s@ {
                assert(after[before.len() as int] == x);
            } else {
                let k = choose|k: int| 0 <= k < before.len() && before[k] == x;
                assert(after[k] == x);
            }
        }
        assert forall|x: Seq<char>| #[trigger] after.to_set().contains(x) implies before.to_set().insert(s@).contains(x) by {
            let k = choose|k: int| 0 <= k < after.len() && after[k] == x;
            if k < before.len() {
                assert(before[k] == x);
            }
        }
    }
}

/// A two-tape machine with the states and the symbols that it uses.
pub struct TranslatorInput {
    pub transitions: Vec<DoubleTransition>,
    pub states: Vec<State>,
    pub tape_entries: Vec<TapeEntry>,
}

impl TranslatorInput {
    /// Reads a two-tape machine; its symbols are those of its transitions and
    /// the ten digits, each listed once, and its states are listed once each.
    pub fn new(machine_description: String) -> (r: Result<Self, FormatError>)
        ensures
            r is Ok <==> parse_double_machine(machine_description@) is Ok,
            r matches Err(e) ==> parse_double_machine(machine_description@) == Err::<
                Seq<DoubleTransitionView>,
                FormatError,
            >(e),
            r matches Ok(input) ==> {
                &&& parse_double_machine(machine_description@) == Ok::<
                    Seq<DoubleTransitionView>,
                    FormatError,
                >(double_views(input.transitions@))
                &&& input.tape_entries@.no_duplicates()
                &&& input.tape_entries@.to_set() == symbols_of(double_views(input.transitions@))
                &&& input.tape_entries@ == alphabet_seq(double_views(input.transitions@))
                &&& state_views(input.states@) == states_seq(double_views(input.transitions@))
                &&& state_views(input.states@).no_duplicates()
                &&& state_views(input.states@).to_set() == states_of(
                    double_views(input.transitions@),
                )
            },
    {
        let transitions = match two_tape_transitions_from_description(machine_description) {
            Ok(t) => t,
            Err(e) => return Err(e),
        };
        let ghost ts = double_views(transitions@);
        let mut tape_entries: Vec<TapeEntry> = Vec::new();
        let mut d: u64 = 0;
        while d < 10
            invariant
                d <= 10,
                tape_entries@.len() == d,
                forall|k: int| 0 <= k < d ==> #[trigger] tape_entries@[k] == TapeEntry(k as u64),
            decreases 10 - d,
        {
            tape_entries.push(TapeEntry(d));
            d = d + 1;
        }
        assert(tape_entries@.no_duplicates());
        assert(tape_entries@ =~= alphabet_seq(ts.take(0)));
        assert(tape_entries@.to_set() =~= symbols_of(ts.take(0))) by {
            assert(ts.take(0).len() == 0);
            assert forall|e: TapeEntry| #[trigger] symbols_of(ts.take(0)).contains(e) implies tape_entries@.to_set().contains(e) by {
                assert(tape_entries@[e.0 as int] == e);
            }
        }
        let mut states: Vec<State> = Vec::new();
        assert(state_views(states@).to_set() =~= states_of(ts.take(0)));
        assert(state_views(states@) =~= seq![]);
        let mut i: usize = 0;
        while i < transitions.len()
            invariant
                i <= transitions@.len(),
                ts == double_views(transitions@),
                tape_entries@.no_duplicates(),
                tape_entries@.to_set() == symbols_of(ts.take(i as int)),
                tape_entries@ == alphabet_seq(ts.take(i as int)),
                state_views(states@) == states_seq(ts.take(i as int)),
                state_views(states@).no_duplicates(),
                state_views(states@).to_set() == states_of(ts.take(i as int)),
            decreases transitions@.len() - i,
        {
            let t = &transitions[i];
            assert(ts.take(i + 1).drop_last() =~= ts.take(i as int));
            assert(ts.take(i + 1).last() == t@);
            insert_entry(&mut tape_entries, t.first_tape_value_before);
            insert_entry(&mut tape_entries, t.first_tape_value_after);
            insert_entry(&mut tape_entries, t.second_tape_value_before);
            insert_entry(&mut tape_entries, t.second_tape_value_after);
            insert_state(&mut states, &t.state_before);
            insert_state(&mut states, &t.state_after);
            i = i + 1;
        }
        assert(ts.take(i as int) =~= ts);
        Ok(TranslatorInput { transitions, states, tape_entries })
    }
}

/// Every pair of a symbol of `a` and a symbol of `b`, ordered by the first
/// component, then the second.
pub open spec fn pairs_spec(a: Seq<TapeEntry>, b: Seq<TapeEntry>) -> Seq<(TapeEntry, TapeEntry)>
    decreases a.len(),
{
    if a.len() == 0 {
        seq![]
    } else {
        pairs_spec(a.drop_last(), b) + b.map_values(|y: TapeEntry| (a.last(), y))
    }
}

/// Relies on itertools' `Itertools::cartesian_product`: each element of `a`
/// paired with each element of `b`, in that order.
#[verifier::external_body]
fn symbol_pairs(a: &Vec<TapeEntry>, b: &Vec<TapeEntry>) -> (r: Vec<(TapeEntry, TapeEntry)>)
    ensures
        r@ == pairs_spec(a@, b@),
{
    a.iter().cloned().cartesian_product(b.iter().cloned()).collect()
}

/// Variant `m < 8` of the markers of a pair of symbols: the head markers and
/// the start marker taken true before false, the first head marker slowest.
pub open spec fn marked(p: (TapeEntry, TapeEntry), m: int) -> SuperTapeEntry {
    SuperTapeEntry {
        first_letter: p.0,
        second_letter: p.1,
        has_first_tape_head: m < 4,
        has_second_tape_head: m % 4 < 2,
        is_start: m % 2 == 0,
    }
}

/// Every packed cell over the pairs: for each pair its eight marker variants.
pub open spec fn superentries_of(pairs: Seq<(TapeEntry, TapeEntry)>) -> Seq<SuperTapeEntry>
    decreases pairs.len(),
{
    if pairs.len() == 0 {
        seq![]
    } else {
        superentries_of(pairs.drop_last()) + Seq::new(8, |m: int| marked(pairs.last(), m))
    }
}

/// The transitions that expand one two-tape transition, stage after stage.
pub open spec fn block(t: DoubleTransitionView, k: nat, ses: Seq<SuperTapeEntry>) -> Seq<TransitionView> {
    phase_seq(Phase::InitializeRead, t, k, ses) + phase_seq(Phase::GoToStartToRead, t, k, ses)
        + phase_seq(Phase::ReachQForRead, t, k, ses) + phase_seq(Phase::ReadValueFromQ, t, k, ses)
        + phase_seq(Phase::HandleQHeadMoved, t, k, ses) + phase_seq(Phase::GoToStartToWrite, t, k, ses)
        + phase_seq(Phase::ReachPForWrite, t, k, ses) + phase_seq(Phase::WriteValueToP, t, k, ses)
        + phase_seq(Phase::HandlePHeadMoved, t, k, ses)
}

/// The expansions of all two-tape transitions, in order.
pub open spec fn blocks(ts: Seq<DoubleTransitionView>, ses: Seq<SuperTapeEntry>) -> Seq<
    TransitionView,
>
    decreases ts.len(),
{
    if ts.len() == 0 {
        seq![]
    } else {
        blocks(ts.drop_last(), ses) + block(ts.last(), (ts.len() - 1) as nat, ses)
    }
}

/// The first cell of a packed input: symbol `e` on the first tape, a blank on
/// the second, both heads and the start marker.
pub open spec fn start_cell(e: TapeEntry) -> SuperTapeEntry {
    SuperTapeEntry {
        first_letter: e,
        second_letter: TapeEntry(0),
        has_first_tape_head: true,
        has_second_tape_head: true,
        is_start: true,
    }
}

/// From `start` on each possible first cell into the wrapped `start`.
pub open spec fn setup_seq(alphabet: Seq<TapeEntry>) -> Seq<TransitionView> {
    alphabet.map_values(
        |e: TapeEntry|
            (
                start_name(),
                sym(start_cell(e)),
                wrap_spec(start_name()),
                sym(start_cell(e)),
                HeadMoveDirection::Stay,
            ),
    )
}

/// The one-tape machine compiled from two-tape transitions `ts` over symbols
/// `alphabet` and packed cells `ses`.
pub open spec fn translation(
    ts: Seq<DoubleTransitionView>,
    alphabet: Seq<TapeEntry>,
    ses: Seq<SuperTapeEntry>,
) -> Seq<TransitionView> {
    setup_seq(alphabet) + blocks(ts, ses)
}

/// The text of a one-tape machine: one line per transition.
pub open spec fn program_text(tvs: Seq<TransitionView>) -> Seq<char> {
    join_with(tvs.map_values(|t: TransitionView| line_of(t)), "\n"@)
}

/// The most symbols that a two-tape machine may use: its packed cells number
/// eight times the square of this.
pub const MAX_ALPHABET: usize = 0x1_0000;

/// A compiler from a two-tape machine to a one-tape machine.
pub struct MachineTranslator {
    input: TranslatorInput,
    possible_superentries: Vec<SuperTapeEntry>,
}

impl MachineTranslator {
    /// The two-tape transitions.
    pub closed spec fn transitions_view(&self) -> Seq<DoubleTransitionView> {
        double_views(self.input.transitions@)
    }

    /// The symbols of the two-tape machine, each once.
    pub closed spec fn alphabet(&self) -> Seq<TapeEntry> {
        self.input.tape_entries@
    }

    /// Every packed cell over the alphabet.
    pub closed spec fn superentries(&self) -> Seq<SuperTapeEntry> {
        self.possible_superentries@
    }

    pub open spec fn wf(&self) -> bool {
        &&& self.alphabet().to_set() == symbols_of(self.transitions_view())
        &&& forall|i: int| 0 <= i < self.alphabet().len() ==> #[trigger] self.alphabet()[i].0 <= SYMBOL_MASK
        &&& self.superentries() == superentries_of(pairs_spec(self.alphabet(), self.alphabet()))
    }

    /// Reads a two-tape machine and lists its packed cells. Fails when the
    /// description does not read, or else when a symbol does not fit in the
    /// bit budget of a packed cell, or the packed cells are too many to list.
    pub fn new(machine_description: String) -> (r: Result<Self, FormatError>)
        ensures
            parse_double_machine(machine_description@) is Err ==> r == Err::<Self, FormatError>(
                parse_double_machine(machine_description@)->Err_0,
            ),
            r matches Ok(m) ==> {
                &&& m.wf()
                &&& parse_double_machine(machine_description@) == Ok::<
                    Seq<DoubleTransitionView>,
                    FormatError,
                >(m.transitions_view())
                &&& m.alphabet().no_duplicates()
                &&& m.alphabet() == alphabet_seq(m.transitions_view())
            },
            parse_double_machine(machine_description@) matches Ok(ts) ==> {
                let wide = exists|x: TapeEntry| #[trigger] symbols_of(ts).contains(x) && x.0 > SYMBOL_MASK;
                &&& (r == Err::<Self, FormatError>(FormatError::SymbolTooWide) <==> wide)
                &&& (r == Err::<Self, FormatError>(FormatError::AlphabetTooLarge) <==> !wide
                    && symbols_of(ts).len() > MAX_ALPHABET)
                &&& (r is Ok <==> !wide && symbols_of(ts).len() <= MAX_ALPHABET)
            },
    {
        let input = match TranslatorInput::new(machine_description) {
            Ok(i) => i,
            Err(e) => return Err(e),
        };
        let n = input.tape_entries.len();
        let mut i: usize = 0;
        while i < n
            invariant
                n == input.tape_entries@.len(),
                i <= n,
                parse_double_machine(machine_description@) == Ok::<
                    Seq<DoubleTransitionView>,
                    FormatError,
                >(double_views(input.transitions@)),
                input.tape_entries@.no_duplicates(),
                input.tape_entries@ == alphabet_seq(double_views(input.transitions@)),
                input.tape_entries@.to_set() == symbols_of(double_views(input.transitions@)),
                forall|k: int| 0 <= k < i ==> #[trigger] input.tape_entries@[k].0 <= SYMBOL_MASK,
            decreases n - i,
        {
            if input.tape_entries[i].0 > SYMBOL_MASK {
                assert(input.tape_entries@.to_set().contains(input.tape_entries@[i as int]));
                assert(symbols_of(parse_double_machine(machine_description@)->Ok_0).contains(
                    input.tape_entries@[i as int],
                ));
                return Err(FormatError::SymbolTooWide);
            }
            i = i + 1;
        }
        proof {
            input.tape_entries@.unique_seq_to_set();
        }
        if n > MAX_ALPHABET {
            return Err(FormatError::AlphabetTooLarge);
        }
        let pairs = symbol_pairs(&input.tape_entries, &input.tape_entries);
        let mut possible_superentries: Vec<SuperTapeEntry> = Vec::new();
        let mut k: usize = 0;
        assert(pairs@.take(0) =~= Seq::<(TapeEntry, TapeEntry)>::empty());
        while k < pairs.len()
            invariant
                k <= pairs@.len(),
                possible_superentries@ == superentries_of(pairs@.take(k as int)),
                forall|k: int| 0 <= k < n ==> #[trigger] input.tape_entries@[k].0 <= SYMBOL_MASK,
                pairs@ == pairs_spec(input.tape_entries@, input.tape_entries@),
                parse_double_machine(machine_description@) == Ok::<
                    Seq<DoubleTransitionView>,
                    FormatError,
                >(double_views(input.transitions@)),
                input.tape_entries@.no_duplicates(),
                input.tape_entries@ == alphabet_seq(double_views(input.transitions@)),
                input.tape_entries@.to_set() == symbols_of(double_views(input.transitions@)),
            decreases pairs@.len() - k,
        {
            let p = pairs[k];
            let mut m: u64 = 0;
            let ghost base = possible_superentries@;
            while m < 8
                invariant
                    m <= 8,
                    possible_superentries@ == base + Seq::new(m as nat, |j: int| marked(p, j)),
                decreases 8 - m,
            {
                possible_superentries.push(
                    SuperTapeEntry {
                        first_letter: p.0,
                        second_letter: p.1,
                        has_first_tape_head: m < 4,
                        has_second_tape_head: m % 4 < 2,
                        is_start: m % 2 == 0,
                    },
                );
                m = m + 1;
                assert(possible_superentries@ =~= base + Seq::new(m as nat, |j: int| marked(p, j)));
            }
            assert(pairs@.take(k + 1).drop_last() =~= pairs@.take(k as int));
            assert(pairs@.take(k + 1).last() == p);
            k = k + 1;
        }
        assert(pairs@.take(k as int) =~= pairs@);
        Ok(MachineTranslator { input, possible_superentries })
    }
}

/// Both symbols of every cell fit in the bit budget.
pub open spec fn all_fit(ses: Seq<SuperTapeEntry>) -> bool {
    forall|i: int| 0 <= i < ses.len() ==> (#[trigger] ses[i]).fits()
}

proof fn lemma_pairs_fit(a: Seq<TapeEntry>, b: Seq<TapeEntry>)
    requires
        forall|i: int| 0 <= i < a.len() ==> #[trigger] a[i].0 <= SYMBOL_MASK,
        forall|i: int| 0 <= i < b.len() ==> #[trigger] b[i].0 <= SYMBOL_MASK,
    ensures
        forall|i: int|
            0 <= i < pairs_spec(a, b).len() ==> (#[trigger] pairs_spec(a, b)[i]).0.0 <= SYMBOL_MASK
                && pairs_spec(a, b)[i].1.0 <= SYMBOL_MASK,
    decreases a.len(),
{
    if a.len() > 0 {
        lemma_pairs_fit(a.drop_last(), b);
        let prev = pairs_spec(a.drop_last(), b);
        let tail = b.map_values(|y: TapeEntry| (a.last(), y));
        assert forall|i: int| 0 <= i < pairs_spec(a, b).len() implies (#[trigger] pairs_spec(
            a,
            b,
        )[i]).0.0 <= SYMBOL_MASK && pairs_spec(a, b)[i].1.0 <= SYMBOL_MASK by {
            if i < prev.len() {
                assert(pairs_spec(a, b)[i] == prev[i]);
            } else {
                assert(pairs_spec(a, b)[i] == tail[i - prev.len()]);
                assert(a.last() == a[a.len() - 1]);
            }
        }
    }
}

proof fn lemma_superentries_fit(pairs: Seq<(TapeEntry, TapeEntry)>)
    requires
        forall|i: int|
            0 <= i < pairs.len() ==> (#[trigger] pairs[i]).0.0 <= SYMBOL_MASK && pairs[i].1.0
                <= SYMBOL_MASK,
    ensures
        all_fit(superentries_of(pairs)),
    decreases pairs.len(),
{
    if pairs.len() > 0 {
        lemma_superentries_fit(pairs.drop_last());
        let prev = superentries_of(pairs.drop_last());
        let ses = superentries_of(pairs);
        assert forall|i: int| 0 <= i < ses.len() implies (#[trigger] ses[i]).fits() by {
            if i < prev.len() {
                assert(ses[i] == prev[i]);
            } else {
                assert(ses[i] == marked(pairs.last(), i - prev.len()));
                assert(pairs.last() == pairs[pairs.len() - 1]);
            }
        }
    }
}

proof fn lemma_symbols_contain(ts: Seq<DoubleTransitionView>)
    ensures
        forall|i: int|
            0 <= i < ts.len() ==> {
                &&& symbols_of(ts).contains((#[trigger] ts[i]).2.0)
                &&& symbols_of(ts).contains(ts[i].2.1)
                &&& symbols_of(ts).contains(ts[i].3.0)
                &&& symbols_of(ts).contains(ts[i].3.1)
            },
        symbols_of(ts).contains(TapeEntry(0)),
    decreases ts.len(),
{
    if ts.len() > 0 {
        lemma_symbols_contain(ts.drop_last());
        assert forall|i: int| 0 <= i < ts.len() implies {
            &&& symbols_of(ts).contains((#[trigger] ts[i]).2.0)
            &&& symbols_of(ts).contains(ts[i].2.1)
            &&& symbols_of(ts).contains(ts[i].3.0)
            &&& symbols_of(ts).contains(ts[i].3.1)
        } by {
            if i < ts.len() - 1 {
                assert(ts[i] == ts.drop_last()[i]);
            }
        }
    }
}

impl MachineTranslator {
    proof fn lemma_fits(&self)
        requires
            self.wf(),
        ensures
            all_fit(self.superentries()),
            forall|i: int|
                0 <= i < self.transitions_view().len() ==> double_fits(
                    #[trigger] self.transitions_view()[i],
                ),
    {
        lemma_pairs_fit(self.alphabet(), self.alphabet());
        lemma_superentries_fit(pairs_spec(self.alphabet(), self.alphabet()));
        let ts = self.transitions_view();
        lemma_symbols_contain(ts);
        assert forall|x: TapeEntry| #[trigger] symbols_of(ts).contains(x) implies x.0
            <= SYMBOL_MASK by {
            assert(self.alphabet().to_set().contains(x));
            let k = choose|k: int| 0 <= k < self.alphabet().len() && self.alphabet()[k] == x;
        }
    }

    fn phase_transitions(&self, p: Phase, trans: &DoubleTransition, index: u64) -> (r: Vec<Transition>)
        requires
            all_fit(self.superentries()),
            double_fits(trans@),
        ensures
            transition_views(r@) == phase_seq(p, trans@, index as nat, self.superentries()),
    {
        let ghost ses = self.superentries();
        let mut out: Vec<Transition> = Vec::new();
        let mut i: usize = 0;
        assert(ses.take(0) =~= Seq::<SuperTapeEntry>::empty());
        assert(transition_views(out@) =~= seq![]);
        while i < self.possible_superentries.len()
            invariant
                i <= ses.len(),
                ses == self.superentries(),
                all_fit(ses),
                double_fits(trans@),
                transition_views(out@) == phase_seq(p, trans@, index as nat, ses.take(i as int)),
            decreases ses.len() - i,
        {
            let se = &self.possible_superentries[i];
            assert(ses.take(i + 1).drop_last() =~= ses.take(i as int));
            assert(ses.take(i + 1).last() == ses[i as int]);
            assert(ses[i as int].fits());
            match phase_entry_of(p, trans, index, se) {
                Some(t) => {
                    out.push(t);
                    assert(transition_views(out@) =~= phase_seq(p, trans@, index as nat, ses.take(i + 1)));
                },
                None => {
                    assert(phase_seq(p, trans@, index as nat, ses.take(i + 1)) =~= phase_seq(p, trans@, index as nat, ses.take(i as int),
                    ));
                },
            }
            i = i + 1;
        }
        assert(ses.take(i as int) =~= ses);
        out
    }

    fn initialize_two_tape_read(&self, trans: &DoubleTransition, index: u64) -> (r: Vec<Transition>)
        requires
            all_fit(self.superentries()),
            double_fits(trans@),
        ensures
            transition_views(r@) == phase_seq(Phase::InitializeRead, trans@, index as nat, self.superentries()),
    {
        self.phase_transitions(Phase::InitializeRead, trans, index)
    }

    fn go_to_start_to_read_from_q(&self, trans: &DoubleTransition, index: u64) -> (r: Vec<Transition>)
        requires
            all_fit(self.superentries()),
            double_fits(trans@),
        ensures
            transition_views(r@) == phase_seq(Phase::GoToStartToRead, trans@, index as nat, self.superentries()),
    {
        self.phase_transitions(Phase::GoToStartToRead, trans, index)
    }

    fn reach_q_for_read(&self, trans: &DoubleTransition, index: u64) -> (r: Vec<Transition>)
        requires
            all_fit(self.superentries()),
            double_fits(trans@),
        ensures
            transition_views(r@) == phase_seq(Phase::ReachQForRead, trans@, index as nat, self.superentries()),
    {
        self.phase_transitions(Phase::ReachQForRead, trans, index)
    }

    fn read_value_from_q(&self, trans: &DoubleTransition, index: u64) -> (r: Vec<Transition>)
        requires
            all_fit(self.superentries()),
            double_fits(trans@),
        ensures
            transition_views(r@) == phase_seq(Phase::ReadValueFromQ, trans@, index as nat, self.superentries()),
    {
        self.phase_transitions(Phase::ReadValueFromQ, trans, index)
    }

    fn handle_q_head_moved(&self, trans: &DoubleTransition, index: u64) -> (r: Vec<Transition>)
        requires
            all_fit(self.superentries()),
            double_fits(trans@),
        ensures
            transition_views(r@) == phase_seq(Phase::HandleQHeadMoved, trans@, index as nat, self.superentries()),
    {
        self.phase_transitions(Phase::HandleQHeadMoved, trans, index)
    }

    fn go_to_start_to_write_to_p(&self, trans: &DoubleTransition, index: u64) -> (r: Vec<Transition>)
        requires
            all_fit(self.superentries()),
            double_fits(trans@),
        ensures
            transition_views(r@) == phase_seq(Phase::GoToStartToWrite, trans@, index as nat, self.superentries()),
    {
        self.phase_transitions(Phase::GoToStartToWrite, trans, index)
    }

    fn reach_p_for_write(&self, trans: &DoubleTransition, index: u64) -> (r: Vec<Transition>)
        requires
            all_fit(self.superentries()),
            double_fits(trans@),
        ensures
            transition_views(r@) == phase_seq(Phase::ReachPForWrite, trans@, index as nat, self.superentries()),
    {
        self.phase_transitions(Phase::ReachPForWrite, trans, index)
    }

    fn write_value_to_p(&self, trans: &DoubleTransition, index: u64) -> (r: Vec<Transition>)
        requires
            all_fit(self.superentries()),
            double_fits(trans@),
        ensures
            transition_views(r@) == phase_seq(Phase::WriteValueToP, trans@, index as nat, self.superentries()),
    {
        self.phase_transitions(Phase::WriteValueToP, trans, index)
    }

    fn handle_p_head_moved(&self, trans: &DoubleTransition, index: u64) -> (r: Vec<Transition>)
        requires
            all_fit(self.superentries()),
            double_fits(trans@),
        ensures
            transition_views(r@) == phase_seq(Phase::HandlePHeadMoved, trans@, index as nat, self.superentries()),
    {
        self.phase_transitions(Phase::HandlePHeadMoved, trans, index)
    }

    fn initial_start_setup_transitions(&self) -> (r: Vec<Transition>)
        requires
            self.wf(),
        ensures
            transition_views(r@) == setup_seq(self.alphabet()),
    {
        let ghost alph = self.alphabet();
        let mut out: Vec<Transition> = Vec::new();
        let mut i: usize = 0;
        while i < self.input.tape_entries.len()
            invariant
                i <= alph.len(),
                alph == self.alphabet(),
                self.wf(),
                transition_views(out@) == setup_seq(alph.take(i as int)),
            decreases alph.len() - i,
        {
            let e = self.input.tape_entries[i];
            assert(alph[i as int].0 <= SYMBOL_MASK);
            let se = SuperTapeEntry {
                first_letter: e,
                second_letter: TapeEntry(0),
                has_first_tape_head: true,
                has_second_tape_head: true,
                is_start: true,
            };
            let t = Transition {
                state_before: State::start(),
                state_after: wrap_original_state(&State::start()),
                tape_value_before: se.encoded(),
                tape_value_after: se.encoded(),
                tape_head_move_direction: HeadMoveDirection::Stay,
            };
            assert(se == start_cell(alph[i as int]));
            let ghost before = transition_views(out@);
            out.push(t);
            assert(transition_views(out@) =~= before.push(t@));
            assert(setup_seq(alph.take(i + 1)) =~= setup_seq(alph.take(i as int)).push(t@));
            i = i + 1;
        }
        assert(alph.take(i as int) =~= alph);
        out
    }

    fn transition_block(&self, trans: &DoubleTransition, index: u64) -> (r: Vec<Transition>)
        requires
            all_fit(self.superentries()),
            double_fits(trans@),
        ensures
            transition_views(r@) == block(trans@, index as nat, self.superentries()),
    {
        let mut out: Vec<Transition> = Vec::new();
        let mut part = self.initialize_two_tape_read(trans, index);
        out.append(&mut part);
        let mut part = self.go_to_start_to_read_from_q(trans, index);
        out.append(&mut part);
        let mut part = self.reach_q_for_read(trans, index);
        out.append(&mut part);
        let mut part = self.read_value_from_q(trans, index);
        out.append(&mut part);
        let mut part = self.handle_q_head_moved(trans, index);
        out.append(&mut part);
        let mut part = self.go_to_start_to_write_to_p(trans, index);
        out.append(&mut part);
        let mut part = self.reach_p_for_write(trans, index);
        out.append(&mut part);
        let mut part = self.write_value_to_p(trans, index);
        out.append(&mut part);
        let mut part = self.handle_p_head_moved(trans, index);
        out.append(&mut part);
        assert(transition_views(out@) =~= block(trans@, index as nat, self.superentries()));
        out
    }

    /// The text of the compiled one-tape machine: one line per transition,
    /// first those that enter the wrapped `start`, then the expansion of each
    /// two-tape transition in order.
    pub fn translate(&self) -> (r: String)
        requires
            self.wf(),
        ensures
            r@ == program_text(translation(self.transitions_view(), self.alphabet(), self.superentries())),
    {
        proof {
            self.lemma_fits();
        }
        let ghost ts = self.transitions_view();
        let ghost ses = self.superentries();
        let mut all = self.initial_start_setup_transitions();
        let mut i: usize = 0;
        assert(ts.take(0) =~= Seq::<DoubleTransitionView>::empty());
        assert(setup_seq(self.alphabet()) + blocks(ts.take(0), ses) =~= setup_seq(self.alphabet()));
        while i < self.input.transitions.len()
            invariant
                i <= ts.len(),
                ts == self.transitions_view(),
                ses == self.superentries(),
                all_fit(ses),
                forall|k: int| 0 <= k < ts.len() ==> double_fits(#[trigger] ts[k]),
                transition_views(all@) == setup_seq(self.alphabet()) + blocks(ts.take(i as int), ses),
            decreases ts.len() - i,
        {
            let trans = &self.input.transitions[i];
            assert(ts[i as int] == trans@);
            let mut part = self.transition_block(trans, i as u64);
            let ghost before = all@;
            all.append(&mut part);
            assert(ts.take(i + 1).drop_last() =~= ts.take(i as int));
            assert(ts.take(i + 1).last() == trans@);
            assert(transition_views(all@) =~= transition_views(before) + block(trans@, i as nat, ses));
            i = i + 1;
        }
        assert(ts.take(i as int) =~= ts);
        let ghost tvs = transition_views(all@);
        let mut lines: Vec<String> = Vec::new();
        let mut k: usize = 0;
        while k < all.len()
            invariant
                k <= all@.len(),
                tvs == transition_views(all@),
                string_views(lines@) == tvs.take(k as int).map_values(|t: TransitionView| line_of(t)),
            decreases all@.len() - k,
        {
            let line = all[k].to_string();
            let ghost before = string_views(lines@);
            lines.push(line);
            assert(string_views(lines@) =~= before.push(line@));
            assert(tvs.take(k + 1).map_values(|t: TransitionView| line_of(t)) =~= tvs.take(
                k as int,
            ).map_values(|t: TransitionView| line_of(t)).push(line_of(tvs[k as int])));
            k = k + 1;
        }
        assert(tvs.take(k as int) =~= tvs);
        join_strings(&lines, "\n")
    }
}

} // verus!
