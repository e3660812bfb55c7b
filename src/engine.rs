//! Nondeterministic execution: configurations, and runs that advance the
//! whole frontier of configurations one step at a time.
use crate::loader::{parse_machine, transitions_from_description};
use crate::tape::{cells_of, is_digit, move_spec, read_spec, word_entries, write_spec, Tape, TapeView};
use crate::types::FormatError;
use crate::transition::{Transition, TransitionView};
use crate::types::{accept_name, start_name, State};
use vstd::prelude::*;

verus! {

/// A tape and a state.
pub type ConfigView = (TapeView, Seq<char>);

/// The transition fires in the configuration: same state, and the symbol under
/// the head is the one it reads.
pub open spec fn applicable_spec(t: TransitionView, c: ConfigView) -> bool {
    t.0 == c.1 && read_spec(c.0) == t.1
}

/// The configuration after the transition fires: new state, symbol written
/// under the head, then the head moved.
pub open spec fn apply_spec(t: TransitionView, c: ConfigView) -> ConfigView {
    (move_spec(write_spec(c.0, t.3), t.4), t.2)
}

#[derive(Debug)]
pub struct Config {
    pub tape: Tape,
    pub state: State,
}

impl View for Config {
    type V = ConfigView;

    open spec fn view(&self) -> ConfigView {
        (self.tape@, self.state@)
    }
}

impl Config {
    pub open spec fn wf(&self) -> bool {
        self.tape.wf()
    }

    /// A copy of this configuration.
    pub fn duplicate(&self) -> (r: Config)
        ensures
            r@ == self@,
    {
        Config { tape: self.tape.duplicate(), state: State(self.state.to_string()) }
    }

    /// Whether two configurations have equal tapes and states.
    pub fn same_as(&self, other: &Config) -> (r: bool)
        ensures
            r == (self@ == other@),
    {
        self.state.same_as(&other.state) && self.tape.same_as(&other.tape)
    }

    /// The configuration that firing `trans` here leads to; this one is left
    /// as it is.
    pub fn get_config_from_after_transition(&self, trans: &Transition) -> (r: Config)
        requires
            self.wf(),
            applicable_spec(trans@, self@),
        ensures
            r@ == apply_spec(trans@, self@),
            r.wf(),
    {
        self.duplicate().apply(trans)
    }

    fn apply(self, trans: &Transition) -> (r: Config)
        requires
            self.wf(),
        ensures
            r@ == apply_spec(trans@, self@),
            r.wf(),
    {
        let mut cfg = self;
        cfg.state = State(trans.state_after.to_string());
        cfg.tape.write_to_head(&trans.tape_value_after);
        cfg.tape.move_head(&trans.tape_head_move_direction);
        cfg
    }
}

/// The configurations that a vector holds.
pub open spec fn config_set(v: Seq<Config>) -> Set<ConfigView> {
    Set::new(|c: ConfigView| exists|i: int| 0 <= i < v.len() && v[i]@ == c)
}

/// Every configuration of the vector has a well-formed tape.
pub open spec fn all_wf(v: Seq<Config>) -> bool {
    forall|i: int| 0 <= i < v.len() ==> (#[trigger] v[i]).wf()
}

/// The views of a sequence of transitions.
pub open spec fn transition_views(ts: Seq<Transition>) -> Seq<TransitionView> {
    ts.map_values(|t: Transition| t@)
}

/// The configurations reached in one step from `s`: every transition fired in
/// every configuration where it applies.
pub open spec fn step_set(s: Set<ConfigView>, ts: Seq<TransitionView>) -> Set<ConfigView> {
    Set::new(
        |c2: ConfigView|
            exists|i: int, c: ConfigView|
                0 <= i < ts.len() && s.contains(c) && applicable_spec(ts[i], c) && c2
                    == #[trigger] apply_spec(ts[i], c),
    )
}

/// The frontier after `k` steps from `s0`.
pub open spec fn frontier_at(s0: Set<ConfigView>, ts: Seq<TransitionView>, k: nat) -> Set<
    ConfigView,
>
    decreases k,
{
    if k == 0 {
        s0
    } else {
        step_set(frontier_at(s0, ts, (k - 1) as nat), ts)
    }
}

/// Some configuration of the set is in the state `accept`.
pub open spec fn has_accepting(s: Set<ConfigView>) -> bool {
    exists|c: ConfigView| s.contains(c) && c.1 == accept_name()
}

/// An empty frontier stays empty.
pub proof fn lemma_empty_frontier_stays(s0: Set<ConfigView>, ts: Seq<TransitionView>, k: nat, m: nat)
    requires
        frontier_at(s0, ts, k) =~= Set::empty(),
        k <= m,
    ensures
        frontier_at(s0, ts, m) =~= Set::empty(),
    decreases m - k,
{
    if k < m {
        lemma_empty_frontier_stays(s0, ts, k, (m - 1) as nat);
        assert(step_set(frontier_at(s0, ts, (m - 1) as nat), ts) =~= Set::empty());
    }
}

/// The frontiers depend on the set of transitions only, not on their order
/// or repetitions.
pub proof fn lemma_frontier_order_free(
    s0: Set<ConfigView>,
    ts1: Seq<TransitionView>,
    ts2: Seq<TransitionView>,
    k: nat,
)
    requires
        ts1.to_set() == ts2.to_set(),
    ensures
        frontier_at(s0, ts1, k) == frontier_at(s0, ts2, k),
    decreases k,
{
    if k > 0 {
        lemma_frontier_order_free(s0, ts1, ts2, (k - 1) as nat);
        let s = frontier_at(s0, ts1, (k - 1) as nat);
        assert forall|ta: Seq<TransitionView>, tb: Seq<TransitionView>|
            ta.to_set() == tb.to_set() implies #[trigger] step_set(s, ta).subset_of(
            #[trigger] step_set(s, tb),
        ) by {
            assert forall|x: ConfigView| step_set(s, ta).contains(x) implies step_set(
                s,
                tb,
            ).contains(x) by {
                let (i, c) = choose|i: int, c: ConfigView|
                    0 <= i < ta.len() && s.contains(c) && applicable_spec(ta[i], c) && x
                        == #[trigger] apply_spec(ta[i], c);
                assert(ta.to_set().contains(ta[i]));
                assert(tb.to_set().contains(ta[i]));
                let j = choose|j: int| 0 <= j < tb.len() && tb[j] == ta[i];
                assert(x == apply_spec(tb[j], c));
            }
        }
        assert(step_set(s, ts1).subset_of(step_set(s, ts2)));
        assert(step_set(s, ts2).subset_of(step_set(s, ts1)));
        assert(step_set(s, ts1) =~= step_set(s, ts2));
    }
}

/// The verdict of a run depends on the set of transitions only, not on their
/// order or repetitions.
pub proof fn lemma_verdict_order_free(
    v0: Set<ConfigView>,
    s0: Set<ConfigView>,
    ts1: Seq<TransitionView>,
    ts2: Seq<TransitionView>,
    budget: int,
)
    requires
        ts1.to_set() == ts2.to_set(),
    ensures
        accepts_within(v0, s0, ts1, budget) == accepts_within(v0, s0, ts2, budget),
{
    assert forall|k: nat| #[trigger] frontier_at(s0, ts1, k) == frontier_at(s0, ts2, k) by {
        lemma_frontier_order_free(s0, ts1, ts2, k);
    }
    if accepts_within(v0, s0, ts1, budget) && !has_accepting(v0) {
        let k = choose|k: nat| 0 < k <= budget && #[trigger] has_accepting(frontier_at(s0, ts1, k));
        assert(has_accepting(frontier_at(s0, ts2, k)));
    }
    if accepts_within(v0, s0, ts2, budget) && !has_accepting(v0) {
        let k = choose|k: nat| 0 < k <= budget && #[trigger] has_accepting(frontier_at(s0, ts2, k));
        assert(has_accepting(frontier_at(s0, ts1, k)));
    }
}

/// A machine without transitions has an empty frontier after one step, and
/// accepts within any budget only if it has already met `accept`.
pub proof fn lemma_no_transitions_dead(v0: Set<ConfigView>, s0: Set<ConfigView>, budget: int)
    ensures
        step_set(s0, Seq::<TransitionView>::empty()) == Set::<ConfigView>::empty(),
        accepts_within(v0, s0, Seq::<TransitionView>::empty(), budget) == has_accepting(v0),
{
    let ts = Seq::<TransitionView>::empty();
    assert(step_set(s0, ts) =~= Set::<ConfigView>::empty());
    assert(frontier_at(s0, ts, 1) =~= Set::<ConfigView>::empty());
    lemma_no_accept_after_dead(s0, ts, 1);
}

/// Adds a configuration to a vector unless an equal one is there already.
fn insert_config(v: &mut Vec<Config>, c: Config)
    requires
        all_wf(old(v)@),
        c.wf(),
    ensures
        all_wf(final(v)@),
        config_set(final(v)@) == config_set(old(v)@).insert(c@),
{
    let mut i: usize = 0;
    while i < v.len()
        invariant
            i <= v@.len(),
            v@ == old(v)@,
            all_wf(v@),
            c.wf(),
            forall|k: int| 0 <= k < i ==> v@[k]@ != c@,
        decreases v@.len() - i,
    {
        if v[i].same_as(&c) {
            assert(config_set(v@) =~= config_set(v@).insert(c@));
            return;
        }
        i = i + 1;
    }
    let ghost before = v@;
    v.push(c);
    assert(config_set(v@) =~= config_set(before).insert(c@)) by {
        assert forall|x: ConfigView| config_set(before).insert(c@).contains(x) implies config_set(
            v@,
        ).contains(x) by {
            if x != c@ {
                let k = choose|k: int| 0 <= k < before.len() && (#[trigger] before[k])@ == x;
                assert(v@[k] == before[k]);
            } else {
                assert(v@[before.len() as int] == c);
            }
        }
        assert forall|x: ConfigView| config_set(v@).contains(x) implies config_set(before).insert(
            c@,
        ).contains(x) by {
            let k = choose|k: int| 0 <= k < v@.len() && (#[trigger] v@[k])@ == x;
            if k < before.len() {
                assert(v@[k] == before[k]);
            }
        }
    }
}

/// The state of a simulation: every configuration seen so far, the
/// configurations of the current step, and the number of steps taken.
#[derive(Debug)]
pub struct Run {
    visited_configs: Vec<Config>,
    current_step_no: u64,
    current_configs: Vec<Config>,
}

/// The configurations reached by firing transitions `0..i` in every frontier
/// configuration, and transition `i` in frontier configurations `0..j`.
spec fn partial_step(cur: Seq<Config>, ts: Seq<TransitionView>, i: int, j: int) -> Set<ConfigView> {
    Set::new(
        |c2: ConfigView|
            exists|a: int, b: int|
                ((0 <= a < i && 0 <= b < cur.len()) || (a == i && 0 <= b < j)) && applicable_spec(
                    ts[a],
                    cur[b]@,
                ) && c2 == apply_spec(#[trigger] ts[a], #[trigger] cur[b]@),
    )
}

impl Run {
    /// Every configuration seen so far.
    pub closed spec fn visited(&self) -> Set<ConfigView> {
        config_set(self.visited_configs@)
    }

    /// The configurations of the current step.
    pub closed spec fn frontier(&self) -> Set<ConfigView> {
        config_set(self.current_configs@)
    }

    /// The number of steps taken.
    pub closed spec fn step(&self) -> nat {
        self.current_step_no as nat
    }

    pub closed spec fn wf(&self) -> bool {
        all_wf(self.visited_configs@) && all_wf(self.current_configs@)
    }

    /// The run that starts in `start`, before any step.
    pub fn new(start: Config) -> (r: Run)
        requires
            start.wf(),
        ensures
            r.wf(),
            r.visited() == set![start@],
            r.frontier() == set![start@],
            r.step() == 0,
    {
        let copy = start.duplicate();
        let r = Run {
            visited_configs: vec![copy],
            current_step_no: 0,
            current_configs: vec![start],
        };
        assert(r.visited_configs@[0]@ == start@);
        assert(r.current_configs@[0] == start);
        assert(config_set(r.visited_configs@) =~= set![start@]);
        assert(config_set(r.current_configs@) =~= set![start@]);
        r
    }

    /// The number of steps taken.
    pub fn step_no(&self) -> (r: u64)
        ensures
            r == self.step(),
    {
        self.current_step_no
    }

    /// Whether the current step has no configuration.
    pub fn is_dead(&self) -> (r: bool)
        ensures
            r == (self.frontier() =~= Set::<ConfigView>::empty()),
    {
        if self.current_configs.len() == 0 {
            true
        } else {
            assert(self.frontier().contains(self.current_configs@[0]@));
            false
        }
    }

    /// The run one step later: the new frontier is every configuration that a
    /// transition leads to from the current frontier, and it joins the visited
    /// configurations.
    pub fn apply_transitions(self, transitions: &Vec<Transition>) -> (r: Run)
        requires
            self.wf(),
            self.step() < u64::MAX,
        ensures
            r.wf(),
            r.frontier() == step_set(self.frontier(), transition_views(transitions@)),
            r.visited() == self.visited() + r.frontier(),
            r.step() == self.step() + 1,
    {
        let ghost ts = transition_views(transitions@);
        let Run { visited_configs: mut visited, current_step_no, current_configs: cur } = self;
        let mut new_configs: Vec<Config> = Vec::new();
        let mut i: usize = 0;
        assert(config_set(new_configs@) =~= partial_step(cur@, ts, 0, 0));
        while i < transitions.len()
            invariant
                i <= transitions@.len(),
                ts == transition_views(transitions@),
                all_wf(cur@),
                all_wf(new_configs@),
                config_set(new_configs@) == partial_step(cur@, ts, i as int, 0),
            decreases transitions@.len() - i,
        {
            let trans = &transitions[i];
            let mut j: usize = 0;
            while j < cur.len()
                invariant
                    i < transitions@.len(),
                    j <= cur@.len(),
                    *trans == transitions@[i as int],
                    ts == transition_views(transitions@),
                    all_wf(cur@),
                    all_wf(new_configs@),
                    config_set(new_configs@) == partial_step(cur@, ts, i as int, j as int),
                decreases cur@.len() - j,
            {
                let cfg = &cur[j];
                let ghost before = config_set(new_configs@);
                assert(ts[i as int] == trans@);
                if trans.applicable_to(cfg) {
                    let next = cfg.get_config_from_after_transition(trans);
                    insert_config(&mut new_configs, next);
                    assert(config_set(new_configs@) =~= partial_step(
                        cur@,
                        ts,
                        i as int,
                        j + 1,
                    )) by {
                        assert forall|x: ConfigView| #[trigger]
                            partial_step(cur@, ts, i as int, j + 1).contains(x) implies before.insert(
                            next@,
                        ).contains(x) by {
                            let (a, b) = choose|a: int, b: int|
                                ((0 <= a < i && 0 <= b < cur@.len()) || (a == i && 0 <= b < j + 1))
                                    && applicable_spec(ts[a], cur@[b]@) && x == apply_spec(
                                    #[trigger] ts[a],
                                    #[trigger] cur@[b]@,
                                );
                            if b < j || a < i {
                                assert(partial_step(cur@, ts, i as int, j as int).contains(x));
                            }
                        }
                        assert forall|x: ConfigView| #[trigger]
                            before.insert(next@).contains(x) implies partial_step(
                            cur@,
                            ts,
                            i as int,
                            j + 1,
                        ).contains(x) by {
                            if x == next@ {
                                assert(x == apply_spec(ts[i as int], cur@[j as int]@));
                            } else {
                                let (a, b) = choose|a: int, b: int|
                                    ((0 <= a < i && 0 <= b < cur@.len()) || (a == i && 0 <= b < j))
                                        && applicable_spec(ts[a], cur@[b]@) && x == apply_spec(
                                        #[trigger] ts[a],
                                        #[trigger] cur@[b]@,
                                    );
                                assert(x == apply_spec(ts[a], cur@[b]@));
                            }
                        }
                    }
                } else {
                    assert(config_set(new_configs@) =~= partial_step(
                        cur@,
                        ts,
                        i as int,
                        j + 1,
                    )) by {
                        assert forall|x: ConfigView| #[trigger]
                            partial_step(cur@, ts, i as int, j + 1).contains(x) implies before.contains(
                            x,
                        ) by {
                            let (a, b) = choose|a: int, b: int|
                                ((0 <= a < i && 0 <= b < cur@.len()) || (a == i && 0 <= b < j + 1))
                                    && applicable_spec(ts[a], cur@[b]@) && x == apply_spec(
                                    #[trigger] ts[a],
                                    #[trigger] cur@[b]@,
                                );
                            assert(x == apply_spec(ts[a], cur@[b]@));
                        }
                        assert forall|x: ConfigView| #[trigger] before.contains(x) implies partial_step(
                            cur@,
                            ts,
                            i as int,
                            j + 1,
                        ).contains(x) by {
                            let (a, b) = choose|a: int, b: int|
                                ((0 <= a < i && 0 <= b < cur@.len()) || (a == i && 0 <= b < j))
                                    && applicable_spec(ts[a], cur@[b]@) && x == apply_spec(
                                    #[trigger] ts[a],
                                    #[trigger] cur@[b]@,
                                );
                            assert(x == apply_spec(ts[a], cur@[b]@));
                        }
                    }
                }
                j = j + 1;
            }
            assert(partial_step(cur@, ts, i as int, cur@.len() as int) =~= partial_step(
                cur@,
                ts,
                i + 1,
                0,
            ));
            i = i + 1;
        }
        let ghost frontier = config_set(cur@);
        assert(partial_step(cur@, ts, i as int, 0) =~= step_set(frontier, ts)) by {
            assert forall|x: ConfigView| #[trigger]
                partial_step(cur@, ts, i as int, 0).contains(x) implies step_set(
                frontier,
                ts,
            ).contains(x) by {
                let (a, b) = choose|a: int, b: int|
                    ((0 <= a < i && 0 <= b < cur@.len()) || (a == i && 0 <= b < 0))
                        && applicable_spec(ts[a], cur@[b]@) && x == apply_spec(
                        #[trigger] ts[a],
                        #[trigger] cur@[b]@,
                    );
                assert(frontier.contains(cur@[b]@));
            }
            assert forall|x: ConfigView| #[trigger]
                step_set(frontier, ts).contains(x) implies partial_step(
                cur@,
                ts,
                i as int,
                0,
            ).contains(x) by {
                let (a, c) = choose|a: int, c: ConfigView|
                    0 <= a < ts.len() && frontier.contains(c) && applicable_spec(ts[a], c) && x
                        == apply_spec(ts[a], c);
                let b = choose|b: int| 0 <= b < cur@.len() && (#[trigger] cur@[b])@ == c;
                assert(x == apply_spec(ts[a], cur@[b]@));
            }
        }
        let ghost old_visited = config_set(visited@);
        let mut k: usize = 0;
        assert(new_configs@.take(0) =~= Seq::<Config>::empty());
        assert(config_set(new_configs@.take(0)) =~= Set::<ConfigView>::empty());
        assert(old_visited + Set::<ConfigView>::empty() =~= old_visited);
        while k < new_configs.len()
            invariant
                k <= new_configs@.len(),
                all_wf(new_configs@),
                all_wf(visited@),
                config_set(visited@) == old_visited + config_set(new_configs@.take(k as int)),
            decreases new_configs@.len() - k,
        {
            let c = new_configs[k].duplicate();
            insert_config(&mut visited, c);
            assert(config_set(new_configs@.take(k + 1)) =~= config_set(
                new_configs@.take(k as int),
            ).insert(new_configs@[k as int]@)) by {
                assert forall|x: ConfigView| #[trigger]
                    config_set(new_configs@.take(k + 1)).contains(x) implies config_set(
                    new_configs@.take(k as int),
                ).insert(new_configs@[k as int]@).contains(x) by {
                    let b = choose|b: int|
                        0 <= b < new_configs@.take(k + 1).len() && (#[trigger] new_configs@.take(
                            k + 1,
                        )[b])@ == x;
                    if b < k {
                        assert(new_configs@.take(k as int)[b] == new_configs@[b]);
                    }
                }
                assert forall|x: ConfigView| #[trigger]
                    config_set(new_configs@.take(k as int)).insert(
                        new_configs@[k as int]@,
                    ).contains(x) implies config_set(new_configs@.take(k + 1)).contains(x) by {
                    if x == new_configs@[k as int]@ {
                        assert(new_configs@.take(k + 1)[k as int] == new_configs@[k as int]);
                    } else {
                        let b = choose|b: int|
                            0 <= b < new_configs@.take(k as int).len() && (#[trigger] new_configs@.take(
                                k as int,
                            )[b])@ == x;
                        assert(new_configs@.take(k + 1)[b] == new_configs@[b]);
                    }
                }
            }
            assert(config_set(visited@) =~= old_visited + config_set(new_configs@.take(k + 1)));
            k = k + 1;
        }
        assert(new_configs@.take(k as int) =~= new_configs@);
        Run { visited_configs: visited, current_step_no: current_step_no + 1, current_configs: new_configs }
    }

    /// Whether some configuration seen so far is in the state `accept`.
    pub fn is_accepting_run_reached(&self) -> (r: bool)
        ensures
            r == has_accepting(self.visited()),
    {
        let accept = State::accept();
        let mut i: usize = 0;
        while i < self.visited_configs.len()
            invariant
                i <= self.visited_configs@.len(),
                accept@ == accept_name(),
                forall|k: int| 0 <= k < i ==> self.visited_configs@[k]@.1 != accept_name(),
            decreases self.visited_configs@.len() - i,
        {
            if self.visited_configs[i].state.same_as(&accept) {
                assert(self.visited().contains(self.visited_configs@[i as int]@));
                return true;
            }
            i = i + 1;
        }
        assert(!has_accepting(self.visited())) by {
            if has_accepting(self.visited()) {
                let c = choose|c: ConfigView| self.visited().contains(c) && c.1 == accept_name();
                let b = choose|b: int|
                    0 <= b < self.visited_configs@.len() && (#[trigger] self.visited_configs@[b])@
                        == c;
            }
        }
        false
    }
}

/// The configuration that a run on a tape begins with.
pub open spec fn initial_config(tape: TapeView) -> ConfigView {
    (tape, start_name())
}

/// A run from frontier `s0` with visited set `v0`, at most `budget` more
/// steps, has met or meets a configuration in the state `accept`.
pub open spec fn accepts_within(
    v0: Set<ConfigView>,
    s0: Set<ConfigView>,
    ts: Seq<TransitionView>,
    budget: int,
) -> bool {
    has_accepting(v0) || exists|k: nat|
        0 < k <= budget && #[trigger] has_accepting(frontier_at(s0, ts, k))
}

/// A machine ready to run: its transitions, its run, and its step budget.
#[derive(Debug)]
pub struct ClassicMachine {
    run: Run,
    transitions: Vec<Transition>,
    execution_limit: u64,
}

impl ClassicMachine {
    /// The machine's transitions.
    pub closed spec fn transitions_view(&self) -> Seq<TransitionView> {
        transition_views(self.transitions@)
    }

    /// Every configuration seen so far.
    pub closed spec fn visited(&self) -> Set<ConfigView> {
        self.run.visited()
    }

    /// The configurations of the current step.
    pub closed spec fn frontier(&self) -> Set<ConfigView> {
        self.run.frontier()
    }

    /// The number of steps taken.
    pub closed spec fn step(&self) -> nat {
        self.run.step()
    }

    /// The step budget.
    pub closed spec fn limit(&self) -> nat {
        self.execution_limit as nat
    }

    pub closed spec fn wf(&self) -> bool {
        self.run.wf()
    }

    /// The machine of a description, starting in `start` on the tape that
    /// holds the digits of `input_word`. Fails when the word holds a character
    /// that is not a digit, or else when a line of the description is not a
    /// transition.
    pub fn new(machine_description: String, execution_limit: u64, input_word: String) -> (r: Result<
        ClassicMachine,
        FormatError,
    >)
        ensures
            r is Ok <==> ((forall|i: int|
                0 <= i < input_word@.len() ==> is_digit(#[trigger] input_word@[i]))
                && parse_machine(machine_description@) is Ok),
            r matches Ok(m) ==> {
                let c = initial_config((cells_of(word_entries(input_word@)), 0nat));
                &&& m.wf()
                &&& m.transitions_view() == parse_machine(machine_description@)->Ok_0
                &&& m.visited() == set![c]
                &&& m.frontier() == set![c]
                &&& m.step() == 0
                &&& m.limit() == execution_limit
            },
            r matches Err(e) ==> if (forall|i: int|
                0 <= i < input_word@.len() ==> is_digit(#[trigger] input_word@[i])) {
                parse_machine(machine_description@) == Err::<Seq<TransitionView>, FormatError>(e)
            } else {
                e == FormatError::NotADigit
            },
    {
        let tape = match Tape::new(input_word) {
            Ok(t) => t,
            Err(e) => return Err(e),
        };
        match transitions_from_description(machine_description) {
            Ok(transitions) => Ok(ClassicMachine::from_parts(transitions, execution_limit, tape)),
            Err(e) => Err(e),
        }
    }

    /// The machine with these transitions, starting in `start` on `tape`.
    pub fn from_parts(transitions: Vec<Transition>, execution_limit: u64, tape: Tape) -> (r:
        ClassicMachine)
        requires
            tape.wf(),
        ensures
            r.wf(),
            r.transitions_view() == transition_views(transitions@),
            r.visited() == set![initial_config(tape@)],
            r.frontier() == set![initial_config(tape@)],
            r.step() == 0,
            r.limit() == execution_limit,
    {
        let start = Config { tape, state: State::start() };
        ClassicMachine { run: Run::new(start), transitions, execution_limit }
    }

    fn time_limit_reached(&self) -> (r: bool)
        ensures
            r == (self.step() >= self.limit()),
    {
        self.run.step_no() >= self.execution_limit
    }

    /// Runs until a configuration in `accept` is met, the frontier dies out,
    /// or the step budget is spent, and tells whether `accept` was met.
    pub fn run_with_limit(self) -> (r: bool)
        requires
            self.wf(),
        ensures
            r == accepts_within(
                self.visited(),
                self.frontier(),
                self.transitions_view(),
                self.limit() - self.step(),
            ),
    {
        let ghost v0 = self.visited();
        let ghost s0 = self.frontier();
        let ghost st0 = self.step();
        let ghost ts = self.transitions_view();
        let mut machine = self;
        assert(frontier_at(s0, ts, 0) == s0);
        while !machine.time_limit_reached() && !machine.run.is_accepting_run_reached()
            && !machine.run.is_dead()
            invariant
                machine.wf(),
                machine.transitions_view() == ts,
                machine.limit() == self.limit(),
                machine.step() >= st0,
                machine.step() <= machine.limit() || machine.step() == st0,
                machine.frontier() == frontier_at(s0, ts, (machine.step() - st0) as nat),
                has_accepting(machine.visited()) == accepts_within(
                    v0,
                    s0,
                    ts,
                    machine.step() - st0,
                ),
            decreases machine.limit() - machine.step(),
        {
            let ghost before = machine.run.visited();
            let ghost k = (machine.step() - st0) as nat;
            machine.run = machine.run.apply_transitions(&machine.transitions);
            assert(machine.frontier() == frontier_at(s0, ts, k + 1));
            assert(has_accepting(machine.visited()) == accepts_within(v0, s0, ts, k + 1int)) by {
                if has_accepting(machine.visited()) {
                    let c = choose|c: ConfigView|
                        machine.visited().contains(c) && c.1 == accept_name();
                    if !before.contains(c) {
                        assert(has_accepting(frontier_at(s0, ts, k + 1)));
                    }
                }
                if accepts_within(v0, s0, ts, k + 1int) && !accepts_within(v0, s0, ts, k as int) {
                    let j = choose|j: nat|
                        0 < j <= k + 1 && #[trigger] has_accepting(frontier_at(s0, ts, j));
                    assert(j == k + 1);
                    let c = choose|c: ConfigView|
                        frontier_at(s0, ts, j).contains(c) && c.1 == accept_name();
                    assert(machine.visited().contains(c));
                }
            }
        }
        let r = machine.run.is_accepting_run_reached();
        proof {
            let k = (machine.step() - st0) as nat;
            if !r && machine.step() < machine.limit() {
                lemma_no_accept_after_dead(s0, ts, k);
            }
        }
        r
    }
}

/// Once the frontier is empty no later frontier holds `accept`.
proof fn lemma_no_accept_after_dead(s0: Set<ConfigView>, ts: Seq<TransitionView>, k: nat)
    requires
        frontier_at(s0, ts, k) =~= Set::empty(),
    ensures
        forall|j: nat| j >= k ==> !#[trigger] has_accepting(frontier_at(s0, ts, j)),
{
    assert forall|j: nat| j >= k implies !#[trigger] has_accepting(frontier_at(s0, ts, j)) by {
        lemma_empty_frontier_stays(s0, ts, k, j);
    }
}

} // verus!
