//! Reading whole machine descriptions: one transition per non-empty line.
use crate::double_transition::{parse_double_transition, DoubleTransition, DoubleTransitionView};
use crate::types::FormatError;
use crate::text::{chars_of, string_of};
use crate::transition::{parse_transition, Transition, TransitionView};
use vstd::prelude::*;
use vstd::string::*;

verus! {

/// The length of the text before the first line break of `s`.
pub open spec fn line_len(s: Seq<char>) -> nat
    decreases s.len(),
{
    if s.len() == 0 || s[0] == '\n' {
        0
    } else {
        1 + line_len(s.drop_first())
    }
}

proof fn lemma_line_len(s: Seq<char>, m: int)
    requires
        0 <= m <= s.len(),
        forall|k: int| 0 <= k < m ==> #[trigger] s[k] != '\n',
        m == s.len() || s[m] == '\n',
    ensures
        line_len(s) == m,
    decreases m,
{
    if m > 0 {
        assert forall|k: int| 0 <= k < m - 1 implies #[trigger] s.drop_first()[k] != '\n' by {
            assert(s.drop_first()[k] == s[k + 1]);
        }
        lemma_line_len(s.drop_first(), m - 1);
    }
}

proof fn lemma_line_len_bound(s: Seq<char>)
    ensures
        line_len(s) <= s.len(),
        s.len() > 0 && s[0] != '\n' ==> line_len(s) > 0,
    decreases s.len(),
{
    if s.len() > 0 && s[0] != '\n' {
        lemma_line_len_bound(s.drop_first());
    }
}

/// The non-empty lines of `s`, in order.
pub open spec fn lines(s: Seq<char>) -> Seq<Seq<char>>
    decreases s.len() via lines_decreases
{
    if s.len() == 0 {
        seq![]
    } else if s[0] == '\n' {
        lines(s.drop_first())
    } else {
        let w = line_len(s);
        seq![s.take(w as int)] + lines(s.skip(w as int))
    }
}

#[via_fn]
proof fn lines_decreases(s: Seq<char>) {
    lemma_line_len_bound(s);
}

/// The transitions of the lines, or the error of the first line that is not one.
pub open spec fn parse_lines(ls: Seq<Seq<char>>) -> Result<Seq<TransitionView>, FormatError>
    decreases ls.len(),
{
    if ls.len() == 0 {
        Ok(seq![])
    } else {
        match parse_lines(ls.drop_last()) {
            Err(e) => Err(e),
            Ok(v) => match parse_transition(ls.last()) {
                Ok(t) => Ok(v.push(t)),
                Err(e) => Err(e),
            },
        }
    }
}

/// The two-tape transitions of the lines, or the error of the first line that
/// is not one.
pub open spec fn parse_double_lines(ls: Seq<Seq<char>>) -> Result<
    Seq<DoubleTransitionView>,
    FormatError,
>
    decreases ls.len(),
{
    if ls.len() == 0 {
        Ok(seq![])
    } else {
        match parse_double_lines(ls.drop_last()) {
            Err(e) => Err(e),
            Ok(v) => match parse_double_transition(ls.last()) {
                Ok(t) => Ok(v.push(t)),
                Err(e) => Err(e),
            },
        }
    }
}

/// The one-tape machine that a description holds.
pub open spec fn parse_machine(s: Seq<char>) -> Result<Seq<TransitionView>, FormatError> {
    parse_lines(lines(s))
}

/// The two-tape machine that a description holds.
pub open spec fn parse_double_machine(s: Seq<char>) -> Result<
    Seq<DoubleTransitionView>,
    FormatError,
> {
    parse_double_lines(lines(s))
}

fn sanitize_machine_description(description: String) -> (r: Vec<String>)
    ensures
        r@.len() == lines(description@).len(),
        forall|i: int| 0 <= i < r@.len() ==> #[trigger] r@[i]@ == lines(description@)[i],
{
    let s = description.as_str();
    let cs = chars_of(s);
    let n = cs.len();
    let mut out: Vec<String> = Vec::new();
    let mut i: usize = 0;
    let ghost done: Seq<Seq<char>> = seq![];
    assert(s@.skip(0) =~= s@);
    assert(done + lines(s@) =~= lines(s@));
    while i < n
        invariant
            n == s@.len(),
            cs@ == s@,
            i <= n,
            out@.len() == done.len(),
            forall|k: int| 0 <= k < out@.len() ==> #[trigger] out@[k]@ == done[k],
            lines(s@) == done + lines(s@.skip(i as int)),
        decreases n - i,
    {
        let c = cs[i];
        let ghost rest = s@.skip(i as int);
        if c == '\n' {
            assert(rest.drop_first() =~= s@.skip(i + 1));
            i = i + 1;
        } else {
            let mut j: usize = i + 1;
            while j < n && cs[j] != '\n'
                invariant
                    n == s@.len(),
                    cs@ == s@,
                    i < j <= n,
                    forall|k: int| i <= k < j ==> #[trigger] s@[k] != '\n',
                decreases n - j,
            {
                j = j + 1;
            }
            proof {
                assert forall|k: int| 0 <= k < j - i implies #[trigger] rest[k] != '\n' by {
                    assert(rest[k] == s@[i + k]);
                }
                lemma_line_len(rest, j - i);
                assert(rest.take(j - i) =~= s@.subrange(i as int, j as int));
                assert(rest.skip(j - i) =~= s@.skip(j as int));
                done = done.push(s@.subrange(i as int, j as int));
            }
            let w = string_of(&cs, i, j);
            out.push(w);
            i = j;
        }
    }
    assert(s@.skip(n as int) =~= Seq::<char>::empty());
    assert(done + seq![] =~= done);
    out
}

/// The transitions of a one-tape machine description, or the error of its
/// first line that is not a transition.
pub fn transitions_from_description(machine_description: String) -> (r: Result<
    Vec<Transition>,
    FormatError,
>)
    ensures
        r matches Ok(v) ==> parse_machine(machine_description@) == Ok::<
            Seq<TransitionView>,
            FormatError,
        >(v@.map_values(|t: Transition| t@)),
        r matches Err(e) ==> parse_machine(machine_description@) == Err::<
            Seq<TransitionView>,
            FormatError,
        >(e),
{
    let ghost ls = lines(machine_description@);
    let descriptions = sanitize_machine_description(machine_description);
    let mut out: Vec<Transition> = Vec::new();
    let mut i: usize = 0;
    assert(ls.take(0) =~= Seq::<Seq<char>>::empty());
    assert(out@.map_values(|t: Transition| t@) =~= seq![]);
    while i < descriptions.len()
        invariant
            i <= descriptions@.len() == ls.len(),
            ls == lines(machine_description@),
            forall|k: int| 0 <= k < ls.len() ==> #[trigger] descriptions@[k]@ == ls[k],
            parse_lines(ls.take(i as int)) == Ok::<Seq<TransitionView>, FormatError>(
                out@.map_values(|t: Transition| t@),
            ),
        decreases descriptions@.len() - i,
    {
        assert(ls.take(i + 1).drop_last() =~= ls.take(i as int));
        assert(ls.take(i + 1).last() == descriptions@[i as int]@);
        match Transition::from_description(descriptions[i].as_str()) {
            Ok(t) => {
                out.push(t);
                assert(out@.map_values(|t: Transition| t@) =~= parse_lines(ls.take(i as int))->Ok_0.push(
                    t@,
                ));
            },
            Err(e) => {
                proof {
                    assert(parse_lines(ls.take(i + 1)) == Err::<Seq<TransitionView>, FormatError>(e));
                    lemma_parse_lines_err(ls, i as int + 1);
                    assert(parse_lines(ls) == Err::<Seq<TransitionView>, FormatError>(e));
                }
                return Err(e);
            },
        }
        i = i + 1;
    }
    assert(ls.take(i as int) =~= ls);
    Ok(out)
}

proof fn lemma_parse_lines_err(ls: Seq<Seq<char>>, k: int)
    requires
        0 <= k <= ls.len(),
        parse_lines(ls.take(k)) is Err,
    ensures
        parse_lines(ls) == parse_lines(ls.take(k)),
    decreases ls.len() - k,
{
    if k < ls.len() {
        assert(ls.take(k + 1).drop_last() =~= ls.take(k));
        lemma_parse_lines_err(ls, k + 1);
    } else {
        assert(ls.take(k) =~= ls);
    }
}

proof fn lemma_parse_double_lines_err(ls: Seq<Seq<char>>, k: int)
    requires
        0 <= k <= ls.len(),
        parse_double_lines(ls.take(k)) is Err,
    ensures
        parse_double_lines(ls) == parse_double_lines(ls.take(k)),
    decreases ls.len() - k,
{
    if k < ls.len() {
        assert(ls.take(k + 1).drop_last() =~= ls.take(k));
        lemma_parse_double_lines_err(ls, k + 1);
    } else {
        assert(ls.take(k) =~= ls);
    }
}

/// The transitions of a two-tape machine description, or the error of its
/// first line that is not a two-tape transition.
pub fn two_tape_transitions_from_description(machine_description: String) -> (r: Result<
    Vec<DoubleTransition>,
    FormatError,
>)
    ensures
        r matches Ok(v) ==> parse_double_machine(machine_description@) == Ok::<
            Seq<DoubleTransitionView>,
            FormatError,
        >(v@.map_values(|t: DoubleTransition| t@)),
        r matches Err(e) ==> parse_double_machine(machine_description@) == Err::<
            Seq<DoubleTransitionView>,
            FormatError,
        >(e),
{
    let ghost ls = lines(machine_description@);
    let descriptions = sanitize_machine_description(machine_description);
    let mut out: Vec<DoubleTransition> = Vec::new();
    let mut i: usize = 0;
    assert(ls.take(0) =~= Seq::<Seq<char>>::empty());
    assert(out@.map_values(|t: DoubleTransition| t@) =~= seq![]);
    while i < descriptions.len()
        invariant
            i <= descriptions@.len() == ls.len(),
            ls == lines(machine_description@),
            forall|k: int| 0 <= k < ls.len() ==> #[trigger] descriptions@[k]@ == ls[k],
            parse_double_lines(ls.take(i as int)) == Ok::<Seq<DoubleTransitionView>, FormatError>(
                out@.map_values(|t: DoubleTransition| t@),
            ),
        decreases descriptions@.len() - i,
    {
        assert(ls.take(i + 1).drop_last() =~= ls.take(i as int));
        assert(ls.take(i + 1).last() == descriptions@[i as int]@);
        match DoubleTransition::from_description(descriptions[i].as_str()) {
            Ok(t) => {
                out.push(t);
                assert(out@.map_values(|t: DoubleTransition| t@) =~= parse_double_lines(
                    ls.take(i as int),
                )->Ok_0.push(t@));
            },
            Err(e) => {
                proof {
                    assert(parse_double_lines(ls.take(i + 1)) == Err::<Seq<DoubleTransitionView>, FormatError>(e));
                    lemma_parse_double_lines_err(ls, i as int + 1);
                }
                return Err(e);
            },
        }
        i = i + 1;
    }
    assert(ls.take(i as int) =~= ls);
    Ok(out)
}

} // verus!
