//! Splitting lines into whitespace-separated fields, and decimal numbers.
use crate::types::{decimal, digit_char};
use vstd::prelude::*;
use vstd::string::*;

verus! {

/// The characters that separate fields.
pub open spec fn is_space(c: char) -> bool {
    c == ' ' || c == '\t' || c == '\n' || c == '\r'
}

/// The length of the run of non-space characters that `s` starts with.
pub open spec fn word_len(s: Seq<char>) -> nat
    decreases s.len(),
{
    if s.len() == 0 || is_space(s[0]) {
        0
    } else {
        1 + word_len(s.drop_first())
    }
}

/// The maximal runs of non-space characters of `s`, left to right.
pub open spec fn fields(s: Seq<char>) -> Seq<Seq<char>>
    decreases s.len() via fields_decreases
{
    if s.len() == 0 {
        seq![]
    } else if is_space(s[0]) {
        fields(s.drop_first())
    } else {
        let w = word_len(s);
        seq![s.take(w as int)] + fields(s.skip(w as int))
    }
}

#[via_fn]
proof fn fields_decreases(s: Seq<char>) {
    lemma_word_len_bound(s);
}

/// A non-empty text without separators.
pub open spec fn is_word(w: Seq<char>) -> bool {
    w.len() > 0 && forall|i: int| 0 <= i < w.len() ==> !is_space(#[trigger] w[i])
}

pub open spec fn is_digit_char(c: char) -> bool {
    '0' <= c && c <= '9'
}

/// The value of a text of decimal digits.
pub open spec fn digits_value(w: Seq<char>) -> nat
    decreases w.len(),
{
    if w.len() == 0 {
        0
    } else {
        digits_value(w.drop_last()) * 10 + (w.last() as nat - '0' as nat) as nat
    }
}

/// A non-empty text of decimal digits whose value fits in `u64`.
pub open spec fn is_number(w: Seq<char>) -> bool {
    &&& w.len() > 0
    &&& forall|i: int| 0 <= i < w.len() ==> is_digit_char(#[trigger] w[i])
    &&& digits_value(w) <= u64::MAX
}

proof fn lemma_word_len(s: Seq<char>, m: int)
    requires
        0 <= m <= s.len(),
        forall|k: int| 0 <= k < m ==> !is_space(#[trigger] s[k]),
        m == s.len() || is_space(s[m]),
    ensures
        word_len(s) == m,
    decreases m,
{
    if m > 0 {
        assert forall|k: int| 0 <= k < m - 1 implies !is_space(#[trigger] s.drop_first()[k]) by {
            assert(s.drop_first()[k] == s[k + 1]);
        }
        lemma_word_len(s.drop_first(), m - 1);
    }
}

/// Fields of a word followed by a separator and more text.
pub proof fn lemma_fields_word_then(w: Seq<char>, rest: Seq<char>)
    requires
        is_word(w),
    ensures
        fields(w + seq![' '] + rest) == seq![w] + fields(rest),
        fields(w) == seq![w],
{
    let s = w + seq![' '] + rest;
    lemma_word_len(s, w.len() as int);
    assert(s.take(w.len() as int) =~= w);
    assert(s.skip(w.len() as int).drop_first() =~= rest);
    assert(fields(s.skip(w.len() as int)) == fields(rest));
    lemma_word_len(w, w.len() as int);
    assert(w.take(w.len() as int) =~= w);
    assert(w.skip(w.len() as int) =~= Seq::<char>::empty());
    assert(fields(w.skip(w.len() as int)) =~= seq![]);
    assert(seq![w] + seq![] =~= seq![w]);
}

/// Every field is a word.
pub proof fn lemma_fields_are_words(s: Seq<char>)
    ensures
        forall|i: int| 0 <= i < fields(s).len() ==> is_word(#[trigger] fields(s)[i]),
    decreases s.len(),
{
    if s.len() > 0 {
        if is_space(s[0]) {
            lemma_fields_are_words(s.drop_first());
            assert(fields(s) == fields(s.drop_first()));
        } else {
            let w = word_len(s);
            lemma_word_len_bound(s);
            lemma_fields_are_words(s.skip(w as int));
            assert forall|k: int| 0 <= k < s.take(w as int).len() implies !is_space(
                #[trigger] s.take(w as int)[k],
            ) by {
                assert(s.take(w as int)[k] == s[k]);
            }
            assert(is_word(s.take(w as int)));
            assert(fields(s) == seq![s.take(w as int)] + fields(s.skip(w as int)));
            assert forall|i: int| 0 <= i < fields(s).len() implies is_word(
                #[trigger] fields(s)[i],
            ) by {
                if i > 0 {
                    assert(fields(s)[i] == fields(s.skip(w as int))[i - 1]);
                }
            }
        }
    }
}

proof fn lemma_word_len_bound(s: Seq<char>)
    ensures
        word_len(s) <= s.len(),
        forall|k: int| 0 <= k < word_len(s) ==> !is_space(#[trigger] s[k]),
        s.len() > 0 && !is_space(s[0]) ==> word_len(s) > 0,
        word_len(s) < s.len() ==> is_space(s[word_len(s) as int]),
    decreases s.len(),
{
    if s.len() > 0 && !is_space(s[0]) {
        lemma_word_len_bound(s.drop_first());
        assert forall|k: int| 0 <= k < word_len(s) implies !is_space(#[trigger] s[k]) by {
            if k > 0 {
                assert(s[k] == s.drop_first()[k - 1]);
            }
        }
    }
}

/// The decimal notation of a number is a number text of that value.
pub proof fn lemma_decimal_is_number(n: u64)
    ensures
        is_number(decimal(n as nat)),
        digits_value(decimal(n as nat)) == n,
        is_word(decimal(n as nat)),
{
    lemma_decimal_digits(n as nat);
}

pub proof fn lemma_decimal_digits(n: nat)
    ensures
        decimal(n).len() > 0,
        forall|i: int| 0 <= i < decimal(n).len() ==> is_digit_char(#[trigger] decimal(n)[i]),
        digits_value(decimal(n)) == n,
    decreases n,
{
    let d = decimal(n);
    if n >= 10 {
        lemma_decimal_digits(n / 10);
        assert(d.drop_last() =~= decimal(n / 10));
        assert forall|i: int| 0 <= i < d.len() implies is_digit_char(#[trigger] d[i]) by {
            if i < d.len() - 1 {
                assert(d[i] == decimal(n / 10)[i]);
            }
        }
    }
    let c = digit_char(n % 10);
    assert(c as nat - '0' as nat == n % 10);
    if n >= 10 {
        assert(d.last() == c);
        assert(digits_value(d) == digits_value(decimal(n / 10)) * 10 + n % 10);
        assert(n == (n / 10) * 10 + n % 10);
    } else {
        assert(d.drop_last() =~= Seq::<char>::empty());
        assert(digits_value(d.drop_last()) == 0);
        assert(d.last() == c);
    }
}

/// The characters of a text, in order.
pub fn chars_of(s: &str) -> (r: Vec<char>)
    ensures
        r@ == s@,
{
    broadcast use vstd::string::axiom_spec_iter;

    let mut out: Vec<char> = Vec::new();
    for c in it: s.chars()
        invariant
            out@ == it.seq().take(it.index() as int),
            it.seq() == s@,
    {
        out.push(c);
        assert(out@ =~= it.seq().take(it.index() + 1));
    }
    assert(out@ =~= s@);
    out
}

/// Relies on `String::push`: appends one character.
#[verifier::external_body]
pub(crate) fn push_char(s: &mut String, c: char)
    ensures
        final(s)@ == old(s)@.push(c),
{
    s.push(c)
}

/// The characters `from..to` of `cs` as a string.
pub fn string_of(cs: &Vec<char>, from: usize, to: usize) -> (r: String)
    requires
        from <= to <= cs@.len(),
    ensures
        r@ == cs@.subrange(from as int, to as int),
{
    let mut r = String::new();
    let mut i: usize = from;
    while i < to
        invariant
            from <= i <= to <= cs@.len(),
            r@ == cs@.subrange(from as int, i as int),
        decreases to - i,
    {
        push_char(&mut r, cs[i]);
        i = i + 1;
        assert(r@ =~= cs@.subrange(from as int, i as int));
    }
    r
}

fn space_char(c: char) -> (r: bool)
    ensures
        r == is_space(c),
{
    c == ' ' || c == '\t' || c == '\n' || c == '\r'
}

/// The fields of `s`, each as a string.
pub fn split_fields(s: &str) -> (r: Vec<String>)
    ensures
        r@.len() == fields(s@).len(),
        forall|i: int| 0 <= i < r@.len() ==> #[trigger] r@[i]@ == fields(s@)[i],
{
    let cs = chars_of(s);
    let n = cs.len();
    let mut out: Vec<String> = Vec::new();
    let mut i: usize = 0;
    let ghost done: Seq<Seq<char>> = seq![];
    assert(s@.skip(0) =~= s@);
    assert(done + fields(s@) =~= fields(s@));
    while i < n
        invariant
            n == s@.len(),
            cs@ == s@,
            i <= n,
            out@.len() == done.len(),
            forall|k: int| 0 <= k < out@.len() ==> #[trigger] out@[k]@ == done[k],
            fields(s@) == done + fields(s@.skip(i as int)),
        decreases n - i,
    {
        let c = cs[i];
        let ghost rest = s@.skip(i as int);
        if space_char(c) {
            assert(rest.drop_first() =~= s@.skip(i + 1));
            i = i + 1;
        } else {
            let mut j: usize = i + 1;
            while j < n && !space_char(cs[j])
                invariant
                    n == s@.len(),
                    cs@ == s@,
                    i < j <= n,
                    forall|k: int| i <= k < j ==> !is_space(#[trigger] s@[k]),
                decreases n - j,
            {
                j = j + 1;
            }
            proof {
                assert forall|k: int| 0 <= k < j - i implies !is_space(#[trigger] rest[k]) by {
                    assert(rest[k] == s@[i + k]);
                }
                lemma_word_len(rest, j - i);
                assert(rest.take(j - i) =~= s@.subrange(i as int, j as int));
                assert(rest.skip(j - i) =~= s@.skip(j as int));
                done = done.push(s@.subrange(i as int, j as int));
            }
            let w = string_of(&cs, i, j);
            out.push(w);
            i = j;
        }
    }
    assert(s@.skip(n as int) =~= Seq::<char>::empty());
    assert(done + seq![] =~= done);
    out
}

proof fn lemma_digits_value_prefix(w: Seq<char>, k: int)
    requires
        0 <= k <= w.len(),
        forall|i: int| 0 <= i < w.len() ==> is_digit_char(#[trigger] w[i]),
    ensures
        digits_value(w) >= digits_value(w.take(k)),
    decreases w.len() - k,
{
    if k == w.len() {
        assert(w.take(k) =~= w);
    } else {
        lemma_digits_value_prefix(w, k + 1);
        assert(w.take(k + 1).drop_last() =~= w.take(k));
        let x = digits_value(w.take(k));
        let y = (w.take(k + 1).last() as nat - '0' as nat) as nat;
        assert(x * 10 + y >= x) by (nonlinear_arith);
    }
}

/// The value of a decimal number field; `None` when it is not one that fits
/// in `u64`.
pub fn parse_number(w: &str) -> (r: Option<u64>)
    ensures
        r matches Some(v) ==> is_number(w@) && v == digits_value(w@),
        r is None ==> !is_number(w@),
{
    let cs = chars_of(w);
    let n = cs.len();
    if n == 0 {
        return None;
    }
    let mut i: usize = 0;
    while i < n
        invariant
            n == w@.len(),
            cs@ == w@,
            i <= n,
            forall|k: int| 0 <= k < i ==> is_digit_char(#[trigger] w@[k]),
        decreases n - i,
    {
        let c = cs[i];
        if !('0' <= c && c <= '9') {
            return None;
        }
        i = i + 1;
    }
    let mut acc: u64 = 0;
    let mut i: usize = 0;
    while i < n
        invariant
            n == w@.len(),
            cs@ == w@,
            i <= n,
            forall|k: int| 0 <= k < n ==> is_digit_char(#[trigger] w@[k]),
            acc == digits_value(w@.take(i as int)),
        decreases n - i,
    {
        let c = cs[i];
        let d = (c as u32 - '0' as u32) as u64;
        assert(w@.take(i + 1).drop_last() =~= w@.take(i as int));
        if acc > (u64::MAX - d) / 10 {
            proof {
                lemma_digits_value_prefix(w@, i + 1);
            }
            return None;
        }
        acc = acc * 10 + d;
        i = i + 1;
    }
    assert(w@.take(n as int) =~= w@);
    Some(acc)
}

} // verus!
