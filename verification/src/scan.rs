//! The two primitive recognisers on string slices, and the run of characters
//! that a `Prefix` extension captures.
//!
//! Both recognisers are calls into `nom`. Their contracts are believed, not
//! proved; everything built on top of them is verified.

use vstd::prelude::*;

verus! {

/// The character that ends the run captured by a `Prefix` extension.
pub const DELIMITER: char = '_';

/// Whether `c` is the delimiter.
pub fn is_delimiter(c: char) -> (b: bool)
    ensures
        b == (c == DELIMITER),
{
    c == DELIMITER
}

/// The number of characters at the start of `s` before the first delimiter,
/// or the whole length of `s` where it holds no delimiter.
pub open spec fn run_len(s: Seq<char>) -> nat
    decreases s.len(),
{
    if s.len() == 0 || s[0] == DELIMITER {
        0
    } else {
        1 + run_len(s.skip(1))
    }
}

/// Whether `s` begins with a character that is not the delimiter, so that a
/// non-empty run can be taken from its start.
pub open spec fn begins_with_run(s: Seq<char>) -> bool {
    s.len() > 0 && s[0] != DELIMITER
}

/// Whether `run` followed by `rest` is `s`, split just before the first
/// delimiter of `s`: `run` holds no delimiter, and `rest` is empty or begins
/// with one.
pub open spec fn splits_at_delimiter(s: Seq<char>, run: Seq<char>, rest: Seq<char>) -> bool {
    &&& run + rest == s
    &&& forall|i: int| 0 <= i < run.len() ==> run[i] != DELIMITER
    &&& rest.len() > 0 ==> rest[0] == DELIMITER
}

/// The run is free of delimiters, cannot be extended, and never exceeds the
/// sequence it is taken from.
pub proof fn lemma_run_len_is_maximal(s: Seq<char>)
    ensures
        run_len(s) <= s.len(),
        splits_at_delimiter(s, s.take(run_len(s) as int), s.skip(run_len(s) as int)),
    decreases s.len(),
{
    let n = run_len(s) as int;
    if s.len() == 0 || s[0] == DELIMITER {
        assert(s.take(0) + s.skip(0) =~= s);
    } else {
        let t = s.skip(1);
        lemma_run_len_is_maximal(t);
        let m = run_len(t) as int;
        assert(n == m + 1);
        assert(s.take(n) + s.skip(n) =~= s);
        assert forall|i: int| 0 <= i < s.take(n).len() implies s.take(n)[i] != DELIMITER by {
            if i > 0 {
                assert(s.take(n)[i] == t.take(m)[i - 1]);
            }
        }
        assert(s.skip(n) =~= t.skip(m));
    }
}

/// There is only one way to split a sequence just before its first
/// delimiter, and `run_len` gives it.
pub proof fn lemma_run_len_is_unique(s: Seq<char>, run: Seq<char>, rest: Seq<char>)
    requires
        splits_at_delimiter(s, run, rest),
    ensures
        run.len() == run_len(s),
        run == s.take(run_len(s) as int),
        rest == s.skip(run_len(s) as int),
    decreases s.len(),
{
    assert(s.len() == run.len() + rest.len());
    if run.len() == 0 {
        assert(rest =~= s);
    } else {
        assert(s[0] == run[0]);
        let t = s.skip(1);
        let shorter = run.skip(1);
        assert(shorter + rest =~= t);
        assert forall|i: int| 0 <= i < shorter.len() implies shorter[i] != DELIMITER by {
            assert(shorter[i] == run[i + 1]);
        }
        lemma_run_len_is_unique(t, shorter, rest);
    }
    assert(run =~= s.take(run.len() as int));
    assert(rest =~= s.skip(run.len() as int));
}

/// `nom::bytes::complete::tag`, applied to `literal` and then to `input`.
///
/// The contract claims: the call succeeds exactly when `input` begins with
/// `literal`, and then hands back the rest of `input` and the part that
/// matched, which is `literal` itself. `nom` compares the two slices byte by
/// byte; for two strings, one begins with the other's bytes exactly when it
/// begins with the other's characters. On failure `nom` reports the input
/// unchanged, so nothing is lost by returning `None`.
#[verifier::external_body]
pub(crate) fn strip_literal<'a>(input: &'a str, literal: &str) -> (r: Option<(&'a str, &'a str)>)
    ensures
        r is Some <==> literal@.is_prefix_of(input@),
        r matches Some((rest, hit)) ==> hit@ == literal@ && hit@ + rest@ == input@,
{
    nom::bytes::complete::tag::<&str, &'a str, nom::error::Error<&'a str>>(literal)(input).ok()
}

/// `nom::bytes::complete::take_till1`, given the delimiter test and then
/// applied to `input`.
///
/// The contract claims: the call succeeds exactly when `input` is non-empty
/// and does not begin with the delimiter, and then hands back the rest of
/// `input` and the run taken from its start, split just before the first
/// delimiter (or at the end of `input` where there is none). On failure
/// `nom` reports the input unchanged, so nothing is lost by returning `None`.
#[verifier::external_body]
pub(crate) fn take_run<'a>(input: &'a str) -> (r: Option<(&'a str, &'a str)>)
    ensures
        r is Some <==> begins_with_run(input@),
        r matches Some((rest, run)) ==> splits_at_delimiter(input@, run@, rest@),
{
    nom::bytes::complete::take_till1::<_, &'a str, nom::error::Error<&'a str>>(
        |c: char| is_delimiter(c),
    )(input).ok()
}

} // verus!
