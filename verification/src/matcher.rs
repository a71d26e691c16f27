//! Matching one capability against the start of the input.

use vstd::prelude::*;

use crate::scan::{
    lemma_run_len_is_maximal, lemma_run_len_is_unique, run_len, strip_literal, take_run, DELIMITER,
};
use crate::shape::{model_of, texts, CapabilityModel, Extension, ExtensionShape, IntoExtensionShape,
    ShapeModel};

verus! {

/// A capability does not apply at the start of the input. The search over a
/// pool takes this as the signal to try the next capability; it never reaches
/// the caller of a whole decode.
#[derive(Debug)]
pub struct NoMatch<'a> {
    /// The input from the point where the mismatch was detected. This is the
    /// whole input where the literal is absent, and the input after the
    /// literal where a `Prefix` literal is present but no run follows it.
    pub rest: &'a str,
}

/// A successful match, as mathematics: what is left of the input, and the
/// texts of the tokens produced.
pub ghost struct MatchModel {
    pub rest: Seq<char>,
    pub tokens: Seq<Seq<char>>,
}

/// What matching `cap` against the start of `input` gives: the match, or the
/// input from the point where the mismatch was detected.
///
/// Every shape needs `input` to begin with the literal. `Tag` and `Multi`
/// consume the literal alone; `Tag` yields the literal as its one token and
/// `Multi` yields the capability's own tokens, whatever follows. `Prefix`
/// also consumes the run after the literal up to the next delimiter, needs
/// that run to be non-empty, and yields the literal and the run as one token.
pub open spec fn match_one(input: Seq<char>, cap: CapabilityModel) -> Result<MatchModel, Seq<char>> {
    let literal = cap.shape.literal();
    if !literal.is_prefix_of(input) {
        Err(input)
    } else {
        let tail = input.skip(literal.len() as int);
        match cap.shape {
            ShapeModel::Tag(_) => Ok(MatchModel { rest: tail, tokens: seq![literal] }),
            ShapeModel::Prefix(_) => {
                let n = run_len(tail) as int;
                if n == 0 {
                    Err(tail)
                } else {
                    Ok(MatchModel { rest: tail.skip(n), tokens: seq![literal + tail.take(n)] })
                }
            },
            ShapeModel::Multi(_) => Ok(MatchModel { rest: tail, tokens: cap.tokens }),
        }
    }
}

/// Whether `cap` matches at the start of `input`.
pub open spec fn matches_at(input: Seq<char>, cap: CapabilityModel) -> bool {
    match_one(input, cap) is Ok
}

/// The mathematical value of what [`parse_one`] returns.
pub open spec fn outcome_model(r: Result<(&str, Vec<Extension>), NoMatch>) -> Result<
    MatchModel,
    Seq<char>,
> {
    match r {
        Ok((rest, tokens)) => Ok(MatchModel { rest: rest@, tokens: texts(tokens@) }),
        Err(e) => Err(e.rest@),
    }
}

/// Matches one capability against the start of `input`.
///
/// On success returns the unconsumed remainder and the decoded tokens; on
/// failure, the point of the mismatch. Which of the two, and with what
/// values, is given by [`match_one`] on the capability's shape and tokens.
pub fn parse_one<'a, C: IntoExtensionShape + ?Sized>(input: &'a str, ext: &C) -> (r: Result<
    (&'a str, Vec<Extension>),
    NoMatch<'a>,
>)
    ensures
        outcome_model(r) == match_one(input@, model_of(ext)),
{
    let shape = ext.into_shape();
    let id = shape.identifier();
    match strip_literal(input, id) {
        None => Err(NoMatch { rest: input }),
        Some((tail, hit)) => {
            assert(tail@ =~= input@.skip(id@.len() as int));
            match shape {
                ExtensionShape::Tag(_) => {
                    let tokens = vec![Extension(hit.to_owned())];
                    assert(texts(tokens@) =~= seq![id@]);
                    Ok((tail, tokens))
                },
                ExtensionShape::Prefix(_) => match take_run(tail) {
                    None => Err(NoMatch { rest: tail }),
                    Some((rest, run)) => {
                        proof {
                            lemma_run_len_is_unique(tail@, run@, rest@);
                        }
                        let mut text = hit.to_owned();
                        text.append(run);
                        let tokens = vec![Extension(text)];
                        assert(texts(tokens@) =~= seq![id@ + run@]);
                        Ok((rest, tokens))
                    },
                },
                ExtensionShape::Multi(_) => Ok((tail, ext.generate())),
            }
        },
    }
}

/// A `Tag` matches exactly when the input begins with its literal, and then
/// consumes the literal and nothing more, yielding it as the one token.
pub proof fn lemma_tag_is_exact(input: Seq<char>, literal: Seq<char>, tokens: Seq<Seq<char>>)
    ensures
        ({
            let cap = CapabilityModel { shape: ShapeModel::Tag(literal), tokens };
            &&& matches_at(input, cap) <==> literal.is_prefix_of(input)
            &&& match_one(input, cap) matches Ok(m) ==> {
                &&& literal + m.rest == input
                &&& input.len() - m.rest.len() == literal.len()
                &&& m.tokens == seq![literal]
            }
            &&& match_one(input, cap) matches Err(at) ==> at == input
        }),
{
    if literal.is_prefix_of(input) {
        assert(literal + input.skip(literal.len() as int) =~= input);
    }
}

/// A `Prefix` fails whenever its literal is absent, the input ends right
/// after the literal, or the character right after the literal is the
/// delimiter, and matches in every other case. When it matches, the run it
/// captures is the longest one: it holds no delimiter, and what is left of
/// the input is empty or begins with the delimiter. The one token is the
/// literal followed by the run.
pub proof fn lemma_prefix_takes_longest_run(
    input: Seq<char>,
    literal: Seq<char>,
    tokens: Seq<Seq<char>>,
)
    ensures
        ({
            let cap = CapabilityModel { shape: ShapeModel::Prefix(literal), tokens };
            let n = literal.len() as int;
            &&& matches_at(input, cap) <==> {
                &&& literal.is_prefix_of(input)
                &&& input.len() > n
                &&& input[n] != DELIMITER
            }
            &&& match_one(input, cap) matches Ok(m) ==> {
                &&& m.tokens.len() == 1
                &&& m.tokens[0] + m.rest == input
                &&& m.tokens[0].len() > n
                &&& m.tokens[0].take(n) == literal
                &&& forall|i: int| n <= i < m.tokens[0].len() ==> m.tokens[0][i] != DELIMITER
                &&& m.rest.len() > 0 ==> m.rest[0] == DELIMITER
            }
            &&& match_one(input, cap) matches Err(at) ==> {
                if literal.is_prefix_of(input) {
                    at == input.skip(n)
                } else {
                    at == input
                }
            }
        }),
{
    let n = literal.len() as int;
    if literal.is_prefix_of(input) {
        let tail = input.skip(n);
        let k = run_len(tail) as int;
        lemma_run_len_is_maximal(tail);
        assert(literal + tail =~= input);
        if input.len() > n {
            assert(tail[0] == input[n]);
        }
        if k > 0 {
            let token = literal + tail.take(k);
            assert(token + tail.skip(k) =~= input);
            assert(token.take(n) =~= literal);
            assert forall|i: int| n <= i < token.len() implies token[i] != DELIMITER by {
                assert(token[i] == tail.take(k)[i - n]);
            }
        }
    }
}

/// What a `Multi` yields does not depend on the input: wherever it matches,
/// its tokens are the capability's own. It matches exactly when the input
/// begins with its literal, and consumes the literal and nothing more.
pub proof fn lemma_multi_ignores_input(
    first: Seq<char>,
    second: Seq<char>,
    literal: Seq<char>,
    tokens: Seq<Seq<char>>,
)
    ensures
        ({
            let cap = CapabilityModel { shape: ShapeModel::Multi(literal), tokens };
            &&& matches_at(first, cap) <==> literal.is_prefix_of(first)
            &&& match_one(first, cap) matches Ok(m) ==> m.tokens == tokens && literal + m.rest
                == first
            &&& matches_at(first, cap) && matches_at(second, cap) ==> match_one(first, cap)->Ok_0.tokens
                == match_one(second, cap)->Ok_0.tokens
        }),
{
    if literal.is_prefix_of(first) {
        assert(literal + first.skip(literal.len() as int) =~= first);
    }
}

} // verus!
